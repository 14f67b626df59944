//! The feeds as JSON documents: what a document of each feed holds, read
//! into raw entries without checking or parsing any of it.

use crate::bag::AttributeBag;
use crate::coerce::{integer64_of_text, parse_integer64, Raw, RawValue};
use crate::decimal::{decimal_of_text, parse_decimal};
use crate::error::FeedError;
use crate::hero::{raw_hero_views, RawHero, RawHeroView};
use crate::json::{
    elements_of, find_member, member_of, members_of, pointed, text_of, Json, Member,
};
use crate::names::{DisplayNameIndex, NameEntry, NameEntryView};
use crate::normalize::{
    optional_view, raw_views, BagList, BagListView, RawItemDefinition, RawItemView,
};
use crate::text::same_text;
use vstd::prelude::*;

verus! {


/// The feed's encoding of a JSON value: a number is an integer where its
/// text writes one of 64 bits, and else the decimal that its text writes; a
/// string is a text; anything else, a number that writes no decimal too, is
/// of another kind.
pub open spec fn raw_value_of(value: Json) -> Raw {
    match value {
        Json::Number(text) => match integer64_of_text(text@) {
            Some(n) => Raw::Integer(n),
            None => match decimal_of_text(text@) {
                Some(d) => Raw::Decimal(d),
                None => Raw::Other,
            },
        },
        Json::Text(text) => Raw::Text(text@),
        _ => Raw::Other,
    }
}

/// The encoding of a value that may be missing.
pub open spec fn optional_raw(value: Option<Json>) -> Option<Raw> {
    match value {
        Some(v) => Some(raw_value_of(v)),
        None => None,
    }
}

/// The bag that the entries of a JSON object write.
pub open spec fn bag_from(entries: Seq<Member>) -> Map<Seq<char>, Raw>
    decreases entries.len(),
{
    if entries.len() == 0 {
        Map::empty()
    } else {
        bag_from(entries.drop_last()).insert(
            entries.last().key@,
            raw_value_of(entries.last().value),
        )
    }
}

/// The bags that the elements of a JSON array write, if each of them is an
/// object.
pub open spec fn bags_from(elements: Seq<Json>) -> Option<Seq<Map<Seq<char>, Raw>>>
    decreases elements.len(),
{
    if elements.len() == 0 {
        Some(Seq::empty())
    } else {
        match bags_from(elements.drop_last()) {
            None => None,
            Some(bags) => match members_of(elements.last()) {
                None => None,
                Some(entries) => Some(bags.push(bag_from(entries))),
            },
        }
    }
}

/// The bags of an ability block: none where the item has no block, and
/// malformed where the block is no array of objects.
pub open spec fn bag_list_of(block: Option<Json>) -> BagListView {
    match block {
        None => BagListView::Bags(Seq::empty()),
        Some(value) => match elements_of(value) {
            None => BagListView::Malformed,
            Some(elements) => match bags_from(elements) {
                None => BagListView::Malformed,
                Some(bags) => BagListView::Bags(bags),
            },
        },
    }
}

/// The raw item that the feed writes under `identifier`. An entry that is
/// no object counts as an item whose bags are malformed.
pub open spec fn raw_item_of(identifier: Seq<char>, value: Json) -> RawItemView {
    match members_of(value) {
        None => RawItemView {
            identifier,
            obsolete: None,
            cost: None,
            neutral_drop: None,
            bags: BagListView::Malformed,
        },
        Some(entries) => RawItemView {
            identifier,
            obsolete: optional_raw(member_of(entries, "IsObsolete"@)),
            cost: optional_raw(member_of(entries, "ItemCost"@)),
            neutral_drop: optional_raw(member_of(entries, "ItemIsNeutralDrop"@)),
            bags: bag_list_of(member_of(entries, "AbilitySpecial"@)),
        },
    }
}

/// The raw items that the entries of the feed's container write: one for
/// each entry but the version marker, in the order of the entries.
pub open spec fn raw_items_from(entries: Seq<Member>) -> Seq<RawItemView>
    decreases entries.len(),
{
    if entries.len() == 0 {
        Seq::empty()
    } else if entries.last().key@ == "Version"@ {
        raw_items_from(entries.drop_last())
    } else {
        raw_items_from(entries.drop_last()).push(
            raw_item_of(entries.last().key@, entries.last().value),
        )
    }
}

/// The raw items of an item document: the document must be an object that
/// holds the container of the items, an object itself, under
/// `DOTAAbilities`.
pub open spec fn item_feed_of(document: Json) -> Result<Seq<RawItemView>, FeedError> {
    match members_of(document) {
        None => Err(FeedError::MalformedInput),
        Some(top) => match member_of(top, "DOTAAbilities"@) {
            None => Err(FeedError::MalformedInput),
            Some(container) => match members_of(container) {
                None => Err(FeedError::MalformedInput),
                Some(entries) => Ok(raw_items_from(entries)),
            },
        },
    }
}

/// Reads the feed's encoding of a JSON value.
pub fn read_value(value: &Json) -> (raw: RawValue)
    ensures
        raw@ == raw_value_of(*value),
{
    match value {
        Json::Number(text) => match parse_integer64(text.as_str()) {
            Some(n) => RawValue::Integer(n),
            None => match parse_decimal(text.as_str()) {
                Some(d) => RawValue::Decimal(d),
                None => RawValue::Other,
            },
        },
        Json::Text(text) => RawValue::Text(text.clone()),
        _ => RawValue::Other,
    }
}

/// Reads a value that may be missing.
pub fn read_optional(value: Option<&Json>) -> (raw: Option<RawValue>)
    ensures
        optional_view(raw) == optional_raw(pointed(value)),
{
    match value {
        Some(v) => Some(read_value(v)),
        None => None,
    }
}

/// Reads the entries of a JSON object as a bag.
pub fn read_bag(entries: &Vec<Member>) -> (bag: AttributeBag)
    ensures
        bag@ == bag_from(entries@),
{
    let ghost all = entries@;
    let mut bag = AttributeBag::new();
    let mut i: usize = 0;
    assert(all.take(0) =~= Seq::empty());
    while i < entries.len()
        invariant
            i <= entries.len(),
            all == entries@,
            bag@ == bag_from(all.take(i as int)),
        decreases entries.len() - i,
    {
        proof {
            assert(all.take(i + 1).drop_last() =~= all.take(i as int));
            assert(all.take(i + 1).last() == all[i as int]);
        }
        bag.insert(entries[i].key.clone(), read_value(&entries[i].value));
        i += 1;
    }
    assert(all.take(i as int) =~= all);
    bag
}

/// Once an element up to some place is no object, the array writes no bags.
proof fn lemma_no_bags_stays(elements: Seq<Json>, upto: int)
    requires
        0 <= upto <= elements.len(),
        bags_from(elements.take(upto)) is None,
    ensures
        bags_from(elements) is None,
    decreases elements.len() - upto,
{
    if upto < elements.len() {
        assert(elements.take(upto + 1).drop_last() =~= elements.take(upto));
        lemma_no_bags_stays(elements, upto + 1);
    } else {
        assert(elements.take(upto) =~= elements);
    }
}

/// Reads an ability block.
pub fn read_bag_list(block: Option<&Json>) -> (bags: BagList)
    ensures
        bags@ == bag_list_of(pointed(block)),
{
    let value = match block {
        None => {
            let bags = BagList::Bags(Vec::new());
            assert(bags@->Bags_0 =~= Seq::empty());
            return bags;
        },
        Some(value) => value,
    };
    let elements = match value.elements() {
        None => {
            return BagList::Malformed;
        },
        Some(elements) => elements,
    };
    let mut bags: Vec<AttributeBag> = Vec::new();
    let mut i: usize = 0;
    assert(elements@.take(0) =~= Seq::empty());
    assert(bags@.map_values(|bag: AttributeBag| bag@) =~= Seq::empty());
    while i < elements.len()
        invariant
            i <= elements.len(),
            block == Some(value),
            elements_of(*value) == Some(elements@),
            bags_from(elements@.take(i as int)) == Some(bags@.map_values(|bag: AttributeBag| bag@)),
        decreases elements.len() - i,
    {
        proof {
            assert(elements@.take(i + 1).drop_last() =~= elements@.take(i as int));
            assert(elements@.take(i + 1).last() == elements@[i as int]);
        }
        match elements[i].members() {
            None => {
                proof {
                    lemma_no_bags_stays(elements@, i + 1);
                }
                return BagList::Malformed;
            },
            Some(entries) => {
                let ghost before = bags@;
                let bag = read_bag(entries);
                bags.push(bag);
                assert(bags@.map_values(|bag: AttributeBag| bag@) =~= before.map_values(
                    |bag: AttributeBag| bag@,
                ).push(bag@));
            },
        }
        i += 1;
    }
    assert(elements@.take(i as int) =~= elements@);
    BagList::Bags(bags)
}

/// Reads the raw item that the feed writes under `identifier`.
pub fn read_item(identifier: &str, value: &Json) -> (raw: RawItemDefinition)
    ensures
        raw@ == raw_item_of(identifier@, *value),
{
    match value.members() {
        None => RawItemDefinition {
            identifier: identifier.to_owned(),
            obsolete: None,
            cost: None,
            neutral_drop: None,
            bags: BagList::Malformed,
        },
        Some(entries) => RawItemDefinition {
            identifier: identifier.to_owned(),
            obsolete: read_optional(find_member(entries, "IsObsolete")),
            cost: read_optional(find_member(entries, "ItemCost")),
            neutral_drop: read_optional(find_member(entries, "ItemIsNeutralDrop")),
            bags: read_bag_list(find_member(entries, "AbilitySpecial")),
        },
    }
}

/// What the name feed holds for one item: the text under `dname` where the
/// entry is an object that has one.
pub open spec fn name_entry_of(value: Json) -> NameEntryView {
    match members_of(value) {
        None => NameEntryView::Malformed,
        Some(entries) => match member_of(entries, "dname"@) {
            None => NameEntryView::NoDisplayName,
            Some(display) => match text_of(display) {
                Some(text) => NameEntryView::DisplayName(text),
                None => NameEntryView::Malformed,
            },
        },
    }
}

/// The index that the entries of a name document write.
pub open spec fn name_index_from(entries: Seq<Member>) -> Map<
    Seq<char>,
    NameEntryView,
>
    decreases entries.len(),
{
    if entries.len() == 0 {
        Map::empty()
    } else {
        name_index_from(entries.drop_last()).insert(
            entries.last().key@,
            name_entry_of(entries.last().value),
        )
    }
}

/// Reads what the name feed holds for one item.
pub fn read_name_entry(value: &Json) -> (entry: NameEntry)
    ensures
        entry@ == name_entry_of(*value),
{
    match value.members() {
        None => NameEntry::Malformed,
        Some(entries) => match find_member(entries, "dname") {
            None => NameEntry::NoDisplayName,
            Some(display) => match display.text() {
                Some(text) => NameEntry::DisplayName(text.clone()),
                None => NameEntry::Malformed,
            },
        },
    }
}

/// The raw hero that the feed writes in one entry. An entry that is no
/// object counts as a hero without any field.
pub open spec fn raw_hero_of(value: Json) -> RawHeroView {
    match members_of(value) {
        None => RawHeroView {
            localized_name: None,
            primary_attr: None,
            attack_type: None,
            attack_rate: None,
        },
        Some(entries) => RawHeroView {
            localized_name: optional_raw(member_of(entries, "localized_name"@)),
            primary_attr: optional_raw(member_of(entries, "primary_attr"@)),
            attack_type: optional_raw(member_of(entries, "attack_type"@)),
            attack_rate: optional_raw(member_of(entries, "attack_rate"@)),
        },
    }
}

/// The raw heroes that the entries of a hero document write, in the order
/// of the entries.
pub open spec fn raw_heroes_from(entries: Seq<Member>) -> Seq<RawHeroView>
    decreases entries.len(),
{
    if entries.len() == 0 {
        Seq::empty()
    } else {
        raw_heroes_from(entries.drop_last()).push(raw_hero_of(entries.last().value))
    }
}

/// Reads the raw hero of one entry.
pub fn read_hero(value: &Json) -> (raw: RawHero)
    ensures
        raw@ == raw_hero_of(*value),
{
    match value.members() {
        None => RawHero {
            localized_name: None,
            primary_attr: None,
            attack_type: None,
            attack_rate: None,
        },
        Some(entries) => RawHero {
            localized_name: read_optional(find_member(entries, "localized_name")),
            primary_attr: read_optional(find_member(entries, "primary_attr")),
            attack_type: read_optional(find_member(entries, "attack_type")),
            attack_rate: read_optional(find_member(entries, "attack_rate")),
        },
    }
}

/// The index of a name document: the document must be an object.
pub open spec fn name_feed_of(document: Json) -> Result<Map<Seq<char>, NameEntryView>, FeedError> {
    match members_of(document) {
        None => Err(FeedError::MalformedInput),
        Some(entries) => Ok(name_index_from(entries)),
    }
}

/// The raw heroes of a hero document: the document must be an object.
pub open spec fn hero_feed_of(document: Json) -> Result<Seq<RawHeroView>, FeedError> {
    match members_of(document) {
        None => Err(FeedError::MalformedInput),
        Some(entries) => Ok(raw_heroes_from(entries)),
    }
}

/// Reads the raw items of an item document, in the order in which its
/// container holds them and without the version marker. Fails where the
/// document has no container.
pub fn read_items(document: &Json) -> (r: Result<Vec<RawItemDefinition>, FeedError>)
    ensures
        match item_feed_of(*document) {
            Ok(raws) => r is Ok && raw_views(r->Ok_0@) == raws,
            Err(e) => r is Err && r->Err_0 == e,
        },
{
    let top = match document.members() {
        None => {
            return Err(FeedError::MalformedInput);
        },
        Some(top) => top,
    };
    let container = match find_member(top, "DOTAAbilities") {
        None => {
            return Err(FeedError::MalformedInput);
        },
        Some(container) => container,
    };
    let entries = match container.members() {
        None => {
            return Err(FeedError::MalformedInput);
        },
        Some(entries) => entries,
    };
    let ghost all = entries@;
    let mut raws: Vec<RawItemDefinition> = Vec::new();
    let mut i: usize = 0;
    assert(all.take(0) =~= Seq::empty());
    assert(raw_views(raws@) =~= Seq::empty());
    while i < entries.len()
        invariant
            i <= entries.len(),
            all == entries@,
            raw_views(raws@) == raw_items_from(all.take(i as int)),
        decreases entries.len() - i,
    {
        proof {
            assert(all.take(i + 1).drop_last() =~= all.take(i as int));
            assert(all.take(i + 1).last() == all[i as int]);
        }
        if !same_text(entries[i].key.as_str(), "Version") {
            let ghost before = raws@;
            let raw = read_item(entries[i].key.as_str(), &entries[i].value);
            raws.push(raw);
            assert(raw_views(raws@) =~= raw_views(before).push(raw@));
        }
        i += 1;
    }
    assert(all.take(i as int) =~= all);
    Ok(raws)
}

/// Reads the index of a name document. Fails where the document is no
/// object.
pub fn read_names(document: &Json) -> (r: Result<DisplayNameIndex, FeedError>)
    ensures
        match name_feed_of(*document) {
            Ok(index) => r is Ok && r->Ok_0@ == index,
            Err(e) => r is Err && r->Err_0 == e,
        },
{
    let entries = match document.members() {
        None => {
            return Err(FeedError::MalformedInput);
        },
        Some(entries) => entries,
    };
    let ghost all = entries@;
    let mut index = DisplayNameIndex::new();
    let mut i: usize = 0;
    assert(all.take(0) =~= Seq::empty());
    while i < entries.len()
        invariant
            i <= entries.len(),
            all == entries@,
            index@ == name_index_from(all.take(i as int)),
        decreases entries.len() - i,
    {
        proof {
            assert(all.take(i + 1).drop_last() =~= all.take(i as int));
            assert(all.take(i + 1).last() == all[i as int]);
        }
        index.insert(entries[i].key.clone(), read_name_entry(&entries[i].value));
        i += 1;
    }
    assert(all.take(i as int) =~= all);
    Ok(index)
}

/// Reads the raw heroes of a hero document, in its order. Fails where the
/// document is no object.
pub fn read_heroes(document: &Json) -> (r: Result<Vec<RawHero>, FeedError>)
    ensures
        match hero_feed_of(*document) {
            Ok(raws) => r is Ok && raw_hero_views(r->Ok_0@) == raws,
            Err(e) => r is Err && r->Err_0 == e,
        },
{
    let entries = match document.members() {
        None => {
            return Err(FeedError::MalformedInput);
        },
        Some(entries) => entries,
    };
    let ghost all = entries@;
    let mut raws: Vec<RawHero> = Vec::new();
    let mut i: usize = 0;
    assert(all.take(0) =~= Seq::empty());
    assert(raw_hero_views(raws@) =~= Seq::empty());
    while i < entries.len()
        invariant
            i <= entries.len(),
            all == entries@,
            raw_hero_views(raws@) == raw_heroes_from(all.take(i as int)),
        decreases entries.len() - i,
    {
        proof {
            assert(all.take(i + 1).drop_last() =~= all.take(i as int));
            assert(all.take(i + 1).last() == all[i as int]);
        }
        let ghost before = raws@;
        let raw = read_hero(&entries[i].value);
        raws.push(raw);
        assert(raw_hero_views(raws@) =~= raw_hero_views(before).push(raw@));
        i += 1;
    }
    assert(all.take(i as int) =~= all);
    Ok(raws)
}

} // verus!
