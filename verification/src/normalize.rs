//! The item normalizer: from the raw definitions of a feed to the table of
//! item records.

use crate::bag::AttributeBag;
use crate::coerce::{integer_of_text, parse_integer, Raw, RawValue};
use crate::error::FeedError;
use crate::interpret::{interpret_bag, interpreted};
use crate::item::{blank_item, Item, ItemView};
use crate::rules::{standard_rules, RuleSet, RuleView};
use crate::text::chars_of;
use vstd::prelude::*;

verus! {

/// The ability blocks of a raw item.
#[derive(Clone, Debug, PartialEq, Eq)]
pub enum BagList {
    /// The bags in the order of the feed; none where the item has no
    /// ability block.
    Bags(Vec<AttributeBag>),
    /// The entry is no object, or what it holds under the ability block is
    /// no list of bags.
    Malformed,
}

/// A [`BagList`] with each bag as a mapping.
pub enum BagListView {
    Bags(Seq<Map<Seq<char>, Raw>>),
    Malformed,
}

impl View for BagList {
    type V = BagListView;

    open spec fn view(&self) -> BagListView {
        match self {
            BagList::Bags(bags) => BagListView::Bags(bags@.map_values(|bag: AttributeBag| bag@)),
            BagList::Malformed => BagListView::Malformed,
        }
    }
}

/// One entry of the item feed, as it was read: nothing in it has been
/// checked or parsed yet.
#[derive(Clone, Debug, PartialEq, Eq)]
pub struct RawItemDefinition {
    /// The item's identifier, of the form `item_<shortname>`.
    pub identifier: String,
    /// The obsolete marker, where the entry has one.
    pub obsolete: Option<RawValue>,
    /// The cost, where the entry has one.
    pub cost: Option<RawValue>,
    /// The neutral-drop marker, where the entry has one.
    pub neutral_drop: Option<RawValue>,
    /// The attribute bags of the entry.
    pub bags: BagList,
}

/// A [`RawItemDefinition`] over sequences and mappings.
pub struct RawItemView {
    pub identifier: Seq<char>,
    pub obsolete: Option<Raw>,
    pub cost: Option<Raw>,
    pub neutral_drop: Option<Raw>,
    pub bags: BagListView,
}

/// The view of a value that may be missing.
pub open spec fn optional_view(value: Option<RawValue>) -> Option<Raw> {
    match value {
        Some(v) => Some(v@),
        None => None,
    }
}

impl View for RawItemDefinition {
    type V = RawItemView;

    open spec fn view(&self) -> RawItemView {
        RawItemView {
            identifier: self.identifier@,
            obsolete: optional_view(self.obsolete),
            cost: optional_view(self.cost),
            neutral_drop: optional_view(self.neutral_drop),
            bags: self.bags@,
        }
    }
}

/// The views of a list of raw items.
pub open spec fn raw_views(raws: Seq<RawItemDefinition>) -> Seq<RawItemView> {
    raws.map_values(|raw: RawItemDefinition| raw@)
}

/// The views of a list of items.
pub open spec fn item_views(items: Seq<Item>) -> Seq<ItemView> {
    items.map_values(|item: Item| item@)
}

/// Whether an obsolete marker's text declares the item obsolete: it must
/// write an integer, and the item is obsolete where that is positive.
pub open spec fn obsolete_text(text: Seq<char>) -> Result<bool, FeedError> {
    match integer_of_text(text) {
        Some(n) => Ok(n > 0),
        None => Err(FeedError::MalformedInput),
    }
}

/// The cost that a text writes: zero for the empty text, else the integer
/// that it must write.
pub open spec fn cost_text(text: Seq<char>) -> Result<i32, FeedError> {
    if text.len() == 0 {
        Ok(0)
    } else {
        match integer_of_text(text) {
            Some(n) => Ok(n),
            None => Err(FeedError::MalformedInput),
        }
    }
}

/// What a neutral-drop marker's text says: no for the empty text and for
/// `0`, yes for `1`. Any other text has no stated meaning.
pub open spec fn neutral_text(text: Seq<char>) -> Result<bool, FeedError> {
    if text.len() == 0 || text =~= seq!['0'] {
        Ok(false)
    } else if text =~= seq!['1'] {
        Ok(true)
    } else {
        Err(FeedError::UnspecifiedTriState)
    }
}

/// Whether a raw item is obsolete. A marker that is no text is malformed.
pub open spec fn obsolete_of(marker: Option<Raw>) -> Result<bool, FeedError> {
    match marker {
        None => Ok(false),
        Some(Raw::Text(text)) => obsolete_text(text),
        Some(_) => Err(FeedError::MalformedInput),
    }
}

/// The cost of a raw item: zero where it has none. A cost that is no text
/// is malformed.
pub open spec fn cost_of(cost: Option<Raw>) -> Result<i32, FeedError> {
    match cost {
        None => Ok(0),
        Some(Raw::Text(text)) => cost_text(text),
        Some(_) => Err(FeedError::MalformedInput),
    }
}

/// Whether a raw item is a neutral drop. A marker that is no text is
/// malformed; a text without a stated meaning does not stop the run and
/// counts as no.
pub open spec fn neutral_of(marker: Option<Raw>) -> Result<bool, FeedError> {
    match marker {
        None => Ok(false),
        Some(Raw::Text(text)) => match neutral_text(text) {
            Ok(neutral) => Ok(neutral),
            Err(_) => Ok(false),
        },
        Some(_) => Err(FeedError::MalformedInput),
    }
}

/// What the bags of an item, one after the other, do to its record, and
/// whether any of them held a bonus. The first bag that fails fails all.
pub open spec fn interpreted_all(
    rules: Seq<RuleView>,
    identifier: Seq<char>,
    bags: Seq<Map<Seq<char>, Raw>>,
    item: ItemView,
) -> Result<(ItemView, bool), FeedError>
    decreases bags.len(),
{
    if bags.len() == 0 {
        Ok((item, false))
    } else {
        match interpreted_all(rules, identifier, bags.drop_last(), item) {
            Err(e) => Err(e),
            Ok((record, found)) => match interpreted(rules, identifier, bags.last(), record) {
                Err(e) => Err(e),
                Ok((after, here)) => Ok((after, found || here)),
            },
        }
    }
}

/// The record with which the interpretation of an item's bags starts.
pub open spec fn starting_item(identifier: Seq<char>, cost: i32, neutral: bool) -> ItemView {
    ItemView { cost, is_neutral_item: neutral, ..blank_item(identifier) }
}

/// The record of one raw item, or `None` where the item is left out: an
/// obsolete item always, a useless one where `drop_useless` is set.
///
/// The obsolete marker is looked at first, and nothing else of an obsolete
/// item is read. Then come the cost, the neutral-drop marker and the bags.
/// The item is useless exactly where none of its bags held a bonus.
pub open spec fn normalized(rules: Seq<RuleView>, raw: RawItemView, drop_useless: bool) -> Result<
    Option<ItemView>,
    FeedError,
> {
    match obsolete_of(raw.obsolete) {
        Err(e) => Err(e),
        Ok(true) => Ok(None),
        Ok(false) => match cost_of(raw.cost) {
            Err(e) => Err(e),
            Ok(cost) => match neutral_of(raw.neutral_drop) {
                Err(e) => Err(e),
                Ok(neutral) => match raw.bags {
                    BagListView::Malformed => Err(FeedError::MalformedInput),
                    BagListView::Bags(bags) => match interpreted_all(
                        rules,
                        raw.identifier,
                        bags,
                        starting_item(raw.identifier, cost, neutral),
                    ) {
                        Err(e) => Err(e),
                        Ok((record, found)) => if drop_useless && !found {
                            Ok(None)
                        } else {
                            Ok(Some(ItemView { is_useless_item: !found, ..record }))
                        },
                    },
                },
            },
        },
    }
}

/// The table of a feed: the records of its items in the order of the feed,
/// without those that are left out. The first item that fails fails the run.
pub open spec fn normalized_all(
    rules: Seq<RuleView>,
    raws: Seq<RawItemView>,
    drop_useless: bool,
) -> Result<Seq<ItemView>, FeedError>
    decreases raws.len(),
{
    if raws.len() == 0 {
        Ok(Seq::empty())
    } else {
        match normalized_all(rules, raws.drop_last(), drop_useless) {
            Err(e) => Err(e),
            Ok(items) => match normalized(rules, raws.last(), drop_useless) {
                Err(e) => Err(e),
                Ok(None) => Ok(items),
                Ok(Some(item)) => Ok(items.push(item)),
            },
        }
    }
}

/// Whether `returned` is the table `expected`, or its error.
pub open spec fn is_table(expected: Result<Seq<ItemView>, FeedError>, returned: Result<
    Vec<Item>,
    FeedError,
>) -> bool {
    match expected {
        Ok(items) => returned is Ok && item_views(returned->Ok_0@) == items,
        Err(e) => returned is Err && returned->Err_0 == e,
    }
}

/// Whether `returned` is the record `expected`, its absence, or its error.
pub open spec fn is_record(expected: Result<Option<ItemView>, FeedError>, returned: Result<
    Option<Item>,
    FeedError,
>) -> bool {
    match expected {
        Ok(Some(item)) => returned is Ok && returned->Ok_0 is Some && returned->Ok_0->0@ == item,
        Ok(None) => returned is Ok && returned->Ok_0 is None,
        Err(e) => returned is Err && returned->Err_0 == e,
    }
}

/// Reads the text of an obsolete marker.
pub fn parse_obsolete(text: &str) -> (r: Result<bool, FeedError>)
    ensures
        r == obsolete_text(text@),
{
    match parse_integer(text) {
        Some(n) => Ok(n > 0),
        None => Err(FeedError::MalformedInput),
    }
}

/// Reads the text of a cost: the empty text is zero, any other text must
/// write an integer.
pub fn parse_cost(text: &str) -> (r: Result<i32, FeedError>)
    ensures
        r == cost_text(text@),
{
    if text.is_empty() {
        Ok(0)
    } else {
        match parse_integer(text) {
            Some(n) => Ok(n),
            None => Err(FeedError::MalformedInput),
        }
    }
}

/// Reads the text of a neutral-drop marker. A text other than the empty
/// one, `0` and `1` is reported as [`FeedError::UnspecifiedTriState`].
pub fn parse_neutral_drop(text: &str) -> (r: Result<bool, FeedError>)
    ensures
        r == neutral_text(text@),
{
    let cs = chars_of(text);
    if cs.len() == 0 {
        Ok(false)
    } else if cs.len() == 1 && cs[0] == '0' {
        assert(text@ =~= seq!['0']);
        Ok(false)
    } else if cs.len() == 1 && cs[0] == '1' {
        assert(text@ =~= seq!['1']);
        Ok(true)
    } else {
        Err(FeedError::UnspecifiedTriState)
    }
}

/// Whether the item with this marker is obsolete.
pub fn read_obsolete(marker: &Option<RawValue>) -> (r: Result<bool, FeedError>)
    ensures
        r == obsolete_of(optional_view(*marker)),
{
    match marker {
        None => Ok(false),
        Some(RawValue::Text(text)) => parse_obsolete(text.as_str()),
        Some(_) => Err(FeedError::MalformedInput),
    }
}

/// The cost of the item with this cost entry.
pub fn read_cost(cost: &Option<RawValue>) -> (r: Result<i32, FeedError>)
    ensures
        r == cost_of(optional_view(*cost)),
{
    match cost {
        None => Ok(0),
        Some(RawValue::Text(text)) => parse_cost(text.as_str()),
        Some(_) => Err(FeedError::MalformedInput),
    }
}

/// Whether the item with this marker is a neutral drop.
pub fn read_neutral_drop(marker: &Option<RawValue>) -> (r: Result<bool, FeedError>)
    ensures
        r == neutral_of(optional_view(*marker)),
{
    match marker {
        None => Ok(false),
        Some(RawValue::Text(text)) => match parse_neutral_drop(text.as_str()) {
            Ok(neutral) => Ok(neutral),
            Err(_) => Ok(false),
        },
        Some(_) => Err(FeedError::MalformedInput),
    }
}

/// Whether `after` is the record `before` with the bags up to the first
/// that fails interpreted, and without those from that bag on.
pub open spec fn stopped_at_failure(
    rules: Seq<RuleView>,
    identifier: Seq<char>,
    bags: Seq<Map<Seq<char>, Raw>>,
    before: ItemView,
    after: ItemView,
) -> bool {
    exists|k: int|
        0 <= k < bags.len() && (#[trigger] interpreted_all(rules, identifier, bags.take(k), before)
            matches Ok((record, _)) && record == after && interpreted(
            rules,
            identifier,
            bags[k],
            after,
        ) is Err)
}

/// Interprets the bags of an item one after the other. Returns whether any
/// of them held a bonus. The first bag that fails ends the work, and the
/// record is left as the bags before it made it.
pub fn interpret_bags(
    rules: &RuleSet,
    identifier: &str,
    bags: &Vec<AttributeBag>,
    item: &mut Item,
) -> (r: Result<bool, FeedError>)
    ensures
        match interpreted_all(
            rules@,
            identifier@,
            bags@.map_values(|bag: AttributeBag| bag@),
            old(item)@,
        ) {
            Ok((record, found)) => r == Ok::<bool, FeedError>(found) && final(item)@ == record,
            Err(e) => r == Err::<bool, FeedError>(e) && stopped_at_failure(
                rules@,
                identifier@,
                bags@.map_values(|bag: AttributeBag| bag@),
                old(item)@,
                final(item)@,
            ),
        },
{
    let ghost all = bags@.map_values(|bag: AttributeBag| bag@);
    let mut found: bool = false;
    let mut i: usize = 0;
    assert(all.take(0) =~= Seq::empty());
    while i < bags.len()
        invariant
            i <= bags.len(),
            all == bags@.map_values(|bag: AttributeBag| bag@),
            interpreted_all(rules@, identifier@, all.take(i as int), old(item)@) == Ok::<
                (ItemView, bool),
                FeedError,
            >((item@, found)),
        decreases bags.len() - i,
    {
        proof {
            assert(all.take(i + 1).drop_last() =~= all.take(i as int));
            assert(all.take(i + 1).last() == bags@[i as int]@);
        }
        let ghost upto = all.take(i + 1);
        match interpret_bag(rules, identifier, &bags[i], item) {
            Ok(here) => {
                found = found || here;
            },
            Err(e) => {
                proof {
                    lemma_failure_stays(rules@, identifier@, all, i + 1, old(item)@);
                    assert(interpreted_all(rules@, identifier@, all.take(i as int), old(item)@)
                        matches Ok((record, _)) && record == item@);
                }
                return Err(e);
            },
        }
        i += 1;
    }
    assert(all.take(i as int) =~= all);
    Ok(found)
}

/// Once the bags up to some place have failed, all the bags fail the same.
proof fn lemma_failure_stays(
    rules: Seq<RuleView>,
    identifier: Seq<char>,
    bags: Seq<Map<Seq<char>, Raw>>,
    upto: int,
    item: ItemView,
)
    requires
        0 <= upto <= bags.len(),
        interpreted_all(rules, identifier, bags.take(upto), item) is Err,
    ensures
        interpreted_all(rules, identifier, bags, item) == interpreted_all(
            rules,
            identifier,
            bags.take(upto),
            item,
        ),
    decreases bags.len() - upto,
{
    if upto < bags.len() {
        assert(bags.take(upto + 1).drop_last() =~= bags.take(upto));
        lemma_failure_stays(rules, identifier, bags, upto + 1, item);
    } else {
        assert(bags.take(upto) =~= bags);
    }
}

/// Normalizes one raw item under the given rules. Returns its record, or
/// `None` where the item is left out.
pub fn normalize_item_with(rules: &RuleSet, raw: &RawItemDefinition, drop_useless: bool) -> (r:
    Result<Option<Item>, FeedError>)
    ensures
        is_record(normalized(rules@, raw@, drop_useless), r),
{
    match read_obsolete(&raw.obsolete) {
        Err(e) => {
            return Err(e);
        },
        Ok(true) => {
            return Ok(None);
        },
        Ok(false) => {},
    }
    let cost: i32 = match read_cost(&raw.cost) {
        Err(e) => {
            return Err(e);
        },
        Ok(cost) => cost,
    };
    let neutral: bool = match read_neutral_drop(&raw.neutral_drop) {
        Err(e) => {
            return Err(e);
        },
        Ok(neutral) => neutral,
    };
    let mut item = Item::named(raw.identifier.clone());
    item.cost = cost;
    item.is_neutral_item = neutral;
    match &raw.bags {
        BagList::Malformed => Err(FeedError::MalformedInput),
        BagList::Bags(bags) => match interpret_bags(
            rules,
            raw.identifier.as_str(),
            bags,
            &mut item,
        ) {
            Err(e) => Err(e),
            Ok(found) => {
                item.is_useless_item = !found;
                if drop_useless && !found {
                    Ok(None)
                } else {
                    Ok(Some(item))
                }
            },
        },
    }
}

/// Normalizes a feed under the given rules: the records of its items in
/// the order of the feed, without the obsolete ones and, where
/// `drop_useless` is set, without the useless ones.
pub fn normalize_items_with(
    rules: &RuleSet,
    raws: &Vec<RawItemDefinition>,
    drop_useless: bool,
) -> (r: Result<Vec<Item>, FeedError>)
    ensures
        is_table(normalized_all(rules@, raw_views(raws@), drop_useless), r),
{
    let ghost all = raw_views(raws@);
    let mut items: Vec<Item> = Vec::new();
    let mut i: usize = 0;
    assert(all.take(0) =~= Seq::empty());
    assert(item_views(items@) =~= Seq::empty());
    while i < raws.len()
        invariant
            i <= raws.len(),
            all == raw_views(raws@),
            normalized_all(rules@, all.take(i as int), drop_useless) == Ok::<
                Seq<ItemView>,
                FeedError,
            >(item_views(items@)),
        decreases raws.len() - i,
    {
        proof {
            assert(all.take(i + 1).drop_last() =~= all.take(i as int));
            assert(all.take(i + 1).last() == raws@[i as int]@);
        }
        match normalize_item_with(rules, &raws[i], drop_useless) {
            Err(e) => {
                proof {
                    lemma_first_failure_stays(rules@, all, i + 1, drop_useless);
                }
                return Err(e);
            },
            Ok(None) => {},
            Ok(Some(item)) => {
                let ghost before = items@;
                items.push(item);
                assert(item_views(items@) =~= item_views(before).push(item@));
            },
        }
        i += 1;
    }
    assert(all.take(i as int) =~= all);
    Ok(items)
}

/// Once the items up to some place have failed, the whole feed fails the
/// same.
proof fn lemma_first_failure_stays(
    rules: Seq<RuleView>,
    raws: Seq<RawItemView>,
    upto: int,
    drop_useless: bool,
)
    requires
        0 <= upto <= raws.len(),
        normalized_all(rules, raws.take(upto), drop_useless) is Err,
    ensures
        normalized_all(rules, raws, drop_useless) == normalized_all(
            rules,
            raws.take(upto),
            drop_useless,
        ),
    decreases raws.len() - upto,
{
    if upto < raws.len() {
        assert(raws.take(upto + 1).drop_last() =~= raws.take(upto));
        lemma_first_failure_stays(rules, raws, upto + 1, drop_useless);
    } else {
        assert(raws.take(upto) =~= raws);
    }
}

/// Normalizes one raw item under the table of the known exceptions.
pub fn normalize_item(raw: &RawItemDefinition, drop_useless: bool) -> (r: Result<
    Option<Item>,
    FeedError,
>)
    ensures
        is_record(normalized(standard_rules(), raw@, drop_useless), r),
{
    let rules = RuleSet::standard();
    normalize_item_with(&rules, raw, drop_useless)
}

/// Normalizes a feed under the table of the known exceptions.
pub fn normalize_items(raws: &Vec<RawItemDefinition>, drop_useless: bool) -> (r: Result<
    Vec<Item>,
    FeedError,
>)
    ensures
        is_table(normalized_all(standard_rules(), raw_views(raws@), drop_useless), r),
{
    let rules = RuleSet::standard();
    normalize_items_with(&rules, raws, drop_useless)
}

} // verus!
