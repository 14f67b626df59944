//! What holds of the normalizer, of the name resolver and of the key names
//! on every feed.

use crate::coerce::{integer_of, integer_of_text, ratio_of, Raw};
use crate::decimal::Decimal;
use crate::error::FeedError;
use crate::feed::item_table;
use crate::interpret::{first_recognized, first_recognized_from, interpreted, written};
use crate::item::{Item, ItemView};
use crate::keys::{key_name, recognized_keys, BonusKey, KEY_COUNT};
use crate::names::{renamed, short_name_of, NameEntryView, PREFIX_LENGTH};
use crate::normalize::{
    interpreted_all, is_table, item_views, normalized, normalized_all, BagListView, RawItemView,
};
use crate::row::item_rows_of;
use crate::rules::{policy_from, policy_in, standard_rules, Policy, RuleView};
use vstd::prelude::*;
use vstd::utf8::{
    decode_utf8, encode_utf8, encode_utf8_decode_utf8, encode_utf8_first_scalar,
    encode_utf8_valid_utf8, is_char_boundary,
};

verus! {

/// Whether `bag` holds a value under one of the recognized keys.
pub open spec fn holds_recognized_key(bag: Map<Seq<char>, Raw>) -> bool {
    exists|i: int|
        0 <= i < KEY_COUNT && bag.dom().contains(key_name(#[trigger] recognized_keys()[i]))
}

/// A bag without a recognized key has no first recognized key, from any
/// place of the search order on.
pub proof fn lemma_nothing_recognized(bag: Map<Seq<char>, Raw>, from: int)
    requires
        !holds_recognized_key(bag),
        0 <= from,
    ensures
        first_recognized_from(bag, from) is None,
    decreases KEY_COUNT - from,
{
    if from < KEY_COUNT {
        assert(!bag.dom().contains(key_name(recognized_keys()[from])));
        lemma_nothing_recognized(bag, from + 1);
    }
}

/// Bags without a recognized key leave a record as it is and find nothing.
pub proof fn lemma_unrecognized_bags_do_nothing(
    rules: Seq<RuleView>,
    identifier: Seq<char>,
    bags: Seq<Map<Seq<char>, Raw>>,
    item: ItemView,
)
    requires
        forall|i: int| 0 <= i < bags.len() ==> !holds_recognized_key(#[trigger] bags[i]),
    ensures
        interpreted_all(rules, identifier, bags, item) == Ok::<(ItemView, bool), FeedError>(
            (item, false),
        ),
    decreases bags.len(),
{
    if bags.len() > 0 {
        assert forall|i: int| 0 <= i < bags.drop_last().len() implies !holds_recognized_key(
            #[trigger] bags.drop_last()[i],
        ) by {
            assert(bags.drop_last()[i] == bags[i]);
        }
        lemma_unrecognized_bags_do_nothing(rules, identifier, bags.drop_last(), item);
        lemma_nothing_recognized(bags.last(), 0);
    }
}

/// An item none of whose bags holds a recognized key is useless, whatever
/// its cost and its neutral-drop marker say: where it has a record, the
/// record's useless flag is set, and where useless items are dropped it has
/// none.
pub proof fn lemma_unrecognized_item_is_useless(
    rules: Seq<RuleView>,
    raw: RawItemView,
    drop_useless: bool,
)
    requires
        forall|i: int|
            raw.bags is Bags && 0 <= i < raw.bags->Bags_0.len() ==> !holds_recognized_key(
                #[trigger] raw.bags->Bags_0[i],
            ),
    ensures
        normalized(rules, raw, drop_useless) matches Ok(Some(item)) ==> item.is_useless_item,
        drop_useless ==> !(normalized(rules, raw, drop_useless) matches Ok(Some(_))),
{
    match raw.bags {
        BagListView::Bags(bags) => {
            assert forall|record: ItemView|
                interpreted_all(rules, raw.identifier, bags, record) == Ok::<
                    (ItemView, bool),
                    FeedError,
                >((record, false)) by {
                lemma_unrecognized_bags_do_nothing(rules, raw.identifier, bags, record);
            }
        },
        BagListView::Malformed => {},
    }
}

/// Whether a raw item carries an obsolete marker that writes a positive
/// integer.
pub open spec fn marked_obsolete(raw: RawItemView) -> bool {
    raw.obsolete matches Some(Raw::Text(text)) && integer_of_text(text) matches Some(n) && n > 0
}

/// An item marked obsolete has no record, whatever else its entry holds.
pub proof fn lemma_obsolete_item_is_left_out(
    rules: Seq<RuleView>,
    raw: RawItemView,
    drop_useless: bool,
)
    requires
        marked_obsolete(raw),
    ensures
        normalized(rules, raw, drop_useless) == Ok::<Option<ItemView>, FeedError>(None),
{
}

/// The table of two feeds read one after the other: the table of the
/// first followed by that of the second, or the first failure.
pub proof fn lemma_table_of_joined_feeds(
    rules: Seq<RuleView>,
    first: Seq<RawItemView>,
    second: Seq<RawItemView>,
    drop_useless: bool,
)
    ensures
        normalized_all(rules, first + second, drop_useless) == match normalized_all(
            rules,
            first,
            drop_useless,
        ) {
            Err(e) => Err(e),
            Ok(head) => match normalized_all(rules, second, drop_useless) {
                Err(e) => Err(e),
                Ok(tail) => Ok(head + tail),
            },
        },
    decreases second.len(),
{
    if second.len() == 0 {
        assert(first + second =~= first);
        if normalized_all(rules, first, drop_useless) is Ok {
            let head = normalized_all(rules, first, drop_useless)->Ok_0;
            assert(head + Seq::<ItemView>::empty() =~= head);
        }
    } else {
        lemma_table_of_joined_feeds(rules, first, second.drop_last(), drop_useless);
        assert((first + second).drop_last() =~= first + second.drop_last());
        assert((first + second).last() == second.last());
        if normalized_all(rules, first, drop_useless) is Ok && normalized_all(
            rules,
            second.drop_last(),
            drop_useless,
        ) is Ok {
            let head = normalized_all(rules, first, drop_useless)->Ok_0;
            let tail = normalized_all(rules, second.drop_last(), drop_useless)->Ok_0;
            match normalized(rules, second.last(), drop_useless) {
                Ok(Some(item)) => {
                    assert((head + tail).push(item) =~= head + tail.push(item));
                },
                _ => {},
            }
        }
    }
}

/// An item marked obsolete is absent from the table: the feed with the
/// item, wherever it stands, has the table of the feed without it.
pub proof fn lemma_obsolete_item_is_absent(
    rules: Seq<RuleView>,
    before: Seq<RawItemView>,
    raw: RawItemView,
    after: Seq<RawItemView>,
    drop_useless: bool,
)
    requires
        marked_obsolete(raw),
    ensures
        normalized_all(rules, before + seq![raw] + after, drop_useless) == normalized_all(
            rules,
            before + after,
            drop_useless,
        ),
{
    let single = seq![raw];
    assert(single.drop_last() =~= Seq::<RawItemView>::empty());
    assert(normalized_all(rules, single.drop_last(), drop_useless) == Ok::<
        Seq<ItemView>,
        FeedError,
    >(Seq::empty()));
    assert(normalized_all(rules, single, drop_useless) == Ok::<Seq<ItemView>, FeedError>(
        Seq::empty(),
    ));
    lemma_table_of_joined_feeds(rules, before, single, drop_useless);
    lemma_table_of_joined_feeds(rules, before + single, after, drop_useless);
    lemma_table_of_joined_feeds(rules, before, after, drop_useless);
    if normalized_all(rules, before, drop_useless) is Ok {
        let head = normalized_all(rules, before, drop_useless)->Ok_0;
        assert(head + Seq::<ItemView>::empty() =~= head);
    }
}

/// A bag is interpreted by its first recognized key alone: two bags with
/// the same first recognized key and the same value under it do the same to
/// a record, whatever else they hold.
pub proof fn lemma_first_key_decides(
    rules: Seq<RuleView>,
    identifier: Seq<char>,
    one: Map<Seq<char>, Raw>,
    other: Map<Seq<char>, Raw>,
    item: ItemView,
)
    requires
        first_recognized(one) == first_recognized(other),
        first_recognized(one) matches Some(key) ==> one[key_name(key)] == other[key_name(key)],
    ensures
        interpreted(rules, identifier, one, item) == interpreted(rules, identifier, other, item),
{
}

/// Under the known exceptions the key `armor` is left out on every item but
/// the orb of corrosion.
pub proof fn lemma_armor_policy(identifier: Seq<char>)
    ensures
        policy_in(standard_rules(), identifier, BonusKey::Armor) == if identifier
            == "item_orb_of_corrosion"@ {
            Policy::Negate
        } else {
            Policy::Ignore
        },
{
    reveal_with_fuel(policy_from, 7);
}

/// A bag whose first recognized key is `armor` does nothing to the record
/// of an item other than the orb of corrosion, whatever the value is.
pub proof fn lemma_armor_ignored_elsewhere(
    identifier: Seq<char>,
    bag: Map<Seq<char>, Raw>,
    item: ItemView,
)
    requires
        first_recognized(bag) == Some(BonusKey::Armor),
        identifier != "item_orb_of_corrosion"@,
    ensures
        interpreted(standard_rules(), identifier, bag, item) == Ok::<(ItemView, bool), FeedError>(
            (item, false),
        ),
{
    lemma_armor_policy(identifier);
}

/// On the orb of corrosion a bag whose first recognized key is `armor`
/// writes the value, with its sign turned, as the armor corruption.
pub proof fn lemma_armor_negated_on_orb(bag: Map<Seq<char>, Raw>, item: ItemView, n: i32)
    requires
        first_recognized(bag) == Some(BonusKey::Armor),
        integer_of(bag[key_name(BonusKey::Armor)]) == Ok::<i32, FeedError>(n),
        n != i32::MIN,
    ensures
        interpreted(standard_rules(), "item_orb_of_corrosion"@, bag, item) == Ok::<
            (ItemView, bool),
            FeedError,
        >((ItemView { armor_corruption: (-n) as i32, ..item }, true)),
{
    lemma_armor_policy("item_orb_of_corrosion"@);
}

/// The table depends on the content of the feed alone: feeds that hold the
/// same entries in the same order have the same table, item for item and
/// value for value, and fail the same.
pub proof fn lemma_same_feed_same_table(
    rules: Seq<RuleView>,
    first: Seq<RawItemView>,
    second: Seq<RawItemView>,
    drop_useless: bool,
)
    requires
        first.len() == second.len(),
        forall|i: int| 0 <= i < first.len() ==> first[i] == second[i],
    ensures
        normalized_all(rules, first, drop_useless) == normalized_all(rules, second, drop_useless),
{
    assert(first =~= second);
}

/// The chance of a chain or bonus proc goes to both directions alike: a
/// hundredth of the percentage is written into the melee chance and into
/// the ranged chance, and nothing else changes.
pub proof fn lemma_chance_goes_to_both_directions(
    key: BonusKey,
    value: Raw,
    item: ItemView,
    ratio: Decimal,
)
    requires
        key == BonusKey::ChainChance || key == BonusKey::BonusChance,
        ratio_of(value) == Ok::<Decimal, FeedError>(ratio),
    ensures
        written(key, Policy::Apply, value, item) == Ok::<(ItemView, bool), FeedError>(
            (ItemView { magic_chance_melee: ratio, magic_chance_ranged: ratio, ..item }, true),
        ),
{
}

/// An item for whose short name the index holds no entry keeps its name,
/// prefix and all.
pub proof fn lemma_unlisted_item_keeps_its_name(
    index: Map<Seq<char>, NameEntryView>,
    item: ItemView,
)
    requires
        short_name_of(item.name) matches Some(short) && !index.dom().contains(short),
    ensures
        renamed(index, item) == Ok::<ItemView, FeedError>(item),
{
}

/// Renaming changes nothing of a record but its name, and the new name is
/// the display name that the index holds under the item's short name.
pub proof fn lemma_renaming_changes_the_name_only(
    index: Map<Seq<char>, NameEntryView>,
    item: ItemView,
)
    requires
        renamed(index, item) is Ok,
    ensures
        renamed(index, item)->Ok_0 == (ItemView { name: renamed(index, item)->Ok_0.name, ..item }),
        renamed(index, item)->Ok_0.name != item.name ==> short_name_of(item.name) is Some
            && index.dom().contains(short_name_of(item.name)->0) && index[short_name_of(
            item.name,
        )->0] == NameEntryView::DisplayName(renamed(index, item)->Ok_0.name),
{
}

/// Two runs on the same text end alike: both fail with the same error, or
/// both give tables that agree item for item and value for value, and that
/// are written out as the same rows.
pub proof fn lemma_rerun_gives_the_same_table(
    text: Seq<char>,
    drop_useless: bool,
    first: Result<Vec<Item>, FeedError>,
    second: Result<Vec<Item>, FeedError>,
)
    requires
        is_table(item_table(text, drop_useless), first),
        is_table(item_table(text, drop_useless), second),
    ensures
        first is Ok <==> second is Ok,
        first is Err ==> first->Err_0 == second->Err_0,
        first is Ok ==> item_views(first->Ok_0@) == item_views(second->Ok_0@),
        first is Ok ==> item_rows_of(first->Ok_0@) == item_rows_of(second->Ok_0@),
{
    if first is Ok {
        let one = first->Ok_0@;
        let other = second->Ok_0@;
        assert(one.len() == item_views(one).len());
        assert(other.len() == item_views(other).len());
        assert forall|i: int| 0 <= i < one.len() implies item_rows_of(one)[i] == item_rows_of(
            other,
        )[i] by {
            assert(item_views(one)[i] == item_views(other)[i]);
        }
        assert(item_rows_of(one) =~= item_rows_of(other));
    }
}

/// Whether a character is written in one byte.
pub open spec fn is_one_byte(c: char) -> bool {
    c as u32 <= 0x7f
}

/// Behind `count` characters of one byte each, the bytes of a text write
/// the rest of its characters, and no character lies across the cut.
pub proof fn lemma_cut_behind_one_byte_characters(name: Seq<char>, count: int)
    requires
        0 <= count <= name.len(),
        forall|i: int| 0 <= i < count ==> is_one_byte(#[trigger] name[i]),
    ensures
        encode_utf8(name).len() >= count,
        is_char_boundary(encode_utf8(name), count),
        decode_utf8(encode_utf8(name).subrange(count, encode_utf8(name).len() as int))
            == name.skip(count),
    decreases count,
{
    let bytes = encode_utf8(name);
    encode_utf8_valid_utf8(name);
    if count == 0 {
        assert(bytes.subrange(0, bytes.len() as int) =~= bytes);
        encode_utf8_decode_utf8(name);
        assert(name.skip(0) =~= name);
    } else {
        let rest = name.drop_first();
        assert(is_one_byte(name[0]));
        encode_utf8_first_scalar(name);
        assert forall|i: int| 0 <= i < count - 1 implies is_one_byte(#[trigger] rest[i]) by {
            assert(rest[i] == name[i + 1]);
        }
        lemma_cut_behind_one_byte_characters(rest, count - 1);
        let tail = encode_utf8(rest);
        assert(bytes.subrange(1, bytes.len() as int) =~= tail);
        assert(bytes.subrange(count, bytes.len() as int) =~= tail.subrange(
            count - 1,
            tail.len() as int,
        ));
        assert(name.skip(count) =~= rest.skip(count - 1));
    }
}

/// Where the first characters of a name, as many as the prefix has bytes,
/// are of one byte each, the short name is the name without them. So it is
/// for every identifier that begins with `item_`.
pub proof fn lemma_short_name_behind_plain_prefix(name: Seq<char>)
    requires
        name.len() >= PREFIX_LENGTH,
        forall|i: int| 0 <= i < PREFIX_LENGTH ==> is_one_byte(#[trigger] name[i]),
    ensures
        short_name_of(name) == Some(name.skip(PREFIX_LENGTH as int)),
{
    lemma_cut_behind_one_byte_characters(name, PREFIX_LENGTH as int);
}

/// No two recognized keys share a name.
pub proof fn lemma_key_names_differ(one: BonusKey, other: BonusKey)
    requires
        one != other,
    ensures
        key_name(one) != key_name(other),
{
    reveal_strlit("bonus_strength");
    reveal_strlit("bonus_agility");
    reveal_strlit("bonus_intellect");
    reveal_strlit("bonus_all_stats");
    reveal_strlit("bonus_damage");
    reveal_strlit("bonus_damage_melee");
    reveal_strlit("bonus_damage_range");
    reveal_strlit("bonus_attack_speed");
    reveal_strlit("corruption_armor");
    reveal_strlit("armor");
    reveal_strlit("chain_damage");
    reveal_strlit("bonus_chance_damage");
    reveal_strlit("chain_chance");
    reveal_strlit("bonus_chance");
    reveal_strlit("bash_chance_melee");
    reveal_strlit("bash_chance_ranged");
    reveal_strlit("crit_multiplier");
    reveal_strlit("crit_chance");
    let a = key_name(one);
    let b = key_name(other);
    if a.len() == b.len() {
        assert(a[0] != b[0] || a[1] != b[1] || a[6] != b[6] || a[10] != b[10] || a[13] != b[13]);
    }
}

} // verus!
