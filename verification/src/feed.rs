//! The runs of the normalizer from JSON text to table.
//!
//! Each run has the text parsed, reads the document into raw entries and
//! hands them to its normalizer. The contracts speak of the document that the
//! parser makes of the text; what the normalizers do with a document is
//! stated in full on the functions that take one.

use crate::document::{
    hero_feed_of, item_feed_of, name_feed_of, read_heroes, read_items, read_names,
};
use crate::error::FeedError;
use crate::hero::{hero_views, normalize_heroes, normalized_heroes, Hero, HeroView};
use crate::item::{Item, ItemView};
use crate::json::parse_json;
use crate::parse::parsed_tree;
use crate::names::{renamed_all, resolve_display_names, NameEntryView};
use crate::normalize::{is_table, item_views, normalize_items, normalized_all};
use crate::rules::standard_rules;
use vstd::prelude::*;

verus! {

/// The table of an item feed given as JSON text: the table of the raw
/// items of its document under the known exceptions. A text that is no JSON
/// document is malformed.
pub open spec fn item_table(text: Seq<char>, drop_useless: bool) -> Result<
    Seq<ItemView>,
    FeedError,
> {
    match parsed_tree(text) {
        None => Err(FeedError::MalformedInput),
        Some(document) => match item_feed_of(document) {
            Err(e) => Err(e),
            Ok(raws) => normalized_all(standard_rules(), raws, drop_useless),
        },
    }
}

/// The index of a name feed given as JSON text.
pub open spec fn name_index(text: Seq<char>) -> Result<Map<Seq<char>, NameEntryView>, FeedError> {
    match parsed_tree(text) {
        None => Err(FeedError::MalformedInput),
        Some(document) => name_feed_of(document),
    }
}

/// The table of a hero feed given as JSON text.
pub open spec fn hero_table(text: Seq<char>) -> Result<Seq<HeroView>, FeedError> {
    match parsed_tree(text) {
        None => Err(FeedError::MalformedInput),
        Some(document) => match hero_feed_of(document) {
            Err(e) => Err(e),
            Ok(raws) => normalized_heroes(raws),
        },
    }
}

/// Normalizes an item feed given as JSON text. With `drop_useless` set the
/// table holds no useless item.
pub fn get_item_stats(text: &str, drop_useless: bool) -> (r: Result<Vec<Item>, FeedError>)
    ensures
        is_table(item_table(text@, drop_useless), r),
{
    let document = match parse_json(text) {
        None => {
            return Err(FeedError::MalformedInput);
        },
        Some(document) => document,
    };
    match read_items(&document) {
        Err(e) => Err(e),
        Ok(raws) => normalize_items(&raws, drop_useless),
    }
}

/// Gives each record of the table its display name from a name feed given
/// as JSON text. Where the feed cannot be read, or an entry that is looked
/// up is malformed, the table is left as it was.
pub fn get_real_item_names(items: &mut Vec<Item>, text: &str) -> (r: Result<(), FeedError>)
    ensures
        match name_index(text@) {
            Err(e) => r == Err::<(), FeedError>(e) && final(items)@ == old(items)@,
            Ok(index) => match renamed_all(index, item_views(old(items)@)) {
                Ok(table) => r is Ok && item_views(final(items)@) == table,
                Err(e) => r == Err::<(), FeedError>(e) && final(items)@ == old(items)@,
            },
        },
{
    let document = match parse_json(text) {
        None => {
            return Err(FeedError::MalformedInput);
        },
        Some(document) => document,
    };
    match read_names(&document) {
        Err(e) => Err(e),
        Ok(index) => resolve_display_names(items, &index),
    }
}

/// Normalizes a hero feed given as JSON text.
pub fn get_heroes_data(text: &str) -> (r: Result<Vec<Hero>, FeedError>)
    ensures
        match hero_table(text@) {
            Ok(heroes) => r is Ok && hero_views(r->Ok_0@) == heroes,
            Err(e) => r is Err && r->Err_0 == e,
        },
{
    let document = match parse_json(text) {
        None => {
            return Err(FeedError::MalformedInput);
        },
        Some(document) => document,
    };
    match read_heroes(&document) {
        Err(e) => Err(e),
        Ok(raws) => normalize_heroes(&raws),
    }
}

} // verus!
