//! JSON documents as trees, and the few questions that the feeds ask of
//! them.

use crate::parse::{copy_tree, parse_value, parsed_tree};
use crate::text::same_text;
use vstd::prelude::*;

verus! {

/// One entry of a JSON object.
#[derive(Debug, PartialEq, Eq)]
pub struct Member {
    pub key: String,
    pub value: Json,
}

/// A JSON value.
#[derive(Debug, PartialEq, Eq)]
pub enum Json {
    Null,
    Bool(bool),
    /// A number, as the text that writes it.
    Number(String),
    /// A string.
    Text(String),
    /// An array, as its elements.
    Array(Vec<Json>),
    /// An object, as its entries in the order in which the document's
    /// reader hands them out.
    Object(Vec<Member>),
}

/// The entries of a JSON object; nothing for any other value.
pub open spec fn members_of(tree: Json) -> Option<Seq<Member>> {
    match tree {
        Json::Object(members) => Some(members@),
        _ => None,
    }
}

/// The elements of a JSON array; nothing for any other value.
pub open spec fn elements_of(tree: Json) -> Option<Seq<Json>> {
    match tree {
        Json::Array(elements) => Some(elements@),
        _ => None,
    }
}

/// The text of a JSON string; nothing for any other value.
pub open spec fn text_of(tree: Json) -> Option<Seq<char>> {
    match tree {
        Json::Text(text) => Some(text@),
        _ => None,
    }
}

/// The text that writes a JSON number; nothing for any other value.
pub open spec fn number_of(tree: Json) -> Option<Seq<char>> {
    match tree {
        Json::Number(text) => Some(text@),
        _ => None,
    }
}

/// The value that the entries of an object hold under `key`: that of the
/// last entry with this key.
pub open spec fn member_of(members: Seq<Member>, key: Seq<char>) -> Option<Json>
    decreases members.len(),
{
    if members.len() == 0 {
        None
    } else if members.last().key@ == key {
        Some(members.last().value)
    } else {
        member_of(members.drop_last(), key)
    }
}

/// The value behind a reference that may be missing.
pub open spec fn pointed(reference: Option<&Json>) -> Option<Json> {
    match reference {
        Some(value) => Some(*value),
        None => None,
    }
}

impl Json {
    /// The entries of this value, if it is an object.
    pub fn members(&self) -> (members: Option<&Vec<Member>>)
        ensures
            match members {
                Some(list) => members_of(*self) == Some(list@),
                None => members_of(*self) is None,
            },
    {
        match self {
            Json::Object(members) => Some(members),
            _ => None,
        }
    }

    /// The elements of this value, if it is an array.
    pub fn elements(&self) -> (elements: Option<&Vec<Json>>)
        ensures
            match elements {
                Some(list) => elements_of(*self) == Some(list@),
                None => elements_of(*self) is None,
            },
    {
        match self {
            Json::Array(elements) => Some(elements),
            _ => None,
        }
    }

    /// The text of this value, if it is a string.
    pub fn text(&self) -> (text: Option<&String>)
        ensures
            match text {
                Some(t) => text_of(*self) == Some(t@),
                None => text_of(*self) is None,
            },
    {
        match self {
            Json::Text(text) => Some(text),
            _ => None,
        }
    }

    /// The text that writes this value, if it is a number.
    pub fn number(&self) -> (text: Option<&String>)
        ensures
            match text {
                Some(t) => number_of(*self) == Some(t@),
                None => number_of(*self) is None,
            },
    {
        match self {
            Json::Number(text) => Some(text),
            _ => None,
        }
    }
}

/// Finds the value that the entries of an object hold under `key`.
pub fn find_member<'a>(members: &'a Vec<Member>, key: &str) -> (value: Option<&'a Json>)
    ensures
        pointed(value) == member_of(members@, key@),
{
    let mut i: usize = members.len();
    assert(members@.take(i as int) =~= members@);
    while i > 0
        invariant
            i <= members.len(),
            member_of(members@, key@) == member_of(members@.take(i as int), key@),
        decreases i,
    {
        i -= 1;
        proof {
            assert(members@.take(i + 1).drop_last() =~= members@.take(i as int));
            assert(members@.take(i + 1).last() == members@[i as int]);
        }
        if same_text(members[i].key.as_str(), key) {
            return Some(&members[i].value);
        }
    }
    None
}

/// Reads a JSON text into a tree. `None` where the text is not one JSON
/// document.
pub fn parse_json(text: &str) -> (tree: Option<Json>)
    ensures
        tree == parsed_tree(text@),
{
    match parse_value(text) {
        Ok(value) => Some(copy_tree(&value)),
        Err(_) => None,
    }
}

} // verus!
