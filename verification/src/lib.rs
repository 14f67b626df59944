//! Normalization of a game-content feed into flat tables of stats.
//!
//! The item feed is a loosely typed JSON document: one entry for each item,
//! with the item's bonuses spread over bags of named values that are written
//! now as numbers and now as strings of digits. This crate turns it into one
//! record for each item, gives the records their display names from a second
//! feed, does the same, more simply, for the hero feed, and writes both tables
//! out as rows of text.
//!
//! From the bottom up:
//!
//! - [`text`], [`decimal`], [`coerce`]: digits, exact decimal numbers, and the
//!   reading of a raw value as the integer or the ratio that a field holds;
//! - [`keys`], [`rules`], [`bag`], [`interpret`]: the recognized bonus keys,
//!   the table of per-item exceptions, attribute bags and their interpreter;
//! - [`item`], [`normalize`], [`names`], [`hero`]: the records and the
//!   normalizers that fill them;
//! - [`json`], [`parse`], [`document`], [`feed`]: JSON trees and their
//!   reader, the feeds as documents, and the runs from JSON text to table;
//! - [`render`], [`row`]: numbers as text and records as rows;
//! - [`grammar`], [`round_trip`]: the grammar of decimal texts from the parts
//!   of a text, and that what is written reads back as it was;
//! - [`wiki`], [`page`]: addresses, categories and item names of the
//!   community wiki, and the reader of its pages;
//! - [`laws`]: what holds of the normalizer on every feed;
//! - [`error`]: the ways in which a feed can fail.
//!
//! Every function is verified against the contract it carries, but for
//! those in [`parse`] and [`page`], which call the JSON parser and the HTML
//! reader.

pub mod bag;
pub mod coerce;
pub mod decimal;
pub mod document;
pub mod error;
pub mod feed;
pub mod grammar;
pub mod hero;
pub mod interpret;
pub mod item;
pub mod json;
pub mod keys;
pub mod laws;
pub mod names;
pub mod normalize;
pub mod page;
pub mod parse;
pub mod render;
pub mod round_trip;
pub mod row;
pub mod rules;
pub mod text;
pub mod wiki;
