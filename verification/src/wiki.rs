//! The item pages of the community wiki: where an item's page is, how the
//! lists of its item overview are grouped, and which items the overview
//! names.

use crate::error::FeedError;
use crate::page::{inner_html, parse_fragment, parse_selector, select_in_element, select_in_page};
use vstd::prelude::*;

verus! {

/// An item of the wiki's overview with the category of the list it stands
/// in.
#[derive(Clone, Debug, PartialEq, Eq)]
pub struct ItemEntry {
    pub name: String,
    pub category: String,
}

/// An [`ItemEntry`] with its texts as sequences of characters.
pub struct ItemEntryView {
    pub name: Seq<char>,
    pub category: Seq<char>,
}

impl View for ItemEntry {
    type V = ItemEntryView;

    open spec fn view(&self) -> ItemEntryView {
        ItemEntryView { name: self.name@, category: self.category@ }
    }
}

/// The views of a list of entries.
pub open spec fn entry_views(entries: Seq<ItemEntry>) -> Seq<ItemEntryView> {
    entries.map_values(|entry: ItemEntry| entry@)
}

/// A text that may be missing, as a sequence of characters.
pub open spec fn optional_text(text: Option<String>) -> Option<Seq<char>> {
    match text {
        Some(t) => Some(t@),
        None => None,
    }
}

/// The texts of a list of anchors.
pub open spec fn anchor_texts(anchors: Seq<String>) -> Seq<Seq<char>> {
    anchors.map_values(|anchor: String| anchor@)
}

/// The names found in the lists of the overview: for each list, the name
/// found in each of its divisions, where one was found.
pub open spec fn anchor_rows(lists: Seq<Vec<Option<String>>>) -> Seq<Seq<Option<Seq<char>>>> {
    lists.map_values(
        |list: Vec<Option<String>>| list@.map_values(|name: Option<String>| optional_text(name)),
    )
}

/// The name that the anchors of a division give: the text of the second
/// anchor, and nothing where the division has fewer than two.
pub open spec fn second_of(anchors: Seq<Seq<char>>) -> Option<Seq<char>> {
    if anchors.len() >= 2 {
        Some(anchors[1])
    } else {
        None
    }
}

/// The entries of the list at place `index`: one for each division, under
/// the list's category. A division without a name leaves the list without
/// entries.
pub open spec fn list_entries(index: nat, names: Seq<Option<Seq<char>>>) -> Option<
    Seq<ItemEntryView>,
>
    decreases names.len(),
{
    if names.len() == 0 {
        Some(Seq::empty())
    } else {
        match (list_entries(index, names.drop_last()), names.last()) {
            (Some(entries), Some(name)) => Some(
                entries.push(ItemEntryView { name, category: category_of(index) }),
            ),
            _ => None,
        }
    }
}

/// The entries of the overview: those of its lists, list by list and
/// division by division, each under the category of its list. A division
/// without a name leaves the overview without entries.
pub open spec fn entries_of(rows: Seq<Seq<Option<Seq<char>>>>) -> Option<Seq<ItemEntryView>>
    decreases rows.len(),
{
    if rows.len() == 0 {
        Some(Seq::empty())
    } else {
        match (
            entries_of(rows.drop_last()),
            list_entries((rows.len() - 1) as nat, rows.last()),
        ) {
            (Some(entries), Some(more)) => Some(entries + more),
            _ => None,
        }
    }
}

/// The category of the list at place `index` of the overview, counted
/// from zero.
pub open spec fn category_of(index: nat) -> Seq<char> {
    if index <= 4 {
        "Basics Items"@
    } else if index <= 10 {
        "Upgraded Items"@
    } else if index <= 17 {
        "Neutral Items"@
    } else if index == 18 {
        "Roshan Drop"@
    } else if index == 19 {
        "Unreleased Items"@
    } else if index <= 21 {
        "Removed Items"@
    } else if index <= 28 {
        "Event Items"@
    } else {
        "No idea"@
    }
}

/// The name of an item as it stands in the address of its page: with an
/// underscore for each space.
pub open spec fn page_name(name: Seq<char>) -> Seq<char> {
    name.map_values(
        |c: char|
            if c == ' ' {
                '_'
            } else {
                c
            },
    )
}

/// The address of an item's page.
pub open spec fn url_of(name: Seq<char>) -> Seq<char> {
    "https://dota2.fandom.com/wiki/"@ + page_name(name)
}

/// The category of the list at place `index` of the overview.
pub fn category_name(index: usize) -> (category: &'static str)
    ensures
        category@ == category_of(index as nat),
{
    if index <= 4 {
        "Basics Items"
    } else if index <= 10 {
        "Upgraded Items"
    } else if index <= 17 {
        "Neutral Items"
    } else if index == 18 {
        "Roshan Drop"
    } else if index == 19 {
        "Unreleased Items"
    } else if index <= 21 {
        "Removed Items"
    } else if index <= 28 {
        "Event Items"
    } else {
        "No idea"
    }
}

/// The entry of an item found in the list at place `index` of the
/// overview.
pub fn item_entry(name: String, index: usize) -> (entry: ItemEntry)
    ensures
        entry@ == (ItemEntryView { name: name@, category: category_of(index as nat) }),
{
    ItemEntry { name, category: category_name(index).to_string() }
}

/// The address of the page of the item named `name`.
pub fn get_url_for_item(name: &str) -> (url: String)
    ensures
        url@ == url_of(name@),
{
    let mut url = "https://dota2.fandom.com/wiki/".to_string();
    let ghost base = url@;
    let length: usize = name.unicode_len();
    let mut i: usize = 0;
    assert(page_name(name@).take(0) =~= Seq::<char>::empty());
    assert(url@ =~= base + page_name(name@).take(0));
    while i < length
        invariant
            i <= length,
            length == name@.len(),
            url@ == base + page_name(name@).take(i as int),
        decreases length - i,
    {
        let ghost before = url@;
        if name.get_char(i) == ' ' {
            proof {
                reveal_strlit("_");
            }
            url.append("_");
            assert(url@ =~= before.push('_'));
        } else {
            let piece = name.substring_char(i, i + 1);
            url.append(piece);
            assert(piece@ =~= seq![name@[i as int]]);
            assert(url@ =~= before.push(name@[i as int]));
        }
        assert(page_name(name@).take(i + 1) =~= page_name(name@).take(i as int).push(
            page_name(name@)[i as int],
        ));
        i += 1;
    }
    assert(page_name(name@).take(length as int) =~= page_name(name@));
    url
}

/// The name that the anchors of a division give.
pub fn second_anchor(anchors: &Vec<String>) -> (name: Option<String>)
    ensures
        optional_text(name) == second_of(anchor_texts(anchors@)),
{
    if anchors.len() >= 2 {
        Some(anchors[1].clone())
    } else {
        None
    }
}

/// Once the names up to some place leave a list without entries, so do all
/// its names.
proof fn lemma_list_stays_without_entries(index: nat, names: Seq<Option<Seq<char>>>, upto: int)
    requires
        0 <= upto <= names.len(),
        list_entries(index, names.take(upto)) is None,
    ensures
        list_entries(index, names) is None,
    decreases names.len() - upto,
{
    if upto < names.len() {
        assert(names.take(upto + 1).drop_last() =~= names.take(upto));
        lemma_list_stays_without_entries(index, names, upto + 1);
    } else {
        assert(names.take(upto) =~= names);
    }
}

/// Once the lists up to some place leave the overview without entries, so
/// do all its lists.
proof fn lemma_overview_stays_without_entries(rows: Seq<Seq<Option<Seq<char>>>>, upto: int)
    requires
        0 <= upto <= rows.len(),
        entries_of(rows.take(upto)) is None,
    ensures
        entries_of(rows) is None,
    decreases rows.len() - upto,
{
    if upto < rows.len() {
        assert(rows.take(upto + 1).drop_last() =~= rows.take(upto));
        lemma_overview_stays_without_entries(rows, upto + 1);
    } else {
        assert(rows.take(upto) =~= rows);
    }
}

/// Adds the entries of the list at place `index` behind those that are
/// there. Returns whether every division had a name; where one had none,
/// the entries are left as they were.
fn push_list_entries(
    entries: &mut Vec<ItemEntry>,
    index: usize,
    list: &Vec<Option<String>>,
) -> (complete: bool)
    ensures
        match list_entries(
            index as nat,
            list@.map_values(|name: Option<String>| optional_text(name)),
        ) {
            Some(more) => complete && entry_views(final(entries)@) == entry_views(old(entries)@)
                + more,
            None => !complete && final(entries)@ == old(entries)@,
        },
{
    let ghost names = list@.map_values(|name: Option<String>| optional_text(name));
    let ghost before = entry_views(entries@);
    let mut found: Vec<ItemEntry> = Vec::new();
    let mut i: usize = 0;
    assert(names.take(0) =~= Seq::empty());
    assert(entry_views(found@) =~= Seq::empty());
    while i < list.len()
        invariant
            i <= list.len(),
            *entries == *old(entries),
            names == list@.map_values(|name: Option<String>| optional_text(name)),
            list_entries(index as nat, names.take(i as int)) == Some(entry_views(found@)),
        decreases list.len() - i,
    {
        proof {
            assert(names.take(i + 1).drop_last() =~= names.take(i as int));
            assert(names.take(i + 1).last() == optional_text(list@[i as int]));
        }
        match &list[i] {
            None => {
                proof {
                    lemma_list_stays_without_entries(index as nat, names, i + 1);
                }
                return false;
            },
            Some(name) => {
                let ghost so_far = found@;
                let entry = item_entry(name.clone(), index);
                found.push(entry);
                assert(entry_views(found@) =~= entry_views(so_far).push(entry@));
            },
        }
        i += 1;
    }
    assert(names.take(i as int) =~= names);
    let ghost added = found@;
    let ghost held = entries@;
    entries.append(&mut found);
    assert(entry_views(entries@) =~= entry_views(held) + entry_views(added));
    true
}

/// The entries of the overview, from the names found in its lists: one
/// entry for each division of each list, in the order of the page, under
/// the category of its list. `None` where a division has no name.
pub fn item_entries(lists: &Vec<Vec<Option<String>>>) -> (r: Option<Vec<ItemEntry>>)
    ensures
        match entries_of(anchor_rows(lists@)) {
            Some(entries) => r is Some && entry_views(r->0@) == entries,
            None => r is None,
        },
{
    let ghost rows = anchor_rows(lists@);
    let mut entries: Vec<ItemEntry> = Vec::new();
    let mut i: usize = 0;
    assert(rows.take(0) =~= Seq::empty());
    assert(entry_views(entries@) =~= Seq::empty());
    while i < lists.len()
        invariant
            i <= lists.len(),
            rows == anchor_rows(lists@),
            entries_of(rows.take(i as int)) == Some(entry_views(entries@)),
        decreases lists.len() - i,
    {
        proof {
            assert(rows.take(i + 1).drop_last() =~= rows.take(i as int));
            assert(rows.take(i + 1).last() == rows[i as int]);
            assert(rows.take(i + 1).len() - 1 == i);
        }
        if !push_list_entries(&mut entries, i, &lists[i]) {
            proof {
                lemma_overview_stays_without_entries(rows, i + 1);
            }
            return None;
        }
        i += 1;
    }
    assert(rows.take(i as int) =~= rows);
    Some(entries)
}

/// The names that the page of the overview holds: for each of its item
/// lists, in the order in which the page's reader hands them out, one name
/// for each division of the list, taken from the division's second anchor.
/// Fails where a selector does not parse.
///
/// Which lists, divisions and anchors a page has is for the page's reader
/// to say; nothing is stated of them here.
pub fn overview_names(page: &str) -> (r: Result<Vec<Vec<Option<String>>>, FeedError>)
    ensures
        r is Err ==> r->Err_0 == FeedError::MalformedInput,
{
    let lists_in_page = match parse_selector("div.itemlist") {
        Ok(selector) => selector,
        Err(_) => {
            return Err(FeedError::MalformedInput);
        },
    };
    let divisions_in_list = match parse_selector("div") {
        Ok(selector) => selector,
        Err(_) => {
            return Err(FeedError::MalformedInput);
        },
    };
    let anchors_in_division = match parse_selector("a") {
        Ok(selector) => selector,
        Err(_) => {
            return Err(FeedError::MalformedInput);
        },
    };
    let fragment = parse_fragment(page);
    let lists = select_in_page(&fragment, &lists_in_page);
    let mut rows: Vec<Vec<Option<String>>> = Vec::new();
    let mut i: usize = 0;
    while i < lists.len()
        invariant
            i <= lists.len(),
        decreases lists.len() - i,
    {
        let divisions = select_in_element(&lists[i], &divisions_in_list);
        let mut row: Vec<Option<String>> = Vec::new();
        let mut k: usize = 0;
        while k < divisions.len()
            invariant
                k <= divisions.len(),
            decreases divisions.len() - k,
        {
            let anchors = select_in_element(&divisions[k], &anchors_in_division);
            let mut texts: Vec<String> = Vec::new();
            let mut n: usize = 0;
            while n < anchors.len()
                invariant
                    n <= anchors.len(),
                decreases anchors.len() - n,
            {
                texts.push(inner_html(&anchors[n]));
                n += 1;
            }
            row.push(second_anchor(&texts));
            k += 1;
        }
        rows.push(row);
        i += 1;
    }
    Ok(rows)
}

/// The items that the page of the overview names, each with the category
/// of its list. Fails where a selector does not parse, and where a division
/// of a list has no second anchor.
///
/// The entries are those that [`item_entries`] makes of the names that the
/// reader found in the page.
pub fn get_item_names(page: &str) -> (r: Result<Vec<ItemEntry>, FeedError>)
    ensures
        match r {
            Ok(entries) => exists|rows: Seq<Seq<Option<Seq<char>>>>|
                #[trigger] entries_of(rows) == Some(entry_views(entries@)),
            Err(e) => e == FeedError::MalformedInput,
        },
{
    let names = match overview_names(page) {
        Ok(names) => names,
        Err(e) => {
            return Err(e);
        },
    };
    match item_entries(&names) {
        Some(entries) => {
            assert(entries_of(anchor_rows(names@)) == Some(entry_views(entries@)));
            Ok(entries)
        },
        None => Err(FeedError::MalformedInput),
    }
}

} // verus!
