//! The display-name resolver: human-readable names for the item records.
//!
//! A second feed maps the short name of an item, which is its identifier
//! without the category prefix, to metadata that may hold a display name.
//! The prefix is cut off by its length in bytes of the name's UTF-8 text.

use crate::error::FeedError;
use crate::item::{Item, ItemView};
use crate::normalize::item_views;
use crate::text::same_text;
use vstd::prelude::*;
use vstd::utf8::{decode_utf8, encode_utf8, encode_utf8_decode_utf8, is_char_boundary};

verus! {

/// How many bytes the category prefix of an identifier has.
pub const PREFIX_LENGTH: usize = 5;

/// What the name feed holds for one item.
#[derive(Clone, Debug, PartialEq, Eq)]
pub enum NameEntry {
    /// Metadata with a display name.
    DisplayName(String),
    /// Metadata without a display name.
    NoDisplayName,
    /// Something that is no metadata, or a display name that is no text.
    Malformed,
}

/// A [`NameEntry`] with its name as a sequence of characters.
pub enum NameEntryView {
    DisplayName(Seq<char>),
    NoDisplayName,
    Malformed,
}

impl View for NameEntry {
    type V = NameEntryView;

    open spec fn view(&self) -> NameEntryView {
        match self {
            NameEntry::DisplayName(name) => NameEntryView::DisplayName(name@),
            NameEntry::NoDisplayName => NameEntryView::NoDisplayName,
            NameEntry::Malformed => NameEntryView::Malformed,
        }
    }
}

/// One line of the name feed.
#[derive(Clone, Debug, PartialEq, Eq)]
pub struct NamedEntry {
    pub short_name: String,
    pub entry: NameEntry,
}

/// The name feed. A short name that is written twice keeps the entry
/// written last.
#[derive(Clone, Debug, PartialEq, Eq)]
pub struct DisplayNameIndex {
    pub entries: Vec<NamedEntry>,
}

/// The mapping that a list of entries writes, later entries over earlier.
pub open spec fn index_of(entries: Seq<NamedEntry>) -> Map<Seq<char>, NameEntryView>
    decreases entries.len(),
{
    if entries.len() == 0 {
        Map::empty()
    } else {
        index_of(entries.drop_last()).insert(entries.last().short_name@, entries.last().entry@)
    }
}

impl View for DisplayNameIndex {
    type V = Map<Seq<char>, NameEntryView>;

    open spec fn view(&self) -> Map<Seq<char>, NameEntryView> {
        index_of(self.entries@)
    }
}

/// Whether the prefix can be cut off a name: the name has at least as
/// many bytes as the prefix, and no character lies across the cut.
pub open spec fn has_prefix(name: Seq<char>) -> bool {
    encode_utf8(name).len() >= PREFIX_LENGTH && is_char_boundary(
        encode_utf8(name),
        PREFIX_LENGTH as int,
    )
}

/// The short name of an item: the text that the bytes of its name behind
/// the prefix write. A name off which the prefix cannot be cut has none.
pub open spec fn short_name_of(name: Seq<char>) -> Option<Seq<char>> {
    if has_prefix(name) {
        Some(
            decode_utf8(
                encode_utf8(name).subrange(PREFIX_LENGTH as int, encode_utf8(name).len() as int),
            ),
        )
    } else {
        None
    }
}

/// The name that an item named `name` gets from the index: the display
/// name of the entry under its short name, and `None`, for "keep the name",
/// where the index has no such entry or the entry has no display name. A
/// name without a short name fails, and so does an entry that is malformed.
pub open spec fn new_name(index: Map<Seq<char>, NameEntryView>, name: Seq<char>) -> Result<
    Option<Seq<char>>,
    FeedError,
> {
    match short_name_of(name) {
        None => Err(FeedError::MalformedInput),
        Some(short) => if !index.dom().contains(short) {
            Ok(None)
        } else {
            match index[short] {
                NameEntryView::DisplayName(display) => Ok(Some(display)),
                NameEntryView::NoDisplayName => Ok(None),
                NameEntryView::Malformed => Err(FeedError::MalformedInput),
            }
        },
    }
}

/// The record `item` under the name that the index gives it.
pub open spec fn renamed(index: Map<Seq<char>, NameEntryView>, item: ItemView) -> Result<
    ItemView,
    FeedError,
> {
    match new_name(index, item.name) {
        Err(e) => Err(e),
        Ok(None) => Ok(item),
        Ok(Some(name)) => Ok(ItemView { name, ..item }),
    }
}

/// The table `items` with every record renamed; the first record that
/// fails fails all.
pub open spec fn renamed_all(index: Map<Seq<char>, NameEntryView>, items: Seq<ItemView>) -> Result<
    Seq<ItemView>,
    FeedError,
>
    decreases items.len(),
{
    if items.len() == 0 {
        Ok(Seq::empty())
    } else {
        match renamed_all(index, items.drop_last()) {
            Err(e) => Err(e),
            Ok(head) => match renamed(index, items.last()) {
                Err(e) => Err(e),
                Ok(item) => Ok(head.push(item)),
            },
        }
    }
}

impl DisplayNameIndex {
    /// The empty index.
    pub fn new() -> (index: DisplayNameIndex)
        ensures
            index@ == Map::<Seq<char>, NameEntryView>::empty(),
    {
        DisplayNameIndex { entries: Vec::new() }
    }

    /// Writes `entry` under `short_name`, over what was there.
    pub fn insert(&mut self, short_name: String, entry: NameEntry)
        ensures
            final(self)@ == old(self)@.insert(short_name@, entry@),
    {
        let ghost before = self.entries@;
        self.entries.push(NamedEntry { short_name, entry });
        assert(self.entries@.drop_last() =~= before);
    }

    /// The entry written under `short_name`, if there is one.
    pub fn get(&self, short_name: &str) -> (entry: Option<&NameEntry>)
        ensures
            match entry {
                Some(e) => self@.dom().contains(short_name@) && self@[short_name@] == e@,
                None => !self@.dom().contains(short_name@),
            },
    {
        let mut i: usize = self.entries.len();
        assert(self.entries@.take(i as int) =~= self.entries@);
        while i > 0
            invariant
                i <= self.entries.len(),
                self@.dom().contains(short_name@) == index_of(
                    self.entries@.take(i as int),
                ).dom().contains(short_name@),
                self@.dom().contains(short_name@) ==> self@[short_name@] == index_of(
                    self.entries@.take(i as int),
                )[short_name@],
            decreases i,
        {
            i -= 1;
            let line = &self.entries[i];
            proof {
                let upto = self.entries@.take(i + 1);
                assert(upto.drop_last() =~= self.entries@.take(i as int));
                assert(upto.last() == *line);
            }
            if same_text(line.short_name.as_str(), short_name) {
                return Some(&line.entry);
            }
        }
        None
    }

    /// The name that the index gives to an item named `name`, or `None`
    /// where the item keeps its name. Fails where the prefix cannot be cut
    /// off the name, or the entry under the short name is malformed.
    pub fn lookup(&self, name: &str) -> (r: Result<Option<String>, FeedError>)
        ensures
            match new_name(self@, name@) {
                Err(e) => r == Err::<Option<String>, FeedError>(e),
                Ok(None) => r == Ok::<Option<String>, FeedError>(None),
                Ok(Some(display)) => r is Ok && r->Ok_0 is Some && r->Ok_0->0@ == display,
            },
    {
        if name.as_bytes().len() < PREFIX_LENGTH || !name.is_char_boundary(PREFIX_LENGTH) {
            return Err(FeedError::MalformedInput);
        }
        let (_, short) = name.split_at(PREFIX_LENGTH);
        proof {
            encode_utf8_decode_utf8(short@);
        }
        match self.get(short) {
            None => Ok(None),
            Some(NameEntry::DisplayName(display)) => Ok(Some(display.clone())),
            Some(NameEntry::NoDisplayName) => Ok(None),
            Some(NameEntry::Malformed) => Err(FeedError::MalformedInput),
        }
    }
}

/// Once the records up to some place have failed, the whole table fails
/// the same.
proof fn lemma_rename_failure_stays(
    index: Map<Seq<char>, NameEntryView>,
    items: Seq<ItemView>,
    upto: int,
)
    requires
        0 <= upto <= items.len(),
        renamed_all(index, items.take(upto)) is Err,
    ensures
        renamed_all(index, items) == renamed_all(index, items.take(upto)),
    decreases items.len() - upto,
{
    if upto < items.len() {
        assert(items.take(upto + 1).drop_last() =~= items.take(upto));
        lemma_rename_failure_stays(index, items, upto + 1);
    } else {
        assert(items.take(upto) =~= items);
    }
}

/// Gives each record of the table the display name that the index holds
/// for it. A record without a display name in the index keeps its name,
/// prefix and all. Where the prefix cannot be cut off a name, or an entry
/// that is looked up is malformed, the run fails and the table is left as
/// it was.
pub fn resolve_display_names(items: &mut Vec<Item>, index: &DisplayNameIndex) -> (r: Result<
    (),
    FeedError,
>)
    ensures
        match renamed_all(index@, item_views(old(items)@)) {
            Ok(table) => r is Ok && item_views(final(items)@) == table,
            Err(e) => r == Err::<(), FeedError>(e) && final(items)@ == old(items)@,
        },
{
    let ghost before = item_views(items@);
    let mut names: Vec<Option<String>> = Vec::new();
    let mut i: usize = 0;
    while i < items.len()
        invariant
            i <= items.len(),
            *items == *old(items),
            before == item_views(items@),
            names.len() == i,
            renamed_all(index@, before.take(i as int)) is Ok,
            forall|j: int|
                0 <= j < i ==> match new_name(index@, #[trigger] before[j].name) {
                    Ok(Some(display)) => names@[j] is Some && names@[j]->0@ == display,
                    Ok(None) => names@[j] is None,
                    Err(_) => false,
                },
        decreases items.len() - i,
    {
        proof {
            assert(before.take(i + 1).drop_last() =~= before.take(i as int));
            assert(before.take(i + 1).last() == before[i as int]);
        }
        match index.lookup(items[i].name.as_str()) {
            Err(e) => {
                proof {
                    lemma_rename_failure_stays(index@, before, i + 1);
                }
                return Err(e);
            },
            Ok(name) => {
                names.push(name);
            },
        }
        i += 1;
    }
    let mut k: usize = 0;
    assert(before.take(0) =~= Seq::<ItemView>::empty());
    assert(item_views(items@).take(0) =~= Seq::<ItemView>::empty());
    while k < items.len()
        invariant
            k <= items.len(),
            items.len() == before.len(),
            names.len() == items.len(),
            forall|j: int|
                0 <= j < names.len() ==> match new_name(index@, #[trigger] before[j].name) {
                    Ok(Some(display)) => names@[j] is Some && names@[j]->0@ == display,
                    Ok(None) => names@[j] is None,
                    Err(_) => false,
                },
            renamed_all(index@, before.take(k as int)) == Ok::<Seq<ItemView>, FeedError>(
                item_views(items@).take(k as int),
            ),
            forall|j: int| k <= j < items.len() ==> #[trigger] items@[j]@ == before[j],
        decreases items.len() - k,
    {
        let ghost table = item_views(items@);
        let ghost old_items = items@;
        proof {
            assert(before.take(k + 1).drop_last() =~= before.take(k as int));
            assert(before.take(k + 1).last() == before[k as int]);
        }
        match &names[k] {
            None => {},
            Some(name) => {
                items[k].name = name.clone();
            },
        }
        proof {
            let now = item_views(items@);
            let name = before[k as int].name;
            assert(table[k as int] == before[k as int]);
            assert(renamed(index@, before[k as int]) == Ok::<ItemView, FeedError>(now[k as int]));
            assert(now.take(k as int) =~= table.take(k as int));
            assert(now.take(k + 1) =~= now.take(k as int).push(now[k as int]));
            assert forall|j: int| k < j < items.len() implies #[trigger] items@[j]@ == before[j] by {
                assert(items@[j] == old_items[j]);
            }
        }
        k += 1;
    }
    assert(before.take(k as int) =~= before);
    assert(item_views(items@).take(k as int) =~= item_views(items@));
    Ok(())
}

} // verus!
