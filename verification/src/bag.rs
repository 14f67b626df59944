//! Attribute bags: the named bonus values of one ability block of an item.

use crate::coerce::{Raw, RawValue};
use crate::text::same_text;
use vstd::prelude::*;

verus! {

/// One named value of a bag.
#[derive(Clone, Debug, PartialEq, Eq)]
pub struct Attribute {
    pub key: String,
    pub value: RawValue,
}

/// A bag of named values. As in a JSON object, a name that is written
/// twice keeps the value written last.
#[derive(Clone, Debug, PartialEq, Eq)]
pub struct AttributeBag {
    pub entries: Vec<Attribute>,
}

/// The mapping that a list of attributes writes, later entries over earlier.
pub open spec fn mapping_of(entries: Seq<Attribute>) -> Map<Seq<char>, Raw>
    decreases entries.len(),
{
    if entries.len() == 0 {
        Map::empty()
    } else {
        mapping_of(entries.drop_last()).insert(entries.last().key@, entries.last().value@)
    }
}

impl View for AttributeBag {
    type V = Map<Seq<char>, Raw>;

    open spec fn view(&self) -> Map<Seq<char>, Raw> {
        mapping_of(self.entries@)
    }
}

impl AttributeBag {
    /// The empty bag.
    pub fn new() -> (bag: AttributeBag)
        ensures
            bag@ == Map::<Seq<char>, Raw>::empty(),
    {
        AttributeBag { entries: Vec::new() }
    }

    /// Writes `value` under `key`, over what was there.
    pub fn insert(&mut self, key: String, value: RawValue)
        ensures
            final(self)@ == old(self)@.insert(key@, value@),
    {
        let ghost before = self.entries@;
        self.entries.push(Attribute { key, value });
        assert(self.entries@.drop_last() =~= before);
    }

    /// The value written under `key`, if there is one.
    pub fn get(&self, key: &str) -> (value: Option<&RawValue>)
        ensures
            match value {
                Some(v) => self@.dom().contains(key@) && self@[key@] == v@,
                None => !self@.dom().contains(key@),
            },
    {
        let mut i: usize = self.entries.len();
        assert(self.entries@.take(i as int) =~= self.entries@);
        while i > 0
            invariant
                i <= self.entries.len(),
                self@.dom().contains(key@) == mapping_of(self.entries@.take(i as int)).dom().contains(
                    key@,
                ),
                self@.dom().contains(key@) ==> self@[key@] == mapping_of(
                    self.entries@.take(i as int),
                )[key@],
            decreases i,
        {
            i -= 1;
            let entry = &self.entries[i];
            proof {
                let upto = self.entries@.take(i + 1);
                assert(upto.drop_last() =~= self.entries@.take(i as int));
                assert(upto.last() == *entry);
            }
            if same_text(entry.key.as_str(), key) {
                return Some(&entry.value);
            }
        }
        None
    }
}

} // verus!
