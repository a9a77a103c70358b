//! Sections: ordered key/value entries, each remembering the line it came from.

use vstd::prelude::*;

verus! {

/// What an entry holds: its key, its value, and the 1-based line of the
/// file where it was read.
pub struct EntryView {
    pub key: Seq<char>,
    pub value: Seq<char>,
    pub line: nat,
}

/// What a section holds: its name and its entries in insertion order.
pub struct SectionView {
    pub name: Seq<char>,
    pub entries: Seq<EntryView>,
}

/// Whether some entry of `es` has key `k`.
pub open spec fn has_key(es: Seq<EntryView>, k: Seq<char>) -> bool {
    exists|i: int| 0 <= i < es.len() && #[trigger] es[i].key == k
}

/// The position of the entry with key `k` (meaningful when `has_key`).
pub open spec fn key_index(es: Seq<EntryView>, k: Seq<char>) -> int {
    choose|i: int| 0 <= i < es.len() && #[trigger] es[i].key == k
}

/// No two entries share a key.
pub open spec fn keys_unique(es: Seq<EntryView>) -> bool {
    forall|i: int, j: int|
        0 <= i < es.len() && 0 <= j < es.len() && #[trigger] es[i].key == #[trigger] es[j].key
            ==> i == j
}

pub proof fn lemma_key_index(es: Seq<EntryView>, k: Seq<char>, i: int)
    requires
        keys_unique(es),
        0 <= i < es.len(),
        es[i].key == k,
    ensures
        has_key(es, k),
        key_index(es, k) == i,
{
    assert(has_key(es, k));
    let j = key_index(es, k);
    assert(es[j].key == k);
}

/// A key/value pair of a section, with the line it was read from.
pub struct KeyValuePair {
    pub key: String,
    pub value: String,
    pub line_cnt: usize,
}

impl View for KeyValuePair {
    type V = EntryView;

    open spec fn view(&self) -> EntryView {
        EntryView { key: self.key@, value: self.value@, line: self.line_cnt as nat }
    }
}

impl KeyValuePair {
    pub fn new(key: String, value: String, line_cnt: usize) -> (r: Self)
        ensures
            r@ == (EntryView { key: key@, value: value@, line: line_cnt as nat }),
    {
        KeyValuePair { key, value, line_cnt }
    }
}

pub open spec fn entry_views(v: Seq<KeyValuePair>) -> Seq<EntryView> {
    v.map_values(|e: KeyValuePair| e@)
}

/// A named group of key/value pairs.
pub struct Section {
    pub name: String,
    pub values: Vec<KeyValuePair>,
}

impl View for Section {
    type V = SectionView;

    open spec fn view(&self) -> SectionView {
        SectionView { name: self.name@, entries: entry_views(self.values@) }
    }
}

impl Section {
    pub fn new(name: &String) -> (r: Self)
        ensures
            r@.name == name@,
            r@.entries.len() == 0,
    {
        let r = Section { name: name.clone(), values: Vec::new() };
        assert(r@.entries =~= Seq::<EntryView>::empty());
        r
    }

    /// Adds `key = value` read at `line_cnt`. When the key is already there
    /// nothing changes and the line of the earlier entry comes back.
    pub fn add(&mut self, key: String, value: String, line_cnt: usize) -> (r: Result<(), usize>)
        requires
            keys_unique(old(self)@.entries),
        ensures
            final(self)@.name == old(self)@.name,
            keys_unique(final(self)@.entries),
            has_key(old(self)@.entries, key@) ==> {
                let i = key_index(old(self)@.entries, key@);
                &&& r == Err::<(), usize>(old(self)@.entries[i].line as usize)
                &&& final(self)@ == old(self)@
            },
            !has_key(old(self)@.entries, key@) ==> {
                &&& r is Ok
                &&& final(self)@.entries == old(self)@.entries.push(
                    EntryView { key: key@, value: value@, line: line_cnt as nat },
                )
            },
    {
        let ghost es = self@.entries;
        let mut i: usize = 0;
        while i < self.values.len()
            invariant
                es == self@.entries,
                keys_unique(es),
                self@ == old(self)@,
                i <= self.values@.len(),
                forall|j: int| 0 <= j < i ==> (#[trigger] es[j]).key != key@,
            decreases self.values@.len() - i,
        {
            if self.values[i].key == key {
                proof {
                    lemma_key_index(es, key@, i as int);
                }
                return Err(self.values[i].line_cnt);
            }
            i = i + 1;
        }
        self.values.push(KeyValuePair::new(key, value, line_cnt));
        assert(self@.entries =~= es.push(EntryView { key: key@, value: value@, line: line_cnt as nat }));
        Ok(())
    }

    /// The value stored under `key`, if any.
    pub fn get(&self, key: &String) -> (r: Option<&String>)
        requires
            keys_unique(self@.entries),
        ensures
            has_key(self@.entries, key@) ==> r is Some && r->0@ == self@.entries[key_index(self@.entries, key@)].value,
            !has_key(self@.entries, key@) ==> r is None,
    {
        let ghost es = self@.entries;
        let mut i: usize = 0;
        while i < self.values.len()
            invariant
                es == self@.entries,
                keys_unique(es),
                i <= self.values@.len(),
                forall|j: int| 0 <= j < i ==> (#[trigger] es[j]).key != key@,
            decreases self.values@.len() - i,
        {
            if self.values[i].key == *key {
                proof {
                    lemma_key_index(es, key@, i as int);
                }
                return Some(&self.values[i].value);
            }
            i = i + 1;
        }
        None
    }

    /// Replaces the value stored under `key`; tells whether the key was there.
    /// The entry keeps its key and its line.
    pub fn set(&mut self, key: &String, value: String) -> (r: bool)
        requires
            keys_unique(old(self)@.entries),
        ensures
            r == has_key(old(self)@.entries, key@),
            final(self)@.name == old(self)@.name,
            r ==> final(self)@.entries == old(self)@.entries.update(
                key_index(old(self)@.entries, key@),
                EntryView { value: value@, ..old(self)@.entries[key_index(old(self)@.entries, key@)] },
            ),
            !r ==> final(self)@ == old(self)@,
    {
        let ghost es = self@.entries;
        let mut i: usize = 0;
        while i < self.values.len()
            invariant
                es == self@.entries,
                keys_unique(es),
                self@ == old(self)@,
                i <= self.values@.len(),
                forall|j: int| 0 <= j < i ==> (#[trigger] es[j]).key != key@,
            decreases self.values@.len() - i,
        {
            if self.values[i].key == *key {
                proof {
                    lemma_key_index(es, key@, i as int);
                }
                let old_entry = &self.values[i];
                let entry = KeyValuePair::new(old_entry.key.clone(), value, old_entry.line_cnt);
                self.values.set(i, entry);
                assert(self@.entries =~= es.update(
                    i as int,
                    EntryView { value: value@, ..es[i as int] },
                ));
                return true;
            }
            i = i + 1;
        }
        false
    }

    /// Removes every entry.
    pub fn unload(&mut self)
        ensures
            final(self)@.name == old(self)@.name,
            final(self)@.entries.len() == 0,
    {
        self.values.clear();
    }
}

/// Entries are equal when their keys and values are; the line is not compared.
impl PartialEq for KeyValuePair {
    fn eq(&self, other: &KeyValuePair) -> (r: bool) {
        self.key == other.key && self.value == other.value
    }
}

impl vstd::std_specs::cmp::PartialEqSpecImpl for KeyValuePair {
    open spec fn obeys_eq_spec() -> bool {
        true
    }

    open spec fn eq_spec(&self, other: &KeyValuePair) -> bool {
        self.key@ == other.key@ && self.value@ == other.value@
    }
}

/// Sections are equal when their names are and their entries are, pair by pair.
impl PartialEq for Section {
    fn eq(&self, other: &Section) -> (r: bool) {
        if !(self.name == other.name) || self.values.len() != other.values.len() {
            return false;
        }
        let mut i: usize = 0;
        while i < self.values.len()
            invariant
                self.values@.len() == other.values@.len(),
                i <= self.values@.len(),
                forall|j: int| 0 <= j < i ==> (#[trigger] self.values@[j]).key@ == other.values@[j].key@
                    && self.values@[j].value@ == other.values@[j].value@,
            decreases self.values@.len() - i,
        {
            if !(self.values[i] == other.values[i]) {
                return false;
            }
            i = i + 1;
        }
        true
    }
}

impl vstd::std_specs::cmp::PartialEqSpecImpl for Section {
    open spec fn obeys_eq_spec() -> bool {
        true
    }

    open spec fn eq_spec(&self, other: &Section) -> bool {
        &&& self.name@ == other.name@
        &&& self.values@.len() == other.values@.len()
        &&& forall|j: int| 0 <= j < self.values@.len() ==> (#[trigger] self.values@[j]).key@ == other.values@[j].key@
            && self.values@[j].value@ == other.values@[j].value@
    }
}

} // verus!
