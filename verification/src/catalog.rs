//! The Unicode emoji catalog: a read-only mapping from grapheme to display
//! name, kept in the order in which it is walked.

use crate::assoc::as_map;
use crate::assoc::distinct;
use crate::assoc::holds;
use crate::assoc::lemma_place_unique;
use crate::assoc::lemma_with_value;
use crate::assoc::lookup;
use crate::assoc::place;
use crate::assoc::with_value;
use vstd::prelude::*;

verus! {

/// One entry of a catalog, as a pair of grapheme and display name.
pub type Naming = (Seq<char>, Seq<char>);

/// A grapheme and its display name.
#[derive(Debug, Clone, PartialEq, Eq)]
pub struct CatalogEntry {
    pub grapheme: String,
    pub name: String,
}

impl View for CatalogEntry {
    type V = Naming;

    open spec fn view(&self) -> Naming {
        (self.grapheme@, self.name@)
    }
}

/// The emoji catalog.
#[derive(Debug, Clone, PartialEq, Eq)]
pub struct Catalog {
    entries: Vec<CatalogEntry>,
}

impl View for Catalog {
    type V = Seq<Naming>;

    closed spec fn view(&self) -> Seq<Naming> {
        self.entries@.map_values(|e: CatalogEntry| e@)
    }
}

impl Catalog {
    /// No grapheme occurs twice.
    pub open spec fn wf(&self) -> bool {
        distinct(self@)
    }

    /// The catalog as a mapping from grapheme to display name.
    pub open spec fn mapping(&self) -> Map<Seq<char>, Seq<char>> {
        as_map(self@)
    }

    /// The empty catalog.
    pub fn new() -> (r: Catalog)
        ensures
            r@ == Seq::<Naming>::empty(),
            r.wf(),
    {
        let r = Catalog { entries: Vec::new() };
        assert(r@ =~= Seq::<Naming>::empty());
        r
    }

    /// A catalog of the given entries, which hold no grapheme twice.
    pub(crate) fn from_distinct(entries: Vec<CatalogEntry>) -> (r: Catalog)
        requires
            distinct(entries@.map_values(|e: CatalogEntry| e@)),
        ensures
            r@ == entries@.map_values(|e: CatalogEntry| e@),
            r.wf(),
    {
        Catalog { entries }
    }

    /// The number of entries.
    pub fn len(&self) -> (r: usize)
        ensures
            r == self@.len(),
    {
        self.entries.len()
    }

    /// The entries, in the order in which the catalog lists them.
    pub fn entries(&self) -> (r: &Vec<CatalogEntry>)
        ensures
            r@.map_values(|e: CatalogEntry| e@) == self@,
    {
        &self.entries
    }

    /// The index of the entry for `grapheme`.
    fn find(&self, grapheme: &String) -> (r: Option<usize>)
        requires
            self.wf(),
        ensures
            match r {
                Some(i) => holds(self@, grapheme@) && i == place(self@, grapheme@) && i
                    < self.entries.len(),
                None => !holds(self@, grapheme@),
            },
    {
        let n = self.entries.len();
        let mut i: usize = 0;
        while i < n
            invariant
                self.wf(),
                n == self.entries.len(),
                i <= n,
                forall|j: int| 0 <= j < i ==> (#[trigger] self@[j]).0 != grapheme@,
            decreases n - i,
        {
            if self.entries[i].grapheme == *grapheme {
                proof {
                    assert(self@[i as int].0 == grapheme@);
                    lemma_place_unique(self@, i as int);
                }
                return Some(i);
            }
            i += 1;
        }
        None
    }

    /// The display name of `grapheme`, if the catalog has one.
    pub fn get(&self, grapheme: &str) -> (r: Option<&String>)
        requires
            self.wf(),
        ensures
            match r {
                Some(name) => lookup(self@, grapheme@) == Some(name@),
                None => lookup(self@, grapheme@) is None,
            },
    {
        let key = grapheme.to_owned();
        match self.find(&key) {
            Some(i) => Some(&self.entries[i].name),
            None => None,
        }
    }

    /// Sets the display name of `grapheme`, adding an entry at the end if
    /// there is none yet.
    pub fn insert(&mut self, grapheme: String, name: String)
        requires
            old(self).wf(),
        ensures
            final(self).wf(),
            final(self)@ == with_value(old(self)@, grapheme@, name@),
            final(self).mapping() == old(self).mapping().insert(grapheme@, name@),
    {
        proof {
            lemma_with_value(self@, grapheme@, name@);
        }
        match self.find(&grapheme) {
            Some(i) => {
                self.entries.set(i, CatalogEntry { grapheme, name });
                assert(self@ =~= with_value(old(self)@, grapheme@, name@));
            },
            None => {
                self.entries.push(CatalogEntry { grapheme, name });
                assert(self@ =~= with_value(old(self)@, grapheme@, name@));
            },
        }
    }
}

} // verus!
