//! The usage history: how often each identity has been picked.
//!
//! A history is a mapping from identity to count, kept as a list of entries
//! in which no identity occurs twice. The order of the list is the order in
//! which the entries are walked, and it decides ties in the ranking.

use crate::assoc::as_map;
use crate::assoc::distinct;
use crate::assoc::holds;
use crate::assoc::lemma_place_unique;
use crate::assoc::lemma_with_value;
use crate::assoc::lookup;
use crate::assoc::place;
use crate::assoc::with_value;
use crate::ranking::covers;
use crate::ranking::is_ranked;
use crate::ranking::lemma_ranking_properties;
use crate::ranking::outranks;
use crate::ranking::rank;
use crate::ranking::ranking;
use vstd::prelude::*;

verus! {

/// One entry of a history, as a pair of identity and count.
pub type Usage = (Seq<char>, u32);

/// An identity and the number of times it has been picked.
#[derive(Debug, Clone, PartialEq, Eq)]
pub struct HistoryEntry {
    pub identity: String,
    pub count: u32,
}

impl View for HistoryEntry {
    type V = Usage;

    open spec fn view(&self) -> Usage {
        (self.identity@, self.count)
    }
}

/// The counts of `s`, in order.
pub open spec fn counts(s: Seq<Usage>) -> Seq<u32> {
    s.map_values(|e: Usage| e.1)
}

/// The count of `identity` after one more use.
pub open spec fn next_count(s: Seq<Usage>, identity: Seq<char>) -> int {
    match lookup(s, identity) {
        Some(count) => count + 1,
        None => 1,
    }
}

/// The identities of `s` by descending count, ties in the order of `s`.
pub open spec fn ranked_identities(s: Seq<Usage>) -> Seq<Seq<char>> {
    ranking(counts(s)).map_values(|i: int| s[i].0)
}

/// The ranked identities are the identities of the history, each once: the
/// ranking neither drops nor repeats an entry.
pub proof fn lemma_ranked_identities_complete(s: Seq<Usage>)
    requires
        distinct(s),
    ensures
        ranked_identities(s).len() == s.len(),
        ranked_identities(s).no_duplicates(),
        forall|identity: Seq<char>| ranked_identities(s).contains(identity) <==> holds(s, identity),
{
    let order = ranking(counts(s));
    let ranked = ranked_identities(s);
    lemma_ranking_properties(counts(s));
    assert forall|a: int, b: int| 0 <= a < ranked.len() && 0 <= b < ranked.len() && a
        != b implies ranked[a] != ranked[b] by {
        assert(order[a] != order[b]);
        if order[a] < order[b] {
            assert(s[order[a]].0 != s[order[b]].0);
        } else {
            assert(s[order[b]].0 != s[order[a]].0);
        }
    }
    assert forall|identity: Seq<char>| ranked.contains(identity) <==> holds(s, identity) by {
        if ranked.contains(identity) {
            let a = choose|a: int| 0 <= a < ranked.len() && ranked[a] == identity;
            assert(s[order[a]].0 == identity);
        }
        if holds(s, identity) {
            let i = place(s, identity);
            assert(order.contains(i));
            let a = choose|a: int| 0 <= a < order.len() && order[a] == i;
            assert(ranked[a] == identity);
        }
    }
}

/// Along the ranked identities the counts never rise, and of two identities
/// with the same count the one that the history lists first comes first.
pub proof fn lemma_ranked_identities_ordered(s: Seq<Usage>, a: int, b: int)
    requires
        distinct(s),
        0 <= a < b < s.len(),
    ensures
        holds(s, ranked_identities(s)[a]),
        holds(s, ranked_identities(s)[b]),
        lookup(s, ranked_identities(s)[a])->0 >= lookup(s, ranked_identities(s)[b])->0,
        lookup(s, ranked_identities(s)[a]) == lookup(s, ranked_identities(s)[b]) ==> place(
            s,
            ranked_identities(s)[a],
        ) < place(s, ranked_identities(s)[b]),
{
    let order = ranking(counts(s));
    lemma_ranking_properties(counts(s));
    assert(is_ranked(counts(s), order));
    assert(covers(order, s.len()));
    let i = order[a];
    let j = order[b];
    assert(outranks(counts(s), i, j));
    lemma_place_unique(s, i);
    lemma_place_unique(s, j);
}

/// The usage history.
#[derive(Debug, Clone, PartialEq, Eq)]
pub struct History {
    entries: Vec<HistoryEntry>,
}

impl View for History {
    type V = Seq<Usage>;

    closed spec fn view(&self) -> Seq<Usage> {
        self.entries@.map_values(|e: HistoryEntry| e@)
    }
}

impl History {
    /// No identity occurs twice.
    pub open spec fn wf(&self) -> bool {
        distinct(self@)
    }

    /// The history as a mapping from identity to count.
    pub open spec fn mapping(&self) -> Map<Seq<char>, u32> {
        as_map(self@)
    }

    /// The empty history.
    pub fn new() -> (r: History)
        ensures
            r@ == Seq::<Usage>::empty(),
            r.wf(),
    {
        let r = History { entries: Vec::new() };
        assert(r@ =~= Seq::<Usage>::empty());
        r
    }

    /// A history of the given entries, which hold no identity twice.
    pub(crate) fn from_distinct(entries: Vec<HistoryEntry>) -> (r: History)
        requires
            distinct(entries@.map_values(|e: HistoryEntry| e@)),
        ensures
            r@ == entries@.map_values(|e: HistoryEntry| e@),
            r.wf(),
    {
        History { entries }
    }

    /// The number of entries.
    pub fn len(&self) -> (r: usize)
        ensures
            r == self@.len(),
    {
        self.entries.len()
    }

    /// The entries, in the order in which the history lists them.
    pub fn entries(&self) -> (r: &Vec<HistoryEntry>)
        ensures
            r@.map_values(|e: HistoryEntry| e@) == self@,
    {
        &self.entries
    }

    /// The index of the entry for `identity`.
    fn find(&self, identity: &String) -> (r: Option<usize>)
        requires
            self.wf(),
        ensures
            match r {
                Some(i) => holds(self@, identity@) && i == place(self@, identity@) && i
                    < self.entries.len(),
                None => !holds(self@, identity@),
            },
    {
        let n = self.entries.len();
        let mut i: usize = 0;
        while i < n
            invariant
                self.wf(),
                n == self.entries.len(),
                i <= n,
                forall|j: int| 0 <= j < i ==> (#[trigger] self@[j]).0 != identity@,
            decreases n - i,
        {
            if self.entries[i].identity == *identity {
                proof {
                    assert(self@[i as int].0 == identity@);
                    lemma_place_unique(self@, i as int);
                }
                return Some(i);
            }
            i += 1;
        }
        None
    }

    /// The count recorded for `identity`, if it has an entry.
    pub fn get(&self, identity: &str) -> (r: Option<u32>)
        requires
            self.wf(),
        ensures
            r == lookup(self@, identity@),
    {
        let key = identity.to_owned();
        match self.find(&key) {
            Some(i) => Some(self.entries[i].count),
            None => None,
        }
    }

    /// Sets the count of `identity`, adding an entry at the end if there is
    /// none yet.
    pub fn insert(&mut self, identity: String, count: u32)
        requires
            old(self).wf(),
        ensures
            final(self).wf(),
            final(self)@ == with_value(old(self)@, identity@, count),
            final(self).mapping() == old(self).mapping().insert(identity@, count),
    {
        proof {
            lemma_with_value(self@, identity@, count);
        }
        match self.find(&identity) {
            Some(i) => {
                self.entries.set(i, HistoryEntry { identity, count });
                assert(self@ =~= with_value(old(self)@, identity@, count));
            },
            None => {
                self.entries.push(HistoryEntry { identity, count });
                assert(self@ =~= with_value(old(self)@, identity@, count));
            },
        }
    }

    /// Counts one more use of `identity` and returns the new count. A count
    /// that is at the largest value a `u32` holds cannot grow: the history
    /// then stays as it is and `None` is returned.
    pub fn record_use(&mut self, identity: &str) -> (r: Option<u32>)
        requires
            old(self).wf(),
        ensures
            final(self).wf(),
            match r {
                Some(count) => {
                    &&& count == next_count(old(self)@, identity@)
                    &&& final(self)@ == with_value(old(self)@, identity@, count)
                    &&& final(self).mapping() == old(self).mapping().insert(identity@, count)
                },
                None => {
                    &&& lookup(old(self)@, identity@) == Some(u32::MAX)
                    &&& final(self)@ == old(self)@
                },
            },
    {
        let key = identity.to_owned();
        let count: u32 = match self.find(&key) {
            Some(i) => {
                let current = self.entries[i].count;
                if current == u32::MAX {
                    return None;
                }
                current + 1
            },
            None => 1,
        };
        self.insert(key, count);
        Some(count)
    }

    /// The identities by descending count. Identities with the same count
    /// keep the order in which the history lists them.
    pub fn ranked(&self) -> (r: Vec<String>)
        ensures
            r.deep_view() == ranked_identities(self@),
    {
        let n = self.entries.len();
        let mut tally: Vec<u32> = Vec::new();
        let mut i: usize = 0;
        while i < n
            invariant
                n == self.entries.len(),
                i <= n,
                tally@ == counts(self@).take(i as int),
            decreases n - i,
        {
            tally.push(self.entries[i].count);
            assert(tally@ =~= counts(self@).take(i + 1));
            i += 1;
        }
        assert(tally@ =~= counts(self@));
        let order = rank(&tally);
        proof {
            lemma_ranking_properties(counts(self@));
        }
        let ghost positions = order@.map_values(|k: usize| k as int);
        let mut out: Vec<String> = Vec::new();
        let mut k: usize = 0;
        while k < n
            invariant
                n == self.entries.len(),
                k <= n,
                order@.len() == n,
                positions == order@.map_values(|k: usize| k as int),
                positions == ranking(counts(self@)),
                is_ranked(counts(self@), positions),
                out.deep_view() == ranked_identities(self@).take(k as int),
            decreases n - k,
        {
            assert(positions[k as int] == order[k as int]);
            let at = order[k];
            let ghost listed = out.deep_view();
            let identity = self.entries[at].identity.clone();
            assert(identity@ == self@[at as int].0);
            out.push(identity);
            assert(out.deep_view() =~= listed.push(identity@));
            assert(out.deep_view() =~= ranked_identities(self@).take(k + 1));
            k += 1;
        }
        assert(out.deep_view() =~= ranked_identities(self@));
        out
    }
}

} // verus!
