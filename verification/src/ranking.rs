//! The frequency ranking: a stable ordering of positions by descending count.
//!
//! A ranking of `counts` is a sequence of positions into `counts`. It lists
//! every position once, larger counts first, and positions with equal counts
//! in the order in which they stand in `counts`.

use vstd::prelude::*;
use vstd::set_lib::lemma_int_range;
use vstd::set_lib::lemma_subset_equality;
use vstd::set_lib::set_int_range;

verus! {

/// Position `a` comes before position `b` in the ranking of `counts`: its
/// count is larger, or the counts are equal and `a` is the earlier position.
pub open spec fn outranks(counts: Seq<u32>, a: int, b: int) -> bool {
    counts[a] > counts[b] || (counts[a] == counts[b] && a < b)
}

/// `order` lists positions of `counts` only, and each earlier one outranks
/// each later one.
pub open spec fn is_ranked(counts: Seq<u32>, order: Seq<int>) -> bool {
    &&& forall|k: int| 0 <= k < order.len() ==> 0 <= #[trigger] order[k] < counts.len()
    &&& forall|a: int, b: int|
        0 <= a < b < order.len() ==> outranks(counts, #[trigger] order[a], #[trigger] order[b])
}

/// Where a new entry with count `c` enters `order`: directly behind the last
/// position whose count is at least `c`.
pub open spec fn slot(counts: Seq<u32>, order: Seq<int>, c: u32) -> int
    decreases order.len(),
{
    if order.len() == 0 || counts[order.last()] >= c {
        order.len() as int
    } else {
        slot(counts, order.drop_last(), c)
    }
}

/// The ranking of `counts`, built by entering the positions one after the
/// other, each at its slot.
pub open spec fn ranking(counts: Seq<u32>) -> Seq<int>
    decreases counts.len(),
{
    if counts.len() == 0 {
        Seq::empty()
    } else {
        let earlier = ranking(counts.drop_last());
        earlier.insert(slot(counts, earlier, counts.last()), counts.len() - 1)
    }
}

/// The slot splits `order` into the positions whose count is at least `c`
/// and those whose count is smaller.
pub proof fn lemma_slot_splits(counts: Seq<u32>, order: Seq<int>, c: u32)
    requires
        is_ranked(counts, order),
    ensures
        0 <= slot(counts, order, c) <= order.len(),
        forall|k: int| 0 <= k < slot(counts, order, c) ==> counts[#[trigger] order[k]] >= c,
        forall|k: int| slot(counts, order, c) <= k < order.len() ==> counts[#[trigger] order[k]] < c,
    decreases order.len(),
{
    if order.len() == 0 {
    } else if counts[order.last()] >= c {
        let last = order.len() - 1;
        assert forall|k: int| 0 <= k < order.len() implies counts[#[trigger] order[k]] >= c by {
            if k < last {
                assert(outranks(counts, order[k], order[last]));
            }
        }
    } else {
        let shorter = order.drop_last();
        assert(is_ranked(counts, shorter)) by {
            assert forall|a: int, b: int| 0 <= a < b < shorter.len() implies outranks(
                counts,
                #[trigger] shorter[a],
                #[trigger] shorter[b],
            ) by {
                assert(outranks(counts, order[a], order[b]));
            }
        }
        lemma_slot_splits(counts, shorter, c);
        assert forall|k: int| slot(counts, order, c) <= k < order.len() implies counts[
            #[trigger] order[k]] < c by {
            if k < order.len() - 1 {
                assert(order[k] == shorter[k]);
            }
        }
        assert forall|k: int| 0 <= k < slot(counts, order, c) implies counts[
            #[trigger] order[k]] >= c by {
            assert(order[k] == shorter[k]);
        }
    }
}

/// A ranking stays one when the counts grow at the end.
pub proof fn lemma_ranked_extends(counts: Seq<u32>, longer: Seq<u32>, order: Seq<int>)
    requires
        is_ranked(counts, order),
        counts.is_prefix_of(longer),
    ensures
        is_ranked(longer, order),
{
    assert forall|a: int, b: int| 0 <= a < b < order.len() implies outranks(
        longer,
        #[trigger] order[a],
        #[trigger] order[b],
    ) by {
        assert(outranks(counts, order[a], order[b]));
        assert(longer[order[a]] == counts[order[a]]);
        assert(longer[order[b]] == counts[order[b]]);
    }
}

/// Entering the next position at its slot keeps a ranking ranked.
pub proof fn lemma_insert_ranked(counts: Seq<u32>, order: Seq<int>, next: int)
    requires
        is_ranked(counts, order),
        0 <= next < counts.len(),
        forall|k: int| 0 <= k < order.len() ==> #[trigger] order[k] < next,
    ensures
        is_ranked(counts, order.insert(slot(counts, order, counts[next]), next)),
{
    let c = counts[next];
    let p = slot(counts, order, c);
    lemma_slot_splits(counts, order, c);
    let grown = order.insert(p, next);
    assert(grown.len() == order.len() + 1);
    assert forall|k: int| 0 <= k < grown.len() implies 0 <= #[trigger] grown[k] < counts.len() by {
        if k < p {
            assert(grown[k] == order[k]);
        } else if k > p {
            assert(grown[k] == order[k - 1]);
        }
    }
    assert forall|a: int, b: int| 0 <= a < b < grown.len() implies outranks(
        counts,
        #[trigger] grown[a],
        #[trigger] grown[b],
    ) by {
        if b < p {
            assert(grown[a] == order[a] && grown[b] == order[b]);
        } else if b == p {
            assert(grown[a] == order[a]);
            assert(counts[order[a]] >= c);
        } else if a < p {
            assert(grown[a] == order[a] && grown[b] == order[b - 1]);
        } else if a == p {
            assert(grown[b] == order[b - 1]);
            assert(counts[order[b - 1]] < c);
        } else {
            assert(grown[a] == order[a - 1] && grown[b] == order[b - 1]);
        }
    }
}

/// Every position occurs in `order`.
pub open spec fn covers(order: Seq<int>, len: nat) -> bool {
    forall|i: int| 0 <= i < len ==> order.contains(i)
}

/// The ranking lists every position of `counts` exactly once, larger counts
/// first, and equal counts in the order in which they stand in `counts`.
pub proof fn lemma_ranking_properties(counts: Seq<u32>)
    ensures
        ranking(counts).len() == counts.len(),
        is_ranked(counts, ranking(counts)),
        ranking(counts).no_duplicates(),
        covers(ranking(counts), counts.len()),
    decreases counts.len(),
{
    let order = ranking(counts);
    if counts.len() == 0 {
    } else {
        let shorter = counts.drop_last();
        let earlier = ranking(shorter);
        let next = counts.len() - 1;
        lemma_ranking_properties(shorter);
        lemma_ranked_extends(shorter, counts, earlier);
        lemma_insert_ranked(counts, earlier, next);
        let p = slot(counts, earlier, counts.last());
        lemma_slot_splits(counts, earlier, counts.last());
        assert(order == earlier.insert(p, next));
        assert forall|i: int| 0 <= i < counts.len() implies order.contains(i) by {
            if i == next {
                assert(order[p] == next);
            } else {
                assert(earlier.contains(i));
                let k = choose|k: int| 0 <= k < earlier.len() && earlier[k] == i;
                if k < p {
                    assert(order[k] == i);
                } else {
                    assert(order[k + 1] == i);
                }
            }
        }
    }
    lemma_ranked_distinct(counts, order);
}

/// No position occurs twice in a ranked sequence.
pub proof fn lemma_ranked_distinct(counts: Seq<u32>, order: Seq<int>)
    requires
        is_ranked(counts, order),
    ensures
        order.no_duplicates(),
{
    assert forall|a: int, b: int| 0 <= a < order.len() && 0 <= b < order.len() && a != b implies order[a]
        != order[b] by {
        if a < b {
            assert(outranks(counts, order[a], order[b]));
        } else {
            assert(outranks(counts, order[b], order[a]));
        }
    }
}

/// A sequence of `len` different positions below `len` holds each of them.
pub proof fn lemma_distinct_positions_cover(order: Seq<int>, len: nat)
    requires
        order.len() == len,
        order.no_duplicates(),
        forall|k: int| 0 <= k < order.len() ==> 0 <= #[trigger] order[k] < len,
    ensures
        covers(order, len),
{
    let held = order.to_set();
    let all = set_int_range(0, len as int);
    order.unique_seq_to_set();
    lemma_int_range(0, len as int);
    assert(held.subset_of(all)) by {
        assert forall|i: int| held.contains(i) implies all.contains(i) by {
            let k = choose|k: int| 0 <= k < order.len() && order[k] == i;
            assert(0 <= order[k] < len);
        }
    }
    lemma_subset_equality(held, all);
    assert forall|i: int| 0 <= i < len implies order.contains(i) by {
        assert(all.contains(i));
        assert(held.contains(i));
    }
}

/// The ranking is the only sequence that lists as many positions as there
/// are counts and is ranked.
pub proof fn lemma_ranking_unique(counts: Seq<u32>, order: Seq<int>)
    requires
        is_ranked(counts, order),
        order.len() == counts.len(),
    ensures
        order == ranking(counts),
    decreases counts.len(),
{
    if counts.len() == 0 {
        assert(order =~= ranking(counts));
    } else {
        let next = counts.len() - 1;
        let c = counts[next];
        let shorter = counts.drop_last();
        lemma_ranked_distinct(counts, order);
        lemma_distinct_positions_cover(order, counts.len());
        assert(order.contains(next));
        let q = choose|q: int| 0 <= q < order.len() && order[q] == next;
        let rest = order.remove(q);
        assert forall|k: int| 0 <= k < rest.len() implies 0 <= #[trigger] rest[k] < shorter.len() by {
            if k < q {
                assert(rest[k] == order[k]);
            } else {
                assert(rest[k] == order[k + 1]);
            }
        }
        assert forall|a: int, b: int| 0 <= a < b < rest.len() implies outranks(
            shorter,
            #[trigger] rest[a],
            #[trigger] rest[b],
        ) by {
            let from = if a < q {
                a
            } else {
                a + 1
            };
            let to = if b < q {
                b
            } else {
                b + 1
            };
            assert(rest[a] == order[from] && rest[b] == order[to]);
            assert(outranks(counts, order[from], order[to]));
        }
        lemma_ranking_unique(shorter, rest);
        lemma_ranked_extends(shorter, counts, rest);
        lemma_slot_splits(counts, rest, c);
        let p = slot(counts, rest, c);
        if p < q {
            assert(rest[p] == order[p]);
            assert(outranks(counts, order[p], order[q]));
        }
        if q < p {
            assert(rest[q] == order[q + 1]);
            assert(outranks(counts, order[q], order[q + 1]));
        }
        assert(p == q);
        assert(order =~= rest.insert(q, next));
    }
}

/// Counts never rise along the ranking, and where two counts are equal the
/// position that came first in `counts` is listed first.
pub proof fn lemma_ranking_descending_and_stable(counts: Seq<u32>, a: int, b: int)
    requires
        0 <= a < b < counts.len(),
    ensures
        counts[ranking(counts)[a]] >= counts[ranking(counts)[b]],
        counts[ranking(counts)[a]] == counts[ranking(counts)[b]] ==> ranking(counts)[a] < ranking(
            counts,
        )[b],
{
    lemma_ranking_properties(counts);
    assert(outranks(counts, ranking(counts)[a], ranking(counts)[b]));
}

/// Computes the ranking of `counts`.
pub fn rank(counts: &Vec<u32>) -> (order: Vec<usize>)
    ensures
        order@.map_values(|i: usize| i as int) == ranking(counts@),
{
    let n = counts.len();
    let mut order: Vec<usize> = Vec::new();
    let mut i: usize = 0;
    while i < n
        invariant
            n == counts.len(),
            i <= n,
            order@.map_values(|k: usize| k as int) == ranking(counts@.take(i as int)),
        decreases n - i,
    {
        let ghost before = order@.map_values(|k: usize| k as int);
        let ghost seen = counts@.take(i as int);
        let ghost now = counts@.take(i + 1);
        proof {
            lemma_ranking_properties(seen);
            lemma_ranked_extends(seen, now, before);
            assert(now.drop_last() =~= seen);
            assert(now.last() == counts[i as int]);
        }
        let c = counts[i];
        let mut p: usize = order.len();
        assert(before.take(p as int) =~= before);
        while p > 0 && counts[order[p - 1]] < c
            invariant
                p <= order.len(),
                i < n,
                n == counts.len(),
                c == counts[i as int],
                before == order@.map_values(|k: usize| k as int),
                is_ranked(now, before),
                now == counts@.take(i + 1),
                slot(now, before, c) == slot(now, before.take(p as int), c),
            decreases p,
        {
            proof {
                let head = before.take(p as int);
                assert(head.last() == before[p - 1]);
                assert(now[before[p - 1]] == counts[order[p - 1] as int]);
                assert(head.drop_last() =~= before.take(p - 1));
            }
            p -= 1;
        }
        proof {
            let head = before.take(p as int);
            if p > 0 {
                assert(head.last() == before[p - 1]);
                assert(now[before[p - 1]] == counts[order[p - 1] as int]);
            }
            assert(slot(now, before, c) == p);
        }
        order.insert(p, i);
        proof {
            assert(order@.map_values(|k: usize| k as int) =~= before.insert(p as int, i as int));
        }
        i += 1;
    }
    proof {
        assert(counts@.take(n as int) =~= counts@);
    }
    order
}

} // verus!
