//! Mappings kept as lists: the model that the history and the catalog share.
//!
//! A mapping from text keys to values is a sequence of pairs in which no key
//! occurs twice. The sequence, unlike a set of pairs, has an order: the order
//! in which the mapping is walked.

use vstd::prelude::*;

verus! {

/// The keys of `s`, in order.
pub open spec fn keys<V>(s: Seq<(Seq<char>, V)>) -> Seq<Seq<char>> {
    s.map_values(|e: (Seq<char>, V)| e.0)
}

/// No key occurs twice in `s`.
pub open spec fn distinct<V>(s: Seq<(Seq<char>, V)>) -> bool {
    forall|i: int, j: int| 0 <= i < j < s.len() ==> (#[trigger] s[i]).0 != (#[trigger] s[j]).0
}

/// `s` has an entry for `key`.
pub open spec fn holds<V>(s: Seq<(Seq<char>, V)>, key: Seq<char>) -> bool {
    exists|i: int| 0 <= i < s.len() && (#[trigger] s[i]).0 == key
}

/// The place of `key` in `s`, where `s` holds it.
pub open spec fn place<V>(s: Seq<(Seq<char>, V)>, key: Seq<char>) -> int {
    choose|i: int| 0 <= i < s.len() && (#[trigger] s[i]).0 == key
}

/// The value that `s` has for `key`, if any.
pub open spec fn lookup<V>(s: Seq<(Seq<char>, V)>, key: Seq<char>) -> Option<V> {
    if holds(s, key) {
        Some(s[place(s, key)].1)
    } else {
        None
    }
}

/// `s` as a mathematical map.
pub open spec fn as_map<V>(s: Seq<(Seq<char>, V)>) -> Map<Seq<char>, V> {
    Map::new(|key: Seq<char>| holds(s, key), |key: Seq<char>| s[place(s, key)].1)
}

/// `s` with `key` set to `value`: an entry that is there keeps its place, a
/// new one goes to the end.
pub open spec fn with_value<V>(s: Seq<(Seq<char>, V)>, key: Seq<char>, value: V) -> Seq<
    (Seq<char>, V),
> {
    if holds(s, key) {
        s.update(place(s, key), (key, value))
    } else {
        s.push((key, value))
    }
}

/// The keys of a list without repeated keys do not repeat.
pub proof fn lemma_keys_distinct<V>(s: Seq<(Seq<char>, V)>)
    ensures
        distinct(s) <==> keys(s).no_duplicates(),
{
    if distinct(s) {
        assert forall|i: int, j: int| 0 <= i < keys(s).len() && 0 <= j < keys(s).len() && i
            != j implies keys(s)[i] != keys(s)[j] by {
            if i < j {
                assert(s[i].0 != s[j].0);
            } else {
                assert(s[j].0 != s[i].0);
            }
        }
    }
    if keys(s).no_duplicates() {
        assert forall|i: int, j: int| 0 <= i < j < s.len() implies
            (#[trigger] s[i]).0 != (#[trigger] s[j]).0 by {
            assert(keys(s)[i] != keys(s)[j]);
        }
    }
}

/// In a list without repeated keys, the place of a key is the one index that
/// holds it.
pub proof fn lemma_place_unique<V>(s: Seq<(Seq<char>, V)>, i: int)
    requires
        distinct(s),
        0 <= i < s.len(),
    ensures
        holds(s, s[i].0),
        place(s, s[i].0) == i,
        lookup(s, s[i].0) == Some(s[i].1),
        as_map(s).contains_key(s[i].0),
        as_map(s)[s[i].0] == s[i].1,
{
    let k = place(s, s[i].0);
    assert(0 <= k < s.len() && s[k].0 == s[i].0);
    if k < i {
        assert(s[k].0 != s[i].0);
    } else if i < k {
        assert(s[i].0 != s[k].0);
    }
}

/// Setting a value changes the mapping at that key and nowhere else, and
/// keeps the keys distinct.
pub proof fn lemma_with_value<V>(s: Seq<(Seq<char>, V)>, key: Seq<char>, value: V)
    requires
        distinct(s),
    ensures
        distinct(with_value(s, key, value)),
        as_map(with_value(s, key, value)) == as_map(s).insert(key, value),
        holds(s, key) ==> keys(with_value(s, key, value)) == keys(s),
        !holds(s, key) ==> keys(with_value(s, key, value)) == keys(s).push(key),
{
    let t = with_value(s, key, value);
    if holds(s, key) {
        let p = place(s, key);
        lemma_place_unique(s, p);
        assert forall|i: int, j: int| 0 <= i < j < t.len() implies
            (#[trigger] t[i]).0 != (#[trigger] t[j]).0 by {
            assert(t[i].0 == s[i].0 && t[j].0 == s[j].0);
        }
        assert(keys(t) =~= keys(s));
        assert forall|other: Seq<char>| holds(t, other) == holds(s, other) by {
            if holds(t, other) {
                let k = place(t, other);
                assert(s[k].0 == other);
            }
            if holds(s, other) {
                let k = place(s, other);
                assert(t[k].0 == other);
            }
        }
        assert forall|other: Seq<char>| holds(t, other) implies #[trigger] as_map(t)[other]
            == as_map(s).insert(key, value)[other] by {
            let k = place(t, other);
            lemma_place_unique(t, k);
            assert(s[k].0 == other);
            lemma_place_unique(s, k);
        }
    } else {
        assert forall|i: int, j: int| 0 <= i < j < t.len() implies
            (#[trigger] t[i]).0 != (#[trigger] t[j]).0 by {
            if j < s.len() {
                assert(t[i].0 == s[i].0 && t[j].0 == s[j].0);
            } else {
                assert(t[i] == s[i]);
            }
        }
        assert(keys(t) =~= keys(s).push(key));
        assert(t[s.len() as int].0 == key);
        assert forall|other: Seq<char>| holds(t, other) == (holds(s, other) || other == key) by {
            if holds(t, other) {
                let k = place(t, other);
                if k < s.len() {
                    assert(s[k].0 == other);
                }
            }
            if holds(s, other) {
                let k = place(s, other);
                assert(t[k].0 == other);
            }
        }
        assert forall|other: Seq<char>| holds(t, other) implies #[trigger] as_map(t)[other]
            == as_map(s).insert(key, value)[other] by {
            let k = place(t, other);
            lemma_place_unique(t, k);
            if k < s.len() {
                assert(s[k].0 == other);
                lemma_place_unique(s, k);
            }
        }
    }
    assert(as_map(t) =~= as_map(s).insert(key, value));
}

} // verus!
