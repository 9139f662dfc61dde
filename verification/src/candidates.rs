//! The merger: one ranked, duplicate-free candidate list out of the history,
//! the catalog and a listing of the PNG directory.
//!
//! The list has three sections. First the identities of the history, by
//! descending count. Then the PNG files of the directory that the history
//! does not name. Then the catalog entries whose grapheme the history does
//! not name, in the catalog's order.

use crate::assoc::distinct;
use crate::assoc::holds;
use crate::assoc::keys;
use crate::assoc::lemma_keys_distinct;
use crate::catalog::Catalog;
use crate::catalog::CatalogEntry;
use crate::catalog::Naming;
use crate::history::lemma_ranked_identities_complete;
use crate::history::ranked_identities;
use crate::history::History;
use crate::history::Usage;
use crate::text::contains_text;
use crate::text::has_png_extension;
use crate::text::is_png_file_name;
use vstd::prelude::*;
use vstd::seq_lib::lemma_no_dup_in_concat;

verus! {

/// One entry of a directory listing, as a pair of file name and whether the
/// entry is a regular file.
pub type Listed = (Seq<char>, bool);

/// An entry of the PNG directory: its file name, and whether it is a regular
/// file rather than a directory or something else.
#[derive(Debug, Clone, PartialEq, Eq)]
pub struct DirEntry {
    pub name: String,
    pub is_file: bool,
}

impl View for DirEntry {
    type V = Listed;

    open spec fn view(&self) -> Listed {
        (self.name@, self.is_file)
    }
}

/// The entries of a scan. A directory that does not exist (`None`) has none.
pub open spec fn scanned(scan: Option<Vec<DirEntry>>) -> Seq<Listed> {
    match scan {
        Some(entries) => entries@.map_values(|e: DirEntry| e@),
        None => Seq::empty(),
    }
}

/// The test that a listed entry passes to become a PNG candidate: a regular
/// file with the extension `png` whose name is not in `taken`.
pub open spec fn is_new_png(taken: Seq<Seq<char>>) -> spec_fn(Listed) -> bool {
    |e: Listed| e.1 && has_png_extension(e.0) && !taken.contains(e.0)
}

/// The file names of the PNG candidates of `listing`, in its order.
pub open spec fn new_pngs(listing: Seq<Listed>, taken: Seq<Seq<char>>) -> Seq<Seq<char>> {
    listing.filter(is_new_png(taken)).map_values(|e: Listed| e.0)
}

/// The test that a catalog entry passes to stay: its grapheme is not in
/// `taken`.
pub open spec fn is_unranked(taken: Seq<Seq<char>>) -> spec_fn(Naming) -> bool {
    |e: Naming| !taken.contains(e.0)
}

/// The catalog entries whose grapheme is not in `taken`, in the catalog's
/// order.
pub open spec fn remaining(catalog: Seq<Naming>, taken: Seq<Seq<char>>) -> Seq<Naming> {
    catalog.filter(is_unranked(taken))
}

/// The identities of the whole candidate list, section after section.
pub open spec fn merged_identities(
    history: Seq<Usage>,
    catalog: Seq<Naming>,
    listing: Seq<Listed>,
) -> Seq<Seq<char>> {
    let ranked = ranked_identities(history);
    ranked + new_pngs(listing, ranked) + keys(remaining(catalog, ranked))
}

/// No file name occurs twice in `listing`.
pub open spec fn distinct_names(listing: Seq<Listed>) -> bool {
    forall|i: int, j: int|
        0 <= i < j < listing.len() ==> (#[trigger] listing[i]).0 != (#[trigger] listing[j]).0
}

/// Filtering keeps the order: what passes comes out at rising indices of the
/// input.
pub proof fn lemma_filter_rising<A>(s: Seq<A>, pred: spec_fn(A) -> bool)
    ensures
        forall|k: int|
            0 <= k < s.filter(pred).len() ==> pred(#[trigger] s.filter(pred)[k]) && s.contains(
                s.filter(pred)[k],
            ),
        exists|at: Seq<int>|
            {
                &&& at.len() == s.filter(pred).len()
                &&& forall|k: int| 0 <= k < at.len() ==> 0 <= #[trigger] at[k] < s.len()
                &&& forall|k: int| 0 <= k < at.len() ==> s[#[trigger] at[k]] == s.filter(pred)[k]
                &&& forall|k: int, l: int|
                    0 <= k < l < at.len() ==> #[trigger] at[k] < #[trigger] at[l]
            },
    decreases s.len(),
{
    reveal(Seq::filter);
    let out = s.filter(pred);
    if s.len() == 0 {
        let at = Seq::<int>::empty();
        assert(at.len() == out.len());
    } else {
        let shorter = s.drop_last();
        let sub = shorter.filter(pred);
        lemma_filter_rising(shorter, pred);
        let sub_at = choose|at: Seq<int>|
            {
                &&& at.len() == sub.len()
                &&& forall|k: int| 0 <= k < at.len() ==> 0 <= #[trigger] at[k] < shorter.len()
                &&& forall|k: int| 0 <= k < at.len() ==> shorter[#[trigger] at[k]] == sub[k]
                &&& forall|k: int, l: int|
                    0 <= k < l < at.len() ==> #[trigger] at[k] < #[trigger] at[l]
            };
        let last = s.len() - 1;
        let at = if pred(s.last()) {
            sub_at.push(last)
        } else {
            sub_at
        };
        assert(at.len() == out.len());
        assert forall|k: int| 0 <= k < at.len() implies 0 <= #[trigger] at[k] < s.len() by {
            if k < sub_at.len() {
                assert(at[k] == sub_at[k]);
            }
        }
        assert forall|k: int| 0 <= k < at.len() implies s[#[trigger] at[k]] == out[k] by {
            if k < sub_at.len() {
                assert(at[k] == sub_at[k]);
                assert(shorter[sub_at[k]] == sub[k]);
            }
        }
        assert forall|k: int, l: int| 0 <= k < l < at.len() implies #[trigger] at[k]
            < #[trigger] at[l] by {
            assert(at[k] == sub_at[k]);
            if l < sub_at.len() {
                assert(at[l] == sub_at[l]);
            }
        }
        assert forall|k: int| 0 <= k < out.len() implies pred(#[trigger] out[k]) && s.contains(
            out[k],
        ) by {
            assert(s[at[k]] == out[k]);
            if k < sub.len() {
                assert(out[k] == sub[k]);
            }
        }
    }
}

/// The PNG candidates are regular files with the extension `png`, none of
/// them is in `taken`, and where the listing repeats no name they repeat
/// none.
pub proof fn lemma_new_pngs(listing: Seq<Listed>, taken: Seq<Seq<char>>)
    ensures
        forall|k: int|
            0 <= k < new_pngs(listing, taken).len() ==> {
                &&& has_png_extension(#[trigger] new_pngs(listing, taken)[k])
                &&& !taken.contains(new_pngs(listing, taken)[k])
                &&& listing.contains((new_pngs(listing, taken)[k], true))
            },
        distinct_names(listing) ==> new_pngs(listing, taken).no_duplicates(),
{
    let pred = is_new_png(taken);
    let kept = listing.filter(pred);
    let names = new_pngs(listing, taken);
    lemma_filter_rising(listing, pred);
    assert forall|k: int| 0 <= k < names.len() implies {
        &&& has_png_extension(#[trigger] names[k])
        &&& !taken.contains(names[k])
        &&& listing.contains((names[k], true))
    } by {
        assert(pred(kept[k]));
        assert(listing.contains(kept[k]));
        assert(kept[k] == (names[k], true));
    }
    if distinct_names(listing) {
        let at = choose|at: Seq<int>|
            {
                &&& at.len() == kept.len()
                &&& forall|k: int| 0 <= k < at.len() ==> 0 <= #[trigger] at[k] < listing.len()
                &&& forall|k: int| 0 <= k < at.len() ==> listing[#[trigger] at[k]] == kept[k]
                &&& forall|k: int, l: int|
                    0 <= k < l < at.len() ==> #[trigger] at[k] < #[trigger] at[l]
            };
        assert forall|k: int, l: int| 0 <= k < names.len() && 0 <= l < names.len() && k
            != l implies names[k] != names[l] by {
            assert(listing[at[k]] == kept[k] && listing[at[l]] == kept[l]);
            if k < l {
                assert(at[k] < at[l]);
                assert(listing[at[k]].0 != listing[at[l]].0);
            } else {
                assert(at[l] < at[k]);
                assert(listing[at[l]].0 != listing[at[k]].0);
            }
        }
    }
}

/// The remaining catalog entries are entries of the catalog, none of their
/// graphemes is in `taken`, and they repeat no grapheme where the catalog
/// repeats none.
pub proof fn lemma_remaining(catalog: Seq<Naming>, taken: Seq<Seq<char>>)
    ensures
        forall|k: int|
            0 <= k < remaining(catalog, taken).len() ==> {
                &&& !taken.contains((#[trigger] remaining(catalog, taken)[k]).0)
                &&& catalog.contains(remaining(catalog, taken)[k])
            },
        distinct(catalog) ==> distinct(remaining(catalog, taken)),
{
    let pred = is_unranked(taken);
    let kept = remaining(catalog, taken);
    lemma_filter_rising(catalog, pred);
    assert forall|k: int| 0 <= k < kept.len() implies {
        &&& !taken.contains((#[trigger] kept[k]).0)
        &&& catalog.contains(kept[k])
    } by {
        assert(pred(kept[k]));
    }
    if distinct(catalog) {
        let at = choose|at: Seq<int>|
            {
                &&& at.len() == kept.len()
                &&& forall|k: int| 0 <= k < at.len() ==> 0 <= #[trigger] at[k] < catalog.len()
                &&& forall|k: int| 0 <= k < at.len() ==> catalog[#[trigger] at[k]] == kept[k]
                &&& forall|k: int, l: int|
                    0 <= k < l < at.len() ==> #[trigger] at[k] < #[trigger] at[l]
            };
        assert forall|k: int, l: int| 0 <= k < l < kept.len() implies
            (#[trigger] kept[k]).0 != (#[trigger] kept[l]).0 by {
            assert(catalog[at[k]] == kept[k] && catalog[at[l]] == kept[l]);
            assert(at[k] < at[l]);
            assert(catalog[at[k]].0 != catalog[at[l]].0);
        }
    }
}

/// Whatever the inputs, no identity of the two later sections is an identity
/// of the history.
pub proof fn lemma_later_sections_avoid_history(
    history: Seq<Usage>,
    catalog: Seq<Naming>,
    listing: Seq<Listed>,
    identity: Seq<char>,
)
    requires
        distinct(history),
        new_pngs(listing, ranked_identities(history)).contains(identity) || keys(
            remaining(catalog, ranked_identities(history)),
        ).contains(identity),
    ensures
        !holds(history, identity),
        !ranked_identities(history).contains(identity),
{
    let ranked = ranked_identities(history);
    lemma_ranked_identities_complete(history);
    lemma_new_pngs(listing, ranked);
    lemma_remaining(catalog, ranked);
    let pngs = new_pngs(listing, ranked);
    let rest = remaining(catalog, ranked);
    if pngs.contains(identity) {
        let k = choose|k: int| 0 <= k < pngs.len() && pngs[k] == identity;
        assert(!ranked.contains(pngs[k]));
    } else {
        let k = choose|k: int| 0 <= k < keys(rest).len() && keys(rest)[k] == identity;
        assert(!ranked.contains(rest[k].0));
    }
}

/// With a history and a catalog that are mappings, no identity occurs twice
/// in the candidate list exactly if the PNG section repeats no name and shares
/// no identity with the catalog section. The history section never repeats an
/// identity, and the later sections never repeat one of its identities.
pub proof fn lemma_merged_identities_distinct(
    history: Seq<Usage>,
    catalog: Seq<Naming>,
    listing: Seq<Listed>,
)
    requires
        distinct(history),
        distinct(catalog),
    ensures
        merged_identities(history, catalog, listing).no_duplicates() <==> {
            &&& new_pngs(listing, ranked_identities(history)).no_duplicates()
            &&& new_pngs(listing, ranked_identities(history)).disjoint(
                keys(remaining(catalog, ranked_identities(history))),
            )
        },
{
    let ranked = ranked_identities(history);
    let pngs = new_pngs(listing, ranked);
    let rest = remaining(catalog, ranked);
    let graphemes = keys(rest);
    let front = ranked + pngs;
    let merged = merged_identities(history, catalog, listing);
    lemma_ranked_identities_complete(history);
    lemma_new_pngs(listing, ranked);
    lemma_remaining(catalog, ranked);
    lemma_keys_distinct(rest);
    if pngs.no_duplicates() && pngs.disjoint(graphemes) {
        assert forall|i: int, j: int| 0 <= i < ranked.len() && 0 <= j < pngs.len() implies ranked[i]
            != pngs[j] by {
            assert(!ranked.contains(pngs[j]));
        }
        lemma_no_dup_in_concat(ranked, pngs);
        assert forall|i: int, j: int| 0 <= i < front.len() && 0 <= j < graphemes.len() implies front[i]
            != graphemes[j] by {
            if i < ranked.len() {
                assert(front[i] == ranked[i]);
                assert(!ranked.contains(rest[j].0));
            } else {
                assert(front[i] == pngs[i - ranked.len()]);
            }
        }
        lemma_no_dup_in_concat(front, graphemes);
    }
    if merged.no_duplicates() {
        assert forall|i: int, j: int| 0 <= i < pngs.len() && 0 <= j < pngs.len() && i
            != j implies pngs[i] != pngs[j] by {
            assert(merged[ranked.len() + i] == pngs[i]);
            assert(merged[ranked.len() + j] == pngs[j]);
        }
        assert forall|i: int, j: int| 0 <= i < pngs.len() && 0 <= j < graphemes.len() implies pngs[i]
            != graphemes[j] by {
            assert(merged[ranked.len() + i] == pngs[i]);
            assert(merged[front.len() + j] == graphemes[j]);
        }
    }
}

/// A catalog none of whose graphemes has the extension `png` shares no
/// identity with the PNG section.
pub proof fn lemma_sections_disjoint(
    history: Seq<Usage>,
    catalog: Seq<Naming>,
    listing: Seq<Listed>,
)
    requires
        forall|i: int| 0 <= i < catalog.len() ==> !has_png_extension((#[trigger] catalog[i]).0),
    ensures
        new_pngs(listing, ranked_identities(history)).disjoint(
            keys(remaining(catalog, ranked_identities(history))),
        ),
{
    let ranked = ranked_identities(history);
    let pngs = new_pngs(listing, ranked);
    let rest = remaining(catalog, ranked);
    lemma_new_pngs(listing, ranked);
    lemma_remaining(catalog, ranked);
    assert forall|i: int, j: int| 0 <= i < pngs.len() && 0 <= j < keys(rest).len() implies pngs[i]
        != keys(rest)[j] by {
        assert(catalog.contains(rest[j]));
        let c = choose|c: int| 0 <= c < catalog.len() && catalog[c] == rest[j];
        assert(!has_png_extension(catalog[c].0));
        assert(has_png_extension(pngs[i]));
    }
}

/// The candidate list: the ranked identities of the history, then the new
/// PNG files, then the remaining catalog entries.
#[derive(Debug, Clone, PartialEq, Eq)]
pub struct CandidateList {
    pub ranked: Vec<String>,
    pub pngs: Vec<String>,
    pub unicode: Vec<CatalogEntry>,
}

impl CandidateList {
    /// The remaining catalog entries as pairs.
    pub open spec fn unicode_view(&self) -> Seq<Naming> {
        self.unicode@.map_values(|e: CatalogEntry| e@)
    }

    /// The identities of the list, section after section.
    pub open spec fn identities(&self) -> Seq<Seq<char>> {
        self.ranked.deep_view() + self.pngs.deep_view() + keys(self.unicode_view())
    }

    /// The list is the one that merging these three sources gives.
    pub open spec fn merges(
        &self,
        history: Seq<Usage>,
        catalog: Seq<Naming>,
        listing: Seq<Listed>,
    ) -> bool {
        &&& self.ranked.deep_view() == ranked_identities(history)
        &&& self.pngs.deep_view() == new_pngs(listing, ranked_identities(history))
        &&& self.unicode_view() == remaining(catalog, ranked_identities(history))
    }
}

/// The file names of the PNG candidates: the regular files of the scan whose
/// extension is `png` and whose name is not in `taken`, in the order of the
/// scan. A directory that does not exist (`None`) has no candidates.
pub fn collect_png_candidates(scan: &Option<Vec<DirEntry>>, taken: &Vec<String>) -> (r: Vec<String>)
    ensures
        r.deep_view() == new_pngs(scanned(*scan), taken.deep_view()),
{
    let mut out: Vec<String> = Vec::new();
    let ghost pred = is_new_png(taken.deep_view());
    match scan {
        None => {
            proof {
                reveal(Seq::filter);
                assert(out.deep_view() =~= new_pngs(scanned(*scan), taken.deep_view()));
            }
        },
        Some(entries) => {
            let ghost listing = scanned(*scan);
            let n = entries.len();
            let mut i: usize = 0;
            proof {
                reveal(Seq::filter);
                assert(listing.take(0).filter(pred) =~= Seq::<Listed>::empty());
                assert(out.deep_view() =~= new_pngs(listing.take(0), taken.deep_view()));
            }
            while i < n
                invariant
                    n == entries.len(),
                    i <= n,
                    listing == entries@.map_values(|e: DirEntry| e@),
                    pred == is_new_png(taken.deep_view()),
                    out.deep_view() == new_pngs(listing.take(i as int), taken.deep_view()),
                decreases n - i,
            {
                let entry = &entries[i];
                let keep = !contains_text(taken, entry.name.as_str()) && entry.is_file
                    && is_png_file_name(entry.name.as_str());
                proof {
                    let seen = listing.take(i as int);
                    assert(listing.take(i + 1) =~= seen.push(listing[i as int]));
                    seen.lemma_filter_push(listing[i as int], pred);
                    assert(keep == pred(listing[i as int]));
                }
                if keep {
                    let ghost before = out.deep_view();
                    out.push(entry.name.clone());
                    proof {
                        assert(out.deep_view() =~= before.push(entry.name@));
                        let kept = listing.take(i as int).filter(pred);
                        assert(kept.push(listing[i as int]).map_values(|e: Listed| e.0)
                            =~= kept.map_values(|e: Listed| e.0).push(entry.name@));
                    }
                }
                i += 1;
            }
            proof {
                assert(listing.take(n as int) =~= listing);
            }
        },
    }
    out
}

/// The catalog entries whose grapheme is not in `taken`, in the catalog's
/// order.
pub fn collect_remaining(catalog: &Catalog, taken: &Vec<String>) -> (r: Vec<CatalogEntry>)
    ensures
        r@.map_values(|e: CatalogEntry| e@) == remaining(catalog@, taken.deep_view()),
{
    let entries = catalog.entries();
    let mut out: Vec<CatalogEntry> = Vec::new();
    let ghost pred = is_unranked(taken.deep_view());
    let n = entries.len();
    let mut i: usize = 0;
    proof {
        reveal(Seq::filter);
        assert(catalog@.take(0).filter(pred) =~= Seq::<Naming>::empty());
        assert(out@.map_values(|e: CatalogEntry| e@) =~= catalog@.take(0).filter(pred));
    }
    while i < n
        invariant
            n == entries.len(),
            i <= n,
            catalog@ == entries@.map_values(|e: CatalogEntry| e@),
            pred == is_unranked(taken.deep_view()),
            out@.map_values(|e: CatalogEntry| e@) == catalog@.take(i as int).filter(pred),
        decreases n - i,
    {
        let entry = &entries[i];
        let keep = !contains_text(taken, entry.grapheme.as_str());
        proof {
            let seen = catalog@.take(i as int);
            assert(catalog@.take(i + 1) =~= seen.push(catalog@[i as int]));
            seen.lemma_filter_push(catalog@[i as int], pred);
            assert(keep == pred(catalog@[i as int]));
        }
        if keep {
            let ghost before = out@.map_values(|e: CatalogEntry| e@);
            let copy = CatalogEntry { grapheme: entry.grapheme.clone(), name: entry.name.clone() };
            out.push(copy);
            proof {
                assert(out@.map_values(|e: CatalogEntry| e@) =~= before.push(catalog@[i as int]));
            }
        }
        i += 1;
    }
    proof {
        assert(catalog@.take(n as int) =~= catalog@);
    }
    out
}

/// Merges the three sources into the candidate list.
pub fn merge(history: &History, catalog: &Catalog, scan: &Option<Vec<DirEntry>>) -> (r:
    CandidateList)
    ensures
        r.merges(history@, catalog@, scanned(*scan)),
        r.identities() == merged_identities(history@, catalog@, scanned(*scan)),
{
    let ranked = history.ranked();
    let pngs = collect_png_candidates(scan, &ranked);
    let unicode = collect_remaining(catalog, &ranked);
    CandidateList { ranked, pngs, unicode }
}

} // verus!
