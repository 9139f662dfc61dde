//! The text protocol spoken with the picker: one line per candidate on its
//! input, and the table of programs that can serve as picker.
//!
//! A Unicode candidate is written as its display name, a space, and its
//! grapheme. A PNG candidate is written as its file name, a null byte, the
//! word `icon`, a unit separator, and the path of the file, which lets a
//! picker that knows this convention show the image.

use crate::assoc::distinct;
use crate::assoc::holds;
use crate::assoc::keys;
use crate::assoc::lemma_place_unique;
use crate::assoc::lookup;
use crate::candidates::lemma_remaining;
use crate::candidates::merge;
use crate::candidates::merged_identities;
use crate::candidates::new_pngs;
use crate::candidates::remaining;
use crate::candidates::scanned;
use crate::candidates::CandidateList;
use crate::candidates::DirEntry;
use crate::candidates::Listed;
use crate::catalog::Catalog;
use crate::catalog::CatalogEntry;
use crate::catalog::Naming;
use crate::failure::Failure;
use crate::history::ranked_identities;
use crate::history::History;
use crate::history::Usage;
use crate::text::ends_with_png;
use crate::text::has_png_suffix;
use crate::text::join_path;
use crate::text::joined_path;
use crate::text::space;
use crate::text::text_eq;
use vstd::prelude::*;
use vstd::string::StringExecFns;

verus! {

/// What to do with a history identity that is no PNG file name and that the
/// catalog does not know.
#[derive(Debug, Clone, Copy, PartialEq, Eq, Structural)]
pub enum OnMissing {
    /// Give up: the candidate list is not written.
    Fail,
    /// Show the identity itself in place of a line with a display name.
    ShowIdentity,
}

/// The characters between file name and path in the line of a PNG candidate.
pub open spec fn icon_marker() -> Seq<char> {
    seq!['\0', 'i', 'c', 'o', 'n', '\x1f']
}

/// The line of a PNG candidate.
pub open spec fn png_line(file_name: Seq<char>, path: Seq<char>) -> Seq<char> {
    file_name + icon_marker() + path
}

/// The line of a Unicode candidate.
pub open spec fn unicode_line(name: Seq<char>, grapheme: Seq<char>) -> Seq<char> {
    name + space() + grapheme
}

/// The line of the PNG file `file_name` in the directory `png_dir`.
pub open spec fn png_line_in(png_dir: Seq<char>, file_name: Seq<char>) -> Seq<char> {
    png_line(file_name, joined_path(png_dir, file_name))
}

/// `identity` is no PNG file name and the catalog has no display name for it.
pub open spec fn lacks_name(catalog: Seq<Naming>, identity: Seq<char>) -> bool {
    !has_png_suffix(identity) && !holds(catalog, identity)
}

/// The line of a history identity: that of a PNG candidate where it ends in
/// `.png`, else that of a Unicode candidate with the display name from the
/// catalog, and the identity itself where the catalog has none.
pub open spec fn history_line(catalog: Seq<Naming>, png_dir: Seq<char>, identity: Seq<char>) -> Seq<
    char,
> {
    if has_png_suffix(identity) {
        png_line_in(png_dir, identity)
    } else {
        match lookup(catalog, identity) {
            Some(name) => unicode_line(name, identity),
            None => identity,
        }
    }
}

/// `identity` is the first of `ranked` that lacks a name.
pub open spec fn first_lacking(
    catalog: Seq<Naming>,
    ranked: Seq<Seq<char>>,
    identity: Seq<char>,
) -> bool {
    exists|i: int|
        {
            &&& 0 <= i < ranked.len()
            &&& #[trigger] ranked[i] == identity
            &&& lacks_name(catalog, identity)
            &&& forall|j: int| 0 <= j < i ==> !lacks_name(catalog, #[trigger] ranked[j])
        }
}

/// None of `ranked` lacks a name.
pub open spec fn all_named(catalog: Seq<Naming>, ranked: Seq<Seq<char>>) -> bool {
    forall|i: int| 0 <= i < ranked.len() ==> !lacks_name(catalog, #[trigger] ranked[i])
}

/// The lines of the history section.
pub open spec fn history_lines_of(
    catalog: Seq<Naming>,
    png_dir: Seq<char>,
    ranked: Seq<Seq<char>>,
) -> Seq<Seq<char>> {
    ranked.map_values(|identity: Seq<char>| history_line(catalog, png_dir, identity))
}

/// The lines of the PNG section.
pub open spec fn png_lines_of(png_dir: Seq<char>, pngs: Seq<Seq<char>>) -> Seq<Seq<char>> {
    pngs.map_values(|file_name: Seq<char>| png_line_in(png_dir, file_name))
}

/// The lines of the catalog section.
pub open spec fn unicode_lines_of(entries: Seq<Naming>) -> Seq<Seq<char>> {
    entries.map_values(|e: Naming| unicode_line(e.1, e.0))
}

/// All the lines written to the picker, in order: history, new PNG files,
/// remaining catalog entries.
pub open spec fn emitted_lines(
    history: Seq<Usage>,
    catalog: Seq<Naming>,
    listing: Seq<Listed>,
    png_dir: Seq<char>,
) -> Seq<Seq<char>> {
    let ranked = ranked_identities(history);
    history_lines_of(catalog, png_dir, ranked) + png_lines_of(png_dir, new_pngs(listing, ranked))
        + unicode_lines_of(remaining(catalog, ranked))
}

/// One line is written for each identity of the candidate list, in the same
/// order, and each is the line of its identity: in the history section as
/// the kind of the identity asks, in the PNG section with the path of the
/// file, in the catalog section with the display name that the catalog has.
pub proof fn lemma_one_line_per_candidate(
    history: Seq<Usage>,
    catalog: Seq<Naming>,
    listing: Seq<Listed>,
    png_dir: Seq<char>,
    k: int,
)
    requires
        distinct(catalog),
        0 <= k < merged_identities(history, catalog, listing).len(),
    ensures
        emitted_lines(history, catalog, listing, png_dir).len() == merged_identities(
            history,
            catalog,
            listing,
        ).len(),
        ({
            let ranked = ranked_identities(history);
            let pngs = new_pngs(listing, ranked);
            let identity = merged_identities(history, catalog, listing)[k];
            let line = emitted_lines(history, catalog, listing, png_dir)[k];
            if k < ranked.len() {
                line == history_line(catalog, png_dir, identity)
            } else if k < ranked.len() + pngs.len() {
                line == png_line_in(png_dir, identity)
            } else {
                lookup(catalog, identity) matches Some(name) && line == unicode_line(name, identity)
            }
        }),
{
    let ranked = ranked_identities(history);
    let pngs = new_pngs(listing, ranked);
    let rest = remaining(catalog, ranked);
    let merged = merged_identities(history, catalog, listing);
    let lines = emitted_lines(history, catalog, listing, png_dir);
    if k < ranked.len() {
        assert(merged[k] == ranked[k]);
        assert(lines[k] == history_lines_of(catalog, png_dir, ranked)[k]);
    } else if k < ranked.len() + pngs.len() {
        let j = k - ranked.len();
        assert(merged[k] == pngs[j]);
        assert(lines[k] == png_lines_of(png_dir, pngs)[j]);
    } else {
        let j = k - ranked.len() - pngs.len();
        assert(merged[k] == keys(rest)[j]);
        assert(lines[k] == unicode_lines_of(rest)[j]);
        lemma_remaining(catalog, ranked);
        assert(catalog.contains(rest[j]));
        let c = choose|c: int| 0 <= c < catalog.len() && catalog[c] == rest[j];
        lemma_place_unique(catalog, c);
    }
}

/// Writes the line of a PNG candidate.
pub fn format_png_line(png_dir: &str, file_name: &str) -> (r: String)
    ensures
        r@ == png_line_in(png_dir@, file_name@),
{
    let path = join_path(png_dir, file_name);
    let mut line = file_name.to_owned();
    proof {
        reveal_strlit("\0icon\x1f");
        assert("\0icon\x1f"@ =~= icon_marker());
    }
    line.append("\0icon\x1f");
    line.append(path.as_str());
    line
}

/// Writes the line of a Unicode candidate.
pub fn format_unicode_line(name: &str, grapheme: &str) -> (r: String)
    ensures
        r@ == unicode_line(name@, grapheme@),
{
    let mut line = name.to_owned();
    proof {
        reveal_strlit(" ");
        assert(" "@ =~= space());
    }
    line.append(" ");
    line.append(grapheme);
    line
}

/// Writes the lines of the history section. Where an identity lacks a name,
/// `on_missing` decides: the first such identity is reported, or each is
/// shown as it is.
pub fn history_lines(
    ranked: &Vec<String>,
    catalog: &Catalog,
    png_dir: &str,
    on_missing: OnMissing,
) -> (r: Result<Vec<String>, Failure>)
    requires
        catalog.wf(),
    ensures
        match r {
            Ok(lines) => {
                &&& lines.deep_view() == history_lines_of(catalog@, png_dir@, ranked.deep_view())
                &&& on_missing == OnMissing::Fail ==> all_named(catalog@, ranked.deep_view())
            },
            Err(Failure::MissingCatalogEntry { identity }) => {
                &&& on_missing == OnMissing::Fail
                &&& first_lacking(catalog@, ranked.deep_view(), identity@)
            },
            Err(_) => false,
        },
{
    let ghost wanted = history_lines_of(catalog@, png_dir@, ranked.deep_view());
    let mut lines: Vec<String> = Vec::new();
    let n = ranked.len();
    let mut i: usize = 0;
    while i < n
        invariant
            catalog.wf(),
            n == ranked.len(),
            i <= n,
            wanted == history_lines_of(catalog@, png_dir@, ranked.deep_view()),
            lines.deep_view() == wanted.take(i as int),
            on_missing == OnMissing::Fail ==> forall|j: int|
                0 <= j < i ==> !lacks_name(catalog@, #[trigger] ranked.deep_view()[j]),
        decreases n - i,
    {
        let identity = &ranked[i];
        assert(identity@ == ranked.deep_view()[i as int]);
        let ghost before = lines.deep_view();
        let line = if ends_with_png(identity.as_str()) {
            format_png_line(png_dir, identity.as_str())
        } else {
            match catalog.get(identity.as_str()) {
                Some(name) => format_unicode_line(name.as_str(), identity.as_str()),
                None => {
                    match on_missing {
                        OnMissing::Fail => {
                            return Err(Failure::MissingCatalogEntry { identity: identity.clone() });
                        },
                        OnMissing::ShowIdentity => identity.clone(),
                    }
                },
            }
        };
        assert(line@ == history_line(catalog@, png_dir@, identity@));
        lines.push(line);
        assert(lines.deep_view() =~= before.push(line@));
        assert(lines.deep_view() =~= wanted.take(i + 1));
        i += 1;
    }
    assert(lines.deep_view() =~= wanted);
    Ok(lines)
}

/// Writes the lines of the PNG section.
pub fn png_lines(pngs: &Vec<String>, png_dir: &str) -> (r: Vec<String>)
    ensures
        r.deep_view() == png_lines_of(png_dir@, pngs.deep_view()),
{
    let ghost wanted = png_lines_of(png_dir@, pngs.deep_view());
    let mut lines: Vec<String> = Vec::new();
    let n = pngs.len();
    let mut i: usize = 0;
    while i < n
        invariant
            n == pngs.len(),
            i <= n,
            wanted == png_lines_of(png_dir@, pngs.deep_view()),
            lines.deep_view() == wanted.take(i as int),
        decreases n - i,
    {
        let ghost before = lines.deep_view();
        assert(pngs[i as int]@ == pngs.deep_view()[i as int]);
        let line = format_png_line(png_dir, pngs[i].as_str());
        lines.push(line);
        assert(lines.deep_view() =~= before.push(line@));
        assert(lines.deep_view() =~= wanted.take(i + 1));
        i += 1;
    }
    assert(lines.deep_view() =~= wanted);
    lines
}

/// Writes the lines of the catalog section.
pub fn unicode_lines(entries: &Vec<CatalogEntry>) -> (r: Vec<String>)
    ensures
        r.deep_view() == unicode_lines_of(entries@.map_values(|e: CatalogEntry| e@)),
{
    let ghost wanted = unicode_lines_of(entries@.map_values(|e: CatalogEntry| e@));
    let mut lines: Vec<String> = Vec::new();
    let n = entries.len();
    let mut i: usize = 0;
    while i < n
        invariant
            n == entries.len(),
            i <= n,
            wanted == unicode_lines_of(entries@.map_values(|e: CatalogEntry| e@)),
            lines.deep_view() == wanted.take(i as int),
        decreases n - i,
    {
        let ghost before = lines.deep_view();
        let line = format_unicode_line(entries[i].name.as_str(), entries[i].grapheme.as_str());
        lines.push(line);
        assert(lines.deep_view() =~= before.push(line@));
        assert(lines.deep_view() =~= wanted.take(i + 1));
        i += 1;
    }
    assert(lines.deep_view() =~= wanted);
    lines
}

/// Writes the lines of a candidate list, section after section.
pub fn candidate_lines(
    list: &CandidateList,
    catalog: &Catalog,
    png_dir: &str,
    on_missing: OnMissing,
) -> (r: Result<Vec<String>, Failure>)
    requires
        catalog.wf(),
    ensures
        match r {
            Ok(lines) => {
                &&& lines.deep_view() == history_lines_of(
                    catalog@,
                    png_dir@,
                    list.ranked.deep_view(),
                ) + png_lines_of(png_dir@, list.pngs.deep_view()) + unicode_lines_of(
                    list.unicode_view(),
                )
                &&& on_missing == OnMissing::Fail ==> all_named(catalog@, list.ranked.deep_view())
            },
            Err(Failure::MissingCatalogEntry { identity }) => {
                &&& on_missing == OnMissing::Fail
                &&& first_lacking(catalog@, list.ranked.deep_view(), identity@)
            },
            Err(_) => false,
        },
{
    let mut lines = match history_lines(&list.ranked, catalog, png_dir, on_missing) {
        Ok(lines) => lines,
        Err(failure) => {
            return Err(failure);
        },
    };
    let ghost first = lines.deep_view();
    let mut second = png_lines(&list.pngs, png_dir);
    let ghost middle = second.deep_view();
    let mut third = unicode_lines(&list.unicode);
    let ghost last = third.deep_view();
    lines.append(&mut second);
    assert(lines.deep_view() =~= first + middle);
    lines.append(&mut third);
    assert(lines.deep_view() =~= first + middle + last);
    Ok(lines)
}

/// Merges the three sources and writes the lines for the picker: the history
/// by descending count, then the PNG files of the directory that the history
/// does not name, then the catalog entries that it does not name.
pub fn emit(
    history: &History,
    catalog: &Catalog,
    scan: &Option<Vec<DirEntry>>,
    png_dir: &str,
    on_missing: OnMissing,
) -> (r: Result<Vec<String>, Failure>)
    requires
        catalog.wf(),
    ensures
        match r {
            Ok(lines) => {
                &&& lines.deep_view() == emitted_lines(
                    history@,
                    catalog@,
                    scanned(*scan),
                    png_dir@,
                )
                &&& on_missing == OnMissing::Fail ==> all_named(
                    catalog@,
                    ranked_identities(history@),
                )
            },
            Err(Failure::MissingCatalogEntry { identity }) => {
                &&& on_missing == OnMissing::Fail
                &&& first_lacking(catalog@, ranked_identities(history@), identity@)
            },
            Err(_) => false,
        },
{
    let list = merge(history, catalog, scan);
    candidate_lines(&list, catalog, png_dir, on_missing)
}

/// The text that the picker reads: each line, closed by a line feed.
pub open spec fn input_text(lines: Seq<Seq<char>>) -> Seq<char>
    decreases lines.len(),
{
    if lines.len() == 0 {
        Seq::empty()
    } else {
        input_text(lines.drop_last()) + lines.last() + seq!['\n']
    }
}

/// Joins the lines into the text that is written to the picker's input.
pub fn picker_input(lines: &Vec<String>) -> (r: String)
    ensures
        r@ == input_text(lines.deep_view()),
{
    let mut text = String::new();
    let n = lines.len();
    let mut i: usize = 0;
    proof {
        reveal_strlit("\n");
        assert("\n"@ =~= seq!['\n']);
        assert(lines.deep_view().take(0) =~= Seq::<Seq<char>>::empty());
    }
    while i < n
        invariant
            n == lines.len(),
            i <= n,
            "\n"@ == seq!['\n'],
            text@ == input_text(lines.deep_view().take(i as int)),
        decreases n - i,
    {
        proof {
            let seen = lines.deep_view().take(i + 1);
            assert(seen.drop_last() =~= lines.deep_view().take(i as int));
            assert(seen.last() == lines[i as int]@);
        }
        text.append(lines[i].as_str());
        text.append("\n");
        i += 1;
    }
    proof {
        assert(lines.deep_view().take(n as int) =~= lines.deep_view());
    }
    text
}

/// The programs that can serve as picker.
#[derive(Debug, Clone, Copy, PartialEq, Eq, Structural)]
pub enum Picker {
    Fuzzel,
    Bemenu,
}

impl Picker {
    /// The picker that a command-line argument selects: the one it names, or
    /// `fuzzel` where it is absent or names none.
    pub open spec fn selected_by(arg: Option<Seq<char>>) -> Picker {
        match arg {
            Some(name) => if name == "bemenu"@ {
                Picker::Bemenu
            } else {
                Picker::Fuzzel
            },
            None => Picker::Fuzzel,
        }
    }

    /// The name of the program.
    pub open spec fn program_text(&self) -> Seq<char> {
        match self {
            Picker::Fuzzel => "fuzzel"@,
            Picker::Bemenu => "bemenu"@,
        }
    }

    /// The arguments that the program is started with.
    pub open spec fn argument_texts(&self) -> Seq<Seq<char>> {
        match self {
            Picker::Fuzzel => seq!["--dmenu"@, "--counter"@],
            Picker::Bemenu => Seq::empty(),
        }
    }

    /// Chooses the picker from the command-line argument, if there is one.
    pub fn from_arg(arg: Option<&str>) -> (r: Picker)
        ensures
            r == Picker::selected_by(
                match arg {
                    Some(name) => Some(name@),
                    None => None,
                },
            ),
    {
        match arg {
            Some(name) => {
                if text_eq(name, "bemenu") {
                    Picker::Bemenu
                } else {
                    Picker::Fuzzel
                }
            },
            None => Picker::Fuzzel,
        }
    }

    /// The name of the program to run.
    pub fn program(&self) -> (r: &'static str)
        ensures
            r@ == self.program_text(),
    {
        match self {
            Picker::Fuzzel => "fuzzel",
            Picker::Bemenu => "bemenu",
        }
    }

    /// The arguments to start the program with: `fuzzel` is told to read its
    /// entries from its input and to show a counter, `bemenu` needs nothing.
    pub fn arguments(&self) -> (r: Vec<String>)
        ensures
            r.deep_view() == self.argument_texts(),
    {
        let mut args: Vec<String> = Vec::new();
        match self {
            Picker::Fuzzel => {
                args.push("--dmenu".to_owned());
                args.push("--counter".to_owned());
                assert(args.deep_view() =~= self.argument_texts());
            },
            Picker::Bemenu => {
                assert(args.deep_view() =~= self.argument_texts());
            },
        }
        args
    }
}

} // verus!
