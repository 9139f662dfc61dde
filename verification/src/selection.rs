//! The resolver: from the line that the picker hands back to the selected
//! entry and its kind.
//!
//! A line that ends in `.png` is the file name of a PNG image. Any other line
//! is split at its first space into a grapheme and a name; the name is the
//! identity under which the history counts the selection.

use crate::failure::Failure;
use crate::text::ends_with_png;
use crate::text::has_png_suffix;
use crate::text::space;
use crate::text::split_at_first_space;
use crate::text::trim;
use crate::text::trimmed;
use vstd::prelude::*;

verus! {

/// What the user picked.
#[derive(Debug, Clone, PartialEq, Eq)]
pub enum Selection {
    /// A PNG image, by its file name.
    Png { file_name: String },
    /// A Unicode emoji: the grapheme to copy and the name it goes by.
    Unicode { grapheme: String, name: String },
}

impl Selection {
    /// The identity under which the history counts this selection.
    pub open spec fn identity_text(&self) -> Seq<char> {
        match self {
            Selection::Png { file_name } => file_name@,
            Selection::Unicode { grapheme, name } => name@,
        }
    }

    /// The identity under which the history counts this selection: the file
    /// name of an image, the name of a Unicode emoji.
    pub fn identity(&self) -> (r: &String)
        ensures
            r@ == self.identity_text(),
    {
        match self {
            Selection::Png { file_name } => file_name,
            Selection::Unicode { grapheme, name } => name,
        }
    }

    /// Whether the selection is a PNG image.
    pub fn is_png(&self) -> (r: bool)
        ensures
            r == (self is Png),
    {
        match self {
            Selection::Png { .. } => true,
            Selection::Unicode { .. } => false,
        }
    }
}

/// `selection` is what `line` resolves to.
pub open spec fn resolves_to(line: Seq<char>, selection: Selection) -> bool {
    match selection {
        Selection::Png { file_name } => has_png_suffix(line) && file_name@ == line,
        Selection::Unicode { grapheme, name } => {
            &&& !has_png_suffix(line)
            &&& line == grapheme@ + space() + name@
            &&& !grapheme@.contains(' ')
        },
    }
}

/// `line` resolves to nothing: it neither ends in `.png` nor holds a space.
pub open spec fn unresolvable(line: Seq<char>) -> bool {
    !has_png_suffix(line) && !line.contains(' ')
}

/// A text is split before its first space in one way only: the head is what
/// stands before that space, the tail what stands behind it.
pub proof fn lemma_split_at_first_space(line: Seq<char>, head: Seq<char>, tail: Seq<char>, at: int)
    requires
        line == head + space() + tail,
        !head.contains(' '),
        0 <= at < line.len(),
        line[at] == ' ',
        forall|j: int| 0 <= j < at ==> line[j] != ' ',
    ensures
        at == head.len(),
        head == line.take(at),
        tail == line.skip(at + 1),
{
    let n = head.len() as int;
    assert(line[n] == ' ');
    if at < n {
        assert(head[at] == line[at]);
        assert(head.contains(' '));
    }
    assert(at == n);
    assert(head =~= line.take(at));
    assert(tail =~= line.skip(at + 1));
}

/// A line resolves to one selection at most, and to none exactly if it is
/// unresolvable.
pub proof fn lemma_resolution_unique(line: Seq<char>, first: Selection, second: Selection)
    requires
        resolves_to(line, first),
        resolves_to(line, second),
    ensures
        !unresolvable(line),
        first is Png <==> second is Png,
        first.identity_text() == second.identity_text(),
        first matches Selection::Unicode { grapheme: g1, .. } ==> second matches Selection::Unicode {
            grapheme: g2,
            ..
        } && g1@ == g2@,
{
    match (first, second) {
        (
            Selection::Unicode { grapheme: g1, name: n1 },
            Selection::Unicode { grapheme: g2, name: n2 },
        ) => {
            let at = g1@.len() as int;
            assert(line[at] == ' ');
            assert forall|j: int| 0 <= j < at implies line[j] != ' ' by {
                assert(line[j] == g1@[j]);
                if line[j] == ' ' {
                    assert(g1@.contains(' '));
                }
            }
            lemma_split_at_first_space(line, g1@, n1@, at);
            lemma_split_at_first_space(line, g2@, n2@, at);
        },
        (Selection::Unicode { grapheme: g1, name: n1 }, Selection::Png { .. }) => {},
        (Selection::Png { .. }, Selection::Unicode { grapheme: g2, name: n2 }) => {},
        (Selection::Png { .. }, Selection::Png { .. }) => {},
    }
    if first is Unicode {
        let at = first->grapheme@.len() as int;
        assert(line[at] == ' ');
        assert(line.contains(' '));
    }
}

/// Resolves the line that the picker handed back.
pub fn resolve(line: &str) -> (r: Result<Selection, Failure>)
    ensures
        match r {
            Ok(selection) => resolves_to(line@, selection),
            Err(failure) => failure == Failure::InvalidSelection && unresolvable(line@),
        },
{
    if ends_with_png(line) {
        return Ok(Selection::Png { file_name: line.to_owned() });
    }
    match split_at_first_space(line) {
        Some((grapheme, name)) => Ok(Selection::Unicode { grapheme, name }),
        None => Err(Failure::InvalidSelection),
    }
}

/// Reads the picker's whole output: the output without the whitespace around
/// it is the selected line. Empty output means that nothing was selected.
pub fn read_selection(output: &str) -> (r: Result<Option<Selection>, Failure>)
    ensures
        match r {
            Ok(None) => trimmed(output@).len() == 0,
            Ok(Some(selection)) => trimmed(output@).len() > 0 && resolves_to(
                trimmed(output@),
                selection,
            ),
            Err(failure) => failure == Failure::InvalidSelection && trimmed(output@).len() > 0
                && unresolvable(trimmed(output@)),
        },
{
    let line = trim(output);
    if line.as_str().is_empty() {
        return Ok(None);
    }
    match resolve(line.as_str()) {
        Ok(selection) => Ok(Some(selection)),
        Err(failure) => Err(failure),
    }
}

} // verus!
