//! Text primitives shared by the other modules: the `.png` suffix test, the
//! split at the first space, whitespace trimming, and the three standard
//! library calls that the verifier has no model of.

use vstd::prelude::*;
use vstd::string::StrSliceExecFns;
use vstd::string::StringExecFns;

verus! {

/// The four characters that mark an identity as a PNG file name.
pub open spec fn png_suffix() -> Seq<char> {
    seq!['.', 'p', 'n', 'g']
}

/// `s` ends with `.png`.
pub open spec fn has_png_suffix(s: Seq<char>) -> bool {
    png_suffix().is_suffix_of(s)
}

/// `s` is a file name whose extension is `png`: it ends with `.png` and has
/// at least one character in front of the dot.
pub open spec fn has_png_extension(s: Seq<char>) -> bool {
    has_png_suffix(s) && s.len() > 4
}

/// A one-character sequence holding a space.
pub open spec fn space() -> Seq<char> {
    seq![' ']
}

/// Whether `c` has the Unicode `White_Space` property, as
/// `char::is_whitespace` reports it.
pub uninterp spec fn is_whitespace(c: char) -> bool;

/// The number of whitespace characters at the start of `s`.
pub open spec fn leading_whitespace(s: Seq<char>) -> nat
    decreases s.len(),
{
    if s.len() > 0 && is_whitespace(s[0]) {
        1 + leading_whitespace(s.drop_first())
    } else {
        0
    }
}

/// The number of whitespace characters at the end of `s`.
pub open spec fn trailing_whitespace(s: Seq<char>) -> nat
    decreases s.len(),
{
    if s.len() > 0 && is_whitespace(s.last()) {
        1 + trailing_whitespace(s.drop_last())
    } else {
        0
    }
}

/// `s` without its leading and trailing whitespace.
pub open spec fn trimmed(s: Seq<char>) -> Seq<char> {
    let rest = s.skip(leading_whitespace(s) as int);
    rest.take(rest.len() - trailing_whitespace(rest))
}

/// The lower-case form of `s`, as `str::to_lowercase` computes it.
pub uninterp spec fn lowercase(s: Seq<char>) -> Seq<char>;

/// The path that `Path::join` builds from a directory and a second path.
pub uninterp spec fn joined_path(base: Seq<char>, rest: Seq<char>) -> Seq<char>;

/// Trusted: `char::is_whitespace`. The result is the `White_Space` property of
/// `c`, which this crate only names.
#[verifier::external_body]
pub(crate) fn char_is_whitespace(c: char) -> (r: bool)
    ensures
        r == is_whitespace(c),
{
    c.is_whitespace()
}

/// Trusted: `str::to_lowercase`. The result is a function of the characters
/// of `s` alone, which this crate only names.
#[verifier::external_body]
pub(crate) fn to_lowercase(s: &str) -> (r: String)
    ensures
        r@ == lowercase(s@),
{
    s.to_lowercase()
}

/// Trusted: `std::path::Path::join`. Both arguments are valid UTF-8, so the
/// joined path is too and converting it back loses nothing. The result
/// depends on the two texts alone, the separator being fixed with the
/// platform that the library is built for; this crate only names it.
#[verifier::external_body]
pub(crate) fn join_path(base: &str, rest: &str) -> (r: String)
    ensures
        r@ == joined_path(base@, rest@),
{
    std::path::Path::new(base).join(rest).to_string_lossy().into_owned()
}

/// The leading whitespace is a run of whitespace that ends at the first
/// character that is none, or at the end of the text.
pub proof fn lemma_leading_whitespace_bounds(s: Seq<char>)
    ensures
        leading_whitespace(s) <= s.len(),
        forall|i: int| 0 <= i < leading_whitespace(s) ==> is_whitespace(#[trigger] s[i]),
        leading_whitespace(s) < s.len() ==> !is_whitespace(s[leading_whitespace(s) as int]),
    decreases s.len(),
{
    if s.len() > 0 && is_whitespace(s[0]) {
        let rest = s.drop_first();
        lemma_leading_whitespace_bounds(rest);
        assert forall|i: int| 0 <= i < leading_whitespace(s) implies is_whitespace(
            #[trigger] s[i],
        ) by {
            if i > 0 {
                assert(s[i] == rest[i - 1]);
            }
        }
        if leading_whitespace(s) < s.len() {
            assert(s[leading_whitespace(s) as int] == rest[leading_whitespace(rest) as int]);
        }
    }
}

/// The trailing whitespace is a run of whitespace that begins behind the
/// last character that is none, or at the start of the text.
pub proof fn lemma_trailing_whitespace_bounds(s: Seq<char>)
    ensures
        trailing_whitespace(s) <= s.len(),
        forall|i: int|
            s.len() - trailing_whitespace(s) <= i < s.len() ==> is_whitespace(#[trigger] s[i]),
        trailing_whitespace(s) < s.len() ==> !is_whitespace(
            s[s.len() - trailing_whitespace(s) - 1],
        ),
    decreases s.len(),
{
    if s.len() > 0 && is_whitespace(s.last()) {
        let rest = s.drop_last();
        lemma_trailing_whitespace_bounds(rest);
        assert forall|i: int|
            s.len() - trailing_whitespace(s) <= i < s.len() implies is_whitespace(
            #[trigger] s[i],
        ) by {
            if i < s.len() - 1 {
                assert(s[i] == rest[i]);
            }
        }
        if trailing_whitespace(s) < s.len() {
            assert(s[s.len() - trailing_whitespace(s) - 1] == rest[rest.len()
                - trailing_whitespace(rest) - 1]);
        }
    }
}

/// Whether two texts hold the same characters.
pub fn text_eq(a: &str, b: &str) -> (r: bool)
    ensures
        r == (a@ == b@),
{
    a.to_owned() == b.to_owned()
}

/// Whether `list` holds `key`.
pub fn contains_text(list: &Vec<String>, key: &str) -> (r: bool)
    ensures
        r == list.deep_view().contains(key@),
{
    let wanted = key.to_owned();
    let n = list.len();
    let mut i: usize = 0;
    while i < n
        invariant
            n == list.len(),
            i <= n,
            wanted@ == key@,
            forall|j: int| 0 <= j < i ==> list.deep_view()[j] != key@,
        decreases n - i,
    {
        if list[i] == wanted {
            assert(list.deep_view()[i as int] == key@);
            return true;
        }
        i += 1;
    }
    false
}

/// Whether `s` ends with `.png`.
pub fn ends_with_png(s: &str) -> (r: bool)
    ensures
        r == has_png_suffix(s@),
{
    let n = s.unicode_len();
    if n < 4 {
        return false;
    }
    let start = n - 4;
    let r = s.get_char(start) == '.' && s.get_char(start + 1) == 'p' && s.get_char(start + 2)
        == 'n' && s.get_char(start + 3) == 'g';
    proof {
        let tail = s@.subrange(s@.len() - 4, s@.len() as int);
        if r {
            assert(tail =~= png_suffix());
        } else {
            assert(tail[0] == s@[start as int]);
            assert(tail[1] == s@[start + 1]);
            assert(tail[2] == s@[start + 2]);
            assert(tail[3] == s@[start + 3]);
        }
    }
    r
}

/// Whether `s` is a file name with the extension `png`.
pub fn is_png_file_name(s: &str) -> (r: bool)
    ensures
        r == has_png_extension(s@),
{
    ends_with_png(s) && s.unicode_len() > 4
}

/// Splits `s` at its first space. The space itself belongs to neither part.
pub fn split_at_first_space(s: &str) -> (r: Option<(String, String)>)
    ensures
        match r {
            Some((head, tail)) => s@ == head@ + space() + tail@ && !head@.contains(' '),
            None => !s@.contains(' '),
        },
{
    let n = s.unicode_len();
    let mut i: usize = 0;
    for c in it: s.chars()
        invariant
            it.seq() == s@,
            i == it.index(),
            n == s@.len(),
            forall|j: int| 0 <= j < i ==> s@[j] != ' ',
    {
        if c == ' ' {
            let head = s.substring_char(0, i);
            let tail = s.substring_char(i + 1, n);
            proof {
                assert(s@ =~= head@ + space() + tail@);
            }
            return Some((head.to_owned(), tail.to_owned()));
        }
        i += 1;
    }
    None
}

/// Removes the whitespace at both ends of `s`.
pub fn trim(s: &str) -> (r: String)
    ensures
        r@ == trimmed(s@),
{
    let n = s.unicode_len();
    let mut start: usize = 0;
    let mut end: usize = 0;
    let mut seen: bool = false;
    let mut i: usize = 0;
    for c in it: s.chars()
        invariant
            it.seq() == s@,
            i == it.index(),
            n == s@.len(),
            start <= end <= i,
            !seen ==> start == i && end == i,
            !seen ==> forall|j: int| 0 <= j < i ==> is_whitespace(#[trigger] s@[j]),
            seen ==> start < end,
            seen ==> !is_whitespace(s@[start as int]) && !is_whitespace(s@[end - 1]),
            seen ==> forall|j: int| 0 <= j < start ==> is_whitespace(#[trigger] s@[j]),
            seen ==> forall|j: int| end <= j < i ==> is_whitespace(#[trigger] s@[j]),
    {
        let blank = char_is_whitespace(c);
        if !blank {
            if !seen {
                start = i;
                seen = true;
            }
            end = i + 1;
        } else if !seen {
            start = i + 1;
            end = i + 1;
        }
        i += 1;
    }
    proof {
        lemma_trim_bounds(s@, start as int, end as int);
    }
    s.substring_char(start, end).to_owned()
}

/// A range with whitespace on both sides and none at its own ends is what
/// trimming leaves.
pub proof fn lemma_trim_bounds(s: Seq<char>, start: int, end: int)
    requires
        0 <= start <= end <= s.len(),
        forall|j: int| 0 <= j < start ==> is_whitespace(#[trigger] s[j]),
        forall|j: int| end <= j < s.len() ==> is_whitespace(#[trigger] s[j]),
        start < end ==> !is_whitespace(s[start]) && !is_whitespace(s[end - 1]),
        start == end ==> end == s.len(),
    ensures
        trimmed(s) == s.subrange(start, end),
{
    lemma_leading_whitespace_bounds(s);
    let lead = leading_whitespace(s) as int;
    if lead < start {
        assert(is_whitespace(s[lead]));
    }
    if start < lead {
        assert(is_whitespace(s[start]));
    }
    assert(lead == start);
    let rest = s.skip(lead);
    lemma_trailing_whitespace_bounds(rest);
    let trail = trailing_whitespace(rest) as int;
    let stop = rest.len() - trail;
    if stop < end - start {
        assert(is_whitespace(rest[end - start - 1]));
        assert(rest[end - start - 1] == s[end - 1]);
    }
    if end - start < stop {
        assert(rest[stop - 1] == s[start + stop - 1]);
        assert(is_whitespace(s[start + stop - 1]));
    }
    assert(stop == end - start);
    assert(rest.take(stop) =~= s.subrange(start, end));
}

} // verus!
