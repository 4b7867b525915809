//! The mathematical vocabulary of the crate: texts are sequences of
//! characters, and everything the matcher decides is stated over them.

use vstd::prelude::*;

verus! {

/// `needle` stands in `hay` at position `at`.
pub open spec fn occurs_at(hay: Seq<char>, needle: Seq<char>, at: int) -> bool {
    &&& 0 <= at
    &&& at + needle.len() <= hay.len()
    &&& hay.subrange(at, at + needle.len()) == needle
}

/// `needle` is a contiguous part of `hay`.
pub open spec fn contains(hay: Seq<char>, needle: Seq<char>) -> bool {
    exists|at: int| occurs_at(hay, needle, at)
}

/// The number of characters of `s` before its first line feed; `s.len()`
/// where it has none.
pub open spec fn line_end(s: Seq<char>) -> int
    decreases s.len(),
{
    if s.len() == 0 || s[0] == '\n' {
        0
    } else {
        1 + line_end(s.drop_first())
    }
}

/// `line` without its closing carriage return, where it has one.
pub open spec fn trim_cr(line: Seq<char>) -> Seq<char> {
    if line.len() > 0 && line.last() == '\r' {
        line.drop_last()
    } else {
        line
    }
}

/// The lines of `s`. A line ends at a line feed, or at a carriage return
/// directly followed by one; the ending is not part of the line. The last
/// line needs no ending, and the empty text has no line at all.
pub open spec fn split_lines(s: Seq<char>) -> Seq<Seq<char>>
    decreases s.len(),
{
    if s.len() == 0 {
        Seq::empty()
    } else {
        let end = line_end(s);
        if 0 <= end < s.len() {
            seq![trim_cr(s.subrange(0, end))] + split_lines(s.subrange(end + 1, s.len() as int))
        } else {
            seq![s]
        }
    }
}

/// The lowercase form of a text, as `str::to_lowercase` computes it from the
/// Unicode character tables.
pub uninterp spec fn lowercase(s: Seq<char>) -> Seq<char>;

/// The texts that a sequence of string slices stands for.
pub open spec fn texts(items: Seq<&str>) -> Seq<Seq<char>> {
    Seq::new(items.len(), |i: int| items[i]@)
}

/// The texts that a sequence of owned strings stands for.
pub open spec fn strings(items: Seq<String>) -> Seq<Seq<char>> {
    Seq::new(items.len(), |i: int| items[i]@)
}

/// `str::to_lowercase`: the result is the lowercase form of the argument,
/// which depends on nothing but the argument's characters.
pub assume_specification[ str::to_lowercase ](s: &str) -> (lowered: String)
    ensures
        lowered@ == lowercase(s@),
;

/// `str::contains` with a string slice as the pattern: true exactly when the
/// pattern's characters occur in `hay` as one contiguous run.
#[verifier::external_body]
pub(crate) fn has_substring(hay: &str, needle: &str) -> (found: bool)
    ensures
        found == contains(hay@, needle@),
{
    hay.contains(needle)
}

/// `str::lines`, gathered into a vector: the slices are the lines of
/// `content`, in order, without their line endings.
#[verifier::external_body]
pub(crate) fn lines_of<'a>(content: &'a str) -> (lines: Vec<&'a str>)
    ensures
        texts(lines@) == split_lines(content@),
{
    content.lines().collect()
}

} // verus!
