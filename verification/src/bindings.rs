//! Calls into the outside crates, each with the contract this library relies on.

use std::fmt::Write;
use vstd::prelude::*;

use crate::message::Timestamp;
use crate::text::strings_view;

verus! {

/// True when `needle` occurs in `haystack` starting at byte `i`.
pub open spec fn occurs_at(haystack: Seq<u8>, needle: Seq<u8>, i: int) -> bool {
    &&& 0 <= i
    &&& i + needle.len() <= haystack.len()
    &&& haystack.subrange(i, i + needle.len()) == needle
}

/// `memchr::memmem::Finder::find`: the index of the first occurrence of the
/// needle in the haystack, `None` when it does not occur.
#[verifier::external_body]
pub(crate) fn find_bytes(haystack: &[u8], needle: &[u8]) -> (r: Option<usize>)
    ensures
        r matches Some(i) ==> occurs_at(haystack@, needle@, i as int) && forall|j: int|
            0 <= j < i ==> !occurs_at(haystack@, needle@, j),
        r is None ==> forall|j: int| !occurs_at(haystack@, needle@, j),
{
    memchr::memmem::Finder::new(needle).find(haystack)
}

/// Display width in terminal columns, as `unicode_width` computes it.
pub uninterp spec fn display_width(s: Seq<char>) -> usize;

/// `unicode_width::UnicodeWidthStr::width`: the displayed width of the string
/// in columns. Its value is named, not described.
#[verifier::external_body]
pub(crate) fn str_width(s: &str) -> (w: usize)
    ensures
        w == display_width(s@),
{
    unicode_width::UnicodeWidthStr::width(s)
}

/// The lines that `textwrap` breaks a text into.
pub uninterp spec fn wrapped_lines(text: Seq<char>, width: usize, initial_indent: Seq<char>) -> Seq<
    Seq<char>,
>;

/// `textwrap::wrap` with `Options::new(width).initial_indent(..)`: the lines of
/// the wrapped text. Which lines come out is named, not described; stated is
/// that there is at least one line (the text is split into at least one
/// paragraph, and each yields a line) and that the first line begins with
/// the initial indent (words are broken, so a non-empty indent gets an empty
/// word and the first line is never empty of words).
#[verifier::external_body]
pub(crate) fn wrap_text(text: &str, width: usize, initial_indent: &str) -> (lines: Vec<String>)
    ensures
        strings_view(lines@) == wrapped_lines(text@, width, initial_indent@),
        lines@.len() >= 1,
        initial_indent@.is_prefix_of(lines@[0]@),
{
    let options = textwrap::Options::new(width).initial_indent(initial_indent);
    textwrap::wrap(text, options).into_iter().map(|line| line.into_owned()).collect()
}

/// Score and matched character positions of a skim-style fuzzy match.
pub uninterp spec fn skim_fuzzy_indices(choice: Seq<char>, pattern: Seq<char>) -> Option<
    (i64, Seq<usize>),
>;

/// `fuzzy_matcher::skim::SkimMatcherV2::default().fuzzy_indices`: `None` when
/// the pattern does not match, else the score and the indices of the matched
/// characters of `choice`. The result is named, not described.
#[verifier::external_body]
pub(crate) fn fuzzy_indices(choice: &str, pattern: &str) -> (r: Option<(i64, Vec<usize>)>)
    ensures
        r is Some <==> skim_fuzzy_indices(choice@, pattern@) is Some,
        r matches Some((score, indices)) ==> skim_fuzzy_indices(choice@, pattern@) == Some(
            (score, indices@),
        ),
{
    let matcher = fuzzy_matcher::skim::SkimMatcherV2::default();
    fuzzy_matcher::FuzzyMatcher::fuzzy_indices(&matcher, choice, pattern)
}

/// A timestamp rendered with a strftime-style format, or `None` when the
/// timestamp is out of range or the format is invalid.
pub uninterp spec fn formatted_time(secs: i64, nanos: u32, offset_secs: i32, format: Seq<char>) -> Option<
    Seq<char>,
>;

/// `chrono::DateTime::format` of the instant `t` in its UTC offset, written
/// out; `None` where chrono cannot build the instant or the format is invalid.
/// The text is named, not described.
#[verifier::external_body]
pub(crate) fn format_time(t: &Timestamp, format: &str) -> (r: Option<String>)
    ensures
        r is Some <==> formatted_time(t.secs, t.nanos, t.offset_secs, format@) is Some,
        r matches Some(s) ==> formatted_time(t.secs, t.nanos, t.offset_secs, format@) == Some(
            s@,
        ),
{
    let offset = chrono::FixedOffset::east_opt(t.offset_secs)?;
    let instant = chrono::DateTime::from_timestamp(t.secs, t.nanos)?;
    let mut out = String::new();
    write!(out, "{}", instant.with_timezone(&offset).format(format)).ok()?;
    Some(out)
}

} // verus!
