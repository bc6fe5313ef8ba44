//! The comment stripper: the scanner followed by blank-line normalization.

use vstd::prelude::*;
use crate::lines::{collapse_blank_lines, collapse_text};
use crate::scan::{has_unterminated_comment, scan_comments, scan_text, Scanned};
use crate::text::{chars_of, string_of};

verus! {

/// The cleaned text of `s`: its comments removed, then its runs of blank
/// lines collapsed.
pub open spec fn strip_text(s: Seq<char>) -> Seq<char> {
    collapse_text(scan_text(s))
}

/// A cleaned source text, with the one anomaly the stripper can meet.
#[derive(Debug, PartialEq, Eq)]
pub struct Stripped {
    pub text: String,
    /// A block comment was opened and never closed; everything after its
    /// opening was dropped.
    pub unterminated_comment: bool,
}

/// Strips the comments from a character buffer and collapses blank lines.
pub fn strip_chars(input: &[char]) -> (r: Scanned)
    ensures
        r.text@ == strip_text(input@),
        r.unterminated_comment == has_unterminated_comment(input@),
{
    let scanned = scan_comments(input);
    let text = collapse_blank_lines(scanned.text.as_slice());
    Scanned { text, unterminated_comment: scanned.unterminated_comment }
}

/// Strips the comments from `content` and reports an unterminated block
/// comment instead of failing on it.
pub fn strip(content: &str) -> (r: Stripped)
    ensures
        r.text@ == strip_text(content@),
        r.unterminated_comment == has_unterminated_comment(content@),
{
    let input = chars_of(content);
    let cleaned = strip_chars(input.as_slice());
    Stripped {
        text: string_of(cleaned.text.as_slice()),
        unterminated_comment: cleaned.unterminated_comment,
    }
}

/// The cleaned text of `content`.
pub fn remove_comments(content: &str) -> (r: String)
    ensures
        r@ == strip_text(content@),
{
    strip(content).text
}

} // verus!
