//! What holds of the stripper as a whole: blank-line normalization brings
//! no comment back, so stripping a stripped text changes nothing.

use vstd::prelude::*;
use crate::lines::{
    collapse_lines, join_lines, keeps_line, lemma_split_lines_shape, split_lines,
};
use crate::lines_laws::{
    lemma_collapse_lines_ends, lemma_collapse_text_idempotent, lemma_collapse_text_unchanged,
    lemma_join_split, no_blank_run,
};
use crate::scan::{has_unterminated_comment, scan_text, ScanState};
use crate::scan_laws::{
    comment_free, is_literal_body, is_quote, lemma_comment_free_concat,
    lemma_comment_free_copied, lemma_comment_free_split, lemma_literal_preserved,
    lemma_no_escape_pending, lemma_scan_comment_free, lemma_state_after_concat,
    lemma_state_after_well_formed, state_after,
};
use crate::strip::strip_text;
use crate::text::{is_blank, is_white_space, lemma_white_space_marks};

verus! {

/// White space leaves a state without a pending escape as it is.
pub proof fn lemma_blank_keeps_state(blank: Seq<char>, st: ScanState)
    requires
        is_blank(blank),
        st.well_formed(),
        !st.escape_next,
    ensures
        state_after(blank, st) == st,
    decreases blank.len(),
{
    if blank.len() > 0 {
        let rest = blank.drop_first();
        assert(is_white_space(blank[0]));
        lemma_white_space_marks();
        assert(st.after(blank[0]) == st);
        assert forall|k: int| 0 <= k < rest.len() implies is_white_space(#[trigger] rest[k]) by {
            assert(rest[k] == blank[k + 1]);
        }
        lemma_blank_keeps_state(rest, st);
    }
}

/// Dropping the later lines of every run of blank lines opens no comment
/// and leaves the scanner in the state it would have reached anyway.
pub proof fn lemma_collapse_keeps_comment_free(lines: Seq<Seq<char>>, st: ScanState)
    requires
        lines.len() >= 1,
        st.well_formed(),
        !st.escape_next,
        comment_free(join_lines(lines), st),
    ensures
        comment_free(join_lines(collapse_lines(lines)), st),
        state_after(join_lines(collapse_lines(lines)), st) == state_after(join_lines(lines), st),
    decreases lines.len(),
{
    if lines.len() == 1 {
        lemma_collapse_lines_ends(lines);
        assert(collapse_lines(lines.drop_last()) == Seq::<Seq<char>>::empty());
        assert(collapse_lines(lines) == seq![lines[0]]);
    } else {
        let front = lines.drop_last();
        let line = lines.last();
        let piece = seq!['\n'] + line;
        let text = join_lines(front);
        assert(join_lines(lines) == text + piece);
        lemma_comment_free_split(text, piece, st);
        lemma_collapse_keeps_comment_free(front, st);
        lemma_collapse_lines_ends(front);
        lemma_state_after_concat(text, piece, st);
        let kept = collapse_lines(front);
        let reached = state_after(text, st);
        if keeps_line(lines, lines.len() - 1) {
            assert(kept.push(line).drop_last() == kept);
            assert(join_lines(kept.push(line)) == join_lines(kept) + piece);
            assert(piece[0] == '\n');
            lemma_comment_free_concat(join_lines(kept), piece, st);
            lemma_state_after_concat(join_lines(kept), piece, st);
        } else {
            assert(is_blank(line));
            assert(front.last() == lines[lines.len() - 2]);
            assert(is_blank(front.last()));
            assert forall|k: int| 0 <= k < piece.len() implies is_white_space(
                #[trigger] piece[k],
            ) by {
                if k > 0 {
                    assert(piece[k] == line[k - 1]);
                }
            }
            if text.len() > 0 {
                if front.len() == 1 {
                    assert(text == front[0]);
                } else {
                    assert(text == join_lines(front.drop_last()) + seq!['\n'] + front.last());
                    if front.last().len() > 0 {
                        assert(text.last() == front.last().last());
                    } else {
                        assert(text.last() == '\n');
                    }
                }
                assert(is_white_space(text.last()));
                lemma_no_escape_pending(text, st);
            }
            lemma_state_after_well_formed(text, st);
            lemma_blank_keeps_state(piece, reached);
        }
    }
}

/// Blank-line normalization brings no comment back: the stripped text,
/// scanned again, is copied as it is and gives rise to no warning.
pub proof fn lemma_stripped_has_no_comment(s: Seq<char>)
    ensures
        comment_free(strip_text(s), ScanState::initial()),
        scan_text(strip_text(s)) == strip_text(s),
        !has_unterminated_comment(strip_text(s)),
{
    let st = ScanState::initial();
    let scanned = scan_text(s);
    lemma_scan_comment_free(s, 0, st);
    lemma_join_split(scanned);
    lemma_split_lines_shape(scanned);
    lemma_collapse_keeps_comment_free(split_lines(scanned), st);
    lemma_comment_free_copied(strip_text(s), st);
}

/// Stripping is idempotent: a stripped text holds no comment and no run of
/// blank lines, so stripping it again gives the same text.
pub proof fn lemma_strip_idempotent(s: Seq<char>)
    ensures
        strip_text(strip_text(s)) == strip_text(s),
{
    lemma_stripped_has_no_comment(s);
    lemma_collapse_text_idempotent(scan_text(s));
}

/// A text in which no comment opens and no blank line follows a blank
/// line is left exactly as it is.
pub proof fn lemma_strip_unchanged(s: Seq<char>)
    requires
        comment_free(s, ScanState::initial()),
        no_blank_run(split_lines(s)),
    ensures
        strip_text(s) == s,
{
    lemma_comment_free_copied(s, ScanState::initial());
    lemma_collapse_text_unchanged(s);
}

/// A matched string or template literal comes out of the stripper
/// character for character, whatever comment markers it holds, unless it
/// spans a run of blank lines.
pub proof fn lemma_strip_keeps_literal(quote: char, body: Seq<char>)
    requires
        is_quote(quote),
        is_literal_body(body, quote),
        no_blank_run(split_lines(seq![quote] + body + seq![quote])),
    ensures
        strip_text(seq![quote] + body + seq![quote]) == seq![quote] + body + seq![quote],
{
    let literal = seq![quote] + body + seq![quote];
    let nothing = Seq::<char>::empty();
    lemma_literal_preserved(quote, body, nothing);
    assert(literal + nothing == literal);
    assert(scan_text(nothing) == nothing);
    lemma_collapse_text_unchanged(literal);
}

} // verus!
