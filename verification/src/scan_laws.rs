//! What holds of every scan: the scanner only looks forward, it copies
//! whatever lies outside plain code, and it removes comments whole.

use vstd::prelude::*;
use crate::lines::no_newline;
use crate::scan::{
    block_close, closes_block, first_newline, has_unterminated_comment, lemma_block_close,
    lemma_first_newline, lemma_step_advances, scan_from, scan_text, starts_block_comment,
    starts_line_comment, step, unterminated_from, Mode, ScanState, Step,
};

verus! {

/// The search for a newline in the tail of a text is the search in the tail alone.
pub proof fn lemma_first_newline_shift(head: Seq<char>, tail: Seq<char>, from: int)
    requires
        0 <= from,
    ensures
        first_newline(head + tail, head.len() + from) == head.len() + first_newline(tail, from),
    decreases tail.len() - from,
{
    let whole = head + tail;
    if from < tail.len() {
        assert(whole[head.len() + from] == tail[from]);
        if tail[from] != '\n' {
            lemma_first_newline_shift(head, tail, from + 1);
        }
    }
}

/// The search for `*/` in the tail of a text is the search in the tail alone.
pub proof fn lemma_block_close_shift(head: Seq<char>, tail: Seq<char>, from: int)
    requires
        0 <= from,
    ensures
        block_close(head + tail, head.len() + from) == head.len() + block_close(tail, from),
    decreases tail.len() - from,
{
    let whole = head + tail;
    if from + 1 < tail.len() {
        assert(whole[head.len() + from] == tail[from]);
        assert(whole[head.len() + from + 1] == tail[from + 1]);
        if !closes_block(tail, from) {
            lemma_block_close_shift(head, tail, from + 1);
        }
    }
}

/// A step in the tail of a text is the step in the tail alone, moved by the
/// length of the head.
pub proof fn lemma_step_shift(head: Seq<char>, tail: Seq<char>, i: int, st: ScanState)
    requires
        0 <= i < tail.len(),
    ensures
        step(head + tail, head.len() + i, st) == (Step {
            next: head.len() + step(tail, i, st).next,
            ..step(tail, i, st)
        }),
{
    let whole = head + tail;
    assert(whole[head.len() + i] == tail[i]);
    if i + 1 < tail.len() {
        assert(whole[head.len() + i + 1] == tail[i + 1]);
    }
    assert(starts_line_comment(whole, head.len() + i) == starts_line_comment(tail, i));
    assert(starts_block_comment(whole, head.len() + i) == starts_block_comment(tail, i));
    lemma_first_newline_shift(head, tail, i + 1);
    lemma_block_close_shift(head, tail, i + 2);
}

/// The scanner only looks forward: what it produces from a position on
/// depends on the text from that position on, and on nothing before it.
pub proof fn lemma_scan_suffix(head: Seq<char>, tail: Seq<char>, i: int, st: ScanState)
    requires
        0 <= i,
    ensures
        scan_from(head + tail, head.len() + i, st) == scan_from(tail, i, st),
        unterminated_from(head + tail, head.len() + i, st) == unterminated_from(tail, i, st),
    decreases tail.len() - i,
{
    if i < tail.len() {
        lemma_step_shift(head, tail, i, st);
        lemma_step_advances(tail, i, st);
        let move_ = step(tail, i, st);
        lemma_scan_suffix(head, tail, move_.next, move_.state);
    }
}

/// Outside plain code nothing is a comment: inside a string or a template
/// literal, and right after a backslash in one, the character is copied and
/// the scanner moves on by one position.
pub proof fn lemma_copied_outside_code(s: Seq<char>, i: int, st: ScanState)
    requires
        0 <= i < s.len(),
        !st.sees_comments(),
    ensures
        step(s, i, st) == (Step {
            emitted: seq![s[i]],
            next: i + 1,
            state: st.after(s[i]),
            unterminated: false,
        }),
{
}

/// A pending escape is used up by the next character, whatever it is: the
/// mode stays as it was.
pub proof fn lemma_escape_used_up(st: ScanState, ch: char)
    requires
        st.escape_next,
    ensures
        st.after(ch) == (ScanState { mode: st.mode, escape_next: false }),
{
}

/// The state the scanner is in after copying every character of `t`.
pub open spec fn state_after(t: Seq<char>, st: ScanState) -> ScanState
    decreases t.len(),
{
    if t.len() == 0 {
        st
    } else {
        state_after(t.drop_first(), st.after(t[0]))
    }
}

/// No comment opens anywhere in `t` when it is scanned from state `st`.
pub open spec fn comment_free(t: Seq<char>, st: ScanState) -> bool
    decreases t.len(),
{
    if t.len() == 0 {
        true
    } else {
        !(st.sees_comments() && (starts_line_comment(t, 0) || starts_block_comment(t, 0)))
            && comment_free(t.drop_first(), st.after(t[0]))
    }
}

/// A text in which no comment opens is copied as it is, and nothing is
/// left unterminated.
pub proof fn lemma_comment_free_copied(t: Seq<char>, st: ScanState)
    requires
        comment_free(t, st),
    ensures
        scan_from(t, 0, st) == t,
        !unterminated_from(t, 0, st),
    decreases t.len(),
{
    if t.len() > 0 {
        let rest = t.drop_first();
        let next = st.after(t[0]);
        assert(t == seq![t[0]] + rest);
        lemma_scan_suffix(seq![t[0]], rest, 0, next);
        lemma_comment_free_copied(rest, next);
        assert(scan_from(t, 0, st) == seq![t[0]] + scan_from(t, 1, next));
    }
}

/// Where a character that opens no comment stands, the output starts with it.
pub proof fn lemma_scan_starts_with_copy(s: Seq<char>, i: int, st: ScanState)
    requires
        0 <= i < s.len(),
        s[i] != '/',
    ensures
        scan_from(s, i, st).len() > 0,
        scan_from(s, i, st)[0] == s[i],
{
    let move_ = step(s, i, st);
    assert(move_.emitted == seq![s[i]]);
    assert(scan_from(s, i, st) == move_.emitted + scan_from(s, move_.next, move_.state));
}

/// The output of a scan holds no comment: scanned again from the same
/// state, no `//` and no `/*` in it opens one.
pub proof fn lemma_scan_comment_free(s: Seq<char>, i: int, st: ScanState)
    requires
        0 <= i,
    ensures
        comment_free(scan_from(s, i, st), st),
    decreases s.len() - i,
{
    if i < s.len() {
        let move_ = step(s, i, st);
        lemma_step_advances(s, i, st);
        lemma_scan_comment_free(s, move_.next, move_.state);
        let rest = scan_from(s, move_.next, move_.state);
        let out = scan_from(s, i, st);
        assert(out == move_.emitted + rest);
        if st.sees_comments() && starts_line_comment(s, i) {
            if first_newline(s, i + 1) < s.len() {
                assert(out.drop_first() == rest);
                assert(st.after('\n') == st);
            } else {
                assert(out == rest);
            }
        } else if st.sees_comments() && starts_block_comment(s, i) {
            assert(out == rest);
        } else {
            assert(out.drop_first() == rest);
            if st.sees_comments() && s[i] == '/' && rest.len() > 0 {
                assert(st.after('/') == st);
                if i + 1 < s.len() {
                    lemma_scan_starts_with_copy(s, i + 1, st);
                    assert(out[1] == rest[0]);
                }
            }
        }
    }
}

/// Copying characters keeps the state well formed.
pub proof fn lemma_state_after_well_formed(t: Seq<char>, st: ScanState)
    requires
        st.well_formed(),
    ensures
        state_after(t, st).well_formed(),
    decreases t.len(),
{
    if t.len() > 0 {
        lemma_state_after_well_formed(t.drop_first(), st.after(t[0]));
    }
}

/// Copying two texts in a row is copying the first and then the second.
pub proof fn lemma_state_after_concat(a: Seq<char>, b: Seq<char>, st: ScanState)
    ensures
        state_after(a + b, st) == state_after(b, state_after(a, st)),
    decreases a.len(),
{
    if a.len() == 0 {
        assert(a + b == b);
    } else {
        assert((a + b).drop_first() == a.drop_first() + b);
        lemma_state_after_concat(a.drop_first(), b, st.after(a[0]));
    }
}

/// Both parts of a text in which no comment opens are free of comments,
/// the second from the state the first leaves behind.
pub proof fn lemma_comment_free_split(a: Seq<char>, b: Seq<char>, st: ScanState)
    requires
        comment_free(a + b, st),
    ensures
        comment_free(a, st),
        comment_free(b, state_after(a, st)),
    decreases a.len(),
{
    if a.len() == 0 {
        assert(a + b == b);
    } else {
        assert((a + b).drop_first() == a.drop_first() + b);
        assert((a + b)[0] == a[0]);
        if a.len() > 1 {
            assert((a + b)[1] == a[1]);
        }
        lemma_comment_free_split(a.drop_first(), b, st.after(a[0]));
    }
}

/// Two texts in which no comment opens can be put together, as long as the
/// second does not start with a character that could complete a marker.
pub proof fn lemma_comment_free_concat(a: Seq<char>, b: Seq<char>, st: ScanState)
    requires
        comment_free(a, st),
        comment_free(b, state_after(a, st)),
        b.len() == 0 || (b[0] != '/' && b[0] != '*'),
    ensures
        comment_free(a + b, st),
    decreases a.len(),
{
    if a.len() == 0 {
        assert(a + b == b);
    } else {
        assert((a + b).drop_first() == a.drop_first() + b);
        assert((a + b)[0] == a[0]);
        if a.len() > 1 {
            assert((a + b)[1] == a[1]);
        } else if b.len() > 0 {
            assert((a + b)[1] == b[0]);
        }
        lemma_comment_free_concat(a.drop_first(), b, st.after(a[0]));
    }
}

/// After a text that does not end in a backslash no escape is pending.
pub proof fn lemma_no_escape_pending(t: Seq<char>, st: ScanState)
    requires
        t.len() > 0,
        t.last() != '\\',
    ensures
        !state_after(t, st).escape_next,
    decreases t.len(),
{
    if t.len() > 1 {
        assert(t.drop_first().last() == t.last());
        lemma_no_escape_pending(t.drop_first(), st.after(t[0]));
    } else {
        assert(t[0] == t.last());
        assert(state_after(t.drop_first(), st.after(t[0])) == st.after(t[0]));
    }
}

/// The three characters that open a literal.
pub open spec fn is_quote(c: char) -> bool {
    c == '"' || c == '\'' || c == '`'
}

/// The state inside a literal opened by `quote`.
pub open spec fn inside_literal(quote: char) -> ScanState {
    ScanState {
        mode: if quote == '`' {
            Mode::InTemplateLiteral
        } else {
            Mode::InString(quote)
        },
        escape_next: false,
    }
}

/// `body` can stand between two `quote`s: every backslash in it has a
/// character to escape, and `quote` occurs in it only escaped.
pub open spec fn is_literal_body(body: Seq<char>, quote: char) -> bool
    decreases body.len(),
{
    if body.len() == 0 {
        true
    } else if body[0] == '\\' {
        body.len() >= 2 && is_literal_body(body.skip(2), quote)
    } else {
        body[0] != quote && is_literal_body(body.drop_first(), quote)
    }
}

/// Code that holds no quote and no slash.
pub open spec fn is_plain_code(code: Seq<char>) -> bool {
    forall|k: int| 0 <= k < code.len() ==> !is_quote(#[trigger] code[k]) && code[k] != '/'
}

/// The text holds no `*/`.
pub open spec fn holds_no_close(body: Seq<char>) -> bool {
    forall|k: int| 0 <= k < body.len() ==> !#[trigger] closes_block(body, k)
}

/// From inside a literal, its body and its closing quote are copied
/// character for character, whatever they hold, and the scan goes on in
/// plain code behind them.
pub proof fn lemma_literal_body_copied(body: Seq<char>, quote: char, rest: Seq<char>)
    requires
        is_quote(quote),
        is_literal_body(body, quote),
    ensures
        scan_from(body + seq![quote] + rest, 0, inside_literal(quote)) == body + seq![quote]
            + scan_text(rest),
        unterminated_from(body + seq![quote] + rest, 0, inside_literal(quote))
            == has_unterminated_comment(rest),
    decreases body.len(),
{
    let inside = inside_literal(quote);
    let code = ScanState::initial();
    let t = body + seq![quote] + rest;
    if body.len() == 0 {
        assert(t == seq![quote] + rest);
        assert(inside.after(quote) == code);
        lemma_scan_suffix(seq![quote], rest, 0, code);
        assert(scan_from(t, 0, inside) == seq![quote] + scan_from(t, 1, code));
    } else if body[0] == '\\' {
        let head = body.take(2);
        let tail = body.skip(2) + seq![quote] + rest;
        assert(t == head + tail);
        assert(t[0] == '\\');
        assert(t[1] == body[1]);
        let escaped = ScanState { mode: inside.mode, escape_next: true };
        assert(inside.after('\\') == escaped);
        assert(escaped.after(body[1]) == inside);
        lemma_scan_suffix(head, tail, 0, inside);
        lemma_literal_body_copied(body.skip(2), quote, rest);
        assert(scan_from(t, 1, escaped) == seq![body[1]] + scan_from(t, 2, inside));
        assert(scan_from(t, 0, inside) == seq!['\\'] + scan_from(t, 1, escaped));
        assert(unterminated_from(t, 1, escaped) == unterminated_from(t, 2, inside));
        assert(body == seq!['\\'] + seq![body[1]] + body.skip(2));
    } else {
        let head = seq![body[0]];
        let tail = body.drop_first() + seq![quote] + rest;
        assert(t == head + tail);
        assert(t[0] == body[0]);
        assert(inside.after(body[0]) == inside);
        lemma_scan_suffix(head, tail, 0, inside);
        lemma_literal_body_copied(body.drop_first(), quote, rest);
        assert(scan_from(t, 0, inside) == head + scan_from(t, 1, inside));
        assert(body == head + body.drop_first());
    }
}

/// A matched string or template literal met in plain code is preserved
/// character for character, comment markers inside it included.
pub proof fn lemma_literal_preserved(quote: char, body: Seq<char>, rest: Seq<char>)
    requires
        is_quote(quote),
        is_literal_body(body, quote),
    ensures
        scan_text(seq![quote] + body + seq![quote] + rest) == seq![quote] + body + seq![quote]
            + scan_text(rest),
        has_unterminated_comment(seq![quote] + body + seq![quote] + rest)
            == has_unterminated_comment(rest),
{
    let code = ScanState::initial();
    let inside = inside_literal(quote);
    let tail = body + seq![quote] + rest;
    let t = seq![quote] + body + seq![quote] + rest;
    assert(t == seq![quote] + tail);
    assert(t[0] == quote);
    assert(code.after(quote) == inside);
    lemma_scan_suffix(seq![quote], tail, 0, inside);
    lemma_literal_body_copied(body, quote, rest);
    assert(scan_from(t, 0, code) == seq![quote] + scan_from(t, 1, inside));
    assert(seq![quote] + (body + seq![quote] + scan_text(rest)) == seq![quote] + body + seq![
        quote,
    ] + scan_text(rest));
}

/// Code without quotes and slashes is copied as it is.
pub proof fn lemma_plain_code_copied(code: Seq<char>, rest: Seq<char>)
    requires
        is_plain_code(code),
    ensures
        scan_text(code + rest) == code + scan_text(rest),
        has_unterminated_comment(code + rest) == has_unterminated_comment(rest),
    decreases code.len(),
{
    let st = ScanState::initial();
    let t = code + rest;
    if code.len() == 0 {
        assert(t == rest);
    } else {
        let head = seq![code[0]];
        let tail = code.drop_first() + rest;
        assert(t == head + tail);
        assert(t[0] == code[0]);
        assert(!is_quote(code[0]) && code[0] != '/');
        assert(st.after(code[0]) == st);
        assert forall|k: int| 0 <= k < code.drop_first().len() implies !is_quote(
            #[trigger] code.drop_first()[k],
        ) && code.drop_first()[k] != '/' by {
            assert(code.drop_first()[k] == code[k + 1]);
        }
        lemma_scan_suffix(head, tail, 0, st);
        lemma_plain_code_copied(code.drop_first(), rest);
        assert(scan_from(t, 0, st) == head + scan_from(t, 1, st));
        assert(code == head + code.drop_first());
    }
}

/// A line comment that is followed by a newline is removed entirely, and
/// the newline is kept.
pub proof fn lemma_line_comment_removed(comment: Seq<char>, rest: Seq<char>)
    requires
        no_newline(comment),
    ensures
        scan_text(seq!['/', '/'] + comment + seq!['\n'] + rest) == seq!['\n'] + scan_text(rest),
        has_unterminated_comment(seq!['/', '/'] + comment + seq!['\n'] + rest)
            == has_unterminated_comment(rest),
{
    let st = ScanState::initial();
    let head = seq!['/', '/'] + comment + seq!['\n'];
    let t = seq!['/', '/'] + comment + seq!['\n'] + rest;
    let end = comment.len() as int + 2;
    assert(t == head + rest);
    assert(t[0] == '/' && t[1] == '/');
    assert(t[end] == '\n');
    assert forall|k: int| 1 <= k < end implies t[k] != '\n' by {
        if k >= 2 {
            assert(t[k] == comment[k - 2]);
        }
    }
    lemma_first_newline(t, 1);
    assert(first_newline(t, 1) == end);
    lemma_scan_suffix(head, rest, 0, st);
    assert(scan_from(t, 0, st) == seq!['\n'] + scan_from(t, end + 1, st));
}

/// A line comment that runs to the end of the text is removed entirely.
pub proof fn lemma_line_comment_at_end(comment: Seq<char>)
    requires
        no_newline(comment),
    ensures
        scan_text(seq!['/', '/'] + comment) == Seq::<char>::empty(),
        !has_unterminated_comment(seq!['/', '/'] + comment),
{
    let st = ScanState::initial();
    let t = seq!['/', '/'] + comment;
    assert(t[0] == '/');
    if comment.len() == 0 {
        assert(t.len() == 2);
    }
    assert(t[1] == '/');
    assert forall|k: int| 1 <= k < t.len() implies t[k] != '\n' by {
        if k >= 2 {
            assert(t[k] == comment[k - 2]);
        }
    }
    lemma_first_newline(t, 1);
    assert(scan_from(t, 0, st) == Seq::<char>::empty() + scan_from(t, t.len() as int, st));
    assert(unterminated_from(t, 0, st) == unterminated_from(t, t.len() as int, st));
}

/// A block comment whose body holds no `*/` is removed entirely, over as
/// many lines as it spans.
pub proof fn lemma_block_comment_removed(body: Seq<char>, rest: Seq<char>)
    requires
        holds_no_close(body),
    ensures
        scan_text(seq!['/', '*'] + body + seq!['*', '/'] + rest) == scan_text(rest),
        has_unterminated_comment(seq!['/', '*'] + body + seq!['*', '/'] + rest)
            == has_unterminated_comment(rest),
{
    let st = ScanState::initial();
    let head = seq!['/', '*'] + body + seq!['*', '/'];
    let t = seq!['/', '*'] + body + seq!['*', '/'] + rest;
    let close = body.len() as int + 2;
    assert(t == head + rest);
    assert(t[0] == '/' && t[1] == '*');
    assert(t[close] == '*' && t[close + 1] == '/');
    assert(closes_block(t, close));
    assert forall|k: int| 2 <= k < close implies !closes_block(t, k) by {
        assert(t[k] == body[k - 2]);
        if k + 1 < close {
            assert(t[k + 1] == body[k - 1]);
            assert(!closes_block(body, k - 2));
        }
    }
    lemma_block_close(t, 2);
    assert(block_close(t, 2) == close);
    lemma_scan_suffix(head, rest, 0, st);
    assert(scan_from(t, 0, st) == Seq::<char>::empty() + scan_from(t, close + 2, st));
}

/// A block comment that is never closed takes the rest of the text with
/// it, and raises the warning.
pub proof fn lemma_block_comment_unterminated(body: Seq<char>)
    requires
        holds_no_close(body),
    ensures
        scan_text(seq!['/', '*'] + body) == Seq::<char>::empty(),
        has_unterminated_comment(seq!['/', '*'] + body),
{
    let st = ScanState::initial();
    let t = seq!['/', '*'] + body;
    assert(t[0] == '/' && t[1] == '*');
    assert forall|k: int| 2 <= k < t.len() implies !closes_block(t, k) by {
        assert(t[k] == body[k - 2]);
        if k + 1 < t.len() {
            assert(t[k + 1] == body[k - 1]);
            assert(!closes_block(body, k - 2));
        }
    }
    lemma_block_close(t, 2);
    assert(scan_from(t, 0, st) == Seq::<char>::empty() + scan_from(t, t.len() as int, st));
}

} // verus!
