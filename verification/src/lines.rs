//! Blank-line normalization: the text is cut into lines at its newlines,
//! every run of blank lines is reduced to its first line, and the lines
//! that remain are joined by newlines again.

use vstd::prelude::*;
use crate::scan::{find_newline, lemma_first_newline};
use crate::text::{is_blank, is_blank_range, push_range};

verus! {

/// The text holds no newline.
pub open spec fn no_newline(s: Seq<char>) -> bool {
    forall|k: int| 0 <= k < s.len() ==> #[trigger] s[k] != '\n'
}

/// Index of the last newline of `s`, or `-1` if there is none.
pub open spec fn last_newline(s: Seq<char>) -> int
    decreases s.len(),
{
    if s.len() == 0 {
        -1
    } else if s.last() == '\n' {
        s.len() - 1
    } else {
        last_newline(s.drop_last())
    }
}

/// The lines of `s`: the pieces between its newlines. A text without a
/// newline is one line; a text that ends in a newline ends in an empty line.
pub open spec fn split_lines(s: Seq<char>) -> Seq<Seq<char>>
    decreases s.len(),
{
    let cut = last_newline(s);
    if 0 <= cut < s.len() {
        split_lines(s.take(cut)).push(s.skip(cut + 1))
    } else {
        seq![s]
    }
}

/// The lines put together again, with one newline between neighbours.
pub open spec fn join_lines(lines: Seq<Seq<char>>) -> Seq<char>
    decreases lines.len(),
{
    if lines.len() == 0 {
        Seq::empty()
    } else if lines.len() == 1 {
        lines[0]
    } else {
        join_lines(lines.drop_last()) + seq!['\n'] + lines.last()
    }
}

/// Line `i` survives: it is the first line, or it is not blank, or the line
/// before it is not blank.
pub open spec fn keeps_line(lines: Seq<Seq<char>>, i: int) -> bool {
    i == 0 || !is_blank(lines[i]) || !is_blank(lines[i - 1])
}

/// The surviving lines of `lines`, in their order.
pub open spec fn collapse_lines(lines: Seq<Seq<char>>) -> Seq<Seq<char>>
    decreases lines.len(),
{
    if lines.len() == 0 {
        Seq::empty()
    } else {
        let before = collapse_lines(lines.drop_last());
        if keeps_line(lines, lines.len() - 1) {
            before.push(lines.last())
        } else {
            before
        }
    }
}

/// The text with every run of blank lines reduced to the first line of the run.
pub open spec fn collapse_text(s: Seq<char>) -> Seq<char> {
    join_lines(collapse_lines(split_lines(s)))
}

/// `last_newline` is the index of a newline after which none follows.
pub proof fn lemma_last_newline(s: Seq<char>)
    ensures
        -1 <= last_newline(s) < s.len(),
        last_newline(s) >= 0 ==> s[last_newline(s)] == '\n',
        forall|k: int| last_newline(s) < k < s.len() ==> #[trigger] s[k] != '\n',
    decreases s.len(),
{
    if s.len() > 0 && s.last() != '\n' {
        lemma_last_newline(s.drop_last());
        assert forall|k: int| last_newline(s) < k < s.len() implies #[trigger] s[k] != '\n' by {
            if k < s.len() - 1 {
                assert(s.drop_last()[k] == s[k]);
            }
        }
    }
}

/// A newline at `cut` with none after it is the last newline.
pub proof fn lemma_last_newline_is(s: Seq<char>, cut: int)
    requires
        0 <= cut < s.len(),
        s[cut] == '\n',
        forall|k: int| cut < k < s.len() ==> #[trigger] s[k] != '\n',
    ensures
        last_newline(s) == cut,
{
    lemma_last_newline(s);
}

/// A text without a newline has no last newline.
pub proof fn lemma_last_newline_none(s: Seq<char>)
    requires
        no_newline(s),
    ensures
        last_newline(s) == -1,
{
    lemma_last_newline(s);
}

/// A text without a newline is a single line.
pub proof fn lemma_split_single(line: Seq<char>)
    requires
        no_newline(line),
    ensures
        split_lines(line) == seq![line],
{
    lemma_last_newline_none(line);
}

/// Appending a newline and a line without newlines appends that line to the
/// lines of the text.
pub proof fn lemma_split_append(text: Seq<char>, line: Seq<char>)
    requires
        no_newline(line),
    ensures
        split_lines(text + seq!['\n'] + line) == split_lines(text).push(line),
{
    let whole = text + seq!['\n'] + line;
    let cut = text.len() as int;
    assert(whole[cut] == '\n');
    assert forall|k: int| cut < k < whole.len() implies #[trigger] whole[k] != '\n' by {
        assert(whole[k] == line[k - cut - 1]);
    }
    lemma_last_newline_is(whole, cut);
    assert(whole.take(cut) == text);
    assert(whole.skip(cut + 1) == line);
}

/// A text always has at least one line, and no line holds a newline.
pub proof fn lemma_split_lines_shape(s: Seq<char>)
    ensures
        split_lines(s).len() >= 1,
        forall|i: int| 0 <= i < split_lines(s).len() ==> no_newline(#[trigger] split_lines(s)[i]),
    decreases s.len(),
{
    lemma_last_newline(s);
    let cut = last_newline(s);
    if 0 <= cut < s.len() {
        lemma_split_lines_shape(s.take(cut));
        let tail = s.skip(cut + 1);
        assert forall|k: int| 0 <= k < tail.len() implies #[trigger] tail[k] != '\n' by {
            assert(tail[k] == s[cut + 1 + k]);
        }
    } else {
        assert forall|k: int| 0 <= k < s.len() implies #[trigger] s[k] != '\n' by {}
    }
}

/// The first line always survives, so the lines of a text never collapse
/// to nothing.
pub proof fn lemma_collapse_lines_shape(lines: Seq<Seq<char>>)
    requires
        lines.len() >= 1,
    ensures
        1 <= collapse_lines(lines).len() <= lines.len(),
        collapse_lines(lines)[0] == lines[0],
    decreases lines.len(),
{
    let front = lines.drop_last();
    if lines.len() == 1 {
        assert(collapse_lines(front) == Seq::<Seq<char>>::empty());
        assert(collapse_lines(lines) == seq![lines[0]]);
    } else {
        lemma_collapse_lines_shape(front);
    }
}

/// Reduces every run of blank lines in `text` to the first line of the run.
///
/// The lines are the pieces between the newlines of `text`; a line is blank
/// when it is empty or all white space. Every line that is not blank is
/// kept, and so is a blank line that does not follow a blank line.
pub fn collapse_blank_lines(text: &[char]) -> (r: Vec<char>)
    ensures
        r@ == collapse_text(text@),
{
    let n = text.len();
    let mut out: Vec<char> = Vec::new();
    let mut end = find_newline(text, 0);
    let mut prev_blank = is_blank_range(text, 0, end);
    push_range(&mut out, text, 0, end);
    proof {
        lemma_first_newline(text@, 0);
        let first = text@.subrange(0, end as int);
        assert(first == text@.take(end as int));
        assert(no_newline(first));
        lemma_split_single(first);
        assert(collapse_lines(seq![first].drop_last()) == Seq::<Seq<char>>::empty());
        assert(collapse_lines(seq![first]) == seq![first]);
    }
    while end < n
        invariant
            n == text@.len(),
            end <= n,
            end < n ==> text@[end as int] == '\n',
            out@ == collapse_text(text@.take(end as int)),
            split_lines(text@.take(end as int)).len() >= 1,
            prev_blank == is_blank(split_lines(text@.take(end as int)).last()),
        decreases n - end,
    {
        let start = end + 1;
        let next_end = find_newline(text, start);
        let blank = is_blank_range(text, start, next_end);
        proof {
            lemma_first_newline(text@, start as int);
            let before = text@.take(end as int);
            let line = text@.subrange(start as int, next_end as int);
            assert(no_newline(line));
            assert(text@.take(next_end as int) == before + seq!['\n'] + line);
            lemma_split_append(before, line);
            let lines = split_lines(before).push(line);
            assert(lines.drop_last() == split_lines(before));
            lemma_collapse_lines_shape(split_lines(before));
            let kept = collapse_lines(split_lines(before));
            if keeps_line(lines, lines.len() - 1) {
                assert(kept.push(line).drop_last() == kept);
            }
        }
        if !(blank && prev_blank) {
            out.push('\n');
            push_range(&mut out, text, start, next_end);
        }
        prev_blank = blank;
        end = next_end;
    }
    proof {
        assert(text@.take(end as int) == text@);
    }
    out
}

} // verus!
