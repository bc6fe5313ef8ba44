//! What holds of blank-line normalization: cutting and joining undo each
//! other, a normalized text has no two blank lines in a row, and a text
//! without such a pair is left as it is.

use vstd::prelude::*;
use crate::lines::{
    collapse_lines, collapse_text, join_lines, keeps_line, last_newline,
    lemma_collapse_lines_shape, lemma_last_newline, lemma_split_append, lemma_split_lines_shape,
    lemma_split_single, no_newline, split_lines,
};
use crate::text::is_blank;

verus! {

/// None of the lines holds a newline.
pub open spec fn newline_free(lines: Seq<Seq<char>>) -> bool {
    forall|i: int| 0 <= i < lines.len() ==> no_newline(#[trigger] lines[i])
}

/// No blank line follows a blank line.
pub open spec fn no_blank_run(lines: Seq<Seq<char>>) -> bool {
    forall|i: int| 0 < i < lines.len() ==> #[trigger] keeps_line(lines, i)
}

/// Every line is blank.
pub open spec fn all_blank(lines: Seq<Seq<char>>) -> bool {
    forall|i: int| 0 <= i < lines.len() ==> is_blank(#[trigger] lines[i])
}

/// Joining the lines of a text gives the text back.
pub proof fn lemma_join_split(s: Seq<char>)
    ensures
        join_lines(split_lines(s)) == s,
    decreases s.len(),
{
    lemma_last_newline(s);
    let cut = last_newline(s);
    if 0 <= cut < s.len() {
        let head = s.take(cut);
        let tail = s.skip(cut + 1);
        lemma_join_split(head);
        lemma_split_lines_shape(head);
        let lines = split_lines(head).push(tail);
        assert(lines.drop_last() == split_lines(head));
        assert(s == head + seq!['\n'] + tail);
    }
}

/// Cutting the join of lines that hold no newline gives the lines back.
pub proof fn lemma_split_join(lines: Seq<Seq<char>>)
    requires
        lines.len() >= 1,
        newline_free(lines),
    ensures
        split_lines(join_lines(lines)) == lines,
    decreases lines.len(),
{
    if lines.len() == 1 {
        lemma_split_single(lines[0]);
        assert(lines == seq![lines[0]]);
    } else {
        let front = lines.drop_last();
        assert forall|i: int| 0 <= i < front.len() implies no_newline(#[trigger] front[i]) by {
            assert(front[i] == lines[i]);
        }
        lemma_split_join(front);
        lemma_split_append(join_lines(front), lines.last());
        assert(front.push(lines.last()) == lines);
    }
}

/// The surviving lines end in a blank line exactly when the lines do, and
/// hold no newline where the lines held none.
pub proof fn lemma_collapse_lines_ends(lines: Seq<Seq<char>>)
    requires
        lines.len() >= 1,
    ensures
        collapse_lines(lines).len() >= 1,
        is_blank(collapse_lines(lines).last()) == is_blank(lines.last()),
        newline_free(lines) ==> newline_free(collapse_lines(lines)),
    decreases lines.len(),
{
    let front = lines.drop_last();
    lemma_collapse_lines_shape(lines);
    if lines.len() > 1 {
        lemma_collapse_lines_ends(front);
        if newline_free(lines) {
            assert forall|i: int| 0 <= i < front.len() implies no_newline(#[trigger] front[i]) by {
                assert(front[i] == lines[i]);
            }
            let kept = collapse_lines(lines);
            assert forall|i: int| 0 <= i < kept.len() implies no_newline(#[trigger] kept[i]) by {
                if i < collapse_lines(front).len() {
                    assert(kept[i] == collapse_lines(front)[i]);
                } else {
                    assert(kept[i] == lines.last());
                }
            }
        }
    }
}

/// Among the surviving lines no blank line follows a blank line.
pub proof fn lemma_collapse_lines_no_blank_run(lines: Seq<Seq<char>>)
    ensures
        no_blank_run(collapse_lines(lines)),
    decreases lines.len(),
{
    if lines.len() > 0 {
        let front = lines.drop_last();
        lemma_collapse_lines_no_blank_run(front);
        let kept = collapse_lines(lines);
        let kept_front = collapse_lines(front);
        if front.len() >= 1 {
            lemma_collapse_lines_ends(front);
        }
        assert forall|i: int| 0 < i < kept.len() implies #[trigger] keeps_line(kept, i) by {
            if i < kept_front.len() {
                assert(keeps_line(kept_front, i));
                assert(kept[i] == kept_front[i]);
                assert(kept[i - 1] == kept_front[i - 1]);
            } else {
                assert(kept[i] == lines.last());
                assert(kept[i - 1] == kept_front.last());
                assert(front.last() == lines[lines.len() - 2]);
            }
        }
    }
}

/// Lines among which no blank line follows a blank line all survive.
pub proof fn lemma_collapse_lines_fixed(lines: Seq<Seq<char>>)
    requires
        no_blank_run(lines),
    ensures
        collapse_lines(lines) == lines,
    decreases lines.len(),
{
    if lines.len() > 0 {
        let front = lines.drop_last();
        assert forall|i: int| 0 < i < front.len() implies #[trigger] keeps_line(front, i) by {
            assert(keeps_line(lines, i));
            assert(front[i] == lines[i]);
            assert(front[i - 1] == lines[i - 1]);
        }
        lemma_collapse_lines_fixed(front);
        if lines.len() > 1 {
            assert(keeps_line(lines, lines.len() - 1));
        }
        assert(front.push(lines.last()) == lines);
    }
}

/// Two stretches of lines collapse independently unless a blank line at the
/// end of the first meets a blank line at the start of the second.
pub proof fn lemma_collapse_lines_concat(a: Seq<Seq<char>>, b: Seq<Seq<char>>)
    requires
        a.len() == 0 || b.len() == 0 || !is_blank(a.last()) || !is_blank(b[0]),
    ensures
        collapse_lines(a + b) == collapse_lines(a) + collapse_lines(b),
    decreases b.len(),
{
    if b.len() == 0 {
        assert(a + b == a);
        assert(collapse_lines(a) + collapse_lines(b) == collapse_lines(a));
    } else {
        let whole = a + b;
        let b_front = b.drop_last();
        assert(whole.drop_last() == a + b_front);
        assert(whole.last() == b.last());
        if b_front.len() > 0 {
            assert(b_front[0] == b[0]);
            assert(whole[whole.len() - 2] == b[b.len() - 2]);
        } else if a.len() > 0 {
            assert(whole[whole.len() - 2] == a.last());
        }
        lemma_collapse_lines_concat(a, b_front);
        assert(keeps_line(whole, whole.len() - 1) == keeps_line(b, b.len() - 1));
        if keeps_line(b, b.len() - 1) {
            assert((collapse_lines(a) + collapse_lines(b_front)).push(b.last()) == collapse_lines(
                a,
            ) + collapse_lines(b_front).push(b.last()));
        }
    }
}

/// Of a run of blank lines only the first survives.
pub proof fn lemma_collapse_lines_of_blanks(run: Seq<Seq<char>>)
    requires
        run.len() >= 1,
        all_blank(run),
    ensures
        collapse_lines(run) == seq![run[0]],
    decreases run.len(),
{
    let front = run.drop_last();
    if run.len() == 1 {
        assert(collapse_lines(front) == Seq::<Seq<char>>::empty());
        assert(collapse_lines(run) == Seq::<Seq<char>>::empty().push(run[0]));
    } else {
        assert forall|i: int| 0 <= i < front.len() implies is_blank(#[trigger] front[i]) by {
            assert(front[i] == run[i]);
        }
        lemma_collapse_lines_of_blanks(front);
        assert(is_blank(run[run.len() - 1]));
        assert(is_blank(run[run.len() - 2]));
        assert(!keeps_line(run, run.len() - 1));
        assert(front[0] == run[0]);
    }
}

/// A run of one or more blank lines between lines that are not blank is
/// reduced to exactly its first line, in its place; the lines around it
/// collapse as they would alone.
pub proof fn lemma_blank_run_reduced(
    before: Seq<Seq<char>>,
    run: Seq<Seq<char>>,
    after: Seq<Seq<char>>,
)
    requires
        run.len() >= 1,
        all_blank(run),
        before.len() == 0 || !is_blank(before.last()),
        after.len() == 0 || !is_blank(after[0]),
    ensures
        collapse_lines(before + run + after) == collapse_lines(before) + seq![run[0]]
            + collapse_lines(after),
{
    let middle = before + run;
    assert(middle.last() == run.last());
    lemma_collapse_lines_concat(before, run);
    lemma_collapse_lines_of_blanks(run);
    assert(is_blank(run[0]));
    if after.len() > 0 {
        lemma_collapse_lines_concat(middle, after);
    } else {
        assert(middle + after == middle);
        assert(collapse_lines(after) == Seq::<Seq<char>>::empty());
        assert(collapse_lines(middle) + collapse_lines(after) == collapse_lines(middle));
    }
}

/// Normalizing the join of lines that hold no newline collapses those lines.
pub proof fn lemma_collapse_text_of_lines(lines: Seq<Seq<char>>)
    requires
        lines.len() >= 1,
        newline_free(lines),
    ensures
        collapse_text(join_lines(lines)) == join_lines(collapse_lines(lines)),
{
    lemma_split_join(lines);
}

/// After normalization no blank line follows a blank line.
pub proof fn lemma_collapse_text_no_blank_run(s: Seq<char>)
    ensures
        no_blank_run(split_lines(collapse_text(s))),
{
    let lines = split_lines(s);
    lemma_split_lines_shape(s);
    lemma_collapse_lines_ends(lines);
    lemma_collapse_lines_no_blank_run(lines);
    lemma_split_join(collapse_lines(lines));
}

/// A text in which no blank line follows a blank line is left unchanged.
pub proof fn lemma_collapse_text_unchanged(s: Seq<char>)
    requires
        no_blank_run(split_lines(s)),
    ensures
        collapse_text(s) == s,
{
    lemma_collapse_lines_fixed(split_lines(s));
    lemma_join_split(s);
}

/// Normalizing twice is normalizing once.
pub proof fn lemma_collapse_text_idempotent(s: Seq<char>)
    ensures
        collapse_text(collapse_text(s)) == collapse_text(s),
{
    lemma_collapse_text_no_blank_run(s);
    lemma_collapse_text_unchanged(collapse_text(s));
}

} // verus!
