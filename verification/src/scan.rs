//! The comment scanner: a single left-to-right pass over a character buffer
//! that copies code, string and template-literal contents and drops comments.

use vstd::prelude::*;

verus! {

/// The lexical context of the scanner.
#[derive(Clone, Copy, Debug, PartialEq, Eq, Structural)]
pub enum Mode {
    /// Ordinary code: the only context in which comments are recognized.
    Code,
    /// Inside a quoted string; the character is the quote that will close it.
    InString(char),
    /// Inside a backtick-delimited template literal.
    InTemplateLiteral,
}

/// The transient state carried from one character to the next.
#[derive(Clone, Copy, Debug, PartialEq, Eq, Structural)]
pub struct ScanState {
    pub mode: Mode,
    /// True immediately after an unconsumed backslash inside a string or
    /// template literal.
    pub escape_next: bool,
}

/// What the scanner does at one position: the characters it appends, the
/// position it continues from, the state it continues in, and whether it ran
/// into a block comment that is never closed.
pub struct Step {
    pub emitted: Seq<char>,
    pub next: int,
    pub state: ScanState,
    pub unterminated: bool,
}

/// The result of a scan: the text without its comments, and whether a block
/// comment was still open at the end of the input.
#[derive(Debug, PartialEq, Eq)]
pub struct Scanned {
    pub text: Vec<char>,
    pub unterminated_comment: bool,
}

/// Index of the first newline at or after `from`, or `s.len()` if there is none.
pub open spec fn first_newline(s: Seq<char>, from: int) -> int
    recommends
        0 <= from,
    decreases s.len() - from,
{
    if from >= s.len() {
        s.len() as int
    } else if s[from] == '\n' {
        from
    } else {
        first_newline(s, from + 1)
    }
}

/// `*/` stands at position `k`.
pub open spec fn closes_block(s: Seq<char>, k: int) -> bool {
    0 <= k && k + 1 < s.len() && s[k] == '*' && s[k + 1] == '/'
}

/// Index of the `*` of the first `*/` that starts at or after `from`, or
/// `s.len()` if there is none.
pub open spec fn block_close(s: Seq<char>, from: int) -> int
    recommends
        0 <= from,
    decreases s.len() - from,
{
    if from + 1 >= s.len() {
        s.len() as int
    } else if closes_block(s, from) {
        from
    } else {
        block_close(s, from + 1)
    }
}

/// `//` stands at position `i`.
pub open spec fn starts_line_comment(s: Seq<char>, i: int) -> bool {
    0 <= i && i + 1 < s.len() && s[i] == '/' && s[i + 1] == '/'
}

/// `/*` stands at position `i`.
pub open spec fn starts_block_comment(s: Seq<char>, i: int) -> bool {
    0 <= i && i + 1 < s.len() && s[i] == '/' && s[i + 1] == '*'
}

impl ScanState {
    /// The state every scan starts in.
    pub open spec fn initial() -> ScanState {
        ScanState { mode: Mode::Code, escape_next: false }
    }

    /// An escape can only be pending inside a string or template literal,
    /// and a string is closed by one of the two quotes that can open it.
    pub open spec fn well_formed(self) -> bool {
        &&& self.escape_next ==> self.mode != Mode::Code
        &&& match self.mode {
            Mode::InString(quote) => quote == '"' || quote == '\'',
            _ => true,
        }
    }

    /// Comment markers are only honoured in plain code.
    pub open spec fn sees_comments(self) -> bool {
        self.mode == Mode::Code && !self.escape_next
    }

    /// The state after copying the character `ch`.
    pub open spec fn after(self, ch: char) -> ScanState {
        if self.escape_next {
            ScanState { mode: self.mode, escape_next: false }
        } else if ch == '\\' && self.mode != Mode::Code {
            ScanState { mode: self.mode, escape_next: true }
        } else {
            match self.mode {
                Mode::Code => if ch == '`' {
                    ScanState { mode: Mode::InTemplateLiteral, escape_next: false }
                } else if ch == '"' || ch == '\'' {
                    ScanState { mode: Mode::InString(ch), escape_next: false }
                } else {
                    self
                },
                Mode::InString(quote) => if ch == quote {
                    ScanState { mode: Mode::Code, escape_next: false }
                } else {
                    self
                },
                Mode::InTemplateLiteral => if ch == '`' {
                    ScanState { mode: Mode::Code, escape_next: false }
                } else {
                    self
                },
            }
        }
    }

    /// A fresh state: plain code, no escape pending.
    pub fn new() -> (r: ScanState)
        ensures
            r == ScanState::initial(),
    {
        ScanState { mode: Mode::Code, escape_next: false }
    }

    /// Whether a `//` or `/*` met in this state opens a comment.
    pub fn recognizes_comments(&self) -> (r: bool)
        ensures
            r == self.sees_comments(),
    {
        match self.mode {
            Mode::Code => !self.escape_next,
            _ => false,
        }
    }

    /// The transition taken when `ch` is copied to the output.
    pub fn advance(&self, ch: char) -> (r: ScanState)
        ensures
            r == self.after(ch),
            self.well_formed() ==> r.well_formed(),
    {
        if self.escape_next {
            ScanState { mode: self.mode, escape_next: false }
        } else {
            match self.mode {
                Mode::Code => if ch == '`' {
                    ScanState { mode: Mode::InTemplateLiteral, escape_next: false }
                } else if ch == '"' || ch == '\'' {
                    ScanState { mode: Mode::InString(ch), escape_next: false }
                } else {
                    *self
                },
                Mode::InString(quote) => if ch == '\\' {
                    ScanState { mode: self.mode, escape_next: true }
                } else if ch == quote {
                    ScanState { mode: Mode::Code, escape_next: false }
                } else {
                    *self
                },
                Mode::InTemplateLiteral => if ch == '\\' {
                    ScanState { mode: self.mode, escape_next: true }
                } else if ch == '`' {
                    ScanState { mode: Mode::Code, escape_next: false }
                } else {
                    *self
                },
            }
        }
    }
}

/// The scanner's move at position `i` of `s` in state `st`.
///
/// In plain code `//` discards everything up to the next newline and keeps
/// that newline; `/*` discards everything up to and including the first `*/`
/// that follows it, or the whole rest of the input if there is none. Every
/// other character is copied.
pub open spec fn step(s: Seq<char>, i: int, st: ScanState) -> Step
    recommends
        0 <= i < s.len(),
{
    if st.sees_comments() && starts_line_comment(s, i) {
        let end = first_newline(s, i + 1);
        if end < s.len() {
            Step { emitted: seq!['\n'], next: end + 1, state: st, unterminated: false }
        } else {
            Step { emitted: Seq::empty(), next: s.len() as int, state: st, unterminated: false }
        }
    } else if st.sees_comments() && starts_block_comment(s, i) {
        let close = block_close(s, i + 2);
        if close < s.len() {
            Step { emitted: Seq::empty(), next: close + 2, state: st, unterminated: false }
        } else {
            Step { emitted: Seq::empty(), next: s.len() as int, state: st, unterminated: true }
        }
    } else {
        Step { emitted: seq![s[i]], next: i + 1, state: st.after(s[i]), unterminated: false }
    }
}

/// `first_newline` stays within the text and finds a newline if it stops early.
pub proof fn lemma_first_newline(s: Seq<char>, from: int)
    requires
        0 <= from <= s.len(),
    ensures
        from <= first_newline(s, from) <= s.len(),
        first_newline(s, from) < s.len() ==> s[first_newline(s, from)] == '\n',
        forall|k: int| from <= k < first_newline(s, from) ==> s[k] != '\n',
    decreases s.len() - from,
{
    if from < s.len() && s[from] != '\n' {
        lemma_first_newline(s, from + 1);
    }
}

/// `block_close` stays within the text and finds the first `*/` if it stops early.
pub proof fn lemma_block_close(s: Seq<char>, from: int)
    requires
        0 <= from <= s.len(),
    ensures
        from <= block_close(s, from) <= s.len(),
        block_close(s, from) < s.len() ==> closes_block(s, block_close(s, from)),
        forall|k: int| from <= k < block_close(s, from) ==> !closes_block(s, k),
    decreases s.len() - from,
{
    if from + 1 < s.len() && !closes_block(s, from) {
        lemma_block_close(s, from + 1);
    }
}

/// Every step moves forward and stays within the text.
pub proof fn lemma_step_advances(s: Seq<char>, i: int, st: ScanState)
    requires
        0 <= i < s.len(),
    ensures
        i < step(s, i, st).next <= s.len(),
{
    if st.sees_comments() && starts_line_comment(s, i) {
        lemma_first_newline(s, i + 1);
    } else if st.sees_comments() && starts_block_comment(s, i) {
        lemma_block_close(s, i + 2);
    }
}

/// The output of a scan that starts at position `i` in state `st`.
pub open spec fn scan_from(s: Seq<char>, i: int, st: ScanState) -> Seq<char>
    decreases s.len() - i,
{
    if 0 <= i < s.len() {
        let move_ = step(s, i, st);
        proof {
            lemma_step_advances(s, i, st);
        }
        move_.emitted + scan_from(s, move_.next, move_.state)
    } else {
        Seq::empty()
    }
}

/// Whether a scan that starts at position `i` in state `st` meets a block
/// comment that is never closed.
pub open spec fn unterminated_from(s: Seq<char>, i: int, st: ScanState) -> bool
    decreases s.len() - i,
{
    if 0 <= i < s.len() {
        let move_ = step(s, i, st);
        proof {
            lemma_step_advances(s, i, st);
        }
        move_.unterminated || unterminated_from(s, move_.next, move_.state)
    } else {
        false
    }
}

/// The text `s` with its comments removed.
pub open spec fn scan_text(s: Seq<char>) -> Seq<char> {
    scan_from(s, 0, ScanState::initial())
}

/// Whether `s` holds a block comment that is never closed.
pub open spec fn has_unterminated_comment(s: Seq<char>) -> bool {
    unterminated_from(s, 0, ScanState::initial())
}

/// Finds the first newline at or after `from`.
pub fn find_newline(input: &[char], from: usize) -> (r: usize)
    requires
        from <= input@.len(),
    ensures
        r == first_newline(input@, from as int),
        from <= r <= input@.len(),
{
    let n = input.len();
    let mut j: usize = from;
    while j < n && input[j] != '\n'
        invariant
            n == input@.len(),
            from <= j <= n,
            first_newline(input@, from as int) == first_newline(input@, j as int),
        decreases n - j,
    {
        j += 1;
    }
    j
}

/// Finds the first `*/` that starts at or after `from`.
pub fn find_block_close(input: &[char], from: usize) -> (r: usize)
    requires
        from <= input@.len(),
    ensures
        r == block_close(input@, from as int),
        from <= r <= input@.len(),
        r < input@.len() ==> r + 1 < input@.len(),
{
    let n = input.len();
    let mut k: usize = from;
    while k < n
        invariant
            n == input@.len(),
            from <= k <= n,
            block_close(input@, from as int) == block_close(input@, k as int),
        decreases n - k,
    {
        if k + 1 >= n {
            return n;
        }
        if input[k] == '*' && input[k + 1] == '/' {
            return k;
        }
        k += 1;
    }
    n
}

/// Removes the comments from `input`.
///
/// The result holds exactly what the scanner copies on its pass from the
/// first position in the initial state, and reports whether the pass ended
/// inside a block comment.
pub fn scan_comments(input: &[char]) -> (r: Scanned)
    ensures
        r.text@ == scan_text(input@),
        r.unterminated_comment == has_unterminated_comment(input@),
{
    let n = input.len();
    let mut out: Vec<char> = Vec::new();
    let mut state = ScanState::new();
    let mut unterminated = false;
    let mut i: usize = 0;
    while i < n
        invariant
            n == input@.len(),
            i <= n,
            scan_text(input@) == out@ + scan_from(input@, i as int, state),
            has_unterminated_comment(input@) == (unterminated || unterminated_from(
                input@,
                i as int,
                state,
            )),
        decreases n - i,
    {
        let ch = input[i];
        let in_code = state.recognizes_comments();
        if in_code && ch == '/' && i + 1 < n && input[i + 1] == '/' {
            let end = find_newline(input, i + 1);
            if end < n {
                out.push('\n');
                i = end + 1;
            } else {
                i = n;
            }
        } else if in_code && ch == '/' && i + 1 < n && input[i + 1] == '*' {
            let close = find_block_close(input, i + 2);
            if close < n {
                i = close + 2;
            } else {
                unterminated = true;
                i = n;
            }
        } else {
            out.push(ch);
            state = state.advance(ch);
            i += 1;
        }
    }
    Scanned { text: out, unterminated_comment: unterminated }
}

} // verus!
