//! Characters and buffers: the white-space test, and the passage between
//! strings and the character buffers the scanner works on.

use vstd::prelude::*;

verus! {

/// The characters with the Unicode property `White_Space`.
pub open spec fn is_white_space(c: char) -> bool {
    let n = c as u32;
    ||| 0x09 <= n <= 0x0D
    ||| n == 0x20
    ||| n == 0x85
    ||| n == 0xA0
    ||| n == 0x1680
    ||| 0x2000 <= n <= 0x200A
    ||| n == 0x2028
    ||| n == 0x2029
    ||| n == 0x202F
    ||| n == 0x205F
    ||| n == 0x3000
}

/// A line is blank when it is empty or holds white space only.
pub open spec fn is_blank(line: Seq<char>) -> bool {
    forall|k: int| 0 <= k < line.len() ==> is_white_space(#[trigger] line[k])
}

/// No character that means something to the scanner is white space, but the
/// newline is.
pub proof fn lemma_white_space_marks()
    ensures
        is_white_space('\n'),
        !is_white_space('\\'),
        !is_white_space('/'),
        !is_white_space('*'),
        !is_white_space('`'),
        !is_white_space('"'),
        !is_white_space('\''),
{
}

/// Trusted: `char::is_whitespace` answers whether the character has the
/// Unicode property `White_Space`, whose members `is_white_space` lists.
pub assume_specification[ char::is_whitespace ](c: char) -> (b: bool)
    ensures
        b == is_white_space(c),
;

/// Trusted: `String::push` appends the character to the end of the string.
pub assume_specification[ String::push ](s: &mut String, ch: char)
    ensures
        final(s)@ == old(s)@.push(ch),
;

/// The characters of `s`, in order.
pub fn chars_of(s: &str) -> (r: Vec<char>)
    ensures
        r@ == s@,
{
    let mut out: Vec<char> = Vec::new();
    for c in it: s.chars()
        invariant
            out@ == it.seq().take(it.index()),
    {
        out.push(c);
    }
    out
}

/// The string made of the characters of `chars`, in order.
pub fn string_of(chars: &[char]) -> (r: String)
    ensures
        r@ == chars@,
{
    let n = chars.len();
    let mut out = String::new();
    let mut i: usize = 0;
    while i < n
        invariant
            n == chars@.len(),
            i <= n,
            out@ == chars@.take(i as int),
        decreases n - i,
    {
        out.push(chars[i]);
        i += 1;
    }
    out
}

/// Appends `src[start..end]` to `out`.
pub fn push_range(out: &mut Vec<char>, src: &[char], start: usize, end: usize)
    requires
        start <= end <= src@.len(),
    ensures
        final(out)@ == old(out)@ + src@.subrange(start as int, end as int),
{
    let mut i: usize = start;
    while i < end
        invariant
            start <= i <= end <= src@.len(),
            out@ == old(out)@ + src@.subrange(start as int, i as int),
        decreases end - i,
    {
        out.push(src[i]);
        i += 1;
    }
}

/// Whether `src[start..end]` is empty or holds white space only.
pub fn is_blank_range(src: &[char], start: usize, end: usize) -> (r: bool)
    requires
        start <= end <= src@.len(),
    ensures
        r == is_blank(src@.subrange(start as int, end as int)),
{
    let mut i: usize = start;
    while i < end
        invariant
            start <= i <= end <= src@.len(),
            is_blank(src@.subrange(start as int, i as int)),
        decreases end - i,
    {
        if !src[i].is_whitespace() {
            assert(src@.subrange(start as int, end as int)[i - start] == src@[i as int]);
            return false;
        }
        i += 1;
        assert forall|k: int| 0 <= k < i - start implies is_white_space(
            #[trigger] src@.subrange(start as int, i as int)[k],
        ) by {
            if k < i - 1 - start {
                assert(src@.subrange(start as int, i - 1)[k] == src@[start + k]);
            }
        }
    }
    true
}

} // verus!
