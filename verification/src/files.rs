//! Which files the stripper applies to, judged by file extension.

use std::path::Path;
use vstd::prelude::*;
use crate::text::chars_of;

verus! {

/// Trusted: `std::path::Path`, carried through as an opaque value.
#[verifier::external_type_specification]
#[verifier::external_body]
pub struct ExPath(Path);

/// What `Path::extension` returns for the path, as text.
pub uninterp spec fn extension_of(path: &Path) -> Option<Seq<char>>;

/// What `str::to_lowercase` returns for the text.
pub uninterp spec fn lowercase_of(s: Seq<char>) -> Seq<char>;

/// The extensions of JavaScript and TypeScript files: `js`, `ts`, `jsx`, `tsx`.
pub open spec fn is_script_extension(ext: Seq<char>) -> bool {
    ||| ext == seq!['j', 's']
    ||| ext == seq!['t', 's']
    ||| ext == seq!['j', 's', 'x']
    ||| ext == seq!['t', 's', 'x']
}

/// Whether a path with this extension names a JavaScript or TypeScript file.
pub open spec fn names_script(extension: Option<Seq<char>>) -> bool {
    match extension {
        Some(ext) => is_script_extension(lowercase_of(ext)),
        None => false,
    }
}

/// Trusted: calls `Path::extension` and turns the extension into a string
/// with `OsStr::to_string_lossy`. The contract only gives the result its name.
#[verifier::external_body]
fn path_extension(path: &Path) -> (r: Option<String>)
    ensures
        r.deep_view() == extension_of(path),
{
    match path.extension() {
        Some(ext) => Some(ext.to_string_lossy().into_owned()),
        None => None,
    }
}

/// Trusted: calls `str::to_lowercase`. The contract only gives the result
/// its name.
#[verifier::external_body]
fn lowercase(s: &str) -> (r: String)
    ensures
        r@ == lowercase_of(s@),
{
    s.to_lowercase()
}

/// Whether `ext`, taken letter for letter, is one of `js`, `ts`, `jsx`, `tsx`.
pub fn is_script_extension_exact(ext: &str) -> (r: bool)
    ensures
        r == is_script_extension(ext@),
{
    let c = chars_of(ext);
    let n = c.len();
    proof {
        assert(seq!['j', 's'].len() == 2 && seq!['t', 's'].len() == 2);
        assert(seq!['j', 's', 'x'].len() == 3 && seq!['t', 's', 'x'].len() == 3);
        assert(seq!['j', 's'][0] == 'j' && seq!['j', 's'][1] == 's');
        assert(seq!['t', 's'][0] == 't' && seq!['t', 's'][1] == 's');
        assert(seq!['j', 's', 'x'][0] == 'j' && seq!['j', 's', 'x'][1] == 's' && seq![
            'j',
            's',
            'x',
        ][2] == 'x');
        assert(seq!['t', 's', 'x'][0] == 't' && seq!['t', 's', 'x'][1] == 's' && seq![
            't',
            's',
            'x',
        ][2] == 'x');
    }
    if n == 2 {
        let r = (c[0] == 'j' || c[0] == 't') && c[1] == 's';
        proof {
            if c[0] == 'j' && c[1] == 's' {
                assert(c@ =~= seq!['j', 's']);
            }
            if c[0] == 't' && c[1] == 's' {
                assert(c@ =~= seq!['t', 's']);
            }
        }
        r
    } else if n == 3 {
        let r = (c[0] == 'j' || c[0] == 't') && c[1] == 's' && c[2] == 'x';
        proof {
            if c[0] == 'j' && c[1] == 's' && c[2] == 'x' {
                assert(c@ =~= seq!['j', 's', 'x']);
            }
            if c[0] == 't' && c[1] == 's' && c[2] == 'x' {
                assert(c@ =~= seq!['t', 's', 'x']);
            }
        }
        r
    } else {
        false
    }
}

/// Whether `ext`, once lowercased, is one of `js`, `ts`, `jsx`, `tsx`.
pub fn has_script_extension(ext: &str) -> (r: bool)
    ensures
        r == is_script_extension(lowercase_of(ext@)),
{
    let lowered = lowercase(ext);
    is_script_extension_exact(lowered.as_str())
}

/// Whether the path names a JavaScript or TypeScript file: it has an
/// extension, and that extension is `js`, `ts`, `jsx` or `tsx` in any case.
pub fn is_js_or_ts_file(path: &Path) -> (r: bool)
    ensures
        r == names_script(extension_of(path)),
{
    match path_extension(path) {
        Some(ext) => has_script_extension(ext.as_str()),
        None => false,
    }
}

} // verus!
