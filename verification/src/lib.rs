//! Strips comments from JavaScript and TypeScript source text while keeping
//! the contents of strings and template literals untouched.

pub mod files;
pub mod lines;
pub mod lines_laws;
pub mod scan;
pub mod scan_laws;
pub mod strip;
pub mod strip_laws;
pub mod text;
