use decomment::files::{has_script_extension, is_js_or_ts_file, is_script_extension_exact};
use std::path::Path;

#[test]
fn the_four_extensions_are_accepted() {
    assert!(is_js_or_ts_file(Path::new("a.js")));
    assert!(is_js_or_ts_file(Path::new("a.ts")));
    assert!(is_js_or_ts_file(Path::new("a.jsx")));
    assert!(is_js_or_ts_file(Path::new("a.tsx")));
}

#[test]
fn the_case_of_the_extension_does_not_matter() {
    assert!(is_js_or_ts_file(Path::new("dir/App.JS")));
    assert!(is_js_or_ts_file(Path::new("dir/App.Tsx")));
    assert!(is_js_or_ts_file(Path::new("dir/App.jSx")));
}

#[test]
fn other_extensions_are_refused() {
    assert!(!is_js_or_ts_file(Path::new("a.rs")));
    assert!(!is_js_or_ts_file(Path::new("a.json")));
    assert!(!is_js_or_ts_file(Path::new("a.mjs")));
    assert!(!is_js_or_ts_file(Path::new("a.js.bak")));
    assert!(!is_js_or_ts_file(Path::new("a.j")));
    assert!(!is_js_or_ts_file(Path::new("a.tsxx")));
}

#[test]
fn only_the_last_extension_counts() {
    assert!(is_js_or_ts_file(Path::new("a.test.ts")));
    assert!(is_js_or_ts_file(Path::new("src.d/b.min.js")));
    assert!(!is_js_or_ts_file(Path::new("pkg.js/readme")));
}

#[test]
fn paths_without_extension_are_refused() {
    assert!(!is_js_or_ts_file(Path::new("js")));
    assert!(!is_js_or_ts_file(Path::new(".js")));
    assert!(!is_js_or_ts_file(Path::new("dir/ts")));
    assert!(!is_js_or_ts_file(Path::new("")));
    assert!(!is_js_or_ts_file(Path::new("a.")));
}

#[test]
fn has_script_extension_lowercases_first() {
    assert!(has_script_extension("js"));
    assert!(has_script_extension("JS"));
    assert!(has_script_extension("Ts"));
    assert!(has_script_extension("JSX"));
    assert!(has_script_extension("tSx"));
    assert!(!has_script_extension(""));
    assert!(!has_script_extension("jsm"));
    assert!(!has_script_extension(".js"));
}

#[test]
fn exact_match_is_case_sensitive() {
    assert!(is_script_extension_exact("js"));
    assert!(is_script_extension_exact("ts"));
    assert!(is_script_extension_exact("jsx"));
    assert!(is_script_extension_exact("tsx"));
    assert!(!is_script_extension_exact("JS"));
    assert!(!is_script_extension_exact("Ts"));
    assert!(!is_script_extension_exact("jx"));
    assert!(!is_script_extension_exact("tsy"));
    assert!(!is_script_extension_exact("sx"));
    assert!(!is_script_extension_exact(""));
    assert!(!is_script_extension_exact("jsxx"));
}
