use decomment::scan::{find_block_close, find_newline, scan_comments, Mode, ScanState};

fn chars(s: &str) -> Vec<char> {
    s.chars().collect()
}

fn text(v: &[char]) -> String {
    v.iter().collect()
}

#[test]
fn scan_keeps_every_blank_line() {
    let r = scan_comments(&chars("a\n// x\n// y\n// z\nb\n\n\n"));
    assert_eq!(text(&r.text), "a\n\n\n\nb\n\n\n");
    assert!(!r.unterminated_comment);
}

#[test]
fn scan_reports_the_unterminated_comment() {
    let r = scan_comments(&chars("code /* never closed"));
    assert_eq!(text(&r.text), "code ");
    assert!(r.unterminated_comment);
}

#[test]
fn scan_of_closed_comment_reports_nothing() {
    let r = scan_comments(&chars("/* closed */"));
    assert_eq!(text(&r.text), "");
    assert!(!r.unterminated_comment);
}

#[test]
fn scan_output_scans_to_itself() {
    let inputs = ["a /* b */ / c", "/**//x", "a/**/b", "x // y\n/ /z", "'/*' /* */ \"//\" //"];
    for input in inputs.iter() {
        let once = scan_comments(&chars(input));
        let twice = scan_comments(&once.text);
        assert_eq!(twice.text, once.text);
        assert!(!twice.unterminated_comment);
    }
}

#[test]
fn find_newline_finds_the_first_one() {
    let t = chars("ab\ncd\n");
    assert_eq!(find_newline(&t, 0), 2);
    assert_eq!(find_newline(&t, 2), 2);
    assert_eq!(find_newline(&t, 3), 5);
    assert_eq!(find_newline(&t, 6), 6);
    assert_eq!(find_newline(&chars("abc"), 1), 3);
    assert_eq!(find_newline(&chars(""), 0), 0);
}

#[test]
fn find_block_close_finds_the_first_one() {
    let t = chars("a*/b*/");
    assert_eq!(find_block_close(&t, 0), 1);
    assert_eq!(find_block_close(&t, 1), 1);
    assert_eq!(find_block_close(&t, 2), 4);
    assert_eq!(find_block_close(&t, 5), 6);
    assert_eq!(find_block_close(&chars("a*"), 0), 2);
    assert_eq!(find_block_close(&chars("a/*"), 0), 3);
    assert_eq!(find_block_close(&chars(""), 0), 0);
}

#[test]
fn fresh_state_is_plain_code() {
    let st = ScanState::new();
    assert_eq!(st.mode, Mode::Code);
    assert!(!st.escape_next);
    assert!(st.recognizes_comments());
}

#[test]
fn quotes_open_and_close_strings() {
    let code = ScanState::new();
    let double = code.advance('"');
    assert_eq!(double, ScanState { mode: Mode::InString('"'), escape_next: false });
    assert!(!double.recognizes_comments());
    assert_eq!(double.advance('\''), double);
    assert_eq!(double.advance('`'), double);
    assert_eq!(double.advance('/'), double);
    assert_eq!(double.advance('"'), code);
    let single = code.advance('\'');
    assert_eq!(single, ScanState { mode: Mode::InString('\''), escape_next: false });
    assert_eq!(single.advance('"'), single);
    assert_eq!(single.advance('\''), code);
}

#[test]
fn backticks_open_and_close_templates() {
    let code = ScanState::new();
    let template = code.advance('`');
    assert_eq!(template, ScanState { mode: Mode::InTemplateLiteral, escape_next: false });
    assert!(!template.recognizes_comments());
    assert_eq!(template.advance('"'), template);
    assert_eq!(template.advance('`'), code);
}

#[test]
fn backslash_escapes_the_next_character_inside_literals_only() {
    let code = ScanState::new();
    assert_eq!(code.advance('\\'), code);
    let inside = code.advance('"');
    let pending = inside.advance('\\');
    assert_eq!(pending, ScanState { mode: Mode::InString('"'), escape_next: true });
    assert!(!pending.recognizes_comments());
    assert_eq!(pending.advance('"'), inside);
    assert_eq!(pending.advance('\\'), inside);
    assert_eq!(pending.advance('x'), inside);
    let template = code.advance('`');
    let pending_t = template.advance('\\');
    assert_eq!(pending_t, ScanState { mode: Mode::InTemplateLiteral, escape_next: true });
    assert_eq!(pending_t.advance('`'), template);
}

#[test]
fn other_characters_leave_plain_code() {
    let code = ScanState::new();
    for c in ['a', '/', '*', '\n', ' ', '\\', 'π'].iter() {
        assert_eq!(code.advance(*c), code);
    }
}
