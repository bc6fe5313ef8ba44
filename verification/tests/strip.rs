use decomment::strip::{remove_comments, strip, strip_chars};

#[test]
fn end_to_end_example() {
    let input = "const x = 1; // set x\n/* block\n   comment */\nconst s = \"// not a comment\";";
    let expected = "const x = 1; \n\nconst s = \"// not a comment\";";
    assert_eq!(remove_comments(input), expected);
}

#[test]
fn end_to_end_example_reports_no_warning() {
    let input = "const x = 1; // set x\n/* block\n   comment */\nconst s = \"// not a comment\";";
    let r = strip(input);
    assert!(!r.unterminated_comment);
    assert_eq!(r.text, "const x = 1; \n\nconst s = \"// not a comment\";");
}

#[test]
fn unterminated_block_comment_drops_the_rest() {
    let r = strip("code /* never closed");
    assert_eq!(r.text, "code ");
    assert!(r.unterminated_comment);
}

#[test]
fn unterminated_block_comment_swallows_later_lines() {
    let r = strip("a\n/* open\nb\nc // d\n\"e\"");
    assert_eq!(r.text, "a\n");
    assert!(r.unterminated_comment);
}

#[test]
fn slash_star_slash_does_not_close_itself() {
    let r = strip("x/*/y");
    assert_eq!(r.text, "x");
    assert!(r.unterminated_comment);
}

#[test]
fn empty_input_gives_empty_output() {
    let r = strip("");
    assert_eq!(r.text, "");
    assert!(!r.unterminated_comment);
}

#[test]
fn line_comment_is_removed_and_newline_kept() {
    assert_eq!(remove_comments("a // b\nc"), "a \nc");
}

#[test]
fn line_comment_at_end_of_input_is_dropped() {
    assert_eq!(remove_comments("let a = 1; // trailing"), "let a = 1; ");
}

#[test]
fn input_that_is_one_line_comment() {
    assert_eq!(remove_comments("// only"), "");
    assert_eq!(remove_comments("//"), "");
}

#[test]
fn block_comment_on_one_line_keeps_surrounding_code() {
    assert_eq!(remove_comments("a /* b */ c"), "a  c");
}

#[test]
fn block_comment_over_several_lines_is_removed() {
    assert_eq!(remove_comments("a /* b\nc\nd */ e"), "a  e");
}

#[test]
fn empty_block_comment_is_removed() {
    assert_eq!(remove_comments("a/**/b"), "ab");
}

#[test]
fn block_comments_do_not_nest() {
    assert_eq!(remove_comments("/* /* */ x */"), " x */");
}

#[test]
fn block_comment_ending_in_stars() {
    assert_eq!(remove_comments("/***/x"), "x");
    assert_eq!(remove_comments("/* a **/x"), "x");
}

#[test]
fn line_comment_hides_block_opener() {
    assert_eq!(remove_comments("a // /* b\nc */ d"), "a \nc */ d");
}

#[test]
fn block_comment_hides_line_opener() {
    assert_eq!(remove_comments("a /* // */ b\nc"), "a  b\nc");
}

#[test]
fn division_is_not_a_comment() {
    assert_eq!(remove_comments("a / b / c"), "a / b / c");
    assert_eq!(remove_comments("a /"), "a /");
}

#[test]
fn double_quoted_string_keeps_markers() {
    let src = "let s = \"// not /* a */ comment\";";
    assert_eq!(remove_comments(src), src);
}

#[test]
fn single_quoted_string_keeps_markers() {
    let src = "let s = '/* still */ // text';";
    assert_eq!(remove_comments(src), src);
}

#[test]
fn template_literal_keeps_markers() {
    let src = "let s = `// ${a} /* b */`;";
    assert_eq!(remove_comments(src), src);
}

#[test]
fn template_literal_over_lines_keeps_markers() {
    let src = "`a // b\nc /* d */\ne`";
    assert_eq!(remove_comments(src), src);
}

#[test]
fn escaped_quote_does_not_end_the_string() {
    let src = "\"a\\\"b\"";
    assert_eq!(remove_comments(src), src);
}

#[test]
fn escaped_quote_keeps_following_markers_inside_the_string() {
    let src = "x = \"a\\\" // b\"; // c";
    assert_eq!(remove_comments(src), "x = \"a\\\" // b\"; ");
}

#[test]
fn escaped_backslash_lets_the_quote_close() {
    let src = "\"a\\\\\" // c";
    assert_eq!(remove_comments(src), "\"a\\\\\" ");
}

#[test]
fn escaped_backtick_does_not_end_the_template() {
    let src = "`a\\` // b` // c";
    assert_eq!(remove_comments(src), "`a\\` // b` ");
}

#[test]
fn other_quote_inside_a_string_is_content() {
    let src = "\"it's // here\" // gone";
    assert_eq!(remove_comments(src), "\"it's // here\" ");
    let src2 = "'say \"/*\"' /* gone */";
    assert_eq!(remove_comments(src2), "'say \"/*\"' ");
}

#[test]
fn backslash_in_code_escapes_nothing() {
    assert_eq!(remove_comments("a \\// b\nc"), "a \\\nc");
}

#[test]
fn unterminated_string_is_copied_to_the_end() {
    let src = "let s = \"open // not a comment\nnext /* line */";
    let r = strip(src);
    assert_eq!(r.text, src);
    assert!(!r.unterminated_comment);
}

#[test]
fn unterminated_template_is_copied_to_the_end() {
    let src = "`open // x\n/* y */";
    assert_eq!(remove_comments(src), src);
}

#[test]
fn string_ending_in_a_backslash_at_end_of_input() {
    let src = "\"abc\\";
    assert_eq!(remove_comments(src), src);
}

#[test]
fn regex_literals_are_scanned_as_code() {
    assert_eq!(remove_comments("let r = /a//b/;\nnext"), "let r = /a\nnext");
}

#[test]
fn three_blank_lines_become_one() {
    assert_eq!(remove_comments("a\n\n\n\nb"), "a\n\nb");
}

#[test]
fn one_blank_line_is_left() {
    assert_eq!(remove_comments("a\n\nb"), "a\n\nb");
}

#[test]
fn no_blank_line_is_left() {
    assert_eq!(remove_comments("a\nb"), "a\nb");
}

#[test]
fn removed_comments_leave_one_blank_line() {
    assert_eq!(remove_comments("a\n// x\n// y\n// z\nb"), "a\n\nb");
    assert_eq!(remove_comments("a\n/* x */\n  \n/* y */\nb"), "a\n\nb");
}

#[test]
fn trailing_blank_lines_are_capped_at_one() {
    assert_eq!(remove_comments("a\n\n\n\n"), "a\n");
    assert_eq!(remove_comments("a\n"), "a\n");
    assert_eq!(remove_comments("a"), "a");
}

#[test]
fn blank_lines_inside_a_template_are_collapsed_too() {
    assert_eq!(remove_comments("`a\n\n\n\nb`"), "`a\n\nb`");
}

#[test]
fn stripping_twice_changes_nothing() {
    let inputs = [
        "",
        "a",
        "a\n",
        "a\n\n\n",
        "\n\n\na",
        "const x = 1; // set x\n/* block\n   comment */\nconst s = \"// not a comment\";",
        "code /* never closed",
        "a /* b */ / c",
        "a /**/ /**/ b",
        "/**//x",
        "a\n\"b\\\n\n\n\nc\" // d\n\n\n",
        "`t\n  \n\t\n//x\n` /* y */ '//z'\r\n\r\n\r\nend",
        "x = a / b; // c\n\n\n\ny = '/*'; /* d */\n",
        "let r = /a//b/;\nnext",
        "\"open // s\n\n\n/* c */",
    ];
    for input in inputs.iter() {
        let once = remove_comments(input);
        let twice = remove_comments(&once);
        assert_eq!(twice, once);
        assert!(!strip(&once).unterminated_comment);
    }
}

#[test]
fn strip_chars_agrees_with_strip() {
    let src = "a /* b */ c // d\n\n\n\n'e // f'";
    let input: Vec<char> = src.chars().collect();
    let r = strip_chars(&input);
    let text: String = r.text.iter().collect();
    assert_eq!(text, "a  c \n\n'e // f'");
    assert_eq!(text, strip(src).text);
    assert!(!r.unterminated_comment);
}

#[test]
fn non_ascii_text_is_kept() {
    assert_eq!(remove_comments("let s = \"héllo // wörld\"; // ünïcode\nπ /* ∑ */ ≠"), "let s = \"héllo // wörld\"; \nπ  ≠");
}
