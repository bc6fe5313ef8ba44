use decomment::lines::collapse_blank_lines;

fn collapse(s: &str) -> String {
    let input: Vec<char> = s.chars().collect();
    collapse_blank_lines(&input).iter().collect()
}

#[test]
fn text_without_blank_lines_is_unchanged() {
    assert_eq!(collapse(""), "");
    assert_eq!(collapse("a"), "a");
    assert_eq!(collapse("a\nb\nc"), "a\nb\nc");
    assert_eq!(collapse("a\nb\n"), "a\nb\n");
}

#[test]
fn single_blank_lines_are_unchanged() {
    assert_eq!(collapse("a\n\nb\n\nc"), "a\n\nb\n\nc");
    assert_eq!(collapse("\na"), "\na");
    assert_eq!(collapse("a\n  \nb"), "a\n  \nb");
}

#[test]
fn runs_of_blank_lines_become_one() {
    assert_eq!(collapse("a\n\n\nb"), "a\n\nb");
    assert_eq!(collapse("a\n\n\n\n\n\nb"), "a\n\nb");
    assert_eq!(collapse("a\n\n\nb\n\n\n\nc"), "a\n\nb\n\nc");
}

#[test]
fn the_first_line_of_a_run_is_the_one_kept() {
    assert_eq!(collapse("a\n \n\t\n\nb"), "a\n \nb");
    assert_eq!(collapse("a\n\n   \nb"), "a\n\nb");
}

#[test]
fn leading_blank_lines_become_one() {
    assert_eq!(collapse("\n\n\na"), "\na");
    assert_eq!(collapse("  \n\na"), "  \na");
}

#[test]
fn trailing_blank_lines_become_one() {
    assert_eq!(collapse("a\n\n\n"), "a\n");
    assert_eq!(collapse("a\n\n"), "a\n");
    assert_eq!(collapse("a\n"), "a\n");
}

#[test]
fn only_blank_lines_become_one() {
    assert_eq!(collapse("\n"), "");
    assert_eq!(collapse("\n\n\n"), "");
    assert_eq!(collapse(" \n\t\n"), " ");
}

#[test]
fn lines_with_text_keep_their_white_space() {
    assert_eq!(collapse("  a  \n\n\n\tb\t"), "  a  \n\n\tb\t");
}

#[test]
fn carriage_returns_count_as_white_space() {
    assert_eq!(collapse("a\r\n\r\n\r\n\r\nb\r\n"), "a\r\n\r\nb\r\n");
}

#[test]
fn collapsing_twice_changes_nothing() {
    let inputs = ["", "\n", "a\n\n\n", "\n\n\na\n \n\t\nb\n\n", "a\r\n\r\n\r\nb", " \n \n "];
    for input in inputs.iter() {
        let once = collapse(input);
        assert_eq!(collapse(&once), once);
    }
}

#[test]
fn blank_means_unicode_white_space() {
    let white: [u32; 25] = [
        0x09, 0x0A, 0x0B, 0x0C, 0x0D, 0x20, 0x85, 0xA0, 0x1680, 0x2000, 0x2001, 0x2002, 0x2003,
        0x2004, 0x2005, 0x2006, 0x2007, 0x2008, 0x2009, 0x200A, 0x2028, 0x2029, 0x202F, 0x205F,
        0x3000,
    ];
    let mut code: u32 = 0;
    while code <= 0x10FFFF {
        if let Some(c) = char::from_u32(code) {
            if c != '\n' {
                let input: Vec<char> = vec![c, '\n', c];
                let out = collapse_blank_lines(&input);
                if white.contains(&code) {
                    assert_eq!(out, vec![c]);
                } else {
                    assert_eq!(out, input);
                }
            }
        }
        code += 1;
    }
}
