use keysnip::assemble::logical_lines;
use keysnip::text::{chars_of, split_lines, whitespace};

fn joined(text: &str) -> (Vec<String>, bool) {
    let lines = logical_lines(text);
    (lines.lines, lines.pending)
}

fn physical(text: &str) -> Vec<String> {
    split_lines(&chars_of(text)).into_iter().map(|l| l.into_iter().collect()).collect()
}

#[test]
fn lines_without_backslash_stay_apart() {
    assert_eq!(joined("a\nb\n"), (vec!["a".to_string(), "b".to_string()], false));
}

#[test]
fn backslash_joins_and_trims_the_next_line() {
    assert_eq!(joined("one \\\n \t two"), (vec!["one two".to_string()], false));
}

#[test]
fn leading_whitespace_stays_without_continuation() {
    assert_eq!(joined("  a\n  b"), (vec!["  a".to_string(), "  b".to_string()], false));
}

#[test]
fn double_backslash_keeps_one_and_still_joins() {
    assert_eq!(joined("a\\\\\nb"), (vec!["a\\b".to_string()], false));
}

#[test]
fn backslash_before_space_does_not_join() {
    assert_eq!(joined("a\\ \nb"), (vec!["a\\ ".to_string(), "b".to_string()], false));
}

#[test]
fn continued_line_of_only_whitespace_and_backslash_goes_on() {
    assert_eq!(joined("a\\\n   \\\nb"), (vec!["ab".to_string()], false));
}

#[test]
fn continuation_at_the_end_is_pending() {
    assert_eq!(joined("a\nb\\"), (vec!["a".to_string(), "b".to_string()], true));
    assert_eq!(joined("\\"), (vec!["".to_string()], true));
}

#[test]
fn empty_text_has_no_lines() {
    assert_eq!(joined(""), (vec![], false));
}

#[test]
fn physical_lines_agree_with_the_standard_splitter() {
    let texts = [
        "", "a", "a\n", "a\nb", "a\r\nb\r\n", "\n", "\n\n", "a\r", "a\r\r\n", "\r\n", "a\n\nb",
        "x\ry\nz", "é\nü\r\n",
    ];
    for text in texts {
        let expected: Vec<String> = std::io::BufRead::lines(text.as_bytes())
            .map(|l| l.unwrap())
            .collect();
        assert_eq!(physical(text), expected, "{:?}", text);
    }
}

#[test]
fn whitespace_agrees_with_the_standard_test() {
    let mut code: u32 = 0;
    while code <= 0x11000 {
        if let Some(ch) = char::from_u32(code) {
            assert_eq!(whitespace(ch), ch.is_whitespace(), "{:x}", code);
        }
        code += 1;
    }
}
