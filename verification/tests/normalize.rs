use indexmap::IndexMap;
use keysnip::normalize::normalize_line;
use keysnip::parse::snippet_line;
use keysnip::part::LinePart::{Arg, Delay, KeyCombo, Text};
use keysnip::part::{Key, Keymap, LinePart};

fn text(s: &str) -> LinePart {
    Text(s.to_string())
}

#[test]
fn runs_of_text_become_one_text() {
    let line = vec![text("a"), text(""), text("b"), Arg("x".to_string()), text("c"), text("d")];
    assert_eq!(normalize_line(&line), vec![text("ab"), Arg("x".to_string()), text("cd")]);
}

#[test]
fn empty_text_at_the_end_is_dropped() {
    assert_eq!(normalize_line(&vec![Delay(5), text("")]), vec![Delay(5)]);
    assert_eq!(normalize_line(&vec![Delay(5), text(""), text("")]), vec![Delay(5)]);
    assert_eq!(normalize_line(&vec![text("")]), vec![]);
    assert_eq!(normalize_line(&vec![]), vec![]);
}

#[test]
fn empty_text_inside_stays() {
    let line = vec![text(""), Arg("x".to_string()), text(""), KeyCombo(vec![Key::new("Alt")])];
    assert_eq!(normalize_line(&line), line);
}

#[test]
fn normalizing_twice_is_normalizing_once() {
    let lines = vec![
        vec![],
        vec![text("")],
        vec![text("a"), text("b"), text("")],
        vec![text(""), text(""), Arg("x".to_string()), text(""), text("")],
        vec![Delay(1), text("a"), text(""), text("b"), KeyCombo(vec![]), text("")],
        vec![Arg("x".to_string()), Arg("y".to_string())],
    ];
    for line in lines {
        let once = normalize_line(&line);
        assert_eq!(normalize_line(&once), once);
    }
}

#[test]
fn parsed_lines_are_normal() {
    let mut keys = Keymap::new();
    keys.bind("alt", &Key::new("Alt"));
    for line in ["", "a", "$@x$", "$@x$$@y$ ", "a$@$b$'5$$!alt$", "$!alt", "x$@y::z", "$@"] {
        let mut lines = Vec::new();
        let mut defaults = IndexMap::new();
        let mut diagnostics = Vec::new();
        snippet_line(line, &keys, &mut lines, &mut defaults, &mut diagnostics).unwrap();
        assert_eq!(normalize_line(&lines[0]), lines[0], "{:?}", line);
    }
}
