use indexmap::IndexMap;
use keysnip::part::LinePart::{Arg, Delay, KeyCombo, Text};
use keysnip::part::{Key, Keymap};
use keysnip::parse::snippet_line;
use keysnip::render::{render_arg, render_combo, render_delay};

#[test]
fn argument_literal_reads_back() {
    for name in ["x", "arg1", "a:b", "with space", "é:"] {
        let literal = render_arg(name);
        assert_eq!(literal, format!("$@{}$", name));
        let mut lines = Vec::new();
        let mut defaults = IndexMap::new();
        let mut diagnostics = Vec::new();
        snippet_line(&literal, &Keymap::new(), &mut lines, &mut defaults, &mut diagnostics)
            .unwrap();
        assert_eq!(lines, vec![vec![Text(String::new()), Arg(name.to_string())]]);
        assert!(defaults.is_empty());
        assert!(diagnostics.is_empty());
    }
}

#[test]
fn combo_literal_reads_back() {
    let mut keys = Keymap::new();
    for name in ["Control", "Alt", "F1"] {
        keys.bind(name, &Key::new(name));
    }
    let combos: [&[&str]; 4] = [&[], &["Alt"], &["Control", "Alt"], &["F1", "Control", "F1"]];
    for names in combos {
        let combo: Vec<Key> = names.iter().map(|n| Key::new(n)).collect();
        let literal = render_combo(&combo);
        assert_eq!(literal, format!("$!{}$", names.join("+")));
        let mut lines = Vec::new();
        let mut defaults = IndexMap::new();
        let mut diagnostics = Vec::new();
        snippet_line(&literal, &keys, &mut lines, &mut defaults, &mut diagnostics).unwrap();
        assert_eq!(lines, vec![vec![Text(String::new()), KeyCombo(combo)]]);
        assert!(diagnostics.is_empty());
    }
}

#[test]
fn delay_literal_reads_back() {
    for millis in [0, 7, 10, 250, 1000, u64::MAX] {
        let literal = render_delay(millis);
        assert_eq!(literal, format!("$'{}$", millis));
        let mut lines = Vec::new();
        let mut defaults = IndexMap::new();
        let mut diagnostics = Vec::new();
        snippet_line(&literal, &Keymap::new(), &mut lines, &mut defaults, &mut diagnostics)
            .unwrap();
        assert_eq!(lines, vec![vec![Text(String::new()), Delay(millis)]]);
        assert!(diagnostics.is_empty());
    }
}

#[test]
fn plain_text_stands_for_itself() {
    for line in ["hello", "a $ b", "100$", "$$", "$ @", "x$"] {
        let mut lines = Vec::new();
        let mut defaults = IndexMap::new();
        let mut diagnostics = Vec::new();
        snippet_line(line, &Keymap::new(), &mut lines, &mut defaults, &mut diagnostics).unwrap();
        assert_eq!(lines, vec![vec![Text(line.to_string())]]);
        assert!(diagnostics.is_empty());
    }
}
