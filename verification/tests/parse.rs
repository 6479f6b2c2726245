use indexmap::IndexMap;
use keysnip::diagnostic::Diagnostic;
use keysnip::error::SnippetError;
use keysnip::parse::{key_tokens, parse_delay_body, snippet, snippet_line, Snippet};
use keysnip::part::LinePart::{Arg, Delay, KeyCombo, Text};
use keysnip::part::{Key, Keymap, LinePart};

fn keys() -> Keymap {
    let mut keys = Keymap::new();
    keys.bind("ctrl", &Key::new("Control"));
    keys.bind("Control", &Key::new("Control"));
    keys.bind("alt", &Key::new("Alt"));
    keys.bind("Tab", &Key::new("Tab"));
    keys
}

fn parse(line: &str) -> (Result<Vec<LinePart>, SnippetError>, IndexMap<String, String>, Vec<Diagnostic>) {
    let mut lines = Vec::new();
    let mut defaults = IndexMap::new();
    let mut diagnostics = Vec::new();
    let result = snippet_line(line, &keys(), &mut lines, &mut defaults, &mut diagnostics);
    match result {
        Ok(()) => {
            assert_eq!(lines.len(), 1);
            (Ok(lines.remove(0)), defaults, diagnostics)
        }
        Err(e) => {
            assert!(lines.is_empty());
            (Err(e), defaults, diagnostics)
        }
    }
}

fn text(s: &str) -> LinePart {
    Text(s.to_string())
}

fn arg(s: &str) -> LinePart {
    Arg(s.to_string())
}

fn combo(names: &[&str]) -> LinePart {
    KeyCombo(names.iter().map(|n| Key::new(n)).collect())
}

#[test]
fn test_snippet_line() {
    let text = "test $@arg1::a$ $@$ $@arg2$";

    let mut lines = Vec::new();
    let mut defaults = IndexMap::new();
    let mut diagnostics: Vec<Diagnostic> = Vec::new();
    snippet_line(
        text,
        &Keymap::new(),
        &mut lines,
        &mut defaults,
        &mut diagnostics,
    )
    .unwrap();

    assert_eq!(
        lines,
        [[
            Text("test ".to_string()),
            Arg("arg1".to_string()),
            Text(" $@ ".to_string()),
            Arg("arg2".to_string())
        ]]
    );
    assert_eq!(
        defaults,
        IndexMap::from([("arg1".to_string(), "a".to_string())])
    );
}

#[test]
fn test_snippet() {
    let text = "\
        test $@arg1$ $@arg2::a$ $@$ $@arg3$\n\
        test $@arg3$ $ $@arg1::b$ $@arg2$";

    let mut diagnostics: Vec<Diagnostic> = Vec::new();
    let Snippet { lines, defaults } = snippet(text, &Keymap::new(), &mut diagnostics).unwrap();

    assert_eq!(
        lines,
        [
            &[
                Text("test ".to_string()),
                Arg("arg1".to_string()),
                Text(" ".to_string()),
                Arg("arg2".to_string()),
                Text(" $@ ".to_string()),
                Arg("arg3".to_string()),
            ][..],
            &[
                Text("test ".to_string()),
                Arg("arg3".to_string()),
                Text(" $ ".to_string()),
                Arg("arg1".to_string()),
                Text(" ".to_string()),
                Arg("arg2".to_string()),
            ]
        ]
    );
    assert_eq!(
        defaults,
        IndexMap::from([
            ("arg2".to_string(), "a".to_string()),
            ("arg1".to_string(), "b".to_string())
        ])
    );
}

#[test]
fn defaults_keep_the_order_of_first_declaration() {
    let text = "$@arg2::a$ $@arg1::x$\n$@arg1::b$ $@arg2::c$";
    let mut diagnostics = Vec::new();
    let parsed = snippet(text, &Keymap::new(), &mut diagnostics).unwrap();
    let order: Vec<(&str, &str)> =
        parsed.defaults.iter().map(|(k, v)| (k.as_str(), v.as_str())).collect();
    assert_eq!(order, vec![("arg2", "c"), ("arg1", "b")]);
    assert_eq!(
        diagnostics,
        vec![
            Diagnostic::DuplicateDefault { name: "arg1".to_string(), previous: "x".to_string() },
            Diagnostic::DuplicateDefault { name: "arg2".to_string(), previous: "a".to_string() },
        ]
    );
}

#[test]
fn unterminated_combo_closes_itself() {
    let (parts, _, diagnostics) = parse("$!ctrl+alt");
    assert_eq!(parts.unwrap(), vec![text(""), combo(&["Control", "Alt"])]);
    assert_eq!(
        diagnostics,
        vec![Diagnostic::IncompleteKeyCombo {
            tokens: vec!["ctrl".to_string(), "alt".to_string()]
        }]
    );
}

#[test]
fn combo_separators_collapse() {
    let (parts, _, diagnostics) = parse("a$! ++ctrl + alt+ $b");
    assert_eq!(parts.unwrap(), vec![text("a"), combo(&["Control", "Alt"]), text("b")]);
    assert!(diagnostics.is_empty());
}

#[test]
fn empty_combo_has_no_keys() {
    let (parts, _, diagnostics) = parse("$!$");
    assert_eq!(parts.unwrap(), vec![text(""), combo(&[])]);
    assert!(diagnostics.is_empty());
    let (parts, _, diagnostics) = parse("x$!");
    assert_eq!(parts.unwrap(), vec![text("x"), combo(&[])]);
    assert_eq!(diagnostics, vec![Diagnostic::IncompleteKeyCombo { tokens: vec![] }]);
}

#[test]
fn unknown_key_token_is_named() {
    let (parts, _, _) = parse("$!ctrl+nope+alsonot$");
    assert_eq!(parts, Err(SnippetError::UnknownKeyToken("nope".to_string())));
}

#[test]
fn aliases_give_the_same_key() {
    let (parts, _, _) = parse("$!ctrl Control$");
    assert_eq!(parts.unwrap(), vec![text(""), combo(&["Control", "Control"])]);
}

#[test]
fn delay_is_parsed_as_a_number() {
    let (parts, _, diagnostics) = parse("a$'250$b$'+7$");
    assert_eq!(parts.unwrap(), vec![text("a"), Delay(250), text("b"), Delay(7)]);
    assert!(diagnostics.is_empty());
}

#[test]
fn delay_at_end_of_line_needs_no_closer() {
    let (parts, _, diagnostics) = parse("$'100");
    assert_eq!(parts.unwrap(), vec![text(""), Delay(100)]);
    assert!(diagnostics.is_empty());
}

#[test]
fn malformed_delay_is_rejected() {
    assert_eq!(parse("$'12a$").0, Err(SnippetError::MalformedDelay("12a".to_string())));
    assert_eq!(parse("$'$").0, Err(SnippetError::MalformedDelay("".to_string())));
    assert_eq!(parse("$'-1$").0, Err(SnippetError::MalformedDelay("-1".to_string())));
    assert_eq!(parse("$' 1$").0, Err(SnippetError::MalformedDelay(" 1".to_string())));
}

#[test]
fn delay_body_agrees_with_the_standard_parser() {
    let bodies = [
        "", "+", "0", "7", "+7", "++7", "-7", "007", "1_000", " 1", "1 ", "12a", "٣",
        "18446744073709551615", "18446744073709551616", "+18446744073709551615",
        "99999999999999999999999", "184467440737095516150",
    ];
    for body in bodies {
        assert_eq!(parse_delay_body(body), body.parse::<u64>().ok(), "{:?}", body);
    }
    assert_eq!(parse_delay_body("18446744073709551615"), Some(u64::MAX));
}

#[test]
fn first_fault_in_part_order_wins() {
    assert_eq!(parse("$!nope$ $'x$").0, Err(SnippetError::UnknownKeyToken("nope".to_string())));
    assert_eq!(parse("$'x$ $!nope$").0, Err(SnippetError::MalformedDelay("x".to_string())));
}

#[test]
fn arglist_is_rejected() {
    let (parts, defaults, _) = parse("$@a::1$ $[list$ $@b::2$");
    assert_eq!(parts, Err(SnippetError::UnsupportedArglist));
    assert_eq!(defaults, IndexMap::from([("a".to_string(), "1".to_string())]));
}

#[test]
fn arglist_opener_inside_other_parts_is_plain() {
    let (parts, _, _) = parse("$@a$[$@$[");
    assert_eq!(parts.unwrap(), vec![text(""), arg("a"), text("[$@[")]);
}

#[test]
fn escape_gives_literal_text() {
    let (parts, defaults, diagnostics) = parse("$@$");
    assert_eq!(parts.unwrap(), vec![text("$@")]);
    assert!(defaults.is_empty());
    assert!(diagnostics.is_empty());
}

#[test]
fn nameless_argument_drops_its_default() {
    let (parts, defaults, diagnostics) = parse("a$@::x$b");
    assert_eq!(parts.unwrap(), vec![text("a$@b")]);
    assert!(defaults.is_empty());
    assert!(diagnostics.is_empty());
}

#[test]
fn lone_dollar_is_text() {
    let (parts, _, _) = parse("a $ b $x $");
    assert_eq!(parts.unwrap(), vec![text("a $ b $x $")]);
}

#[test]
fn empty_line_has_no_parts() {
    let (parts, _, _) = parse("");
    assert_eq!(parts.unwrap(), vec![]);
}

#[test]
fn empty_text_between_parts_stays() {
    let (parts, _, _) = parse("$@a$$@b$");
    assert_eq!(parts.unwrap(), vec![text(""), arg("a"), text(""), arg("b")]);
}

#[test]
fn incomplete_argument_closes_itself() {
    let (parts, defaults, diagnostics) = parse("x $@name::dflt");
    assert_eq!(parts.unwrap(), vec![text("x "), arg("name")]);
    assert_eq!(defaults, IndexMap::from([("name".to_string(), "dflt".to_string())]));
    assert_eq!(diagnostics, vec![Diagnostic::IncompleteArg { name: "name".to_string() }]);
}

#[test]
fn incomplete_nameless_argument_is_text() {
    let (parts, defaults, diagnostics) = parse("x $@");
    assert_eq!(parts.unwrap(), vec![text("x $@")]);
    assert!(defaults.is_empty());
    assert_eq!(diagnostics, vec![Diagnostic::IncompleteArg { name: "".to_string() }]);
}

#[test]
fn single_colon_belongs_to_the_name() {
    let (parts, defaults, _) = parse("$@a:b::c::d$");
    assert_eq!(parts.unwrap(), vec![text(""), arg("a:b")]);
    assert_eq!(defaults, IndexMap::from([("a:b".to_string(), "c::d".to_string())]));
}

#[test]
fn diagnostics_are_added_after_those_that_were_there() {
    let mut lines = Vec::new();
    let mut defaults = IndexMap::new();
    let mut diagnostics = vec![Diagnostic::PendingContinuation];
    snippet_line("$@a", &keys(), &mut lines, &mut defaults, &mut diagnostics).unwrap();
    assert_eq!(
        diagnostics,
        vec![Diagnostic::PendingContinuation, Diagnostic::IncompleteArg { name: "a".to_string() }]
    );
}

#[test]
fn continuation_joins_lines() {
    let mut diagnostics = Vec::new();
    let parsed = snippet("one \\\n   two\nthree", &keys(), &mut diagnostics).unwrap();
    assert_eq!(parsed.lines, vec![vec![text("one two")], vec![text("three")]]);
    assert!(diagnostics.is_empty());
}

#[test]
fn continuation_pending_at_the_end_is_reported() {
    let mut diagnostics = Vec::new();
    let parsed = snippet("a\nb $@x\\", &keys(), &mut diagnostics).unwrap();
    assert_eq!(parsed.lines, vec![vec![text("a")], vec![text("b "), arg("x")]]);
    assert_eq!(
        diagnostics,
        vec![Diagnostic::PendingContinuation, Diagnostic::IncompleteArg { name: "x".to_string() }]
    );
}

#[test]
fn snippet_stops_at_the_first_rejected_line() {
    let mut diagnostics = Vec::new();
    let result = snippet("$@a\n$'x$\n$!nope$\n$@b", &keys(), &mut diagnostics);
    assert!(matches!(result, Err(SnippetError::MalformedDelay(body)) if body == "x"));
    assert_eq!(diagnostics, vec![Diagnostic::IncompleteArg { name: "a".to_string() }]);
}

#[test]
fn key_tokens_lists_every_token() {
    let tokens = key_tokens("a$!ctrl+x$ $!y\n$'bad$ $!z \\\n  w$ $[ $!never$\n$!last");
    assert_eq!(tokens, vec!["ctrl", "x", "y", "z", "w", "last"]);
}
