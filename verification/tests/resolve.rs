use indexmap::IndexMap;
use keysnip::error::SnippetError;
use keysnip::part::LinePart;
use keysnip::part::LinePart::{Arg, Text};
use keysnip::resolve::{
    arg_question, ask_arg, missing_line_arg, next_missing_arg, pull_args_from_argv,
};

fn strings(items: &[&str]) -> Vec<String> {
    items.iter().map(|s| s.to_string()).collect()
}

fn pairs(map: &IndexMap<String, String>) -> Vec<(String, String)> {
    map.iter().map(|(k, v)| (k.clone(), v.clone())).collect()
}

fn pair(k: &str, v: &str) -> (String, String) {
    (k.to_string(), v.to_string())
}

fn line(names: &[&str]) -> Vec<LinePart> {
    let mut parts = vec![Text("t".to_string())];
    for name in names {
        parts.push(Arg(name.to_string()));
        parts.push(Text(" ".to_string()));
    }
    parts
}

#[test]
fn empty_answer_takes_the_default_and_is_not_asked_again() {
    let defaults = IndexMap::from([pair("x", "5")]);
    let mut values = IndexMap::new();
    let lines = vec![line(&["x"]), line(&[]), line(&["x"])];

    assert_eq!(next_missing_arg(&lines, &values), Some("x"));
    assert_eq!(arg_question("x", &defaults), "x (Default: `5`)");
    ask_arg("x", String::new(), &defaults, &mut values);
    assert_eq!(pairs(&values), vec![pair("x", "5")]);
    assert_eq!(missing_line_arg(&lines[2], &values), None);
    assert_eq!(next_missing_arg(&lines, &values), None);
}

#[test]
fn empty_answer_without_default_is_empty() {
    let defaults = IndexMap::new();
    let mut values = IndexMap::new();
    assert_eq!(arg_question("y", &defaults), "y");
    ask_arg("y", String::new(), &defaults, &mut values);
    assert_eq!(pairs(&values), vec![pair("y", "")]);
    assert_eq!(missing_line_arg(&line(&["y"]), &values), None);
}

#[test]
fn answer_wins_over_default() {
    let defaults = IndexMap::from([pair("x", "5")]);
    let mut values = IndexMap::new();
    ask_arg("x", "7".to_string(), &defaults, &mut values);
    assert_eq!(pairs(&values), vec![pair("x", "7")]);
}

#[test]
fn supplied_pairs_are_written_in_order() {
    let mut values = IndexMap::new();
    assert_eq!(pull_args_from_argv(strings(&["a", "1", "b", "2", "a", "3"]), &mut values), Ok(()));
    assert_eq!(pairs(&values), vec![pair("a", "3"), pair("b", "2")]);
}

#[test]
fn no_supplied_tokens_write_nothing() {
    let mut values = IndexMap::new();
    assert_eq!(pull_args_from_argv(strings(&[]), &mut values), Ok(()));
    assert!(values.is_empty());
}

#[test]
fn odd_supply_is_rejected() {
    let mut values = IndexMap::new();
    assert_eq!(
        pull_args_from_argv(strings(&["a", "1", "b"]), &mut values),
        Err(SnippetError::OddArgumentSupply)
    );
    assert!(values.is_empty());
}

#[test]
fn supplied_values_are_not_asked_for() {
    let mut values = IndexMap::new();
    pull_args_from_argv(strings(&["a", "1"]), &mut values).unwrap();
    let lines = vec![line(&["a", "b"]), line(&["c", "a"])];
    assert_eq!(missing_line_arg(&lines[0], &values), Some("b"));
    assert_eq!(next_missing_arg(&lines, &values), Some("b"));
    ask_arg("b", "x".to_string(), &IndexMap::new(), &mut values);
    assert_eq!(next_missing_arg(&lines, &values), Some("c"));
    ask_arg("c", "y".to_string(), &IndexMap::new(), &mut values);
    assert_eq!(next_missing_arg(&lines, &values), None);
}
