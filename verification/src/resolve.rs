//! The argument resolver: every argument that a template refers to gets a
//! value, from what the caller supplied, from its default, or from the
//! operator's answer.
//!
//! The library decides which argument is asked for next, with which question,
//! and what an answer comes to; the host puts the question and hands the
//! answer back.

use crate::error::SnippetError;
use crate::part::{LinePart, PartModel};
use crate::registry::{
    entries, lemma_upsert_keeps_others, lemma_upsert_reads_back, lookup, map_contains_key,
    map_get, map_insert, upsert, Entries,
};
use indexmap::IndexMap;
use vstd::prelude::*;
use vstd::string::StringExecFns;

verus! {

/// The values after the supplied tokens from position `i` on are written as
/// pairs of a name and a value.
pub open spec fn supply_from(args: Seq<Seq<char>>, i: int, values: Entries) -> Entries
    decreases args.len() - i,
{
    if i < 0 || i + 1 >= args.len() {
        values
    } else {
        supply_from(args, i + 2, upsert(values, args[i], args[i + 1]))
    }
}

/// Writes the supplied tokens into `arg_values`, pair by pair: a name, then
/// its value. Tokens that do not pair are rejected, and nothing is written.
pub fn pull_args_from_argv(args: Vec<String>, arg_values: &mut IndexMap<String, String>) -> (result:
    Result<(), SnippetError>)
    ensures
        match result {
            Ok(()) => args.len() % 2 == 0 && entries(*final(arg_values)) == supply_from(
                args.deep_view(),
                0,
                entries(*old(arg_values)),
            ),
            Err(e) => {
                &&& args.len() % 2 == 1
                &&& e is OddArgumentSupply
                &&& *final(arg_values) == *old(arg_values)
            },
        },
{
    if args.len() % 2 == 1 {
        return Err(SnippetError::OddArgumentSupply);
    }
    let mut i: usize = 0;
    while i < args.len()
        invariant
            i <= args.len(),
            i % 2 == 0,
            args.len() % 2 == 0,
            supply_from(args.deep_view(), i as int, entries(*arg_values)) == supply_from(
                args.deep_view(),
                0,
                entries(*old(arg_values)),
            ),
        decreases args.len() - i,
    {
        let _ = map_insert(arg_values, args[i].clone(), args[i + 1].clone());
        i += 2;
    }
    Ok(())
}

/// The name of the first argument from position `i` on that has no value.
pub open spec fn missing_from(line: Seq<PartModel>, i: int, values: Entries) -> Option<Seq<char>>
    decreases line.len() - i,
{
    if i < 0 || i >= line.len() {
        None
    } else {
        match line[i] {
            PartModel::Arg(name) => if lookup(values, name) is None {
                Some(name)
            } else {
                missing_from(line, i + 1, values)
            },
            _ => missing_from(line, i + 1, values),
        }
    }
}

/// Whether every argument of the line has a value.
pub open spec fn line_resolved(line: Seq<PartModel>, values: Entries) -> bool {
    forall|i: int|
        0 <= i < line.len() ==> (#[trigger] line[i] matches PartModel::Arg(name) ==> lookup(
            values,
            name,
        ) is Some)
}

/// The first argument of the line that has no value yet.
pub fn missing_line_arg<'a>(line: &'a Vec<LinePart>, arg_values: &IndexMap<String, String>) -> (arg:
    Option<&'a str>)
    ensures
        match arg {
            Some(name) => missing_from(line.deep_view(), 0, entries(*arg_values)) == Some(name@),
            None => missing_from(line.deep_view(), 0, entries(*arg_values)) is None,
        },
{
    let mut i: usize = 0;
    while i < line.len()
        invariant
            i <= line.len(),
            missing_from(line.deep_view(), i as int, entries(*arg_values)) == missing_from(
                line.deep_view(),
                0,
                entries(*arg_values),
            ),
        decreases line.len() - i,
    {
        assert(line.deep_view()[i as int] == line[i as int].deep_view());
        match &line[i] {
            LinePart::Arg(name) => {
                if !map_contains_key(arg_values, name.as_str()) {
                    return Some(name.as_str());
                }
            },
            _ => {},
        }
        i += 1;
    }
    None
}

/// The first argument without a value in the lines from position `i` on.
pub open spec fn next_missing_from(lines: Seq<Seq<PartModel>>, i: int, values: Entries) -> Option<
    Seq<char>,
>
    decreases lines.len() - i,
{
    if i < 0 || i >= lines.len() {
        None
    } else {
        match missing_from(lines[i], 0, values) {
            Some(name) => Some(name),
            None => next_missing_from(lines, i + 1, values),
        }
    }
}

/// The argument to resolve next: the first one without a value in the first
/// line that has one. `None` means that every line is resolved.
pub fn next_missing_arg<'a>(
    lines: &'a Vec<Vec<LinePart>>,
    arg_values: &IndexMap<String, String>,
) -> (arg: Option<&'a str>)
    ensures
        match arg {
            Some(name) => next_missing_from(lines.deep_view(), 0, entries(*arg_values)) == Some(
                name@,
            ),
            None => next_missing_from(lines.deep_view(), 0, entries(*arg_values)) is None,
        },
{
    let mut i: usize = 0;
    while i < lines.len()
        invariant
            i <= lines.len(),
            next_missing_from(lines.deep_view(), i as int, entries(*arg_values))
                == next_missing_from(lines.deep_view(), 0, entries(*arg_values)),
        decreases lines.len() - i,
    {
        assert(lines.deep_view()[i as int] == lines[i as int].deep_view());
        match missing_line_arg(&lines[i], arg_values) {
            Some(name) => {
                return Some(name);
            },
            None => {},
        }
        i += 1;
    }
    None
}

/// The question that asks for the argument `arg`: its name, and its default
/// if it has one.
pub open spec fn question_text(arg: Seq<char>, defaults: Entries) -> Seq<char> {
    match lookup(defaults, arg) {
        Some(default) => arg + " (Default: `"@ + default + "`)"@,
        None => arg,
    }
}

/// The question to put to the operator for the argument `arg`.
pub fn arg_question(arg: &str, defaults: &IndexMap<String, String>) -> (question: String)
    ensures
        question@ == question_text(arg@, entries(*defaults)),
{
    let mut question = arg.to_owned();
    match map_get(defaults, arg) {
        Some(default) => {
            question.append(" (Default: `");
            question.append(default.as_str());
            question.append("`)");
        },
        None => {},
    }
    question
}

/// The value that an answer comes to: the answer itself, or for an empty
/// answer the default, or the empty string where there is no default.
pub open spec fn answer_value(arg: Seq<char>, answer: Seq<char>, defaults: Entries) -> Seq<char> {
    if answer.len() > 0 {
        answer
    } else {
        match lookup(defaults, arg) {
            Some(default) => default,
            None => Seq::empty(),
        }
    }
}

/// Stores the value that the operator's `answer` gives the argument `arg`.
pub fn ask_arg(
    arg: &str,
    answer: String,
    defaults: &IndexMap<String, String>,
    arg_values: &mut IndexMap<String, String>,
)
    ensures
        entries(*final(arg_values)) == upsert(
            entries(*old(arg_values)),
            arg@,
            answer_value(arg@, answer@, entries(*defaults)),
        ),
        lookup(entries(*final(arg_values)), arg@) == Some(
            answer_value(arg@, answer@, entries(*defaults)),
        ),
{
    let value = if answer.as_str().is_empty() {
        match map_get(defaults, arg) {
            Some(default) => default.clone(),
            None => String::new(),
        }
    } else {
        answer
    };
    proof {
        lemma_upsert_reads_back(entries(*arg_values), arg@, value@);
    }
    let _ = map_insert(arg_values, arg.to_owned(), value);
}

/// An argument that has a value is not asked for: whatever is written under
/// `name`, no line reports `name` as missing afterwards.
pub proof fn lemma_resolved_is_not_missing(
    line: Seq<PartModel>,
    i: int,
    values: Entries,
    name: Seq<char>,
    value: Seq<char>,
)
    requires
        0 <= i,
    ensures
        missing_from(line, i, upsert(values, name, value)) != Some(name),
    decreases line.len() - i,
{
    lemma_upsert_reads_back(values, name, value);
    if i < line.len() {
        lemma_resolved_is_not_missing(line, i + 1, values, name, value);
    }
}

/// Writing a value takes no value away: an argument that had a value before
/// still has one.
pub proof fn lemma_values_stay(values: Entries, name: Seq<char>, value: Seq<char>, other: Seq<char>)
    requires
        lookup(values, other) is Some,
    ensures
        lookup(upsert(values, name, value), other) is Some,
{
    if other == name {
        lemma_upsert_reads_back(values, name, value);
    } else {
        lemma_upsert_keeps_others(values, name, value, other);
    }
}

/// A line has no missing argument exactly if every argument of it has a
/// value.
pub proof fn lemma_missing_none(line: Seq<PartModel>, i: int, values: Entries)
    requires
        0 <= i,
    ensures
        missing_from(line, i, values) is None <==> forall|k: int|
            i <= k < line.len() ==> (#[trigger] line[k] matches PartModel::Arg(name) ==> lookup(
                values,
                name,
            ) is Some),
    decreases line.len() - i,
{
    if i < line.len() {
        lemma_missing_none(line, i + 1, values);
    }
}

/// Whether every argument of every line has a value.
pub open spec fn all_resolved(lines: Seq<Seq<PartModel>>, values: Entries) -> bool {
    forall|i: int| 0 <= i < lines.len() ==> line_resolved(#[trigger] lines[i], values)
}

/// No argument is left to ask for exactly if every argument of every line
/// has a value.
pub proof fn lemma_next_missing_none(lines: Seq<Seq<PartModel>>, i: int, values: Entries)
    requires
        0 <= i,
    ensures
        next_missing_from(lines, i, values) is None <==> forall|k: int|
            i <= k < lines.len() ==> line_resolved(#[trigger] lines[k], values),
    decreases lines.len() - i,
{
    if i < lines.len() {
        lemma_missing_none(lines[i], 0, values);
        lemma_next_missing_none(lines, i + 1, values);
    }
}

} // verus!
