//! The order of the default registry: parsing adds names at the end and
//! moves none.

use crate::grammar::{
    close, end_of_line, feed, parse_line, parse_lines_from, peek, scan_from, start, step,
    takes_two, Mode, Scan, SnippetOutcome,
};
use crate::registry::{distinct_names, lemma_position, lemma_upsert_distinct, upsert, Entries};
use vstd::prelude::*;

verus! {

/// `after` holds the names of `before` at the places where `before` holds
/// them: whatever else it holds comes behind them.
pub open spec fn keeps_order(before: Entries, after: Entries) -> bool {
    &&& before.len() <= after.len()
    &&& forall|i: int| 0 <= i < before.len() ==> (#[trigger] after[i]).0 == before[i].0
}

/// Writing a value keeps the order.
pub proof fn lemma_upsert_keeps_order(e: Entries, name: Seq<char>, value: Seq<char>)
    ensures
        keeps_order(e, upsert(e, name, value)),
{
    lemma_position(e, name);
}

/// Keeping the order goes through: what keeps the order of what keeps the
/// order keeps the order.
pub proof fn lemma_keeps_order_chain(a: Entries, b: Entries, c: Entries)
    requires
        keeps_order(a, b),
        keeps_order(b, c),
    ensures
        keeps_order(a, c),
{
    assert forall|i: int| 0 <= i < a.len() implies (#[trigger] c[i]).0 == a[i].0 by {
        assert(b[i].0 == a[i].0);
    }
}

/// A closing `$` keeps the order of the registry, and keeps its names
/// distinct.
proof fn lemma_close_keeps_order(s: Scan)
    ensures
        keeps_order(s.defaults, close(s).defaults),
        distinct_names(s.defaults) ==> distinct_names(close(s).defaults),
{
    match s.mode {
        Mode::Arg { name, default } => {
            match default {
                Some(value) => {
                    lemma_upsert_keeps_order(s.defaults, name, value);
                    if distinct_names(s.defaults) {
                        lemma_upsert_distinct(s.defaults, name, value);
                    }
                },
                None => {},
            }
        },
        _ => {},
    }
}

/// Reading a line keeps the order of the registry, and keeps its names
/// distinct.
proof fn lemma_scan_keeps_order(line: Seq<char>, i: int, s: Scan)
    ensures
        keeps_order(s.defaults, scan_from(line, i, s).defaults),
        distinct_names(s.defaults) ==> distinct_names(scan_from(line, i, s).defaults),
    decreases line.len() - i,
{
    if !(i < 0 || i >= line.len() || s.arglist) {
        let next = peek(line, i);
        let after = step(s, line[i], next);
        lemma_close_keeps_order(s);
        assert(after.defaults == s.defaults || after.defaults == close(s).defaults);
        if takes_two(s, line[i], next) {
            lemma_scan_keeps_order(line, i + 2, after);
        } else {
            lemma_scan_keeps_order(line, i + 1, after);
        }
        lemma_keeps_order_chain(s.defaults, after.defaults, scan_from(line, i, s).defaults);
    }
}

/// The position of a name in the registry is fixed when the name is first
/// declared: parsing a line leaves every name where it was, adds new names
/// behind them, and never lets a name occur twice.
pub proof fn lemma_line_keeps_order(line: Seq<char>, keys: Entries, defaults: Entries)
    ensures
        keeps_order(defaults, parse_line(line, keys, defaults).defaults),
        distinct_names(defaults) ==> distinct_names(parse_line(line, keys, defaults).defaults),
{
    let read = scan_from(line, 0, start(defaults));
    lemma_scan_keeps_order(line, 0, start(defaults));
    if !read.arglist {
        match read.mode {
            Mode::Arg { name, default } => {
                lemma_close_keeps_order(
                    Scan {
                        diagnostics: read.diagnostics.push(
                            crate::diagnostic::DiagnosticModel::IncompleteArg { name },
                        ),
                        ..read
                    },
                );
            },
            _ => {
                lemma_close_keeps_order(read);
            },
        }
        lemma_keeps_order_chain(defaults, read.defaults, end_of_line(read).defaults);
    }
}

/// The same holds from line to line: a name that one line declares keeps its
/// position through all lines after it.
pub proof fn lemma_lines_keep_order(
    lines: Seq<Seq<char>>,
    i: int,
    pending: bool,
    keys: Entries,
    state: SnippetOutcome,
)
    ensures
        keeps_order(state.defaults, parse_lines_from(lines, i, pending, keys, state).defaults),
        distinct_names(state.defaults) ==> distinct_names(
            parse_lines_from(lines, i, pending, keys, state).defaults,
        ),
    decreases lines.len() - i,
{
    if !(i < 0 || i >= lines.len() || state.fault is Some) {
        let announced = if pending && i == lines.len() - 1 {
            SnippetOutcome {
                diagnostics: state.diagnostics.push(
                    crate::diagnostic::DiagnosticModel::PendingContinuation,
                ),
                ..state
            }
        } else {
            state
        };
        let fed = feed(announced, keys, lines[i]);
        lemma_line_keeps_order(lines[i], keys, state.defaults);
        lemma_lines_keep_order(lines, i + 1, pending, keys, fed);
        lemma_keeps_order_chain(
            state.defaults,
            fed.defaults,
            parse_lines_from(lines, i, pending, keys, state).defaults,
        );
    }
}

} // verus!
