//! What a key vocabulary has to hold for a template: the tokens that
//! `key_tokens_of` lists, and no others.

use crate::error::ErrorModel;
use crate::grammar::{
    convert_keys, convert_parts, end_of_line, feed, finished_parts, key_tokens_of, line_tokens,
    parse_line, parse_lines_from, parse_snippet, peek, raw_tokens, scan_from, start, step,
    takes_two, tokens_from, RawPart, Scan, SnippetOutcome,
};
use crate::registry::{lookup, Entries};
use vstd::prelude::*;

verus! {

/// Two states that have read the same: they differ at most in the registry
/// and in the diagnostics.
pub open spec fn same_reading(a: Scan, b: Scan) -> bool {
    &&& a.parts == b.parts
    &&& a.text == b.text
    &&& a.mode == b.mode
    &&& a.arglist == b.arglist
}

/// What is read does not depend on the registry: from states that have read
/// the same, the rest of a line reads the same.
pub proof fn lemma_reading_ignores_registry(line: Seq<char>, i: int, a: Scan, b: Scan)
    requires
        same_reading(a, b),
    ensures
        same_reading(scan_from(line, i, a), scan_from(line, i, b)),
    decreases line.len() - i,
{
    if !(i < 0 || i >= line.len() || a.arglist) {
        let next = peek(line, i);
        let a1 = step(a, line[i], next);
        let b1 = step(b, line[i], next);
        assert(same_reading(a1, b1));
        if takes_two(a, line[i], next) {
            lemma_reading_ignores_registry(line, i + 2, a1, b1);
        } else {
            lemma_reading_ignores_registry(line, i + 1, a1, b1);
        }
    }
}

/// Every token is known to the vocabulary.
pub open spec fn all_known(tokens: Seq<Seq<char>>, keys: Entries) -> bool {
    forall|i: int| 0 <= i < tokens.len() ==> lookup(keys, #[trigger] tokens[i]) is Some
}

/// Tokens that are all known stand for keys.
proof fn lemma_known_tokens_convert(tokens: Seq<Seq<char>>, keys: Entries)
    requires
        all_known(tokens, keys),
    ensures
        convert_keys(tokens, keys) is Ok,
    decreases tokens.len(),
{
    if tokens.len() > 0 {
        let front = tokens.drop_last();
        assert forall|i: int| 0 <= i < front.len() implies lookup(keys, #[trigger] front[i])
            is Some by {
            assert(front[i] == tokens[i]);
        }
        lemma_known_tokens_convert(front, keys);
        assert(lookup(keys, tokens[tokens.len() - 1]) is Some);
    }
}

/// The tokens of a beginning of the parts, and those of each combo among
/// the parts, are among the tokens of the parts.
proof fn lemma_raw_tokens_known(parts: Seq<RawPart>, keys: Entries)
    requires
        all_known(raw_tokens(parts), keys),
    ensures
        parts.len() > 0 ==> all_known(raw_tokens(parts.drop_last()), keys),
        parts.len() > 0 ==> (parts.last() matches RawPart::KeyCombo(tokens) ==> all_known(
            tokens,
            keys,
        )),
{
    if parts.len() > 0 {
        let front = raw_tokens(parts.drop_last());
        let all = raw_tokens(parts);
        assert forall|i: int| 0 <= i < front.len() implies lookup(keys, #[trigger] front[i])
            is Some by {
            assert(all[i] == front[i]);
        }
        match parts.last() {
            RawPart::KeyCombo(tokens) => {
                assert forall|i: int| 0 <= i < tokens.len() implies lookup(
                    keys,
                    #[trigger] tokens[i],
                ) is Some by {
                    assert(all[front.len() + i] == tokens[i]);
                }
            },
            _ => {},
        }
    }
}

/// Parts whose tokens are all known are not rejected for a token.
proof fn lemma_known_parts_convert(parts: Seq<RawPart>, keys: Entries)
    requires
        all_known(raw_tokens(parts), keys),
    ensures
        !(convert_parts(parts, keys) matches Err(ErrorModel::UnknownKeyToken(_))),
    decreases parts.len(),
{
    if parts.len() > 0 {
        lemma_raw_tokens_known(parts, keys);
        lemma_known_parts_convert(parts.drop_last(), keys);
        match parts.last() {
            RawPart::KeyCombo(tokens) => {
                lemma_known_tokens_convert(tokens, keys);
            },
            _ => {},
        }
    }
}

/// A line whose tokens are all known is not rejected for a token.
pub proof fn lemma_known_line(line: Seq<char>, keys: Entries, defaults: Entries)
    requires
        all_known(line_tokens(line), keys),
    ensures
        !(parse_line(line, keys, defaults).parts matches Err(ErrorModel::UnknownKeyToken(_))),
{
    let read = scan_from(line, 0, start(defaults));
    let bare = scan_from(line, 0, start(Seq::empty()));
    lemma_reading_ignores_registry(line, 0, start(defaults), start(Seq::empty()));
    if !read.arglist {
        let done = end_of_line(read);
        assert(done.parts == end_of_line(bare).parts);
        let raw = finished_parts(done);
        if done.text.len() > 0 {
            assert(raw.drop_last() =~= done.parts);
            assert(raw_tokens(raw) =~= raw_tokens(done.parts));
        }
        lemma_known_parts_convert(raw, keys);
    }
}

/// The tokens of every line from position `i` on, and those found before,
/// are among the tokens of the template.
proof fn lemma_tokens_from_holds(lines: Seq<Seq<char>>, i: int, found: Seq<Seq<char>>, keys: Entries)
    requires
        0 <= i,
        all_known(tokens_from(lines, i, found), keys),
    ensures
        all_known(found, keys),
        forall|j: int| i <= j < lines.len() ==> all_known(line_tokens(#[trigger] lines[j]), keys),
    decreases lines.len() - i,
{
    if i < lines.len() {
        let more = found + line_tokens(lines[i]);
        lemma_tokens_from_holds(lines, i + 1, more, keys);
        assert forall|k: int| 0 <= k < found.len() implies lookup(keys, #[trigger] found[k])
            is Some by {
            assert(more[k] == found[k]);
        }
        let own = line_tokens(lines[i]);
        assert forall|k: int| 0 <= k < own.len() implies lookup(keys, #[trigger] own[k])
            is Some by {
            assert(more[found.len() + k] == own[k]);
        }
    }
}

/// Lines whose tokens are all known are not rejected for a token.
proof fn lemma_known_lines(
    lines: Seq<Seq<char>>,
    i: int,
    pending: bool,
    keys: Entries,
    state: SnippetOutcome,
)
    requires
        0 <= i,
        forall|j: int| i <= j < lines.len() ==> all_known(line_tokens(#[trigger] lines[j]), keys),
        !(state.fault matches Some(ErrorModel::UnknownKeyToken(_))),
    ensures
        !(parse_lines_from(lines, i, pending, keys, state).fault matches Some(
            ErrorModel::UnknownKeyToken(_),
        )),
    decreases lines.len() - i,
{
    if !(i >= lines.len() || state.fault is Some) {
        let announced = if pending && i == lines.len() - 1 {
            SnippetOutcome {
                diagnostics: state.diagnostics.push(
                    crate::diagnostic::DiagnosticModel::PendingContinuation,
                ),
                ..state
            }
        } else {
            state
        };
        assert(all_known(line_tokens(lines[i]), keys));
        lemma_known_line(lines[i], keys, announced.defaults);
        lemma_known_lines(lines, i + 1, pending, keys, feed(announced, keys, lines[i]));
    }
}

/// A vocabulary that knows every token that `key_tokens_of` lists is enough:
/// the template is not rejected for a token.
pub proof fn lemma_known_tokens_suffice(text: Seq<char>, keys: Entries)
    requires
        all_known(key_tokens_of(text), keys),
    ensures
        !(parse_snippet(text, keys).fault matches Some(ErrorModel::UnknownKeyToken(_))),
{
    let joined = crate::assemble::logical(text);
    lemma_tokens_from_holds(joined.lines, 0, Seq::empty(), keys);
    lemma_known_lines(
        joined.lines,
        0,
        joined.pending,
        keys,
        SnippetOutcome {
            lines: Seq::empty(),
            defaults: Seq::empty(),
            diagnostics: Seq::empty(),
            fault: None,
        },
    );
}

} // verus!
