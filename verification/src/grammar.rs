//! The template grammar of one logical line, as a state machine over its
//! characters.
//!
//! A line is read left to right with one character of lookahead. The reader
//! is always in one of four modes: literal text, the body of a delay, an
//! argument reference, or a key combo. `step` is the transition for one
//! character, `scan_from` runs it over a line, `end_of_line` closes what the
//! line left open, and `convert_parts` turns what was read into the parts of
//! the line. `parse_line` puts these together.

use crate::assemble::logical;
use crate::diagnostic::DiagnosticModel;
use crate::error::ErrorModel;
use crate::part::PartModel;
use crate::registry::{lookup, upsert, Entries};
use vstd::prelude::*;

verus! {

/// What the reader is in the middle of.
pub enum Mode {
    /// Literal text.
    Text,
    /// The body of a delay, `$'` up to here.
    Delay(Seq<char>),
    /// An argument reference: its name so far and, after `::`, its default.
    Arg { name: Seq<char>, default: Option<Seq<char>> },
    /// A key combo: its finished tokens and the token being read.
    KeyCombo { tokens: Seq<Seq<char>>, token: Seq<char> },
}

/// A part as it was read, before delays are parsed and keys are looked up.
pub enum RawPart {
    Text(Seq<char>),
    Delay(Seq<char>),
    Arg(Seq<char>),
    KeyCombo(Seq<Seq<char>>),
}

/// The reader's state.
pub struct Scan {
    /// The parts that are closed.
    pub parts: Seq<RawPart>,
    /// The literal text read since the last closed part.
    pub text: Seq<char>,
    /// What is being read after that text.
    pub mode: Mode,
    /// The default registry.
    pub defaults: Entries,
    /// The diagnostics so far.
    pub diagnostics: Seq<DiagnosticModel>,
    /// Whether the reader stopped at the opener of an argument list.
    pub arglist: bool,
}

/// The state before the first character of a line.
pub open spec fn start(defaults: Entries) -> Scan {
    Scan {
        parts: Seq::empty(),
        text: Seq::empty(),
        mode: Mode::Text,
        defaults,
        diagnostics: Seq::empty(),
        arglist: false,
    }
}

/// The tokens of a combo once it closes: a token buffer that is still empty
/// is no token.
pub open spec fn closed_tokens(tokens: Seq<Seq<char>>, token: Seq<char>) -> Seq<Seq<char>> {
    if token.len() == 0 {
        tokens
    } else {
        tokens.push(token)
    }
}

/// Registers `default` for `name`; a value that it replaces is reported.
pub open spec fn register(s: Scan, name: Seq<char>, default: Seq<char>) -> Scan {
    Scan {
        defaults: upsert(s.defaults, name, default),
        diagnostics: match lookup(s.defaults, name) {
            Some(previous) => s.diagnostics.push(
                DiagnosticModel::DuplicateDefault { name, previous },
            ),
            None => s.diagnostics,
        },
        ..s
    }
}

/// Closes the text read so far and the part `part` after it.
pub open spec fn emit(s: Scan, part: RawPart) -> Scan {
    Scan {
        parts: s.parts.push(RawPart::Text(s.text)).push(part),
        text: Seq::empty(),
        mode: Mode::Text,
        ..s
    }
}

/// What a closing `$` does.
///
/// A delay or a combo becomes a part. An argument with a name becomes a part
/// and registers its default, if it has one. An argument without a name is
/// the escape `$@$`: it leaves the two characters `$@` in the text, and its
/// default, if any, is dropped.
pub open spec fn close(s: Scan) -> Scan {
    match s.mode {
        Mode::Text => s,
        Mode::Delay(digits) => emit(s, RawPart::Delay(digits)),
        Mode::Arg { name, default } => if name.len() == 0 {
            Scan { text: s.text.push('$').push('@'), mode: Mode::Text, ..s }
        } else {
            match default {
                Some(value) => emit(register(s, name, value), RawPart::Arg(name)),
                None => emit(s, RawPart::Arg(name)),
            }
        },
        Mode::KeyCombo { tokens, token } => emit(
            s,
            RawPart::KeyCombo(closed_tokens(tokens, token)),
        ),
    }
}

/// Whether `ch` separates the tokens of a key combo.
pub open spec fn is_separator(ch: char) -> bool {
    ch == '+' || ch == ' '
}

/// The state after reading `ch`, with `next` the character after it.
pub open spec fn step(s: Scan, ch: char, next: Option<char>) -> Scan {
    match s.mode {
        Mode::Text => if ch == '$' && next == Some('\'') {
            Scan { mode: Mode::Delay(Seq::empty()), ..s }
        } else if ch == '$' && next == Some('@') {
            Scan { mode: Mode::Arg { name: Seq::empty(), default: None }, ..s }
        } else if ch == '$' && next == Some('[') {
            Scan { arglist: true, ..s }
        } else if ch == '$' && next == Some('!') {
            Scan { mode: Mode::KeyCombo { tokens: Seq::empty(), token: Seq::empty() }, ..s }
        } else {
            Scan { text: s.text.push(ch), ..s }
        },
        Mode::Delay(digits) => if ch == '$' {
            close(s)
        } else {
            Scan { mode: Mode::Delay(digits.push(ch)), ..s }
        },
        Mode::Arg { name, default } => if ch == '$' {
            close(s)
        } else {
            match default {
                Some(value) => Scan {
                    mode: Mode::Arg { name, default: Some(value.push(ch)) },
                    ..s
                },
                None => if ch == ':' && next == Some(':') {
                    Scan { mode: Mode::Arg { name, default: Some(Seq::empty()) }, ..s }
                } else {
                    Scan { mode: Mode::Arg { name: name.push(ch), default: None }, ..s }
                },
            }
        },
        Mode::KeyCombo { tokens, token } => if is_separator(ch) {
            Scan {
                mode: Mode::KeyCombo {
                    tokens: closed_tokens(tokens, token),
                    token: Seq::empty(),
                },
                ..s
            }
        } else if ch == '$' {
            close(s)
        } else {
            Scan { mode: Mode::KeyCombo { tokens, token: token.push(ch) }, ..s }
        },
    }
}

/// Whether reading `ch` also takes `next`: the four openers and `::` are two
/// characters long.
pub open spec fn takes_two(s: Scan, ch: char, next: Option<char>) -> bool {
    match s.mode {
        Mode::Text => ch == '$' && (next == Some('\'') || next == Some('@') || next == Some('[')
            || next == Some('!')),
        Mode::Arg { name, default } => ch == ':' && next == Some(':') && default is None,
        _ => false,
    }
}

/// The character after position `i`, if the line has one.
pub open spec fn peek(line: Seq<char>, i: int) -> Option<char> {
    if 0 <= i + 1 < line.len() {
        Some(line[i + 1])
    } else {
        None
    }
}

/// The state after reading `line` from position `i` on, starting in `s`.
/// Reading stops at the end of the line or at the opener of an argument list.
pub open spec fn scan_from(line: Seq<char>, i: int, s: Scan) -> Scan
    decreases line.len() - i,
{
    if i < 0 || i >= line.len() || s.arglist {
        s
    } else {
        let next = peek(line, i);
        let after = step(s, line[i], next);
        if takes_two(s, line[i], next) {
            scan_from(line, i + 2, after)
        } else {
            scan_from(line, i + 1, after)
        }
    }
}

/// What the end of the line does: an argument or a combo that is still open
/// is reported and then closed as a `$` would close it; a delay that is still
/// open is closed without a report.
pub open spec fn end_of_line(s: Scan) -> Scan {
    match s.mode {
        Mode::Text => s,
        Mode::Delay(_) => close(s),
        Mode::Arg { name, default } => close(
            Scan {
                diagnostics: s.diagnostics.push(DiagnosticModel::IncompleteArg { name }),
                ..s
            },
        ),
        Mode::KeyCombo { tokens, token } => close(
            Scan {
                diagnostics: s.diagnostics.push(
                    DiagnosticModel::IncompleteKeyCombo { tokens: closed_tokens(tokens, token) },
                ),
                ..s
            },
        ),
    }
}

/// The parts of a line that was read to its end: the closed parts, and the
/// text after them unless it is empty.
pub open spec fn finished_parts(s: Scan) -> Seq<RawPart> {
    if s.text.len() == 0 {
        s.parts
    } else {
        s.parts.push(RawPart::Text(s.text))
    }
}

/// Whether `ch` is one of the ten decimal digits.
pub open spec fn is_digit(ch: char) -> bool {
    '0' <= ch <= '9'
}

/// The number that a run of decimal digits writes.
pub open spec fn decimal_value(digits: Seq<char>) -> nat
    decreases digits.len(),
{
    if digits.len() == 0 {
        0
    } else {
        (decimal_value(digits.drop_last()) * 10 + (digits.last() as int - '0' as int)) as nat
    }
}

/// Whether every character is a decimal digit.
pub open spec fn all_digits(digits: Seq<char>) -> bool {
    forall|i: int| 0 <= i < digits.len() ==> is_digit(#[trigger] digits[i])
}

/// The digits of a delay body: the body without a leading `+`.
pub open spec fn unsigned_digits(body: Seq<char>) -> Seq<char> {
    if body.len() > 0 && body[0] == '+' {
        body.skip(1)
    } else {
        body
    }
}

/// The milliseconds that a delay body gives: an optional `+`, then one
/// decimal digit or more, writing a number that fits in 64 bits.
pub open spec fn parse_delay(body: Seq<char>) -> Option<u64> {
    let digits = unsigned_digits(body);
    if digits.len() > 0 && all_digits(digits) && decimal_value(digits) <= u64::MAX {
        Some(decimal_value(digits) as u64)
    } else {
        None
    }
}

/// The keys that the tokens of a combo stand for, or the first token that
/// stands for none.
pub open spec fn convert_keys(tokens: Seq<Seq<char>>, keys: Entries) -> Result<
    Seq<Seq<char>>,
    ErrorModel,
>
    decreases tokens.len(),
{
    if tokens.len() == 0 {
        Ok(Seq::empty())
    } else {
        match convert_keys(tokens.drop_last(), keys) {
            Err(e) => Err(e),
            Ok(front) => match lookup(keys, tokens.last()) {
                Some(key) => Ok(front.push(key)),
                None => Err(ErrorModel::UnknownKeyToken(tokens.last())),
            },
        }
    }
}

/// The part that a raw part becomes.
pub open spec fn convert_part(part: RawPart, keys: Entries) -> Result<PartModel, ErrorModel> {
    match part {
        RawPart::Text(text) => Ok(PartModel::Text(text)),
        RawPart::Delay(body) => match parse_delay(body) {
            Some(millis) => Ok(PartModel::Delay(millis)),
            None => Err(ErrorModel::MalformedDelay(body)),
        },
        RawPart::Arg(name) => Ok(PartModel::Arg(name)),
        RawPart::KeyCombo(tokens) => match convert_keys(tokens, keys) {
            Ok(names) => Ok(PartModel::KeyCombo(names)),
            Err(e) => Err(e),
        },
    }
}

/// The parts that raw parts become, or the fault of the first raw part that
/// has one.
pub open spec fn convert_parts(parts: Seq<RawPart>, keys: Entries) -> Result<
    Seq<PartModel>,
    ErrorModel,
>
    decreases parts.len(),
{
    if parts.len() == 0 {
        Ok(Seq::empty())
    } else {
        match convert_parts(parts.drop_last(), keys) {
            Err(e) => Err(e),
            Ok(front) => match convert_part(parts.last(), keys) {
                Ok(part) => Ok(front.push(part)),
                Err(e) => Err(e),
            },
        }
    }
}

/// What parsing one logical line comes to.
pub struct LineOutcome {
    /// The parts of the line, or why the line is rejected.
    pub parts: Result<Seq<PartModel>, ErrorModel>,
    /// The default registry after the line.
    pub defaults: Entries,
    /// The diagnostics of the line.
    pub diagnostics: Seq<DiagnosticModel>,
}

/// Parses the logical line `line` with the key vocabulary `keys`, starting
/// from the default registry `defaults`.
pub open spec fn parse_line(line: Seq<char>, keys: Entries, defaults: Entries) -> LineOutcome {
    let read = scan_from(line, 0, start(defaults));
    if read.arglist {
        LineOutcome {
            parts: Err(ErrorModel::UnsupportedArglist),
            defaults: read.defaults,
            diagnostics: read.diagnostics,
        }
    } else {
        let done = end_of_line(read);
        LineOutcome {
            parts: convert_parts(finished_parts(done), keys),
            defaults: done.defaults,
            diagnostics: done.diagnostics,
        }
    }
}

/// What parsing a template comes to.
pub struct SnippetOutcome {
    /// The lines parsed so far.
    pub lines: Seq<Seq<PartModel>>,
    /// The default registry.
    pub defaults: Entries,
    /// The diagnostics so far.
    pub diagnostics: Seq<DiagnosticModel>,
    /// Why the template is rejected, if it is.
    pub fault: Option<ErrorModel>,
}

/// Parses one more logical line.
pub open spec fn feed(state: SnippetOutcome, keys: Entries, line: Seq<char>) -> SnippetOutcome {
    let parsed = parse_line(line, keys, state.defaults);
    SnippetOutcome {
        lines: match parsed.parts {
            Ok(parts) => state.lines.push(parts),
            Err(_) => state.lines,
        },
        defaults: parsed.defaults,
        diagnostics: state.diagnostics + parsed.diagnostics,
        fault: match parsed.parts {
            Ok(_) => None,
            Err(e) => Some(e),
        },
    }
}

/// Parses the logical lines from position `i` on, up to the first that is
/// rejected. With `pending`, the last line was closed by the end of the
/// template, which is reported before that line is parsed.
pub open spec fn parse_lines_from(
    lines: Seq<Seq<char>>,
    i: int,
    pending: bool,
    keys: Entries,
    state: SnippetOutcome,
) -> SnippetOutcome
    decreases lines.len() - i,
{
    if i < 0 || i >= lines.len() || state.fault is Some {
        state
    } else {
        let announced = if pending && i == lines.len() - 1 {
            SnippetOutcome {
                diagnostics: state.diagnostics.push(DiagnosticModel::PendingContinuation),
                ..state
            }
        } else {
            state
        };
        parse_lines_from(lines, i + 1, pending, keys, feed(announced, keys, lines[i]))
    }
}

/// Parses the template `text` with the key vocabulary `keys`.
pub open spec fn parse_snippet(text: Seq<char>, keys: Entries) -> SnippetOutcome {
    let joined = logical(text);
    parse_lines_from(
        joined.lines,
        0,
        joined.pending,
        keys,
        SnippetOutcome {
            lines: Seq::empty(),
            defaults: Seq::empty(),
            diagnostics: Seq::empty(),
            fault: None,
        },
    )
}

/// The tokens of the key combos among `parts`, in order.
pub open spec fn raw_tokens(parts: Seq<RawPart>) -> Seq<Seq<char>>
    decreases parts.len(),
{
    if parts.len() == 0 {
        Seq::empty()
    } else {
        raw_tokens(parts.drop_last()) + match parts.last() {
            RawPart::KeyCombo(tokens) => tokens,
            _ => Seq::empty(),
        }
    }
}

/// The tokens of the key combos of one logical line. A line that opens an
/// argument list gives the tokens before the opener.
pub open spec fn line_tokens(line: Seq<char>) -> Seq<Seq<char>> {
    let read = scan_from(line, 0, start(Seq::empty()));
    if read.arglist {
        raw_tokens(read.parts)
    } else {
        raw_tokens(end_of_line(read).parts)
    }
}

/// The tokens of the logical lines from position `i` on, after `found`.
pub open spec fn tokens_from(lines: Seq<Seq<char>>, i: int, found: Seq<Seq<char>>) -> Seq<
    Seq<char>,
>
    decreases lines.len() - i,
{
    if i < 0 || i >= lines.len() {
        found
    } else {
        tokens_from(lines, i + 1, found + line_tokens(lines[i]))
    }
}

/// Every token of every key combo of the template `text`, in order.
pub open spec fn key_tokens_of(text: Seq<char>) -> Seq<Seq<char>> {
    tokens_from(logical(text).lines, 0, Seq::empty())
}

} // verus!
