//! The tokenizer: a logical line in, its parts out; and a whole template in,
//! its lines and defaults out.

use crate::assemble::logical_lines;
use crate::diagnostic::{Diagnostic, DiagnosticModel};
use crate::error::{ErrorModel, SnippetError};
use crate::grammar::{
    all_digits, close, closed_tokens, convert_keys, convert_part, convert_parts, decimal_value,
    end_of_line, finished_parts, is_digit, key_tokens_of, parse_delay, parse_line,
    parse_lines_from, parse_snippet, peek, raw_tokens, scan_from, start, step, takes_two,
    tokens_from, unsigned_digits, Mode, RawPart, Scan, SnippetOutcome,
};
use crate::part::{Key, Keymap, LinePart, PartModel};
use crate::registry::{entries, lookup, upsert, Entries};
use crate::text::{chars_of, lemma_deep_push};
use indexmap::IndexMap;
use vstd::prelude::*;

verus! {

/// The part that is being read.
pub(crate) enum ProcessingPart {
    Text,
    Delay(String),
    Arg { name: String, default: Option<String> },
    KeyCombo { tokens: Vec<String>, token: String },
}

impl DeepView for ProcessingPart {
    type V = Mode;

    closed spec fn deep_view(&self) -> Mode {
        match self {
            ProcessingPart::Text => Mode::Text,
            ProcessingPart::Delay(digits) => Mode::Delay(digits@),
            ProcessingPart::Arg { name, default } => Mode::Arg {
                name: name@,
                default: default.deep_view(),
            },
            ProcessingPart::KeyCombo { tokens, token } => Mode::KeyCombo {
                tokens: tokens.deep_view(),
                token: token@,
            },
        }
    }
}

/// A part that was read and closed.
pub(crate) enum RawLinePart {
    Text(String),
    Delay(String),
    Arg(String),
    KeyCombo(Vec<String>),
}

impl DeepView for RawLinePart {
    type V = RawPart;

    closed spec fn deep_view(&self) -> RawPart {
        match self {
            RawLinePart::Text(text) => RawPart::Text(text@),
            RawLinePart::Delay(body) => RawPart::Delay(body@),
            RawLinePart::Arg(name) => RawPart::Arg(name@),
            RawLinePart::KeyCombo(tokens) => RawPart::KeyCombo(tokens.deep_view()),
        }
    }
}

/// The reader of one line; the registry and the diagnostics are held by the
/// caller.
pub(crate) struct Reader {
    pub parts: Vec<RawLinePart>,
    pub text: String,
    pub mode: ProcessingPart,
    pub arglist: bool,
}

impl Reader {
    /// The reader's state, with the registry and the diagnostics beside it.
    pub closed spec fn state(
        self,
        defaults: IndexMap<String, String>,
        diagnostics: Vec<Diagnostic>,
    ) -> Scan {
        Scan {
            parts: self.parts.deep_view(),
            text: self.text@,
            mode: self.mode.deep_view(),
            defaults: entries(defaults),
            diagnostics: diagnostics.deep_view(),
            arglist: self.arglist,
        }
    }
}

/// Whether `next` is the character `mark`.
fn next_is(next: Option<char>, mark: char) -> (yes: bool)
    ensures
        yes == (next == Some(mark)),
{
    match next {
        Some(c) => c == mark,
        None => false,
    }
}

/// Closes the text read so far and `part` after it.
fn emit_part(reader: Reader, part: RawLinePart) -> (out: Reader)
    ensures
        out.parts.deep_view() == reader.parts.deep_view().push(RawPart::Text(reader.text@)).push(
            part.deep_view(),
        ),
        out.text@ == Seq::<char>::empty(),
        out.mode.deep_view() == Mode::Text,
        out.arglist == reader.arglist,
{
    let Reader { parts, text, mode: _, arglist } = reader;
    let mut parts = parts;
    let ghost before = parts;
    let ghost literal = RawLinePart::Text(text);
    parts.push(RawLinePart::Text(text));
    let ghost between = parts;
    parts.push(part);
    proof {
        lemma_deep_push(before, between, literal);
        lemma_deep_push(between, parts, part);
    }
    Reader { parts, text: String::new(), mode: ProcessingPart::Text, arglist }
}

/// Registers `value` as the default of `name` and reports a value that it
/// replaces.
fn register_default(
    name: &String,
    value: String,
    defaults: &mut IndexMap<String, String>,
    diagnostics: &mut Vec<Diagnostic>,
)
    ensures
        entries(*final(defaults)) == upsert(entries(*old(defaults)), name@, value@),
        final(diagnostics).deep_view() == match lookup(entries(*old(defaults)), name@) {
            Some(previous) => old(diagnostics).deep_view().push(
                DiagnosticModel::DuplicateDefault { name: name@, previous },
            ),
            None => old(diagnostics).deep_view(),
        },
{
    match crate::registry::set(defaults, name.clone(), value) {
        Some(previous) => {
            let ghost before = *diagnostics;
            let report = Diagnostic::DuplicateDefault { name: name.clone(), previous };
            let ghost pushed = report;
            diagnostics.push(report);
            proof {
                lemma_deep_push(before, *diagnostics, pushed);
            }
        },
        None => {},
    }
}

/// The tokens of a combo that closes.
fn close_tokens(tokens: Vec<String>, token: String) -> (closed: Vec<String>)
    ensures
        closed.deep_view() == closed_tokens(tokens.deep_view(), token@),
{
    if token.as_str().is_empty() {
        tokens
    } else {
        let mut closed = tokens;
        closed.push(token);
        proof {
            lemma_deep_push(tokens, closed, token);
        }
        closed
    }
}

/// Does what a closing `$` does.
fn close_reader(
    reader: Reader,
    defaults: &mut IndexMap<String, String>,
    diagnostics: &mut Vec<Diagnostic>,
) -> (out: Reader)
    ensures
        out.state(*final(defaults), *final(diagnostics)) == close(
            reader.state(*old(defaults), *old(diagnostics)),
        ),
{
    let Reader { parts, text, mode, arglist } = reader;
    match mode {
        ProcessingPart::Text => Reader { parts, text, mode: ProcessingPart::Text, arglist },
        ProcessingPart::Delay(body) => emit_part(
            Reader { parts, text, mode: ProcessingPart::Text, arglist },
            RawLinePart::Delay(body),
        ),
        ProcessingPart::Arg { name, default } => {
            if name.as_str().is_empty() {
                let mut text = text;
                text.push('$');
                text.push('@');
                Reader { parts, text, mode: ProcessingPart::Text, arglist }
            } else {
                match default {
                    Some(value) => {
                        register_default(&name, value, defaults, diagnostics);
                    },
                    None => {},
                }
                emit_part(
                    Reader { parts, text, mode: ProcessingPart::Text, arglist },
                    RawLinePart::Arg(name),
                )
            }
        },
        ProcessingPart::KeyCombo { tokens, token } => {
            let closed = close_tokens(tokens, token);
            emit_part(
                Reader { parts, text, mode: ProcessingPart::Text, arglist },
                RawLinePart::KeyCombo(closed),
            )
        },
    }
}

/// Whether reading `ch` in this state also takes the character after it.
fn reads_two(reader: &Reader, ch: char, next: Option<char>) -> (two: bool)
    ensures
        forall|defaults: IndexMap<String, String>, diagnostics: Vec<Diagnostic>|
            two == takes_two(#[trigger] reader.state(defaults, diagnostics), ch, next),
{
    match &reader.mode {
        ProcessingPart::Text => ch == '$' && (next_is(next, '\'') || next_is(next, '@')
            || next_is(next, '[') || next_is(next, '!')),
        ProcessingPart::Arg { name: _, default } => ch == ':' && next_is(next, ':')
            && default.is_none(),
        _ => false,
    }
}

/// Reads `ch`, with `next` the character after it.
fn step_reader(
    reader: Reader,
    ch: char,
    next: Option<char>,
    defaults: &mut IndexMap<String, String>,
    diagnostics: &mut Vec<Diagnostic>,
) -> (out: Reader)
    ensures
        out.state(*final(defaults), *final(diagnostics)) == step(
            reader.state(*old(defaults), *old(diagnostics)),
            ch,
            next,
        ),
{
    if ch == '$' && !matches!(reader.mode, ProcessingPart::Text) {
        return close_reader(reader, defaults, diagnostics);
    }
    let Reader { parts, text, mode, arglist } = reader;
    match mode {
        ProcessingPart::Text => {
            if ch == '$' && next_is(next, '\'') {
                Reader { parts, text, mode: ProcessingPart::Delay(String::new()), arglist }
            } else if ch == '$' && next_is(next, '@') {
                Reader {
                    parts,
                    text,
                    mode: ProcessingPart::Arg { name: String::new(), default: None },
                    arglist,
                }
            } else if ch == '$' && next_is(next, '[') {
                Reader { parts, text, mode: ProcessingPart::Text, arglist: true }
            } else if ch == '$' && next_is(next, '!') {
                let tokens: Vec<String> = Vec::new();
                assert(tokens.deep_view() =~= Seq::<Seq<char>>::empty());
                Reader {
                    parts,
                    text,
                    mode: ProcessingPart::KeyCombo { tokens, token: String::new() },
                    arglist,
                }
            } else {
                let mut text = text;
                text.push(ch);
                Reader { parts, text, mode: ProcessingPart::Text, arglist }
            }
        },
        ProcessingPart::Delay(body) => {
            let mut body = body;
            body.push(ch);
            Reader { parts, text, mode: ProcessingPart::Delay(body), arglist }
        },
        ProcessingPart::Arg { name, default } => {
            match default {
                Some(value) => {
                    let mut value = value;
                    value.push(ch);
                    Reader {
                        parts,
                        text,
                        mode: ProcessingPart::Arg { name, default: Some(value) },
                        arglist,
                    }
                },
                None => {
                    if ch == ':' && next_is(next, ':') {
                        Reader {
                            parts,
                            text,
                            mode: ProcessingPart::Arg { name, default: Some(String::new()) },
                            arglist,
                        }
                    } else {
                        let mut name = name;
                        name.push(ch);
                        Reader {
                            parts,
                            text,
                            mode: ProcessingPart::Arg { name, default: None },
                            arglist,
                        }
                    }
                },
            }
        },
        ProcessingPart::KeyCombo { tokens, token } => {
            if ch == '+' || ch == ' ' {
                let tokens = close_tokens(tokens, token);
                Reader {
                    parts,
                    text,
                    mode: ProcessingPart::KeyCombo { tokens, token: String::new() },
                    arglist,
                }
            } else {
                let mut token = token;
                token.push(ch);
                Reader { parts, text, mode: ProcessingPart::KeyCombo { tokens, token }, arglist }
            }
        },
    }
}

/// A copy of `strings`.
pub(crate) fn copy_strings(strings: &Vec<String>) -> (copy: Vec<String>)
    ensures
        copy.deep_view() == strings.deep_view(),
{
    let mut copy: Vec<String> = Vec::new();
    let mut i: usize = 0;
    while i < strings.len()
        invariant
            i <= strings.len(),
            copy.len() == i,
            forall|j: int| 0 <= j < i ==> copy[j]@ == strings[j]@,
        decreases strings.len() - i,
    {
        copy.push(strings[i].clone());
        i += 1;
    }
    assert(copy.deep_view() =~= strings.deep_view());
    copy
}

/// Does what the end of the line does.
fn finish_reader(
    reader: Reader,
    defaults: &mut IndexMap<String, String>,
    diagnostics: &mut Vec<Diagnostic>,
) -> (out: Reader)
    ensures
        out.state(*final(defaults), *final(diagnostics)) == end_of_line(
            reader.state(*old(defaults), *old(diagnostics)),
        ),
{
    let ghost before = *diagnostics;
    match &reader.mode {
        ProcessingPart::Arg { name, default: _ } => {
            let report = Diagnostic::IncompleteArg { name: name.clone() };
            let ghost pushed = report;
            diagnostics.push(report);
            proof {
                lemma_deep_push(before, *diagnostics, pushed);
            }
        },
        ProcessingPart::KeyCombo { tokens, token } => {
            let closed = close_tokens(copy_strings(tokens), token.clone());
            let report = Diagnostic::IncompleteKeyCombo { tokens: closed };
            let ghost pushed = report;
            diagnostics.push(report);
            proof {
                lemma_deep_push(before, *diagnostics, pushed);
            }
        },
        _ => {},
    }
    close_reader(reader, defaults, diagnostics)
}

/// Reads `line` up to its end, or up to the opener of an argument list.
fn read_line(
    line: &Vec<char>,
    defaults: &mut IndexMap<String, String>,
    diagnostics: &mut Vec<Diagnostic>,
) -> (reader: Reader)
    requires
        old(diagnostics).len() == 0,
    ensures
        reader.state(*final(defaults), *final(diagnostics)) == scan_from(
            line@,
            0,
            start(entries(*old(defaults))),
        ),
{
    let parts: Vec<RawLinePart> = Vec::new();
    let mut reader = Reader {
        parts,
        text: String::new(),
        mode: ProcessingPart::Text,
        arglist: false,
    };
    assert(reader.parts.deep_view() =~= Seq::<RawPart>::empty());
    assert(diagnostics.deep_view() =~= Seq::<DiagnosticModel>::empty());
    let mut i: usize = 0;
    while i < line.len() && !reader.arglist
        invariant
            i <= line.len(),
            scan_from(line@, i as int, reader.state(*defaults, *diagnostics)) == scan_from(
                line@,
                0,
                start(entries(*old(defaults))),
            ),
        decreases line.len() - i,
    {
        let ch = line[i];
        let next = if i + 1 < line.len() {
            Some(line[i + 1])
        } else {
            None
        };
        assert(next == peek(line@, i as int));
        let two = reads_two(&reader, ch, next);
        assert(two == takes_two(reader.state(*defaults, *diagnostics), ch, next));
        reader = step_reader(reader, ch, next, defaults, diagnostics);
        if two {
            i += 2;
        } else {
            i += 1;
        }
    }
    reader
}

/// A run of digits writes no less than any of its beginnings.
proof fn lemma_decimal_grows(digits: Seq<char>, n: int)
    requires
        all_digits(digits),
        0 <= n <= digits.len(),
    ensures
        decimal_value(digits.take(n)) <= decimal_value(digits),
    decreases digits.len(),
{
    if n == digits.len() {
        assert(digits.take(n) =~= digits);
    } else {
        let front = digits.drop_last();
        assert(front.take(n) =~= digits.take(n));
        assert(is_digit(digits[digits.len() - 1]));
        assert forall|i: int| 0 <= i < front.len() implies is_digit(#[trigger] front[i]) by {
            assert(front[i] == digits[i]);
        }
        lemma_decimal_grows(front, n);
    }
}

/// The milliseconds that the body of a delay gives, if it is a number.
pub fn parse_delay_body(body: &str) -> (millis: Option<u64>)
    ensures
        millis == parse_delay(body@),
{
    let chars = chars_of(body);
    let first: usize = if chars.len() > 0 && chars[0] == '+' {
        1
    } else {
        0
    };
    let ghost digits = unsigned_digits(body@);
    assert(digits == chars@.skip(first as int));
    if first == chars.len() {
        return None;
    }
    let mut value: u64 = 0;
    let mut i: usize = first;
    while i < chars.len()
        invariant
            first <= i <= chars.len(),
            digits == chars@.skip(first as int),
            digits == unsigned_digits(body@),
            digits.len() > 0,
            all_digits(digits.take(i - first)),
            value == decimal_value(digits.take(i - first)),
        decreases chars.len() - i,
    {
        let ch = chars[i];
        assert(ch == digits[i - first]);
        if !(ch >= '0' && ch <= '9') {
            assert(!all_digits(digits));
            return None;
        }
        let digit: u64 = (ch as u32 - '0' as u32) as u64;
        let ghost longer = digits.take(i - first + 1);
        assert(longer.drop_last() =~= digits.take(i - first));
        assert(longer.last() == ch);
        assert forall|j: int| 0 <= j < longer.len() implies is_digit(#[trigger] longer[j]) by {
            if j < longer.len() - 1 {
                assert(longer[j] == digits.take(i - first)[j]);
            }
        }
        if value > (u64::MAX - digit) / 10 {
            proof {
                if all_digits(digits) {
                    lemma_decimal_grows(digits, i - first + 1);
                }
            }
            return None;
        }
        value = value * 10 + digit;
        i += 1;
    }
    assert(digits.take(i - first) =~= digits);
    Some(value)
}

/// A token without a key in a beginning of a combo is the first such token
/// of the whole combo.
proof fn lemma_convert_keys_fails(tokens: Seq<Seq<char>>, n: int, keys: Entries)
    requires
        0 <= n <= tokens.len(),
        convert_keys(tokens.take(n), keys) is Err,
    ensures
        convert_keys(tokens, keys) == convert_keys(tokens.take(n), keys),
    decreases tokens.len(),
{
    if n == tokens.len() {
        assert(tokens.take(n) =~= tokens);
    } else {
        assert(tokens.drop_last().take(n) =~= tokens.take(n));
        lemma_convert_keys_fails(tokens.drop_last(), n, keys);
    }
}

/// The fault of a beginning of a line is the fault of the whole line.
proof fn lemma_convert_parts_fails(parts: Seq<RawPart>, n: int, keys: Entries)
    requires
        0 <= n <= parts.len(),
        convert_parts(parts.take(n), keys) is Err,
    ensures
        convert_parts(parts, keys) == convert_parts(parts.take(n), keys),
    decreases parts.len(),
{
    if n == parts.len() {
        assert(parts.take(n) =~= parts);
    } else {
        assert(parts.drop_last().take(n) =~= parts.take(n));
        lemma_convert_parts_fails(parts.drop_last(), n, keys);
    }
}

/// The keys that the tokens of a combo stand for.
fn resolve_tokens(tokens: &Vec<String>, keys: &Keymap) -> (resolved: Result<Vec<Key>, SnippetError>)
    ensures
        match resolved {
            Ok(found) => convert_keys(tokens.deep_view(), keys@) == Ok::<
                Seq<Seq<char>>,
                ErrorModel,
            >(found.deep_view()),
            Err(e) => convert_keys(tokens.deep_view(), keys@) == Err::<Seq<Seq<char>>, ErrorModel>(
                e.deep_view(),
            ),
        },
{
    let ghost all = tokens.deep_view();
    let mut found: Vec<Key> = Vec::new();
    assert(found.deep_view() =~= Seq::<Seq<char>>::empty());
    assert(all.take(0) =~= Seq::<Seq<char>>::empty());
    let mut i: usize = 0;
    while i < tokens.len()
        invariant
            i <= tokens.len(),
            all == tokens.deep_view(),
            convert_keys(all.take(i as int), keys@) == Ok::<Seq<Seq<char>>, ErrorModel>(
                found.deep_view(),
            ),
        decreases tokens.len() - i,
    {
        let ghost longer = all.take(i + 1);
        assert(longer.drop_last() =~= all.take(i as int));
        assert(longer.last() == tokens[i as int]@);
        match keys.resolve(tokens[i].as_str()) {
            Some(key) => {
                let ghost before = found;
                found.push(key);
                proof {
                    lemma_deep_push(before, found, key);
                }
            },
            None => {
                proof {
                    lemma_convert_keys_fails(all, i + 1, keys@);
                }
                return Err(SnippetError::UnknownKeyToken(tokens[i].clone()));
            },
        }
        i += 1;
    }
    assert(all.take(i as int) =~= all);
    Ok(found)
}

/// The part that a raw part becomes.
fn convert_raw_part(part: &RawLinePart, keys: &Keymap) -> (converted: Result<LinePart, SnippetError>)
    ensures
        match converted {
            Ok(p) => convert_part(part.deep_view(), keys@) == Ok::<PartModel, ErrorModel>(
                p.deep_view(),
            ),
            Err(e) => convert_part(part.deep_view(), keys@) == Err::<PartModel, ErrorModel>(
                e.deep_view(),
            ),
        },
{
    match part {
        RawLinePart::Text(text) => Ok(LinePart::Text(text.clone())),
        RawLinePart::Delay(body) => match parse_delay_body(body.as_str()) {
            Some(millis) => Ok(LinePart::Delay(millis)),
            None => Err(SnippetError::MalformedDelay(body.clone())),
        },
        RawLinePart::Arg(name) => Ok(LinePart::Arg(name.clone())),
        RawLinePart::KeyCombo(tokens) => match resolve_tokens(tokens, keys) {
            Ok(found) => Ok(LinePart::KeyCombo(found)),
            Err(e) => Err(e),
        },
    }
}

/// The parts that raw parts become, or the fault of the first that has one.
fn convert_raw_parts(parts: &Vec<RawLinePart>, keys: &Keymap) -> (converted: Result<
    Vec<LinePart>,
    SnippetError,
>)
    ensures
        match converted {
            Ok(line) => convert_parts(parts.deep_view(), keys@) == Ok::<
                Seq<PartModel>,
                ErrorModel,
            >(line.deep_view()),
            Err(e) => convert_parts(parts.deep_view(), keys@) == Err::<Seq<PartModel>, ErrorModel>(
                e.deep_view(),
            ),
        },
{
    let ghost all = parts.deep_view();
    let mut line: Vec<LinePart> = Vec::new();
    assert(line.deep_view() =~= Seq::<PartModel>::empty());
    assert(all.take(0) =~= Seq::<RawPart>::empty());
    let mut i: usize = 0;
    while i < parts.len()
        invariant
            i <= parts.len(),
            all == parts.deep_view(),
            convert_parts(all.take(i as int), keys@) == Ok::<Seq<PartModel>, ErrorModel>(
                line.deep_view(),
            ),
        decreases parts.len() - i,
    {
        let ghost longer = all.take(i + 1);
        assert(longer.drop_last() =~= all.take(i as int));
        assert(longer.last() == parts[i as int].deep_view());
        match convert_raw_part(&parts[i], keys) {
            Ok(part) => {
                let ghost before = line;
                line.push(part);
                proof {
                    lemma_deep_push(before, line, part);
                }
            },
            Err(e) => {
                proof {
                    lemma_convert_parts_fails(all, i + 1, keys@);
                }
                return Err(e);
            },
        }
        i += 1;
    }
    assert(all.take(i as int) =~= all);
    Ok(line)
}

/// Parses one logical line.
///
/// The line is read with the key vocabulary `keys`. Its parts are added to
/// `lines` as one more line, the defaults that it declares are written to
/// `defaults`, and what had to be repaired is added to `diagnostics`. A line
/// that is rejected adds no line; the defaults and diagnostics up to the
/// fault stay.
pub fn snippet_line(
    curr_line: &str,
    keys: &Keymap,
    lines: &mut Vec<Vec<LinePart>>,
    defaults: &mut IndexMap<String, String>,
    diagnostics: &mut Vec<Diagnostic>,
) -> (result: Result<(), SnippetError>)
    ensures
        entries(*final(defaults)) == parse_line(
            curr_line@,
            keys@,
            entries(*old(defaults)),
        ).defaults,
        final(diagnostics).deep_view() == old(diagnostics).deep_view() + parse_line(
            curr_line@,
            keys@,
            entries(*old(defaults)),
        ).diagnostics,
        match result {
            Ok(()) => {
                let parsed = parse_line(curr_line@, keys@, entries(*old(defaults))).parts;
                &&& parsed is Ok
                &&& final(lines).deep_view() == old(lines).deep_view().push(parsed->Ok_0)
            },
            Err(e) => {
                &&& parse_line(curr_line@, keys@, entries(*old(defaults))).parts == Err::<
                    Seq<PartModel>,
                    ErrorModel,
                >(e.deep_view())
                &&& *final(lines) == *old(lines)
            },
        },
{
    let chars = chars_of(curr_line);
    let mut found: Vec<Diagnostic> = Vec::new();
    let reader = read_line(&chars, defaults, &mut found);
    let result = if reader.arglist {
        Err(SnippetError::UnsupportedArglist)
    } else {
        let done = finish_reader(reader, defaults, &mut found);
        let Reader { parts, text, mode: _, arglist: _ } = done;
        let mut parts = parts;
        if !text.as_str().is_empty() {
            let ghost before = parts;
            let ghost last = RawLinePart::Text(text);
            parts.push(RawLinePart::Text(text));
            proof {
                lemma_deep_push(before, parts, last);
            }
        }
        assert(parts.deep_view() == finished_parts(done.state(*defaults, found)));
        match convert_raw_parts(&parts, keys) {
            Ok(line) => {
                let ghost before = *lines;
                lines.push(line);
                proof {
                    lemma_deep_push(before, *lines, line);
                }
                Ok(())
            },
            Err(e) => Err(e),
        }
    };
    let ghost reported = found;
    let ghost before = *diagnostics;
    diagnostics.append(&mut found);
    assert(diagnostics.deep_view() =~= before.deep_view() + reported.deep_view());
    result
}

/// A parsed template.
pub struct Snippet {
    /// The logical lines, each as its parts.
    pub lines: Vec<Vec<LinePart>>,
    /// The defaults that the template declares, by argument name.
    pub defaults: IndexMap<String, String>,
}

/// Parses the template `text` with the key vocabulary `keys`.
///
/// The physical lines are joined into logical lines and parsed in order, up
/// to the first that is rejected. What had to be repaired is added to
/// `diagnostics`.
pub fn snippet(text: &str, keys: &Keymap, diagnostics: &mut Vec<Diagnostic>) -> (result: Result<
    Snippet,
    SnippetError,
>)
    ensures
        final(diagnostics).deep_view() == old(diagnostics).deep_view() + parse_snippet(
            text@,
            keys@,
        ).diagnostics,
        match result {
            Ok(parsed) => {
                &&& parse_snippet(text@, keys@).fault is None
                &&& parsed.lines.deep_view() == parse_snippet(text@, keys@).lines
                &&& entries(parsed.defaults) == parse_snippet(text@, keys@).defaults
            },
            Err(e) => parse_snippet(text@, keys@).fault == Some(e.deep_view()),
        },
{
    let joined = logical_lines(text);
    let mut lines: Vec<Vec<LinePart>> = Vec::new();
    let mut defaults = crate::registry::new();
    let mut found: Vec<Diagnostic> = Vec::new();
    let mut fault: Option<SnippetError> = None;
    assert(lines.deep_view() =~= Seq::<Seq<PartModel>>::empty());
    assert(found.deep_view() =~= Seq::<DiagnosticModel>::empty());
    let ghost begin = SnippetOutcome {
        lines: Seq::empty(),
        defaults: Seq::empty(),
        diagnostics: Seq::empty(),
        fault: None,
    };
    let mut i: usize = 0;
    while i < joined.lines.len() && fault.is_none()
        invariant
            i <= joined.lines.len(),
            parse_lines_from(
                joined.lines.deep_view(),
                i as int,
                joined.pending,
                keys@,
                SnippetOutcome {
                    lines: lines.deep_view(),
                    defaults: entries(defaults),
                    diagnostics: found.deep_view(),
                    fault: fault.deep_view(),
                },
            ) == parse_lines_from(joined.lines.deep_view(), 0, joined.pending, keys@, begin),
        decreases joined.lines.len() - i,
    {
        if joined.pending && i == joined.lines.len() - 1 {
            let ghost before = found;
            found.push(Diagnostic::PendingContinuation);
            proof {
                lemma_deep_push(before, found, Diagnostic::PendingContinuation);
            }
        }
        match snippet_line(joined.lines[i].as_str(), keys, &mut lines, &mut defaults, &mut found) {
            Ok(()) => {},
            Err(e) => {
                fault = Some(e);
            },
        }
        i += 1;
    }
    let ghost reported = found;
    let ghost before = *diagnostics;
    diagnostics.append(&mut found);
    assert(diagnostics.deep_view() =~= before.deep_view() + reported.deep_view());
    match fault {
        Some(e) => Err(e),
        None => Ok(Snippet { lines, defaults }),
    }
}

/// The tokens of the key combos among `parts`.
fn collect_tokens(parts: &Vec<RawLinePart>, found: &mut Vec<String>)
    ensures
        final(found).deep_view() == old(found).deep_view() + raw_tokens(parts.deep_view()),
{
    let ghost all = parts.deep_view();
    let ghost begin = found.deep_view();
    assert(all.take(0) =~= Seq::<RawPart>::empty());
    assert(begin + raw_tokens(all.take(0)) =~= begin);
    let mut i: usize = 0;
    while i < parts.len()
        invariant
            i <= parts.len(),
            all == parts.deep_view(),
            found.deep_view() == begin + raw_tokens(all.take(i as int)),
        decreases parts.len() - i,
    {
        let ghost longer = all.take(i + 1);
        assert(longer.drop_last() =~= all.take(i as int));
        assert(longer.last() == parts[i as int].deep_view());
        match &parts[i] {
            RawLinePart::KeyCombo(tokens) => {
                let ghost before = found.deep_view();
                let mut copy = copy_strings(tokens);
                let ghost added = copy;
                found.append(&mut copy);
                assert(found.deep_view() =~= before + added.deep_view());
                assert(found.deep_view() =~= begin + raw_tokens(longer));
            },
            _ => {
                assert(found.deep_view() =~= begin + raw_tokens(longer));
            },
        }
        i += 1;
    }
    assert(all.take(i as int) =~= all);
}

/// Every token of every key combo of the template `text`, in order.
///
/// These are the tokens that a key vocabulary has to hold for the template to
/// parse: a host that looks keys up one by one resolves them and binds those
/// that stand for a key.
pub fn key_tokens(text: &str) -> (tokens: Vec<String>)
    ensures
        tokens.deep_view() == key_tokens_of(text@),
{
    let joined = logical_lines(text);
    let mut tokens: Vec<String> = Vec::new();
    assert(tokens.deep_view() =~= Seq::<Seq<char>>::empty());
    let mut i: usize = 0;
    while i < joined.lines.len()
        invariant
            i <= joined.lines.len(),
            tokens_from(joined.lines.deep_view(), i as int, tokens.deep_view()) == tokens_from(
                joined.lines.deep_view(),
                0,
                Seq::empty(),
            ),
        decreases joined.lines.len() - i,
    {
        let chars = chars_of(joined.lines[i].as_str());
        let mut defaults = crate::registry::new();
        let mut ignored: Vec<Diagnostic> = Vec::new();
        let reader = read_line(&chars, &mut defaults, &mut ignored);
        if reader.arglist {
            collect_tokens(&reader.parts, &mut tokens);
        } else {
            let done = finish_reader(reader, &mut defaults, &mut ignored);
            collect_tokens(&done.parts, &mut tokens);
        }
        i += 1;
    }
    tokens
}

} // verus!
