//! The normal form of a line: no two texts side by side, and no empty text
//! at the end.
//!
//! `normalize` brings any sequence of parts into that form. It changes
//! nothing that is in that form already, so normalizing twice is normalizing
//! once; and what the tokenizer gives is in that form.

use crate::grammar::{
    close, convert_parts, end_of_line, feed, finished_parts, parse_line, parse_lines_from,
    parse_snippet, peek, scan_from, start, step, takes_two, Mode, RawPart, Scan, SnippetOutcome,
};
use crate::part::{Key, LinePart, PartModel};
use crate::registry::Entries;
use crate::text::lemma_deep_push;
use vstd::prelude::*;
use vstd::string::StringExecFns;

verus! {

/// The parts with every run of texts made one text.
pub open spec fn coalesce(parts: Seq<PartModel>) -> Seq<PartModel>
    decreases parts.len(),
{
    if parts.len() == 0 {
        Seq::empty()
    } else {
        let front = coalesce(parts.drop_last());
        match parts.last() {
            PartModel::Text(text) => if front.len() > 0 && front.last() is Text {
                front.drop_last().push(PartModel::Text(front.last()->Text_0 + text))
            } else {
                front.push(PartModel::Text(text))
            },
            other => front.push(other),
        }
    }
}

/// The parts without the empty text that they may end with.
pub open spec fn drop_trailing_empty(parts: Seq<PartModel>) -> Seq<PartModel> {
    if parts.len() > 0 && (parts.last() matches PartModel::Text(text) && text.len() == 0) {
        parts.drop_last()
    } else {
        parts
    }
}

/// The normal form of `parts`.
pub open spec fn normalize(parts: Seq<PartModel>) -> Seq<PartModel> {
    drop_trailing_empty(coalesce(parts))
}

/// A copy of the part.
fn copy_part(part: &LinePart) -> (copy: LinePart)
    ensures
        copy.deep_view() == part.deep_view(),
{
    match part {
        LinePart::Text(text) => LinePart::Text(text.clone()),
        LinePart::Delay(millis) => LinePart::Delay(*millis),
        LinePart::Arg(name) => LinePart::Arg(name.clone()),
        LinePart::KeyCombo(keys) => {
            let mut copy: Vec<Key> = Vec::new();
            let mut i: usize = 0;
            while i < keys.len()
                invariant
                    i <= keys.len(),
                    copy.len() == i,
                    forall|j: int| 0 <= j < i ==> copy[j]@ == keys[j]@,
                decreases keys.len() - i,
            {
                copy.push(keys[i].duplicate());
                i += 1;
            }
            assert(copy.deep_view() =~= keys.deep_view());
            LinePart::KeyCombo(copy)
        },
    }
}

/// Brings the parts of a line into normal form: every run of texts becomes
/// one text, and an empty text at the end is dropped.
pub fn normalize_line(line: &Vec<LinePart>) -> (normal: Vec<LinePart>)
    ensures
        normal.deep_view() == normalize(line.deep_view()),
{
    let ghost all = line.deep_view();
    let mut normal: Vec<LinePart> = Vec::new();
    assert(normal.deep_view() =~= Seq::<PartModel>::empty());
    assert(all.take(0) =~= Seq::<PartModel>::empty());
    let mut i: usize = 0;
    while i < line.len()
        invariant
            i <= line.len(),
            all == line.deep_view(),
            normal.deep_view() == coalesce(all.take(i as int)),
        decreases line.len() - i,
    {
        let ghost longer = all.take(i + 1);
        assert(longer.drop_last() =~= all.take(i as int));
        assert(longer.last() == line[i as int].deep_view());
        let ghost front = normal;
        let run = match &line[i] {
            LinePart::Text(_) => normal.len() > 0 && matches!(
                normal[normal.len() - 1],
                LinePart::Text(_)
            ),
            _ => false,
        };
        assert(front.len() > 0 ==> front.deep_view().last() == front[front.len() - 1].deep_view());
        if run {
            let last = normal.pop();
            assert(normal.deep_view() =~= front.deep_view().drop_last());
            let ghost shorter = normal;
            match (last, &line[i]) {
                (Some(LinePart::Text(before)), LinePart::Text(text)) => {
                    let mut joined = before;
                    joined.append(text.as_str());
                    let part = LinePart::Text(joined);
                    normal.push(part);
                    proof {
                        lemma_deep_push(shorter, normal, part);
                    }
                },
                _ => {
                    assert(false);
                },
            }
        } else {
            let part = copy_part(&line[i]);
            normal.push(part);
            proof {
                lemma_deep_push(front, normal, part);
            }
        }
        i += 1;
    }
    assert(all.take(i as int) =~= all);
    let ghost joined = normal;
    let empty_end = normal.len() > 0 && match &normal[normal.len() - 1] {
        LinePart::Text(text) => text.as_str().is_empty(),
        _ => false,
    };
    assert(joined.len() > 0 ==> joined.deep_view().last() == joined[joined.len() - 1].deep_view());
    if empty_end {
        let _ = normal.pop();
        assert(normal.deep_view() =~= joined.deep_view().drop_last());
    }
    normal
}

/// No two texts stand side by side.
pub open spec fn no_adjacent_texts(parts: Seq<PartModel>) -> bool {
    forall|i: int| 0 <= i < parts.len() - 1 ==> !(#[trigger] parts[i] is Text && parts[i + 1] is Text)
}

/// The parts are in normal form.
pub open spec fn is_normal(parts: Seq<PartModel>) -> bool {
    &&& no_adjacent_texts(parts)
    &&& !(parts.len() > 0 && (parts.last() matches PartModel::Text(text) && text.len() == 0))
}

/// Coalescing leaves no two texts side by side, and ends with a text only if
/// the parts do.
pub proof fn lemma_coalesce_separates(parts: Seq<PartModel>)
    ensures
        no_adjacent_texts(coalesce(parts)),
        parts.len() > 0 ==> coalesce(parts).len() > 0 && (coalesce(parts).last() is Text
            <==> parts.last() is Text),
        parts.len() == 0 ==> coalesce(parts).len() == 0,
    decreases parts.len(),
{
    if parts.len() > 0 {
        let front = coalesce(parts.drop_last());
        lemma_coalesce_separates(parts.drop_last());
        let result = coalesce(parts);
        assert forall|i: int| 0 <= i < result.len() - 1 implies !(#[trigger] result[i] is Text
            && result[i + 1] is Text) by {
            if i < front.len() - 2 {
                assert(result[i] == front[i]);
                assert(result[i + 1] == front[i + 1]);
            } else if i == front.len() - 2 {
                assert(result[i] == front[i]);
                if front.last() is Text {
                    assert(!(front[i] is Text && front[i + 1] is Text));
                }
            }
        }
    }
}

/// Coalescing changes nothing where no two texts stand side by side.
pub proof fn lemma_coalesce_fixes_separated(parts: Seq<PartModel>)
    requires
        no_adjacent_texts(parts),
    ensures
        coalesce(parts) == parts,
    decreases parts.len(),
{
    if parts.len() > 0 {
        let front = parts.drop_last();
        assert forall|i: int| 0 <= i < front.len() - 1 implies !(#[trigger] front[i] is Text
            && front[i + 1] is Text) by {
            assert(front[i] == parts[i]);
            assert(front[i + 1] == parts[i + 1]);
        }
        lemma_coalesce_fixes_separated(front);
        if front.len() > 0 {
            assert(front.last() == parts[parts.len() - 2]);
            assert(!(parts[parts.len() - 2] is Text && parts[parts.len() - 2 + 1] is Text));
        }
        assert(front.push(parts.last()) =~= parts);
    }
}

/// Parts in normal form are their own normal form.
pub proof fn lemma_normal_is_fixed(parts: Seq<PartModel>)
    requires
        is_normal(parts),
    ensures
        normalize(parts) == parts,
{
    lemma_coalesce_fixes_separated(parts);
}

/// The normal form is in normal form.
pub proof fn lemma_normalize_is_normal(parts: Seq<PartModel>)
    ensures
        is_normal(normalize(parts)),
{
    let joined = coalesce(parts);
    lemma_coalesce_separates(parts);
    let result = normalize(parts);
    if result != joined {
        assert(result == joined.drop_last());
        assert forall|i: int| 0 <= i < result.len() - 1 implies !(#[trigger] result[i] is Text
            && result[i + 1] is Text) by {
            assert(result[i] == joined[i]);
            assert(result[i + 1] == joined[i + 1]);
        }
        if result.len() > 0 {
            assert(result.last() == joined[joined.len() - 2]);
            assert(!(joined[joined.len() - 2] is Text && joined[joined.len() - 2 + 1] is Text));
        }
    }
}

/// Coalescing runs of texts and dropping an empty text at the end is
/// idempotent: done twice, it gives what it gives done once.
pub proof fn lemma_normalize_idempotent(parts: Seq<PartModel>)
    ensures
        normalize(normalize(parts)) == normalize(parts),
{
    lemma_normalize_is_normal(parts);
    lemma_normal_is_fixed(normalize(parts));
}

/// Texts and other parts take turns, beginning with a text and ending with
/// another part.
pub open spec fn alternating(parts: Seq<RawPart>) -> bool {
    &&& parts.len() % 2 == 0
    &&& forall|i: int| 0 <= i < parts.len() ==> (#[trigger] parts[i] is Text <==> i % 2 == 0)
}

/// A closing `$` keeps the closed parts alternating.
pub proof fn lemma_close_alternates(s: Scan)
    requires
        alternating(s.parts),
    ensures
        alternating(close(s).parts),
{
}

/// Reading a character keeps the closed parts alternating.
pub proof fn lemma_step_alternates(s: Scan, ch: char, next: Option<char>)
    requires
        alternating(s.parts),
    ensures
        alternating(step(s, ch, next).parts),
{
    lemma_close_alternates(s);
}

/// Reading a line keeps the closed parts alternating.
pub proof fn lemma_scan_alternates(line: Seq<char>, i: int, s: Scan)
    requires
        alternating(s.parts),
    ensures
        alternating(scan_from(line, i, s).parts),
    decreases line.len() - i,
{
    if !(i < 0 || i >= line.len() || s.arglist) {
        let next = peek(line, i);
        let after = step(s, line[i], next);
        lemma_step_alternates(s, line[i], next);
        if takes_two(s, line[i], next) {
            lemma_scan_alternates(line, i + 2, after);
        } else {
            lemma_scan_alternates(line, i + 1, after);
        }
    }
}

/// Converting keeps the number of parts, and a text stays the text it was.
pub proof fn lemma_convert_keeps_shape(raw: Seq<RawPart>, keys: Entries)
    requires
        convert_parts(raw, keys) is Ok,
    ensures
        convert_parts(raw, keys)->Ok_0.len() == raw.len(),
        forall|i: int|
            0 <= i < raw.len() ==> (#[trigger] convert_parts(raw, keys)->Ok_0[i] is Text
                <==> raw[i] is Text),
        forall|i: int|
            0 <= i < raw.len() && raw[i] is Text ==> #[trigger] convert_parts(raw, keys)->Ok_0[i]
                == PartModel::Text(raw[i]->Text_0),
    decreases raw.len(),
{
    if raw.len() > 0 {
        lemma_convert_keeps_shape(raw.drop_last(), keys);
        let front = convert_parts(raw.drop_last(), keys)->Ok_0;
        let all = convert_parts(raw, keys)->Ok_0;
        assert forall|i: int| 0 <= i < raw.len() implies (#[trigger] all[i] is Text
            <==> raw[i] is Text) by {
            if i < raw.len() - 1 {
                assert(all[i] == front[i]);
                assert(raw.drop_last()[i] == raw[i]);
            }
        }
        assert forall|i: int| 0 <= i < raw.len() && raw[i] is Text implies #[trigger] all[i]
            == PartModel::Text(raw[i]->Text_0) by {
            if i < raw.len() - 1 {
                assert(all[i] == front[i]);
                assert(raw.drop_last()[i] == raw[i]);
            }
        }
    }
}

/// What the tokenizer gives is in normal form: no two texts side by side, no
/// empty text at the end.
pub proof fn lemma_parsed_line_is_normal(line: Seq<char>, keys: Entries, defaults: Entries)
    requires
        parse_line(line, keys, defaults).parts is Ok,
    ensures
        is_normal(parse_line(line, keys, defaults).parts->Ok_0),
        normalize(parse_line(line, keys, defaults).parts->Ok_0) == parse_line(
            line,
            keys,
            defaults,
        ).parts->Ok_0,
{
    let read = scan_from(line, 0, start(defaults));
    lemma_scan_alternates(line, 0, start(defaults));
    let done = end_of_line(read);
    assert(alternating(done.parts)) by {
        match read.mode {
            Mode::Text => {},
            Mode::Delay(_) => {
                lemma_close_alternates(read);
            },
            Mode::Arg { name, default } => {
                lemma_close_alternates(
                    Scan {
                        diagnostics: read.diagnostics.push(
                            crate::diagnostic::DiagnosticModel::IncompleteArg { name },
                        ),
                        ..read
                    },
                );
            },
            Mode::KeyCombo { tokens, token } => {
                lemma_close_alternates(
                    Scan {
                        diagnostics: read.diagnostics.push(
                            crate::diagnostic::DiagnosticModel::IncompleteKeyCombo {
                                tokens: crate::grammar::closed_tokens(tokens, token),
                            },
                        ),
                        ..read
                    },
                );
            },
        }
    }
    let raw = finished_parts(done);
    let parts = convert_parts(raw, keys)->Ok_0;
    lemma_convert_keeps_shape(raw, keys);
    assert forall|i: int| 0 <= i < parts.len() - 1 implies !(#[trigger] parts[i] is Text
        && parts[i + 1] is Text) by {
        assert(parts[i] is Text <==> raw[i] is Text);
        assert(parts[i + 1] is Text <==> raw[i + 1] is Text);
        if i + 1 < done.parts.len() {
            assert(raw[i] == done.parts[i]);
            assert(raw[i + 1] == done.parts[i + 1]);
        } else {
            assert(raw[i] == done.parts[i]);
        }
    }
    if parts.len() > 0 {
        assert(parts.last() is Text <==> raw.last() is Text);
        if raw.last() is Text {
            assert(parts[parts.len() - 1] == PartModel::Text(raw[parts.len() - 1]->Text_0));
            if done.text.len() == 0 {
                assert(raw.last() == done.parts[done.parts.len() - 1]);
            }
        }
    }
    lemma_normal_is_fixed(parts);
}

/// Every line is in normal form.
pub open spec fn all_normal(lines: Seq<Seq<PartModel>>) -> bool {
    forall|i: int| 0 <= i < lines.len() ==> is_normal(#[trigger] lines[i])
}

/// Parsing more lines keeps all lines in normal form.
proof fn lemma_lines_stay_normal(
    lines: Seq<Seq<char>>,
    i: int,
    pending: bool,
    keys: Entries,
    state: SnippetOutcome,
)
    requires
        all_normal(state.lines),
    ensures
        all_normal(parse_lines_from(lines, i, pending, keys, state).lines),
    decreases lines.len() - i,
{
    if !(i < 0 || i >= lines.len() || state.fault is Some) {
        let announced = if pending && i == lines.len() - 1 {
            SnippetOutcome {
                diagnostics: state.diagnostics.push(
                    crate::diagnostic::DiagnosticModel::PendingContinuation,
                ),
                ..state
            }
        } else {
            state
        };
        let fed = feed(announced, keys, lines[i]);
        let parsed = parse_line(lines[i], keys, state.defaults);
        if parsed.parts is Ok {
            lemma_parsed_line_is_normal(lines[i], keys, state.defaults);
            assert forall|k: int| 0 <= k < fed.lines.len() implies is_normal(
                #[trigger] fed.lines[k],
            ) by {
                if k < state.lines.len() {
                    assert(fed.lines[k] == state.lines[k]);
                }
            }
        }
        lemma_lines_stay_normal(lines, i + 1, pending, keys, fed);
    }
}

/// Every line of a parsed template is in normal form.
pub proof fn lemma_snippet_is_normal(text: Seq<char>, keys: Entries)
    ensures
        all_normal(parse_snippet(text, keys).lines),
{
    let joined = crate::assemble::logical(text);
    lemma_lines_stay_normal(
        joined.lines,
        0,
        joined.pending,
        keys,
        SnippetOutcome {
            lines: Seq::empty(),
            defaults: Seq::empty(),
            diagnostics: Seq::empty(),
            fault: None,
        },
    );
}

} // verus!
