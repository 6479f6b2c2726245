//! The playback driver: resolved lines become the steps that the host
//! performs, in order.
//!
//! The library decides what is sent and in which order; the host owns the
//! keyboard and the clock.

use crate::chord::{chord_actions, key_combo, ActionModel, KeyAction};
use crate::part::{Key, LinePart, PartModel};
use crate::registry::{entries, lookup, map_get, Entries};
use crate::resolve::{
    all_resolved, lemma_next_missing_none, line_resolved, next_missing_arg, next_missing_from,
};
use crate::text::{chars_of, lemma_deep_push};
use indexmap::IndexMap;
use vstd::prelude::*;

verus! {

/// The pause before each line, in milliseconds.
pub const LINE_SETTLE_MILLIS: u64 = 100;

/// The pause after each typed character, in milliseconds.
pub const CHAR_PAUSE_MILLIS: u64 = 10;

/// One step of a playback.
#[derive(Debug, Clone, PartialEq, Eq)]
pub enum PlaybackStep {
    /// Switch the input focus away and back.
    FocusCycle,
    /// Wait `LINE_SETTLE_MILLIS` before a line.
    Settle,
    /// Click the key of this character, then wait `CHAR_PAUSE_MILLIS`.
    Typed(char),
    /// Press or release a key.
    Key(KeyAction),
    /// Click the key that submits the line.
    Commit,
}

/// What a `PlaybackStep` holds.
pub enum StepModel {
    FocusCycle,
    Settle,
    Typed(char),
    Key(ActionModel),
    Commit,
}

impl DeepView for PlaybackStep {
    type V = StepModel;

    open spec fn deep_view(&self) -> StepModel {
        match self {
            PlaybackStep::FocusCycle => StepModel::FocusCycle,
            PlaybackStep::Settle => StepModel::Settle,
            PlaybackStep::Typed(ch) => StepModel::Typed(*ch),
            PlaybackStep::Key(action) => StepModel::Key(action.deep_view()),
            PlaybackStep::Commit => StepModel::Commit,
        }
    }
}

/// Typing one character.
pub open spec fn typed(ch: char) -> StepModel {
    StepModel::Typed(ch)
}

/// Typing `text`: one step for each character.
pub open spec fn typing(text: Seq<char>) -> Seq<StepModel> {
    Seq::new(text.len(), |i: int| typed(text[i]))
}

/// Sending a combo: one step for each press and release.
pub open spec fn chording(keys: Seq<Seq<char>>) -> Seq<StepModel> {
    let actions = chord_actions(keys);
    Seq::new(actions.len(), |i: int| StepModel::Key(actions[i]))
}

/// The steps of one part. Text is typed; an argument is typed as its value;
/// a combo is sent as its presses and releases. A delay gives no step:
/// pauses are parsed and checked, and playback does not perform them.
pub open spec fn part_steps(part: PartModel, values: Entries) -> Seq<StepModel> {
    match part {
        PartModel::Text(text) => typing(text),
        PartModel::Delay(_) => Seq::empty(),
        PartModel::Arg(name) => match lookup(values, name) {
            Some(value) => typing(value),
            None => Seq::empty(),
        },
        PartModel::KeyCombo(keys) => chording(keys),
    }
}

/// The steps of the parts from position `i` on, after `done`.
pub open spec fn parts_steps_from(
    line: Seq<PartModel>,
    i: int,
    values: Entries,
    done: Seq<StepModel>,
) -> Seq<StepModel>
    decreases line.len() - i,
{
    if i < 0 || i >= line.len() {
        done
    } else {
        parts_steps_from(line, i + 1, values, done + part_steps(line[i], values))
    }
}

/// Whether the line is a comment: its first part is text that begins with
/// `##`.
pub open spec fn is_comment(line: Seq<PartModel>) -> bool {
    line.len() > 0 && (line[0] matches PartModel::Text(text) && text.len() >= 2 && text[0] == '#'
        && text[1] == '#')
}

/// The steps of one line: nothing for a comment; else the steps of its parts
/// and the commit.
pub open spec fn line_plan(line: Seq<PartModel>, values: Entries) -> Seq<StepModel> {
    if is_comment(line) {
        Seq::empty()
    } else {
        parts_steps_from(line, 0, values, Seq::empty()).push(StepModel::Commit)
    }
}

/// The steps of the lines from position `i` on, after `done`: before each
/// line the settle pause, then the line.
pub open spec fn lines_plan_from(
    lines: Seq<Seq<PartModel>>,
    i: int,
    values: Entries,
    done: Seq<StepModel>,
) -> Seq<StepModel>
    decreases lines.len() - i,
{
    if i < 0 || i >= lines.len() {
        done
    } else {
        lines_plan_from(
            lines,
            i + 1,
            values,
            done.push(StepModel::Settle) + line_plan(lines[i], values),
        )
    }
}

/// The steps of a whole playback: the focus cycle, then the lines.
pub open spec fn playback_plan(lines: Seq<Seq<PartModel>>, values: Entries) -> Seq<StepModel> {
    lines_plan_from(lines, 0, values, seq![StepModel::FocusCycle])
}

/// Adds the steps that type `text`.
pub fn type_text(text: &str, steps: &mut Vec<PlaybackStep>)
    ensures
        final(steps).deep_view() == old(steps).deep_view() + typing(text@),
{
    let chars = chars_of(text);
    let ghost begin = steps.deep_view();
    assert(begin + typing(text@).take(0) =~= begin);
    let mut i: usize = 0;
    while i < chars.len()
        invariant
            i <= chars.len(),
            chars@ == text@,
            steps.deep_view() == begin + typing(text@).take(i as int),
        decreases chars.len() - i,
    {
        let ghost before = *steps;
        let step = PlaybackStep::Typed(chars[i]);
        steps.push(step);
        proof {
            lemma_deep_push(before, *steps, step);
            assert(typing(text@).len() == text@.len());
            assert(typing(text@)[i as int] == step.deep_view());
            assert(typing(text@).take(i + 1) =~= typing(text@).take(i as int).push(
                step.deep_view(),
            ));
            assert(steps.deep_view() =~= begin + typing(text@).take(i + 1));
        }
        i += 1;
    }
    assert(typing(text@).len() == text@.len());
    assert(typing(text@).take(i as int) =~= typing(text@));
}

/// Adds the steps that send the combo `keys`.
fn send_combo(keys: &Vec<Key>, steps: &mut Vec<PlaybackStep>)
    ensures
        final(steps).deep_view() == old(steps).deep_view() + chording(keys.deep_view()),
{
    let actions = key_combo(keys);
    let ghost begin = steps.deep_view();
    let ghost all = chording(keys.deep_view());
    assert(begin + all.take(0) =~= begin);
    let mut i: usize = 0;
    while i < actions.len()
        invariant
            i <= actions.len(),
            actions.deep_view() == chord_actions(keys.deep_view()),
            all == chording(keys.deep_view()),
            steps.deep_view() == begin + all.take(i as int),
        decreases actions.len() - i,
    {
        let ghost before = *steps;
        assert(actions.deep_view()[i as int] == actions[i as int].deep_view());
        let step = match &actions[i] {
            KeyAction::Press(key) => PlaybackStep::Key(KeyAction::Press(key.duplicate())),
            KeyAction::Release(key) => PlaybackStep::Key(KeyAction::Release(key.duplicate())),
        };
        steps.push(step);
        proof {
            lemma_deep_push(before, *steps, step);
            assert(steps.deep_view() =~= begin + all.take(i + 1));
        }
        i += 1;
    }
    assert(all.take(i as int) =~= all);
}

/// Whether the line is a comment.
pub fn is_comment_line(line: &Vec<LinePart>) -> (comment: bool)
    ensures
        comment == is_comment(line.deep_view()),
{
    if line.len() == 0 {
        return false;
    }
    assert(line.deep_view()[0] == line[0].deep_view());
    match &line[0] {
        LinePart::Text(text) => {
            let chars = chars_of(text.as_str());
            chars.len() >= 2 && chars[0] == '#' && chars[1] == '#'
        },
        _ => false,
    }
}

/// The steps that play one line. The line's arguments all have a value.
pub fn line_steps(line: &Vec<LinePart>, arg_values: &IndexMap<String, String>) -> (steps: Vec<
    PlaybackStep,
>)
    requires
        line_resolved(line.deep_view(), entries(*arg_values)),
    ensures
        steps.deep_view() == line_plan(line.deep_view(), entries(*arg_values)),
{
    let mut steps: Vec<PlaybackStep> = Vec::new();
    assert(steps.deep_view() =~= Seq::<StepModel>::empty());
    if is_comment_line(line) {
        return steps;
    }
    let ghost values = entries(*arg_values);
    let mut i: usize = 0;
    while i < line.len()
        invariant
            i <= line.len(),
            values == entries(*arg_values),
            line_resolved(line.deep_view(), values),
            parts_steps_from(line.deep_view(), i as int, values, steps.deep_view())
                == parts_steps_from(line.deep_view(), 0, values, Seq::empty()),
        decreases line.len() - i,
    {
        assert(line.deep_view()[i as int] == line[i as int].deep_view());
        let ghost before = steps.deep_view();
        match &line[i] {
            LinePart::Text(text) => {
                type_text(text.as_str(), &mut steps);
            },
            LinePart::Delay(_) => {
                assert(steps.deep_view() =~= before + Seq::<StepModel>::empty());
            },
            LinePart::Arg(name) => {
                match map_get(arg_values, name.as_str()) {
                    Some(value) => {
                        type_text(value.as_str(), &mut steps);
                    },
                    None => {
                        assert(false);
                    },
                }
            },
            LinePart::KeyCombo(keys) => {
                send_combo(keys, &mut steps);
            },
        }
        i += 1;
    }
    let ghost before = steps;
    steps.push(PlaybackStep::Commit);
    proof {
        lemma_deep_push(before, steps, PlaybackStep::Commit);
    }
    steps
}

/// The steps of a whole playback. Every argument of every line has a value.
pub fn playback_steps(lines: &Vec<Vec<LinePart>>, arg_values: &IndexMap<String, String>) -> (steps:
    Vec<PlaybackStep>)
    requires
        all_resolved(lines.deep_view(), entries(*arg_values)),
    ensures
        steps.deep_view() == playback_plan(lines.deep_view(), entries(*arg_values)),
{
    let mut steps: Vec<PlaybackStep> = Vec::new();
    steps.push(PlaybackStep::FocusCycle);
    assert(steps.deep_view() =~= seq![StepModel::FocusCycle]);
    let ghost values = entries(*arg_values);
    let mut i: usize = 0;
    while i < lines.len()
        invariant
            i <= lines.len(),
            values == entries(*arg_values),
            all_resolved(lines.deep_view(), values),
            lines_plan_from(lines.deep_view(), i as int, values, steps.deep_view())
                == lines_plan_from(lines.deep_view(), 0, values, seq![StepModel::FocusCycle]),
        decreases lines.len() - i,
    {
        assert(lines.deep_view()[i as int] == lines[i as int].deep_view());
        let ghost before = steps;
        steps.push(PlaybackStep::Settle);
        proof {
            lemma_deep_push(before, steps, PlaybackStep::Settle);
        }
        let mut line = line_steps(&lines[i], arg_values);
        let ghost settled = steps.deep_view();
        let ghost added = line.deep_view();
        steps.append(&mut line);
        assert(steps.deep_view() =~= settled + added);
        i += 1;
    }
    steps
}

/// The steps of a whole playback, or nothing where an argument of some line
/// has no value yet.
pub fn playback(lines: &Vec<Vec<LinePart>>, arg_values: &IndexMap<String, String>) -> (steps: Option<
    Vec<PlaybackStep>,
>)
    ensures
        match steps {
            Some(plan) => {
                &&& all_resolved(lines.deep_view(), entries(*arg_values))
                &&& plan.deep_view() == playback_plan(lines.deep_view(), entries(*arg_values))
            },
            None => !all_resolved(lines.deep_view(), entries(*arg_values)),
        },
{
    proof {
        lemma_next_missing_none(lines.deep_view(), 0, entries(*arg_values));
    }
    match next_missing_arg(lines, arg_values) {
        Some(_) => None,
        None => Some(playback_steps(lines, arg_values)),
    }
}

} // verus!
