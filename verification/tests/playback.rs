use indexmap::IndexMap;
use keysnip::chord::KeyAction::{Press, Release};
use keysnip::part::Key;
use keysnip::part::LinePart::{Arg, Delay, KeyCombo, Text};
use keysnip::playback::PlaybackStep::{Commit, FocusCycle, Settle, Typed};
use keysnip::playback::{
    is_comment_line, line_steps, playback, playback_steps, type_text, PlaybackStep, CHAR_PAUSE_MILLIS,
    LINE_SETTLE_MILLIS,
};

fn values() -> IndexMap<String, String> {
    IndexMap::from([("who".to_string(), "me".to_string())])
}

#[test]
fn text_is_typed_character_by_character() {
    let mut steps = vec![Settle];
    type_text("aé", &mut steps);
    assert_eq!(steps, vec![Settle, Typed('a'), Typed('é')]);
}

#[test]
fn line_is_played_part_by_part_and_committed() {
    let line = vec![
        Text("hi ".to_string()),
        Arg("who".to_string()),
        Delay(500),
        KeyCombo(vec![Key::new("Control"), Key::new("Alt"), Key::new("Control")]),
    ];
    assert_eq!(
        line_steps(&line, &values()),
        vec![
            Typed('h'),
            Typed('i'),
            Typed(' '),
            Typed('m'),
            Typed('e'),
            PlaybackStep::Key(Press(Key::new("Control"))),
            PlaybackStep::Key(Press(Key::new("Alt"))),
            PlaybackStep::Key(Release(Key::new("Control"))),
            PlaybackStep::Key(Release(Key::new("Alt"))),
            Commit,
        ]
    );
}

#[test]
fn empty_line_is_committed() {
    assert_eq!(line_steps(&vec![], &values()), vec![Commit]);
}

#[test]
fn comment_line_is_skipped() {
    let line = vec![Text("## note ".to_string()), Arg("who".to_string())];
    assert!(is_comment_line(&line));
    assert_eq!(line_steps(&line, &values()), vec![]);
}

#[test]
fn comment_needs_text_in_front() {
    assert!(!is_comment_line(&vec![Text("#".to_string())]));
    assert!(!is_comment_line(&vec![Text(" ##".to_string())]));
    assert!(!is_comment_line(&vec![Text("".to_string()), Arg("##".to_string())]));
    assert!(!is_comment_line(&vec![Arg("who".to_string()), Text("##".to_string())]));
    assert!(!is_comment_line(&vec![]));
    assert!(is_comment_line(&vec![Text("##".to_string())]));
}

#[test]
fn playback_cycles_focus_and_settles_before_each_line() {
    let lines = vec![
        vec![Text("a".to_string())],
        vec![Text("## skip".to_string())],
        vec![Arg("who".to_string())],
    ];
    assert_eq!(
        playback_steps(&lines, &values()),
        vec![FocusCycle, Settle, Typed('a'), Commit, Settle, Settle, Typed('m'), Typed('e'), Commit]
    );
}

#[test]
fn playback_waits_for_every_value() {
    let lines = vec![vec![Text("a".to_string())], vec![Arg("other".to_string())]];
    assert_eq!(playback(&lines, &values()), None);
    let lines = vec![vec![Text("a".to_string())], vec![Arg("who".to_string())]];
    assert_eq!(playback(&lines, &values()), Some(playback_steps(&lines, &values())));
}

#[test]
fn pauses_are_fixed() {
    assert_eq!(LINE_SETTLE_MILLIS, 100);
    assert_eq!(CHAR_PAUSE_MILLIS, 10);
}
