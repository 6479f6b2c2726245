use keysnip::chord::key_combo;
use keysnip::chord::KeyAction::{Press, Release};
use keysnip::part::Key;

fn keys(names: &[&str]) -> Vec<Key> {
    names.iter().map(|n| Key::new(n)).collect()
}

fn k(name: &str) -> Key {
    Key::new(name)
}

#[test]
fn repeated_key_is_released() {
    assert_eq!(
        key_combo(&keys(&["ctrl", "alt", "ctrl"])),
        vec![Press(k("ctrl")), Press(k("alt")), Release(k("ctrl")), Release(k("alt"))]
    );
}

#[test]
fn held_keys_are_released_in_reverse() {
    assert_eq!(
        key_combo(&keys(&["a", "b"])),
        vec![Press(k("a")), Press(k("b")), Release(k("b")), Release(k("a"))]
    );
}

#[test]
fn empty_combo_sends_nothing() {
    assert_eq!(key_combo(&keys(&[])), vec![]);
}

#[test]
fn key_can_be_pressed_again_after_release() {
    assert_eq!(
        key_combo(&keys(&["a", "a", "a"])),
        vec![Press(k("a")), Release(k("a")), Press(k("a")), Release(k("a"))]
    );
}

#[test]
fn three_keys_nest() {
    assert_eq!(
        key_combo(&keys(&["a", "b", "c", "b"])),
        vec![
            Press(k("a")),
            Press(k("b")),
            Press(k("c")),
            Release(k("b")),
            Release(k("c")),
            Release(k("a"))
        ]
    );
}

#[test]
fn every_press_has_its_release() {
    let combos: [&[&str]; 5] =
        [&["a"], &["a", "b", "a", "b"], &["x", "y", "z"], &["a", "b", "a", "c", "a"], &[]];
    for combo in combos {
        let actions = key_combo(&keys(combo));
        for name in combo.iter() {
            let presses = actions.iter().filter(|a| **a == Press(k(name))).count();
            let releases = actions.iter().filter(|a| **a == Release(k(name))).count();
            assert_eq!(presses, releases);
        }
    }
}
