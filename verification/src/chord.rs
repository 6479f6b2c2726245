//! The chord engine: the keys of a combo become presses and releases.
//!
//! The keys are taken left to right. A key that is not held is pressed; a key
//! that is held is released. The keys that are still held at the end are
//! released, the one pressed last first.

use crate::part::Key;
use crate::text::lemma_deep_push;
use vstd::prelude::*;

verus! {

/// One event for the keyboard.
#[derive(Debug, Clone, PartialEq, Eq)]
pub enum KeyAction {
    Press(Key),
    Release(Key),
}

/// What a `KeyAction` holds: the name of the key and what happens to it.
pub enum ActionModel {
    Press(Seq<char>),
    Release(Seq<char>),
}

impl DeepView for KeyAction {
    type V = ActionModel;

    open spec fn deep_view(&self) -> ActionModel {
        match self {
            KeyAction::Press(key) => ActionModel::Press(key@),
            KeyAction::Release(key) => ActionModel::Release(key@),
        }
    }
}

/// The engine's state: the keys that are held, in the order in which they
/// were pressed, and the actions so far.
pub struct Chord {
    pub held: Seq<Seq<char>>,
    pub actions: Seq<ActionModel>,
}

/// The last position at which `key` is held.
pub open spec fn held_at(held: Seq<Seq<char>>, key: Seq<char>) -> Option<int>
    decreases held.len(),
{
    if held.len() == 0 {
        None
    } else if held.last() == key {
        Some(held.len() - 1)
    } else {
        held_at(held.drop_last(), key)
    }
}

/// What one key of the combo does: it is released if it is held, and pressed
/// if it is not.
pub open spec fn toggle(state: Chord, key: Seq<char>) -> Chord {
    match held_at(state.held, key) {
        Some(i) => Chord {
            held: state.held.remove(i),
            actions: state.actions.push(ActionModel::Release(key)),
        },
        None => Chord {
            held: state.held.push(key),
            actions: state.actions.push(ActionModel::Press(key)),
        },
    }
}

/// The state after the keys from position `i` on.
pub open spec fn toggle_from(keys: Seq<Seq<char>>, i: int, state: Chord) -> Chord
    decreases keys.len() - i,
{
    if i < 0 || i >= keys.len() {
        state
    } else {
        toggle_from(keys, i + 1, toggle(state, keys[i]))
    }
}

/// The releases of the keys `held`, the last one first.
pub open spec fn release_all(held: Seq<Seq<char>>) -> Seq<ActionModel> {
    Seq::new(held.len(), |i: int| ActionModel::Release(held[held.len() - 1 - i]))
}

/// The presses and releases that send the combo `keys`.
pub open spec fn chord_actions(keys: Seq<Seq<char>>) -> Seq<ActionModel> {
    let end = toggle_from(keys, 0, Chord { held: Seq::empty(), actions: Seq::empty() });
    end.actions + release_all(end.held)
}

/// A position that `held_at` reports holds the key.
pub proof fn lemma_held_at(held: Seq<Seq<char>>, key: Seq<char>)
    ensures
        match held_at(held, key) {
            Some(i) => 0 <= i < held.len() && held[i] == key && forall|j: int|
                i < j < held.len() ==> held[j] != key,
            None => forall|j: int| 0 <= j < held.len() ==> held[j] != key,
        },
    decreases held.len(),
{
    if held.len() > 0 && held.last() != key {
        let front = held.drop_last();
        lemma_held_at(front, key);
        assert(forall|j: int| 0 <= j < front.len() ==> front[j] == held[j]);
        match held_at(front, key) {
            Some(i) => {
                assert forall|j: int| i < j < held.len() implies held[j] != key by {
                    if j < front.len() {
                        assert(front[j] != key);
                    }
                }
            },
            None => {
                assert forall|j: int| 0 <= j < held.len() implies held[j] != key by {
                    if j < front.len() {
                        assert(front[j] != key);
                    }
                }
            },
        }
    }
}

/// The last position at which `key` is held.
fn find_held(held: &Vec<Key>, key: &Key) -> (position: Option<usize>)
    ensures
        match position {
            Some(i) => held_at(held.deep_view(), key@) == Some(i as int),
            None => held_at(held.deep_view(), key@) is None,
        },
{
    let ghost all = held.deep_view();
    let mut i: usize = held.len();
    assert(all.take(i as int) =~= all);
    while i > 0
        invariant
            i <= held.len(),
            all == held.deep_view(),
            held_at(all, key@) == held_at(all.take(i as int), key@),
        decreases i,
    {
        let ghost shorter = all.take(i as int);
        assert(shorter.last() == held[i - 1]@);
        assert(shorter.drop_last() =~= all.take(i - 1));
        if held[i - 1].same(key) {
            return Some(i - 1);
        }
        i -= 1;
    }
    None
}

/// Turns the keys of a combo into the presses and releases that send it.
pub fn key_combo(keys: &Vec<Key>) -> (actions: Vec<KeyAction>)
    ensures
        actions.deep_view() == chord_actions(keys.deep_view()),
{
    let mut to_release: Vec<Key> = Vec::new();
    let mut actions: Vec<KeyAction> = Vec::new();
    assert(to_release.deep_view() =~= Seq::<Seq<char>>::empty());
    assert(actions.deep_view() =~= Seq::<ActionModel>::empty());
    let mut i: usize = 0;
    while i < keys.len()
        invariant
            i <= keys.len(),
            toggle_from(
                keys.deep_view(),
                i as int,
                Chord { held: to_release.deep_view(), actions: actions.deep_view() },
            ) == toggle_from(
                keys.deep_view(),
                0,
                Chord { held: Seq::empty(), actions: Seq::empty() },
            ),
        decreases keys.len() - i,
    {
        let key = &keys[i];
        let ghost held = to_release;
        let ghost done = actions;
        match find_held(&to_release, key) {
            Some(at) => {
                proof {
                    lemma_held_at(held.deep_view(), key@);
                }
                let released = to_release.remove(at);
                assert(to_release.deep_view() =~= held.deep_view().remove(at as int));
                let action = KeyAction::Release(released);
                actions.push(action);
                proof {
                    lemma_deep_push(done, actions, action);
                }
            },
            None => {
                let pressed = key.duplicate();
                to_release.push(key.duplicate());
                let action = KeyAction::Press(pressed);
                actions.push(action);
                proof {
                    lemma_deep_push(done, actions, action);
                    assert(to_release.deep_view() =~= held.deep_view().push(key@));
                }
            },
        }
        i += 1;
    }
    let ghost scanned = actions.deep_view();
    let ghost rest = release_all(to_release.deep_view());
    let mut j: usize = to_release.len();
    assert(scanned + rest.take(0) =~= scanned);
    while j > 0
        invariant
            j <= to_release.len(),
            rest == release_all(to_release.deep_view()),
            actions.deep_view() == scanned + rest.take(to_release.len() - j),
        decreases j,
    {
        let ghost done = actions;
        let action = KeyAction::Release(to_release[j - 1].duplicate());
        actions.push(action);
        proof {
            lemma_deep_push(done, actions, action);
            assert(actions.deep_view() =~= scanned + rest.take(to_release.len() - j + 1));
        }
        j -= 1;
    }
    assert(rest.take(to_release.len() as int) =~= rest);
    actions
}

/// The keys that are held after `actions`, starting from the keys `held`, if
/// the actions make sense: no key is pressed while it is held, and none is
/// released while it is not.
pub open spec fn replay(actions: Seq<ActionModel>, held: Seq<Seq<char>>) -> Option<Seq<Seq<char>>>
    decreases actions.len(),
{
    if actions.len() == 0 {
        Some(held)
    } else {
        match replay(actions.drop_last(), held) {
            None => None,
            Some(before) => match actions.last() {
                ActionModel::Press(key) => if held_at(before, key) is None {
                    Some(before.push(key))
                } else {
                    None
                },
                ActionModel::Release(key) => match held_at(before, key) {
                    Some(i) => Some(before.remove(i)),
                    None => None,
                },
            },
        }
    }
}

/// No key is held twice.
pub open spec fn distinct_keys(held: Seq<Seq<char>>) -> bool {
    forall|i: int, j: int| 0 <= i < j < held.len() ==> held[i] != held[j]
}

/// One key of the combo keeps the engine's actions in step with the keys it
/// holds.
proof fn lemma_toggle_replays(state: Chord, key: Seq<char>)
    requires
        replay(state.actions, Seq::empty()) == Some(state.held),
    ensures
        replay(toggle(state, key).actions, Seq::empty()) == Some(toggle(state, key).held),
{
    let after = toggle(state, key);
    assert(after.actions.drop_last() =~= state.actions);
}

/// All keys of the combo keep the engine's actions in step with the keys it
/// holds.
proof fn lemma_toggle_from_replays(keys: Seq<Seq<char>>, i: int, state: Chord)
    requires
        replay(state.actions, Seq::empty()) == Some(state.held),
        distinct_keys(state.held),
    ensures
        replay(toggle_from(keys, i, state).actions, Seq::empty()) == Some(
            toggle_from(keys, i, state).held,
        ),
        distinct_keys(toggle_from(keys, i, state).held),
    decreases keys.len() - i,
{
    if !(i < 0 || i >= keys.len()) {
        lemma_toggle_replays(state, keys[i]);
        lemma_held_at(state.held, keys[i]);
        lemma_toggle_from_replays(keys, i + 1, toggle(state, keys[i]));
    }
}

/// Releasing the keys that are held, the last one first, leaves none held.
proof fn lemma_release_all_replays(actions: Seq<ActionModel>, held: Seq<Seq<char>>, n: int)
    requires
        replay(actions, Seq::empty()) == Some(held),
        distinct_keys(held),
        0 <= n <= held.len(),
    ensures
        replay(actions + release_all(held).take(n), Seq::empty()) == Some(
            held.take(held.len() - n),
        ),
    decreases n,
{
    let all = release_all(held);
    if n == 0 {
        assert(actions + all.take(0) =~= actions);
        assert(held.take(held.len() as int) =~= held);
    } else {
        lemma_release_all_replays(actions, held, n - 1);
        let longer = actions + all.take(n);
        assert(longer.drop_last() =~= actions + all.take(n - 1));
        let before = held.take(held.len() - n + 1);
        let key = held[held.len() - n];
        assert(longer.last() == ActionModel::Release(key));
        assert(before.last() == key);
        assert(before.remove(before.len() - 1) =~= held.take(held.len() - n));
    }
}

/// The actions of a combo make sense and leave no key held: no key is
/// pressed while it is held, none is released while it is not, and after the
/// last action every key that was pressed has been released.
pub proof fn lemma_chord_releases_every_key(keys: Seq<Seq<char>>)
    ensures
        replay(chord_actions(keys), Seq::empty()) == Some(Seq::<Seq<char>>::empty()),
{
    let begin = Chord { held: Seq::empty(), actions: Seq::empty() };
    lemma_toggle_from_replays(keys, 0, begin);
    let end = toggle_from(keys, 0, begin);
    lemma_release_all_replays(end.actions, end.held, end.held.len() as int);
    assert(release_all(end.held).take(end.held.len() as int) =~= release_all(end.held));
    assert(end.held.take(0) =~= Seq::<Seq<char>>::empty());
}

/// The engine takes one action for each key that it is given.
proof fn lemma_toggle_from_length(keys: Seq<Seq<char>>, i: int, state: Chord)
    requires
        0 <= i <= keys.len(),
    ensures
        toggle_from(keys, i, state).actions.len() == state.actions.len() + keys.len() - i,
    decreases keys.len() - i,
{
    if i < keys.len() {
        lemma_toggle_from_length(keys, i + 1, toggle(state, keys[i]));
    }
}

/// A combo takes one action for each of its keys, and one more for each key
/// that is still held after the last of them.
pub proof fn lemma_chord_length(keys: Seq<Seq<char>>)
    ensures
        chord_actions(keys).len() == keys.len() + toggle_from(
            keys,
            0,
            Chord { held: Seq::empty(), actions: Seq::empty() },
        ).held.len(),
{
    lemma_toggle_from_length(keys, 0, Chord { held: Seq::empty(), actions: Seq::empty() });
}

} // verus!
