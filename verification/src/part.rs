//! The parts of a parsed line, and the keys a chord is made of.

use crate::registry::{entries, lookup, map_get, map_insert, map_new, upsert, Entries};
use indexmap::IndexMap;
use vstd::prelude::*;

verus! {

/// A key of the keyboard, known by its canonical name.
#[derive(Debug, Clone, PartialEq, Eq, Hash)]
pub struct Key {
    pub name: String,
}

impl View for Key {
    type V = Seq<char>;

    open spec fn view(&self) -> Seq<char> {
        self.name@
    }
}

impl DeepView for Key {
    type V = Seq<char>;

    open spec fn deep_view(&self) -> Seq<char> {
        self.name@
    }
}

impl Key {
    /// The key called `name`.
    pub fn new(name: &str) -> (key: Key)
        ensures
            key@ == name@,
    {
        Key { name: name.to_owned() }
    }

    /// A second handle on the same key.
    pub fn duplicate(&self) -> (key: Key)
        ensures
            key@ == self@,
    {
        Key { name: self.name.clone() }
    }

    /// Whether both are the same key.
    pub fn same(&self, other: &Key) -> (same: bool)
        ensures
            same == (self@ == other@),
    {
        self.name == other.name
    }
}

/// The key vocabulary: which token of a template stands for which key.
///
/// Several tokens may stand for one key; a token that the vocabulary does not
/// hold stands for none.
#[derive(Debug)]
pub struct Keymap {
    keys: IndexMap<String, String>,
}

impl View for Keymap {
    type V = Entries;

    closed spec fn view(&self) -> Entries {
        entries(self.keys)
    }
}

impl Keymap {
    /// A vocabulary without tokens.
    pub fn new() -> (keymap: Keymap)
        ensures
            keymap@ == Seq::<(Seq<char>, Seq<char>)>::empty(),
    {
        Keymap { keys: map_new() }
    }

    /// Lets `token` stand for `key` from now on.
    pub fn bind(&mut self, token: &str, key: &Key)
        ensures
            final(self)@ == upsert(old(self)@, token@, key@),
    {
        let _ = map_insert(&mut self.keys, token.to_owned(), key.name.clone());
    }

    /// The key that `token` stands for.
    pub fn resolve(&self, token: &str) -> (key: Option<Key>)
        ensures
            key.deep_view() == lookup(self@, token@),
    {
        match map_get(&self.keys, token) {
            Some(name) => Some(Key { name: name.clone() }),
            None => None,
        }
    }
}

/// One typed unit of a parsed line.
#[derive(Debug, Clone, PartialEq, Eq)]
pub enum LinePart {
    /// Literal characters to type verbatim.
    Text(String),
    /// A pause, in milliseconds.
    Delay(u64),
    /// A placeholder for the value of the argument of that name.
    Arg(String),
    /// A chord: keys to send as one unit.
    KeyCombo(Vec<Key>),
}

/// What a `LinePart` holds.
pub enum PartModel {
    Text(Seq<char>),
    Delay(u64),
    Arg(Seq<char>),
    KeyCombo(Seq<Seq<char>>),
}

impl DeepView for LinePart {
    type V = PartModel;

    open spec fn deep_view(&self) -> PartModel {
        match self {
            LinePart::Text(text) => PartModel::Text(text@),
            LinePart::Delay(millis) => PartModel::Delay(*millis),
            LinePart::Arg(name) => PartModel::Arg(name@),
            LinePart::KeyCombo(keys) => PartModel::KeyCombo(keys.deep_view()),
        }
    }
}

} // verus!
