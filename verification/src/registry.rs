//! The default registry: an insertion-ordered map from argument name to value.
//!
//! The registry is an `indexmap::IndexMap<String, String>`. Its contents are
//! modelled as the sequence of its `(name, value)` pairs in the map's own
//! order; `lookup` and `upsert` say what reading and writing mean on that
//! sequence, and `get` and `set` are the operations that the rest of the
//! crate goes through.

use indexmap::IndexMap;
use vstd::prelude::*;

verus! {

/// The pairs of a registry, oldest name first.
pub type Entries = Seq<(Seq<char>, Seq<char>)>;

/// `indexmap::IndexMap`, taken as a value that cannot be looked into: what a
/// map holds is known only through `entries`.
#[verifier::external_type_specification]
#[verifier::external_body]
#[verifier::reject_recursive_types(K)]
#[verifier::reject_recursive_types(V)]
#[verifier::reject_recursive_types(S)]
pub struct ExIndexMap<K, V, S>(IndexMap<K, V, S>);

/// The key-value pairs that a map holds, in the map's own order.
pub uninterp spec fn entries(m: IndexMap<String, String>) -> Seq<(Seq<char>, Seq<char>)>;

/// The position of the first pair named `name`.
pub open spec fn position(e: Entries, name: Seq<char>) -> Option<int>
    decreases e.len(),
{
    if e.len() == 0 {
        None
    } else {
        match position(e.drop_last(), name) {
            Some(i) => Some(i),
            None => if e.last().0 == name {
                Some(e.len() - 1)
            } else {
                None
            },
        }
    }
}

/// The value stored under `name`, if there is one.
pub open spec fn lookup(e: Entries, name: Seq<char>) -> Option<Seq<char>> {
    match position(e, name) {
        Some(i) => Some(e[i].1),
        None => None,
    }
}

/// Writing `value` under `name`: a known name keeps its place and takes the
/// new value, a new name goes last.
pub open spec fn upsert(e: Entries, name: Seq<char>, value: Seq<char>) -> Entries {
    match position(e, name) {
        Some(i) => e.update(i, (name, value)),
        None => e.push((name, value)),
    }
}

/// The names of a registry, in order.
pub open spec fn names(e: Entries) -> Seq<Seq<char>> {
    Seq::new(e.len(), |i: int| e[i].0)
}

/// No name occurs twice.
pub open spec fn distinct_names(e: Entries) -> bool {
    forall|i: int, j: int| 0 <= i < j < e.len() ==> e[i].0 != e[j].0
}

/// `IndexMap::new`: the new map holds nothing.
#[verifier::external_body]
pub(crate) fn map_new() -> (m: IndexMap<String, String>)
    ensures
        entries(m) == Seq::<(Seq<char>, Seq<char>)>::empty(),
{
    IndexMap::new()
}

/// `IndexMap::insert`: a key that the map holds keeps its place and takes the
/// new value, and the old value is returned; another key is added last, and
/// nothing is returned.
#[verifier::external_body]
pub(crate) fn map_insert(m: &mut IndexMap<String, String>, name: String, value: String) -> (previous:
    Option<String>)
    ensures
        entries(*final(m)) == upsert(entries(*old(m)), name@, value@),
        match previous {
            Some(p) => lookup(entries(*old(m)), name@) == Some(p@),
            None => lookup(entries(*old(m)), name@) is None,
        },
{
    m.insert(name, value)
}

/// `IndexMap::get`: the value stored under the key, if the map holds the key.
#[verifier::external_body]
pub(crate) fn map_get<'a>(m: &'a IndexMap<String, String>, name: &str) -> (value: Option<&'a String>)
    ensures
        match value {
            Some(v) => lookup(entries(*m), name@) == Some(v@),
            None => lookup(entries(*m), name@) is None,
        },
{
    m.get(name)
}

/// `IndexMap::contains_key`: whether the map holds the key.
#[verifier::external_body]
pub(crate) fn map_contains_key(m: &IndexMap<String, String>, name: &str) -> (held: bool)
    ensures
        held == lookup(entries(*m), name@).is_some(),
{
    m.contains_key(name)
}

/// An empty registry.
pub fn new() -> (registry: IndexMap<String, String>)
    ensures
        entries(registry) == Seq::<(Seq<char>, Seq<char>)>::empty(),
{
    map_new()
}

/// Stores `value` under `name` and returns the value that it replaces.
///
/// A name that is already registered keeps its position; a new name is added
/// after all others.
pub fn set(registry: &mut IndexMap<String, String>, name: String, value: String) -> (previous:
    Option<String>)
    ensures
        entries(*final(registry)) == upsert(entries(*old(registry)), name@, value@),
        match previous {
            Some(p) => lookup(entries(*old(registry)), name@) == Some(p@),
            None => lookup(entries(*old(registry)), name@) is None,
        },
{
    map_insert(registry, name, value)
}

/// The value registered under `name`.
pub fn get<'a>(registry: &'a IndexMap<String, String>, name: &str) -> (value: Option<&'a String>)
    ensures
        match value {
            Some(v) => lookup(entries(*registry), name@) == Some(v@),
            None => lookup(entries(*registry), name@) is None,
        },
{
    map_get(registry, name)
}

/// Whether a value is registered under `name`.
pub fn contains(registry: &IndexMap<String, String>, name: &str) -> (held: bool)
    ensures
        held == lookup(entries(*registry), name@).is_some(),
{
    map_contains_key(registry, name)
}

/// A position that `position` reports is the first one that holds the name.
pub proof fn lemma_position(e: Entries, name: Seq<char>)
    ensures
        match position(e, name) {
            Some(i) => 0 <= i < e.len() && e[i].0 == name && forall|j: int|
                0 <= j < i ==> e[j].0 != name,
            None => forall|j: int| 0 <= j < e.len() ==> e[j].0 != name,
        },
    decreases e.len(),
{
    if e.len() > 0 {
        let front = e.drop_last();
        lemma_position(front, name);
        assert(forall|j: int| 0 <= j < front.len() ==> front[j] == e[j]);
        match position(front, name) {
            Some(i) => {
                assert(e[i].0 == name);
                assert forall|j: int| 0 <= j < i implies e[j].0 != name by {
                    assert(front[j].0 != name);
                }
            },
            None => {
                assert forall|j: int| 0 <= j < e.len() - 1 implies e[j].0 != name by {
                    assert(front[j].0 != name);
                }
            },
        }
    }
}

/// A name that occurs has a position.
pub proof fn lemma_position_found(e: Entries, name: Seq<char>, k: int)
    requires
        0 <= k < e.len(),
        e[k].0 == name,
    ensures
        position(e, name) matches Some(i) && i <= k,
{
    lemma_position(e, name);
}

/// What was written last is what is read: after `upsert`, `name` holds `value`.
pub proof fn lemma_upsert_reads_back(e: Entries, name: Seq<char>, value: Seq<char>)
    ensures
        lookup(upsert(e, name, value), name) == Some(value),
{
    lemma_position(e, name);
    let u = upsert(e, name, value);
    lemma_position(u, name);
    match position(e, name) {
        Some(i) => {
            lemma_position_found(u, name, i);
        },
        None => {
            lemma_position_found(u, name, e.len() as int);
        },
    }
}

/// Writing one name leaves every other name's value as it was.
pub proof fn lemma_upsert_keeps_others(
    e: Entries,
    name: Seq<char>,
    value: Seq<char>,
    other: Seq<char>,
)
    requires
        other != name,
    ensures
        lookup(upsert(e, name, value), other) == lookup(e, other),
{
    lemma_position(e, name);
    lemma_position(e, other);
    let u = upsert(e, name, value);
    lemma_position(u, other);
    match position(e, other) {
        Some(i) => {
            lemma_position_found(u, other, i);
        },
        None => {},
    }
}

/// The order of names is fixed by first declaration: writing a known name
/// changes no position, and a new name goes last.
pub proof fn lemma_upsert_order(e: Entries, name: Seq<char>, value: Seq<char>)
    ensures
        lookup(e, name) is Some ==> names(upsert(e, name, value)) == names(e),
        lookup(e, name) is None ==> names(upsert(e, name, value)) == names(e).push(name),
{
    lemma_position(e, name);
    let u = upsert(e, name, value);
    match position(e, name) {
        Some(i) => {
            assert(names(u) =~= names(e));
        },
        None => {
            assert(names(u) =~= names(e).push(name));
        },
    }
}

/// A registry without repeated names stays so under `upsert`.
pub proof fn lemma_upsert_distinct(e: Entries, name: Seq<char>, value: Seq<char>)
    requires
        distinct_names(e),
    ensures
        distinct_names(upsert(e, name, value)),
{
    lemma_position(e, name);
}

/// A name that has a position in a beginning of the pairs has the same
/// position in all of them.
pub proof fn lemma_position_prefix(e: Entries, n: int, name: Seq<char>)
    requires
        0 <= n <= e.len(),
        position(e.take(n), name) is Some,
    ensures
        position(e, name) == position(e.take(n), name),
        lookup(e, name) == lookup(e.take(n), name),
    decreases e.len(),
{
    if n == e.len() {
        assert(e.take(n) =~= e);
    } else {
        assert(e.drop_last().take(n) =~= e.take(n));
        lemma_position_prefix(e.drop_last(), n, name);
        lemma_position(e.take(n), name);
    }
}

} // verus!
