//! The kinds of items that are known, and how they are built.

use crate::error::Error;
use std::collections::HashMap;
use vstd::prelude::*;

verus! {

/// How items are built: what shows something of a project, by the type of that; what shows a
/// view of a leader, by the type of the item; and what was stored, by the kind of the item.
/// Types and builders are known by their numbers.
pub struct Registry {
    pub project_item_builders: HashMap<u64, u64>,
    pub followable_item_builders: Vec<(u64, u64)>,
    pub item_deserializers: Vec<(String, u64)>,
}

#[verifier::ext_equal]
pub struct RegistryView {
    pub project_item_builders: Map<u64, u64>,
    pub followable_item_builders: Seq<(u64, u64)>,
    pub item_deserializers: Seq<(Seq<char>, u64)>,
}

pub open spec fn deserializer_views(entries: Seq<(String, u64)>) -> Seq<(Seq<char>, u64)> {
    entries.map_values(|e: (String, u64)| (e.0@, e.1))
}

impl View for Registry {
    type V = RegistryView;

    open spec fn view(&self) -> RegistryView {
        RegistryView {
            project_item_builders: self.project_item_builders@,
            followable_item_builders: self.followable_item_builders@,
            item_deserializers: deserializer_views(self.item_deserializers@),
        }
    }
}

/// The place of a key in a list of entries, from `i` on.
pub open spec fn key_place<K>(entries: Seq<(K, u64)>, key: K, i: int) -> Option<int>
    decreases entries.len() - i,
{
    if i < 0 || i >= entries.len() {
        None
    } else if entries[i].0 == key {
        Some(i)
    } else {
        key_place(entries, key, i + 1)
    }
}

/// The entries with one for the key, in place of another for it.
pub open spec fn with_key<K>(entries: Seq<(K, u64)>, key: K, value: u64) -> Seq<(K, u64)> {
    match key_place(entries, key, 0) {
        Some(k) => entries.update(k, (key, value)),
        None => entries.push((key, value)),
    }
}

/// What the entries have for a key.
pub open spec fn value_of<K>(entries: Seq<(K, u64)>, key: K) -> Option<u64> {
    match key_place(entries, key, 0) {
        Some(k) => Some(entries[k].1),
        None => None,
    }
}

impl Registry {
    /// A registry that knows nothing.
    pub fn new() -> (registry: Registry)
        ensures
            registry@ == (RegistryView {
                project_item_builders: Map::empty(),
                followable_item_builders: Seq::empty(),
                item_deserializers: Seq::empty(),
            }),
    {
        let registry = Registry {
            project_item_builders: HashMap::new(),
            followable_item_builders: Vec::new(),
            item_deserializers: Vec::new(),
        };
        assert(deserializer_views(registry.item_deserializers@) =~= Seq::empty());
        registry
    }

    /// The builders of items that can be followed, each to be tried in its turn.
    pub fn followable_builders(&self) -> (builders: Vec<u64>)
        ensures
            builders@ == self@.followable_item_builders.map_values(|e: (u64, u64)| e.1),
    {
        let ghost expected = self@.followable_item_builders.map_values(|e: (u64, u64)| e.1);
        let mut builders: Vec<u64> = Vec::new();
        let mut i: usize = 0;
        while i < self.followable_item_builders.len()
            invariant
                i <= self.followable_item_builders.len(),
                expected == self@.followable_item_builders.map_values(|e: (u64, u64)| e.1),
                builders@ =~= expected.take(i as int),
            decreases self.followable_item_builders.len() - i,
        {
            builders.push(self.followable_item_builders[i].1);
            i += 1;
        }
        builders
    }

    /// How an item of the given kind is brought back.
    pub fn deserializer(&self, kind: &String) -> (deserializer: Option<u64>)
        ensures
            deserializer == value_of(self@.item_deserializers, kind@),
    {
        let mut i: usize = 0;
        while i < self.item_deserializers.len()
            invariant
                i <= self.item_deserializers.len(),
                key_place(self@.item_deserializers, kind@, 0) == key_place(
                    self@.item_deserializers,
                    kind@,
                    i as int,
                ),
            decreases self.item_deserializers.len() - i,
        {
            if self.item_deserializers[i].0 == *kind {
                return Some(self.item_deserializers[i].1);
            }
            i += 1;
        }
        None
    }
}

/// Makes known how what shows something of a project is built.
pub fn register_project_item(registry: &mut Registry, item_type: u64, builder: u64)
    ensures
        final(registry)@ == (RegistryView {
            project_item_builders: old(registry)@.project_item_builders.insert(item_type, builder),
            ..old(registry)@
        }),
{
    broadcast use vstd::std_specs::hash::group_hash_axioms;

    registry.project_item_builders.insert(item_type, builder);
}

/// Makes known how what shows a view of a leader is built.
pub fn register_followable_item(registry: &mut Registry, item_type: u64, builder: u64)
    ensures
        final(registry)@ == (RegistryView {
            followable_item_builders: with_key(
                old(registry)@.followable_item_builders,
                item_type,
                builder,
            ),
            ..old(registry)@
        }),
{
    let mut i: usize = 0;
    while i < registry.followable_item_builders.len()
        invariant
            i <= registry.followable_item_builders.len(),
            *registry == *old(registry),
            key_place(registry@.followable_item_builders, item_type, 0) == key_place(
                registry@.followable_item_builders,
                item_type,
                i as int,
            ),
        decreases registry.followable_item_builders.len() - i,
    {
        if registry.followable_item_builders[i].0 == item_type {
            registry.followable_item_builders[i] = (item_type, builder);
            return;
        }
        i += 1;
    }
    registry.followable_item_builders.push((item_type, builder));
}

/// Makes known how an item of some kind is brought back, if items of its type are stored.
pub fn register_deserializable_item(registry: &mut Registry, kind: Option<String>, deserializer: u64)
    ensures
        final(registry)@ == (match kind {
            Some(kind) => RegistryView {
                item_deserializers: with_key(
                    old(registry)@.item_deserializers,
                    kind@,
                    deserializer,
                ),
                ..old(registry)@
            },
            None => old(registry)@,
        }),
{
    let name = match kind {
        Some(name) => name,
        None => {
            return;
        },
    };
    let ghost before = registry@.item_deserializers;
    let mut i: usize = 0;
    while i < registry.item_deserializers.len()
        invariant
            i <= registry.item_deserializers.len(),
            *registry == *old(registry),
            kind == Some(name),
            before == registry@.item_deserializers,
            key_place(before, name@, 0) == key_place(before, name@, i as int),
        decreases registry.item_deserializers.len() - i,
    {
        if registry.item_deserializers[i].0 == name {
            let ghost key = name@;
            registry.item_deserializers[i] = (name, deserializer);
            assert(registry@.item_deserializers =~= before.update(i as int, (key, deserializer)));
            return;
        }
        i += 1;
    }
    let ghost key = name@;
    registry.item_deserializers.push((name, deserializer));
    assert(registry@.item_deserializers =~= before.push((key, deserializer)));
}

/// What was loaded of a path: the entry of the project, and how its item is built. Fails if
/// the path could not be loaded, or nothing is known that shows it.
pub fn load_path(registry: &Registry, loaded: Result<(u64, u64), Error>) -> (result: Result<
    (u64, u64),
    Error,
>)
    ensures
        result == (match loaded {
            Ok((entry, item_type)) => if registry@.project_item_builders.dom().contains(item_type) {
                Ok((entry, registry@.project_item_builders[item_type]))
            } else {
                Err(Error::NoItemBuilder)
            },
            Err(error) => Err(error),
        }),
{
    broadcast use vstd::std_specs::hash::group_hash_axioms;

    let (entry, item_type) = match loaded {
        Ok(loaded) => loaded,
        Err(error) => {
            return Err(error);
        },
    };
    match registry.project_item_builders.get(&item_type) {
        Some(builder) => Ok((entry, *builder)),
        None => Err(Error::NoItemBuilder),
    }
}

proof fn lemma_key_place<K>(entries: Seq<(K, u64)>, key: K, i: int)
    requires
        0 <= i <= entries.len(),
    ensures
        match key_place(entries, key, i) {
            Some(k) => i <= k < entries.len() && entries[k].0 == key && forall|j: int|
                i <= j < k ==> (#[trigger] entries[j]).0 != key,
            None => forall|j: int| i <= j < entries.len() ==> (#[trigger] entries[j]).0 != key,
        },
    decreases entries.len() - i,
{
    if i < entries.len() && entries[i].0 != key {
        lemma_key_place(entries, key, i + 1);
    }
}

/// What was made known last for a key is what is known for it, and what is known for other
/// keys stays.
pub proof fn law_registered<K>(entries: Seq<(K, u64)>, key: K, value: u64, other: K)
    ensures
        value_of(with_key(entries, key, value), key) == Some(value),
        other != key ==> value_of(with_key(entries, key, value), other) == value_of(entries, other),
{
    let after = with_key(entries, key, value);
    lemma_key_place(entries, key, 0);
    lemma_key_place(after, key, 0);
    lemma_key_place(entries, other, 0);
    lemma_key_place(after, other, 0);
    match key_place(entries, key, 0) {
        Some(k) => {
            assert(after[k] == (key, value));
            assert forall|j: int| 0 <= j < entries.len() && j != k implies #[trigger] after[j]
                == entries[j] by {}
            if let Some(q) = key_place(entries, other, 0) {
                assert(other != key ==> after[q] == entries[q]);
            }
            if let Some(q) = key_place(after, other, 0) {
                assert(other != key ==> after[q] == entries[q]);
            }
        },
        None => {
            assert(after[entries.len() as int] == (key, value));
            assert forall|j: int| 0 <= j < entries.len() implies #[trigger] after[j]
                == entries[j] by {}
            if let Some(q) = key_place(entries, other, 0) {
                assert(after[q] == entries[q]);
            }
            if let Some(q) = key_place(after, other, 0) {
                assert(other != key ==> q < entries.len());
            }
        },
    }
}

/// What is made known for a key that is known takes its place in the list, and for another it
/// goes to the end; the others stay where they are.
pub proof fn law_registered_in_place<K>(entries: Seq<(K, u64)>, key: K, value: u64, k: int)
    ensures
        (forall|j: int| 0 <= j < entries.len() ==> (#[trigger] entries[j]).0 != key) ==> with_key(
            entries,
            key,
            value,
        ) == entries.push((key, value)) && value_of(entries, key) is None,
        0 <= k < entries.len() && entries[k].0 == key && (forall|j: int|
            0 <= j < k ==> (#[trigger] entries[j]).0 != key) ==> with_key(entries, key, value)
            == entries.update(k, (key, value)) && value_of(entries, key) == Some(entries[k].1),
{
    lemma_key_place(entries, key, 0);
}

} // verus!
