//! Lists of named entries, as both environments use them: the entry that
//! was added last under a name is the one that the name stands for.
use vstd::prelude::*;

use crate::ast::name_models;

verus! {

/// The place of the last entry of `keys` that equals `name`, or -1.
pub open spec fn key_index(keys: Seq<Seq<char>>, name: Seq<char>) -> int
    decreases keys.len(),
{
    if keys.len() == 0 {
        -1
    } else if keys.last() == name {
        keys.len() - 1
    } else {
        key_index(keys.drop_last(), name)
    }
}

/// The names of a list of named entries, in order.
pub open spec fn keys_of<V>(bindings: Seq<(Seq<char>, V)>) -> Seq<Seq<char>> {
    Seq::new(bindings.len(), |i: int| bindings[i].0)
}

/// The names of a vector of named entries, in order.
pub open spec fn entry_keys<T>(entries: Seq<(String, T)>) -> Seq<Seq<char>> {
    Seq::new(entries.len(), |i: int| entries[i].0@)
}

/// What `name` stands for in `bindings`: the last entry under that name.
pub open spec fn lookup<V>(bindings: Seq<(Seq<char>, V)>, name: Seq<char>) -> Option<V> {
    let i = key_index(keys_of(bindings), name);
    if i < 0 {
        None
    } else {
        Some(bindings[i].1)
    }
}

/// The mapping that a list of named entries stands for.
pub open spec fn scope_map<V>(bindings: Seq<(Seq<char>, V)>) -> Map<Seq<char>, V> {
    Map::new(
        |n: Seq<char>| key_index(keys_of(bindings), n) >= 0,
        |n: Seq<char>| bindings[key_index(keys_of(bindings), n)].1,
    )
}

/// `key_index` gives the last place of the name, and -1 exactly when the
/// name is at no place.
pub proof fn lemma_key_index(keys: Seq<Seq<char>>, name: Seq<char>)
    ensures
        -1 <= key_index(keys, name) < keys.len(),
        key_index(keys, name) >= 0 ==> keys[key_index(keys, name)] == name,
        forall|j: int| key_index(keys, name) < j < keys.len() ==> keys[j] != name,
    decreases keys.len(),
{
    if keys.len() > 0 && keys.last() != name {
        let shorter = keys.drop_last();
        lemma_key_index(shorter, name);
        assert forall|j: int| key_index(keys, name) < j < keys.len() implies keys[j] != name by {
            if j < shorter.len() {
                assert(shorter[j] == keys[j]);
            }
        }
    }
}

/// A place that holds the name, with no later place that does, is the one
/// that `key_index` gives.
pub proof fn lemma_key_index_is(keys: Seq<Seq<char>>, name: Seq<char>, i: int)
    requires
        -1 <= i < keys.len(),
        i >= 0 ==> keys[i] == name,
        forall|j: int| i < j < keys.len() ==> keys[j] != name,
    ensures
        key_index(keys, name) == i,
{
    lemma_key_index(keys, name);
}

/// Adding an entry changes what its own name stands for, and nothing else.
pub proof fn lemma_lookup_push<V>(
    bindings: Seq<(Seq<char>, V)>,
    key: Seq<char>,
    value: V,
    name: Seq<char>,
)
    ensures
        lookup(bindings.push((key, value)), name) == if name == key {
            Some(value)
        } else {
            lookup(bindings, name)
        },
{
    let longer = bindings.push((key, value));
    assert(keys_of(longer).drop_last() =~= keys_of(bindings));
    assert(keys_of(longer).last() == key);
    if name != key {
        let i = key_index(keys_of(bindings), name);
        lemma_key_index(keys_of(bindings), name);
        if i >= 0 {
            assert(longer[i] == bindings[i]);
        }
    }
}

/// Adding an entry to a list is inserting it into the mapping.
pub proof fn lemma_scope_map_push<V>(bindings: Seq<(Seq<char>, V)>, key: Seq<char>, value: V)
    ensures
        scope_map(bindings.push((key, value))) == scope_map(bindings).insert(key, value),
{
    let longer = bindings.push((key, value));
    assert forall|n: Seq<char>|
        lookup(longer, n) == if n == key {
            Some(value)
        } else {
            lookup(bindings, n)
        } by {
        lemma_lookup_push(bindings, key, value, n);
    }
    assert forall|n: Seq<char>| #[trigger]
        scope_map(longer).contains_key(n) == scope_map(bindings).insert(
            key,
            value,
        ).contains_key(n) by {
        assert(lookup(longer, n).is_some() == scope_map(longer).contains_key(n));
        assert(lookup(bindings, n).is_some() == scope_map(bindings).contains_key(n));
    }
    assert forall|n: Seq<char>| #[trigger] scope_map(longer).contains_key(n) implies scope_map(
        longer,
    )[n] == scope_map(bindings).insert(key, value)[n] by {
        assert(lookup(longer, n) == Some(scope_map(longer)[n]));
        if n != key {
            assert(lookup(bindings, n) == Some(scope_map(bindings)[n]));
        }
    }
    assert(scope_map(longer) =~= scope_map(bindings).insert(key, value));
}

/// A list without entries stands for the empty mapping.
pub proof fn lemma_scope_map_empty<V>()
    ensures
        scope_map(Seq::<(Seq<char>, V)>::empty()) == Map::<Seq<char>, V>::empty(),
{
    assert(keys_of(Seq::<(Seq<char>, V)>::empty()) =~= Seq::<Seq<char>>::empty());
    assert(scope_map(Seq::<(Seq<char>, V)>::empty()) =~= Map::<Seq<char>, V>::empty());
}

/// The place of the last entry under `name`.
pub fn find_key<T>(entries: &Vec<(String, T)>, name: &String) -> (r: Option<usize>)
    ensures
        match r {
            Some(i) => i < entries.len() && i == key_index(entry_keys(entries@), name@),
            None => key_index(entry_keys(entries@), name@) == -1,
        },
{
    let mut i: usize = entries.len();
    while i > 0
        invariant
            i <= entries.len(),
            forall|j: int| i <= j < entries.len() ==> entries[j].0@ != name@,
        decreases i,
    {
        i -= 1;
        if entries[i].0 == *name {
            proof {
                lemma_key_index_is(entry_keys(entries@), name@, i as int);
            }
            return Some(i);
        }
    }
    proof {
        lemma_key_index_is(entry_keys(entries@), name@, -1);
    }
    None
}

/// Whether `name` is one of `names`.
pub fn contains_name(names: &Vec<String>, name: &String) -> (r: bool)
    ensures
        r == name_models(names@).contains(name@),
{
    let mut i: usize = 0;
    while i < names.len()
        invariant
            i <= names.len(),
            forall|j: int| 0 <= j < i ==> names[j]@ != name@,
        decreases names.len() - i,
    {
        if names[i] == *name {
            assert(name_models(names@)[i as int] == name@);
            return true;
        }
        i += 1;
    }
    false
}

} // verus!
