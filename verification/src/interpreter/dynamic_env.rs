//! The values that names stand for while a program runs: a stack of scopes,
//! the innermost last.
use vstd::prelude::*;

use crate::scope::{
    entry_keys, find_key, key_index, keys_of, lemma_key_index, lemma_lookup_push,
    lemma_scope_map_empty, lemma_scope_map_push, lookup, scope_map,
};
use crate::types::{binding_models, clone_bindings, Value, ValueModel};

verus! {

/// A stack of scopes. A name stands for its last entry in the innermost
/// scope that has one.
#[derive(Debug, PartialEq, Eq)]
pub struct DynamicEnv {
    pub scopes: Vec<Vec<(String, Value)>>,
}

/// The model of a scope: what each of its names stands for.
pub type ScopeModel = Map<Seq<char>, ValueModel>;

impl View for DynamicEnv {
    type V = Seq<ScopeModel>;

    open spec fn view(&self) -> Seq<ScopeModel> {
        Seq::new(self.scopes@.len(), |i: int| scope_map(binding_models(self.scopes@[i]@)))
    }
}

/// What `name` stands for: the innermost scope that holds it decides.
pub open spec fn find_model(scopes: Seq<ScopeModel>, name: Seq<char>) -> Option<ValueModel>
    decreases scopes.len(),
{
    if scopes.len() == 0 {
        None
    } else if scopes.last().contains_key(name) {
        Some(scopes.last()[name])
    } else {
        find_model(scopes.drop_last(), name)
    }
}

/// The scopes after `name` was given `value` in the innermost one; where
/// there is no scope, one is opened for it.
pub open spec fn add_model(scopes: Seq<ScopeModel>, name: Seq<char>, value: ValueModel) -> Seq<
    ScopeModel,
> {
    if scopes.len() == 0 {
        seq![Map::<Seq<char>, ValueModel>::empty().insert(name, value)]
    } else {
        scopes.drop_last().push(scopes.last().insert(name, value))
    }
}

/// The scopes after the innermost one was closed.
pub open spec fn exit_model(scopes: Seq<ScopeModel>) -> Seq<ScopeModel> {
    if scopes.len() == 0 {
        scopes
    } else {
        scopes.drop_last()
    }
}

/// The mapping after each of `bindings` was inserted in turn.
pub open spec fn bind_all(scope: ScopeModel, bindings: Seq<(Seq<char>, ValueModel)>) -> ScopeModel
    decreases bindings.len(),
{
    if bindings.len() == 0 {
        scope
    } else {
        bind_all(scope, bindings.drop_last()).insert(bindings.last().0, bindings.last().1)
    }
}

/// After `add`, the name stands for the value and every other name for what
/// it stood for before.
pub proof fn law_add_binds_one_name(
    scopes: Seq<ScopeModel>,
    key: Seq<char>,
    value: ValueModel,
    name: Seq<char>,
)
    ensures
        find_model(add_model(scopes, key, value), name) == if name == key {
            Some(value)
        } else {
            find_model(scopes, name)
        },
{
    let after = add_model(scopes, key, value);
    if scopes.len() == 0 {
        assert(after.drop_last() =~= scopes);
    } else {
        assert(after.drop_last() =~= scopes.drop_last());
    }
}

/// Opening a scope changes what no name stands for.
pub proof fn law_new_scope_binds_nothing(scopes: Seq<ScopeModel>, name: Seq<char>)
    ensures
        find_model(scopes.push(Map::empty()), name) == find_model(scopes, name),
{
    let after = scopes.push(Map::<Seq<char>, ValueModel>::empty());
    assert(after.drop_last() =~= scopes);
}

impl DynamicEnv {
    /// An environment with one scope and nothing in it.
    pub fn new() -> (r: DynamicEnv)
        ensures
            r@ == seq![Map::<Seq<char>, ValueModel>::empty()],
    {
        let mut scopes: Vec<Vec<(String, Value)>> = Vec::new();
        scopes.push(Vec::new());
        let r = DynamicEnv { scopes };
        assert(r@ =~= seq![Map::<Seq<char>, ValueModel>::empty()]) by {
            assert(binding_models(r.scopes@[0]@) =~= Seq::<(Seq<char>, ValueModel)>::empty());
            lemma_scope_map_empty::<ValueModel>();
        }
        r
    }

    /// Opens a scope.
    pub fn enter_block(&mut self)
        ensures
            final(self)@ == old(self)@.push(Map::empty()),
    {
        self.scopes.push(Vec::new());
        assert(self@ =~= old(self)@.push(Map::empty())) by {
            let n = old(self).scopes@.len() as int;
            assert(binding_models(self.scopes@[n]@) =~= Seq::<(Seq<char>, ValueModel)>::empty());
            lemma_scope_map_empty::<ValueModel>();
        }
    }

    /// Opens a scope that holds `bindings`.
    pub fn enter_with(&mut self, bindings: Vec<(String, Value)>)
        ensures
            final(self)@ == old(self)@.push(scope_map(binding_models(bindings@))),
    {
        self.scopes.push(bindings);
        assert(self@ =~= old(self)@.push(scope_map(binding_models(bindings@))));
    }

    /// Closes the innermost scope, with everything it binds.
    pub fn exit_block(&mut self)
        ensures
            final(self)@ == exit_model(old(self)@),
    {
        let _ = self.scopes.pop();
        assert(self@ =~= exit_model(old(self)@));
    }

    /// Gives `name` the value `value` in the innermost scope.
    pub fn add(&mut self, name: &String, value: Value)
        ensures
            final(self)@ == add_model(old(self)@, name@, value@),
    {
        let mut top: Vec<(String, Value)> = match self.scopes.pop() {
            Some(scope) => scope,
            None => Vec::new(),
        };
        let ghost before = top@;
        top.push((name.clone(), value));
        assert(binding_models(top@) =~= binding_models(before).push((name@, value@)));
        self.scopes.push(top);
        assert(self@ =~= add_model(old(self)@, name@, value@)) by {
            lemma_scope_map_push(binding_models(before), name@, value@);
            if old(self)@.len() == 0 {
                assert(binding_models(before) =~= Seq::<(Seq<char>, ValueModel)>::empty());
                lemma_scope_map_empty::<ValueModel>();
            }
        }
    }

    /// What `name` stands for, if anything.
    pub fn find(&self, name: &String) -> (r: Option<Value>)
        ensures
            match r {
                Some(v) => find_model(self@, name@) == Some(v@),
                None => find_model(self@, name@).is_none(),
            },
    {
        let mut i: usize = self.scopes.len();
        assert(self@.take(i as int) =~= self@);
        while i > 0
            invariant
                i <= self.scopes.len(),
                find_model(self@, name@) == find_model(self@.take(i as int), name@),
            decreases i,
        {
            i -= 1;
            let scope = &self.scopes[i];
            proof {
                assert(self@.take(i + 1).last() == scope_map(binding_models(scope@)));
                assert(self@.take(i + 1).drop_last() =~= self@.take(i as int));
                assert(keys_of(binding_models(scope@)) =~= entry_keys(scope@));
                lemma_key_index(entry_keys(scope@), name@);
            }
            match find_key(scope, name) {
                Some(k) => {
                    return Some(scope[k].1.clone());
                },
                None => {},
            }
        }
        None
    }
}

impl Clone for DynamicEnv {
    fn clone(&self) -> (r: DynamicEnv)
        ensures
            r@ == self@,
    {
        let mut scopes: Vec<Vec<(String, Value)>> = Vec::new();
        let mut i: usize = 0;
        while i < self.scopes.len()
            invariant
                i <= self.scopes.len(),
                scopes.len() == i,
                forall|j: int|
                    0 <= j < i ==> binding_models(scopes[j]@) == binding_models(self.scopes[j]@),
            decreases self.scopes.len() - i,
        {
            scopes.push(clone_bindings(&self.scopes[i]));
            i += 1;
        }
        let r = DynamicEnv { scopes };
        assert(r@ =~= self@);
        r
    }
}

} // verus!
