//! What names stand for while a program is analyzed: a stack of scopes of
//! types, the known data types, and the bindings of type variables made
//! so far.
use std::sync::Arc;
use vstd::prelude::*;
use vstd::string::StringExecFns;

use crate::analyzer::type_helper::{
    extends, resolve, resolve_model, suffix, suffix_model, unify, unify_done, unify_model, Subst,
};
use crate::analyzer::unification_laws::{law_unified_types_are_equal, well_formed};
use crate::ast::{field_models, lemma_type_model, Type, TypeModel};
use crate::scope::{
    entry_keys, find_key, key_index, keys_of, lemma_key_index, lemma_scope_map_empty,
    lemma_scope_map_push, scope_map,
};
use crate::types::{share, Adt, AdtModel};

verus! {

/// The environment of the analyzer.
#[derive(Debug, PartialEq, Eq)]
pub struct StaticEnv {
    /// The innermost scope last; the first holds the definitions of the
    /// module.
    pub scopes: Vec<Vec<(String, Type)>>,
    pub adts: Vec<Arc<Adt>>,
    /// The bindings of type variables, in the order in which they were
    /// made.
    pub substitution: Vec<(String, Type)>,
    /// The number of the next fresh type variable.
    pub next_var: u64,
}

/// The model of a [`StaticEnv`].
pub struct StaticEnvModel {
    pub scopes: Seq<Map<Seq<char>, TypeModel>>,
    pub adts: Seq<AdtModel>,
    pub substitution: Subst,
    pub next_var: u64,
}

impl View for StaticEnv {
    type V = StaticEnvModel;

    open spec fn view(&self) -> StaticEnvModel {
        StaticEnvModel {
            scopes: Seq::new(
                self.scopes@.len(),
                |i: int| scope_map(field_models(self.scopes@[i]@)),
            ),
            adts: Seq::new(self.adts@.len(), |i: int| self.adts@[i]@),
            substitution: field_models(self.substitution@),
            next_var: self.next_var,
        }
    }
}

/// The type that `name` stands for, and whether the outermost scope is the
/// one that holds it.
pub open spec fn find_type(scopes: Seq<Map<Seq<char>, TypeModel>>, name: Seq<char>) -> Option<
    (TypeModel, bool),
>
    decreases scopes.len(),
{
    if scopes.len() == 0 {
        None
    } else if scopes.last().contains_key(name) {
        Some((scopes.last()[name], scopes.len() == 1))
    } else {
        find_type(scopes.drop_last(), name)
    }
}

/// The scopes after `name` was given the type `ty` in the innermost one.
pub open spec fn add_type(
    scopes: Seq<Map<Seq<char>, TypeModel>>,
    name: Seq<char>,
    ty: TypeModel,
) -> Seq<Map<Seq<char>, TypeModel>> {
    if scopes.len() == 0 {
        seq![Map::<Seq<char>, TypeModel>::empty().insert(name, ty)]
    } else {
        scopes.drop_last().push(scopes.last().insert(name, ty))
    }
}

/// The scopes after the innermost one was closed.
pub open spec fn drop_scope(scopes: Seq<Map<Seq<char>, TypeModel>>) -> Seq<
    Map<Seq<char>, TypeModel>,
> {
    if scopes.len() == 0 {
        scopes
    } else {
        scopes.drop_last()
    }
}

/// The place of the first variant of `adt` from place `i` on that is
/// called `name`, or -1.
pub open spec fn variant_index(adt: AdtModel, name: Seq<char>, i: nat) -> int
    decreases adt.variants.len() - i,
{
    if i >= adt.variants.len() {
        -1
    } else if adt.variants[i as int].name == name {
        i as int
    } else {
        variant_index(adt, name, i + 1)
    }
}

/// The first data type from place `i` on that has a variant called
/// `name`, with the place of that variant.
pub open spec fn find_variant(adts: Seq<AdtModel>, name: Seq<char>, i: nat) -> Option<(int, int)>
    decreases adts.len() - i,
{
    if i >= adts.len() {
        None
    } else if variant_index(adts[i as int], name, 0) >= 0 {
        Some((i as int, variant_index(adts[i as int], name, 0)))
    } else {
        find_variant(adts, name, i + 1)
    }
}

/// The place of the first data type from place `i` on that is called
/// `name`, or -1.
pub open spec fn adt_index(adts: Seq<AdtModel>, name: Seq<char>, i: nat) -> int
    decreases adts.len() - i,
{
    if i >= adts.len() {
        -1
    } else if adts[i as int].name == name {
        i as int
    } else {
        adt_index(adts, name, i + 1)
    }
}

/// The number after `n`, as far as numbers go.
pub open spec fn next_number(n: u64) -> u64 {
    if n < u64::MAX {
        (n + 1) as u64
    } else {
        n
    }
}

/// The variable that [`StaticEnv::fresh`] makes.
pub open spec fn fresh_type(env: StaticEnvModel, prefix: Seq<char>) -> TypeModel {
    TypeModel::Var(prefix + suffix_model(env.next_var as nat))
}

/// The environment after a fresh variable, or a fresh suffix, was taken.
pub open spec fn after_fresh(env: StaticEnvModel) -> StaticEnvModel {
    StaticEnvModel { next_var: next_number(env.next_var), ..env }
}

/// The type with every binding made so far applied.
pub open spec fn resolved(env: StaticEnvModel, t: TypeModel) -> TypeModel {
    resolve_model(env.substitution, t)
}

/// The bindings after `a` and `b`, resolved, were made equal; nothing
/// where they cannot be.
pub open spec fn unified(env: StaticEnvModel, a: TypeModel, b: TypeModel) -> Option<Subst> {
    match unify_model(resolved(env, a), resolved(env, b), env.substitution) {
        Ok(s) => Some(s),
        Err(_) => None,
    }
}

/// The environment after `a` and `b` were made equal, where they can be;
/// the environment as it is, where not.
pub open spec fn after_unify(env: StaticEnvModel, a: TypeModel, b: TypeModel) -> StaticEnvModel {
    match unified(env, a, b) {
        Some(s) => StaticEnvModel { substitution: s, ..env },
        None => env,
    }
}

/// The bindings of type variables are well-formed after, if they were
/// before.
pub open spec fn binds_well(before: StaticEnvModel, after: StaticEnvModel) -> bool {
    well_formed(before.substitution) ==> well_formed(after.substitution)
}

/// Between `before` and `after` nothing but the innermost scope has
/// changed, if there was a scope at all.
pub open spec fn keeps_below(before: StaticEnvModel, after: StaticEnvModel) -> bool {
    before.scopes.len() > 0 ==> after.scopes.len() == before.scopes.len()
        && after.scopes.drop_last() == before.scopes.drop_last()
}

/// The environment with `scopes` for its scopes.
pub open spec fn with_scopes(
    env: StaticEnvModel,
    scopes: Seq<Map<Seq<char>, TypeModel>>,
) -> StaticEnvModel {
    StaticEnvModel { scopes, ..env }
}

/// The environment with a scope opened.
pub open spec fn entered(env: StaticEnvModel) -> StaticEnvModel {
    with_scopes(env, env.scopes.push(Map::empty()))
}

/// The environment with the innermost scope closed.
pub open spec fn exited(env: StaticEnvModel) -> StaticEnvModel {
    with_scopes(env, drop_scope(env.scopes))
}

/// The environment with `name` given the type `ty`.
pub open spec fn added(env: StaticEnvModel, name: Seq<char>, ty: TypeModel) -> StaticEnvModel {
    with_scopes(env, add_type(env.scopes, name, ty))
}

impl StaticEnv {
    /// An environment with one scope and nothing in it.
    pub fn new() -> (r: StaticEnv)
        ensures
            r@ == (StaticEnvModel {
                scopes: seq![Map::<Seq<char>, TypeModel>::empty()],
                adts: Seq::empty(),
                substitution: Seq::empty(),
                next_var: 0,
            }),
            well_formed(r@.substitution),
    {
        let mut scopes: Vec<Vec<(String, Type)>> = Vec::new();
        scopes.push(Vec::new());
        let r = StaticEnv { scopes, adts: Vec::new(), substitution: Vec::new(), next_var: 0 };
        proof {
            assert(field_models(r.scopes@[0]@) =~= Seq::<(Seq<char>, TypeModel)>::empty());
            lemma_scope_map_empty::<TypeModel>();
            assert(r@.scopes =~= seq![Map::<Seq<char>, TypeModel>::empty()]);
            assert(r@.adts =~= Seq::<AdtModel>::empty());
            assert(r@.substitution =~= Seq::<(Seq<char>, TypeModel)>::empty());
        }
        r
    }

    /// Opens a scope.
    pub fn enter_block(&mut self)
        ensures
            final(self)@ == entered(old(self)@),
    {
        self.scopes.push(Vec::new());
        proof {
            let n = old(self).scopes@.len() as int;
            assert(field_models(self.scopes@[n]@) =~= Seq::<(Seq<char>, TypeModel)>::empty());
            lemma_scope_map_empty::<TypeModel>();
            assert(self@.scopes =~= old(self)@.scopes.push(Map::empty()));
            assert(self@.adts =~= old(self)@.adts);
        }
    }

    /// Closes the innermost scope.
    pub fn exit_block(&mut self)
        ensures
            final(self)@ == exited(old(self)@),
    {
        let _ = self.scopes.pop();
        proof {
            assert(self@.scopes =~= drop_scope(old(self)@.scopes));
            assert(self@.adts =~= old(self)@.adts);
        }
    }

    /// Gives `name` the type `ty` in the innermost scope.
    pub fn add(&mut self, name: &String, ty: Type)
        ensures
            final(self)@ == added(old(self)@, name@, ty@),
            keeps_below(old(self)@, final(self)@),
    {
        let mut top: Vec<(String, Type)> = match self.scopes.pop() {
            Some(scope) => scope,
            None => Vec::new(),
        };
        let ghost before = top@;
        top.push((name.clone(), ty));
        assert(field_models(top@) =~= field_models(before).push((name@, ty@)));
        self.scopes.push(top);
        proof {
            lemma_scope_map_push(field_models(before), name@, ty@);
            if old(self)@.scopes.len() == 0 {
                assert(field_models(before) =~= Seq::<(Seq<char>, TypeModel)>::empty());
                lemma_scope_map_empty::<TypeModel>();
            }
            assert(self@.scopes =~= add_type(old(self)@.scopes, name@, ty@));
            assert(self@.adts =~= old(self)@.adts);
            if old(self)@.scopes.len() > 0 {
                assert(self@.scopes.drop_last() =~= old(self)@.scopes.drop_last());
            }
        }
    }

    /// Makes a data type known.
    pub fn add_adt(&mut self, adt: Arc<Adt>)
        ensures
            final(self)@ == (StaticEnvModel { adts: old(self)@.adts.push(adt@), ..old(self)@ }),
    {
        self.adts.push(adt);
        proof {
            assert(self@.scopes =~= old(self)@.scopes);
            assert(self@.adts =~= old(self)@.adts.push(adt@));
        }
    }

    /// The type that `name` stands for, and whether the outermost scope is
    /// the one that holds it.
    pub fn find(&self, name: &String) -> (r: Option<(Type, bool)>)
        ensures
            match find_type(self@.scopes, name@) {
                Some((t, outer)) => r matches Some((x, y)) && x@ == t && y == outer,
                None => r.is_none(),
            },
    {
        let ghost all = self@.scopes;
        let mut i: usize = self.scopes.len();
        assert(all.take(i as int) =~= all);
        while i > 0
            invariant
                i <= self.scopes.len(),
                all == self@.scopes,
                find_type(all, name@) == find_type(all.take(i as int), name@),
            decreases i,
        {
            i -= 1;
            let scope = &self.scopes[i];
            proof {
                assert(all.take(i + 1).last() == scope_map(field_models(scope@)));
                assert(all.take(i + 1).drop_last() =~= all.take(i as int));
                assert(keys_of(field_models(scope@)) =~= entry_keys(scope@));
                lemma_key_index(entry_keys(scope@), name@);
            }
            match find_key(scope, name) {
                Some(k) => {
                    return Some((scope[k].1.clone(), i == 0));
                },
                None => {},
            }
        }
        None
    }

    /// The first known data type with a variant called `name`, and the
    /// place of that variant.
    pub fn find_variant(&self, name: &String) -> (r: Option<(usize, usize)>)
        ensures
            match find_variant(self@.adts, name@, 0) {
                Some((a, v)) => r matches Some((x, y)) && x == a && y == v && x < self.adts.len()
                    && y < self.adts[x as int]@.variants.len(),
                None => r.is_none(),
            },
    {
        let ghost all = self@.adts;
        let mut i: usize = 0;
        while i < self.adts.len()
            invariant
                i <= self.adts.len(),
                all == self@.adts,
                find_variant(all, name@, i as nat) == find_variant(all, name@, 0),
            decreases self.adts.len() - i,
        {
            let adt = &self.adts[i];
            let ghost am = adt@;
            assert(all[i as int] == am);
            let mut v: usize = 0;
            while v < adt.variants.len()
                invariant
                    v <= adt.variants.len(),
                    i < self.adts.len(),
                    adt == self.adts[i as int],
                    am == adt@,
                    all == self@.adts,
                    all[i as int] == am,
                    find_variant(all, name@, i as nat) == find_variant(all, name@, 0),
                    variant_index(am, name@, v as nat) == variant_index(am, name@, 0),
                decreases adt.variants.len() - v,
            {
                assert(am.variants[v as int] == adt.variants[v as int]@);
                if adt.variants[v].name == *name {
                    return Some((i, v));
                }
                v += 1;
            }
            i += 1;
        }
        None
    }

    /// The place of the first known data type called `name`.
    pub fn find_adt(&self, name: &String) -> (r: Option<usize>)
        ensures
            match r {
                Some(a) => a < self.adts.len() && adt_index(self@.adts, name@, 0) == a,
                None => adt_index(self@.adts, name@, 0) == -1,
            },
    {
        let ghost all = self@.adts;
        let mut i: usize = 0;
        while i < self.adts.len()
            invariant
                i <= self.adts.len(),
                all == self@.adts,
                adt_index(all, name@, i as nat) == adt_index(all, name@, 0),
            decreases self.adts.len() - i,
        {
            assert(all[i as int] == self.adts[i as int]@);
            if self.adts[i].name == *name {
                return Some(i);
            }
            i += 1;
        }
        None
    }

    /// The mark of the next use of a polymorphic type.
    pub fn fresh_suffix(&mut self) -> (r: String)
        ensures
            r@ == suffix_model(old(self)@.next_var as nat),
            final(self)@ == after_fresh(old(self)@),
    {
        let r = suffix(self.next_var);
        if self.next_var < u64::MAX {
            self.next_var = self.next_var + 1;
        }
        proof {
            assert(self@.scopes =~= old(self)@.scopes);
            assert(self@.adts =~= old(self)@.adts);
        }
        r
    }

    /// A type variable that no type holds yet; its name begins with
    /// `prefix`.
    pub fn fresh(&mut self, prefix: &str) -> (r: Type)
        ensures
            r@ == fresh_type(old(self)@, prefix@),
            final(self)@ == after_fresh(old(self)@),
    {
        let mut name = String::from_str(prefix);
        let mark = self.fresh_suffix();
        name.append(mark.as_str());
        let r = Type::Var(name);
        proof {
            lemma_type_model(&r);
        }
        r
    }

    /// The type with every binding made so far applied.
    pub fn resolve_type(&self, t: &Type) -> (r: Type)
        ensures
            r@ == resolved(self@, t@),
    {
        resolve(&self.substitution, t)
    }

    /// Makes `a` and `b` equal by binding type variables, and says whether
    /// that could be done. Where not, no binding is made. Where it could,
    /// and the bindings were well-formed, the two types are one type once
    /// resolved.
    pub fn unify_types(&mut self, a: &Type, b: &Type) -> (r: bool)
        ensures
            r == unified(old(self)@, a@, b@).is_some(),
            final(self)@ == after_unify(old(self)@, a@, b@),
            binds_well(old(self)@, final(self)@),
            r && well_formed(old(self)@.substitution) ==> resolved(final(self)@, a@) == resolved(
                final(self)@,
                b@,
            ),
    {
        proof {
            if well_formed(old(self)@.substitution) && unified(old(self)@, a@, b@).is_some() {
                law_unified_types_are_equal(old(self)@, a@, b@);
            }
        }
        let ra = resolve(&self.substitution, a);
        let rb = resolve(&self.substitution, b);
        let held = self.substitution.len();
        let r = unify(&ra, &rb, &mut self.substitution);
        match r {
            Ok(()) => {
                proof {
                    assert(self@.scopes =~= old(self)@.scopes);
                    assert(self@.adts =~= old(self)@.adts);
                }
                true
            },
            Err(_) => {
                self.substitution.truncate(held);
                proof {
                    assert(self.substitution@ =~= old(self).substitution@);
                    assert(self@.scopes =~= old(self)@.scopes);
                    assert(self@.adts =~= old(self)@.adts);
                }
                false
            },
        }
    }
}

} // verus!
