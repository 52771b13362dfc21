//! Patterns against types: what a pattern asks of the type it is matched
//! against, the types it gives to the names it binds, and whether the
//! patterns of a `case` leave a value uncovered.
use std::sync::Arc;
use vstd::prelude::*;
use vstd::string::StringExecFns;

use crate::analyzer::static_env::{
    added, adt_index, after_fresh, after_unify, binds_well, find_variant, fresh_type,
    keeps_below, resolved, unified, StaticEnv, StaticEnvModel,
};
use crate::analyzer::type_helper::{
    lemma_map_vars, map_all_model, map_vars, map_vars_all, rename_model, suffix_model, VarOp,
    VarOpModel,
};
use crate::analyzer::{
    adt_type_model, get_adt_type, list_of, plain_tag, type_list, type_tag, PatternMatchingError,
    PatternMatchingErrorModel,
};
use crate::ast::{
    branch_models, field_models, lemma_pattern_model, lemma_type_model, name_models,
    pattern_models, type_models, Expr, ExprModel, Pattern, PatternModel, Type, TypeModel,
};
use crate::interpreter::expression_eval::patterns_of;
use crate::scope::{entry_keys, find_key, key_index, keys_of, lemma_key_index, lookup};
use crate::types::{share, Adt, AdtModel};

verus! {

/// How the analysis of a pattern ends: the environment it leaves, and the
/// error if there was one.
pub type PatternOutcome = (StaticEnvModel, Option<PatternMatchingErrorModel>);

/// Asks that `a` and `b` be equal: binds what has to be bound, or fails
/// with `error` and binds nothing.
pub open spec fn expect(
    env: StaticEnvModel,
    a: TypeModel,
    b: TypeModel,
    error: PatternMatchingErrorModel,
) -> PatternOutcome {
    if unified(env, a, b).is_some() {
        (after_unify(env, a, b), None)
    } else {
        (env, Some(error))
    }
}

/// `n` fresh type variables, and the environment after they were taken.
pub open spec fn fresh_list(env: StaticEnvModel, n: nat) -> (StaticEnvModel, Seq<TypeModel>)
    decreases n,
{
    if n == 0 {
        (env, Seq::empty())
    } else {
        let (e, rest) = fresh_list(env, (n - 1) as nat);
        (after_fresh(e), rest.push(fresh_type(e, "t"@)))
    }
}

/// The analysis of `p` against the type `expected`.
///
/// A name takes the type, `_` asks nothing. A literal asks for its own
/// type, `()` for the unit type. A tuple pattern asks for a tuple of as
/// many parts, a list pattern and `h :: t` for a list; the items of a
/// list pattern first get a type each, and these then have to agree. A
/// record pattern asks for a record with exactly its names as fields, a
/// variant for the data type that has it, with as many fields.
pub open spec fn analyze_pattern_model(
    env: StaticEnvModel,
    p: PatternModel,
    expected: TypeModel,
) -> PatternOutcome
    decreases p, 0nat,
{
    match p {
        PatternModel::Var(n) => (added(env, n, expected), None),
        PatternModel::Wildcard => (env, None),
        PatternModel::Unit => expect(
            env,
            expected,
            TypeModel::Unit,
            PatternMatchingErrorModel::ExpectedUnit(resolved(env, expected)),
        ),
        PatternModel::LitInt(_) => expect(
            env,
            expected,
            plain_tag("Int"@),
            PatternMatchingErrorModel::ExpectedLiteral("Int"@, resolved(env, expected)),
        ),
        PatternModel::LitString(_) => expect(
            env,
            expected,
            plain_tag("String"@),
            PatternMatchingErrorModel::ExpectedLiteral("String"@, resolved(env, expected)),
        ),
        PatternModel::LitChar(_) => expect(
            env,
            expected,
            plain_tag("Char"@),
            PatternMatchingErrorModel::ExpectedLiteral("Char"@, resolved(env, expected)),
        ),
        PatternModel::Tuple(ps) => {
            let (env1, ts) = fresh_list(env, ps.len());
            let (env2, failed) = expect(
                env1,
                expected,
                TypeModel::Tuple(ts),
                PatternMatchingErrorModel::ExpectedTuple(p, resolved(env1, expected)),
            );
            if failed.is_some() {
                (env2, failed)
            } else {
                analyze_patterns_model(env2, ps, ts, 0)
            }
        },
        PatternModel::List(ps) => {
            let elem = fresh_type(env, "t"@);
            let env1 = after_fresh(env);
            let (env2, failed) = expect(
                env1,
                expected,
                list_of(elem),
                PatternMatchingErrorModel::ExpectedListType(resolved(env1, expected)),
            );
            if failed.is_some() {
                (env2, failed)
            } else {
                analyze_items_model(env2, ps, elem, 0)
            }
        },
        PatternModel::BinaryOp(op, a, b) => if op != "::"@ {
            (env, Some(PatternMatchingErrorModel::UnknownOperatorPattern(op)))
        } else {
            let elem = fresh_type(env, "t"@);
            let env1 = after_fresh(env);
            let (env2, failed) = expect(
                env1,
                expected,
                list_of(elem),
                PatternMatchingErrorModel::ExpectedListType(resolved(env1, expected)),
            );
            if failed.is_some() {
                (env2, failed)
            } else {
                let (env3, head) = analyze_pattern_model(env2, *a, elem);
                if head.is_some() {
                    (env3, head)
                } else {
                    analyze_pattern_model(env3, *b, list_of(elem))
                }
            }
        },
        PatternModel::Record(names) => match resolved(env, expected) {
            TypeModel::Record(fields) => if names.len() != fields.len() {
                (
                    env,
                    Some(PatternMatchingErrorModel::ExpectedRecord(TypeModel::Record(fields))),
                )
            } else {
                bind_fields_model(env, names, fields, 0)
            },
            other => (env, Some(PatternMatchingErrorModel::ExpectedRecord(other))),
        },
        PatternModel::Adt(ctor, ps) => match find_variant(env.adts, ctor, 0) {
            None => (env, Some(PatternMatchingErrorModel::UnknownAdtVariant(ctor))),
            Some((a, v)) => {
                let mark = suffix_model(env.next_var as nat);
                let env1 = after_fresh(env);
                let adt = env.adts[a];
                let ty = rename_model(adt_type_model(adt), mark);
                let error = PatternMatchingErrorModel::ExpectedAdt(ctor, resolved(env1, expected));
                if ps.len() != adt.variants[v].types.len() {
                    (env1, Some(error))
                } else {
                    let (env2, failed) = expect(env1, expected, ty, error);
                    if failed.is_some() {
                        (env2, failed)
                    } else {
                        analyze_patterns_model(
                            env2,
                            ps,
                            map_all_model(adt.variants[v].types, VarOpModel::Rename(mark)),
                            0,
                        )
                    }
                }
            },
        },
    }
}

/// The analysis of the patterns from place `i` on, each against the type
/// at its place; the first error ends it.
pub open spec fn analyze_patterns_model(
    env: StaticEnvModel,
    ps: Seq<PatternModel>,
    ts: Seq<TypeModel>,
    i: nat,
) -> PatternOutcome
    decreases ps, ps.len() - i,
{
    if i >= ps.len() || i >= ts.len() {
        (env, None)
    } else {
        let (e, failed) = analyze_pattern_model(env, ps[i as int], ts[i as int]);
        if failed.is_some() {
            (e, failed)
        } else {
            analyze_patterns_model(e, ps, ts, i + 1)
        }
    }
}

/// The analysis of the items of a list pattern from place `i` on: each
/// gets a type of its own, which then has to agree with `elem`.
pub open spec fn analyze_items_model(
    env: StaticEnvModel,
    ps: Seq<PatternModel>,
    elem: TypeModel,
    i: nat,
) -> PatternOutcome
    decreases ps, ps.len() - i,
{
    if i >= ps.len() {
        (env, None)
    } else {
        let own = fresh_type(env, "t"@);
        let (e, failed) = analyze_pattern_model(after_fresh(env), ps[i as int], own);
        if failed.is_some() {
            (e, failed)
        } else {
            let (e2, clash) = expect(
                e,
                elem,
                own,
                PatternMatchingErrorModel::ListPatternsAreNotHomogeneous(
                    resolved(e, elem),
                    resolved(e, own),
                ),
            );
            if clash.is_some() {
                (e2, clash)
            } else {
                analyze_items_model(e2, ps, elem, i + 1)
            }
        }
    }
}

/// The names of a record pattern from place `i` on, each given the type
/// of the field it names.
pub open spec fn bind_fields_model(
    env: StaticEnvModel,
    names: Seq<Seq<char>>,
    fields: Seq<(Seq<char>, TypeModel)>,
    i: nat,
) -> PatternOutcome
    decreases names.len() - i,
{
    if i >= names.len() {
        (env, None)
    } else {
        match lookup(fields, names[i as int]) {
            None => (
                env,
                Some(PatternMatchingErrorModel::InvalidRecordEntryName(names[i as int])),
            ),
            Some(ty) => bind_fields_model(added(env, names[i as int], ty), names, fields, i + 1),
        }
    }
}

/// What a call that returned `r` and left the environment `after` has to
/// do with the outcome `m`.
pub open spec fn pattern_done(
    m: PatternOutcome,
    after: StaticEnvModel,
    r: Result<(), PatternMatchingError>,
) -> bool {
    &&& after == m.0
    &&& match m.1 {
        None => r is Ok,
        Some(e) => r matches Err(x) && x@ == e,
    }
}

/// Asks that `a` and `b` be equal, and says whether they could be made
/// so.
fn expect_types(env: &mut StaticEnv, a: &Type, b: &Type) -> (r: bool)
    ensures
        forall|error: PatternMatchingErrorModel|
            (#[trigger] expect(old(env)@, a@, b@, error)).0 == final(env)@,
        forall|error: PatternMatchingErrorModel|
            (#[trigger] expect(old(env)@, a@, b@, error)).1 == if r {
                None
            } else {
                Some(error)
            },
        final(env)@.scopes == old(env)@.scopes,
        binds_well(old(env)@, final(env)@),
{
    env.unify_types(a, b)
}

/// Analyzes `p` against the type `expected`; the names that `p` binds get
/// their types in the innermost scope, and no other scope is touched.
pub fn analyze_pattern(env: &mut StaticEnv, p: &Pattern, expected: &Type) -> (r: Result<
    (),
    PatternMatchingError,
>)
    ensures
        pattern_done(analyze_pattern_model(old(env)@, p@, expected@), final(env)@, r),
        keeps_below(old(env)@, final(env)@),
        binds_well(old(env)@, final(env)@),
    decreases p, 1nat,
{
    proof {
        lemma_pattern_model(p);
    }
    match p {
        Pattern::Var(n) => {
            env.add(n, expected.clone());
            Ok(())
        },
        Pattern::Wildcard => Ok(()),
        Pattern::Unit => {
            let found = env.resolve_type(expected);
            let unit = Type::Unit;
            if expect_types(env, expected, &unit) {
                Ok(())
            } else {
                Err(PatternMatchingError::ExpectedUnit(found))
            }
        },
        Pattern::LitInt(_) => {
            let found = env.resolve_type(expected);
            if expect_types(env, expected, &type_tag("Int")) {
                Ok(())
            } else {
                Err(PatternMatchingError::ExpectedLiteral(String::from_str("Int"), found))
            }
        },
        Pattern::LitString(_) => {
            let found = env.resolve_type(expected);
            if expect_types(env, expected, &type_tag("String")) {
                Ok(())
            } else {
                Err(PatternMatchingError::ExpectedLiteral(String::from_str("String"), found))
            }
        },
        Pattern::LitChar(_) => {
            let found = env.resolve_type(expected);
            if expect_types(env, expected, &type_tag("Char")) {
                Ok(())
            } else {
                Err(PatternMatchingError::ExpectedLiteral(String::from_str("Char"), found))
            }
        },
        Pattern::Tuple(ps) => {
            let mut ts: Vec<Type> = Vec::new();
            let mut i: usize = 0;
            assert(type_models(ts@) =~= Seq::<TypeModel>::empty());
            while i < ps.len()
                invariant
                    i <= ps.len(),
                    (env@, type_models(ts@)) == fresh_list(old(env)@, i as nat),
                    env@.scopes == old(env)@.scopes,
                    binds_well(old(env)@, env@),
                decreases ps.len() - i,
            {
                let ghost before = type_models(ts@);
                let t = env.fresh("t");
                ts.push(t);
                assert(type_models(ts@) =~= before.push(t@));
                i += 1;
            }
            let found = env.resolve_type(expected);
            let tuple = Type::Tuple(ts);
            proof {
                lemma_type_model(&tuple);
            }
            if !expect_types(env, expected, &tuple) {
                return Err(PatternMatchingError::ExpectedTuple(p.clone(), found));
            }
            match &tuple {
                Type::Tuple(ts) => analyze_patterns(env, ps, ts),
                _ => Ok(()),
            }
        },
        Pattern::List(ps) => {
            let elem = env.fresh("t");
            let found = env.resolve_type(expected);
            let list = type_list(elem.clone());
            if !expect_types(env, expected, &list) {
                return Err(PatternMatchingError::ExpectedListType(found));
            }
            let ghost start = env@;
            let ghost pm = pattern_models(ps@);
            let ghost goal = analyze_pattern_model(old(env)@, p@, expected@);
            let mut i: usize = 0;
            while i < ps.len()
                invariant
                    i <= ps.len(),
                    pm == pattern_models(ps@),
                    *p matches Pattern::List(x) && x == ps,
                    goal == analyze_pattern_model(old(env)@, p@, expected@),
                    goal == analyze_items_model(start, pm, elem@, 0),
                    keeps_below(old(env)@, env@),
                    binds_well(old(env)@, env@),
                    analyze_items_model(env@, pm, elem@, i as nat) == analyze_items_model(
                        start,
                        pm,
                        elem@,
                        0,
                    ),
                decreases ps.len() - i,
            {
                let own = env.fresh("t");
                match analyze_pattern(env, &ps[i], &own) {
                    Err(e) => {
                        return Err(e);
                    },
                    Ok(()) => {},
                }
                let first = env.resolve_type(&elem);
                let second = env.resolve_type(&own);
                if !expect_types(env, &elem, &own) {
                    return Err(PatternMatchingError::ListPatternsAreNotHomogeneous(first, second));
                }
                i += 1;
            }
            Ok(())
        },
        Pattern::BinaryOp(op, a, b) => {
            if *op != String::from_str("::") {
                return Err(PatternMatchingError::UnknownOperatorPattern(op.clone()));
            }
            let elem = env.fresh("t");
            let found = env.resolve_type(expected);
            let list = type_list(elem.clone());
            if !expect_types(env, expected, &list) {
                return Err(PatternMatchingError::ExpectedListType(found));
            }
            match analyze_pattern(env, a, &elem) {
                Err(e) => {
                    return Err(e);
                },
                Ok(()) => {},
            }
            analyze_pattern(env, b, &list)
        },
        Pattern::Record(names) => {
            let found = env.resolve_type(expected);
            proof {
                lemma_type_model(&found);
            }
            let count = match &found {
                Type::Record(fields) => Some(fields.len()),
                _ => None,
            };
            if count != Some(names.len()) {
                return Err(PatternMatchingError::ExpectedRecord(found));
            }
            match &found {
                Type::Record(fields) => {
                    let ghost start = env@;
                    let ghost nm = name_models(names@);
                    let ghost fm = field_models(fields@);
                    let ghost goal = analyze_pattern_model(old(env)@, p@, expected@);
                    proof {
                        assert(keys_of(fm) =~= entry_keys(fields@));
                    }
                    let mut i: usize = 0;
                    while i < names.len()
                        invariant
                            i <= names.len(),
                            goal == analyze_pattern_model(old(env)@, p@, expected@),
                            goal == bind_fields_model(start, nm, fm, 0),
                            keeps_below(old(env)@, env@),
                            binds_well(old(env)@, env@),
                            nm == name_models(names@),
                            fm == field_models(fields@),
                            keys_of(fm) == entry_keys(fields@),
                            bind_fields_model(env@, nm, fm, i as nat) == bind_fields_model(
                                start,
                                nm,
                                fm,
                                0,
                            ),
                        decreases names.len() - i,
                    {
                        proof {
                            lemma_key_index(entry_keys(fields@), names[i as int]@);
                        }
                        match find_key(fields, &names[i]) {
                            None => {
                                return Err(
                                    PatternMatchingError::InvalidRecordEntryName(names[i].clone()),
                                );
                            },
                            Some(k) => {
                                env.add(&names[i], fields[k].1.clone());
                            },
                        }
                        i += 1;
                    }
                    Ok(())
                },
                _ => Ok(()),
            }
        },
        Pattern::Adt(ctor, ps) => {
            match env.find_variant(ctor) {
                None => Err(PatternMatchingError::UnknownAdtVariant(ctor.clone())),
                Some((a, v)) => {
                    let adt = share(&env.adts[a]);
                    assert(env@.adts[a as int] == adt@);
                    let mark = env.fresh_suffix();
                    let plain = get_adt_type(&adt);
                    let ty = map_vars(&plain, &VarOp::Rename(&mark));
                    let found = env.resolve_type(expected);
                    assert(adt@.variants[v as int] == adt.variants[v as int]@);
                    if ps.len() != adt.variants[v].types.len() {
                        return Err(PatternMatchingError::ExpectedAdt(ctor.clone(), found));
                    }
                    if !expect_types(env, expected, &ty) {
                        return Err(PatternMatchingError::ExpectedAdt(ctor.clone(), found));
                    }
                    let ts = map_vars_all(&adt.variants[v].types, &VarOp::Rename(&mark));
                    analyze_patterns(env, ps, &ts)
                },
            }
        },
    }
}

/// Analyzes each pattern against the type at its place.
pub fn analyze_patterns(env: &mut StaticEnv, ps: &Vec<Pattern>, ts: &Vec<Type>) -> (r: Result<
    (),
    PatternMatchingError,
>)
    ensures
        pattern_done(
            analyze_patterns_model(old(env)@, pattern_models(ps@), type_models(ts@), 0),
            final(env)@,
            r,
        ),
        keeps_below(old(env)@, final(env)@),
        binds_well(old(env)@, final(env)@),
    decreases ps, 0nat,
{
    let ghost pm = pattern_models(ps@);
    let ghost tm = type_models(ts@);
    let mut i: usize = 0;
    while i < ps.len() && i < ts.len()
        invariant
            i <= ps.len(),
            pm == pattern_models(ps@),
            tm == type_models(ts@),
            analyze_patterns_model(env@, pm, tm, i as nat) == analyze_patterns_model(
                old(env)@,
                pm,
                tm,
                0,
            ),
            keeps_below(old(env)@, env@),
            binds_well(old(env)@, env@),
        decreases ps.len() - i,
    {
        match analyze_pattern(env, &ps[i], &ts[i]) {
            Err(e) => {
                return Err(e);
            },
            Ok(()) => {},
        }
        i += 1;
    }
    Ok(())
}

/// Whether the pattern matches every value of its type: a name, `_`,
/// `()`, a record pattern, or a tuple of such patterns.
pub open spec fn irrefutable(p: PatternModel) -> bool
    decreases p, 0nat,
{
    match p {
        PatternModel::Var(_) => true,
        PatternModel::Wildcard => true,
        PatternModel::Unit => true,
        PatternModel::Record(_) => true,
        PatternModel::Tuple(ps) => all_irrefutable(ps, 0),
        _ => false,
    }
}

/// Whether each of the patterns from place `i` on matches every value of
/// its type.
pub open spec fn all_irrefutable(ps: Seq<PatternModel>, i: nat) -> bool
    decreases ps, ps.len() - i,
{
    i >= ps.len() || (irrefutable(ps[i as int]) && all_irrefutable(ps, i + 1))
}

/// A set of values that one pattern may cover whole.
pub enum CoveringModel {
    /// Every value.
    Everything,
    /// The values of the variant of this name.
    Variant(Seq<char>),
    EmptyList,
    /// The lists that are not empty.
    LongerList,
}

/// Whether `p` covers the whole of `what`.
pub open spec fn covers(p: PatternModel, what: CoveringModel) -> bool {
    match what {
        CoveringModel::Everything => irrefutable(p),
        CoveringModel::Variant(name) => p matches PatternModel::Adt(n, subs) && n == name
            && all_irrefutable(subs, 0),
        CoveringModel::EmptyList => p matches PatternModel::List(items) && items.len() == 0,
        CoveringModel::LongerList => p matches PatternModel::BinaryOp(op, a, b) && op == "::"@
            && irrefutable(*a) && irrefutable(*b),
    }
}

/// Whether one of the patterns from place `i` on covers the whole of
/// `what`.
pub open spec fn any_covers(ps: Seq<PatternModel>, what: CoveringModel, i: nat) -> bool
    decreases ps.len() - i,
{
    i < ps.len() && (covers(ps[i as int], what) || any_covers(ps, what, i + 1))
}

/// The place of the first variant of `adt` from place `v` on that no
/// pattern covers, or -1.
pub open spec fn first_uncovered(ps: Seq<PatternModel>, adt: AdtModel, v: nat) -> int
    decreases adt.variants.len() - v,
{
    if v >= adt.variants.len() {
        -1
    } else if !any_covers(ps, CoveringModel::Variant(adt.variants[v as int].name), 0) {
        v as int
    } else {
        first_uncovered(ps, adt, v + 1)
    }
}

/// `n` times `_`.
pub open spec fn wildcards(n: nat) -> Seq<PatternModel> {
    Seq::new(n, |i: int| PatternModel::Wildcard)
}

/// A pattern for values of the type `ty` that the patterns leave
/// uncovered; nothing where they cover every value.
///
/// One pattern that matches everything suffices. Failing that, the
/// patterns of a data type have to cover each of its variants, and those
/// of a list the empty list and the others. For any other type only a
/// pattern that matches everything will do.
pub open spec fn missing_pattern(ps: Seq<PatternModel>, ty: TypeModel, adts: Seq<AdtModel>) -> Option<
    PatternModel,
> {
    if any_covers(ps, CoveringModel::Everything, 0) {
        None
    } else {
        match ty {
            TypeModel::Tag(n, _) => if n == "List"@ {
                if !any_covers(ps, CoveringModel::EmptyList, 0) {
                    Some(PatternModel::List(Seq::empty()))
                } else if !any_covers(ps, CoveringModel::LongerList, 0) {
                    Some(
                        PatternModel::BinaryOp(
                            "::"@,
                            Box::new(PatternModel::Wildcard),
                            Box::new(PatternModel::Wildcard),
                        ),
                    )
                } else {
                    None
                }
            } else {
                let a = adt_index(adts, n, 0);
                if a < 0 {
                    Some(PatternModel::Wildcard)
                } else {
                    let v = first_uncovered(ps, adts[a], 0);
                    if v < 0 {
                        None
                    } else {
                        Some(
                            PatternModel::Adt(
                                adts[a].variants[v].name,
                                wildcards(adts[a].variants[v].types.len()),
                            ),
                        )
                    }
                }
            },
            _ => Some(PatternModel::Wildcard),
        }
    }
}

/// A set of values that one pattern may cover whole.
pub enum Covering<'a> {
    Everything,
    Variant(&'a String),
    EmptyList,
    LongerList,
}

impl<'a> View for Covering<'a> {
    type V = CoveringModel;

    open spec fn view(&self) -> CoveringModel {
        match self {
            Covering::Everything => CoveringModel::Everything,
            Covering::Variant(n) => CoveringModel::Variant(n@),
            Covering::EmptyList => CoveringModel::EmptyList,
            Covering::LongerList => CoveringModel::LongerList,
        }
    }
}

/// Whether the pattern matches every value of its type.
pub fn is_irrefutable(p: &Pattern) -> (r: bool)
    ensures
        r == irrefutable(p@),
    decreases p, 1nat,
{
    proof {
        lemma_pattern_model(p);
    }
    match p {
        Pattern::Var(_) => true,
        Pattern::Wildcard => true,
        Pattern::Unit => true,
        Pattern::Record(_) => true,
        Pattern::Tuple(ps) => are_irrefutable(ps),
        _ => false,
    }
}

/// Whether each of the patterns matches every value of its type.
pub fn are_irrefutable(ps: &Vec<Pattern>) -> (r: bool)
    ensures
        r == all_irrefutable(pattern_models(ps@), 0),
    decreases ps, 0nat,
{
    let ghost pm = pattern_models(ps@);
    let mut i: usize = 0;
    while i < ps.len()
        invariant
            i <= ps.len(),
            pm == pattern_models(ps@),
            all_irrefutable(pm, i as nat) == all_irrefutable(pm, 0),
        decreases ps.len() - i,
    {
        if !is_irrefutable(&ps[i]) {
            return false;
        }
        i += 1;
    }
    true
}

/// Whether `p` covers the whole of `what`.
pub fn pattern_covers(p: &Pattern, what: &Covering) -> (r: bool)
    ensures
        r == covers(p@, what@),
{
    proof {
        lemma_pattern_model(p);
    }
    match what {
        Covering::Everything => is_irrefutable(p),
        Covering::Variant(name) => match p {
            Pattern::Adt(n, subs) => *n == **name && are_irrefutable(subs),
            _ => false,
        },
        Covering::EmptyList => match p {
            Pattern::List(items) => items.len() == 0,
            _ => false,
        },
        Covering::LongerList => match p {
            Pattern::BinaryOp(op, a, b) => *op == String::from_str("::") && is_irrefutable(a)
                && is_irrefutable(b),
            _ => false,
        },
    }
}

/// Whether the pattern of one of the branches covers the whole of `what`.
pub fn some_branch_covers(branches: &Vec<(Pattern, Expr)>, what: &Covering) -> (r: bool)
    ensures
        r == any_covers(patterns_of(branch_models(branches@)), what@, 0),
{
    let ghost pm = patterns_of(branch_models(branches@));
    let mut i: usize = 0;
    while i < branches.len()
        invariant
            i <= branches.len(),
            pm == patterns_of(branch_models(branches@)),
            any_covers(pm, what@, i as nat) == any_covers(pm, what@, 0),
        decreases branches.len() - i,
    {
        assert(pm[i as int] == branches[i as int].0@);
        if pattern_covers(&branches[i].0, what) {
            return true;
        }
        i += 1;
    }
    false
}

/// A pattern for values of the type `ty` that the branches leave
/// uncovered, if there is one.
pub fn check_exhaustive(env: &StaticEnv, branches: &Vec<(Pattern, Expr)>, ty: &Type) -> (r: Option<
    Pattern,
>)
    ensures
        match missing_pattern(patterns_of(branch_models(branches@)), ty@, env@.adts) {
            None => r.is_none(),
            Some(p) => r matches Some(x) && x@ == p,
        },
{
    let ghost pm = patterns_of(branch_models(branches@));
    proof {
        lemma_type_model(ty);
    }
    if some_branch_covers(branches, &Covering::Everything) {
        return None;
    }
    match ty {
        Type::Tag(n, _) => {
            if *n == String::from_str("List") {
                if !some_branch_covers(branches, &Covering::EmptyList) {
                    let r = Pattern::List(Vec::new());
                    proof {
                        lemma_pattern_model(&r);
                        assert(pattern_models(Seq::<Pattern>::empty()) =~= Seq::<
                            PatternModel,
                        >::empty());
                    }
                    Some(r)
                } else if !some_branch_covers(branches, &Covering::LongerList) {
                    let r = Pattern::BinaryOp(
                        String::from_str("::"),
                        Box::new(Pattern::Wildcard),
                        Box::new(Pattern::Wildcard),
                    );
                    proof {
                        lemma_pattern_model(&r);
                        lemma_pattern_model(&Pattern::Wildcard);
                    }
                    Some(r)
                } else {
                    None
                }
            } else {
                match env.find_adt(n) {
                    None => {
                        proof {
                            lemma_pattern_model(&Pattern::Wildcard);
                        }
                        Some(Pattern::Wildcard)
                    },
                    Some(a) => {
                        let adt = &env.adts[a];
                        let ghost am = adt@;
                        assert(env@.adts[a as int] == am);
                        let mut v: usize = 0;
                        while v < adt.variants.len()
                            invariant
                                v <= adt.variants.len(),
                                am == adt@,
                                pm == patterns_of(branch_models(branches@)),
                                !any_covers(pm, CoveringModel::Everything, 0),
                                ty@ matches TypeModel::Tag(x, _) && x == n@,
                                n@ != "List"@,
                                adt_index(env@.adts, n@, 0) == a,
                                env@.adts[a as int] == am,
                                first_uncovered(pm, am, v as nat) == first_uncovered(pm, am, 0),
                            decreases adt.variants.len() - v,
                        {
                            assert(am.variants[v as int] == adt.variants[v as int]@);
                            if !some_branch_covers(
                                branches,
                                &Covering::Variant(&adt.variants[v].name),
                            ) {
                                let mut subs: Vec<Pattern> = Vec::new();
                                let mut k: usize = 0;
                                while k < adt.variants[v as usize].types.len()
                                    invariant
                                        k <= adt.variants[v as int].types.len(),
                                        v < adt.variants.len(),
                                        subs.len() == k,
                                        forall|j: int|
                                            0 <= j < k ==> subs[j]@ == PatternModel::Wildcard,
                                    decreases adt.variants[v as int].types.len() - k,
                                {
                                    proof {
                                        lemma_pattern_model(&Pattern::Wildcard);
                                    }
                                    subs.push(Pattern::Wildcard);
                                    k += 1;
                                }
                                let r = Pattern::Adt(adt.variants[v].name.clone(), subs);
                                proof {
                                    lemma_pattern_model(&r);
                                    assert(pattern_models(subs@) =~= wildcards(
                                        am.variants[v as int].types.len(),
                                    ));
                                }
                                return Some(r);
                            }
                            v += 1;
                        }
                        None
                    },
                }
            }
        },
        _ => {
            proof {
                lemma_pattern_model(&Pattern::Wildcard);
            }
            Some(Pattern::Wildcard)
        },
    }
}

/// A pattern that covers something is found by `any_covers`.
pub proof fn lemma_any_covers(ps: Seq<PatternModel>, what: CoveringModel, i: nat, k: int)
    requires
        i <= k < ps.len(),
        covers(ps[k], what),
    ensures
        any_covers(ps, what, i),
    decreases k - i,
{
    if i < k && !covers(ps[i as int], what) {
        lemma_any_covers(ps, what, i + 1, k);
    }
}

/// A variant that no pattern covers is found by `first_uncovered`, or a
/// variant before it is.
pub proof fn lemma_first_uncovered(ps: Seq<PatternModel>, adt: AdtModel, i: nat, v: int)
    requires
        i <= v < adt.variants.len(),
        !any_covers(ps, CoveringModel::Variant(adt.variants[v].name), 0),
    ensures
        i <= first_uncovered(ps, adt, i) <= v,
    decreases v - i,
{
    if i < v && any_covers(ps, CoveringModel::Variant(adt.variants[i as int].name), 0) {
        lemma_first_uncovered(ps, adt, i + 1, v);
    }
}

/// Where every variant is covered, `first_uncovered` finds none.
pub proof fn lemma_all_covered(ps: Seq<PatternModel>, adt: AdtModel, i: nat)
    requires
        forall|v: int|
            0 <= v < adt.variants.len() ==> any_covers(
                ps,
                CoveringModel::Variant(#[trigger] adt.variants[v].name),
                0,
            ),
    ensures
        first_uncovered(ps, adt, i) == -1,
    decreases adt.variants.len() - i,
{
    if i < adt.variants.len() {
        assert(any_covers(ps, CoveringModel::Variant(adt.variants[i as int].name), 0));
        lemma_all_covered(ps, adt, i + 1);
    }
}

/// The patterns of a `case` over a data type that cover one of its
/// variants neither by a pattern of that variant nor by a pattern that
/// matches everything are not exhaustive.
pub proof fn law_gap_is_reported(
    ps: Seq<PatternModel>,
    name: Seq<char>,
    args: Seq<TypeModel>,
    adts: Seq<AdtModel>,
    v: int,
)
    requires
        name != "List"@,
        adt_index(adts, name, 0) >= 0,
        0 <= v < adts[adt_index(adts, name, 0)].variants.len(),
        !any_covers(ps, CoveringModel::Everything, 0),
        !any_covers(
            ps,
            CoveringModel::Variant(adts[adt_index(adts, name, 0)].variants[v].name),
            0,
        ),
    ensures
        missing_pattern(ps, TypeModel::Tag(name, args), adts).is_some(),
{
    lemma_first_uncovered(ps, adts[adt_index(adts, name, 0)], 0, v);
}

/// Patterns with one among them that matches everything are exhaustive,
/// whatever the type.
pub proof fn law_catch_all_suffices(
    ps: Seq<PatternModel>,
    ty: TypeModel,
    adts: Seq<AdtModel>,
    k: int,
)
    requires
        0 <= k < ps.len(),
        irrefutable(ps[k]),
    ensures
        missing_pattern(ps, ty, adts).is_none(),
{
    lemma_any_covers(ps, CoveringModel::Everything, 0, k);
}

/// Patterns that cover every variant of a data type are exhaustive.
pub proof fn law_all_variants_suffice(
    ps: Seq<PatternModel>,
    name: Seq<char>,
    args: Seq<TypeModel>,
    adts: Seq<AdtModel>,
)
    requires
        name != "List"@,
        adt_index(adts, name, 0) >= 0,
        forall|v: int|
            0 <= v < adts[adt_index(adts, name, 0)].variants.len() ==> any_covers(
                ps,
                CoveringModel::Variant(
                    #[trigger] adts[adt_index(adts, name, 0)].variants[v].name,
                ),
                0,
            ),
    ensures
        missing_pattern(ps, TypeModel::Tag(name, args), adts).is_none(),
{
    lemma_all_covered(ps, adts[adt_index(adts, name, 0)], 0);
}

} // verus!
