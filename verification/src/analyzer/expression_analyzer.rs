//! The types of expressions: each part is given a type, and the types
//! that have to agree are made equal by binding type variables.
use vstd::prelude::*;
use vstd::string::StringExecFns;

use crate::analyzer::pattern_analyzer::{
    analyze_pattern, analyze_pattern_model, analyze_patterns, analyze_patterns_model,
    check_exhaustive, fresh_list, missing_pattern, pattern_done,
};
use crate::analyzer::static_env::{
    added, after_fresh, after_unify, binds_well, entered, exited, find_type, fresh_type,
    keeps_below, resolved, unified, StaticEnv, StaticEnvModel,
};
use crate::analyzer::type_helper::{map_vars, rename_model, suffix_model, VarOp};
use crate::analyzer::{
    build_fun_type, fun_type_model, list_of, plain_tag, type_list, type_tag,
    PatternMatchingError, PatternMatchingErrorModel, TypeError, TypeErrorModel,
};
use crate::ast::{
    branch_models, clone_fields, entry_models, expr_models, field_models, lemma_expr_model,
    lemma_type_model,
    let_models, pattern_models, type_models, Definition, DefinitionModel, Expr, ExprModel,
    LetEntry, LetEntryModel, Literal, LiteralModel, Pattern, PatternModel, Type, TypeModel,
};
use crate::interpreter::expression_eval::patterns_of;
use crate::scope::{entry_keys, find_key, key_index, keys_of, lemma_key_index, lookup};

verus! {

/// How the analysis of an expression ends: the environment it leaves, and
/// the type or the error.
pub type Inferred = (StaticEnvModel, Result<TypeModel, TypeErrorModel>);

/// How the analysis of several expressions ends.
pub type InferredList = (StaticEnvModel, Result<Seq<TypeModel>, TypeErrorModel>);

/// How the analysis of the fields of a record ends.
pub type InferredFields = (StaticEnvModel, Result<Seq<(Seq<char>, TypeModel)>, TypeErrorModel>);

/// How a check that gives no type ends.
pub type Checked = (StaticEnvModel, Option<TypeErrorModel>);

/// Whether the name at place `i` is among those from place `j` up to it.
pub open spec fn repeats(keys: Seq<Seq<char>>, i: nat, j: nat) -> bool
    decreases i - j,
{
    j < i && (keys[j as int] == keys[i as int] || repeats(keys, i, j + 1))
}

/// The first place from `i` on whose name stands at an earlier place too,
/// or -1.
pub open spec fn first_repeat(keys: Seq<Seq<char>>, i: nat) -> int
    decreases keys.len() - i,
{
    if i >= keys.len() {
        -1
    } else if repeats(keys, i, 0) {
        i as int
    } else {
        first_repeat(keys, i + 1)
    }
}

/// The error of an application of something of type `tf` to an argument
/// of type `ta`.
pub open spec fn application_error(tf: TypeModel, ta: TypeModel) -> TypeErrorModel {
    match tf {
        TypeModel::Fun(input, _) => TypeErrorModel::ArgumentsDoNotMatch(*input, ta),
        TypeModel::Var(_) => TypeErrorModel::ArgumentsDoNotMatch(tf, ta),
        _ => TypeErrorModel::NotAFunction(tf),
    }
}

/// The type of a literal that is no whole number.
pub open spec fn literal_type(l: LiteralModel) -> TypeModel {
    match l {
        LiteralModel::Int(_) => plain_tag("Int"@),
        LiteralModel::Float(_) => plain_tag("Float"@),
        LiteralModel::String(_) => plain_tag("String"@),
        LiteralModel::Char(_) => plain_tag("Char"@),
    }
}

/// The types `acc` in front of those that an analysis gave.
pub open spec fn prepend_types(acc: Seq<TypeModel>, m: InferredList) -> InferredList {
    match m.1 {
        Ok(ts) => (m.0, Ok(acc + ts)),
        Err(x) => (m.0, Err(x)),
    }
}

/// The fields `acc` in front of those that an analysis gave.
pub open spec fn prepend_field_types(acc: Seq<(Seq<char>, TypeModel)>, m: InferredFields) -> InferredFields {
    match m.1 {
        Ok(ts) => (m.0, Ok(acc + ts)),
        Err(x) => (m.0, Err(x)),
    }
}

/// The type of `e` in `env`.
///
/// A whole number has a fresh number type, any other literal its own
/// type. A name of the outermost scope has its type with fresh
/// variables, any other name its type as it stands. The items of a list
/// have one type. The condition of an `if` is a `Bool` and its branches
/// have one type. The function of an application takes what the argument
/// is. The branches of a `case` have one type, and their patterns fit
/// the subject and leave no value of it uncovered. A lambda has the
/// arrow from the types of its parameters to that of its body, which has
/// to agree with the type it carries.
pub open spec fn infer_model(env: StaticEnvModel, e: ExprModel) -> Inferred
    decreases e, 1nat, 0nat,
{
    match e {
        ExprModel::Unit => (env, Ok(TypeModel::Unit)),
        ExprModel::Literal(l) => match l {
            LiteralModel::Int(_) => (after_fresh(env), Ok(fresh_type(env, "number"@))),
            _ => (env, Ok(literal_type(l))),
        },
        ExprModel::Ref(n) => match find_type(env.scopes, n) {
            None => (env, Err(TypeErrorModel::MissingDefinition(n))),
            Some((t, outer)) => if outer {
                (after_fresh(env), Ok(rename_model(t, suffix_model(env.next_var as nat))))
            } else {
                (env, Ok(resolved(env, t)))
            },
        },
        ExprModel::Tuple(items) => {
            let (e1, r) = infer_list_model(env, items, 0);
            match r {
                Err(x) => (e1, Err(x)),
                Ok(ts) => (e1, Ok(resolved(e1, TypeModel::Tuple(ts)))),
            }
        },
        ExprModel::List(items) => {
            let elem = fresh_type(env, "t"@);
            let (e1, failed) = infer_items_model(after_fresh(env), items, elem, 0);
            match failed {
                Some(x) => (e1, Err(x)),
                None => (e1, Ok(list_of(resolved(e1, elem)))),
            }
        },
        ExprModel::Record(fields) => {
            let k = first_repeat(keys_of(fields), 0);
            if k >= 0 {
                (env, Err(TypeErrorModel::DuplicateRecordField(fields[k].0)))
            } else {
                let (e1, r) = infer_fields_model(env, fields, 0);
                match r {
                    Err(x) => (e1, Err(x)),
                    Ok(fs) => (e1, Ok(resolved(e1, TypeModel::Record(fs)))),
                }
            }
        },
        ExprModel::RecordUpdate(n, fields) => match find_type(env.scopes, n) {
            None => (env, Err(TypeErrorModel::MissingDefinition(n))),
            Some((t, _)) => match resolved(env, t) {
                TypeModel::Record(held) => {
                    let (e1, failed) = check_updates_model(env, fields, held, 0);
                    match failed {
                        Some(x) => (e1, Err(x)),
                        None => (e1, Ok(resolved(e1, TypeModel::Record(held)))),
                    }
                },
                other => (env, Err(TypeErrorModel::ExpectedRecord(other))),
            },
        },
        ExprModel::RecordField(b, name) => {
            let (e1, r) = infer_model(env, *b);
            match r {
                Err(x) => (e1, Err(x)),
                Ok(t) => match resolved(e1, t) {
                    TypeModel::Record(fs) => match lookup(fs, name) {
                        Some(ft) => (e1, Ok(ft)),
                        None => (
                            e1,
                            Err(TypeErrorModel::RecordFieldNotFound(name, TypeModel::Record(fs))),
                        ),
                    },
                    other => (e1, Err(TypeErrorModel::ExpectedRecord(other))),
                },
            }
        },
        ExprModel::If(c, a, b) => {
            let (e1, rc) = infer_model(env, *c);
            match rc {
                Err(x) => (e1, Err(x)),
                Ok(tc) => if unified(e1, tc, plain_tag("Bool"@)).is_none() {
                    (e1, Err(TypeErrorModel::IfWithNonBoolCondition(resolved(e1, tc))))
                } else {
                    let (e3, ra) = infer_model(after_unify(e1, tc, plain_tag("Bool"@)), *a);
                    match ra {
                        Err(x) => (e3, Err(x)),
                        Ok(ta) => {
                            let (e4, rb) = infer_model(e3, *b);
                            match rb {
                                Err(x) => (e4, Err(x)),
                                Ok(tb) => if unified(e4, ta, tb).is_none() {
                                    (
                                        e4,
                                        Err(
                                            TypeErrorModel::IfBranchesDoesntMatch(
                                                resolved(e4, ta),
                                                resolved(e4, tb),
                                            ),
                                        ),
                                    )
                                } else {
                                    let e5 = after_unify(e4, ta, tb);
                                    (e5, Ok(resolved(e5, ta)))
                                },
                            }
                        },
                    }
                },
            }
        },
        ExprModel::Application(f, a) => {
            let (e1, rf) = infer_model(env, *f);
            match rf {
                Err(x) => (e1, Err(x)),
                Ok(tf) => {
                    let (e2, ra) = infer_model(e1, *a);
                    match ra {
                        Err(x) => (e2, Err(x)),
                        Ok(ta) => {
                            let out = fresh_type(e2, "t"@);
                            let e3 = after_fresh(e2);
                            let arrow = TypeModel::Fun(Box::new(ta), Box::new(out));
                            if unified(e3, tf, arrow).is_none() {
                                (e3, Err(application_error(resolved(e3, tf), resolved(e3, ta))))
                            } else {
                                let e4 = after_unify(e3, tf, arrow);
                                (e4, Ok(resolved(e4, out)))
                            }
                        },
                    }
                },
            }
        },
        ExprModel::Case(s, branches) => {
            let (e1, rs) = infer_model(env, *s);
            match rs {
                Err(x) => (e1, Err(x)),
                Ok(ts) => {
                    let out = fresh_type(e1, "t"@);
                    let (e2, failed) = infer_branches_model(after_fresh(e1), branches, ts, out, 0);
                    match failed {
                        Some(x) => (e2, Err(x)),
                        None => match missing_pattern(
                            patterns_of(branches),
                            resolved(e2, ts),
                            e2.adts,
                        ) {
                            Some(p) => (
                                e2,
                                Err(
                                    TypeErrorModel::PatternMatchingError(
                                        PatternMatchingErrorModel::PatternNotExhaustive(p),
                                    ),
                                ),
                            ),
                            None => (e2, Ok(resolved(e2, out))),
                        },
                    }
                },
            }
        },
        ExprModel::Lambda(annot, ps, body) => infer_function_model(env, annot, None, ps, *body),
        ExprModel::Let(_, _) => {
            let (e1, r) = infer_let_model(entered(env), e, 0);
            (exited(e1), r)
        },
    }
}

/// The types of the expressions from place `i` on.
pub open spec fn infer_list_model(env: StaticEnvModel, items: Seq<ExprModel>, i: nat) -> InferredList
    decreases items, 0nat, items.len() - i,
{
    if i >= items.len() {
        (env, Ok(Seq::empty()))
    } else {
        let (e1, r) = infer_model(env, items[i as int]);
        match r {
            Err(x) => (e1, Err(x)),
            Ok(t) => prepend_types(seq![t], infer_list_model(e1, items, i + 1)),
        }
    }
}

/// The types of the fields from place `i` on, each under its name.
pub open spec fn infer_fields_model(
    env: StaticEnvModel,
    fields: Seq<(Seq<char>, ExprModel)>,
    i: nat,
) -> InferredFields
    decreases fields, 0nat, fields.len() - i,
{
    if i >= fields.len() {
        (env, Ok(Seq::empty()))
    } else {
        let (e1, r) = infer_model(env, fields[i as int].1);
        match r {
            Err(x) => (e1, Err(x)),
            Ok(t) => prepend_field_types(
                seq![(fields[i as int].0, t)],
                infer_fields_model(e1, fields, i + 1),
            ),
        }
    }
}

/// The items of a list from place `i` on, each of the type `elem`.
pub open spec fn infer_items_model(
    env: StaticEnvModel,
    items: Seq<ExprModel>,
    elem: TypeModel,
    i: nat,
) -> Checked
    decreases items, 0nat, items.len() - i,
{
    if i >= items.len() {
        (env, None)
    } else {
        let (e1, r) = infer_model(env, items[i as int]);
        match r {
            Err(x) => (e1, Some(x)),
            Ok(t) => if unified(e1, elem, t).is_none() {
                (
                    e1,
                    Some(TypeErrorModel::ListNotHomogeneous(resolved(e1, elem), resolved(e1, t))),
                )
            } else {
                infer_items_model(after_unify(e1, elem, t), items, elem, i + 1)
            },
        }
    }
}

/// The updates of a record from place `i` on, each of the type of the
/// field it replaces.
pub open spec fn check_updates_model(
    env: StaticEnvModel,
    fields: Seq<(Seq<char>, ExprModel)>,
    held: Seq<(Seq<char>, TypeModel)>,
    i: nat,
) -> Checked
    decreases fields, 0nat, fields.len() - i,
{
    if i >= fields.len() {
        (env, None)
    } else {
        match lookup(held, fields[i as int].0) {
            None => (
                env,
                Some(
                    TypeErrorModel::RecordFieldNotFound(
                        fields[i as int].0,
                        TypeModel::Record(held),
                    ),
                ),
            ),
            Some(ft) => {
                let (e1, r) = infer_model(env, fields[i as int].1);
                match r {
                    Err(x) => (e1, Some(x)),
                    Ok(t) => if unified(e1, ft, t).is_none() {
                        (
                            e1,
                            Some(
                                TypeErrorModel::ArgumentsDoNotMatch(
                                    resolved(e1, ft),
                                    resolved(e1, t),
                                ),
                            ),
                        )
                    } else {
                        check_updates_model(after_unify(e1, ft, t), fields, held, i + 1)
                    },
                }
            },
        }
    }
}

/// The type of one branch of a `case` over a subject of type `ts`: its
/// pattern and its body are analyzed in a scope of their own.
pub open spec fn infer_branch_model(
    env: StaticEnvModel,
    p: PatternModel,
    body: ExprModel,
    ts: TypeModel,
) -> Inferred
    decreases body, 2nat, 0nat,
{
    let (e1, failed) = analyze_pattern_model(entered(env), p, ts);
    match failed {
        Some(x) => (exited(e1), Err(TypeErrorModel::PatternMatchingError(x))),
        None => {
            let (e2, r) = infer_model(e1, body);
            (exited(e2), r)
        },
    }
}

/// The branches from place `i` on, each of the type `out`.
pub open spec fn infer_branches_model(
    env: StaticEnvModel,
    branches: Seq<(PatternModel, ExprModel)>,
    ts: TypeModel,
    out: TypeModel,
    i: nat,
) -> Checked
    decreases branches, 0nat, branches.len() - i,
{
    if i >= branches.len() {
        (env, None)
    } else {
        let (e1, r) = infer_branch_model(env, branches[i as int].0, branches[i as int].1, ts);
        match r {
            Err(x) => (e1, Some(x)),
            Ok(tb) => if unified(e1, out, tb).is_none() {
                (
                    e1,
                    Some(
                        TypeErrorModel::CaseBranchDontMatchReturnType(
                            resolved(e1, out),
                            resolved(e1, tb),
                        ),
                    ),
                )
            } else {
                infer_branches_model(after_unify(e1, out, tb), branches, ts, out, i + 1)
            },
        }
    }
}

/// The types of the parameters and of the body of a function, analyzed
/// in the innermost scope of `env`. A name that the function has and that
/// stands for nothing yet stands for `annot` there, so that the function
/// can use itself; a name that stands for something already keeps its
/// type, as a function value keeps the value.
pub open spec fn function_parts_model(
    env: StaticEnvModel,
    annot: TypeModel,
    name: Option<Seq<char>>,
    ps: Seq<PatternModel>,
    body: ExprModel,
) -> (StaticEnvModel, Result<(Seq<TypeModel>, TypeModel), TypeErrorModel>)
    decreases body, 2nat, 0nat,
{
    let e1 = match name {
        Some(n) => if find_type(env.scopes, n).is_none() {
            added(env, n, annot)
        } else {
            env
        },
        None => env,
    };
    let (e2, ts) = fresh_list(e1, ps.len());
    let (e3, failed) = analyze_patterns_model(e2, ps, ts, 0);
    match failed {
        Some(x) => (e3, Err(TypeErrorModel::PatternMatchingError(x))),
        None => {
            let (e4, r) = infer_model(e3, body);
            match r {
                Err(x) => (e4, Err(x)),
                Ok(tb) => (e4, Ok((ts, tb))),
            }
        },
    }
}

/// The type of a function with the parameters `ps` and the body `body`
/// that carries the type `annot`: the arrow from the types of the
/// parameters to that of the body, which has to agree with `annot`. The
/// variables of `annot` are its own: they are told from those of every
/// other type by a fresh mark.
pub open spec fn infer_function_model(
    env: StaticEnvModel,
    annot: TypeModel,
    name: Option<Seq<char>>,
    ps: Seq<PatternModel>,
    body: ExprModel,
) -> Inferred
    decreases body, 3nat, 0nat,
{
    let own = rename_model(annot, suffix_model(env.next_var as nat));
    let (e1, r) = function_parts_model(entered(after_fresh(env)), own, name, ps, body);
    let e2 = exited(e1);
    match r {
        Err(x) => (e2, Err(x)),
        Ok((ts, tb)) => {
            let arrow = fun_type_model(ts, tb, 0);
            if unified(e2, own, arrow).is_none() {
                (
                    e2,
                    Err(
                        TypeErrorModel::DefinitionTypeAndReturnTypeMismatch(
                            resolved(e2, own),
                            resolved(e2, arrow),
                        ),
                    ),
                )
            } else {
                let e3 = after_unify(e2, own, arrow);
                (e3, Ok(resolved(e3, arrow)))
            }
        },
    }
}

/// The type of the `let` expression `e` from its entry `i` on, in the
/// innermost scope of `env`.
pub open spec fn infer_let_model(env: StaticEnvModel, e: ExprModel, i: nat) -> Inferred
    decreases e, 0nat, (e->Let_0).len() - i,
{
    match e {
        ExprModel::Let(entries, body) => if i >= entries.len() {
            let (e1, r) = infer_model(env, *body);
            match r {
                Err(x) => (e1, Err(x)),
                Ok(t) => (e1, Ok(resolved(e1, t))),
            }
        } else {
            match entries[i as int] {
                LetEntryModel::Definition(d) => {
                    let (e1, r) = infer_function_model(
                        env,
                        d.header,
                        Some(d.name),
                        d.patterns,
                        d.expr,
                    );
                    match r {
                        Err(x) => (e1, Err(x)),
                        Ok(t) => infer_let_model(added(e1, d.name, t), e, i + 1),
                    }
                },
                LetEntryModel::Pattern(p, x) => {
                    let (e1, r) = infer_model(env, x);
                    match r {
                        Err(y) => (e1, Err(y)),
                        Ok(t) => {
                            let (e2, failed) = analyze_pattern_model(e1, p, t);
                            match failed {
                                Some(y) => (e2, Err(TypeErrorModel::PatternMatchingError(y))),
                                None => infer_let_model(e2, e, i + 1),
                            }
                        },
                    }
                },
            }
        },
        _ => (env, Ok(TypeModel::Unit)),
    }
}

/// What a call that returned `r` and left the environment `after` has to
/// do with the analysis `m`.
pub open spec fn inferred_done(m: Inferred, after: StaticEnvModel, r: Result<Type, TypeError>) -> bool {
    &&& after == m.0
    &&& match m.1 {
        Ok(t) => r matches Ok(x) && x@ == t,
        Err(e) => r matches Err(x) && x@ == e,
    }
}

/// What a call that returned `r` and left the environment `after` has to
/// do with the check `m`.
pub open spec fn checked_done(m: Checked, after: StaticEnvModel, r: Result<(), TypeError>) -> bool {
    &&& after == m.0
    &&& match m.1 {
        None => r is Ok,
        Some(e) => r matches Err(x) && x@ == e,
    }
}

/// The name, if there is one.
pub open spec fn name_view(name: Option<&String>) -> Option<Seq<char>> {
    match name {
        Some(n) => Some(n@),
        None => None,
    }
}

/// The error of an application of something of type `tf` to an argument
/// of type `ta`.
fn application_error_of(tf: Type, ta: Type) -> (r: TypeError)
    ensures
        r@ == application_error(tf@, ta@),
{
    proof {
        lemma_type_model(&tf);
    }
    match tf {
        Type::Fun(input, _) => TypeError::ArgumentsDoNotMatch(*input, ta),
        Type::Var(n) => {
            let v = Type::Var(n);
            proof {
                lemma_type_model(&v);
            }
            TypeError::ArgumentsDoNotMatch(v, ta)
        },
        other => TypeError::NotAFunction(other),
    }
}

/// The place of the first field whose name an earlier field has too.
fn find_repeat(fields: &Vec<(String, Expr)>) -> (r: Option<usize>)
    ensures
        match r {
            Some(k) => k < fields.len() && first_repeat(keys_of(entry_models(fields@)), 0) == k,
            None => first_repeat(keys_of(entry_models(fields@)), 0) == -1,
        },
{
    let ghost keys = keys_of(entry_models(fields@));
    let mut i: usize = 0;
    while i < fields.len()
        invariant
            i <= fields.len(),
            keys == keys_of(entry_models(fields@)),
            first_repeat(keys, i as nat) == first_repeat(keys, 0),
        decreases fields.len() - i,
    {
        let mut j: usize = 0;
        while j < i
            invariant
                j <= i,
                i < fields.len(),
                keys == keys_of(entry_models(fields@)),
                first_repeat(keys, i as nat) == first_repeat(keys, 0),
                repeats(keys, i as nat, j as nat) == repeats(keys, i as nat, 0),
            decreases i - j,
        {
            assert(keys[j as int] == fields[j as int].0@);
            assert(keys[i as int] == fields[i as int].0@);
            if fields[j].0 == fields[i].0 {
                return Some(i);
            }
            j += 1;
        }
        i += 1;
    }
    None
}

/// Gives `expr` its type in `env`. Every scope that the analysis opens
/// it closes again, whatever the result: the scopes are the same
/// afterwards.
pub fn analyze_expression(env: &mut StaticEnv, expr: &Expr) -> (r: Result<Type, TypeError>)
    ensures
        inferred_done(infer_model(old(env)@, expr@), final(env)@, r),
        final(env)@.scopes == old(env)@.scopes,
        binds_well(old(env)@, final(env)@),
    decreases expr, 1nat,
{
    proof {
        lemma_expr_model(expr);
    }
    match expr {
        Expr::Unit => Ok(Type::Unit),
        Expr::Literal(l) => match l {
            Literal::Int(_) => Ok(env.fresh("number")),
            Literal::Float(_) => Ok(type_tag("Float")),
            Literal::String(_) => Ok(type_tag("String")),
            Literal::Char(_) => Ok(type_tag("Char")),
        },
        Expr::Ref(n) => match env.find(n) {
            None => Err(TypeError::MissingDefinition(n.clone())),
            Some((t, outer)) => {
                if outer {
                    let mark = env.fresh_suffix();
                    Ok(map_vars(&t, &VarOp::Rename(&mark)))
                } else {
                    Ok(env.resolve_type(&t))
                }
            },
        },
        Expr::Tuple(items) => match analyze_list(env, items) {
            Err(x) => Err(x),
            Ok(ts) => {
                let t = Type::Tuple(ts);
                proof {
                    lemma_type_model(&t);
                }
                Ok(env.resolve_type(&t))
            },
        },
        Expr::List(items) => {
            let elem = env.fresh("t");
            match analyze_items(env, items, &elem) {
                Err(x) => Err(x),
                Ok(()) => Ok(type_list(env.resolve_type(&elem))),
            }
        },
        Expr::Record(fields) => {
            match find_repeat(fields) {
                Some(k) => {
                    assert(entry_models(fields@)[k as int].0 == fields[k as int].0@);
                    Err(TypeError::DuplicateRecordField(fields[k].0.clone()))
                },
                None => match analyze_fields(env, fields) {
                    Err(x) => Err(x),
                    Ok(fs) => {
                        let t = Type::Record(fs);
                        proof {
                            lemma_type_model(&t);
                        }
                        Ok(env.resolve_type(&t))
                    },
                },
            }
        },
        Expr::RecordUpdate(n, fields) => match env.find(n) {
            None => Err(TypeError::MissingDefinition(n.clone())),
            Some((t, _)) => {
                let rt = env.resolve_type(&t);
                proof {
                    lemma_type_model(&rt);
                }
                let is_record = match &rt {
                    Type::Record(_) => true,
                    _ => false,
                };
                if !is_record {
                    return Err(TypeError::ExpectedRecord(rt));
                }
                match &rt {
                    Type::Record(held) => match analyze_updates(env, fields, held) {
                        Err(x) => Err(x),
                        Ok(()) => Ok(env.resolve_type(&rt)),
                    },
                    _ => Ok(Type::Unit),
                }
            },
        },
        Expr::RecordField(b, name) => match analyze_expression(env, b) {
            Err(x) => Err(x),
            Ok(t) => {
                let rt = env.resolve_type(&t);
                proof {
                    lemma_type_model(&rt);
                }
                let found: Option<Option<Type>> = match &rt {
                    Type::Record(fs) => {
                        proof {
                            assert(keys_of(field_models(fs@)) =~= entry_keys(fs@));
                            lemma_key_index(entry_keys(fs@), name@);
                        }
                        match find_key(fs, name) {
                            Some(k) => Some(Some(fs[k].1.clone())),
                            None => Some(None),
                        }
                    },
                    _ => None,
                };
                match found {
                    Some(Some(ft)) => Ok(ft),
                    Some(None) => Err(TypeError::RecordFieldNotFound(name.clone(), rt)),
                    None => Err(TypeError::ExpectedRecord(rt)),
                }
            },
        },
        Expr::If(c, a, b) => {
            let tc = match analyze_expression(env, c) {
                Err(x) => {
                    return Err(x);
                },
                Ok(tc) => tc,
            };
            if !env.unify_types(&tc, &type_tag("Bool")) {
                return Err(TypeError::IfWithNonBoolCondition(env.resolve_type(&tc)));
            }
            let ta = match analyze_expression(env, a) {
                Err(x) => {
                    return Err(x);
                },
                Ok(ta) => ta,
            };
            let tb = match analyze_expression(env, b) {
                Err(x) => {
                    return Err(x);
                },
                Ok(tb) => tb,
            };
            if !env.unify_types(&ta, &tb) {
                return Err(
                    TypeError::IfBranchesDoesntMatch(env.resolve_type(&ta), env.resolve_type(&tb)),
                );
            }
            Ok(env.resolve_type(&ta))
        },
        Expr::Application(f, a) => {
            let tf = match analyze_expression(env, f) {
                Err(x) => {
                    return Err(x);
                },
                Ok(tf) => tf,
            };
            let ta = match analyze_expression(env, a) {
                Err(x) => {
                    return Err(x);
                },
                Ok(ta) => ta,
            };
            let out = env.fresh("t");
            let arrow = Type::Fun(Box::new(ta.clone()), Box::new(out.clone()));
            proof {
                lemma_type_model(&arrow);
            }
            if !env.unify_types(&tf, &arrow) {
                return Err(application_error_of(env.resolve_type(&tf), env.resolve_type(&ta)));
            }
            Ok(env.resolve_type(&out))
        },
        Expr::Case(s, branches) => {
            let ts = match analyze_expression(env, s) {
                Err(x) => {
                    return Err(x);
                },
                Ok(ts) => ts,
            };
            let out = env.fresh("t");
            match analyze_branches(env, branches, &ts, &out) {
                Err(x) => {
                    return Err(x);
                },
                Ok(()) => {},
            }
            let subject = env.resolve_type(&ts);
            match check_exhaustive(env, branches, &subject) {
                Some(p) => Err(
                    TypeError::PatternMatchingError(PatternMatchingError::PatternNotExhaustive(p)),
                ),
                None => Ok(env.resolve_type(&out)),
            }
        },
        Expr::Lambda(annot, ps, body) => analyze_function_parts(env, annot, None, ps, body),
        Expr::Let(_, _) => {
            env.enter_block();
            assert(env@.scopes.drop_last() =~= old(env)@.scopes);
            let r = analyze_let(env, expr);
            env.exit_block();
            r
        },
    }
}

/// Gives each expression its type, in order.
pub fn analyze_list(env: &mut StaticEnv, items: &Vec<Expr>) -> (r: Result<Vec<Type>, TypeError>)
    ensures
        final(env)@ == infer_list_model(old(env)@, expr_models(items@), 0).0,
        match infer_list_model(old(env)@, expr_models(items@), 0).1 {
            Ok(ts) => r matches Ok(x) && type_models(x@) == ts,
            Err(e) => r matches Err(x) && x@ == e,
        },
        final(env)@.scopes == old(env)@.scopes,
        binds_well(old(env)@, final(env)@),
    decreases items, 0nat,
{
    let ghost all = expr_models(items@);
    let ghost goal = infer_list_model(env@, all, 0);
    let mut out: Vec<Type> = Vec::new();
    let mut i: usize = 0;
    assert(type_models(out@) =~= Seq::<TypeModel>::empty());
    assert(Seq::<TypeModel>::empty() + goal.1->Ok_0 =~= goal.1->Ok_0);
    while i < items.len()
        invariant
            i <= items.len(),
            all == expr_models(items@),
            goal == infer_list_model(old(env)@, all, 0),
            prepend_types(type_models(out@), infer_list_model(env@, all, i as nat)) == goal,
            env@.scopes == old(env)@.scopes,
            binds_well(old(env)@, env@),
        decreases items.len() - i,
    {
        let ghost before = type_models(out@);
        match analyze_expression(env, &items[i]) {
            Err(e) => {
                return Err(e);
            },
            Ok(t) => {
                out.push(t);
                proof {
                    assert(type_models(out@) =~= before + seq![t@]);
                    let rest = infer_list_model(env@, all, (i + 1) as nat);
                    if let Ok(ts) = rest.1 {
                        assert(before + (seq![t@] + ts) =~= (before + seq![t@]) + ts);
                    }
                }
            },
        }
        i += 1;
    }
    assert(type_models(out@) + Seq::<TypeModel>::empty() =~= type_models(out@));
    Ok(out)
}

/// Gives the expression of each field its type, in order.
pub fn analyze_fields(env: &mut StaticEnv, fields: &Vec<(String, Expr)>) -> (r: Result<
    Vec<(String, Type)>,
    TypeError,
>)
    ensures
        final(env)@ == infer_fields_model(old(env)@, entry_models(fields@), 0).0,
        match infer_fields_model(old(env)@, entry_models(fields@), 0).1 {
            Ok(ts) => r matches Ok(x) && field_models(x@) == ts,
            Err(e) => r matches Err(x) && x@ == e,
        },
        final(env)@.scopes == old(env)@.scopes,
        binds_well(old(env)@, final(env)@),
    decreases fields, 0nat,
{
    let ghost all = entry_models(fields@);
    let ghost goal = infer_fields_model(env@, all, 0);
    let mut out: Vec<(String, Type)> = Vec::new();
    let mut i: usize = 0;
    assert(field_models(out@) =~= Seq::<(Seq<char>, TypeModel)>::empty());
    assert(Seq::<(Seq<char>, TypeModel)>::empty() + goal.1->Ok_0 =~= goal.1->Ok_0);
    while i < fields.len()
        invariant
            i <= fields.len(),
            all == entry_models(fields@),
            goal == infer_fields_model(old(env)@, all, 0),
            prepend_field_types(field_models(out@), infer_fields_model(env@, all, i as nat))
                == goal,
            env@.scopes == old(env)@.scopes,
            binds_well(old(env)@, env@),
        decreases fields.len() - i,
    {
        let ghost before = field_models(out@);
        match analyze_expression(env, &fields[i].1) {
            Err(e) => {
                return Err(e);
            },
            Ok(t) => {
                out.push((fields[i].0.clone(), t));
                proof {
                    let f = (fields[i as int].0@, t@);
                    assert(field_models(out@) =~= before + seq![f]);
                    let rest = infer_fields_model(env@, all, (i + 1) as nat);
                    if let Ok(ts) = rest.1 {
                        assert(before + (seq![f] + ts) =~= (before + seq![f]) + ts);
                    }
                }
            },
        }
        i += 1;
    }
    assert(field_models(out@) + Seq::<(Seq<char>, TypeModel)>::empty() =~= field_models(out@));
    Ok(out)
}

/// Gives each item of a list the type `elem`.
pub fn analyze_items(env: &mut StaticEnv, items: &Vec<Expr>, elem: &Type) -> (r: Result<
    (),
    TypeError,
>)
    ensures
        checked_done(
            infer_items_model(old(env)@, expr_models(items@), elem@, 0),
            final(env)@,
            r,
        ),
        final(env)@.scopes == old(env)@.scopes,
        binds_well(old(env)@, final(env)@),
    decreases items, 0nat,
{
    let ghost all = expr_models(items@);
    let ghost goal = infer_items_model(env@, all, elem@, 0);
    let mut i: usize = 0;
    while i < items.len()
        invariant
            i <= items.len(),
            all == expr_models(items@),
            goal == infer_items_model(old(env)@, all, elem@, 0),
            infer_items_model(env@, all, elem@, i as nat) == goal,
            env@.scopes == old(env)@.scopes,
            binds_well(old(env)@, env@),
        decreases items.len() - i,
    {
        let t = match analyze_expression(env, &items[i]) {
            Err(e) => {
                return Err(e);
            },
            Ok(t) => t,
        };
        if !env.unify_types(elem, &t) {
            return Err(
                TypeError::ListNotHomogeneous(env.resolve_type(elem), env.resolve_type(&t)),
            );
        }
        i += 1;
    }
    Ok(())
}

/// Gives each update of a record the type of the field it replaces.
pub fn analyze_updates(
    env: &mut StaticEnv,
    fields: &Vec<(String, Expr)>,
    held: &Vec<(String, Type)>,
) -> (r: Result<(), TypeError>)
    ensures
        checked_done(
            check_updates_model(old(env)@, entry_models(fields@), field_models(held@), 0),
            final(env)@,
            r,
        ),
        final(env)@.scopes == old(env)@.scopes,
        binds_well(old(env)@, final(env)@),
    decreases fields, 0nat,
{
    let ghost all = entry_models(fields@);
    let ghost hm = field_models(held@);
    let ghost goal = check_updates_model(env@, all, hm, 0);
    proof {
        assert(keys_of(hm) =~= entry_keys(held@));
    }
    let mut i: usize = 0;
    while i < fields.len()
        invariant
            i <= fields.len(),
            all == entry_models(fields@),
            hm == field_models(held@),
            keys_of(hm) == entry_keys(held@),
            goal == check_updates_model(old(env)@, all, hm, 0),
            check_updates_model(env@, all, hm, i as nat) == goal,
            env@.scopes == old(env)@.scopes,
            binds_well(old(env)@, env@),
        decreases fields.len() - i,
    {
        proof {
            lemma_key_index(entry_keys(held@), fields[i as int].0@);
        }
        let k = match find_key(held, &fields[i].0) {
            None => {
                let record = Type::Record(clone_fields(held));
                proof {
                    lemma_type_model(&record);
                }
                return Err(TypeError::RecordFieldNotFound(fields[i].0.clone(), record));
            },
            Some(k) => k,
        };
        let t = match analyze_expression(env, &fields[i].1) {
            Err(e) => {
                return Err(e);
            },
            Ok(t) => t,
        };
        if !env.unify_types(&held[k].1, &t) {
            return Err(
                TypeError::ArgumentsDoNotMatch(
                    env.resolve_type(&held[k].1),
                    env.resolve_type(&t),
                ),
            );
        }
        i += 1;
    }
    Ok(())
}

/// Gives one branch of a `case` its type.
pub fn analyze_branch(env: &mut StaticEnv, p: &Pattern, body: &Expr, ts: &Type) -> (r: Result<
    Type,
    TypeError,
>)
    ensures
        inferred_done(infer_branch_model(old(env)@, p@, body@, ts@), final(env)@, r),
        final(env)@.scopes == old(env)@.scopes,
        binds_well(old(env)@, final(env)@),
    decreases body, 2nat,
{
    env.enter_block();
    assert(env@.scopes.drop_last() =~= old(env)@.scopes);
    let r = match analyze_pattern(env, p, ts) {
        Err(x) => Err(TypeError::PatternMatchingError(x)),
        Ok(()) => analyze_expression(env, body),
    };
    env.exit_block();
    r
}

/// Gives each branch of a `case` the type `out`.
pub fn analyze_branches(
    env: &mut StaticEnv,
    branches: &Vec<(Pattern, Expr)>,
    ts: &Type,
    out: &Type,
) -> (r: Result<(), TypeError>)
    ensures
        checked_done(
            infer_branches_model(old(env)@, branch_models(branches@), ts@, out@, 0),
            final(env)@,
            r,
        ),
        final(env)@.scopes == old(env)@.scopes,
        binds_well(old(env)@, final(env)@),
    decreases branches, 0nat,
{
    let ghost all = branch_models(branches@);
    let ghost goal = infer_branches_model(env@, all, ts@, out@, 0);
    let mut i: usize = 0;
    while i < branches.len()
        invariant
            i <= branches.len(),
            all == branch_models(branches@),
            goal == infer_branches_model(old(env)@, all, ts@, out@, 0),
            infer_branches_model(env@, all, ts@, out@, i as nat) == goal,
            env@.scopes == old(env)@.scopes,
            binds_well(old(env)@, env@),
        decreases branches.len() - i,
    {
        let tb = match analyze_branch(env, &branches[i].0, &branches[i].1, ts) {
            Err(e) => {
                return Err(e);
            },
            Ok(tb) => tb,
        };
        if !env.unify_types(out, &tb) {
            return Err(
                TypeError::CaseBranchDontMatchReturnType(
                    env.resolve_type(out),
                    env.resolve_type(&tb),
                ),
            );
        }
        i += 1;
    }
    Ok(())
}

/// Gives the parameters and the body of a function their types, in the
/// innermost scope.
fn function_parts(
    env: &mut StaticEnv,
    annot: &Type,
    name: Option<&String>,
    ps: &Vec<Pattern>,
    body: &Expr,
) -> (r: Result<(Vec<Type>, Type), TypeError>)
    ensures
        final(env)@ == function_parts_model(
            old(env)@,
            annot@,
            name_view(name),
            pattern_models(ps@),
            body@,
        ).0,
        match function_parts_model(
            old(env)@,
            annot@,
            name_view(name),
            pattern_models(ps@),
            body@,
        ).1 {
            Ok((ts, tb)) => r matches Ok((x, y)) && type_models(x@) == ts && y@ == tb,
            Err(e) => r matches Err(x) && x@ == e,
        },
        keeps_below(old(env)@, final(env)@),
        binds_well(old(env)@, final(env)@),
    decreases body, 2nat,
{
    match name {
        Some(n) => {
            if env.find(n).is_none() {
                env.add(n, annot.clone());
            }
        },
        None => {},
    }
    let ghost start = env@;
    let mut ts: Vec<Type> = Vec::new();
    let mut i: usize = 0;
    assert(type_models(ts@) =~= Seq::<TypeModel>::empty());
    while i < ps.len()
        invariant
            i <= ps.len(),
            (env@, type_models(ts@)) == fresh_list(start, i as nat),
            env@.scopes == start.scopes,
            binds_well(old(env)@, env@),
        decreases ps.len() - i,
    {
        let ghost before = type_models(ts@);
        let t = env.fresh("t");
        ts.push(t);
        assert(type_models(ts@) =~= before.push(t@));
        i += 1;
    }
    match analyze_patterns(env, ps, &ts) {
        Err(x) => {
            return Err(TypeError::PatternMatchingError(x));
        },
        Ok(()) => {},
    }
    match analyze_expression(env, body) {
        Err(x) => Err(x),
        Ok(tb) => Ok((ts, tb)),
    }
}

/// Gives a function with the parameters `ps` and the body `body` its
/// type, which has to agree with `annot`.
pub fn analyze_function_parts(
    env: &mut StaticEnv,
    annot: &Type,
    name: Option<&String>,
    ps: &Vec<Pattern>,
    body: &Expr,
) -> (r: Result<Type, TypeError>)
    ensures
        inferred_done(
            infer_function_model(old(env)@, annot@, name_view(name), pattern_models(ps@), body@),
            final(env)@,
            r,
        ),
        final(env)@.scopes == old(env)@.scopes,
        binds_well(old(env)@, final(env)@),
    decreases body, 3nat,
{
    let mark = env.fresh_suffix();
    let own = map_vars(annot, &VarOp::Rename(&mark));
    env.enter_block();
    assert(env@.scopes.drop_last() =~= old(env)@.scopes);
    let parts = function_parts(env, &own, name, ps, body);
    env.exit_block();
    match parts {
        Err(x) => Err(x),
        Ok((ts, tb)) => {
            let arrow = build_fun_type(&ts, tb);
            if !env.unify_types(&own, &arrow) {
                return Err(
                    TypeError::DefinitionTypeAndReturnTypeMismatch(
                        env.resolve_type(&own),
                        env.resolve_type(&arrow),
                    ),
                );
            }
            Ok(env.resolve_type(&arrow))
        },
    }
}

/// Gives the entries of the `let` expression `expr` their types, in the
/// innermost scope, and then its body.
fn analyze_let(env: &mut StaticEnv, expr: &Expr) -> (r: Result<Type, TypeError>)
    requires
        expr is Let,
    ensures
        inferred_done(infer_let_model(old(env)@, expr@, 0), final(env)@, r),
        keeps_below(old(env)@, final(env)@),
        binds_well(old(env)@, final(env)@),
    decreases expr, 0nat,
{
    proof {
        lemma_expr_model(expr);
    }
    match expr {
        Expr::Let(entries, body) => {
            let ghost e = expr@;
            let ghost goal = infer_let_model(env@, e, 0);
            let mut i: usize = 0;
            while i < entries.len()
                invariant
                    i <= entries.len(),
                    *expr matches Expr::Let(x, y) && x == entries && y == body,
                    e == expr@,
                    e == ExprModel::Let(let_models(entries@), Box::new(body@)),
                    goal == infer_let_model(old(env)@, e, 0),
                    infer_let_model(env@, e, i as nat) == goal,
                    keeps_below(old(env)@, env@),
                    binds_well(old(env)@, env@),
                decreases entries.len() - i,
            {
                assert(let_models(entries@)[i as int] == entries[i as int]@);
                match &entries[i] {
                    LetEntry::Definition(def) => {
                        match analyze_function_parts(
                            env,
                            &def.header,
                            Some(&def.name),
                            &def.patterns,
                            &def.expr,
                        ) {
                            Err(x) => {
                                return Err(x);
                            },
                            Ok(t) => {
                                env.add(&def.name, t);
                            },
                        }
                    },
                    LetEntry::Pattern(p, x) => {
                        let t = match analyze_expression(env, x) {
                            Err(y) => {
                                return Err(y);
                            },
                            Ok(t) => t,
                        };
                        match analyze_pattern(env, p, &t) {
                            Err(y) => {
                                return Err(TypeError::PatternMatchingError(y));
                            },
                            Ok(()) => {},
                        }
                    },
                }
                i += 1;
            }
            match analyze_expression(env, body) {
                Err(x) => Err(x),
                Ok(t) => Ok(env.resolve_type(&t)),
            }
        },
        _ => Ok(Type::Unit),
    }
}

} // verus!
