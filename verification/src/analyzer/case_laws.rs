//! What the analyzer says of a `case` whose subject and branches have
//! their types: whether its patterns leave a value of the subject
//! uncovered decides between a type and an error.
use vstd::prelude::*;

use crate::analyzer::expression_analyzer::{
    infer_branch_model, infer_branches_model, infer_model,
};
use crate::analyzer::pattern_analyzer::{
    all_irrefutable, analyze_pattern_model, analyze_patterns_model, any_covers, covers,
    first_uncovered, irrefutable, lemma_all_covered, lemma_any_covers, missing_pattern,
    wildcards, CoveringModel,
};
use crate::analyzer::static_env::{
    adt_index, after_fresh, after_unify, entered, exited, find_type, find_variant, fresh_type,
    resolved, unified, StaticEnvModel,
};
use crate::analyzer::type_helper::{
    apply_from, bind_model, default_numbers_model, is_number_name, lemma_map_vars,
    map_all_model, occurs, occurs_from, rename_model, resolve_model, subst_var, suffix_model,
    unify_all_model, unify_model, Subst, VarOpModel,
};
use crate::analyzer::unification_laws::{apply_all, lemma_apply_parts};
use crate::analyzer::{
    adt_type_model, check_expression_model, plain_tag, PatternMatchingErrorModel,
    TypeErrorModel,
};
use crate::ast::{ExprModel, LiteralModel, PatternModel, TypeModel};
use crate::interpreter::expression_eval::patterns_of;
use crate::types::{AdtModel, AdtVariantModel};

verus! {

/// What the analysis of a `case` has found once its subject and each of
/// its branches have their types.
pub struct CheckedCase {
    /// The environment after the branches.
    pub env: StaticEnvModel,
    /// The type of the subject.
    pub subject: TypeModel,
    /// The type of the branches.
    pub out: TypeModel,
}

/// The analysis of the subject `s` and of the branches of a `case`;
/// nothing where the subject or a branch has no type, or where a pattern
/// does not fit the subject, or where the branches differ in type.
pub open spec fn checked_case(
    env: StaticEnvModel,
    s: ExprModel,
    branches: Seq<(PatternModel, ExprModel)>,
) -> Option<CheckedCase> {
    let (e1, rs) = infer_model(env, s);
    match rs {
        Err(_) => None,
        Ok(ts) => {
            let out = fresh_type(e1, "t"@);
            let (e2, failed) = infer_branches_model(after_fresh(e1), branches, ts, out, 0);
            if failed.is_some() {
                None
            } else {
                Some(CheckedCase { env: e2, subject: resolved(e2, ts), out: resolved(e2, out) })
            }
        },
    }
}

/// The `case` over `s` with the branches `branches`.
pub open spec fn case_of(s: ExprModel, branches: Seq<(PatternModel, ExprModel)>) -> ExprModel {
    ExprModel::Case(Box::new(s), branches)
}

/// The error for patterns that leave `p` uncovered.
pub open spec fn not_exhaustive(p: PatternModel) -> TypeErrorModel {
    TypeErrorModel::PatternMatchingError(PatternMatchingErrorModel::PatternNotExhaustive(p))
}

/// The first variant that no pattern covers is one that no pattern
/// covers, and comes no later than any other.
proof fn lemma_first_gap(ps: Seq<PatternModel>, adt: AdtModel, i: nat, v: int)
    requires
        i <= v < adt.variants.len(),
        !any_covers(ps, CoveringModel::Variant(adt.variants[v].name), 0),
    ensures
        i <= first_uncovered(ps, adt, i) <= v,
        !any_covers(
            ps,
            CoveringModel::Variant(adt.variants[first_uncovered(ps, adt, i)].name),
            0,
        ),
    decreases v - i,
{
    if i < v && any_covers(ps, CoveringModel::Variant(adt.variants[i as int].name), 0) {
        lemma_first_gap(ps, adt, i + 1, v);
    }
}

/// A `case` over a data type whose patterns cover one of its variants
/// neither by a pattern of that variant nor by a pattern that matches
/// everything has no type: the analyzer fails with the error for
/// patterns that are not exhaustive, and the error shows a pattern of a
/// variant that no branch covers.
pub proof fn law_case_with_a_gap_is_rejected(
    env: StaticEnvModel,
    s: ExprModel,
    branches: Seq<(PatternModel, ExprModel)>,
    v: int,
)
    requires
        checked_case(env, s, branches) matches Some(c) && c.subject matches TypeModel::Tag(n, _)
            && n != "List"@ && adt_index(c.env.adts, n, 0) >= 0 && 0 <= v < c.env.adts[adt_index(
            c.env.adts,
            n,
            0,
        )].variants.len() && !any_covers(
            patterns_of(branches),
            CoveringModel::Variant(c.env.adts[adt_index(c.env.adts, n, 0)].variants[v].name),
            0,
        ),
        !any_covers(patterns_of(branches), CoveringModel::Everything, 0),
    ensures
        ({
            let c = checked_case(env, s, branches)->Some_0;
            let adt = c.env.adts[adt_index(c.env.adts, c.subject->Tag_0, 0)];
            let u = first_uncovered(patterns_of(branches), adt, 0);
            &&& 0 <= u <= v
            &&& !any_covers(
                patterns_of(branches),
                CoveringModel::Variant(adt.variants[u].name),
                0,
            )
            &&& check_expression_model(env, case_of(s, branches)).1 == Err::<TypeModel, _>(
                not_exhaustive(
                    PatternModel::Adt(adt.variants[u].name, wildcards(adt.variants[u].types.len())),
                ),
            )
        }),
{
    let c = checked_case(env, s, branches)->Some_0;
    let adt = c.env.adts[adt_index(c.env.adts, c.subject->Tag_0, 0)];
    lemma_first_gap(patterns_of(branches), adt, 0, v);
}

/// A `case` with a pattern that matches everything among its patterns
/// has the type of its branches, whatever its subject.
pub proof fn law_case_with_a_catch_all_has_a_type(
    env: StaticEnvModel,
    s: ExprModel,
    branches: Seq<(PatternModel, ExprModel)>,
    k: int,
)
    requires
        checked_case(env, s, branches).is_some(),
        0 <= k < branches.len(),
        irrefutable(branches[k].0),
    ensures
        check_expression_model(env, case_of(s, branches)).1 == Ok::<_, TypeErrorModel>(
            default_numbers_model(checked_case(env, s, branches)->Some_0.out),
        ),
{
    let ps = patterns_of(branches);
    assert(ps[k] == branches[k].0);
    lemma_any_covers(ps, CoveringModel::Everything, 0, k);
}

/// A `case` over a data type whose patterns cover every variant of it
/// has the type of its branches.
pub proof fn law_case_with_every_variant_has_a_type(
    env: StaticEnvModel,
    s: ExprModel,
    branches: Seq<(PatternModel, ExprModel)>,
)
    requires
        checked_case(env, s, branches) matches Some(c) && c.subject matches TypeModel::Tag(n, _)
            && n != "List"@ && adt_index(c.env.adts, n, 0) >= 0 && forall|v: int|
            0 <= v < c.env.adts[adt_index(c.env.adts, n, 0)].variants.len() ==> any_covers(
                patterns_of(branches),
                CoveringModel::Variant(
                    #[trigger] c.env.adts[adt_index(c.env.adts, n, 0)].variants[v].name,
                ),
                0,
            ),
    ensures
        check_expression_model(env, case_of(s, branches)).1 == Ok::<_, TypeErrorModel>(
            default_numbers_model(checked_case(env, s, branches)->Some_0.out),
        ),
{
    let c = checked_case(env, s, branches)->Some_0;
    let adt = c.env.adts[adt_index(c.env.adts, c.subject->Tag_0, 0)];
    lemma_all_covered(patterns_of(branches), adt, 0);
}

/// The data type `t` with the two variants `a` and `b`, neither with
/// fields.
pub open spec fn two_variants(t: Seq<char>, a: Seq<char>, b: Seq<char>) -> AdtModel {
    AdtModel {
        name: t,
        types: Seq::empty(),
        variants: seq![
            AdtVariantModel { name: a, types: Seq::empty() },
            AdtVariantModel { name: b, types: Seq::empty() },
        ],
    }
}

/// A text as an expression.
pub open spec fn text_of(text: Seq<char>) -> ExprModel {
    ExprModel::Literal(LiteralModel::String(text))
}

/// The pattern of a variant without fields.
pub open spec fn bare(name: Seq<char>) -> PatternModel {
    PatternModel::Adt(name, Seq::empty())
}

/// A nominal type without arguments is the same under every binding and
/// every mark, and unifies with itself without a binding.
pub proof fn lemma_plain_tag(n: Seq<char>, s: Subst, mark: Seq<char>)
    ensures
        resolve_model(s, plain_tag(n)) == plain_tag(n),
        rename_model(plain_tag(n), mark) == plain_tag(n),
        default_numbers_model(plain_tag(n)) == plain_tag(n),
        unify_model(plain_tag(n), plain_tag(n), s) == Ok::<Subst, (TypeModel, TypeModel)>(s),
        forall|v: Seq<char>| !occurs(v, plain_tag(n)),
{
    let none = Seq::<TypeModel>::empty();
    lemma_apply_parts(s, plain_tag(n), 0);
    assert(apply_all(s, none, 0) =~= none);
    lemma_map_vars(plain_tag(n), VarOpModel::Rename(mark));
    assert(map_all_model(none, VarOpModel::Rename(mark)) =~= none);
    lemma_map_vars(plain_tag(n), VarOpModel::DefaultNumbers);
    assert(map_all_model(none, VarOpModel::DefaultNumbers) =~= none);
    assert(unify_all_model(none, none, 0, s.len(), s) == Ok::<Subst, (TypeModel, TypeModel)>(s));
    assert forall|v: Seq<char>| !occurs(v, plain_tag(n)) by {
        assert(!occurs_from(v, none, 0));
    }
}

/// The branch of a variant without fields and a text, over a subject of
/// the variant's data type: its type is `String`, and no type variable
/// is bound for it.
proof fn lemma_variant_branch(
    env: StaticEnvModel,
    t: Seq<char>,
    a: Seq<char>,
    b: Seq<char>,
    name: Seq<char>,
    place: int,
    text: Seq<char>,
)
    requires
        adt_index(env.adts, t, 0) >= 0,
        env.adts[adt_index(env.adts, t, 0)] == two_variants(t, a, b),
        find_variant(env.adts, name, 0) == Some((adt_index(env.adts, t, 0), place)),
        0 <= place < 2,
    ensures
        infer_branch_model(env, bare(name), text_of(text), plain_tag(t)).1 == Ok::<
            _,
            TypeErrorModel,
        >(plain_tag("String"@)),
        infer_branch_model(env, bare(name), text_of(text), plain_tag(t)).0.substitution
            == env.substitution,
        infer_branch_model(env, bare(name), text_of(text), plain_tag(t)).0.adts == env.adts,
{
    let adt = two_variants(t, a, b);
    let inner = entered(env);
    let mark = suffix_model(inner.next_var as nat);
    let env1 = after_fresh(inner);
    assert(adt_type_model(adt)->Tag_1 =~= Seq::<TypeModel>::empty());
    assert(adt_type_model(adt) == plain_tag(t));
    lemma_plain_tag(t, env1.substitution, mark);
    let ty = rename_model(adt_type_model(adt), mark);
    assert(ty == plain_tag(t));
    assert(unified(env1, plain_tag(t), ty) == Some(env1.substitution));
    let env2 = after_unify(env1, plain_tag(t), ty);
    assert(env2 == env1);
    let none = Seq::<PatternModel>::empty();
    let types = map_all_model(adt.variants[place].types, VarOpModel::Rename(mark));
    assert(analyze_patterns_model(env2, none, types, 0) == (env2, None::<PatternMatchingErrorModel>));
    assert(analyze_pattern_model(inner, bare(name), plain_tag(t)) == (
        env2,
        None::<PatternMatchingErrorModel>,
    ));
}

/// The branch of `_` and a text: its type is `String`, and no type
/// variable is bound for it.
proof fn lemma_catch_all_branch(env: StaticEnvModel, text: Seq<char>, ts: TypeModel)
    ensures
        infer_branch_model(env, PatternModel::Wildcard, text_of(text), ts).1 == Ok::<
            _,
            TypeErrorModel,
        >(plain_tag("String"@)),
        infer_branch_model(env, PatternModel::Wildcard, text_of(text), ts).0.substitution
            == env.substitution,
        infer_branch_model(env, PatternModel::Wildcard, text_of(text), ts).0.adts == env.adts,
{
}

/// A fresh variable and `String` are made equal by binding the variable,
/// where nothing is bound yet; and without a binding, where the variable
/// is bound to `String` and nothing else is.
proof fn lemma_out_is_string(env: StaticEnvModel, n: nat)
    ensures
        env.substitution.len() == 0 ==> unified(
            env,
            TypeModel::Var("t"@ + suffix_model(n)),
            plain_tag("String"@),
        ) == Some(seq![("t"@ + suffix_model(n), plain_tag("String"@))]),
        env.substitution == seq![("t"@ + suffix_model(n), plain_tag("String"@))] ==> unified(
            env,
            TypeModel::Var("t"@ + suffix_model(n)),
            plain_tag("String"@),
        ) == Some(env.substitution) && resolved(env, TypeModel::Var("t"@ + suffix_model(n)))
            == plain_tag("String"@),
{
    reveal_strlit("t");
    let o = "t"@ + suffix_model(n);
    let string = plain_tag("String"@);
    assert(o[0] == 't');
    assert(!is_number_name(o));
    lemma_plain_tag("String"@, env.substitution, Seq::empty());
    if env.substitution.len() == 0 {
        assert(!occurs(o, string));
        assert(bind_model(o, string, env.substitution) == Ok::<Subst, (TypeModel, TypeModel)>(
            env.substitution.push((o, string)),
        ));
        assert(env.substitution.push((o, string)) =~= seq![(o, string)]);
    }
    if env.substitution == seq![(o, string)] {
        let s = env.substitution;
        assert(subst_var(TypeModel::Var(o), o, string) == string);
        assert(apply_from(s, string, 1) == string);
        assert(apply_from(s, TypeModel::Var(o), 0) == string);
    }
}

/// The subject `v` of the `case`: a name that stands for the data type.
proof fn lemma_subject(env: StaticEnvModel, t: Seq<char>, v: Seq<char>)
    requires
        find_type(env.scopes, v) matches Some((ty, _)) && ty == plain_tag(t),
    ensures
        infer_model(env, ExprModel::Ref(v)).1 == Ok::<_, TypeErrorModel>(plain_tag(t)),
        infer_model(env, ExprModel::Ref(v)).0.substitution == env.substitution,
        infer_model(env, ExprModel::Ref(v)).0.adts == env.adts,
{
    lemma_plain_tag(t, env.substitution, suffix_model(env.next_var as nat));
}

/// The variable for the type of the branches of a `case` over `v`.
pub open spec fn out_of(env: StaticEnvModel, v: Seq<char>) -> TypeModel {
    fresh_type(infer_model(env, ExprModel::Ref(v)).0, "t"@)
}

/// The environment in which the branches of a `case` over `v` are
/// analyzed.
pub open spec fn branches_start(env: StaticEnvModel, v: Seq<char>) -> StaticEnvModel {
    after_fresh(infer_model(env, ExprModel::Ref(v)).0)
}

/// The environment after the first branch, for the variant `a`, was
/// analyzed and its type made the type of the branches.
pub open spec fn after_first(
    env: StaticEnvModel,
    t: Seq<char>,
    a: Seq<char>,
    v: Seq<char>,
    text: Seq<char>,
) -> StaticEnvModel {
    after_unify(
        infer_branch_model(branches_start(env, v), bare(a), text_of(text), plain_tag(t)).0,
        out_of(env, v),
        plain_tag("String"@),
    )
}

/// What holds of the two variants and of a `case` over them.
pub open spec fn over_two_variants(
    env: StaticEnvModel,
    t: Seq<char>,
    a: Seq<char>,
    b: Seq<char>,
    v: Seq<char>,
) -> bool {
    &&& env.substitution.len() == 0
    &&& t != "List"@
    &&& a != b
    &&& find_type(env.scopes, v) matches Some((ty, _)) && ty == plain_tag(t)
    &&& adt_index(env.adts, t, 0) >= 0
    &&& env.adts[adt_index(env.adts, t, 0)] == two_variants(t, a, b)
    &&& find_variant(env.adts, a, 0) == Some((adt_index(env.adts, t, 0), 0int))
    &&& find_variant(env.adts, b, 0) == Some((adt_index(env.adts, t, 0), 1int))
}

/// After the first branch the variable for the type of the branches is
/// bound to `String`, and nothing else is bound.
proof fn lemma_first_branch(
    env: StaticEnvModel,
    t: Seq<char>,
    a: Seq<char>,
    b: Seq<char>,
    v: Seq<char>,
    text: Seq<char>,
)
    requires
        over_two_variants(env, t, a, b, v),
    ensures
        infer_model(env, ExprModel::Ref(v)).1 == Ok::<_, TypeErrorModel>(plain_tag(t)),
        out_of(env, v) is Var,
        infer_branch_model(branches_start(env, v), bare(a), text_of(text), plain_tag(t)).1
            == Ok::<_, TypeErrorModel>(plain_tag("String"@)),
        unified(
            infer_branch_model(branches_start(env, v), bare(a), text_of(text), plain_tag(t)).0,
            out_of(env, v),
            plain_tag("String"@),
        ).is_some(),
        after_first(env, t, a, v, text).substitution == seq![
            (out_of(env, v)->Var_0, plain_tag("String"@)),
        ],
        after_first(env, t, a, v, text).adts == env.adts,
        forall|e: StaticEnvModel|
            e.substitution == after_first(env, t, a, v, text).substitution ==> #[trigger] unified(
                e,
                out_of(env, v),
                plain_tag("String"@),
            ) == Some(e.substitution) && resolved(e, out_of(env, v)) == plain_tag("String"@)
                && resolved(e, plain_tag(t)) == plain_tag(t),
{
    lemma_subject(env, t, v);
    let e1 = infer_model(env, ExprModel::Ref(v)).0;
    let start = after_fresh(e1);
    lemma_variant_branch(start, t, a, b, a, 0, text);
    let f1 = infer_branch_model(start, bare(a), text_of(text), plain_tag(t)).0;
    lemma_out_is_string(f1, e1.next_var as nat);
    assert forall|e: StaticEnvModel|
        e.substitution == after_first(env, t, a, v, text).substitution implies #[trigger] unified(
        e,
        out_of(env, v),
        plain_tag("String"@),
    ) == Some(e.substitution) && resolved(e, out_of(env, v)) == plain_tag("String"@)
        && resolved(e, plain_tag(t)) == plain_tag(t) by {
        lemma_out_is_string(e, e1.next_var as nat);
        lemma_plain_tag(t, e.substitution, Seq::empty());
    }
}

/// With a branch for `a` alone the `case` has no type, and the error
/// shows the pattern of `b`.
proof fn lemma_one_branch(
    env: StaticEnvModel,
    t: Seq<char>,
    a: Seq<char>,
    b: Seq<char>,
    v: Seq<char>,
    text: Seq<char>,
)
    requires
        over_two_variants(env, t, a, b, v),
    ensures
        check_expression_model(
            env,
            case_of(ExprModel::Ref(v), seq![(bare(a), text_of(text))]),
        ).1 == Err::<TypeModel, _>(not_exhaustive(bare(b))),
{
    let subject = ExprModel::Ref(v);
    let ts = plain_tag(t);
    let out = out_of(env, v);
    let adt = two_variants(t, a, b);
    lemma_first_branch(env, t, a, b, v, text);
    let start = branches_start(env, v);
    let g1 = after_first(env, t, a, v, text);
    let one = seq![(bare(a), text_of(text))];
    assert(infer_branches_model(g1, one, ts, out, 1) == (g1, None::<TypeErrorModel>));
    assert(infer_branches_model(start, one, ts, out, 0) == (g1, None::<TypeErrorModel>));
    assert(unified(g1, out, plain_tag("String"@)) == Some(g1.substitution));
    assert(checked_case(env, subject, one) matches Some(c) && c.env == g1 && c.subject == ts);
    let ps = patterns_of(one);
    assert(ps[0] == bare(a));
    assert(all_irrefutable(Seq::<PatternModel>::empty(), 0));
    assert(!any_covers(ps, CoveringModel::Everything, 1));
    assert(!any_covers(ps, CoveringModel::Everything, 0));
    assert(!any_covers(ps, CoveringModel::Variant(b), 1));
    assert(!any_covers(ps, CoveringModel::Variant(b), 0));
    assert(covers(ps[0], CoveringModel::Variant(a)));
    assert(any_covers(ps, CoveringModel::Variant(a), 0));
    assert(adt.variants[0].name == a && adt.variants[1].name == b);
    law_case_with_a_gap_is_rejected(env, subject, one, 1);
    assert(first_uncovered(ps, adt, 0) == 1);
    assert(wildcards(0) =~= Seq::<PatternModel>::empty());
}

/// With `_` after the branch for `a` the type of the `case` is `String`.
proof fn lemma_with_catch_all(
    env: StaticEnvModel,
    t: Seq<char>,
    a: Seq<char>,
    b: Seq<char>,
    v: Seq<char>,
    text: Seq<char>,
)
    requires
        over_two_variants(env, t, a, b, v),
    ensures
        check_expression_model(
            env,
            case_of(
                ExprModel::Ref(v),
                seq![(bare(a), text_of(text)), (PatternModel::Wildcard, text_of(text))],
            ),
        ).1 == Ok::<_, TypeErrorModel>(plain_tag("String"@)),
{
    let subject = ExprModel::Ref(v);
    let ts = plain_tag(t);
    let out = out_of(env, v);
    let string = plain_tag("String"@);
    lemma_first_branch(env, t, a, b, v, text);
    let start = branches_start(env, v);
    let g1 = after_first(env, t, a, v, text);
    let all = seq![(bare(a), text_of(text)), (PatternModel::Wildcard, text_of(text))];
    lemma_catch_all_branch(g1, text, ts);
    let f2 = infer_branch_model(g1, PatternModel::Wildcard, text_of(text), ts).0;
    assert(unified(f2, out, string) == Some(f2.substitution));
    let g2 = after_unify(f2, out, string);
    assert(g2 == f2);
    assert(infer_branches_model(g2, all, ts, out, 2) == (g2, None::<TypeErrorModel>));
    assert(infer_branches_model(g1, all, ts, out, 1) == (g2, None::<TypeErrorModel>));
    assert(infer_branches_model(start, all, ts, out, 0) == (g2, None::<TypeErrorModel>));
    assert(unified(g2, out, string) == Some(g2.substitution));
    assert(checked_case(env, subject, all) matches Some(c) && c.out == string);
    law_case_with_a_catch_all_has_a_type(env, subject, all, 1);
    lemma_plain_tag("String"@, Seq::empty(), Seq::empty());
}

/// With the branch for `b` after the branch for `a` the type of the
/// `case` is `String`.
proof fn lemma_with_both(
    env: StaticEnvModel,
    t: Seq<char>,
    a: Seq<char>,
    b: Seq<char>,
    v: Seq<char>,
    text: Seq<char>,
)
    requires
        over_two_variants(env, t, a, b, v),
    ensures
        check_expression_model(
            env,
            case_of(
                ExprModel::Ref(v),
                seq![(bare(a), text_of(text)), (bare(b), text_of(text))],
            ),
        ).1 == Ok::<_, TypeErrorModel>(plain_tag("String"@)),
{
    let subject = ExprModel::Ref(v);
    let ts = plain_tag(t);
    let out = out_of(env, v);
    let string = plain_tag("String"@);
    let adt = two_variants(t, a, b);
    lemma_first_branch(env, t, a, b, v, text);
    let start = branches_start(env, v);
    let g1 = after_first(env, t, a, v, text);
    let all = seq![(bare(a), text_of(text)), (bare(b), text_of(text))];
    lemma_variant_branch(g1, t, a, b, b, 1, text);
    let f3 = infer_branch_model(g1, bare(b), text_of(text), ts).0;
    assert(unified(f3, out, string) == Some(f3.substitution));
    let g3 = after_unify(f3, out, string);
    assert(g3 == f3);
    assert(infer_branches_model(g3, all, ts, out, 2) == (g3, None::<TypeErrorModel>));
    assert(infer_branches_model(g1, all, ts, out, 1) == (g3, None::<TypeErrorModel>));
    assert(infer_branches_model(start, all, ts, out, 0) == (g3, None::<TypeErrorModel>));
    assert(unified(g3, out, string) == Some(g3.substitution));
    assert(checked_case(env, subject, all) matches Some(c) && c.env == g3 && c.subject == ts
        && c.out == string);
    let ps = patterns_of(all);
    assert(ps[0] == bare(a) && ps[1] == bare(b));
    assert(all_irrefutable(Seq::<PatternModel>::empty(), 0));
    assert(covers(ps[0], CoveringModel::Variant(a)));
    assert(covers(ps[1], CoveringModel::Variant(b)));
    lemma_any_covers(ps, CoveringModel::Variant(a), 0, 0);
    lemma_any_covers(ps, CoveringModel::Variant(b), 0, 1);
    assert(adt.variants[0].name == a && adt.variants[1].name == b);
    assert forall|k: int| 0 <= k < adt.variants.len() implies any_covers(
        ps,
        CoveringModel::Variant(#[trigger] adt.variants[k].name),
        0,
    ) by {
        if k != 0 {
            assert(k == 1);
        }
    }
    law_case_with_every_variant_has_a_type(env, subject, all);
    lemma_plain_tag("String"@, Seq::empty(), Seq::empty());
}

/// A `case` over a name of a data type with the two variants `a` and
/// `b`, analyzed where no type variable is bound yet, each branch a
/// text: with a branch for `a` alone it has no type, and the error shows
/// the pattern of `b`; with `_` after it, or the branch for `b`, its
/// type is `String`.
pub proof fn law_case_over_two_variants(
    env: StaticEnvModel,
    t: Seq<char>,
    a: Seq<char>,
    b: Seq<char>,
    v: Seq<char>,
    text: Seq<char>,
)
    requires
        over_two_variants(env, t, a, b, v),
    ensures
        check_expression_model(
            env,
            case_of(ExprModel::Ref(v), seq![(bare(a), text_of(text))]),
        ).1 == Err::<TypeModel, _>(not_exhaustive(bare(b))),
        check_expression_model(
            env,
            case_of(
                ExprModel::Ref(v),
                seq![(bare(a), text_of(text)), (PatternModel::Wildcard, text_of(text))],
            ),
        ).1 == Ok::<_, TypeErrorModel>(plain_tag("String"@)),
        check_expression_model(
            env,
            case_of(
                ExprModel::Ref(v),
                seq![(bare(a), text_of(text)), (bare(b), text_of(text))],
            ),
        ).1 == Ok::<_, TypeErrorModel>(plain_tag("String"@)),
{
    lemma_one_branch(env, t, a, b, v, text);
    lemma_with_catch_all(env, t, a, b, v, text);
    lemma_with_both(env, t, a, b, v, text);
}

} // verus!
