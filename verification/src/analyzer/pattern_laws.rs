//! What the analyzer says of a list pattern whose items are of two
//! types.
use vstd::prelude::*;

use crate::analyzer::case_laws::{case_of, lemma_plain_tag};
use crate::analyzer::expression_analyzer::{
    infer_branch_model, infer_branches_model, infer_model,
};
use crate::analyzer::pattern_analyzer::{
    analyze_items_model, analyze_pattern_model, expect, PatternOutcome,
};
use crate::analyzer::static_env::{
    after_fresh, after_unify, entered, find_type, fresh_type, next_number, resolved, unified,
    StaticEnvModel,
};
use crate::analyzer::type_helper::{
    apply_from, bind_model, digit_char, digits_model, is_number_name, occurs, occurs_from,
    resolve_model, subst_var, suffix_model, unify_all_model, unify_model, Subst,
};
use crate::analyzer::unification_laws::{apply_all, lemma_apply_parts};
use crate::analyzer::{
    check_expression_model, list_of, plain_tag, PatternMatchingErrorModel, TypeErrorModel,
};
use crate::ast::{ExprModel, PatternModel, TypeModel};

verus! {

/// The digits of a number end with its last digit, and there is at least
/// one.
proof fn lemma_last_digit(n: nat)
    ensures
        digits_model(n).len() >= 1,
        digits_model(n).last() == digit_char(n % 10),
    decreases n,
{
    if n >= 10 {
        lemma_last_digit(n / 10);
    }
}

/// The name of the fresh variable with the number `n`.
pub open spec fn fresh_name(n: nat) -> Seq<char> {
    "t"@ + suffix_model(n)
}

/// Fresh variables whose numbers end in different digits have different
/// names, and none is a number variable.
proof fn lemma_fresh_names(n: nat, m: nat)
    ensures
        !is_number_name(fresh_name(n)),
        n % 10 != m % 10 ==> fresh_name(n) != fresh_name(m),
{
    reveal_strlit("t");
    assert(fresh_name(n)[0] == 't');
    lemma_last_digit(n);
    lemma_last_digit(m);
    let a = fresh_name(n);
    let b = fresh_name(m);
    assert(a.last() == digits_model(n).last());
    assert(b.last() == digits_model(m).last());
}

/// Bindings that do not bind a variable leave it as it is.
proof fn lemma_apply_free(s: Subst, v: Seq<char>, i: nat)
    requires
        forall|j: int| i <= j < s.len() ==> (#[trigger] s[j]).0 != v,
    ensures
        apply_from(s, TypeModel::Var(v), i) == TypeModel::Var(v),
    decreases s.len() - i,
{
    if i < s.len() {
        assert(s[i as int].0 != v);
        lemma_apply_free(s, v, i + 1);
    }
}

/// Bindings of which the first for a variable binds it to a nominal type
/// without arguments turn the variable into that type.
proof fn lemma_apply_bound(s: Subst, v: Seq<char>, i: nat, k: int, n: Seq<char>)
    requires
        i <= k < s.len(),
        s[k] == (v, plain_tag(n)),
        forall|j: int| i <= j < k ==> (#[trigger] s[j]).0 != v,
    ensures
        apply_from(s, TypeModel::Var(v), i) == plain_tag(n),
    decreases k - i,
{
    if i < k {
        assert(s[i as int].0 != v);
        lemma_apply_bound(s, v, i + 1, k, n);
    } else {
        lemma_apply_parts(s, plain_tag(n), (k + 1) as nat);
        assert(apply_all(s, Seq::<TypeModel>::empty(), (k + 1) as nat) =~= Seq::<
            TypeModel,
        >::empty());
    }
}

/// The list pattern of a whole number and a text.
pub open spec fn mixed_list(i: i64, text: Seq<char>) -> PatternModel {
    PatternModel::List(seq![PatternModel::LitInt(i), PatternModel::LitString(text)])
}

/// The error for a list pattern with an item of type `Int` and an item of
/// type `String`.
pub open spec fn int_and_string() -> PatternMatchingErrorModel {
    PatternMatchingErrorModel::ListPatternsAreNotHomogeneous(
        plain_tag("Int"@),
        plain_tag("String"@),
    )
}

/// The bindings after the subject was found to be a list and the first
/// item a whole number.
pub open spec fn after_first_item(x: Seq<char>, n: nat) -> Subst {
    seq![
        (x, list_of(TypeModel::Var(fresh_name(n)))),
        (fresh_name(n + 1), plain_tag("Int"@)),
        (fresh_name(n), plain_tag("Int"@)),
    ]
}

/// The first item: a whole number, which makes the items of the list
/// whole numbers.
proof fn lemma_first_item(env: StaticEnvModel, x: Seq<char>, i: i64, text: Seq<char>)
    requires
        env.substitution == seq![(x, list_of(TypeModel::Var(fresh_name((env.next_var - 1) as nat))))],
        1 <= env.next_var,
        env.next_var + 2 <= u64::MAX,
        x != fresh_name((env.next_var - 1) as nat),
        x != fresh_name(env.next_var as nat),
    ensures
        ({
            let elem = TypeModel::Var(fresh_name((env.next_var - 1) as nat));
            let own = fresh_type(env, "t"@);
            let (e, failed) = analyze_pattern_model(after_fresh(env), PatternModel::LitInt(i), own);
            &&& failed.is_none()
            &&& unified(e, elem, own).is_some()
            &&& after_unify(e, elem, own).substitution == after_first_item(
                x,
                (env.next_var - 1) as nat,
            )
            &&& after_unify(e, elem, own).next_var == env.next_var + 1
        }),
{
    let n = (env.next_var - 1) as nat;
    let e0 = fresh_name(n);
    let o0 = fresh_name(n + 1);
    let elem = TypeModel::Var(e0);
    let own = fresh_type(env, "t"@);
    let whole = plain_tag("Int"@);
    let list = list_of(elem);
    lemma_fresh_names(n, n + 1);
    lemma_fresh_names(n + 1, n);
    assert(own == TypeModel::Var(o0));
    let s1 = env.substitution;
    let env1 = after_fresh(env);
    lemma_plain_tag("Int"@, s1, Seq::empty());
    lemma_apply_free(s1, o0, 0);
    assert(bind_model(o0, whole, s1) == Ok::<Subst, (TypeModel, TypeModel)>(s1.push((o0, whole))));
    assert(unified(env1, own, whole) == Some(s1.push((o0, whole))));
    let s2 = s1.push((o0, whole));
    let e = after_unify(env1, own, whole);
    assert(e.substitution == s2);
    lemma_plain_tag("Int"@, s2, Seq::empty());
    lemma_apply_free(s2, e0, 0);
    lemma_apply_bound(s2, o0, 0, 1, "Int"@);
    assert(bind_model(e0, whole, s2) == Ok::<Subst, (TypeModel, TypeModel)>(s2.push((e0, whole))));
    assert(unified(e, elem, own) == Some(s2.push((e0, whole))));
    assert(s2.push((e0, whole)) =~= after_first_item(x, n));
}

/// The second item: a text, which is no whole number.
proof fn lemma_second_item(env: StaticEnvModel, x: Seq<char>, n: nat, text: Seq<char>)
    requires
        env.substitution == after_first_item(x, n),
        env.next_var == n + 2,
        env.next_var < u64::MAX,
        x != fresh_name(n),
        x != fresh_name(n + 1),
        x != fresh_name(n + 2),
    ensures
        ({
            let elem = TypeModel::Var(fresh_name(n));
            let own = fresh_type(env, "t"@);
            let (e, failed) = analyze_pattern_model(
                after_fresh(env),
                PatternModel::LitString(text),
                own,
            );
            &&& failed.is_none()
            &&& unified(e, elem, own).is_none()
            &&& resolved(e, elem) == plain_tag("Int"@)
            &&& resolved(e, own) == plain_tag("String"@)
        }),
{
    reveal_strlit("Int");
    reveal_strlit("String");
    let e0 = fresh_name(n);
    let o0 = fresh_name(n + 1);
    let o1 = fresh_name(n + 2);
    let elem = TypeModel::Var(e0);
    let own = fresh_type(env, "t"@);
    let whole = plain_tag("Int"@);
    let string = plain_tag("String"@);
    lemma_fresh_names(n + 2, n);
    lemma_fresh_names(n + 2, n + 1);
    lemma_fresh_names(n, n + 1);
    assert(own == TypeModel::Var(o1));
    let s3 = env.substitution;
    let env1 = after_fresh(env);
    lemma_plain_tag("String"@, s3, Seq::empty());
    lemma_apply_free(s3, o1, 0);
    assert(bind_model(o1, string, s3) == Ok::<Subst, (TypeModel, TypeModel)>(
        s3.push((o1, string)),
    ));
    assert(unified(env1, own, string) == Some(s3.push((o1, string))));
    let s4 = s3.push((o1, string));
    let e = after_unify(env1, own, string);
    assert(e.substitution == s4);
    lemma_apply_bound(s4, e0, 0, 2, "Int"@);
    lemma_apply_bound(s4, o1, 0, 3, "String"@);
    assert("Int"@.len() != "String"@.len());
    assert(unify_model(whole, string, s4) is Err);
}

/// A list pattern of a whole number and a text, analyzed against a type
/// variable that nothing binds, where no type variable is bound yet:
/// the analysis fails with the error for list patterns whose items are
/// not of one type, and the error names `Int` and `String`.
pub proof fn law_mixed_list_pattern_is_rejected(
    env: StaticEnvModel,
    x: Seq<char>,
    i: i64,
    text: Seq<char>,
)
    requires
        env.substitution.len() == 0,
        env.next_var + 3 <= u64::MAX,
        !is_number_name(x),
        x != fresh_name(env.next_var as nat),
        x != fresh_name((env.next_var + 1) as nat),
        x != fresh_name((env.next_var + 2) as nat),
    ensures
        analyze_pattern_model(env, mixed_list(i, text), TypeModel::Var(x)).1 == Some(
            int_and_string(),
        ),
{
    let n = env.next_var as nat;
    let e0 = fresh_name(n);
    let elem = TypeModel::Var(e0);
    let list = list_of(elem);
    let ps = seq![PatternModel::LitInt(i), PatternModel::LitString(text)];
    let env1 = after_fresh(env);
    assert(fresh_type(env, "t"@) == elem);
    // The subject is a list.
    assert(seq![elem][0] == elem);
    assert(!occurs(x, elem));
    assert(!occurs_from(x, seq![elem], 1));
    assert(!occurs_from(x, seq![elem], 0));
    assert(!occurs(x, list));
    let s0 = env.substitution;
    assert(bind_model(x, list, s0) == Ok::<Subst, (TypeModel, TypeModel)>(s0.push((x, list))));
    assert(s0.push((x, list)) =~= seq![(x, list)]);
    assert(unified(env1, TypeModel::Var(x), list) == Some(seq![(x, list)]));
    let env2 = after_unify(env1, TypeModel::Var(x), list);
    // The items.
    lemma_first_item(env2, x, i, text);
    let own0 = fresh_type(env2, "t"@);
    let f = analyze_pattern_model(after_fresh(env2), ps[0], own0).0;
    let env3 = after_unify(f, elem, own0);
    lemma_second_item(env3, x, n, text);
    let own1 = fresh_type(env3, "t"@);
    let g = analyze_pattern_model(after_fresh(env3), ps[1], own1).0;
    assert(analyze_items_model(env3, ps, elem, 1) == (g, Some(int_and_string())));
    assert(analyze_items_model(env2, ps, elem, 0) == (g, Some(int_and_string())));
}

/// An error of the pattern of the first branch of a `case` whose subject
/// has a type is the error of the `case`.
pub proof fn law_pattern_error_is_the_error_of_the_case(
    env: StaticEnvModel,
    s: ExprModel,
    branches: Seq<(PatternModel, ExprModel)>,
)
    requires
        branches.len() > 0,
        infer_model(env, s).1 is Ok,
        analyze_pattern_model(
            entered(after_fresh(infer_model(env, s).0)),
            branches[0].0,
            infer_model(env, s).1->Ok_0,
        ).1.is_some(),
    ensures
        check_expression_model(env, case_of(s, branches)).1 == Err::<TypeModel, _>(
            TypeErrorModel::PatternMatchingError(
                analyze_pattern_model(
                    entered(after_fresh(infer_model(env, s).0)),
                    branches[0].0,
                    infer_model(env, s).1->Ok_0,
                ).1->Some_0,
            ),
        ),
{
    let (e1, rs) = infer_model(env, s);
    let ts = rs->Ok_0;
    let out = fresh_type(e1, "t"@);
    let start = after_fresh(e1);
    let failed = analyze_pattern_model(entered(start), branches[0].0, ts).1;
    assert(infer_branch_model(start, branches[0].0, branches[0].1, ts).1 == Err::<TypeModel, _>(
        TypeErrorModel::PatternMatchingError(failed->Some_0),
    ));
    assert(infer_branches_model(start, branches, ts, out, 0).1 == Some(
        TypeErrorModel::PatternMatchingError(failed->Some_0),
    ));
}

/// A `case` over a name whose type is a type variable that nothing
/// binds, analyzed where no type variable is bound yet: if the pattern
/// of its first branch is a list pattern of a whole number and a text,
/// the `case` has no type, and the error names `Int` and `String` as the
/// types of the items.
pub proof fn law_case_with_a_mixed_list_pattern_is_rejected(
    env: StaticEnvModel,
    v: Seq<char>,
    x: Seq<char>,
    i: i64,
    text: Seq<char>,
    branches: Seq<(PatternModel, ExprModel)>,
)
    requires
        env.substitution.len() == 0,
        env.next_var + 4 <= u64::MAX,
        find_type(env.scopes, v) == Some((TypeModel::Var(x), false)),
        !is_number_name(x),
        x != fresh_name((env.next_var + 1) as nat),
        x != fresh_name((env.next_var + 2) as nat),
        x != fresh_name((env.next_var + 3) as nat),
        branches.len() > 0,
        branches[0].0 == mixed_list(i, text),
    ensures
        check_expression_model(env, case_of(ExprModel::Ref(v), branches)).1 == Err::<
            TypeModel,
            _,
        >(TypeErrorModel::PatternMatchingError(int_and_string())),
{
    let subject = ExprModel::Ref(v);
    assert(infer_model(env, subject) == (env, Ok::<_, TypeErrorModel>(TypeModel::Var(x))));
    let inner = entered(after_fresh(env));
    law_mixed_list_pattern_is_rejected(inner, x, i, text);
    law_pattern_error_is_the_error_of_the_case(env, subject, branches);
}

} // verus!
