//! Where the analyzer and the interpreter meet: the type that the one
//! gives to an expression is the type of the value that the other makes
//! of it, and patterns that the one finds exhaustive leave no value for
//! the other to fall through.
use vstd::prelude::*;

use crate::analyzer::expression_analyzer::{
    first_repeat, infer_fields_model, infer_let_model, infer_list_model, infer_model,
};
use crate::analyzer::static_env::{add_type, added, entered, find_type, StaticEnvModel};
use crate::analyzer::type_helper::{
    default_numbers_model, is_number_name, lemma_map_vars, map_all_model, map_fields_model,
    rename_model, suffix_model, VarOpModel,
};
use crate::analyzer::pattern_analyzer::{
    all_irrefutable, any_covers, covers, first_uncovered, irrefutable, missing_pattern,
    CoveringModel,
};
use crate::analyzer::static_env::{adt_index, variant_index};
use crate::analyzer::case_laws::lemma_plain_tag;
use crate::analyzer::static_env::{
    after_fresh, after_unify, fresh_type, resolved, unified,
};
use crate::analyzer::type_helper::{apply_from, bind_model, occurs, unify_model, Subst};
use crate::analyzer::{
    check_expression_model, plain_tag, type_of_value_model, TypeErrorModel,
};
use crate::ast::LiteralModel;
use crate::interpreter::expression_eval::is_constant;
use crate::interpreter::expression_eval::{eval_branches_model, patterns_of};
use crate::interpreter::pattern_match::{
    and_then_match, match_all_model, match_fields_model, match_model,
};
use crate::scope::{lookup, scope_map};
use crate::types::AdtModel;
use crate::ast::{ExprModel, LetEntryModel, PatternModel, TypeModel};
use crate::interpreter::dynamic_env::{add_model, find_model, ScopeModel};
use crate::interpreter::expression_eval::{
    add_all_model, eval_fields_model, eval_let_model, eval_list_model, eval_model,
};
use crate::interpreter::RuntimeErrorModel;
use crate::scope::keys_of;
use crate::types::ValueModel;

verus! {

/// Whether the expression is made of literals, `()`, tuples and records
/// alone, no record naming a field twice.
pub open spec fn is_constant_expr(e: ExprModel) -> bool
    decreases e, 1nat, 0nat,
{
    match e {
        ExprModel::Unit => true,
        ExprModel::Literal(_) => true,
        ExprModel::Tuple(items) => all_constant(items, 0),
        ExprModel::Record(fields) => first_repeat(keys_of(fields), 0) == -1
            && all_constant_fields(fields, 0),
        _ => false,
    }
}

/// Whether each of the expressions from place `i` on is such an
/// expression.
pub open spec fn all_constant(items: Seq<ExprModel>, i: nat) -> bool
    decreases items, 0nat, items.len() - i,
{
    i >= items.len() || (is_constant_expr(items[i as int]) && all_constant(items, i + 1))
}

/// Whether the expression of each field from place `i` on is such an
/// expression.
pub open spec fn all_constant_fields(fields: Seq<(Seq<char>, ExprModel)>, i: nat) -> bool
    decreases fields, 0nat, fields.len() - i,
{
    i >= fields.len() || (is_constant_expr(fields[i as int].1) && all_constant_fields(
        fields,
        i + 1,
    ))
}

/// The inferred type `t` is, once its numbers have their default, the
/// type of the value `v`.
pub open spec fn agrees(t: TypeModel, v: ValueModel) -> bool {
    default_numbers_model(t) == type_of_value_model(v)
}

/// Such an expression has a type and a value, the two agree, and its
/// analysis binds no type variable.
proof fn lemma_constant(types: StaticEnvModel, values: Seq<ScopeModel>, e: ExprModel, depth: nat)
    requires
        is_constant_expr(e),
        types.substitution.len() == 0,
    ensures
        infer_model(types, e).0.substitution.len() == 0,
        infer_model(types, e).1 is Ok,
        eval_model(values, e, depth) is Ok,
        agrees(infer_model(types, e).1->Ok_0, eval_model(values, e, depth)->Ok_0),
    decreases e, 1nat, 0nat,
{
    let op = VarOpModel::DefaultNumbers;
    match e {
        ExprModel::Tuple(items) => {
            lemma_constant_list(types, values, items, 0, depth);
            let ts = infer_list_model(types, items, 0).1->Ok_0;
            let vs = eval_list_model(values, items, 0, depth)->Ok_0;
            lemma_map_vars(TypeModel::Tuple(ts), op);
            assert(map_all_model(ts, op) =~= type_of_value_model(ValueModel::Tuple(vs))->Tuple_0);
        },
        ExprModel::Record(fields) => {
            lemma_constant_fields(types, values, fields, 0, depth);
            let ts = infer_fields_model(types, fields, 0).1->Ok_0;
            let vs = eval_fields_model(values, fields, 0, depth)->Ok_0;
            lemma_map_vars(TypeModel::Record(ts), op);
            assert(map_fields_model(ts, op) =~= type_of_value_model(
                ValueModel::Record(vs),
            )->Record_0);
        },
        _ => {
            reveal_strlit("number");
            assert(is_number_name("number"@ + suffix_model(types.next_var as nat)));
            let inferred = infer_model(types, e).1->Ok_0;
            lemma_map_vars(inferred, op);
            assert(map_all_model(Seq::<TypeModel>::empty(), op) =~= Seq::<TypeModel>::empty());
        },
    }
}

/// Such expressions have types and values that agree place by place.
proof fn lemma_constant_list(
    types: StaticEnvModel,
    values: Seq<ScopeModel>,
    items: Seq<ExprModel>,
    i: nat,
    depth: nat,
)
    requires
        all_constant(items, i),
        i <= items.len(),
        types.substitution.len() == 0,
    ensures
        infer_list_model(types, items, i).0.substitution.len() == 0,
        infer_list_model(types, items, i).1 matches Ok(ts) && eval_list_model(
            values,
            items,
            i,
            depth,
        ) matches Ok(vs) && ts.len() == items.len() - i && vs.len() == items.len() - i
            && forall|k: int| 0 <= k < ts.len() ==> agrees(#[trigger] ts[k], vs[k]),
    decreases items, 0nat, items.len() - i,
{
    if i < items.len() {
        lemma_constant(types, values, items[i as int], depth);
        let after = infer_model(types, items[i as int]).0;
        lemma_constant_list(after, values, items, i + 1, depth);
    }
}

/// The expressions of such fields have types and values that agree place
/// by place, under the same names.
proof fn lemma_constant_fields(
    types: StaticEnvModel,
    values: Seq<ScopeModel>,
    fields: Seq<(Seq<char>, ExprModel)>,
    i: nat,
    depth: nat,
)
    requires
        all_constant_fields(fields, i),
        i <= fields.len(),
        types.substitution.len() == 0,
    ensures
        infer_fields_model(types, fields, i).0.substitution.len() == 0,
        infer_fields_model(types, fields, i).1 matches Ok(ts) && eval_fields_model(
            values,
            fields,
            i,
            depth,
        ) matches Ok(vs) && ts.len() == fields.len() - i && vs.len() == fields.len() - i
            && forall|k: int|
            0 <= k < ts.len() ==> (#[trigger] ts[k]).0 == vs[k].0 && agrees(ts[k].1, vs[k].1),
    decreases fields, 0nat, fields.len() - i,
{
    if i < fields.len() {
        lemma_constant(types, values, fields[i as int].1, depth);
        let after = infer_model(types, fields[i as int].1).0;
        lemma_constant_fields(after, values, fields, i + 1, depth);
    }
}

/// For an expression made of literals, `()`, tuples and records, analyzed
/// where no type variable is bound yet: the analyzer gives it a type, the
/// interpreter a value in whatever environment, and the type is the type
/// of the value.
pub proof fn law_constant_has_the_type_of_its_value(
    types: StaticEnvModel,
    values: Seq<ScopeModel>,
    e: ExprModel,
    depth: nat,
)
    requires
        is_constant_expr(e),
        types.substitution.len() == 0,
    ensures
        eval_model(values, e, depth) is Ok,
        check_expression_model(types, e).1 == Ok::<_, TypeErrorModel>(
            type_of_value_model(eval_model(values, e, depth)->Ok_0),
        ),
{
    lemma_constant(types, values, e, depth);
}

/// Whether the expression is made of literals, `()`, names, tuples,
/// records and `let` blocks that bind plain names alone, no record naming
/// a field twice.
pub open spec fn is_simple_expr(e: ExprModel) -> bool
    decreases e, 1nat, 0nat,
{
    match e {
        ExprModel::Unit => true,
        ExprModel::Literal(_) => true,
        ExprModel::Ref(_) => true,
        ExprModel::Tuple(items) => all_simple(items, 0),
        ExprModel::Record(fields) => first_repeat(keys_of(fields), 0) == -1 && all_simple_fields(
            fields,
            0,
        ),
        ExprModel::Let(entries, body) => all_simple_entries(entries, 0) && is_simple_expr(*body),
        _ => false,
    }
}

/// Whether each of the expressions from place `i` on is such an
/// expression.
pub open spec fn all_simple(items: Seq<ExprModel>, i: nat) -> bool
    decreases items, 0nat, items.len() - i,
{
    i >= items.len() || (is_simple_expr(items[i as int]) && all_simple(items, i + 1))
}

/// Whether the expression of each field from place `i` on is such an
/// expression.
pub open spec fn all_simple_fields(fields: Seq<(Seq<char>, ExprModel)>, i: nat) -> bool
    decreases fields, 0nat, fields.len() - i,
{
    i >= fields.len() || (is_simple_expr(fields[i as int].1) && all_simple_fields(fields, i + 1))
}

/// Whether each entry from place `i` on binds a plain name to such an
/// expression.
pub open spec fn all_simple_entries(entries: Seq<LetEntryModel>, i: nat) -> bool
    decreases entries, 0nat, entries.len() - i,
{
    i >= entries.len() || (entries[i as int] matches LetEntryModel::Pattern(
        PatternModel::Var(_),
        x,
    ) && is_simple_expr(x) && all_simple_entries(entries, i + 1))
}

/// The type `t` that a name stands for is the type of the value `v` that
/// it stands for. A name of the outermost scope gets fresh variables
/// wherever it is used: its type has to agree under every mark.
pub open spec fn name_agrees(t: TypeModel, v: ValueModel, outer: bool) -> bool {
    if outer {
        forall|mark: Seq<char>| agrees(#[trigger] rename_model(t, mark), v)
    } else {
        agrees(t, v)
    }
}

/// Two scopes bind the same names, each to a type and to a value of that
/// type.
pub open spec fn scope_agrees(
    ts: Map<Seq<char>, TypeModel>,
    vs: ScopeModel,
    outer: bool,
) -> bool {
    &&& forall|n: Seq<char>| ts.contains_key(n) == vs.contains_key(n)
    &&& forall|n: Seq<char>| #[trigger] ts.contains_key(n) ==> name_agrees(ts[n], vs[n], outer)
}

/// The scopes of types and the scopes of values agree, one by one.
pub open spec fn scopes_agree(ts: Seq<Map<Seq<char>, TypeModel>>, vs: Seq<ScopeModel>) -> bool {
    &&& ts.len() == vs.len()
    &&& forall|k: int| 0 <= k < ts.len() ==> scope_agrees(#[trigger] ts[k], vs[k], k == 0)
}

/// In scopes that agree a name has a type exactly where it has a value,
/// and the two agree.
proof fn lemma_find_agrees(
    ts: Seq<Map<Seq<char>, TypeModel>>,
    vs: Seq<ScopeModel>,
    x: Seq<char>,
)
    requires
        scopes_agree(ts, vs),
    ensures
        match find_type(ts, x) {
            None => find_model(vs, x).is_none(),
            Some((t, outer)) => find_model(vs, x) matches Some(v) && name_agrees(t, v, outer),
        },
    decreases ts.len(),
{
    if ts.len() > 0 {
        let k = ts.len() - 1;
        assert(scope_agrees(ts[k], vs[k], k == 0));
        if !ts.last().contains_key(x) {
            assert forall|j: int| 0 <= j < ts.drop_last().len() implies scope_agrees(
                #[trigger] ts.drop_last()[j],
                vs.drop_last()[j],
                j == 0,
            ) by {
                assert(scope_agrees(ts[j], vs[j], j == 0));
            }
            lemma_find_agrees(ts.drop_last(), vs.drop_last(), x);
        }
    }
}

/// Scopes that agree still agree after a name got, in an inner scope, a
/// type and a value of that type.
proof fn lemma_add_agrees(
    ts: Seq<Map<Seq<char>, TypeModel>>,
    vs: Seq<ScopeModel>,
    n: Seq<char>,
    t: TypeModel,
    v: ValueModel,
)
    requires
        scopes_agree(ts, vs),
        ts.len() >= 2,
        agrees(t, v),
    ensures
        scopes_agree(add_type(ts, n, t), add_model(vs, n, v)),
{
    let ts1 = add_type(ts, n, t);
    let vs1 = add_model(vs, n, v);
    let top = ts.len() - 1;
    assert forall|k: int| 0 <= k < ts1.len() implies scope_agrees(
        #[trigger] ts1[k],
        vs1[k],
        k == 0,
    ) by {
        assert(scope_agrees(ts[k], vs[k], k == 0));
        if k == top {
            assert forall|m: Seq<char>| #[trigger] ts1[k].contains_key(m) implies name_agrees(
                ts1[k][m],
                vs1[k][m],
                false,
            ) by {
                if m != n {
                    assert(ts[k].contains_key(m));
                }
            }
        }
    }
}

/// Such an expression, where it has a type, has a value of that type;
/// its analysis binds no type variable and leaves the scopes as they
/// were.
proof fn lemma_simple(types: StaticEnvModel, values: Seq<ScopeModel>, e: ExprModel, depth: nat)
    requires
        is_simple_expr(e),
        types.substitution.len() == 0,
        types.scopes.len() >= 1,
        scopes_agree(types.scopes, values),
    ensures
        infer_model(types, e).0.substitution.len() == 0,
        infer_model(types, e).0.scopes == types.scopes,
        infer_model(types, e).1 is Ok ==> eval_model(values, e, depth) is Ok && agrees(
            infer_model(types, e).1->Ok_0,
            eval_model(values, e, depth)->Ok_0,
        ),
    decreases e, 1nat, 0nat,
{
    let op = VarOpModel::DefaultNumbers;
    match e {
        ExprModel::Ref(x) => {
            lemma_find_agrees(types.scopes, values, x);
            if let Some((t, outer)) = find_type(types.scopes, x) {
                if outer {
                    let v = find_model(values, x)->Some_0;
                    assert(agrees(rename_model(t, suffix_model(types.next_var as nat)), v));
                }
            }
        },
        ExprModel::Tuple(items) => {
            lemma_simple_list(types, values, items, 0, depth);
            if infer_list_model(types, items, 0).1 is Ok {
                let ts = infer_list_model(types, items, 0).1->Ok_0;
                let vs = eval_list_model(values, items, 0, depth)->Ok_0;
                lemma_map_vars(TypeModel::Tuple(ts), op);
                assert(map_all_model(ts, op) =~= type_of_value_model(
                    ValueModel::Tuple(vs),
                )->Tuple_0);
            }
        },
        ExprModel::Record(fields) => {
            lemma_simple_fields(types, values, fields, 0, depth);
            if infer_fields_model(types, fields, 0).1 is Ok {
                let ts = infer_fields_model(types, fields, 0).1->Ok_0;
                let vs = eval_fields_model(values, fields, 0, depth)->Ok_0;
                lemma_map_vars(TypeModel::Record(ts), op);
                assert(map_fields_model(ts, op) =~= type_of_value_model(
                    ValueModel::Record(vs),
                )->Record_0);
            }
        },
        ExprModel::Let(entries, body) => {
            let inner_types = entered(types);
            let inner_values = values.push(Map::empty());
            assert forall|k: int| 0 <= k < inner_types.scopes.len() implies scope_agrees(
                #[trigger] inner_types.scopes[k],
                inner_values[k],
                k == 0,
            ) by {
                if k < types.scopes.len() {
                    assert(scope_agrees(types.scopes[k], values[k], k == 0));
                }
            }
            lemma_simple_let(inner_types, values.push(Map::empty()), e, 0, depth);
            assert(inner_types.scopes.drop_last() =~= types.scopes);
        },
        _ => {
            reveal_strlit("number");
            assert(is_number_name("number"@ + suffix_model(types.next_var as nat)));
            let inferred = infer_model(types, e).1->Ok_0;
            lemma_map_vars(inferred, op);
            assert(map_all_model(Seq::<TypeModel>::empty(), op) =~= Seq::<TypeModel>::empty());
        },
    }
}

/// The same, for several such expressions.
proof fn lemma_simple_list(
    types: StaticEnvModel,
    values: Seq<ScopeModel>,
    items: Seq<ExprModel>,
    i: nat,
    depth: nat,
)
    requires
        all_simple(items, i),
        i <= items.len(),
        types.substitution.len() == 0,
        types.scopes.len() >= 1,
        scopes_agree(types.scopes, values),
    ensures
        infer_list_model(types, items, i).0.substitution.len() == 0,
        infer_list_model(types, items, i).0.scopes == types.scopes,
        infer_list_model(types, items, i).1 matches Ok(ts) ==> eval_list_model(
            values,
            items,
            i,
            depth,
        ) matches Ok(vs) && ts.len() == items.len() - i && vs.len() == items.len() - i
            && forall|k: int| 0 <= k < ts.len() ==> agrees(#[trigger] ts[k], vs[k]),
    decreases items, 0nat, items.len() - i,
{
    if i < items.len() {
        lemma_simple(types, values, items[i as int], depth);
        let after = infer_model(types, items[i as int]).0;
        if infer_model(types, items[i as int]).1 is Ok {
            lemma_simple_list(after, values, items, i + 1, depth);
        }
    }
}

/// The same, for the fields of a record.
proof fn lemma_simple_fields(
    types: StaticEnvModel,
    values: Seq<ScopeModel>,
    fields: Seq<(Seq<char>, ExprModel)>,
    i: nat,
    depth: nat,
)
    requires
        all_simple_fields(fields, i),
        i <= fields.len(),
        types.substitution.len() == 0,
        types.scopes.len() >= 1,
        scopes_agree(types.scopes, values),
    ensures
        infer_fields_model(types, fields, i).0.substitution.len() == 0,
        infer_fields_model(types, fields, i).0.scopes == types.scopes,
        infer_fields_model(types, fields, i).1 matches Ok(ts) ==> eval_fields_model(
            values,
            fields,
            i,
            depth,
        ) matches Ok(vs) && ts.len() == fields.len() - i && vs.len() == fields.len() - i
            && forall|k: int|
            0 <= k < ts.len() ==> (#[trigger] ts[k]).0 == vs[k].0 && agrees(ts[k].1, vs[k].1),
    decreases fields, 0nat, fields.len() - i,
{
    if i < fields.len() {
        lemma_simple(types, values, fields[i as int].1, depth);
        let after = infer_model(types, fields[i as int].1).0;
        if infer_model(types, fields[i as int].1).1 is Ok {
            lemma_simple_fields(after, values, fields, i + 1, depth);
        }
    }
}

/// The same, for the entries and the body of a `let`, analyzed and
/// evaluated in the scope of the `let`.
proof fn lemma_simple_let(
    types: StaticEnvModel,
    values: Seq<ScopeModel>,
    e: ExprModel,
    i: nat,
    depth: nat,
)
    requires
        e matches ExprModel::Let(entries, body) && all_simple_entries(entries, i)
            && is_simple_expr(*body) && i <= entries.len(),
        types.substitution.len() == 0,
        types.scopes.len() >= 2,
        scopes_agree(types.scopes, values),
    ensures
        infer_let_model(types, e, i).0.substitution.len() == 0,
        infer_let_model(types, e, i).0.scopes.len() == types.scopes.len(),
        infer_let_model(types, e, i).0.scopes.drop_last() == types.scopes.drop_last(),
        infer_let_model(types, e, i).1 is Ok ==> eval_let_model(values, e, i, depth) is Ok
            && agrees(
            infer_let_model(types, e, i).1->Ok_0,
            eval_let_model(values, e, i, depth)->Ok_0,
        ),
    decreases e, 0nat, (e->Let_0).len() - i,
{
    match e {
        ExprModel::Let(entries, body) => {
            if i >= entries.len() {
                lemma_simple(types, values, *body, depth);
            } else {
                match entries[i as int] {
                    LetEntryModel::Pattern(PatternModel::Var(n), x) => {
                        lemma_simple(types, values, x, depth);
                        let (e1, r) = infer_model(types, x);
                        if r is Ok {
                            let t = r->Ok_0;
                            let v = eval_model(values, x, depth)->Ok_0;
                            let bs = seq![(n, v)];
                            assert(bs.drop_last() =~= Seq::<(Seq<char>, ValueModel)>::empty());
                            assert(add_all_model(values, bs.drop_last()) == values);
                            assert(add_all_model(values, bs) == add_model(values, n, v));
                            lemma_add_agrees(e1.scopes, values, n, t, v);
                            let next = added(e1, n, t);
                            assert(next.scopes.drop_last() =~= types.scopes.drop_last());
                            lemma_simple_let(next, add_model(values, n, v), e, i + 1, depth);
                        }
                    },
                    _ => {},
                }
            }
        },
        _ => {},
    }
}

/// For an expression made of literals, `()`, names, tuples, records and
/// `let` blocks that bind plain names, analyzed where no type variable is
/// bound yet, in scopes of types and of values that agree: if the
/// analyzer gives it a type, the interpreter gives it a value, and the
/// type is the type of the value.
pub proof fn law_simple_expression_has_the_type_of_its_value(
    types: StaticEnvModel,
    values: Seq<ScopeModel>,
    e: ExprModel,
    depth: nat,
)
    requires
        is_simple_expr(e),
        types.substitution.len() == 0,
        types.scopes.len() >= 1,
        scopes_agree(types.scopes, values),
        check_expression_model(types, e).1 is Ok,
    ensures
        eval_model(values, e, depth) is Ok,
        check_expression_model(types, e).1 == Ok::<_, TypeErrorModel>(
            type_of_value_model(eval_model(values, e, depth)->Ok_0),
        ),
{
    lemma_simple(types, values, e, depth);
}

/// Whether the value is of the kind that a pattern which matches
/// everything takes for granted: `()` for `()`, a tuple of as many parts
/// for a tuple pattern, a record with the named fields for a record
/// pattern.
pub open spec fn fits(v: ValueModel, p: PatternModel) -> bool
    decreases p, 0nat,
{
    match p {
        PatternModel::Unit => v is Unit,
        PatternModel::Tuple(ps) => v matches ValueModel::Tuple(vs) && vs.len() == ps.len()
            && all_fit(vs, ps, 0),
        PatternModel::Record(names) => v matches ValueModel::Record(fields) && forall|k: int|
            0 <= k < names.len() ==> lookup(fields, #[trigger] names[k]).is_some(),
        _ => true,
    }
}

/// Whether each value from place `i` on fits the pattern at its place.
pub open spec fn all_fit(vs: Seq<ValueModel>, ps: Seq<PatternModel>, i: nat) -> bool
    decreases ps, ps.len() - i,
{
    i >= ps.len() || i >= vs.len() || (fits(vs[i as int], ps[i as int]) && all_fit(vs, ps, i + 1))
}

/// Whether the pattern matches the value.
pub open spec fn matches_value(p: PatternModel, v: ValueModel) -> bool {
    match_model(p, v) matches Ok(Some(_))
}

/// Whether the value is of the kind that the pattern takes for granted
/// where it covers it: as a pattern that matches everything, as a
/// pattern of the value's variant, or as `h :: t` for a list that is not
/// empty.
pub open spec fn fits_cover(v: ValueModel, p: PatternModel) -> bool {
    &&& irrefutable(p) ==> fits(v, p)
    &&& match (p, v) {
        (PatternModel::Adt(n, subs), ValueModel::Adt(m, fields, _)) => n == m && all_irrefutable(
            subs,
            0,
        ) ==> fields.len() == subs.len() && all_fit(fields, subs, 0),
        (PatternModel::BinaryOp(_, a, b), ValueModel::List(vs)) => vs.len() > 0 && covers(
            p,
            CoveringModel::LongerList,
        ) ==> fits(vs[0], *a) && fits(ValueModel::List(vs.subrange(1, vs.len() as int)), *b),
        _ => true,
    }
}

/// Whether the value is of the kind of the type: a list for a list type,
/// an instance of one of its variants for a known data type.
pub open spec fn belongs(v: ValueModel, ty: TypeModel, adts: Seq<AdtModel>) -> bool {
    match ty {
        TypeModel::Tag(n, _) => if n == "List"@ {
            v is List
        } else if adt_index(adts, n, 0) >= 0 {
            v matches ValueModel::Adt(name, _, _) && variant_index(
                adts[adt_index(adts, n, 0)],
                name,
                0,
            ) >= 0
        } else {
            true
        },
        _ => true,
    }
}

/// A pattern that matches everything matches a value that fits it.
proof fn lemma_irrefutable_matches(p: PatternModel, v: ValueModel)
    requires
        irrefutable(p),
        fits(v, p),
    ensures
        matches_value(p, v),
    decreases p, 1nat,
{
    match p {
        PatternModel::Tuple(ps) => {
            lemma_all_match(ps, v->Tuple_0, 0);
        },
        PatternModel::Record(names) => {
            lemma_fields_match(names, v->Record_0, 0);
        },
        _ => {},
    }
}

/// Patterns that match everything match values that fit them.
proof fn lemma_all_match(ps: Seq<PatternModel>, vs: Seq<ValueModel>, i: nat)
    requires
        all_irrefutable(ps, i),
        all_fit(vs, ps, i),
        vs.len() == ps.len(),
    ensures
        match_all_model(ps, vs, i) matches Ok(Some(_)),
    decreases ps, 0nat, ps.len() - i,
{
    if i < ps.len() {
        lemma_irrefutable_matches(ps[i as int], vs[i as int]);
        lemma_all_match(ps, vs, i + 1);
    }
}

/// A record pattern matches a record that has the named fields.
proof fn lemma_fields_match(names: Seq<Seq<char>>, fields: Seq<(Seq<char>, ValueModel)>, i: nat)
    requires
        forall|k: int| 0 <= k < names.len() ==> lookup(fields, #[trigger] names[k]).is_some(),
    ensures
        match_fields_model(names, fields, i) matches Ok(Some(_)),
    decreases names.len() - i,
{
    if i < names.len() {
        assert(lookup(fields, names[i as int]).is_some());
        lemma_fields_match(names, fields, i + 1);
    }
}

/// A pattern that covers the whole of what the value belongs to matches
/// the value, if the value fits it.
proof fn lemma_cover_matches(p: PatternModel, what: CoveringModel, v: ValueModel)
    requires
        covers(p, what),
        fits_cover(v, p),
        match what {
            CoveringModel::Everything => true,
            CoveringModel::Variant(name) => v matches ValueModel::Adt(m, _, _) && m == name,
            CoveringModel::EmptyList => v matches ValueModel::List(vs) && vs.len() == 0,
            CoveringModel::LongerList => v matches ValueModel::List(vs) && vs.len() > 0,
        },
    ensures
        matches_value(p, v),
{
    match what {
        CoveringModel::Everything => {
            lemma_irrefutable_matches(p, v);
        },
        CoveringModel::Variant(_) => {
            match (p, v) {
                (PatternModel::Adt(n, subs), ValueModel::Adt(m, fields, _)) => {
                    assert(fields.len() == subs.len() && all_fit(fields, subs, 0));
                    lemma_all_match(subs, fields, 0);
                },
                _ => {},
            }
        },
        CoveringModel::EmptyList => {
            match (p, v) {
                (PatternModel::List(items), ValueModel::List(vs)) => {
                    assert(match_all_model(items, vs, 0) matches Ok(Some(_)));
                },
                _ => {},
            }
        },
        CoveringModel::LongerList => {
            match (p, v) {
                (PatternModel::BinaryOp(op, a, b), ValueModel::List(vs)) => {
                    let tail = ValueModel::List(vs.subrange(1, vs.len() as int));
                    assert(fits(vs[0], *a) && fits(tail, *b));
                    lemma_irrefutable_matches(*a, vs[0]);
                    lemma_irrefutable_matches(*b, tail);
                    assert(and_then_match(match_model(*a, vs[0]), match_model(*b, tail)) matches Ok(
                        Some(_),
                    ));
                },
                _ => {},
            }
        },
    }
}

/// One of the patterns from place `i` on covers the whole of `what`:
/// here is its place.
proof fn lemma_covering_place(ps: Seq<PatternModel>, what: CoveringModel, i: nat) -> (k: int)
    requires
        any_covers(ps, what, i),
    ensures
        i <= k < ps.len(),
        covers(ps[k], what),
    decreases ps.len() - i,
{
    if covers(ps[i as int], what) {
        i as int
    } else {
        lemma_covering_place(ps, what, i + 1)
    }
}

/// Where no variant from place `i` on is uncovered, each of them is
/// covered.
proof fn lemma_variant_is_covered(ps: Seq<PatternModel>, adt: AdtModel, i: nat, v: int)
    requires
        first_uncovered(ps, adt, i) < 0,
        i <= v < adt.variants.len(),
    ensures
        any_covers(ps, CoveringModel::Variant(adt.variants[v].name), 0),
    decreases adt.variants.len() - i,
{
    if i < v {
        lemma_variant_is_covered(ps, adt, i + 1, v);
    }
}

/// The place of the variant called `name` holds a variant of that name.
proof fn lemma_variant_index(adt: AdtModel, name: Seq<char>, i: nat)
    requires
        variant_index(adt, name, i) >= 0,
    ensures
        i <= variant_index(adt, name, i) < adt.variants.len(),
        adt.variants[variant_index(adt, name, i)].name == name,
    decreases adt.variants.len() - i,
{
    if i < adt.variants.len() && adt.variants[i as int].name != name {
        lemma_variant_index(adt, name, i + 1);
    }
}

/// The place of the data type called `name` holds a data type.
proof fn lemma_adt_index(adts: Seq<AdtModel>, name: Seq<char>, i: nat)
    requires
        adt_index(adts, name, i) >= 0,
    ensures
        i <= adt_index(adts, name, i) < adts.len(),
    decreases adts.len() - i,
{
    if i < adts.len() && adts[i as int].name != name {
        lemma_adt_index(adts, name, i + 1);
    }
}

/// Patterns that the analyzer finds exhaustive for a type leave no value
/// of that type unmatched: a value that belongs to the type, and that
/// fits the patterns where they cover it, is matched by one of them.
pub proof fn law_exhaustive_patterns_match_every_value(
    ps: Seq<PatternModel>,
    ty: TypeModel,
    adts: Seq<AdtModel>,
    v: ValueModel,
) -> (k: int)
    requires
        missing_pattern(ps, ty, adts).is_none(),
        belongs(v, ty, adts),
        forall|j: int| 0 <= j < ps.len() ==> fits_cover(v, #[trigger] ps[j]),
    ensures
        0 <= k < ps.len(),
        matches_value(ps[k], v),
{
    if any_covers(ps, CoveringModel::Everything, 0) {
        let k = lemma_covering_place(ps, CoveringModel::Everything, 0);
        lemma_cover_matches(ps[k], CoveringModel::Everything, v);
        k
    } else {
        let n = ty->Tag_0;
        if n == "List"@ {
            let vs = v->List_0;
            let what = if vs.len() == 0 {
                CoveringModel::EmptyList
            } else {
                CoveringModel::LongerList
            };
            let k = lemma_covering_place(ps, what, 0);
            lemma_cover_matches(ps[k], what, v);
            k
        } else {
            let a = adt_index(adts, n, 0);
            lemma_adt_index(adts, n, 0);
            let name = v->Adt_0;
            lemma_variant_index(adts[a], name, 0);
            let place = variant_index(adts[a], name, 0);
            lemma_variant_is_covered(ps, adts[a], 0, place);
            let what = CoveringModel::Variant(name);
            let k = lemma_covering_place(ps, what, 0);
            lemma_cover_matches(ps[k], what, v);
            k
        }
    }
}

/// Whether the pattern lets the value pass: it does not match it, and
/// that is no error.
pub open spec fn lets_pass(p: PatternModel, v: ValueModel) -> bool {
    match_model(p, v) matches Ok(None)
}

/// Whether the value passes by every pattern from place `i` on without a
/// match and without an error.
pub open spec fn falls_through(ps: Seq<PatternModel>, v: ValueModel, i: nat) -> bool
    decreases ps.len() - i,
{
    i >= ps.len() || (lets_pass(ps[i as int], v) && falls_through(ps, v, i + 1))
}

/// A value that one of the patterns matches does not fall through.
proof fn lemma_no_fall_through(ps: Seq<PatternModel>, v: ValueModel, i: nat, k: int)
    requires
        i <= k < ps.len(),
        matches_value(ps[k], v),
    ensures
        !falls_through(ps, v, i),
    decreases k - i,
{
    if i < k {
        lemma_no_fall_through(ps, v, i + 1, k);
    }
}

/// A `case` ends with the error for a value that no branch takes only
/// where the value falls through all its patterns; otherwise the first
/// pattern that does not let the value pass decides.
proof fn lemma_case_result(
    env: Seq<ScopeModel>,
    v: ValueModel,
    branches: Seq<(PatternModel, ExprModel)>,
    i: nat,
    depth: nat,
)
    requires
        !falls_through(patterns_of(branches), v, i),
    ensures
        exists|j: int|
            i <= j < branches.len() && !#[trigger] lets_pass(branches[j].0, v)
                && eval_branches_model(env, v, branches, i, depth) == (match match_model(
                branches[j].0,
                v,
            ) {
                Err(x) => Err(x),
                Ok(Some(bs)) => eval_model(env.push(scope_map(bs)), branches[j].1, depth),
                Ok(None) => Err(RuntimeErrorModel::CallDepthExceeded),
            }),
    decreases branches.len() - i,
{
    let ps = patterns_of(branches);
    assert(ps[i as int] == branches[i as int].0);
    if lets_pass(branches[i as int].0, v) {
        lemma_case_result(env, v, branches, i + 1, depth);
    }
}

/// A `case` whose patterns the analyzer finds exhaustive takes a branch
/// for every value of the subject's type that fits its patterns: the
/// result is that of the first branch whose pattern does not let the
/// value pass, never the error for a value that no branch takes.
pub proof fn law_exhaustive_case_takes_a_branch(
    env: Seq<ScopeModel>,
    v: ValueModel,
    branches: Seq<(PatternModel, ExprModel)>,
    ty: TypeModel,
    adts: Seq<AdtModel>,
    depth: nat,
)
    requires
        missing_pattern(patterns_of(branches), ty, adts).is_none(),
        belongs(v, ty, adts),
        forall|j: int| 0 <= j < branches.len() ==> fits_cover(v, (#[trigger] branches[j]).0),
    ensures
        exists|j: int|
            0 <= j < branches.len() && !#[trigger] lets_pass(branches[j].0, v)
                && eval_branches_model(env, v, branches, 0, depth) == (match match_model(
                branches[j].0,
                v,
            ) {
                Err(x) => Err(x),
                Ok(Some(bs)) => eval_model(env.push(scope_map(bs)), branches[j].1, depth),
                Ok(None) => Err(RuntimeErrorModel::CallDepthExceeded),
            }),
{
    let ps = patterns_of(branches);
    assert forall|j: int| 0 <= j < ps.len() implies fits_cover(v, #[trigger] ps[j]) by {
        assert(ps[j] == branches[j].0);
    }
    let k = law_exhaustive_patterns_match_every_value(ps, ty, adts, v);
    lemma_no_fall_through(ps, v, 0, k);
    lemma_case_result(env, v, branches, 0, depth);
}

/// A whole number as an expression.
pub open spec fn whole(i: i64) -> ExprModel {
    ExprModel::Literal(LiteralModel::Int(i))
}

/// The `if` that chooses between two whole numbers by the name `c`.
pub open spec fn choice(c: Seq<char>, i: i64, j: i64) -> ExprModel {
    ExprModel::If(Box::new(ExprModel::Ref(c)), Box::new(whole(i)), Box::new(whole(j)))
}

/// Two number variables are made equal by a binding of one to the other,
/// or by none; either way the first is a number variable afterwards.
proof fn lemma_two_numbers(env: StaticEnvModel, x: Seq<char>, y: Seq<char>)
    requires
        env.substitution.len() == 0,
        is_number_name(x),
        is_number_name(y),
    ensures
        unified(env, TypeModel::Var(x), TypeModel::Var(y)).is_some(),
        resolved(after_unify(env, TypeModel::Var(x), TypeModel::Var(y)), TypeModel::Var(x))
            matches TypeModel::Var(z) && is_number_name(z),
{
    let s = env.substitution;
    let vx = TypeModel::Var(x);
    let vy = TypeModel::Var(y);
    if x != y {
        assert(!occurs(x, vy));
        assert(bind_model(x, vy, s) == Ok::<Subst, (TypeModel, TypeModel)>(s.push((x, vy))));
        let s1 = s.push((x, vy));
        assert(unify_model(vx, vy, s) == Ok::<Subst, (TypeModel, TypeModel)>(s1));
        assert(s1[0] == (x, vy));
        assert(apply_from(s1, vy, 1) == vy);
        assert(apply_from(s1, vx, 0) == vy);
    } else {
        assert(unify_model(vx, vy, s) == Ok::<Subst, (TypeModel, TypeModel)>(s));
    }
}

/// An `if` between two whole numbers, chosen by a name that stands for a
/// `Bool` and for `True` or `False`, analyzed where no type variable is
/// bound yet: its type is `Int`, its value is the one number or the
/// other, and `Int` is the type of that value.
pub proof fn law_choice_of_numbers_has_the_type_of_its_value(
    types: StaticEnvModel,
    values: Seq<ScopeModel>,
    c: Seq<char>,
    i: i64,
    j: i64,
    depth: nat,
)
    requires
        types.substitution.len() == 0,
        find_type(types.scopes, c) matches Some((ty, _)) && ty == plain_tag("Bool"@),
        find_model(values, c) matches Some(v) && (is_constant(v, "True"@) || is_constant(
            v,
            "False"@,
        )),
    ensures
        check_expression_model(types, choice(c, i, j)).1 == Ok::<_, TypeErrorModel>(
            plain_tag("Int"@),
        ),
        eval_model(values, choice(c, i, j), depth) == Ok::<_, RuntimeErrorModel>(
            ValueModel::Int(
                if is_constant(find_model(values, c)->Some_0, "True"@) {
                    i
                } else {
                    j
                },
            ),
        ),
        type_of_value_model(eval_model(values, choice(c, i, j), depth)->Ok_0) == plain_tag(
            "Int"@,
        ),
{
    reveal_strlit("number");
    let truth = plain_tag("Bool"@);
    let subject = ExprModel::Ref(c);
    lemma_plain_tag("Bool"@, types.substitution, suffix_model(types.next_var as nat));
    let (e1, rc) = infer_model(types, subject);
    assert(rc == Ok::<_, TypeErrorModel>(truth));
    assert(e1.substitution == types.substitution);
    assert(unified(e1, truth, truth) == Some(e1.substitution));
    let e2 = after_unify(e1, truth, truth);
    let (e3, ra) = infer_model(e2, whole(i));
    let (e4, rb) = infer_model(e3, whole(j));
    let x = "number"@ + suffix_model(e2.next_var as nat);
    let y = "number"@ + suffix_model(e3.next_var as nat);
    assert(ra == Ok::<_, TypeErrorModel>(TypeModel::Var(x)));
    assert(rb == Ok::<_, TypeErrorModel>(TypeModel::Var(y)));
    assert(is_number_name(x));
    assert(is_number_name(y));
    lemma_two_numbers(e4, x, y);
    let e5 = after_unify(e4, TypeModel::Var(x), TypeModel::Var(y));
    let t = resolved(e5, TypeModel::Var(x));
    assert(infer_model(types, choice(c, i, j)).1 == Ok::<_, TypeErrorModel>(t));
    lemma_map_vars(t, VarOpModel::DefaultNumbers);
    // The value.
    let v = find_model(values, c)->Some_0;
    assert(eval_model(values, subject, depth) == Ok::<_, RuntimeErrorModel>(v));
    assert(eval_model(values, whole(i), depth) == Ok::<_, RuntimeErrorModel>(ValueModel::Int(i)));
    assert(eval_model(values, whole(j), depth) == Ok::<_, RuntimeErrorModel>(ValueModel::Int(j)));
    if is_constant(v, "True"@) {
        assert(eval_model(values, choice(c, i, j), depth) == eval_model(
            values,
            whole(i),
            depth,
        ));
    } else {
        assert(eval_model(values, choice(c, i, j), depth) == eval_model(
            values,
            whole(j),
            depth,
        ));
    }
}

} // verus!
