//! What unification is for: the bindings it makes turn the two types into
//! one.
use vstd::prelude::*;

use crate::analyzer::static_env::{after_unify, resolved, unified, StaticEnvModel};
use crate::analyzer::type_helper::{
    apply_from, bind_model, binding_limit, is_number_name, lemma_map_vars, map_all_model,
    map_fields_model,
    map_vars_model, occurs, occurs_from, occurs_in_fields, resolve_model, subst_var,
    unify_all_model, unify_fields_model, unify_model, unify_part_model, Subst, VarOpModel,
};
use crate::ast::TypeModel;

verus! {

/// The variable of the binding at place `i` does not occur in `t`.
pub open spec fn unbound_at(s: Subst, i: int, t: TypeModel) -> bool {
    !occurs(s[i].0, t)
}

/// No variable that `s` binds occurs in `t`: applying `s` would change
/// nothing.
pub open spec fn resolved_under(s: Subst, t: TypeModel) -> bool {
    forall|i: int| 0 <= i < s.len() ==> #[trigger] unbound_at(s, i, t)
}

/// The variable of the binding at place `i` does not occur in the type of
/// the binding at place `j`.
pub open spec fn clean_at(s: Subst, i: int, j: int) -> bool {
    !occurs(s[i].0, s[j].1)
}

/// No binding's variable occurs in its own type or in the type of a later
/// binding: the bindings have no circle, and once applied leave none of
/// their variables behind.
pub open spec fn well_formed(s: Subst) -> bool {
    forall|i: int, j: int| 0 <= i <= j < s.len() ==> #[trigger] clean_at(s, i, j)
}

/// The bindings `s` are the first of `longer`.
pub open spec fn starts_with(longer: Subst, s: Subst) -> bool {
    s.len() <= longer.len() && longer.take(s.len() as int) == s
}

/// The types after the bindings from place `k` on were applied to each.
pub open spec fn apply_all(s: Subst, items: Seq<TypeModel>, k: nat) -> Seq<TypeModel> {
    Seq::new(items.len(), |j: int| apply_from(s, items[j], k))
}

/// The fields after the bindings from place `k` on were applied to the
/// type of each.
pub open spec fn apply_fields(s: Subst, fields: Seq<(Seq<char>, TypeModel)>, k: nat) -> Seq<
    (Seq<char>, TypeModel),
> {
    Seq::new(fields.len(), |j: int| (fields[j].0, apply_from(s, fields[j].1, k)))
}

/// A variable that occurs in one of the types is found by `occurs_from`.
proof fn lemma_occurs_from(v: Seq<char>, items: Seq<TypeModel>, i: nat, k: int)
    requires
        i <= k < items.len(),
        occurs(v, items[k]),
    ensures
        occurs_from(v, items, i),
    decreases k - i,
{
    if i < k && !occurs(v, items[i as int]) {
        lemma_occurs_from(v, items, i + 1, k);
    }
}

/// A variable that occurs in none of the types is not found.
proof fn lemma_occurs_nowhere(v: Seq<char>, items: Seq<TypeModel>, i: nat)
    requires
        forall|k: int| i <= k < items.len() ==> !occurs(v, #[trigger] items[k]),
    ensures
        !occurs_from(v, items, i),
    decreases items.len() - i,
{
    if i < items.len() {
        assert(!occurs(v, items[i as int]));
        lemma_occurs_nowhere(v, items, i + 1);
    }
}

/// A variable that occurs in the type of one of the fields is found.
proof fn lemma_occurs_in_fields(
    v: Seq<char>,
    fields: Seq<(Seq<char>, TypeModel)>,
    i: nat,
    k: int,
)
    requires
        i <= k < fields.len(),
        occurs(v, fields[k].1),
    ensures
        occurs_in_fields(v, fields, i),
    decreases k - i,
{
    if i < k && !occurs(v, fields[i as int].1) {
        lemma_occurs_in_fields(v, fields, i + 1, k);
    }
}

/// A variable that occurs in the type of none of the fields is not found.
proof fn lemma_occurs_in_no_field(v: Seq<char>, fields: Seq<(Seq<char>, TypeModel)>, i: nat)
    requires
        forall|k: int| i <= k < fields.len() ==> !occurs(v, (#[trigger] fields[k]).1),
    ensures
        !occurs_in_fields(v, fields, i),
    decreases fields.len() - i,
{
    if i < fields.len() {
        assert(!occurs(v, fields[i as int].1));
        lemma_occurs_in_no_field(v, fields, i + 1);
    }
}

/// A variable that does not occur in a type occurs in none of its parts.
proof fn lemma_parts_without(v: Seq<char>, t: TypeModel)
    requires
        !occurs(v, t),
    ensures
        t matches TypeModel::Tag(_, args) ==> forall|k: int|
            0 <= k < args.len() ==> !occurs(v, #[trigger] args[k]),
        t matches TypeModel::Tuple(items) ==> forall|k: int|
            0 <= k < items.len() ==> !occurs(v, #[trigger] items[k]),
        t matches TypeModel::Record(fields) ==> forall|k: int|
            0 <= k < fields.len() ==> !occurs(v, (#[trigger] fields[k]).1),
        t matches TypeModel::Fun(a, b) ==> !occurs(v, *a) && !occurs(v, *b),
{
    match t {
        TypeModel::Tag(_, args) => {
            assert forall|k: int| 0 <= k < args.len() implies !occurs(v, #[trigger] args[k]) by {
                if occurs(v, args[k]) {
                    lemma_occurs_from(v, args, 0, k);
                }
            }
        },
        TypeModel::Tuple(items) => {
            assert forall|k: int| 0 <= k < items.len() implies !occurs(
                v,
                #[trigger] items[k],
            ) by {
                if occurs(v, items[k]) {
                    lemma_occurs_from(v, items, 0, k);
                }
            }
        },
        TypeModel::Record(fields) => {
            assert forall|k: int| 0 <= k < fields.len() implies !occurs(
                v,
                (#[trigger] fields[k]).1,
            ) by {
                if occurs(v, fields[k].1) {
                    lemma_occurs_in_fields(v, fields, 0, k);
                }
            }
        },
        _ => {},
    }
}

/// Replacing a variable that does not occur changes nothing.
proof fn lemma_subst_absent(u: TypeModel, x: Seq<char>, r: TypeModel)
    requires
        !occurs(x, u),
    ensures
        subst_var(u, x, r) == u,
    decreases u,
{
    let op = VarOpModel::Replace(x, r);
    lemma_map_vars(u, op);
    lemma_parts_without(x, u);
    match u {
        TypeModel::Tag(n, args) => {
            assert forall|k: int| 0 <= k < args.len() implies map_vars_model(args[k], op)
                == args[k] by {
                lemma_subst_absent(args[k], x, r);
            }
            assert(map_all_model(args, op) =~= args);
        },
        TypeModel::Tuple(items) => {
            assert forall|k: int| 0 <= k < items.len() implies map_vars_model(items[k], op)
                == items[k] by {
                lemma_subst_absent(items[k], x, r);
            }
            assert(map_all_model(items, op) =~= items);
        },
        TypeModel::Record(fields) => {
            assert forall|k: int| 0 <= k < fields.len() implies map_vars_model(fields[k].1, op)
                == fields[k].1 by {
                lemma_subst_absent(fields[k].1, x, r);
            }
            assert(map_fields_model(fields, op) =~= fields);
        },
        TypeModel::Fun(a, b) => {
            lemma_subst_absent(*a, x, r);
            lemma_subst_absent(*b, x, r);
        },
        _ => {},
    }
}

/// A variable that does not occur in the new type occurs after a
/// replacement only where it occurred before, and not at all if it is
/// the variable that was replaced.
proof fn lemma_occurs_after_subst(v: Seq<char>, u: TypeModel, x: Seq<char>, t: TypeModel)
    requires
        !occurs(v, t),
        v == x || !occurs(v, u),
    ensures
        !occurs(v, subst_var(u, x, t)),
    decreases u,
{
    let op = VarOpModel::Replace(x, t);
    lemma_map_vars(u, op);
    if v != x {
        lemma_parts_without(v, u);
    }
    match u {
        TypeModel::Tag(n, args) => {
            let mapped = map_all_model(args, op);
            assert forall|k: int| 0 <= k < mapped.len() implies !occurs(
                v,
                #[trigger] mapped[k],
            ) by {
                lemma_occurs_after_subst(v, args[k], x, t);
            }
            lemma_occurs_nowhere(v, mapped, 0);
        },
        TypeModel::Tuple(items) => {
            let mapped = map_all_model(items, op);
            assert forall|k: int| 0 <= k < mapped.len() implies !occurs(
                v,
                #[trigger] mapped[k],
            ) by {
                lemma_occurs_after_subst(v, items[k], x, t);
            }
            lemma_occurs_nowhere(v, mapped, 0);
        },
        TypeModel::Record(fields) => {
            let mapped = map_fields_model(fields, op);
            assert forall|k: int| 0 <= k < mapped.len() implies !occurs(
                v,
                (#[trigger] mapped[k]).1,
            ) by {
                lemma_occurs_after_subst(v, fields[k].1, x, t);
            }
            lemma_occurs_in_no_field(v, mapped, 0);
        },
        TypeModel::Fun(a, b) => {
            lemma_occurs_after_subst(v, *a, x, t);
            lemma_occurs_after_subst(v, *b, x, t);
        },
        _ => {},
    }
}

/// Applying bindings to a type of some shape is applying them to its
/// parts.
pub proof fn lemma_apply_parts(s: Subst, t: TypeModel, k: nat)
    ensures
        t matches TypeModel::Tag(n, args) ==> apply_from(s, t, k) == TypeModel::Tag(
            n,
            apply_all(s, args, k),
        ),
        t matches TypeModel::Tuple(items) ==> apply_from(s, t, k) == TypeModel::Tuple(
            apply_all(s, items, k),
        ),
        t matches TypeModel::Record(fields) ==> apply_from(s, t, k) == TypeModel::Record(
            apply_fields(s, fields, k),
        ),
        t matches TypeModel::Fun(a, b) ==> apply_from(s, t, k) == TypeModel::Fun(
            Box::new(apply_from(s, *a, k)),
            Box::new(apply_from(s, *b, k)),
        ),
        t is Unit ==> apply_from(s, t, k) == t,
    decreases s.len() - k,
{
    if k >= s.len() {
        match t {
            TypeModel::Tag(n, args) => {
                assert(apply_all(s, args, k) =~= args);
            },
            TypeModel::Tuple(items) => {
                assert(apply_all(s, items, k) =~= items);
            },
            TypeModel::Record(fields) => {
                assert(apply_fields(s, fields, k) =~= fields);
            },
            _ => {},
        }
    } else {
        let op = VarOpModel::Replace(s[k as int].0, s[k as int].1);
        let next = subst_var(t, s[k as int].0, s[k as int].1);
        lemma_map_vars(t, op);
        lemma_apply_parts(s, next, k + 1);
        match t {
            TypeModel::Tag(n, args) => {
                assert(apply_all(s, map_all_model(args, op), k + 1) =~= apply_all(s, args, k));
            },
            TypeModel::Tuple(items) => {
                assert(apply_all(s, map_all_model(items, op), k + 1) =~= apply_all(s, items, k));
            },
            TypeModel::Record(fields) => {
                assert(apply_fields(s, map_fields_model(fields, op), k + 1) =~= apply_fields(
                    s,
                    fields,
                    k,
                ));
            },
            _ => {},
        }
    }
}

/// Applying bindings to a type that holds none of their variables changes
/// nothing.
proof fn lemma_apply_resolved(s: Subst, t: TypeModel, k: nat)
    requires
        resolved_under(s, t),
    ensures
        apply_from(s, t, k) == t,
    decreases s.len() - k,
{
    if k < s.len() {
        assert(unbound_at(s, k as int, t));
        lemma_subst_absent(t, s[k as int].0, s[k as int].1);
        lemma_apply_resolved(s, t, k + 1);
    }
}

/// Once well-formed bindings are applied from place `k` on to a type that
/// holds no variable of the bindings before `k`, the type holds none of
/// their variables at all.
proof fn lemma_apply_resolves(s: Subst, t: TypeModel, k: nat)
    requires
        well_formed(s),
        k <= s.len(),
        forall|i: int| 0 <= i < k ==> #[trigger] unbound_at(s, i, t),
    ensures
        resolved_under(s, apply_from(s, t, k)),
    decreases s.len() - k,
{
    if k < s.len() {
        let x = s[k as int].0;
        let r = s[k as int].1;
        let next = subst_var(t, x, r);
        assert forall|i: int| 0 <= i < k + 1 implies #[trigger] unbound_at(s, i, next) by {
            assert(clean_at(s, i, k as int));
            if i < k {
                assert(unbound_at(s, i, t));
            }
            lemma_occurs_after_subst(s[i].0, t, x, r);
        }
        lemma_apply_resolves(s, next, k + 1);
    }
}

/// Where `s` is the start of `longer`, applying `longer` is applying `s`
/// and then the rest.
proof fn lemma_apply_prefix(s: Subst, longer: Subst, t: TypeModel, k: nat)
    requires
        starts_with(longer, s),
        k <= s.len(),
    ensures
        apply_from(longer, t, k) == apply_from(longer, apply_from(s, t, k), s.len()),
    decreases s.len() - k,
{
    if k < s.len() {
        assert(longer.take(s.len() as int)[k as int] == longer[k as int]);
        lemma_apply_prefix(s, longer, subst_var(t, s[k as int].0, s[k as int].1), k + 1);
    }
}

/// Two types that `s` makes equal, every extension of `s` makes equal.
proof fn lemma_resolve_stable(s: Subst, longer: Subst, a: TypeModel, b: TypeModel)
    requires
        starts_with(longer, s),
        resolve_model(s, a) == resolve_model(s, b),
    ensures
        resolve_model(longer, a) == resolve_model(longer, b),
{
    lemma_apply_prefix(s, longer, a, 0);
    lemma_apply_prefix(s, longer, b, 0);
}

/// Resolving a type under well-formed bindings first changes nothing for
/// an extension of them.
proof fn lemma_resolve_twice(s: Subst, longer: Subst, a: TypeModel)
    requires
        well_formed(s),
        starts_with(longer, s),
    ensures
        resolve_model(longer, resolve_model(s, a)) == resolve_model(longer, a),
{
    let ra = resolve_model(s, a);
    lemma_apply_resolves(s, a, 0);
    lemma_apply_resolved(s, ra, 0);
    lemma_apply_prefix(s, longer, ra, 0);
    lemma_apply_prefix(s, longer, a, 0);
}

/// A new binding of a variable to a type that holds neither it nor a
/// bound variable keeps the bindings well-formed, and makes the variable
/// and the type equal.
proof fn lemma_bind(x: Seq<char>, t: TypeModel, s: Subst)
    requires
        well_formed(s),
        resolved_under(s, TypeModel::Var(x)),
        resolved_under(s, t),
        bind_model(x, t, s) is Ok,
    ensures
        well_formed(bind_model(x, t, s)->Ok_0),
        starts_with(bind_model(x, t, s)->Ok_0, s),
        resolve_model(bind_model(x, t, s)->Ok_0, TypeModel::Var(x)) == resolve_model(
            bind_model(x, t, s)->Ok_0,
            t,
        ),
{
    let s1 = s.push((x, t));
    assert(s1.take(s.len() as int) =~= s);
    assert forall|i: int, j: int| 0 <= i <= j < s1.len() implies #[trigger] clean_at(
        s1,
        i,
        j,
    ) by {
        if j < s.len() {
            assert(clean_at(s, i, j));
        } else if i < s.len() {
            assert(unbound_at(s, i, t));
        }
    }
    let v = TypeModel::Var(x);
    lemma_apply_prefix(s, s1, v, 0);
    lemma_apply_prefix(s, s1, t, 0);
    lemma_apply_resolved(s, v, 0);
    lemma_apply_resolved(s, t, 0);
    lemma_subst_absent(t, x, t);
    assert(apply_from(s1, v, s.len()) == apply_from(s1, subst_var(v, x, t), s.len() + 1));
    assert(apply_from(s1, t, s.len()) == apply_from(s1, subst_var(t, x, t), s.len() + 1));
}

/// Unification of two types that hold no bound variable, under
/// well-formed bindings: the bindings it hands back are well-formed,
/// begin with those it was given, and make the two types equal.
pub proof fn law_unify_makes_equal(a: TypeModel, b: TypeModel, s: Subst)
    requires
        well_formed(s),
        resolved_under(s, a),
        resolved_under(s, b),
        unify_model(a, b, s) is Ok,
    ensures
        well_formed(unify_model(a, b, s)->Ok_0),
        starts_with(unify_model(a, b, s)->Ok_0, s),
        resolve_model(unify_model(a, b, s)->Ok_0, a) == resolve_model(
            unify_model(a, b, s)->Ok_0,
            b,
        ),
    decreases binding_limit() - s.len(), a, 1nat, 0nat,
{
    let s1 = unify_model(a, b, s)->Ok_0;
    assert(s.take(s.len() as int) =~= s);
    match (a, b) {
        (TypeModel::Var(x), TypeModel::Var(y)) => {
            if x == y {
            } else if is_number_name(x) && !is_number_name(y) {
                lemma_bind(y, a, s);
            } else {
                lemma_bind(x, b, s);
            }
        },
        (TypeModel::Var(x), _) => {
            lemma_bind(x, b, s);
        },
        (_, TypeModel::Var(y)) => {
            lemma_bind(y, a, s);
        },
        (TypeModel::Tag(n, xs), TypeModel::Tag(m, ys)) => {
            lemma_parts_under(s, a);
            lemma_parts_under(s, b);
            lemma_unify_all(xs, ys, 0, s.len(), s);
            lemma_apply_parts(s1, a, 0);
            lemma_apply_parts(s1, b, 0);
            assert(apply_all(s1, xs, 0) =~= apply_all(s1, ys, 0));
        },
        (TypeModel::Fun(a1, a2), TypeModel::Fun(b1, b2)) => {
            lemma_parts_under(s, a);
            lemma_parts_under(s, b);
            law_unify_makes_equal(*a1, *b1, s);
            let mid = unify_model(*a1, *b1, s)->Ok_0;
            assert(mid.take(s.len() as int) =~= s);
            lemma_unify_part(*a2, *b2, s.len(), mid);
            assert(s1.take(s.len() as int) =~= s) by {
                assert(s1.take(mid.len() as int).take(s.len() as int) =~= s1.take(
                    s.len() as int,
                ));
            }
            lemma_resolve_stable(mid, s1, *a1, *b1);
            lemma_apply_parts(s1, a, 0);
            lemma_apply_parts(s1, b, 0);
        },
        (TypeModel::Tuple(xs), TypeModel::Tuple(ys)) => {
            lemma_parts_under(s, a);
            lemma_parts_under(s, b);
            lemma_unify_all(xs, ys, 0, s.len(), s);
            lemma_apply_parts(s1, a, 0);
            lemma_apply_parts(s1, b, 0);
            assert(apply_all(s1, xs, 0) =~= apply_all(s1, ys, 0));
        },
        (TypeModel::Record(fs), TypeModel::Record(gs)) => {
            lemma_parts_under(s, a);
            lemma_parts_under(s, b);
            lemma_unify_fields(fs, gs, 0, s.len(), s);
            lemma_apply_parts(s1, a, 0);
            lemma_apply_parts(s1, b, 0);
            assert(apply_fields(s1, fs, 0) =~= apply_fields(s1, gs, 0));
        },
        _ => {},
    }
}

/// The parts of a type that holds no bound variable hold none.
proof fn lemma_parts_under(s: Subst, t: TypeModel)
    requires
        resolved_under(s, t),
    ensures
        t matches TypeModel::Tag(_, args) ==> forall|k: int|
            0 <= k < args.len() ==> resolved_under(s, #[trigger] args[k]),
        t matches TypeModel::Tuple(items) ==> forall|k: int|
            0 <= k < items.len() ==> resolved_under(s, #[trigger] items[k]),
        t matches TypeModel::Record(fields) ==> forall|k: int|
            0 <= k < fields.len() ==> resolved_under(s, (#[trigger] fields[k]).1),
        t matches TypeModel::Fun(a, b) ==> resolved_under(s, *a) && resolved_under(s, *b),
{
    assert forall|i: int| 0 <= i < s.len() implies !occurs(s[i].0, t) by {
        assert(unbound_at(s, i, t));
    }
    match t {
        TypeModel::Tag(_, args) => {
            assert forall|k: int| 0 <= k < args.len() implies resolved_under(
                s,
                #[trigger] args[k],
            ) by {
                assert forall|i: int| 0 <= i < s.len() implies #[trigger] unbound_at(
                    s,
                    i,
                    args[k],
                ) by {
                    lemma_parts_without(s[i].0, t);
                }
            }
        },
        TypeModel::Tuple(items) => {
            assert forall|k: int| 0 <= k < items.len() implies resolved_under(
                s,
                #[trigger] items[k],
            ) by {
                assert forall|i: int| 0 <= i < s.len() implies #[trigger] unbound_at(
                    s,
                    i,
                    items[k],
                ) by {
                    lemma_parts_without(s[i].0, t);
                }
            }
        },
        TypeModel::Record(fields) => {
            assert forall|k: int| 0 <= k < fields.len() implies resolved_under(
                s,
                (#[trigger] fields[k]).1,
            ) by {
                assert forall|i: int| 0 <= i < s.len() implies #[trigger] unbound_at(
                    s,
                    i,
                    fields[k].1,
                ) by {
                    lemma_parts_without(s[i].0, t);
                }
            }
        },
        TypeModel::Fun(a, b) => {
            assert forall|i: int| 0 <= i < s.len() implies #[trigger] unbound_at(s, i, *a) by {
                lemma_parts_without(s[i].0, t);
            }
            assert forall|i: int| 0 <= i < s.len() implies #[trigger] unbound_at(s, i, *b) by {
                lemma_parts_without(s[i].0, t);
            }
        },
        _ => {},
    }
}

/// Unification of two types that held no bound variable when there were
/// `base` bindings.
proof fn lemma_unify_part(a: TypeModel, b: TypeModel, base: nat, s: Subst)
    requires
        well_formed(s),
        base <= s.len(),
        resolved_under(s.take(base as int), a),
        resolved_under(s.take(base as int), b),
        unify_part_model(a, b, base, s) is Ok,
    ensures
        well_formed(unify_part_model(a, b, base, s)->Ok_0),
        starts_with(unify_part_model(a, b, base, s)->Ok_0, s),
        resolve_model(unify_part_model(a, b, base, s)->Ok_0, a) == resolve_model(
            unify_part_model(a, b, base, s)->Ok_0,
            b,
        ),
    decreases binding_limit() - base, a, 2nat, 0nat,
{
    if s.len() == base {
        assert(s.take(base as int) =~= s);
        law_unify_makes_equal(a, b, s);
    } else {
        let ra = resolve_model(s, a);
        let rb = resolve_model(s, b);
        lemma_apply_resolves(s, a, 0);
        lemma_apply_resolves(s, b, 0);
        law_unify_makes_equal(ra, rb, s);
        let s1 = unify_model(ra, rb, s)->Ok_0;
        lemma_resolve_twice(s, s1, a);
        lemma_resolve_twice(s, s1, b);
    }
}

/// Unification of the types of two lists from place `i` on, which held
/// no bound variable when there were `base` bindings.
proof fn lemma_unify_all(xs: Seq<TypeModel>, ys: Seq<TypeModel>, i: nat, base: nat, s: Subst)
    requires
        well_formed(s),
        base <= s.len(),
        xs.len() == ys.len(),
        forall|k: int| 0 <= k < xs.len() ==> resolved_under(s.take(base as int), #[trigger] xs[k]),
        forall|k: int| 0 <= k < ys.len() ==> resolved_under(s.take(base as int), #[trigger] ys[k]),
        unify_all_model(xs, ys, i, base, s) is Ok,
    ensures
        well_formed(unify_all_model(xs, ys, i, base, s)->Ok_0),
        starts_with(unify_all_model(xs, ys, i, base, s)->Ok_0, s),
        forall|k: int|
            i <= k < xs.len() ==> resolve_model(
                unify_all_model(xs, ys, i, base, s)->Ok_0,
                #[trigger] xs[k],
            ) == resolve_model(unify_all_model(xs, ys, i, base, s)->Ok_0, ys[k]),
    decreases binding_limit() - base, xs, 0nat, xs.len() - i,
{
    let s1 = unify_all_model(xs, ys, i, base, s)->Ok_0;
    assert(s.take(s.len() as int) =~= s);
    if i < xs.len() {
        lemma_unify_part(xs[i as int], ys[i as int], base, s);
        let mid = unify_part_model(xs[i as int], ys[i as int], base, s)->Ok_0;
        assert(mid.take(base as int) =~= s.take(base as int)) by {
            assert(mid.take(s.len() as int).take(base as int) =~= mid.take(base as int));
        }
        lemma_unify_all(xs, ys, i + 1, base, mid);
        assert(s1.take(s.len() as int) =~= s) by {
            assert(s1.take(mid.len() as int).take(s.len() as int) =~= s1.take(s.len() as int));
        }
        lemma_resolve_stable(mid, s1, xs[i as int], ys[i as int]);
    }
}

/// Unification of the types of the fields of two records from place `i`
/// on, which held no bound variable when there were `base` bindings.
proof fn lemma_unify_fields(
    fs: Seq<(Seq<char>, TypeModel)>,
    gs: Seq<(Seq<char>, TypeModel)>,
    i: nat,
    base: nat,
    s: Subst,
)
    requires
        well_formed(s),
        base <= s.len(),
        fs.len() == gs.len(),
        forall|k: int|
            0 <= k < fs.len() ==> resolved_under(s.take(base as int), (#[trigger] fs[k]).1),
        forall|k: int|
            0 <= k < gs.len() ==> resolved_under(s.take(base as int), (#[trigger] gs[k]).1),
        unify_fields_model(fs, gs, i, base, s) is Ok,
    ensures
        well_formed(unify_fields_model(fs, gs, i, base, s)->Ok_0),
        starts_with(unify_fields_model(fs, gs, i, base, s)->Ok_0, s),
        forall|k: int|
            i <= k < fs.len() ==> (#[trigger] fs[k]).0 == gs[k].0 && resolve_model(
                unify_fields_model(fs, gs, i, base, s)->Ok_0,
                fs[k].1,
            ) == resolve_model(unify_fields_model(fs, gs, i, base, s)->Ok_0, gs[k].1),
    decreases binding_limit() - base, fs, 0nat, fs.len() - i,
{
    let s1 = unify_fields_model(fs, gs, i, base, s)->Ok_0;
    assert(s.take(s.len() as int) =~= s);
    if i < fs.len() {
        lemma_unify_part(fs[i as int].1, gs[i as int].1, base, s);
        let mid = unify_part_model(fs[i as int].1, gs[i as int].1, base, s)->Ok_0;
        assert(mid.take(base as int) =~= s.take(base as int)) by {
            assert(mid.take(s.len() as int).take(base as int) =~= mid.take(base as int));
        }
        lemma_unify_fields(fs, gs, i + 1, base, mid);
        assert(s1.take(s.len() as int) =~= s) by {
            assert(s1.take(mid.len() as int).take(s.len() as int) =~= s1.take(s.len() as int));
        }
        lemma_resolve_stable(mid, s1, fs[i as int].1, gs[i as int].1);
    }
}

/// Where the analyzer could make two types equal, they are equal once
/// resolved, and the bindings are well-formed as they were before.
pub proof fn law_unified_types_are_equal(env: StaticEnvModel, a: TypeModel, b: TypeModel)
    requires
        well_formed(env.substitution),
        unified(env, a, b).is_some(),
    ensures
        well_formed(after_unify(env, a, b).substitution),
        starts_with(after_unify(env, a, b).substitution, env.substitution),
        resolved(after_unify(env, a, b), a) == resolved(after_unify(env, a, b), b),
{
    let s = env.substitution;
    let ra = resolve_model(s, a);
    let rb = resolve_model(s, b);
    lemma_apply_resolves(s, a, 0);
    lemma_apply_resolves(s, b, 0);
    law_unify_makes_equal(ra, rb, s);
    let s1 = unify_model(ra, rb, s)->Ok_0;
    lemma_resolve_twice(s, s1, a);
    lemma_resolve_twice(s, s1, b);
}

} // verus!
