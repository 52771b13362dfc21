//! Type variables and their substitution: fresh names, renaming,
//! replacing a variable by a type, and unification.
use vstd::prelude::*;
use vstd::string::{StrSliceExecFns, StringExecFns};

use crate::analyzer::{plain_tag, type_tag};
use crate::ast::{field_models, lemma_type_model, type_models, Type, TypeModel};

verus! {

/// The bindings of type variables, in the order in which they were made.
/// Applying them replaces each variable in that order.
pub type Subst = Seq<(Seq<char>, TypeModel)>;

/// How many bindings a substitution may hold.
pub open spec fn binding_limit() -> nat {
    usize::MAX as nat
}

/// The digit `d` as a character.
pub open spec fn digit_char(d: nat) -> char {
    if d == 0 {
        '0'
    } else if d == 1 {
        '1'
    } else if d == 2 {
        '2'
    } else if d == 3 {
        '3'
    } else if d == 4 {
        '4'
    } else if d == 5 {
        '5'
    } else if d == 6 {
        '6'
    } else if d == 7 {
        '7'
    } else if d == 8 {
        '8'
    } else {
        '9'
    }
}

/// The decimal digits of `n`.
pub open spec fn digits_model(n: nat) -> Seq<char>
    decreases n,
{
    if n < 10 {
        seq![digit_char(n)]
    } else {
        digits_model(n / 10).push(digit_char(n % 10))
    }
}

/// The mark that tells the `n`-th use of a name from every other:
/// `#` and the digits of `n`.
pub open spec fn suffix_model(n: nat) -> Seq<char> {
    "#"@ + digits_model(n)
}

/// Whether a type variable stands for a number only: its name begins with
/// `number`.
pub open spec fn is_number_name(s: Seq<char>) -> bool {
    s.len() >= 6 && s[0] == 'n' && s[1] == 'u' && s[2] == 'm' && s[3] == 'b' && s[4] == 'e'
        && s[5] == 'r'
}

/// Whether a type is one that a number can have.
pub open spec fn is_numeric(t: TypeModel) -> bool {
    t == plain_tag("Int"@) || t == plain_tag("Float"@) || (t matches TypeModel::Var(y)
        && is_number_name(y))
}

/// What is done to each variable of a type.
pub enum VarOpModel {
    /// The suffix is added to its name.
    Rename(Seq<char>),
    /// The variable of this name gives way to the type.
    Replace(Seq<char>, TypeModel),
    /// A number variable becomes `Int`.
    DefaultNumbers,
}

/// What becomes of the variable `n`.
pub open spec fn op_on_var(op: VarOpModel, n: Seq<char>) -> TypeModel {
    match op {
        VarOpModel::Rename(suffix) => TypeModel::Var(n + suffix),
        VarOpModel::Replace(v, r) => if n == v {
            r
        } else {
            TypeModel::Var(n)
        },
        VarOpModel::DefaultNumbers => if is_number_name(n) {
            plain_tag("Int"@)
        } else {
            TypeModel::Var(n)
        },
    }
}

/// The type after `op` was done to each of its variables.
pub open spec fn map_vars_model(t: TypeModel, op: VarOpModel) -> TypeModel
    decreases t,
{
    match t {
        TypeModel::Var(n) => op_on_var(op, n),
        TypeModel::Tag(n, args) => TypeModel::Tag(
            n,
            Seq::new(
                args.len(),
                |i: int|
                    if 0 <= i < args.len() {
                        map_vars_model(args[i], op)
                    } else {
                        TypeModel::Unit
                    },
            ),
        ),
        TypeModel::Fun(a, b) => TypeModel::Fun(
            Box::new(map_vars_model(*a, op)),
            Box::new(map_vars_model(*b, op)),
        ),
        TypeModel::Tuple(items) => TypeModel::Tuple(
            Seq::new(
                items.len(),
                |i: int|
                    if 0 <= i < items.len() {
                        map_vars_model(items[i], op)
                    } else {
                        TypeModel::Unit
                    },
            ),
        ),
        TypeModel::Record(fields) => TypeModel::Record(
            Seq::new(
                fields.len(),
                |i: int|
                    if 0 <= i < fields.len() {
                        (fields[i].0, map_vars_model(fields[i].1, op))
                    } else {
                        (Seq::empty(), TypeModel::Unit)
                    },
            ),
        ),
        TypeModel::Unit => TypeModel::Unit,
    }
}

/// The type with `suffix` added to the name of every variable.
pub open spec fn rename_model(t: TypeModel, suffix: Seq<char>) -> TypeModel {
    map_vars_model(t, VarOpModel::Rename(suffix))
}

/// The type with `r` in place of the variable `v`.
pub open spec fn subst_var(t: TypeModel, v: Seq<char>, r: TypeModel) -> TypeModel {
    map_vars_model(t, VarOpModel::Replace(v, r))
}

/// The type with `Int` in place of every number variable.
pub open spec fn default_numbers_model(t: TypeModel) -> TypeModel {
    map_vars_model(t, VarOpModel::DefaultNumbers)
}

/// The type after the bindings from place `i` on were applied in order.
pub open spec fn apply_from(s: Subst, t: TypeModel, i: nat) -> TypeModel
    decreases s.len() - i,
{
    if i >= s.len() {
        t
    } else {
        apply_from(s, subst_var(t, s[i as int].0, s[i as int].1), i + 1)
    }
}

/// The type after all bindings were applied.
pub open spec fn resolve_model(s: Subst, t: TypeModel) -> TypeModel {
    apply_from(s, t, 0)
}

/// Whether the variable `v` occurs in `t`.
pub open spec fn occurs(v: Seq<char>, t: TypeModel) -> bool
    decreases t, 0nat,
{
    match t {
        TypeModel::Var(n) => n == v,
        TypeModel::Tag(_, args) => occurs_from(v, args, 0),
        TypeModel::Fun(a, b) => occurs(v, *a) || occurs(v, *b),
        TypeModel::Tuple(items) => occurs_from(v, items, 0),
        TypeModel::Record(fields) => occurs_in_fields(v, fields, 0),
        TypeModel::Unit => false,
    }
}

/// Whether the variable `v` occurs in one of the types from place `i` on.
pub open spec fn occurs_from(v: Seq<char>, items: Seq<TypeModel>, i: nat) -> bool
    decreases items, items.len() - i,
{
    i < items.len() && (occurs(v, items[i as int]) || occurs_from(v, items, i + 1))
}

/// Whether the variable `v` occurs in the type of one of the fields from
/// place `i` on.
pub open spec fn occurs_in_fields(v: Seq<char>, fields: Seq<(Seq<char>, TypeModel)>, i: nat) -> bool
    decreases fields, fields.len() - i,
{
    i < fields.len() && (occurs(v, fields[i as int].1) || occurs_in_fields(v, fields, i + 1))
}

/// How unification ends: with the bindings extended, or with the two
/// types that cannot be made equal.
pub type UnifyResult = Result<Subst, (TypeModel, TypeModel)>;

/// The bindings with `x` bound to `t`. A variable is not bound to a type
/// that holds it, a number variable only to a type that a number can
/// have, and no binding is made beyond the limit.
pub open spec fn bind_model(x: Seq<char>, t: TypeModel, s: Subst) -> UnifyResult {
    if occurs(x, t) || (is_number_name(x) && !is_numeric(t)) || s.len() >= binding_limit() {
        Err((TypeModel::Var(x), t))
    } else {
        Ok(s.push((x, t)))
    }
}

/// The bindings after `a` and `b` were made equal. Both are taken as
/// resolved under `s`. Two types of one shape are made equal part by
/// part, a variable is bound to what it meets.
pub open spec fn unify_model(a: TypeModel, b: TypeModel, s: Subst) -> UnifyResult
    decreases binding_limit() - s.len(), a, 1nat, 0nat,
{
    match (a, b) {
        (TypeModel::Var(x), TypeModel::Var(y)) => if x == y {
            Ok(s)
        } else if is_number_name(x) && !is_number_name(y) {
            bind_model(y, a, s)
        } else {
            bind_model(x, b, s)
        },
        (TypeModel::Var(x), _) => bind_model(x, b, s),
        (_, TypeModel::Var(y)) => bind_model(y, a, s),
        (TypeModel::Tag(n, xs), TypeModel::Tag(m, ys)) => if n == m && xs.len() == ys.len() {
            unify_all_model(xs, ys, 0, s.len(), s)
        } else {
            Err((a, b))
        },
        (TypeModel::Fun(a1, a2), TypeModel::Fun(b1, b2)) => match unify_model(*a1, *b1, s) {
            Err(e) => Err(e),
            Ok(s1) => unify_part_model(*a2, *b2, s.len(), s1),
        },
        (TypeModel::Tuple(xs), TypeModel::Tuple(ys)) => if xs.len() == ys.len() {
            unify_all_model(xs, ys, 0, s.len(), s)
        } else {
            Err((a, b))
        },
        (TypeModel::Record(fs), TypeModel::Record(gs)) => if fs.len() == gs.len() {
            unify_fields_model(fs, gs, 0, s.len(), s)
        } else {
            Err((a, b))
        },
        (TypeModel::Unit, TypeModel::Unit) => Ok(s),
        _ => Err((a, b)),
    }
}

/// Unifies two types that were resolved when there were `base` bindings:
/// as they are where there are no more now, resolved again otherwise.
pub open spec fn unify_part_model(a: TypeModel, b: TypeModel, base: nat, s: Subst) -> UnifyResult
    decreases binding_limit() - base, a, 2nat, 0nat,
{
    if s.len() == base {
        unify_model(a, b, s)
    } else if base < s.len() <= binding_limit() {
        unify_model(resolve_model(s, a), resolve_model(s, b), s)
    } else {
        Err((a, b))
    }
}

/// The bindings after the types from place `i` on were made equal, each
/// to the one at its place. The lists were resolved when there were `base`
/// bindings.
pub open spec fn unify_all_model(
    xs: Seq<TypeModel>,
    ys: Seq<TypeModel>,
    i: nat,
    base: nat,
    s: Subst,
) -> UnifyResult
    decreases binding_limit() - base, xs, 0nat, xs.len() - i,
{
    if i >= xs.len() || i >= ys.len() {
        Ok(s)
    } else if s.len() < base {
        Err((xs[i as int], ys[i as int]))
    } else {
        match unify_part_model(xs[i as int], ys[i as int], base, s) {
            Err(e) => Err(e),
            Ok(s1) => unify_all_model(xs, ys, i + 1, base, s1),
        }
    }
}

/// Unifies the types of two records field by field; the names have to be
/// the same, in the same order.
pub open spec fn unify_fields_model(
    fs: Seq<(Seq<char>, TypeModel)>,
    gs: Seq<(Seq<char>, TypeModel)>,
    i: nat,
    base: nat,
    s: Subst,
) -> UnifyResult
    decreases binding_limit() - base, fs, 0nat, fs.len() - i,
{
    if i >= fs.len() || i >= gs.len() {
        Ok(s)
    } else if s.len() < base || fs[i as int].0 != gs[i as int].0 {
        Err((TypeModel::Record(fs), TypeModel::Record(gs)))
    } else {
        match unify_part_model(fs[i as int].1, gs[i as int].1, base, s) {
            Err(e) => Err(e),
            Ok(s1) => unify_fields_model(fs, gs, i + 1, base, s1),
        }
    }
}

/// What is done to each variable of a type.
pub enum VarOp<'a> {
    Rename(&'a String),
    Replace(&'a String, &'a Type),
    DefaultNumbers,
}

impl<'a> View for VarOp<'a> {
    type V = VarOpModel;

    open spec fn view(&self) -> VarOpModel {
        match self {
            VarOp::Rename(suffix) => VarOpModel::Rename(suffix@),
            VarOp::Replace(v, r) => VarOpModel::Replace(v@, r@),
            VarOp::DefaultNumbers => VarOpModel::DefaultNumbers,
        }
    }
}

/// The types after `op` was done to the variables of each.
pub open spec fn map_all_model(items: Seq<TypeModel>, op: VarOpModel) -> Seq<TypeModel> {
    Seq::new(items.len(), |i: int| map_vars_model(items[i], op))
}

/// The fields after `op` was done to the variables of each.
pub open spec fn map_fields_model(fields: Seq<(Seq<char>, TypeModel)>, op: VarOpModel) -> Seq<
    (Seq<char>, TypeModel),
> {
    Seq::new(fields.len(), |i: int| (fields[i].0, map_vars_model(fields[i].1, op)))
}

/// What `map_vars_model` makes of each shape of type.
pub proof fn lemma_map_vars(t: TypeModel, op: VarOpModel)
    ensures
        t matches TypeModel::Tag(n, args) ==> map_vars_model(t, op) == TypeModel::Tag(
            n,
            map_all_model(args, op),
        ),
        t matches TypeModel::Tuple(items) ==> map_vars_model(t, op) == TypeModel::Tuple(
            map_all_model(items, op),
        ),
        t matches TypeModel::Record(fields) ==> map_vars_model(t, op) == TypeModel::Record(
            map_fields_model(fields, op),
        ),
{
    match t {
        TypeModel::Tag(n, args) => {
            assert(map_vars_model(t, op)->Tag_1 =~= map_all_model(args, op));
        },
        TypeModel::Tuple(items) => {
            assert(map_vars_model(t, op)->Tuple_0 =~= map_all_model(items, op));
        },
        TypeModel::Record(fields) => {
            assert(map_vars_model(t, op)->Record_0 =~= map_fields_model(fields, op));
        },
        _ => {},
    }
}

/// The digit `d` as a text.
fn digit_str(d: u64) -> (r: &'static str)
    requires
        d < 10,
    ensures
        r@ == seq![digit_char(d as nat)],
{
    proof {
        reveal_strlit("0");
        reveal_strlit("1");
        reveal_strlit("2");
        reveal_strlit("3");
        reveal_strlit("4");
        reveal_strlit("5");
        reveal_strlit("6");
        reveal_strlit("7");
        reveal_strlit("8");
        reveal_strlit("9");
    }
    let r = if d == 0 {
        "0"
    } else if d == 1 {
        "1"
    } else if d == 2 {
        "2"
    } else if d == 3 {
        "3"
    } else if d == 4 {
        "4"
    } else if d == 5 {
        "5"
    } else if d == 6 {
        "6"
    } else if d == 7 {
        "7"
    } else if d == 8 {
        "8"
    } else {
        "9"
    };
    assert(r@ =~= seq![digit_char(d as nat)]);
    r
}

/// The decimal digits of `n`.
pub fn digits(n: u64) -> (r: String)
    ensures
        r@ == digits_model(n as nat),
    decreases n,
{
    if n < 10 {
        String::from_str(digit_str(n))
    } else {
        let mut s = digits(n / 10);
        s.append(digit_str(n % 10));
        assert(s@ =~= digits_model((n / 10) as nat).push(digit_char((n % 10) as nat)));
        s
    }
}

/// The mark of the `n`-th use of a name.
pub fn suffix(n: u64) -> (r: String)
    ensures
        r@ == suffix_model(n as nat),
{
    let mut s = String::from_str("#");
    let d = digits(n);
    s.append(d.as_str());
    s
}

/// Whether the name is that of a number variable.
pub fn is_number_var(name: &String) -> (r: bool)
    ensures
        r == is_number_name(name@),
{
    let s = name.as_str();
    if s.unicode_len() < 6 {
        false
    } else {
        s.get_char(0) == 'n' && s.get_char(1) == 'u' && s.get_char(2) == 'm' && s.get_char(3)
            == 'b' && s.get_char(4) == 'e' && s.get_char(5) == 'r'
    }
}

/// Whether the type is the nominal type `name` without arguments.
pub fn is_plain_tag(t: &Type, name: &str) -> (r: bool)
    ensures
        r == (t@ == plain_tag(name@)),
{
    proof {
        lemma_type_model(t);
    }
    match t {
        Type::Tag(n, args) => {
            let r = *n == String::from_str(name) && args.len() == 0;
            proof {
                if r {
                    assert(type_models(args@) =~= Seq::<TypeModel>::empty());
                } else if args.len() != 0 {
                    assert(type_models(args@).len() != 0);
                }
            }
            r
        },
        _ => false,
    }
}

/// Whether the type is one that a number can have.
pub fn is_numeric_type(t: &Type) -> (r: bool)
    ensures
        r == is_numeric(t@),
{
    proof {
        lemma_type_model(t);
    }
    if is_plain_tag(t, "Int") || is_plain_tag(t, "Float") {
        true
    } else {
        match t {
            Type::Var(y) => is_number_var(y),
            _ => false,
        }
    }
}

/// What `op` makes of the variable `n`.
fn apply_op(op: &VarOp, n: &String) -> (r: Type)
    ensures
        r@ == op_on_var(op@, n@),
{
    let r = match op {
        VarOp::Rename(suffix) => {
            let mut s = n.clone();
            s.append(suffix.as_str());
            Type::Var(s)
        },
        VarOp::Replace(v, r) => {
            if *n == **v {
                (*r).clone()
            } else {
                Type::Var(n.clone())
            }
        },
        VarOp::DefaultNumbers => {
            if is_number_var(n) {
                type_tag("Int")
            } else {
                Type::Var(n.clone())
            }
        },
    };
    proof {
        lemma_type_model(&r);
    }
    r
}

/// Does `op` to each variable of `t`.
pub fn map_vars(t: &Type, op: &VarOp) -> (r: Type)
    ensures
        r@ == map_vars_model(t@, op@),
    decreases t,
{
    proof {
        lemma_type_model(t);
        lemma_map_vars(t@, op@);
    }
    let r = match t {
        Type::Var(n) => apply_op(op, n),
        Type::Tag(n, args) => Type::Tag(n.clone(), map_vars_all(args, op)),
        Type::Fun(a, b) => Type::Fun(Box::new(map_vars(a, op)), Box::new(map_vars(b, op))),
        Type::Tuple(items) => Type::Tuple(map_vars_all(items, op)),
        Type::Record(fields) => {
            let mut out: Vec<(String, Type)> = Vec::new();
            let mut i: usize = 0;
            while i < fields.len()
                invariant
                    i <= fields.len(),
                    out.len() == i,
                    *t matches Type::Record(x) && x == fields,
                    forall|j: int|
                        0 <= j < i ==> out[j].0@ == fields[j].0@ && out[j].1@ == map_vars_model(
                            fields[j].1@,
                            op@,
                        ),
                decreases fields.len() - i,
            {
                out.push((fields[i].0.clone(), map_vars(&fields[i].1, op)));
                i += 1;
            }
            assert(field_models(out@) =~= map_fields_model(field_models(fields@), op@));
            Type::Record(out)
        },
        Type::Unit => Type::Unit,
    };
    proof {
        lemma_type_model(&r);
    }
    r
}

/// Does `op` to each variable of each type.
pub fn map_vars_all(items: &Vec<Type>, op: &VarOp) -> (r: Vec<Type>)
    ensures
        type_models(r@) == map_all_model(type_models(items@), op@),
    decreases items,
{
    let mut out: Vec<Type> = Vec::new();
    let mut i: usize = 0;
    while i < items.len()
        invariant
            i <= items.len(),
            out.len() == i,
            forall|j: int| 0 <= j < i ==> out[j]@ == map_vars_model(items[j]@, op@),
        decreases items.len() - i,
    {
        out.push(map_vars(&items[i], op));
        i += 1;
    }
    assert(type_models(out@) =~= map_all_model(type_models(items@), op@));
    out
}

/// Applies all bindings to `t`, in order.
pub fn resolve(s: &Vec<(String, Type)>, t: &Type) -> (r: Type)
    ensures
        r@ == resolve_model(field_models(s@), t@),
{
    let ghost sm = field_models(s@);
    let mut cur = t.clone();
    let mut i: usize = 0;
    while i < s.len()
        invariant
            i <= s.len(),
            sm == field_models(s@),
            apply_from(sm, cur@, i as nat) == apply_from(sm, t@, 0),
        decreases s.len() - i,
    {
        cur = map_vars(&cur, &VarOp::Replace(&s[i].0, &s[i].1));
        i += 1;
    }
    cur
}

/// Whether the variable `v` occurs in `t`.
pub fn occurs_in(v: &String, t: &Type) -> (r: bool)
    ensures
        r == occurs(v@, t@),
    decreases t, 1nat,
{
    proof {
        lemma_type_model(t);
    }
    match t {
        Type::Var(n) => *n == *v,
        Type::Tag(_, args) => occurs_in_any(v, args),
        Type::Fun(a, b) => occurs_in(v, a) || occurs_in(v, b),
        Type::Tuple(items) => occurs_in_any(v, items),
        Type::Record(fields) => {
            let ghost fm = field_models(fields@);
            let mut i: usize = 0;
            while i < fields.len()
                invariant
                    i <= fields.len(),
                    *t matches Type::Record(x) && x == fields,
                    fm == field_models(fields@),
                    t@ == TypeModel::Record(fm),
                    occurs_in_fields(v@, fm, i as nat) == occurs_in_fields(v@, fm, 0),
                decreases fields.len() - i,
            {
                if occurs_in(v, &fields[i].1) {
                    return true;
                }
                i += 1;
            }
            false
        },
        Type::Unit => false,
    }
}

/// Whether the variable `v` occurs in one of the types.
fn occurs_in_any(v: &String, items: &Vec<Type>) -> (r: bool)
    ensures
        r == occurs_from(v@, type_models(items@), 0),
    decreases items, 0nat,
{
    let ghost im = type_models(items@);
    let mut i: usize = 0;
    while i < items.len()
        invariant
            i <= items.len(),
            im == type_models(items@),
            occurs_from(v@, im, i as nat) == occurs_from(v@, im, 0),
        decreases items.len() - i,
    {
        if occurs_in(v, &items[i]) {
            return true;
        }
        i += 1;
    }
    false
}

/// What a call that returned `r` and left the bindings `after` has to do
/// with the unification `m`.
pub open spec fn unify_done(
    m: UnifyResult,
    r: Result<(), (Type, Type)>,
    after: Seq<(String, Type)>,
) -> bool {
    match m {
        Ok(s1) => r is Ok && field_models(after) == s1,
        Err((x, y)) => r matches Err((p, q)) && p@ == x && q@ == y,
    }
}

/// The bindings `before` are the first of `after`.
pub open spec fn extends(before: Seq<(String, Type)>, after: Seq<(String, Type)>) -> bool {
    before.len() <= after.len() && after.subrange(0, before.len() as int) == before
}

/// Binds the variable `x` to the type `t`, if it may be bound to it.
fn bind(x: &String, t: &Type, s: &mut Vec<(String, Type)>) -> (r: Result<(), (Type, Type)>)
    ensures
        unify_done(bind_model(x@, t@, field_models(old(s)@)), r, final(s)@),
        extends(old(s)@, final(s)@),
{
    assert(s@.subrange(0, s@.len() as int) =~= s@);
    if occurs_in(x, t) || (is_number_var(x) && !is_numeric_type(t)) || s.len() >= usize::MAX {
        let v = Type::Var(x.clone());
        proof {
            lemma_type_model(&v);
        }
        Err((v, t.clone()))
    } else {
        s.push((x.clone(), t.clone()));
        assert(field_models(s@) =~= field_models(old(s)@).push((x@, t@)));
        assert(s@.subrange(0, old(s)@.len() as int) =~= old(s)@);
        Ok(())
    }
}

/// Makes `a` and `b` equal by binding variables. Both are taken as
/// resolved under `s`. Where it fails, `s` may hold some bindings of the
/// attempt after those it held.
pub fn unify(a: &Type, b: &Type, s: &mut Vec<(String, Type)>) -> (r: Result<(), (Type, Type)>)
    ensures
        unify_done(unify_model(a@, b@, field_models(old(s)@)), r, final(s)@),
        extends(old(s)@, final(s)@),
    decreases usize::MAX - old(s).len(), a, 1nat,
{
    proof {
        lemma_type_model(a);
        lemma_type_model(b);
        assert(s@.subrange(0, s@.len() as int) =~= s@);
    }
    match a {
        Type::Var(x) => match b {
            Type::Var(y) => {
                if *x == *y {
                    Ok(())
                } else if is_number_var(x) && !is_number_var(y) {
                    bind(y, a, s)
                } else {
                    bind(x, b, s)
                }
            },
            _ => bind(x, b, s),
        },
        Type::Tag(n, xs) => match b {
            Type::Var(y) => bind(y, a, s),
            Type::Tag(m, ys) => {
                if *n == *m && xs.len() == ys.len() {
                    let base = s.len();
                    unify_all(xs, ys, base, s)
                } else {
                    Err((a.clone(), b.clone()))
                }
            },
            _ => Err((a.clone(), b.clone())),
        },
        Type::Fun(a1, a2) => match b {
            Type::Var(y) => bind(y, a, s),
            Type::Fun(b1, b2) => {
                let base = s.len();
                match unify(a1, b1, s) {
                    Err(e) => Err(e),
                    Ok(()) => {
                        let ghost mid = s@;
                        let r = unify_part(a2, b2, base, s);
                        assert(s@.subrange(0, old(s)@.len() as int) =~= mid.subrange(
                            0,
                            old(s)@.len() as int,
                        ));
                        r
                    },
                }
            },
            _ => Err((a.clone(), b.clone())),
        },
        Type::Tuple(xs) => match b {
            Type::Var(y) => bind(y, a, s),
            Type::Tuple(ys) => {
                if xs.len() == ys.len() {
                    let base = s.len();
                    unify_all(xs, ys, base, s)
                } else {
                    Err((a.clone(), b.clone()))
                }
            },
            _ => Err((a.clone(), b.clone())),
        },
        Type::Record(fs) => match b {
            Type::Var(y) => bind(y, a, s),
            Type::Record(gs) => {
                if fs.len() == gs.len() {
                    let base = s.len();
                    let ghost fm = field_models(fs@);
                    let ghost gm = field_models(gs@);
                    let mut i: usize = 0;
                    while i < fs.len()
                        invariant
                            i <= fs.len(),
                            fs.len() == gs.len(),
                            *a matches Type::Record(x) && x == fs,
                            *b matches Type::Record(x) && x == gs,
                            a@ == TypeModel::Record(fm),
                            b@ == TypeModel::Record(gm),
                            fm == field_models(fs@),
                            gm == field_models(gs@),
                            base == old(s).len(),
                            extends(old(s)@, s@),
                            unify_fields_model(fm, gm, i as nat, base as nat, field_models(s@))
                                == unify_fields_model(
                                fm,
                                gm,
                                0,
                                base as nat,
                                field_models(old(s)@),
                            ),
                        decreases fs.len() - i,
                    {
                        if fs[i].0 != gs[i].0 {
                            return Err((a.clone(), b.clone()));
                        }
                        let ghost mid = s@;
                        match unify_part(&fs[i].1, &gs[i].1, base, s) {
                            Err(e) => {
                                assert(s@.subrange(0, old(s)@.len() as int) =~= mid.subrange(
                                    0,
                                    old(s)@.len() as int,
                                ));
                                return Err(e);
                            },
                            Ok(()) => {
                                assert(s@.subrange(0, old(s)@.len() as int) =~= mid.subrange(
                                    0,
                                    old(s)@.len() as int,
                                ));
                            },
                        }
                        i += 1;
                    }
                    Ok(())
                } else {
                    Err((a.clone(), b.clone()))
                }
            },
            _ => Err((a.clone(), b.clone())),
        },
        Type::Unit => match b {
            Type::Var(y) => bind(y, a, s),
            Type::Unit => Ok(()),
            _ => Err((a.clone(), b.clone())),
        },
    }
}

/// Unifies two types that were resolved when there were `base` bindings.
fn unify_part(a: &Type, b: &Type, base: usize, s: &mut Vec<(String, Type)>) -> (r: Result<
    (),
    (Type, Type),
>)
    requires
        base <= old(s).len(),
    ensures
        unify_done(unify_part_model(a@, b@, base as nat, field_models(old(s)@)), r, final(s)@),
        extends(old(s)@, final(s)@),
    decreases usize::MAX - base, a, 2nat,
{
    if s.len() == base {
        unify(a, b, s)
    } else {
        let ra = resolve(s, a);
        let rb = resolve(s, b);
        unify(&ra, &rb, s)
    }
}

/// Makes the types of two lists equal, each to the one at its place.
fn unify_all(xs: &Vec<Type>, ys: &Vec<Type>, base: usize, s: &mut Vec<(String, Type)>) -> (r:
    Result<(), (Type, Type)>)
    requires
        base <= old(s).len(),
    ensures
        unify_done(
            unify_all_model(
                type_models(xs@),
                type_models(ys@),
                0,
                base as nat,
                field_models(old(s)@),
            ),
            r,
            final(s)@,
        ),
        extends(old(s)@, final(s)@),
    decreases usize::MAX - base, xs, 0nat,
{
    let ghost xm = type_models(xs@);
    let ghost ym = type_models(ys@);
    let mut i: usize = 0;
    assert(s@.subrange(0, s@.len() as int) =~= s@);
    while i < xs.len() && i < ys.len()
        invariant
            i <= xs.len(),
            xm == type_models(xs@),
            ym == type_models(ys@),
            base <= old(s).len(),
            extends(old(s)@, s@),
            unify_all_model(xm, ym, i as nat, base as nat, field_models(s@)) == unify_all_model(
                xm,
                ym,
                0,
                base as nat,
                field_models(old(s)@),
            ),
        decreases xs.len() - i,
    {
        let ghost mid = s@;
        match unify_part(&xs[i], &ys[i], base, s) {
            Err(e) => {
                assert(s@.subrange(0, old(s)@.len() as int) =~= mid.subrange(
                    0,
                    old(s)@.len() as int,
                ));
                return Err(e);
            },
            Ok(()) => {
                assert(s@.subrange(0, old(s)@.len() as int) =~= mid.subrange(
                    0,
                    old(s)@.len() as int,
                ));
            },
        }
        i += 1;
    }
    Ok(())
}

} // verus!
