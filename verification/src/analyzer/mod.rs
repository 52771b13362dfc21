//! The static side of the language: the type of a value, and the checks
//! that give an expression or a definition its type.
use std::sync::Arc;
use vstd::prelude::*;
use vstd::string::StringExecFns;

use crate::analyzer::expression_analyzer::{
    analyze_expression, analyze_function_parts, infer_function_model, infer_model,
    inferred_done, Inferred,
};
use crate::analyzer::static_env::{binds_well, variant_index, StaticEnv, StaticEnvModel};
use crate::analyzer::type_helper::{
    default_numbers_model, is_number_name, lemma_map_vars, map_all_model, map_vars,
    suffix_model, VarOp, VarOpModel,
};
use crate::interpreter::dynamic_env::ScopeModel;
use crate::interpreter::expression_eval::eval_model;
use crate::ast::{
    field_models, lemma_type_model, name_models, type_models, Definition, DefinitionModel, Expr,
    ExprModel, Pattern, PatternModel, Type, TypeModel,
};
use crate::types::{
    lemma_function_model, lemma_value_model, value_models, Adt, AdtModel, Function,
    FunctionModel, Value, ValueModel,
};

pub mod case_laws;
pub mod expression_analyzer;
pub mod module_analyser;
pub mod pattern_analyzer;
pub mod pattern_laws;
pub mod static_env;
pub mod type_helper;
pub mod unification_laws;

verus! {

/// Why a pattern does not fit the type it is matched against, or why the
/// patterns of a `case` do not suffice.
#[derive(Debug, PartialEq, Eq)]
pub enum PatternMatchingError {
    /// The items of a list pattern are of these two types.
    ListPatternsAreNotHomogeneous(Type, Type),
    UnknownOperatorPattern(String),
    UnknownAdtVariant(String),
    ExpectedListType(Type),
    ExpectedUnit(Type),
    ExpectedTuple(Pattern, Type),
    ExpectedRecord(Type),
    ExpectedAdt(String, Type),
    /// A pattern, for example, that no branch covers.
    PatternNotExhaustive(Pattern),
    InvalidRecordEntryName(String),
    /// A literal of the named type met a value of this type.
    ExpectedLiteral(String, Type),
}

/// The model of a [`PatternMatchingError`].
pub enum PatternMatchingErrorModel {
    ListPatternsAreNotHomogeneous(TypeModel, TypeModel),
    UnknownOperatorPattern(Seq<char>),
    UnknownAdtVariant(Seq<char>),
    ExpectedListType(TypeModel),
    ExpectedUnit(TypeModel),
    ExpectedTuple(PatternModel, TypeModel),
    ExpectedRecord(TypeModel),
    ExpectedAdt(Seq<char>, TypeModel),
    PatternNotExhaustive(PatternModel),
    InvalidRecordEntryName(Seq<char>),
    ExpectedLiteral(Seq<char>, TypeModel),
}

impl View for PatternMatchingError {
    type V = PatternMatchingErrorModel;

    open spec fn view(&self) -> PatternMatchingErrorModel {
        match self {
            PatternMatchingError::ListPatternsAreNotHomogeneous(
                a,
                b,
            ) => PatternMatchingErrorModel::ListPatternsAreNotHomogeneous(a@, b@),
            PatternMatchingError::UnknownOperatorPattern(
                s,
            ) => PatternMatchingErrorModel::UnknownOperatorPattern(s@),
            PatternMatchingError::UnknownAdtVariant(
                s,
            ) => PatternMatchingErrorModel::UnknownAdtVariant(s@),
            PatternMatchingError::ExpectedListType(
                t,
            ) => PatternMatchingErrorModel::ExpectedListType(t@),
            PatternMatchingError::ExpectedUnit(t) => PatternMatchingErrorModel::ExpectedUnit(t@),
            PatternMatchingError::ExpectedTuple(p, t) => PatternMatchingErrorModel::ExpectedTuple(
                p@,
                t@,
            ),
            PatternMatchingError::ExpectedRecord(t) => PatternMatchingErrorModel::ExpectedRecord(
                t@,
            ),
            PatternMatchingError::ExpectedAdt(s, t) => PatternMatchingErrorModel::ExpectedAdt(
                s@,
                t@,
            ),
            PatternMatchingError::PatternNotExhaustive(
                p,
            ) => PatternMatchingErrorModel::PatternNotExhaustive(p@),
            PatternMatchingError::InvalidRecordEntryName(
                s,
            ) => PatternMatchingErrorModel::InvalidRecordEntryName(s@),
            PatternMatchingError::ExpectedLiteral(
                s,
                t,
            ) => PatternMatchingErrorModel::ExpectedLiteral(s@, t@),
        }
    }
}

/// Why an expression or a definition has no type.
#[derive(Debug, PartialEq, Eq)]
pub enum TypeError {
    PatternMatchingError(PatternMatchingError),
    MissingDefinition(String),
    /// The items of a list are of these two types.
    ListNotHomogeneous(Type, Type),
    IfWithNonBoolCondition(Type),
    IfBranchesDoesntMatch(Type, Type),
    CaseBranchDontMatchReturnType(Type, Type),
    NotAFunction(Type),
    /// A function that takes the first type was given the second.
    ArgumentsDoNotMatch(Type, Type),
    /// A definition declared with the first type has the second.
    DefinitionTypeAndReturnTypeMismatch(Type, Type),
    ExpectedRecord(Type),
    RecordFieldNotFound(String, Type),
    DuplicateRecordField(String),
}

/// The model of a [`TypeError`].
pub enum TypeErrorModel {
    PatternMatchingError(PatternMatchingErrorModel),
    MissingDefinition(Seq<char>),
    ListNotHomogeneous(TypeModel, TypeModel),
    IfWithNonBoolCondition(TypeModel),
    IfBranchesDoesntMatch(TypeModel, TypeModel),
    CaseBranchDontMatchReturnType(TypeModel, TypeModel),
    NotAFunction(TypeModel),
    ArgumentsDoNotMatch(TypeModel, TypeModel),
    DefinitionTypeAndReturnTypeMismatch(TypeModel, TypeModel),
    ExpectedRecord(TypeModel),
    RecordFieldNotFound(Seq<char>, TypeModel),
    DuplicateRecordField(Seq<char>),
}

impl View for TypeError {
    type V = TypeErrorModel;

    open spec fn view(&self) -> TypeErrorModel {
        match self {
            TypeError::PatternMatchingError(e) => TypeErrorModel::PatternMatchingError(e@),
            TypeError::MissingDefinition(s) => TypeErrorModel::MissingDefinition(s@),
            TypeError::ListNotHomogeneous(a, b) => TypeErrorModel::ListNotHomogeneous(a@, b@),
            TypeError::IfWithNonBoolCondition(t) => TypeErrorModel::IfWithNonBoolCondition(t@),
            TypeError::IfBranchesDoesntMatch(a, b) => TypeErrorModel::IfBranchesDoesntMatch(
                a@,
                b@,
            ),
            TypeError::CaseBranchDontMatchReturnType(
                a,
                b,
            ) => TypeErrorModel::CaseBranchDontMatchReturnType(a@, b@),
            TypeError::NotAFunction(t) => TypeErrorModel::NotAFunction(t@),
            TypeError::ArgumentsDoNotMatch(a, b) => TypeErrorModel::ArgumentsDoNotMatch(a@, b@),
            TypeError::DefinitionTypeAndReturnTypeMismatch(
                a,
                b,
            ) => TypeErrorModel::DefinitionTypeAndReturnTypeMismatch(a@, b@),
            TypeError::ExpectedRecord(t) => TypeErrorModel::ExpectedRecord(t@),
            TypeError::RecordFieldNotFound(s, t) => TypeErrorModel::RecordFieldNotFound(s@, t@),
            TypeError::DuplicateRecordField(s) => TypeErrorModel::DuplicateRecordField(s@),
        }
    }
}

/// The type of a value that is not applied to anything: a nominal type with
/// no arguments.
pub open spec fn plain_tag(name: Seq<char>) -> TypeModel {
    TypeModel::Tag(name, Seq::empty())
}

/// The type of lists of `item`.
pub open spec fn list_of(item: TypeModel) -> TypeModel {
    TypeModel::Tag("List"@, seq![item])
}

/// The function type from the arguments at place `i` on to `result`.
pub open spec fn fun_type_model(args: Seq<TypeModel>, result: TypeModel, i: nat) -> TypeModel
    decreases args.len() - i,
{
    if i >= args.len() {
        result
    } else {
        TypeModel::Fun(Box::new(args[i as int]), Box::new(fun_type_model(args, result, i + 1)))
    }
}

/// The type under which a function was declared.
pub open spec fn function_type_model(fun: FunctionModel) -> TypeModel {
    match fun {
        FunctionModel::External { function_type, .. } => function_type,
        FunctionModel::Wrapper { function_type, .. } => function_type,
        FunctionModel::Definition { function_type, .. } => function_type,
    }
}

/// What is left of a function type once `args` arguments are given: `args`
/// arrows are taken off, fewer where the type runs out of them.
pub open spec fn strip_fun_args_model(args: nat, ty: TypeModel) -> TypeModel
    decreases args,
{
    if args == 0 {
        ty
    } else {
        match ty {
            TypeModel::Fun(_, output) => strip_fun_args_model((args - 1) as nat, *output),
            _ => ty,
        }
    }
}

/// The data type `adt` as a type: its name applied to its parameters,
/// each a variable.
pub open spec fn adt_type_model(adt: AdtModel) -> TypeModel {
    TypeModel::Tag(adt.name, Seq::new(adt.types.len(), |i: int| TypeModel::Var(adt.types[i])))
}

/// The place of the first field from place `i` on whose declared type is
/// the type parameter `p` itself, or -1.
pub open spec fn field_of_param(types: Seq<TypeModel>, p: Seq<char>, i: nat) -> int
    decreases types.len() - i,
{
    if i >= types.len() {
        -1
    } else if types[i as int] == TypeModel::Var(p) {
        i as int
    } else {
        field_of_param(types, p, i + 1)
    }
}

/// What the type parameter `j` of `adt` is for an instance of the variant
/// `variant` whose fields have the types `field_types`: the type of the
/// first field that is declared with the parameter as its type; the
/// parameter itself, as a variable, where no field tells.
pub open spec fn instance_argument(
    variant: Seq<char>,
    field_types: Seq<TypeModel>,
    adt: AdtModel,
    j: int,
) -> TypeModel {
    let v = variant_index(adt, variant, 0);
    let k = if v >= 0 {
        field_of_param(adt.variants[v].types, adt.types[j], 0)
    } else {
        -1
    };
    if 0 <= k < field_types.len() {
        field_types[k]
    } else {
        TypeModel::Var(adt.types[j])
    }
}

/// The type of an instance of the variant `variant` of `adt` whose fields
/// have the types `field_types`: the name of the data type applied to
/// what its parameters are for this instance.
pub open spec fn adt_instance_type(
    variant: Seq<char>,
    field_types: Seq<TypeModel>,
    adt: AdtModel,
) -> TypeModel {
    TypeModel::Tag(
        adt.name,
        Seq::new(adt.types.len(), |j: int| instance_argument(variant, field_types, adt, j)),
    )
}

/// The type of a value. An empty list has the element type `a`, a list that
/// is not empty the type of its first item; a number that nothing has fixed
/// has the type `number`; a function has its declared type less one arrow
/// for each argument it holds.
pub open spec fn type_of_value_model(value: ValueModel) -> TypeModel
    decreases value,
{
    match value {
        ValueModel::Unit => TypeModel::Unit,
        ValueModel::Number(_) => TypeModel::Var("number"@),
        ValueModel::Int(_) => plain_tag("Int"@),
        ValueModel::Float(_) => plain_tag("Float"@),
        ValueModel::String(_) => plain_tag("String"@),
        ValueModel::Char(_) => plain_tag("Char"@),
        ValueModel::List(items) => if items.len() == 0 {
            list_of(TypeModel::Var("a"@))
        } else {
            list_of(type_of_value_model(items[0]))
        },
        ValueModel::Tuple(items) => TypeModel::Tuple(
            Seq::new(
                items.len(),
                |i: int|
                    if 0 <= i < items.len() {
                        type_of_value_model(items[i])
                    } else {
                        TypeModel::Unit
                    },
            ),
        ),
        ValueModel::Record(fields) => TypeModel::Record(
            Seq::new(
                fields.len(),
                |i: int|
                    if 0 <= i < fields.len() {
                        (fields[i].0, type_of_value_model(fields[i].1))
                    } else {
                        (Seq::empty(), TypeModel::Unit)
                    },
            ),
        ),
        ValueModel::Adt(name, items, adt) => adt_instance_type(
            name,
            Seq::new(
                items.len(),
                |i: int|
                    if 0 <= i < items.len() {
                        type_of_value_model(items[i])
                    } else {
                        TypeModel::Unit
                    },
            ),
            adt,
        ),
        ValueModel::Fun { args, fun, .. } => strip_fun_args_model(
            args.len(),
            function_type_model(*fun),
        ),
    }
}

/// A nominal type without arguments.
pub fn type_tag(name: &str) -> (r: Type)
    ensures
        r@ == plain_tag(name@),
{
    let r = Type::Tag(String::from_str(name), Vec::new());
    proof {
        lemma_type_model(&r);
        assert(type_models(Seq::<Type>::empty()) =~= Seq::<TypeModel>::empty());
    }
    r
}

/// The type of lists of `item`.
pub fn type_list(item: Type) -> (r: Type)
    ensures
        r@ == list_of(item@),
{
    let mut args: Vec<Type> = Vec::new();
    args.push(item);
    let r = Type::Tag(String::from_str("List"), args);
    proof {
        lemma_type_model(&r);
        assert(type_models(args@) =~= seq![item@]);
    }
    r
}

/// The type of a function that takes `args` one by one and gives
/// `result`.
pub fn build_fun_type(args: &Vec<Type>, result: Type) -> (r: Type)
    ensures
        r@ == fun_type_model(type_models(args@), result@, 0),
{
    let ghost am = type_models(args@);
    let ghost last = result@;
    let mut acc = result;
    let mut i: usize = args.len();
    while i > 0
        invariant
            i <= args.len(),
            am == type_models(args@),
            acc@ == fun_type_model(am, last, i as nat),
        decreases i,
    {
        i -= 1;
        acc = Type::Fun(Box::new(args[i].clone()), Box::new(acc));
        proof {
            lemma_type_model(&acc);
        }
    }
    acc
}

/// The data type `adt` as a type: its name applied to its parameters.
pub fn get_adt_type(adt: &Adt) -> (r: Type)
    ensures
        r@ == adt_type_model(adt@),
{
    let mut args: Vec<Type> = Vec::new();
    let mut i: usize = 0;
    while i < adt.types.len()
        invariant
            i <= adt.types.len(),
            args.len() == i,
            forall|j: int| 0 <= j < i ==> args[j]@ == TypeModel::Var(adt.types[j]@),
        decreases adt.types.len() - i,
    {
        let v = Type::Var(adt.types[i].clone());
        proof {
            lemma_type_model(&v);
        }
        args.push(v);
        i += 1;
    }
    let r = Type::Tag(adt.name.clone(), args);
    proof {
        lemma_type_model(&r);
        assert(type_models(args@) =~= adt_type_model(adt@)->Tag_1);
    }
    r
}

/// The type of an instance of the variant `variant` of `adt` whose fields
/// have the types `field_types`.
pub fn get_instance_type(variant: &String, field_types: &Vec<Type>, adt: &Adt) -> (r: Type)
    ensures
        r@ == adt_instance_type(variant@, type_models(field_types@), adt@),
{
    let ghost am = adt@;
    let ghost fm = type_models(field_types@);
    // The variant of that name.
    let mut found: Option<usize> = None;
    let mut v: usize = 0;
    while v < adt.variants.len() && found.is_none()
        invariant
            v <= adt.variants.len(),
            am == adt@,
            found.is_none() ==> variant_index(am, variant@, v as nat) == variant_index(
                am,
                variant@,
                0,
            ),
            found matches Some(x) ==> x < adt.variants.len() && variant_index(am, variant@, 0)
                == x,
        decreases adt.variants.len() - v,
    {
        assert(am.variants[v as int] == adt.variants[v as int]@);
        if adt.variants[v].name == *variant {
            found = Some(v);
        }
        v += 1;
    }
    let mut args: Vec<Type> = Vec::new();
    let mut j: usize = 0;
    while j < adt.types.len()
        invariant
            j <= adt.types.len(),
            am == adt@,
            fm == type_models(field_types@),
            args.len() == j,
            found.is_none() ==> variant_index(am, variant@, 0) == -1,
            found matches Some(x) ==> x < adt.variants.len() && variant_index(am, variant@, 0)
                == x,
            forall|x: int| 0 <= x < j ==> args[x]@ == instance_argument(variant@, fm, am, x),
        decreases adt.types.len() - j,
    {
        let mut place: Option<usize> = None;
        match found {
            Some(x) => {
                let declared = &adt.variants[x].types;
                let ghost dm = type_models(declared@);
                assert(am.variants[x as int] == adt.variants[x as int]@);
                let mut k: usize = 0;
                while k < declared.len() && place.is_none()
                    invariant
                        k <= declared.len(),
                        j < adt.types.len(),
                        dm == type_models(declared@),
                        place.is_none() ==> field_of_param(dm, adt.types[j as int]@, k as nat)
                            == field_of_param(dm, adt.types[j as int]@, 0),
                        place matches Some(y) ==> y < declared.len() && field_of_param(
                            dm,
                            adt.types[j as int]@,
                            0,
                        ) == y,
                    decreases declared.len() - k,
                {
                    proof {
                        lemma_type_model(&declared[k as int]);
                    }
                    let is_param = match &declared[k] {
                        Type::Var(n) => *n == adt.types[j],
                        _ => false,
                    };
                    if is_param {
                        place = Some(k);
                    }
                    k += 1;
                }
            },
            None => {},
        }
        let arg = match place {
            Some(y) => {
                if y < field_types.len() {
                    field_types[y].clone()
                } else {
                    Type::Var(adt.types[j].clone())
                }
            },
            None => Type::Var(adt.types[j].clone()),
        };
        proof {
            lemma_type_model(&arg);
            assert(am.types[j as int] == adt.types[j as int]@);
        }
        args.push(arg);
        j += 1;
    }
    let r = Type::Tag(adt.name.clone(), args);
    proof {
        lemma_type_model(&r);
        assert(type_models(args@) =~= adt_instance_type(variant@, fm, am)->Tag_1);
    }
    r
}

/// The type under which a function was declared.
pub fn type_of_function(fun: &Function) -> (r: &Type)
    ensures
        r@ == function_type_model(fun@),
{
    proof {
        lemma_function_model(fun);
    }
    match fun {
        Function::External { function_type, .. } => function_type,
        Function::Wrapper { function_type, .. } => function_type,
        Function::Definition { function_type, .. } => function_type,
    }
}

/// What is left of the function type `ty` once `args` arguments are
/// given.
pub fn strip_fun_args(args: usize, ty: &Type) -> (r: &Type)
    ensures
        r@ == strip_fun_args_model(args as nat, ty@),
    decreases args,
{
    proof {
        lemma_type_model(ty);
    }
    if args == 0 {
        return ty;
    }
    if let Type::Fun(_, output) = ty {
        strip_fun_args(args - 1, output)
    } else {
        ty
    }
}

/// The type of a value.
pub fn type_of_value(value: &Value) -> (r: Type)
    ensures
        r@ == type_of_value_model(value@),
    decreases value,
{
    proof {
        lemma_value_model(value);
    }
    let r = match value {
        Value::Unit => Type::Unit,
        Value::Number(_) => Type::Var(String::from_str("number")),
        Value::Int(_) => type_tag("Int"),
        Value::Float(_) => type_tag("Float"),
        Value::String(_) => type_tag("String"),
        Value::Char(_) => type_tag("Char"),
        Value::List(items) => {
            if items.len() == 0 {
                let a = Type::Var(String::from_str("a"));
                proof {
                    lemma_type_model(&a);
                }
                type_list(a)
            } else {
                type_list(type_of_value(&items[0]))
            }
        },
        Value::Tuple(items) => {
            let mut out: Vec<Type> = Vec::new();
            let mut i: usize = 0;
            while i < items.len()
                invariant
                    i <= items.len(),
                    out.len() == i,
                    *value matches Value::Tuple(x) && x == items,
                    forall|j: int| 0 <= j < i ==> out[j]@ == type_of_value_model(items[j]@),
                decreases items.len() - i,
            {
                out.push(type_of_value(&items[i]));
                i += 1;
            }
            let t = Type::Tuple(out);
            proof {
                lemma_type_model(&t);
                assert(type_models(out@) =~= type_of_value_model(value@)->Tuple_0);
            }
            t
        },
        Value::Record(fields) => {
            let mut out: Vec<(String, Type)> = Vec::new();
            let mut i: usize = 0;
            while i < fields.len()
                invariant
                    i <= fields.len(),
                    out.len() == i,
                    *value matches Value::Record(x) && x == fields,
                    forall|j: int|
                        0 <= j < i ==> out[j].0@ == fields[j].0@ && out[j].1@
                            == type_of_value_model(fields[j].1@),
                decreases fields.len() - i,
            {
                out.push((fields[i].0.clone(), type_of_value(&fields[i].1)));
                i += 1;
            }
            let t = Type::Record(out);
            proof {
                lemma_type_model(&t);
                assert(field_models(out@) =~= type_of_value_model(value@)->Record_0);
            }
            t
        },
        Value::Adt(name, items, adt) => {
            let mut field_types: Vec<Type> = Vec::new();
            let mut i: usize = 0;
            while i < items.len()
                invariant
                    i <= items.len(),
                    field_types.len() == i,
                    *value matches Value::Adt(_, x, _) && x == items,
                    forall|j: int|
                        0 <= j < i ==> field_types[j]@ == type_of_value_model(items[j]@),
                decreases items.len() - i,
            {
                field_types.push(type_of_value(&items[i]));
                i += 1;
            }
            let t = get_instance_type(name, &field_types, adt);
            proof {
                let fm = type_models(field_types@);
                let want = type_of_value_model(value@);
                assert forall|j: int| 0 <= j < adt@.types.len() implies (#[trigger] t@->Tag_1[j])
                    == want->Tag_1[j] by {
                    let v = variant_index(adt@, name@, 0);
                    if v >= 0 {
                        let k = field_of_param(adt@.variants[v].types, adt@.types[j], 0);
                        if 0 <= k < fm.len() {
                            assert(fm[k] == type_of_value_model(value_models(items@)[k]));
                        }
                    }
                }
                assert(t@->Tag_1 =~= want->Tag_1);
            }
            t
        },
        Value::Fun { args, fun, .. } => {
            let fun_ty = type_of_function(fun);
            strip_fun_args(args.len(), fun_ty).clone()
        },
    };
    proof {
        lemma_type_model(&r);
    }
    r
}

/// The outcome with `Int` in place of every number variable that is left
/// in the type.
pub open spec fn with_default_numbers(m: Inferred) -> Inferred {
    match m.1 {
        Ok(t) => (m.0, Ok(default_numbers_model(t))),
        Err(e) => (m.0, Err(e)),
    }
}

/// The type of an expression: as inferred, and a number that nothing has
/// fixed is an `Int`.
pub open spec fn check_expression_model(env: StaticEnvModel, e: ExprModel) -> Inferred {
    with_default_numbers(infer_model(env, e))
}

/// The type of a definition: that of a function with its parameters and
/// its body, which has to agree with its header; a number that nothing
/// has fixed is an `Int`.
pub open spec fn check_function_model(env: StaticEnvModel, d: DefinitionModel) -> Inferred {
    with_default_numbers(infer_function_model(env, d.header, Some(d.name), d.patterns, d.expr))
}

/// Gives `expr` its type in `env`, or says why it has none. The scopes
/// of `env` are the same afterwards.
pub fn type_check_expression(env: &mut StaticEnv, expr: &Expr) -> (r: Result<Type, TypeError>)
    ensures
        inferred_done(check_expression_model(old(env)@, expr@), final(env)@, r),
        final(env)@.scopes == old(env)@.scopes,
        binds_well(old(env)@, final(env)@),
{
    match analyze_expression(env, expr) {
        Ok(t) => Ok(map_vars(&t, &VarOp::DefaultNumbers)),
        Err(e) => Err(e),
    }
}

/// Gives the definition `fun` its type in `env`, or says why it has none.
/// The scopes of `env` are the same afterwards.
pub fn type_check_function(env: &mut StaticEnv, fun: &Definition) -> (r: Result<Type, TypeError>)
    ensures
        inferred_done(check_function_model(old(env)@, fun@), final(env)@, r),
        final(env)@.scopes == old(env)@.scopes,
        binds_well(old(env)@, final(env)@),
{
    match analyze_function_parts(env, &fun.header, Some(&fun.name), &fun.patterns, &fun.expr) {
        Ok(t) => Ok(map_vars(&t, &VarOp::DefaultNumbers)),
        Err(e) => Err(e),
    }
}

/// The type that the analyzer gives to a literal or to `()` is the type
/// of the value that the interpreter makes of it, in every environment.
pub proof fn law_literal_has_the_type_of_its_value(
    types: StaticEnvModel,
    values: Seq<ScopeModel>,
    e: ExprModel,
    depth: nat,
)
    requires
        e is Literal || e is Unit,
    ensures
        eval_model(values, e, depth) is Ok,
        check_expression_model(types, e).1 == Ok::<_, TypeErrorModel>(
            type_of_value_model(eval_model(values, e, depth)->Ok_0),
        ),
{
    reveal_strlit("number");
    let name = "number"@ + suffix_model(types.next_var as nat);
    assert(is_number_name(name));
    let inferred = infer_model(types, e).1->Ok_0;
    lemma_map_vars(inferred, VarOpModel::DefaultNumbers);
    assert(map_all_model(Seq::<TypeModel>::empty(), VarOpModel::DefaultNumbers) =~= Seq::<
        TypeModel,
    >::empty());
}

} // verus!
