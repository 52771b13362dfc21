//! What every program starts with: the type `Bool` and the arithmetic of
//! whole numbers.
use std::sync::Arc;
use vstd::prelude::*;
use vstd::string::StringExecFns;

use crate::analyzer::module_analyser::{declaration_models, declare_all, declared_all};
use crate::analyzer::static_env::{StaticEnv, StaticEnvModel};
use crate::analyzer::unification_laws::well_formed;
use crate::analyzer::{build_fun_type, fun_type_model, plain_tag, type_tag};
use crate::ast::{lemma_type_model, type_models, Type, TypeModel};
use crate::interpreter::builtins::{
    bool_adt, bool_adt_model, INT_ADD, INT_EQ, INT_LT, INT_MUL, INT_SUB,
};
use crate::interpreter::dynamic_env::{add_model, DynamicEnv, ScopeModel};
use crate::interpreter::statement_eval::{eval_stm, register_adt_model, too_many_fields};
use crate::loader::{Declaration, DeclarationModel};
use crate::types::{
    lemma_function_model, lemma_value_model, value_models, Function, FunctionModel, Statement,
    Value, ValueModel,
};

verus! {

/// The type of `+`, `-` and `*`: two numbers of one kind give a third.
pub open spec fn number_op_type() -> TypeModel {
    fun_type_model(
        seq![TypeModel::Var("number"@), TypeModel::Var("number"@)],
        TypeModel::Var("number"@),
        0,
    )
}

/// The type of `==` and `<`: two whole numbers give a `Bool`.
pub open spec fn int_test_type() -> TypeModel {
    fun_type_model(seq![plain_tag("Int"@), plain_tag("Int"@)], plain_tag("Bool"@), 0)
}

/// What every module sees without importing it.
pub open spec fn default_declarations_model() -> Seq<DeclarationModel> {
    seq![
        DeclarationModel::Adt("Bool"@, bool_adt_model()),
        DeclarationModel::Def("+"@, number_op_type()),
        DeclarationModel::Def("-"@, number_op_type()),
        DeclarationModel::Def("*"@, number_op_type()),
        DeclarationModel::Def("=="@, int_test_type()),
        DeclarationModel::Def("<"@, int_test_type()),
    ]
}

/// The environment in which the analysis of every module starts.
pub open spec fn default_static_model() -> StaticEnvModel {
    declared_all(
        StaticEnvModel {
            scopes: seq![Map::<Seq<char>, TypeModel>::empty()],
            adts: Seq::empty(),
            substitution: Seq::empty(),
            next_var: 0,
        },
        default_declarations_model(),
        0,
    )
}

/// The function value of the built-in `id` of two arguments.
pub open spec fn builtin_value_model(id: u32, ty: TypeModel) -> ValueModel {
    ValueModel::Fun {
        arg_count: 2,
        args: Seq::empty(),
        fun: Box::new(FunctionModel::External { id, function_type: ty }),
    }
}

/// The scopes in which the evaluation of every program starts: `True`
/// and `False`, and the built-ins under their names.
pub open spec fn default_scopes() -> Seq<ScopeModel> {
    let s0 = register_adt_model(seq![Map::<Seq<char>, ValueModel>::empty()], bool_adt_model(), 0);
    let s1 = add_model(s0, "+"@, builtin_value_model(INT_ADD, number_op_type()));
    let s2 = add_model(s1, "-"@, builtin_value_model(INT_SUB, number_op_type()));
    let s3 = add_model(s2, "*"@, builtin_value_model(INT_MUL, number_op_type()));
    let s4 = add_model(s3, "=="@, builtin_value_model(INT_EQ, int_test_type()));
    add_model(s4, "<"@, builtin_value_model(INT_LT, int_test_type()))
}

/// The type of `+`, `-` and `*`.
fn number_op() -> (r: Type)
    ensures
        r@ == number_op_type(),
{
    let mut args: Vec<Type> = Vec::new();
    let a = Type::Var(String::from_str("number"));
    let b = Type::Var(String::from_str("number"));
    let c = Type::Var(String::from_str("number"));
    proof {
        lemma_type_model(&a);
        lemma_type_model(&b);
        lemma_type_model(&c);
    }
    args.push(a);
    args.push(b);
    assert(type_models(args@) =~= seq![TypeModel::Var("number"@), TypeModel::Var("number"@)]);
    build_fun_type(&args, c)
}

/// The type of `==` and `<`.
fn int_test() -> (r: Type)
    ensures
        r@ == int_test_type(),
{
    let mut args: Vec<Type> = Vec::new();
    args.push(type_tag("Int"));
    args.push(type_tag("Int"));
    assert(type_models(args@) =~= seq![plain_tag("Int"@), plain_tag("Int"@)]);
    build_fun_type(&args, type_tag("Bool"))
}

/// What every module sees without importing it.
pub fn default_declarations() -> (r: Vec<Declaration>)
    ensures
        declaration_models(r@) == default_declarations_model(),
{
    let mut out: Vec<Declaration> = Vec::new();
    out.push(Declaration::Adt(String::from_str("Bool"), Arc::new(bool_adt())));
    out.push(Declaration::Def(String::from_str("+"), number_op()));
    out.push(Declaration::Def(String::from_str("-"), number_op()));
    out.push(Declaration::Def(String::from_str("*"), number_op()));
    out.push(Declaration::Def(String::from_str("=="), int_test()));
    out.push(Declaration::Def(String::from_str("<"), int_test()));
    assert(declaration_models(out@) =~= default_declarations_model());
    out
}

/// The environment in which the analysis of every module starts.
pub fn default_static_env() -> (r: StaticEnv)
    ensures
        r@ == default_static_model(),
        well_formed(r@.substitution),
{
    let mut env = StaticEnv::new();
    let ds = default_declarations();
    declare_all(&mut env, &ds);
    env
}

/// The function value of the built-in `id` of two arguments, of type
/// `ty`.
fn builtin_value(id: u32, ty: Type) -> (r: Value)
    ensures
        r@ == builtin_value_model(id, ty@),
{
    let function = Function::External { id, function_type: ty };
    let r = Value::Fun { arg_count: 2, args: Vec::new(), fun: Arc::new(function) };
    proof {
        lemma_function_model(&function);
        lemma_value_model(&r);
        assert(value_models(Seq::<Value>::empty()) =~= Seq::<ValueModel>::empty());
    }
    r
}

/// The environment in which the evaluation of every program starts.
pub fn default_lang_env() -> (r: DynamicEnv)
    ensures
        r@ == default_scopes(),
{
    let mut env = DynamicEnv::new();
    let bool_type = Statement::Adt(Arc::new(bool_adt()));
    proof {
        let adt = bool_adt_model();
        assert(!too_many_fields(adt)) by {
            assert forall|i: int| 0 <= i < adt.variants.len() implies (
            #[trigger] adt.variants[i]).types.len() < u32::MAX by {
                if i == 0 {
                } else {
                    assert(i == 1);
                }
            }
        }
    }
    let _ = eval_stm(&mut env, &bool_type, 0);
    env.add(&String::from_str("+"), builtin_value(INT_ADD, number_op()));
    env.add(&String::from_str("-"), builtin_value(INT_SUB, number_op()));
    env.add(&String::from_str("*"), builtin_value(INT_MUL, number_op()));
    env.add(&String::from_str("=="), builtin_value(INT_EQ, int_test()));
    env.add(&String::from_str("<"), builtin_value(INT_LT, int_test()));
    env
}

} // verus!
