//! Evaluation of the statements of a module: a definition gives its name
//! a value, a data type gives each of its variants a constructor.
use std::sync::Arc;
use vstd::prelude::*;
use vstd::string::StringExecFns;

use crate::analyzer::{adt_type_model, build_fun_type, fun_type_model, get_adt_type};
use crate::ast::{lemma_type_model, type_models, Definition, DefinitionModel, Type, TypeModel};
use crate::interpreter::builtins::ADT_CONSTRUCTOR;
use crate::interpreter::closure_helper::closure_model;
use crate::interpreter::dynamic_env::{add_model, DynamicEnv, ScopeModel};
use crate::interpreter::expression_eval::{eval_expr, eval_model, too_many_parameters};
use crate::interpreter::{Interpreter, RuntimeError, RuntimeErrorModel};
use crate::types::{
    lemma_function_model, lemma_value_model, share, value_models, Adt, AdtModel, Function,
    FunctionModel, Statement, StatementModel, Value, ValueModel,
};

verus! {

/// How the evaluation of a statement ends: with the value it defined, if
/// it defined one.
pub type StatementResult = Result<Option<ValueModel>, RuntimeErrorModel>;

/// The variant `i` of `adt` without fields.
pub open spec fn bare_variant_model(adt: AdtModel, i: int) -> ValueModel {
    ValueModel::Adt(adt.variants[i].name, Seq::empty(), adt)
}

/// What the name of the variant `i` of `adt` stands for: the variant
/// itself where it has no fields, else a function that takes the fields
/// one by one.
pub open spec fn constructor_model(adt: AdtModel, i: int) -> ValueModel {
    let variant = adt.variants[i];
    if variant.types.len() == 0 {
        bare_variant_model(adt, i)
    } else {
        ValueModel::Fun {
            arg_count: (variant.types.len() + 1) as u32,
            args: seq![bare_variant_model(adt, i)],
            fun: Box::new(
                FunctionModel::External {
                    id: ADT_CONSTRUCTOR,
                    function_type: fun_type_model(variant.types, adt_type_model(adt), 0),
                },
            ),
        }
    }
}

/// The scopes after the variants of `adt` from place `i` on got their
/// constructors.
pub open spec fn register_adt_model(scopes: Seq<ScopeModel>, adt: AdtModel, i: nat) -> Seq<
    ScopeModel,
>
    decreases adt.variants.len() - i,
{
    if i >= adt.variants.len() {
        scopes
    } else {
        register_adt_model(
            add_model(scopes, adt.variants[i as int].name, constructor_model(adt, i as int)),
            adt,
            i + 1,
        )
    }
}

/// A variant has more fields than a function value can count.
pub open spec fn too_many_fields(adt: AdtModel) -> bool {
    exists|i: int| 0 <= i < adt.variants.len() && #[trigger] adt.variants[i].types.len() >= u32::MAX
}

/// What the statement returns, where calls may nest `depth` deep.
pub open spec fn statement_model(env: Seq<ScopeModel>, stm: StatementModel, depth: nat) -> StatementResult {
    match stm {
        StatementModel::Alias(_, _) => Ok(None),
        StatementModel::Adt(adt) => if too_many_fields(adt) {
            Err(RuntimeErrorModel::FunArgumentSizeMismatch(u32::MAX, adt.variants.len() as usize))
        } else {
            Ok(None)
        },
        StatementModel::Def(d) => if d.patterns.len() == 0 {
            match eval_model(env, d.expr, depth) {
                Ok(v) => Ok(Some(v)),
                Err(e) => Err(e),
            }
        } else if d.patterns.len() > u32::MAX {
            Err(too_many_parameters(d.patterns))
        } else {
            Ok(Some(closure_model(env, Seq::empty(), d.header, d.patterns, d.expr)))
        },
    }
}

/// The scopes after the statement: a definition that succeeds binds its
/// name in the innermost scope, a data type the names of its variants; an
/// alias, or a statement that fails, changes nothing.
pub open spec fn scopes_after(env: Seq<ScopeModel>, stm: StatementModel, depth: nat) -> Seq<
    ScopeModel,
> {
    match stm {
        StatementModel::Alias(_, _) => env,
        StatementModel::Adt(adt) => if too_many_fields(adt) {
            env
        } else {
            register_adt_model(env, adt, 0)
        },
        StatementModel::Def(d) => match statement_model(env, stm, depth) {
            Ok(Some(v)) => add_model(env, d.name, v),
            _ => env,
        },
    }
}

/// The model of the result of a statement.
pub open spec fn statement_view(r: Result<Option<Value>, RuntimeError>) -> StatementResult {
    match r {
        Ok(Some(v)) => Ok(Some(v@)),
        Ok(None) => Ok(None),
        Err(e) => Err(e@),
    }
}

/// What the name of the variant `i` of `adt` stands for.
pub fn constructor(adt: &Arc<Adt>, i: usize) -> (r: Value)
    requires
        i < adt.variants.len(),
        adt.variants[i as int].types.len() < u32::MAX,
    ensures
        r@ == constructor_model(adt@, i as int),
{
    let variant = &adt.variants[i];
    let bare = Value::Adt(variant.name.clone(), Vec::new(), share(adt));
    proof {
        lemma_value_model(&bare);
        assert(value_models(Seq::<Value>::empty()) =~= Seq::<ValueModel>::empty());
    }
    if variant.types.len() == 0 {
        bare
    } else {
        let function = Function::External {
            id: ADT_CONSTRUCTOR,
            function_type: build_fun_type(&variant.types, get_adt_type(adt)),
        };
        let mut args: Vec<Value> = Vec::new();
        args.push(bare);
        let r = Value::Fun {
            arg_count: (variant.types.len() + 1) as u32,
            args,
            fun: Arc::new(function),
        };
        proof {
            lemma_function_model(&function);
            lemma_value_model(&r);
            assert(value_models(args@) =~= seq![bare@]);
        }
        r
    }
}

/// Evaluates a statement, where calls may nest `depth` deep.
pub fn eval_stm(env: &mut DynamicEnv, stm: &Statement, depth: u32) -> (r: Result<
    Option<Value>,
    RuntimeError,
>)
    ensures
        statement_view(r) == statement_model(old(env)@, stm@, depth as nat),
        final(env)@ == scopes_after(old(env)@, stm@, depth as nat),
{
    match stm {
        Statement::Alias(_, _) => Ok(None),
        Statement::Adt(adt) => {
            let mut i: usize = 0;
            while i < adt.variants.len()
                invariant
                    i <= adt.variants.len(),
                    stm@ == StatementModel::Adt(adt@),
                    env@ == old(env)@,
                    forall|j: int| 0 <= j < i ==> (#[trigger] adt@.variants[j]).types.len() < u32::MAX,
                decreases adt.variants.len() - i,
            {
                if adt.variants[i].types.len() >= u32::MAX as usize {
                    assert(adt@.variants[i as int].types.len() >= u32::MAX);
                    return Err(
                        RuntimeError::FunArgumentSizeMismatch(u32::MAX, adt.variants.len()),
                    );
                }
                assert(adt@.variants[i as int].types.len() < u32::MAX);
                i += 1;
            }
            let mut i: usize = 0;
            while i < adt.variants.len()
                invariant
                    i <= adt.variants.len(),
                    stm@ == StatementModel::Adt(adt@),
                    !too_many_fields(adt@),
                    register_adt_model(env@, adt@, i as nat) == register_adt_model(
                        old(env)@,
                        adt@,
                        0,
                    ),
                decreases adt.variants.len() - i,
            {
                assert(adt@.variants[i as int].types.len() < u32::MAX);
                let value = constructor(adt, i);
                env.add(&adt.variants[i].name, value);
                i += 1;
            }
            Ok(None)
        },
        Statement::Def(def) => {
            if def.patterns.len() == 0 {
                match eval_expr(env, &def.expr, depth) {
                    Ok(v) => {
                        env.add(&def.name, v.clone());
                        Ok(Some(v))
                    },
                    Err(e) => Err(e),
                }
            } else if def.patterns.len() > u32::MAX as usize {
                Err(RuntimeError::FunArgumentSizeMismatch(u32::MAX, def.patterns.len()))
            } else {
                let v = Interpreter::create_function_closure(env, def);
                env.add(&def.name, v.clone());
                Ok(Some(v))
            }
        },
    }
}

} // verus!
