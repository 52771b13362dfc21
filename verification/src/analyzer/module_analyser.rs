//! The analysis of a module: each statement in turn, in an environment
//! that holds what the statements before it and the imported modules
//! declare.
use std::sync::Arc;
use vstd::prelude::*;
use vstd::string::StringExecFns;

use crate::analyzer::expression_analyzer::{
    analyze_function_parts, infer_function_model, inferred_done, name_view, Inferred,
};
use crate::analyzer::static_env::{added, binds_well, StaticEnv, StaticEnvModel};
use crate::analyzer::type_helper::{default_numbers_model, map_vars, VarOp};
use crate::analyzer::{
    adt_type_model, build_fun_type, fun_type_model, get_adt_type, type_check_function,
    check_function_model, TypeError, TypeErrorModel,
};
use crate::ast::{Definition, DefinitionModel, Type, TypeModel};
use crate::loader::{Declaration, DeclarationModel};
use crate::types::{share, Adt, AdtModel, Statement, StatementModel};

verus! {

/// The models of a vector of declarations, in order.
pub open spec fn declaration_models(v: Seq<Declaration>) -> Seq<DeclarationModel> {
    Seq::new(v.len(), |i: int| v[i]@)
}

/// The models of a vector of statements, in order.
pub open spec fn statement_models(v: Seq<Statement>) -> Seq<StatementModel> {
    Seq::new(v.len(), |i: int| v[i]@)
}

/// The type of the constructor of the variant `i` of `adt`: a function
/// from its fields to the data type.
pub open spec fn constructor_type(adt: AdtModel, i: int) -> TypeModel {
    fun_type_model(adt.variants[i].types, adt_type_model(adt), 0)
}

/// The environment after the variants of `adt` from place `i` on got the
/// types of their constructors.
pub open spec fn with_constructors(env: StaticEnvModel, adt: AdtModel, i: nat) -> StaticEnvModel
    decreases adt.variants.len() - i,
{
    if i >= adt.variants.len() {
        env
    } else {
        with_constructors(
            added(env, adt.variants[i as int].name, constructor_type(adt, i as int)),
            adt,
            i + 1,
        )
    }
}

/// The environment after `d` was made known: a definition gives its name
/// a type, a data type becomes known and gives each variant the type of
/// its constructor; an alias changes nothing.
pub open spec fn declared(env: StaticEnvModel, d: DeclarationModel) -> StaticEnvModel {
    match d {
        DeclarationModel::Def(n, t) => added(env, n, t),
        DeclarationModel::Alias(_, _) => env,
        DeclarationModel::Adt(_, adt) => with_constructors(
            StaticEnvModel { adts: env.adts.push(adt), ..env },
            adt,
            0,
        ),
    }
}

/// The environment after the declarations from place `i` on were made
/// known, in order.
pub open spec fn declared_all(env: StaticEnvModel, ds: Seq<DeclarationModel>, i: nat) -> StaticEnvModel
    decreases ds.len() - i,
{
    if i >= ds.len() {
        env
    } else {
        declared_all(declared(env, ds[i as int]), ds, i + 1)
    }
}

/// What a statement declares.
pub open spec fn statement_declaration(env: StaticEnvModel, stm: StatementModel) -> (
    StaticEnvModel,
    Result<DeclarationModel, TypeErrorModel>,
) {
    match stm {
        StatementModel::Alias(n, t) => (env, Ok(DeclarationModel::Alias(n, t))),
        StatementModel::Adt(adt) => (env, Ok(DeclarationModel::Adt(adt.name, adt))),
        StatementModel::Def(d) => {
            let (e1, r) = check_function_model(env, d);
            match r {
                Err(x) => (e1, Err(x)),
                Ok(t) => (e1, Ok(DeclarationModel::Def(d.name, t))),
            }
        },
    }
}

/// How the analysis of a module ends.
pub type ModuleOutcome = (StaticEnvModel, Result<Seq<DeclarationModel>, TypeErrorModel>);

/// The declarations `acc` in front of those that an analysis gave.
pub open spec fn prepend_declarations(acc: Seq<DeclarationModel>, m: ModuleOutcome) -> ModuleOutcome {
    match m.1 {
        Ok(ds) => (m.0, Ok(acc + ds)),
        Err(x) => (m.0, Err(x)),
    }
}

/// What the statements from place `i` on declare; each sees what those
/// before it declared. The first error ends the analysis.
pub open spec fn analyze_module_model(env: StaticEnvModel, statements: Seq<StatementModel>, i: nat) -> ModuleOutcome
    decreases statements.len() - i,
{
    if i >= statements.len() {
        (env, Ok(Seq::empty()))
    } else {
        let (e1, r) = statement_declaration(env, statements[i as int]);
        match r {
            Err(x) => (e1, Err(x)),
            Ok(d) => prepend_declarations(
                seq![d],
                analyze_module_model(declared(e1, d), statements, i + 1),
            ),
        }
    }
}

/// Makes a declaration known to the environment. No type variable is
/// bound by that.
pub fn declare(env: &mut StaticEnv, d: &Declaration)
    ensures
        final(env)@ == declared(old(env)@, d@),
        final(env)@.substitution == old(env)@.substitution,
{
    match d {
        Declaration::Def(n, t) => {
            env.add(n, t.clone());
        },
        Declaration::Alias(_, _) => {},
        Declaration::Adt(_, adt) => {
            env.add_adt(share(adt));
            let ghost start = env@;
            let ghost am = adt@;
            let mut i: usize = 0;
            while i < adt.variants.len()
                invariant
                    i <= adt.variants.len(),
                    am == adt@,
                    env@.substitution == old(env)@.substitution,
                    with_constructors(env@, am, i as nat) == with_constructors(start, am, 0),
                decreases adt.variants.len() - i,
            {
                assert(am.variants[i as int] == adt.variants[i as int]@);
                let ty = build_fun_type(&adt.variants[i].types, get_adt_type(adt));
                env.add(&adt.variants[i].name, ty);
                i += 1;
            }
        },
    }
}

/// Makes each declaration known to the environment, in order.
pub fn declare_all(env: &mut StaticEnv, ds: &Vec<Declaration>)
    ensures
        final(env)@ == declared_all(old(env)@, declaration_models(ds@), 0),
        final(env)@.substitution == old(env)@.substitution,
{
    let ghost dm = declaration_models(ds@);
    let mut i: usize = 0;
    while i < ds.len()
        invariant
            i <= ds.len(),
            dm == declaration_models(ds@),
            env@.substitution == old(env)@.substitution,
            declared_all(env@, dm, i as nat) == declared_all(old(env)@, dm, 0),
        decreases ds.len() - i,
    {
        declare(env, &ds[i]);
        i += 1;
    }
}

/// Analyzes the statements of a module in order and hands back what they
/// declare.
pub fn analyze_module(env: &mut StaticEnv, statements: &Vec<Statement>) -> (r: Result<
    Vec<Declaration>,
    TypeError,
>)
    ensures
        final(env)@ == analyze_module_model(old(env)@, statement_models(statements@), 0).0,
        match analyze_module_model(old(env)@, statement_models(statements@), 0).1 {
            Ok(ds) => r matches Ok(x) && declaration_models(x@) == ds,
            Err(e) => r matches Err(x) && x@ == e,
        },
        binds_well(old(env)@, final(env)@),
{
    let ghost all = statement_models(statements@);
    let ghost goal = analyze_module_model(env@, all, 0);
    let mut out: Vec<Declaration> = Vec::new();
    let mut i: usize = 0;
    assert(declaration_models(out@) =~= Seq::<DeclarationModel>::empty());
    assert(Seq::<DeclarationModel>::empty() + goal.1->Ok_0 =~= goal.1->Ok_0);
    while i < statements.len()
        invariant
            i <= statements.len(),
            all == statement_models(statements@),
            goal == analyze_module_model(old(env)@, all, 0),
            prepend_declarations(
                declaration_models(out@),
                analyze_module_model(env@, all, i as nat),
            ) == goal,
            binds_well(old(env)@, env@),
        decreases statements.len() - i,
    {
        let ghost before = declaration_models(out@);
        assert(all[i as int] == statements[i as int]@);
        let d = match &statements[i] {
            Statement::Alias(n, t) => Declaration::Alias(n.clone(), t.clone()),
            Statement::Adt(adt) => Declaration::Adt(adt.name.clone(), share(adt)),
            Statement::Def(def) => match type_check_function(env, def) {
                Err(x) => {
                    return Err(x);
                },
                Ok(t) => Declaration::Def(def.name.clone(), t),
            },
        };
        declare(env, &d);
        out.push(d);
        proof {
            assert(declaration_models(out@) =~= before + seq![d@]);
            let rest = analyze_module_model(env@, all, (i + 1) as nat);
            if let Ok(ds) = rest.1 {
                assert(before + (seq![d@] + ds) =~= (before + seq![d@]) + ds);
            }
        }
        i += 1;
    }
    assert(declaration_models(out@) + Seq::<DeclarationModel>::empty() =~= declaration_models(
        out@,
    ));
    Ok(out)
}

} // verus!
