//! The dynamic side of the language: evaluation of expressions and
//! statements against an environment of values.
use vstd::prelude::*;

use crate::ast::{pattern_models, Expr, Pattern, PatternModel};
use crate::interpreter::dynamic_env::{DynamicEnv, ScopeModel};
use crate::interpreter::expression_eval::{eval_expr, eval_model};
use crate::interpreter::statement_eval::{
    eval_stm, scopes_after, statement_model, statement_view,
};
use crate::types::{Statement, Value, ValueModel};

pub mod builtins;
pub mod closure_helper;
pub mod depth_laws;
pub mod dynamic_env;
pub mod expression_eval;
pub mod pattern_match;
pub mod statement_eval;

verus! {

/// The interpreter and its one setting.
#[derive(Debug, PartialEq, Eq)]
pub struct Interpreter {
    /// How deep calls may nest before evaluation gives up.
    pub call_depth: u32,
}

/// Why an evaluation failed.
#[derive(Debug, PartialEq, Eq)]
pub enum RuntimeError {
    /// The name stands for nothing in the environment.
    MissingDefinition(String, DynamicEnv),
    /// A field was asked of, or replaced in, a value that is no record.
    RecordUpdateOnNonRecord(String, Value),
    InvalidIfCondition(Value),
    /// The record has no field of that name.
    RecordFieldNotFound(String, Value),
    /// No pattern of the list matches the value.
    CaseExpressionNonExhaustive(Value, Vec<Pattern>),
    /// A function that waits for the first number of arguments met the
    /// second.
    FunArgumentSizeMismatch(u32, usize),
    ExpectedRecord(Value),
    ExpectedFunction(Value),
    ExpectedAdt(Value),
    ExpectedTuple(Value),
    ExpectedList(Value),
    ExpectedInt(Value),
    ExpectedNumber(Value),
    UnknownOperatorPattern(String),
    InternalErrorAdtCreation(Value),
    UnknownBuiltinFunction(u32),
    /// Calls nested deeper than the interpreter allows.
    CallDepthExceeded,
}

/// The model of a [`RuntimeError`].
pub enum RuntimeErrorModel {
    MissingDefinition(Seq<char>, Seq<ScopeModel>),
    RecordUpdateOnNonRecord(Seq<char>, ValueModel),
    InvalidIfCondition(ValueModel),
    RecordFieldNotFound(Seq<char>, ValueModel),
    CaseExpressionNonExhaustive(ValueModel, Seq<PatternModel>),
    FunArgumentSizeMismatch(u32, usize),
    ExpectedRecord(ValueModel),
    ExpectedFunction(ValueModel),
    ExpectedAdt(ValueModel),
    ExpectedTuple(ValueModel),
    ExpectedList(ValueModel),
    ExpectedInt(ValueModel),
    ExpectedNumber(ValueModel),
    UnknownOperatorPattern(Seq<char>),
    InternalErrorAdtCreation(ValueModel),
    UnknownBuiltinFunction(u32),
    CallDepthExceeded,
}

/// How an evaluation ends.
pub type EvalResult = Result<ValueModel, RuntimeErrorModel>;

/// The model of the result of an evaluation.
pub open spec fn eval_view(r: Result<Value, RuntimeError>) -> EvalResult {
    match r {
        Ok(v) => Ok(v@),
        Err(e) => Err(e@),
    }
}

impl View for RuntimeError {
    type V = RuntimeErrorModel;

    open spec fn view(&self) -> RuntimeErrorModel {
        match self {
            RuntimeError::MissingDefinition(n, env) => RuntimeErrorModel::MissingDefinition(
                n@,
                env@,
            ),
            RuntimeError::RecordUpdateOnNonRecord(
                n,
                v,
            ) => RuntimeErrorModel::RecordUpdateOnNonRecord(n@, v@),
            RuntimeError::InvalidIfCondition(v) => RuntimeErrorModel::InvalidIfCondition(v@),
            RuntimeError::RecordFieldNotFound(n, v) => RuntimeErrorModel::RecordFieldNotFound(
                n@,
                v@,
            ),
            RuntimeError::CaseExpressionNonExhaustive(
                v,
                ps,
            ) => RuntimeErrorModel::CaseExpressionNonExhaustive(v@, pattern_models(ps@)),
            RuntimeError::FunArgumentSizeMismatch(
                a,
                b,
            ) => RuntimeErrorModel::FunArgumentSizeMismatch(*a, *b),
            RuntimeError::ExpectedRecord(v) => RuntimeErrorModel::ExpectedRecord(v@),
            RuntimeError::ExpectedFunction(v) => RuntimeErrorModel::ExpectedFunction(v@),
            RuntimeError::ExpectedAdt(v) => RuntimeErrorModel::ExpectedAdt(v@),
            RuntimeError::ExpectedTuple(v) => RuntimeErrorModel::ExpectedTuple(v@),
            RuntimeError::ExpectedList(v) => RuntimeErrorModel::ExpectedList(v@),
            RuntimeError::ExpectedInt(v) => RuntimeErrorModel::ExpectedInt(v@),
            RuntimeError::ExpectedNumber(v) => RuntimeErrorModel::ExpectedNumber(v@),
            RuntimeError::UnknownOperatorPattern(
                op,
            ) => RuntimeErrorModel::UnknownOperatorPattern(op@),
            RuntimeError::InternalErrorAdtCreation(
                v,
            ) => RuntimeErrorModel::InternalErrorAdtCreation(v@),
            RuntimeError::UnknownBuiltinFunction(id) => RuntimeErrorModel::UnknownBuiltinFunction(
                *id,
            ),
            RuntimeError::CallDepthExceeded => RuntimeErrorModel::CallDepthExceeded,
        }
    }
}

/// How deep calls may nest unless the interpreter is told otherwise.
pub const DEFAULT_CALL_DEPTH: u32 = 200;

impl Interpreter {
    /// An interpreter that lets calls nest as deep as the default allows.
    pub fn new() -> (r: Interpreter)
        ensures
            r.call_depth == DEFAULT_CALL_DEPTH,
    {
        Interpreter { call_depth: DEFAULT_CALL_DEPTH }
    }

    /// Evaluates an expression, where calls may nest `self.call_depth`
    /// deep. The environment is the same afterwards.
    pub fn eval_expression(&self, env: &mut DynamicEnv, expr: &Expr) -> (r: Result<
        Value,
        RuntimeError,
    >)
        ensures
            eval_view(r) == eval_model(old(env)@, expr@, self.call_depth as nat),
            final(env)@ == old(env)@,
    {
        eval_expr(env, expr, self.call_depth)
    }

    /// Evaluates a statement, where calls may nest `self.call_depth` deep.
    pub fn eval_statement(&self, env: &mut DynamicEnv, stm: &Statement) -> (r: Result<
        Option<Value>,
        RuntimeError,
    >)
        ensures
            statement_view(r) == statement_model(old(env)@, stm@, self.call_depth as nat),
            final(env)@ == scopes_after(old(env)@, stm@, self.call_depth as nat),
    {
        eval_stm(env, stm, self.call_depth)
    }
}

/// Evaluates a statement: a definition gives its name a value in the
/// innermost scope and hands the value back, a data type gives each
/// variant its constructor.
///
/// Calls may nest [`DEFAULT_CALL_DEPTH`] deep. An evaluation that would
/// nest them deeper fails with [`RuntimeError::CallDepthExceeded`]; the
/// limit has no other effect. [`Interpreter::eval_statement`] evaluates
/// with a limit of the caller's choice.
pub fn eval_statement(env: &mut DynamicEnv, stm: &Statement) -> (r: Result<
    Option<Value>,
    RuntimeError,
>)
    ensures
        statement_view(r) == statement_model(old(env)@, stm@, DEFAULT_CALL_DEPTH as nat),
        final(env)@ == scopes_after(old(env)@, stm@, DEFAULT_CALL_DEPTH as nat),
{
    eval_stm(env, stm, DEFAULT_CALL_DEPTH)
}

/// Evaluates an expression. The environment is the same afterwards,
/// whatever the result.
///
/// Calls may nest [`DEFAULT_CALL_DEPTH`] deep. An evaluation that would
/// nest them deeper fails with [`RuntimeError::CallDepthExceeded`]; the
/// limit has no other effect. [`Interpreter::eval_expression`] evaluates
/// with a limit of the caller's choice.
pub fn eval_expression(env: &mut DynamicEnv, expr: &Expr) -> (r: Result<Value, RuntimeError>)
    ensures
        eval_view(r) == eval_model(old(env)@, expr@, DEFAULT_CALL_DEPTH as nat),
        final(env)@ == old(env)@,
{
    eval_expr(env, expr, DEFAULT_CALL_DEPTH)
}

} // verus!
