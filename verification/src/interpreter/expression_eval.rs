//! Evaluation of expressions: strict, left to right, with every scope that
//! a block opens closed again on every way out.
use std::sync::Arc;
use vstd::prelude::*;
use vstd::string::StringExecFns;

use crate::ast::{
    branch_models, entry_models, expr_models, lemma_expr_model, let_models, pattern_models,
    Definition, DefinitionModel, Expr, ExprModel, LetEntry, LetEntryModel, Literal,
    LiteralModel, Pattern, PatternModel,
};
use crate::interpreter::builtins::{builtin_model, call_builtin};
use crate::ast::TypeModel;
use crate::interpreter::closure_helper::{
    captures_model, closure_model, free_names, pattern_names, pattern_names_from,
};
use crate::interpreter::dynamic_env::{
    add_model, bind_all, exit_model, find_model, DynamicEnv, ScopeModel,
};
use crate::interpreter::pattern_match::{
    match_done, match_model, match_pattern, MatchResult,
};
use crate::interpreter::{eval_view, EvalResult, Interpreter, RuntimeError, RuntimeErrorModel};
use crate::scope::{
    entry_keys, find_key, key_index, keys_of, lemma_key_index, lemma_scope_map_push, lookup,
    scope_map,
};
use crate::types::{
    binding_models, clone_bindings, clone_values, lemma_function_model, lemma_value_model, share,
    value_models, Function, FunctionModel, Value, ValueModel,
};

verus! {

/// The value of a literal. A whole number is an `Int`: that is what a
/// number defaults to where nothing asks for a `Float`.
pub open spec fn literal_model(l: LiteralModel) -> ValueModel {
    match l {
        LiteralModel::Int(i) => ValueModel::Int(i),
        LiteralModel::Float(f) => ValueModel::Float(f),
        LiteralModel::String(s) => ValueModel::String(s),
        LiteralModel::Char(c) => ValueModel::Char(c),
    }
}

/// Whether the value is the variant `name` without fields.
pub open spec fn is_constant(v: ValueModel, name: Seq<char>) -> bool {
    v matches ValueModel::Adt(n, fields, _) && n == name && fields.len() == 0
}

/// The function behind every wrapper.
pub open spec fn innermost(f: FunctionModel) -> FunctionModel
    decreases f,
{
    match f {
        FunctionModel::Wrapper { inner, .. } => innermost(*inner),
        _ => f,
    }
}

/// The field `name` of the record `v`.
pub open spec fn field_model(v: ValueModel, name: Seq<char>) -> EvalResult {
    match v {
        ValueModel::Record(fields) => match lookup(fields, name) {
            Some(x) => Ok(x),
            None => Err(RuntimeErrorModel::RecordFieldNotFound(name, v)),
        },
        _ => Err(RuntimeErrorModel::RecordUpdateOnNonRecord(name, v)),
    }
}

/// The record `fields` after each of the updates from place `i` on has
/// replaced the field of its name.
pub open spec fn update_record_model(
    fields: Seq<(Seq<char>, ValueModel)>,
    updates: Seq<(Seq<char>, ValueModel)>,
    i: nat,
) -> EvalResult
    decreases updates.len() - i,
{
    if i >= updates.len() {
        Ok(ValueModel::Record(fields))
    } else {
        let k = key_index(keys_of(fields), updates[i as int].0);
        if k < 0 {
            Err(
                RuntimeErrorModel::RecordFieldNotFound(
                    updates[i as int].0,
                    ValueModel::Record(fields),
                ),
            )
        } else {
            update_record_model(fields.update(k, updates[i as int]), updates, i + 1)
        }
    }
}

/// The arguments bound to the parameters, from place `i` on, after `acc`.
/// A parameter that its argument does not match is an error.
pub open spec fn bind_params(
    patterns: Seq<PatternModel>,
    args: Seq<ValueModel>,
    i: nat,
    acc: Seq<(Seq<char>, ValueModel)>,
) -> Result<Seq<(Seq<char>, ValueModel)>, RuntimeErrorModel>
    decreases patterns.len() - i,
{
    if i >= patterns.len() || i >= args.len() {
        Ok(acc)
    } else {
        match match_model(patterns[i as int], args[i as int]) {
            Err(e) => Err(e),
            Ok(None) => Err(
                RuntimeErrorModel::CaseExpressionNonExhaustive(
                    args[i as int],
                    seq![patterns[i as int]],
                ),
            ),
            Ok(Some(bs)) => bind_params(patterns, args, i + 1, acc + bs),
        }
    }
}

/// What giving a function one more argument leads to.
pub enum CallModel {
    /// The call is over: a function that waits for more, the result of a
    /// built-in, or an error.
    Done(EvalResult),
    /// The function has all its arguments: its body is to be evaluated in
    /// a new scope that holds what it captured and, over that, what its
    /// parameters bind.
    Run { scope: ScopeModel, body: ExprModel },
}

/// What it leads to that the function `fun` has all its arguments `all`.
pub open spec fn fire_model(arg_count: u32, fun: FunctionModel, all: Seq<ValueModel>) -> CallModel {
    match fun {
        FunctionModel::External { id, .. } => CallModel::Done(builtin_model(id, all)),
        FunctionModel::Definition { patterns, expression, captures, .. } => if patterns.len()
            != all.len() {
            CallModel::Done(
                Err(RuntimeErrorModel::FunArgumentSizeMismatch(arg_count, patterns.len() as usize)),
            )
        } else {
            match bind_params(patterns, all, 0, Seq::empty()) {
                Err(e) => CallModel::Done(Err(e)),
                Ok(bs) => CallModel::Run { scope: bind_all(captures, bs), body: expression },
            }
        },
        FunctionModel::Wrapper { .. } => CallModel::Done(
            Err(RuntimeErrorModel::ExpectedFunction(ValueModel::Unit)),
        ),
    }
}

/// What giving the argument `a` to `f` leads to. The function is not
/// changed: with fewer arguments than it waits for, the result is a new
/// function value that holds one argument more; with exactly as many, the
/// call fires.
pub open spec fn call_model(f: ValueModel, a: ValueModel) -> CallModel {
    match f {
        ValueModel::Fun { arg_count, args, fun } => {
            let all = args.push(a);
            if all.len() < arg_count {
                CallModel::Done(Ok(ValueModel::Fun { arg_count, args: all, fun }))
            } else if all.len() > arg_count {
                CallModel::Done(
                    Err(RuntimeErrorModel::FunArgumentSizeMismatch(arg_count, all.len() as usize)),
                )
            } else {
                fire_model(arg_count, innermost(*fun), all)
            }
        },
        _ => CallModel::Done(Err(RuntimeErrorModel::ExpectedFunction(f))),
    }
}

/// The scopes after each of `bindings` was added in turn.
pub open spec fn add_all_model(scopes: Seq<ScopeModel>, bindings: Seq<(Seq<char>, ValueModel)>) -> Seq<
    ScopeModel,
>
    decreases bindings.len(),
{
    if bindings.len() == 0 {
        scopes
    } else {
        add_model(
            add_all_model(scopes, bindings.drop_last()),
            bindings.last().0,
            bindings.last().1,
        )
    }
}

/// The patterns of the branches of a `case`, in order.
pub open spec fn patterns_of(branches: Seq<(PatternModel, ExprModel)>) -> Seq<PatternModel> {
    Seq::new(branches.len(), |i: int| branches[i].0)
}

/// A list of values with `acc` in front.
pub open spec fn prepend(acc: Seq<ValueModel>, r: Result<Seq<ValueModel>, RuntimeErrorModel>) -> Result<
    Seq<ValueModel>,
    RuntimeErrorModel,
> {
    match r {
        Ok(rest) => Ok(acc + rest),
        Err(e) => Err(e),
    }
}

/// A list of named values with `acc` in front.
pub open spec fn prepend_fields(
    acc: Seq<(Seq<char>, ValueModel)>,
    r: Result<Seq<(Seq<char>, ValueModel)>, RuntimeErrorModel>,
) -> Result<Seq<(Seq<char>, ValueModel)>, RuntimeErrorModel> {
    match r {
        Ok(rest) => Ok(acc + rest),
        Err(e) => Err(e),
    }
}

/// The value of `e` in `env`, where calls may nest `depth` deep.
///
/// A literal is its own value and a name what the environment has for it.
/// The parts of a tuple, a list or a record are evaluated in order. Of the
/// two branches of an `if` only the chosen one is evaluated. An
/// application evaluates the function, then the argument, and gives the
/// one to the other. A `case` evaluates its subject once and takes the
/// first branch whose pattern matches. A lambda captures its free names.
/// A `let` evaluates its entries in order, each seeing those before it.
pub open spec fn eval_model(env: Seq<ScopeModel>, e: ExprModel, depth: nat) -> EvalResult
    decreases depth, e, 1nat, 0nat,
{
    match e {
        ExprModel::Unit => Ok(ValueModel::Unit),
        ExprModel::Literal(l) => Ok(literal_model(l)),
        ExprModel::Ref(n) => match find_model(env, n) {
            Some(v) => Ok(v),
            None => Err(RuntimeErrorModel::MissingDefinition(n, env)),
        },
        ExprModel::Tuple(items) => match eval_list_model(env, items, 0, depth) {
            Ok(vs) => Ok(ValueModel::Tuple(vs)),
            Err(x) => Err(x),
        },
        ExprModel::List(items) => match eval_list_model(env, items, 0, depth) {
            Ok(vs) => Ok(ValueModel::List(vs)),
            Err(x) => Err(x),
        },
        ExprModel::Record(fields) => match eval_fields_model(env, fields, 0, depth) {
            Ok(bs) => Ok(ValueModel::Record(bs)),
            Err(x) => Err(x),
        },
        ExprModel::RecordUpdate(n, fields) => match find_model(env, n) {
            None => Err(RuntimeErrorModel::MissingDefinition(n, env)),
            Some(ValueModel::Record(held)) => match eval_fields_model(env, fields, 0, depth) {
                Ok(updates) => update_record_model(held, updates, 0),
                Err(x) => Err(x),
            },
            Some(v) => Err(RuntimeErrorModel::RecordUpdateOnNonRecord(n, v)),
        },
        ExprModel::RecordField(b, name) => match eval_model(env, *b, depth) {
            Ok(v) => field_model(v, name),
            Err(x) => Err(x),
        },
        ExprModel::If(c, a, b) => match eval_model(env, *c, depth) {
            Ok(v) => if is_constant(v, "True"@) {
                eval_model(env, *a, depth)
            } else if is_constant(v, "False"@) {
                eval_model(env, *b, depth)
            } else {
                Err(RuntimeErrorModel::InvalidIfCondition(v))
            },
            Err(x) => Err(x),
        },
        ExprModel::Application(f, a) => match eval_model(env, *f, depth) {
            Err(x) => Err(x),
            Ok(fv) => if !(fv is Fun) {
                Err(RuntimeErrorModel::ExpectedFunction(fv))
            } else {
                match eval_model(env, *a, depth) {
                    Err(x) => Err(x),
                    Ok(av) => match call_model(fv, av) {
                        CallModel::Done(r) => r,
                        CallModel::Run { scope, body } => if depth == 0 {
                            Err(RuntimeErrorModel::CallDepthExceeded)
                        } else {
                            eval_model(env.push(scope), body, (depth - 1) as nat)
                        },
                    },
                }
            },
        },
        ExprModel::Case(s, branches) => match eval_model(env, *s, depth) {
            Ok(v) => eval_branches_model(env, v, branches, 0, depth),
            Err(x) => Err(x),
        },
        ExprModel::Lambda(ty, patterns, body) => if patterns.len() > u32::MAX {
            Err(RuntimeErrorModel::FunArgumentSizeMismatch(u32::MAX, patterns.len() as usize))
        } else {
            Ok(closure_model(env, Seq::empty(), ty, patterns, *body))
        },
        ExprModel::Let(_, _) => eval_let_model(env.push(Map::empty()), e, 0, depth),
    }
}

/// The values of the expressions from place `i` on.
pub open spec fn eval_list_model(env: Seq<ScopeModel>, items: Seq<ExprModel>, i: nat, depth: nat) -> Result<
    Seq<ValueModel>,
    RuntimeErrorModel,
>
    decreases depth, items, 0nat, items.len() - i,
{
    if i >= items.len() {
        Ok(Seq::empty())
    } else {
        match eval_model(env, items[i as int], depth) {
            Err(x) => Err(x),
            Ok(v) => prepend(seq![v], eval_list_model(env, items, i + 1, depth)),
        }
    }
}

/// The values of the fields from place `i` on, each under its name.
pub open spec fn eval_fields_model(
    env: Seq<ScopeModel>,
    fields: Seq<(Seq<char>, ExprModel)>,
    i: nat,
    depth: nat,
) -> Result<Seq<(Seq<char>, ValueModel)>, RuntimeErrorModel>
    decreases depth, fields, 0nat, fields.len() - i,
{
    if i >= fields.len() {
        Ok(Seq::empty())
    } else {
        match eval_model(env, fields[i as int].1, depth) {
            Err(x) => Err(x),
            Ok(v) => prepend_fields(
                seq![(fields[i as int].0, v)],
                eval_fields_model(env, fields, i + 1, depth),
            ),
        }
    }
}

/// The value of the first branch from place `i` on whose pattern matches
/// `v`, in a scope of its own that holds what the pattern binds.
pub open spec fn eval_branches_model(
    env: Seq<ScopeModel>,
    v: ValueModel,
    branches: Seq<(PatternModel, ExprModel)>,
    i: nat,
    depth: nat,
) -> EvalResult
    decreases depth, branches, 0nat, branches.len() - i,
{
    if i >= branches.len() {
        Err(RuntimeErrorModel::CaseExpressionNonExhaustive(v, patterns_of(branches)))
    } else {
        match match_model(branches[i as int].0, v) {
            Err(x) => Err(x),
            Ok(None) => eval_branches_model(env, v, branches, i + 1, depth),
            Ok(Some(bs)) => eval_model(env.push(scope_map(bs)), branches[i as int].1, depth),
        }
    }
}

/// The error for a function with more parameters than a function value
/// can count.
pub open spec fn too_many_parameters(patterns: Seq<PatternModel>) -> RuntimeErrorModel {
    RuntimeErrorModel::FunArgumentSizeMismatch(u32::MAX, patterns.len() as usize)
}

/// The value of the `let` expression `e` from its entry `i` on, in the
/// scopes `env`, the innermost of which is the one of the `let`.
pub open spec fn eval_let_model(env: Seq<ScopeModel>, e: ExprModel, i: nat, depth: nat) -> EvalResult
    decreases depth, e, 0nat, (e->Let_0).len() - i,
{
    match e {
        ExprModel::Let(entries, body) => if i >= entries.len() {
            eval_model(env, *body, depth)
        } else {
            match entries[i as int] {
                LetEntryModel::Definition(d) => if d.patterns.len() == 0 {
                    match eval_model(env, d.expr, depth) {
                        Err(x) => Err(x),
                        Ok(v) => eval_let_model(add_model(env, d.name, v), e, i + 1, depth),
                    }
                } else if d.patterns.len() > u32::MAX {
                    Err(too_many_parameters(d.patterns))
                } else {
                    eval_let_model(
                        add_model(
                            env,
                            d.name,
                            closure_model(env, Seq::empty(), d.header, d.patterns, d.expr),
                        ),
                        e,
                        i + 1,
                        depth,
                    )
                },
                LetEntryModel::Pattern(p, x) => match eval_model(env, x, depth) {
                    Err(x) => Err(x),
                    Ok(v) => match match_model(p, v) {
                        Err(x) => Err(x),
                        Ok(None) => Err(
                            RuntimeErrorModel::CaseExpressionNonExhaustive(v, seq![p]),
                        ),
                        Ok(Some(bs)) => eval_let_model(add_all_model(env, bs), e, i + 1, depth),
                    },
                },
            }
        },
        _ => Err(RuntimeErrorModel::CallDepthExceeded),
    }
}

/// Laying bindings over a list's mapping is appending them to the list.
pub proof fn lemma_bind_all_concat(
    held: Seq<(Seq<char>, ValueModel)>,
    bindings: Seq<(Seq<char>, ValueModel)>,
)
    ensures
        scope_map(held + bindings) == bind_all(scope_map(held), bindings),
    decreases bindings.len(),
{
    if bindings.len() == 0 {
        assert(held + bindings =~= held);
    } else {
        let shorter = bindings.drop_last();
        lemma_bind_all_concat(held, shorter);
        assert(held + bindings =~= (held + shorter).push(bindings.last()));
        lemma_scope_map_push(held + shorter, bindings.last().0, bindings.last().1);
    }
}

/// Adding bindings changes the innermost scope only, and opens none where
/// there is one.
pub proof fn lemma_add_all_keeps(scopes: Seq<ScopeModel>, bindings: Seq<(Seq<char>, ValueModel)>)
    requires
        scopes.len() > 0,
    ensures
        add_all_model(scopes, bindings).len() == scopes.len(),
        add_all_model(scopes, bindings).drop_last() == scopes.drop_last(),
    decreases bindings.len(),
{
    if bindings.len() > 0 {
        lemma_add_all_keeps(scopes, bindings.drop_last());
        let before = add_all_model(scopes, bindings.drop_last());
        assert(add_all_model(scopes, bindings).drop_last() =~= before.drop_last());
    }
}

/// What giving a function one more argument has led to.
pub enum CallPlan {
    /// The call is over, with this value.
    Done(Value),
    /// The body of the function is to be evaluated in a new scope that
    /// holds these bindings.
    Run(Vec<(String, Value)>, Arc<Function>),
}

/// The model of a prepared call.
pub open spec fn plan_model(r: Result<CallPlan, RuntimeError>) -> CallModel {
    match r {
        Err(e) => CallModel::Done(Err(e@)),
        Ok(CallPlan::Done(v)) => CallModel::Done(Ok(v@)),
        Ok(CallPlan::Run(scope, fun)) => CallModel::Run {
            scope: scope_map(binding_models(scope@)),
            body: fun@->Definition_expression,
        },
    }
}

/// The value of a literal.
pub fn literal_value(l: &Literal) -> (r: Value)
    ensures
        r@ == literal_model(l@),
{
    let r = match l {
        Literal::Int(i) => Value::Int(*i),
        Literal::Float(f) => Value::Float(*f),
        Literal::String(s) => Value::String(s.clone()),
        Literal::Char(c) => Value::Char(*c),
    };
    proof {
        lemma_value_model(&r);
    }
    r
}

/// Whether the value is the variant `name` without fields.
pub fn is_constant_value(v: &Value, name: &str) -> (r: bool)
    ensures
        r == is_constant(v@, name@),
{
    proof {
        lemma_value_model(v);
    }
    match v {
        Value::Adt(n, fields, _) => *n == String::from_str(name) && fields.len() == 0,
        _ => false,
    }
}

/// The function behind every wrapper.
pub fn innermost_of(f: &Arc<Function>) -> (r: Arc<Function>)
    ensures
        r@ == innermost(f@),
        !(r@ is Wrapper),
    decreases f,
{
    proof {
        lemma_function_model(f);
    }
    match &**f {
        Function::Wrapper { inner, .. } => innermost_of(inner),
        _ => share(f),
    }
}

/// The field `name` of the record `v`.
pub fn get_field(v: Value, name: &String) -> (r: Result<Value, RuntimeError>)
    ensures
        eval_view(r) == field_model(v@, name@),
{
    proof {
        lemma_value_model(&v);
    }
    let found: Option<Option<Value>> = match &v {
        Value::Record(fields) => {
            proof {
                assert(keys_of(binding_models(fields@)) =~= entry_keys(fields@));
                lemma_key_index(entry_keys(fields@), name@);
            }
            match find_key(fields, name) {
                Some(k) => Some(Some(fields[k].1.clone())),
                None => Some(None),
            }
        },
        _ => None,
    };
    match found {
        Some(Some(x)) => Ok(x),
        Some(None) => Err(RuntimeError::RecordFieldNotFound(name.clone(), v)),
        None => Err(RuntimeError::RecordUpdateOnNonRecord(name.clone(), v)),
    }
}

/// The record `held` after each update has replaced the field of its
/// name.
pub fn update_record(held: Vec<(String, Value)>, updates: &Vec<(String, Value)>) -> (r: Result<
    Value,
    RuntimeError,
>)
    ensures
        eval_view(r) == update_record_model(binding_models(held@), binding_models(updates@), 0),
{
    let ghost um = binding_models(updates@);
    let ghost start = binding_models(held@);
    let mut fields = held;
    let mut i: usize = 0;
    while i < updates.len()
        invariant
            i <= updates.len(),
            um == binding_models(updates@),
            start == binding_models(held@),
            update_record_model(binding_models(fields@), um, i as nat) == update_record_model(
                start,
                um,
                0,
            ),
        decreases updates.len() - i,
    {
        proof {
            assert(keys_of(binding_models(fields@)) =~= entry_keys(fields@));
            lemma_key_index(entry_keys(fields@), updates[i as int].0@);
            assert(um[i as int] == (updates[i as int].0@, updates[i as int].1@));
        }
        match find_key(&fields, &updates[i].0) {
            None => {
                let r = Value::Record(fields);
                proof {
                    lemma_value_model(&r);
                }
                return Err(RuntimeError::RecordFieldNotFound(updates[i].0.clone(), r));
            },
            Some(k) => {
                let ghost before = binding_models(fields@);
                fields.set(k, (updates[i].0.clone(), updates[i].1.clone()));
                assert(binding_models(fields@) =~= before.update(k as int, um[i as int]));
            },
        }
        i += 1;
    }
    let r = Value::Record(fields);
    proof {
        lemma_value_model(&r);
    }
    Ok(r)
}

/// Gives the argument `a` to the function `f`.
pub fn prepare_call(f: Value, a: Value) -> (r: Result<CallPlan, RuntimeError>)
    ensures
        plan_model(r) == call_model(f@, a@),
        r matches Ok(CallPlan::Run(_, fun)) ==> fun@ is Definition,
{
    proof {
        lemma_value_model(&f);
    }
    match f {
        Value::Fun { arg_count, args, fun } => {
            let mut all = args;
            let ghost held = value_models(all@);
            all.push(a);
            assert(value_models(all@) =~= held.push(a@));
            let n = all.len();
            if n < arg_count as usize {
                let r = Value::Fun { arg_count, args: all, fun };
                proof {
                    lemma_value_model(&r);
                }
                Ok(CallPlan::Done(r))
            } else if n > arg_count as usize {
                Err(RuntimeError::FunArgumentSizeMismatch(arg_count, n))
            } else {
                let target = innermost_of(&fun);
                fire(arg_count, target, &all)
            }
        },
        other => Err(RuntimeError::ExpectedFunction(other)),
    }
}

/// Fires the function `target`, which has all its arguments.
fn fire(arg_count: u32, target: Arc<Function>, all: &Vec<Value>) -> (r: Result<
    CallPlan,
    RuntimeError,
>)
    requires
        !(target@ is Wrapper),
    ensures
        plan_model(r) == fire_model(arg_count, target@, value_models(all@)),
        r matches Ok(CallPlan::Run(_, fun)) ==> fun@ is Definition,
{
    proof {
        lemma_function_model(&target);
    }
    let scope = match &*target {
        Function::External { id, .. } => {
            return match call_builtin(*id, all) {
                Ok(v) => Ok(CallPlan::Done(v)),
                Err(e) => Err(e),
            };
        },
        Function::Wrapper { .. } => {
            return Err(RuntimeError::ExpectedFunction(Value::Unit));
        },
        Function::Definition { patterns, captures, .. } => {
            if patterns.len() != all.len() {
                return Err(RuntimeError::FunArgumentSizeMismatch(arg_count, patterns.len()));
            }
            let ghost pm = pattern_models(patterns@);
            let ghost am = value_models(all@);
            let ghost caps = binding_models(captures@);
            let mut scope = clone_bindings(captures);
            let ghost mut acc: Seq<(Seq<char>, ValueModel)> = Seq::empty();
            assert(caps + acc =~= caps);
            let mut i: usize = 0;
            while i < patterns.len()
                invariant
                    i <= patterns.len(),
                    patterns.len() == all.len(),
                    pm == pattern_models(patterns@),
                    am == value_models(all@),
                    target@ matches FunctionModel::Definition {
                        patterns: p,
                        captures: c,
                        ..
                    } && p == pm && c == scope_map(caps),
                    binding_models(scope@) == caps + acc,
                    bind_params(pm, am, i as nat, acc) == bind_params(pm, am, 0, Seq::empty()),
                decreases patterns.len() - i,
            {
                match match_pattern(&patterns[i], &all[i], &mut scope) {
                    Err(e) => {
                        return Err(e);
                    },
                    Ok(false) => {
                        let mut tried: Vec<Pattern> = Vec::new();
                        tried.push(patterns[i].clone());
                        assert(pattern_models(tried@) =~= seq![pm[i as int]]);
                        return Err(
                            RuntimeError::CaseExpressionNonExhaustive(all[i].clone(), tried),
                        );
                    },
                    Ok(true) => {
                        proof {
                            let bs = match_model(pm[i as int], am[i as int])->Ok_0->Some_0;
                            assert(caps + (acc + bs) =~= (caps + acc) + bs);
                            acc = acc + bs;
                        }
                    },
                }
                i += 1;
            }
            proof {
                lemma_bind_all_concat(caps, acc);
            }
            scope
        },
    };
    Ok(CallPlan::Run(scope, target))
}

/// The innermost scope of `env` gets each of `bindings` in turn.
pub fn add_all(env: &mut DynamicEnv, bindings: &Vec<(String, Value)>)
    ensures
        final(env)@ == add_all_model(old(env)@, binding_models(bindings@)),
{
    let ghost all = binding_models(bindings@);
    let mut i: usize = 0;
    assert(all.take(0) =~= Seq::<(Seq<char>, ValueModel)>::empty());
    while i < bindings.len()
        invariant
            i <= bindings.len(),
            all == binding_models(bindings@),
            env@ == add_all_model(old(env)@, all.take(i as int)),
        decreases bindings.len() - i,
    {
        proof {
            assert(all.take(i + 1).drop_last() =~= all.take(i as int));
            assert(all.take(i + 1).last() == (bindings[i as int].0@, bindings[i as int].1@));
        }
        env.add(&bindings[i].0, bindings[i].1.clone());
        i += 1;
    }
    assert(all.take(i as int) =~= all);
}

/// Evaluates `expr` in `env`, where calls may nest `depth` deep. The
/// environment is the same afterwards, whatever the result.
pub fn eval_expr(env: &mut DynamicEnv, expr: &Expr, depth: u32) -> (r: Result<Value, RuntimeError>)
    ensures
        eval_view(r) == eval_model(old(env)@, expr@, depth as nat),
        final(env)@ == old(env)@,
    decreases depth, expr, 1nat,
{
    proof {
        lemma_expr_model(expr);
    }
    match expr {
        Expr::Unit => Ok(Value::Unit),
        Expr::Literal(l) => Ok(literal_value(l)),
        Expr::Ref(n) => match env.find(n) {
            Some(v) => Ok(v),
            None => Err(RuntimeError::MissingDefinition(n.clone(), env.clone())),
        },
        Expr::Tuple(items) => match eval_list(env, items, depth) {
            Ok(vs) => {
                let r = Value::Tuple(vs);
                proof {
                    lemma_value_model(&r);
                }
                Ok(r)
            },
            Err(e) => Err(e),
        },
        Expr::List(items) => match eval_list(env, items, depth) {
            Ok(vs) => {
                let r = Value::List(vs);
                proof {
                    lemma_value_model(&r);
                }
                Ok(r)
            },
            Err(e) => Err(e),
        },
        Expr::Record(fields) => match eval_fields(env, fields, depth) {
            Ok(bs) => {
                let r = Value::Record(bs);
                proof {
                    lemma_value_model(&r);
                }
                Ok(r)
            },
            Err(e) => Err(e),
        },
        Expr::RecordUpdate(n, fields) => match env.find(n) {
            None => Err(RuntimeError::MissingDefinition(n.clone(), env.clone())),
            Some(Value::Record(held)) => {
                proof {
                    lemma_value_model(&Value::Record(held));
                }
                match eval_fields(env, fields, depth) {
                    Ok(updates) => update_record(held, &updates),
                    Err(e) => Err(e),
                }
            },
            Some(v) => {
                proof {
                    lemma_value_model(&v);
                }
                Err(RuntimeError::RecordUpdateOnNonRecord(n.clone(), v))
            },
        },
        Expr::RecordField(b, name) => match eval_expr(env, b, depth) {
            Ok(v) => get_field(v, name),
            Err(e) => Err(e),
        },
        Expr::If(c, a, b) => match eval_expr(env, c, depth) {
            Ok(v) => {
                if is_constant_value(&v, "True") {
                    eval_expr(env, a, depth)
                } else if is_constant_value(&v, "False") {
                    eval_expr(env, b, depth)
                } else {
                    Err(RuntimeError::InvalidIfCondition(v))
                }
            },
            Err(e) => Err(e),
        },
        Expr::Application(f, a) => {
            let fv = match eval_expr(env, f, depth) {
                Ok(fv) => fv,
                Err(e) => {
                    return Err(e);
                },
            };
            proof {
                lemma_value_model(&fv);
            }
            let is_fun = match &fv {
                Value::Fun { .. } => true,
                _ => false,
            };
            if !is_fun {
                return Err(RuntimeError::ExpectedFunction(fv));
            }
            let av = match eval_expr(env, a, depth) {
                Ok(av) => av,
                Err(e) => {
                    return Err(e);
                },
            };
            match prepare_call(fv, av) {
                Err(e) => Err(e),
                Ok(CallPlan::Done(v)) => Ok(v),
                Ok(CallPlan::Run(scope, fun)) => {
                    if depth == 0 {
                        return Err(RuntimeError::CallDepthExceeded);
                    }
                    proof {
                        lemma_function_model(&fun);
                    }
                    match &*fun {
                        Function::Definition { expression, .. } => {
                            env.enter_with(scope);
                            let r = eval_expr(env, expression, depth - 1);
                            env.exit_block();
                            assert(env@ =~= old(env)@);
                            r
                        },
                        _ => Err(RuntimeError::CallDepthExceeded),
                    }
                },
            }
        },
        Expr::Case(s, branches) => match eval_expr(env, s, depth) {
            Ok(v) => eval_branches(env, &v, branches, depth),
            Err(e) => Err(e),
        },
        Expr::Lambda(ty, patterns, body) => {
            if patterns.len() > u32::MAX as usize {
                Err(RuntimeError::FunArgumentSizeMismatch(u32::MAX, patterns.len()))
            } else {
                Ok(Interpreter::create_lambda_closure(env, ty, patterns, body))
            }
        },
        Expr::Let(_, _) => {
            env.enter_block();
            let r = eval_let(env, expr, depth);
            env.exit_block();
            assert(env@ =~= old(env)@);
            r
        },
    }
}

/// Evaluates the expressions in order.
pub fn eval_list(env: &mut DynamicEnv, items: &Vec<Expr>, depth: u32) -> (r: Result<
    Vec<Value>,
    RuntimeError,
>)
    ensures
        match eval_list_model(old(env)@, expr_models(items@), 0, depth as nat) {
            Ok(vs) => r matches Ok(x) && value_models(x@) == vs,
            Err(e) => r matches Err(x) && x@ == e,
        },
        final(env)@ == old(env)@,
    decreases depth, items, 0nat,
{
    let ghost all = expr_models(items@);
    let ghost scopes = env@;
    let mut out: Vec<Value> = Vec::new();
    let mut i: usize = 0;
    assert(value_models(out@) =~= Seq::<ValueModel>::empty());
    while i < items.len()
        invariant
            i <= items.len(),
            all == expr_models(items@),
            env@ == scopes,
            scopes == old(env)@,
            prepend(value_models(out@), eval_list_model(scopes, all, i as nat, depth as nat))
                == eval_list_model(scopes, all, 0, depth as nat),
        decreases items.len() - i,
    {
        let ghost before = value_models(out@);
        match eval_expr(env, &items[i], depth) {
            Err(e) => {
                return Err(e);
            },
            Ok(v) => {
                out.push(v);
                proof {
                    assert(value_models(out@) =~= before + seq![v@]);
                    let rest = eval_list_model(scopes, all, (i + 1) as nat, depth as nat);
                    if let Ok(vs) = rest {
                        assert(before + (seq![v@] + vs) =~= (before + seq![v@]) + vs);
                    }
                }
            },
        }
        i += 1;
    }
    assert(value_models(out@) + Seq::<ValueModel>::empty() =~= value_models(out@));
    Ok(out)
}

/// Evaluates the expression of each field in order.
pub fn eval_fields(env: &mut DynamicEnv, fields: &Vec<(String, Expr)>, depth: u32) -> (r: Result<
    Vec<(String, Value)>,
    RuntimeError,
>)
    ensures
        match eval_fields_model(old(env)@, entry_models(fields@), 0, depth as nat) {
            Ok(bs) => r matches Ok(x) && binding_models(x@) == bs,
            Err(e) => r matches Err(x) && x@ == e,
        },
        final(env)@ == old(env)@,
    decreases depth, fields, 0nat,
{
    let ghost all = entry_models(fields@);
    let ghost scopes = env@;
    let mut out: Vec<(String, Value)> = Vec::new();
    let mut i: usize = 0;
    assert(binding_models(out@) =~= Seq::<(Seq<char>, ValueModel)>::empty());
    while i < fields.len()
        invariant
            i <= fields.len(),
            all == entry_models(fields@),
            env@ == scopes,
            scopes == old(env)@,
            prepend_fields(
                binding_models(out@),
                eval_fields_model(scopes, all, i as nat, depth as nat),
            ) == eval_fields_model(scopes, all, 0, depth as nat),
        decreases fields.len() - i,
    {
        let ghost before = binding_models(out@);
        match eval_expr(env, &fields[i].1, depth) {
            Err(e) => {
                return Err(e);
            },
            Ok(v) => {
                out.push((fields[i].0.clone(), v));
                proof {
                    let b = (fields[i as int].0@, v@);
                    assert(binding_models(out@) =~= before + seq![b]);
                    let rest = eval_fields_model(scopes, all, (i + 1) as nat, depth as nat);
                    if let Ok(bs) = rest {
                        assert(before + (seq![b] + bs) =~= (before + seq![b]) + bs);
                    }
                }
            },
        }
        i += 1;
    }
    assert(binding_models(out@) + Seq::<(Seq<char>, ValueModel)>::empty() =~= binding_models(
        out@,
    ));
    Ok(out)
}

/// Evaluates the first branch whose pattern matches `v`.
pub fn eval_branches(
    env: &mut DynamicEnv,
    v: &Value,
    branches: &Vec<(Pattern, Expr)>,
    depth: u32,
) -> (r: Result<Value, RuntimeError>)
    ensures
        eval_view(r) == eval_branches_model(
            old(env)@,
            v@,
            branch_models(branches@),
            0,
            depth as nat,
        ),
        final(env)@ == old(env)@,
    decreases depth, branches, 0nat,
{
    let ghost all = branch_models(branches@);
    let ghost scopes = env@;
    let mut tried: Vec<Pattern> = Vec::new();
    let mut i: usize = 0;
    while i < branches.len()
        invariant
            i <= branches.len(),
            all == branch_models(branches@),
            env@ == scopes,
            scopes == old(env)@,
            tried.len() == i,
            forall|j: int| 0 <= j < i ==> tried[j]@ == branches[j].0@,
            eval_branches_model(scopes, v@, all, i as nat, depth as nat) == eval_branches_model(
                scopes,
                v@,
                all,
                0,
                depth as nat,
            ),
        decreases branches.len() - i,
    {
        let mut bindings: Vec<(String, Value)> = Vec::new();
        assert(binding_models(bindings@) =~= Seq::<(Seq<char>, ValueModel)>::empty());
        match match_pattern(&branches[i].0, v, &mut bindings) {
            Err(e) => {
                return Err(e);
            },
            Ok(false) => {},
            Ok(true) => {
                proof {
                    let bs = match_model(all[i as int].0, v@)->Ok_0->Some_0;
                    assert(binding_models(bindings@) =~= bs);
                }
                env.enter_with(bindings);
                let r = eval_expr(env, &branches[i].1, depth);
                env.exit_block();
                assert(env@ =~= scopes);
                return r;
            },
        }
        tried.push(branches[i].0.clone());
        i += 1;
    }
    assert(pattern_models(tried@) =~= patterns_of(all));
    Err(RuntimeError::CaseExpressionNonExhaustive(v.clone(), tried))
}

/// Evaluates the entries of the `let` expression `expr` in order, each in
/// the innermost scope of `env`, and then its body.
fn eval_let(env: &mut DynamicEnv, expr: &Expr, depth: u32) -> (r: Result<Value, RuntimeError>)
    requires
        expr is Let,
        old(env)@.len() > 0,
    ensures
        eval_view(r) == eval_let_model(old(env)@, expr@, 0, depth as nat),
        final(env)@.len() == old(env)@.len(),
        final(env)@.drop_last() == old(env)@.drop_last(),
    decreases depth, expr, 0nat,
{
    proof {
        lemma_expr_model(expr);
    }
    match expr {
        Expr::Let(entries, body) => {
            let ghost e = expr@;
            let mut i: usize = 0;
            while i < entries.len()
                invariant
                    i <= entries.len(),
                    *expr matches Expr::Let(x, y) && x == entries && y == body,
                    e == expr@,
                    e == ExprModel::Let(let_models(entries@), Box::new(body@)),
                    env@.len() == old(env)@.len(),
                    env@.len() > 0,
                    env@.drop_last() == old(env)@.drop_last(),
                    eval_let_model(env@, e, i as nat, depth as nat) == eval_let_model(
                        old(env)@,
                        e,
                        0,
                        depth as nat,
                    ),
                decreases entries.len() - i,
            {
                let ghost scopes = env@;
                assert(let_models(entries@)[i as int] == entries[i as int]@);
                match &entries[i] {
                    LetEntry::Definition(def) => {
                        if def.patterns.len() == 0 {
                            match eval_expr(env, &def.expr, depth) {
                                Err(x) => {
                                    return Err(x);
                                },
                                Ok(v) => {
                                    env.add(&def.name, v);
                                },
                            }
                        } else if def.patterns.len() > u32::MAX as usize {
                            return Err(
                                RuntimeError::FunArgumentSizeMismatch(
                                    u32::MAX,
                                    def.patterns.len(),
                                ),
                            );
                        } else {
                            let v = Interpreter::create_function_closure(env, def);
                            env.add(&def.name, v);
                        }
                        assert(env@.drop_last() =~= scopes.drop_last());
                    },
                    LetEntry::Pattern(p, x) => {
                        match eval_expr(env, x, depth) {
                            Err(x) => {
                                return Err(x);
                            },
                            Ok(v) => {
                                let mut bindings: Vec<(String, Value)> = Vec::new();
                                assert(binding_models(bindings@) =~= Seq::<
                                    (Seq<char>, ValueModel),
                                >::empty());
                                match match_pattern(p, &v, &mut bindings) {
                                    Err(x) => {
                                        return Err(x);
                                    },
                                    Ok(false) => {
                                        let mut tried: Vec<Pattern> = Vec::new();
                                        tried.push(p.clone());
                                        assert(pattern_models(tried@) =~= seq![p@]);
                                        return Err(
                                            RuntimeError::CaseExpressionNonExhaustive(v, tried),
                                        );
                                    },
                                    Ok(true) => {
                                        proof {
                                            let bs = match_model(p@, v@)->Ok_0->Some_0;
                                            assert(binding_models(bindings@) =~= bs);
                                            lemma_add_all_keeps(scopes, bs);
                                        }
                                        add_all(env, &bindings);
                                    },
                                }
                            },
                        }
                    },
                }
                i += 1;
            }
            eval_expr(env, body, depth)
        },
        _ => Err(RuntimeError::CallDepthExceeded),
    }
}

/// A function that waits for more arguments than it has, the new one
/// counted, does not fire: it becomes a function value that holds the new
/// argument after those it held, and is the same otherwise.
pub proof fn law_partial_application(
    arg_count: u32,
    args: Seq<ValueModel>,
    fun: FunctionModel,
    a: ValueModel,
)
    requires
        args.len() + 1 < arg_count,
    ensures
        call_model(ValueModel::Fun { arg_count, args, fun: Box::new(fun) }, a) == CallModel::Done(
            Ok(ValueModel::Fun { arg_count, args: args.push(a), fun: Box::new(fun) }),
        ),
{
}

/// A function of two parameters `x` and `y`, made in `env`: given one
/// argument it holds it and waits; given the second, it fires, and its
/// body is evaluated in a scope that holds what it captured, `x` bound
/// to the first argument and `y` to the second.
pub proof fn law_curried_application(
    env: Seq<ScopeModel>,
    ty: TypeModel,
    x: Seq<char>,
    y: Seq<char>,
    body: ExprModel,
    a: ValueModel,
    b: ValueModel,
)
    ensures
        ({
            let patterns = seq![PatternModel::Var(x), PatternModel::Var(y)];
            let f = closure_model(env, Seq::empty(), ty, patterns, body);
            let waiting = ValueModel::Fun {
                arg_count: 2,
                args: seq![a],
                fun: f->Fun_fun,
            };
            &&& call_model(f, a) == CallModel::Done(Ok(waiting))
            &&& call_model(waiting, b) == (CallModel::Run {
                scope: captures_model(env, Seq::empty(), patterns, body).insert(x, a).insert(
                    y,
                    b,
                ),
                body,
            })
        }),
{
    let patterns = seq![PatternModel::Var(x), PatternModel::Var(y)];
    let captures = captures_model(env, Seq::empty(), patterns, body);
    let f = closure_model(env, Seq::empty(), ty, patterns, body);
    let none = Seq::<ValueModel>::empty();
    assert(none.push(a) =~= seq![a]);
    let all = seq![a].push(b);
    let first = seq![(x, a)];
    let both = seq![(x, a), (y, b)];
    let start = Seq::<(Seq<char>, ValueModel)>::empty();
    assert(start + first =~= first);
    assert(first + seq![(y, b)] =~= both);
    assert(bind_params(patterns, all, 2, both) == Ok::<_, RuntimeErrorModel>(both));
    assert(bind_params(patterns, all, 1, first) == Ok::<_, RuntimeErrorModel>(both));
    assert(bind_params(patterns, all, 0, start) == Ok::<_, RuntimeErrorModel>(both));
    assert(both.drop_last() =~= first);
    assert(first.drop_last() =~= start);
    assert(bind_all(captures, start) == captures);
    assert(bind_all(captures, first) == captures.insert(x, a));
    assert(bind_all(captures, both) == captures.insert(x, a).insert(y, b));
}

/// A function sees, when it is called, the value that a name had when
/// the function was made, whatever the name stands for by then: for a
/// function of one parameter `y`, made in `made_in` and called in
/// `called_in`, and a name `x` other than `y` that its body uses and
/// that `made_in` knew.
pub proof fn law_closure_sees_captured_value(
    made_in: Seq<ScopeModel>,
    called_in: Seq<ScopeModel>,
    ty: TypeModel,
    y: Seq<char>,
    body: ExprModel,
    x: Seq<char>,
    arg: ValueModel,
    depth: nat,
)
    requires
        x != y,
        free_names(body, seq![y]).contains(x),
        find_model(made_in, x).is_some(),
    ensures
        ({
            let f = closure_model(made_in, Seq::empty(), ty, seq![PatternModel::Var(y)], body);
            &&& call_model(f, arg) matches CallModel::Run { scope, body: b }
            &&& b == body
            &&& find_model(called_in.push(scope), x) == find_model(made_in, x)
            &&& eval_model(called_in.push(scope), ExprModel::Ref(x), depth) == Ok::<
                _,
                RuntimeErrorModel,
            >(find_model(made_in, x).unwrap())
        }),
{
    let patterns = seq![PatternModel::Var(y)];
    let captures = captures_model(made_in, Seq::empty(), patterns, body);
    let none = Seq::<ValueModel>::empty();
    let all = none.push(arg);
    let start = Seq::<(Seq<char>, ValueModel)>::empty();
    let one = seq![(y, arg)];
    assert(start + one =~= one);
    assert(bind_params(patterns, all, 1, one) == Ok::<_, RuntimeErrorModel>(one));
    assert(bind_params(patterns, all, 0, start) == Ok::<_, RuntimeErrorModel>(one));
    assert(one.drop_last() =~= start);
    assert(bind_all(captures, start) == captures);
    assert(bind_all(captures, one) == captures.insert(y, arg));
    assert(pattern_names_from(patterns, 1) =~= Seq::<Seq<char>>::empty());
    assert(pattern_names_from(patterns, 0) =~= seq![y]) by {
        assert(pattern_names(patterns[0]) + pattern_names_from(patterns, 1) =~= seq![y]);
    }
    assert(Seq::<Seq<char>>::empty() + seq![y] =~= seq![y]);
    assert(captures.contains_key(x));
    let scope = captures.insert(y, arg);
    assert(called_in.push(scope).last() == scope);
}

/// Asking a record for a field that it does not have fails, and the
/// error names the field and the record.
pub proof fn law_missing_field(
    env: Seq<ScopeModel>,
    record: ExprModel,
    name: Seq<char>,
    fields: Seq<(Seq<char>, ValueModel)>,
    depth: nat,
)
    requires
        eval_model(env, record, depth) == Ok::<_, RuntimeErrorModel>(ValueModel::Record(fields)),
        lookup(fields, name).is_none(),
    ensures
        eval_model(env, ExprModel::RecordField(Box::new(record), name), depth) == Err::<
            ValueModel,
            _,
        >(RuntimeErrorModel::RecordFieldNotFound(name, ValueModel::Record(fields))),
{
}

/// A name that the environment does not know is a missing definition. As
/// an evaluation leaves the environment as it found it, a name that a
/// `let` bound is as unknown after the `let` as it was before.
pub proof fn law_unknown_name(env: Seq<ScopeModel>, name: Seq<char>, depth: nat)
    requires
        find_model(env, name).is_none(),
    ensures
        eval_model(env, ExprModel::Ref(name), depth) == Err::<ValueModel, _>(
            RuntimeErrorModel::MissingDefinition(name, env),
        ),
{
}

} // verus!
