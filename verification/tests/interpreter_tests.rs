use std::sync::Arc;

use elm_interpreter::ast::{Definition, Expr, LetEntry, Literal, Pattern, Type};
use elm_interpreter::basics::default_lang_env;
use elm_interpreter::interpreter::builtins::{bool_value, call_builtin, INT_ADD, INT_LT};
use elm_interpreter::interpreter::dynamic_env::DynamicEnv;
use elm_interpreter::interpreter::expression_eval::{eval_expr, prepare_call, CallPlan};
use elm_interpreter::interpreter::pattern_match::match_pattern;
use elm_interpreter::interpreter::{
    eval_expression, eval_statement, Interpreter, RuntimeError, DEFAULT_CALL_DEPTH,
};
use elm_interpreter::types::{Adt, AdtVariant, Function, Statement, Value};

fn s(text: &str) -> String {
    text.to_string()
}

fn num(i: i64) -> Expr {
    Expr::Literal(Literal::Int(i))
}

fn name(text: &str) -> Expr {
    Expr::Ref(s(text))
}

fn var(text: &str) -> Pattern {
    Pattern::Var(s(text))
}

fn call(f: Expr, a: Expr) -> Expr {
    Expr::Application(Box::new(f), Box::new(a))
}

fn call2(f: &str, a: Expr, b: Expr) -> Expr {
    call(call(name(f), a), b)
}

fn any_type() -> Type {
    Type::Var(s("a"))
}

fn lambda(params: Vec<Pattern>, body: Expr) -> Expr {
    Expr::Lambda(any_type(), params, Box::new(body))
}

fn define(n: &str, params: Vec<Pattern>, body: Expr) -> Statement {
    Statement::Def(Definition { header: any_type(), name: s(n), patterns: params, expr: body })
}

fn maybe() -> Arc<Adt> {
    Arc::new(Adt {
        name: s("Maybe"),
        types: vec![s("a")],
        variants: vec![
            AdtVariant { name: s("Just"), types: vec![Type::Var(s("a"))] },
            AdtVariant { name: s("Nothing"), types: vec![] },
        ],
    })
}

#[test]
fn literal_evaluates_to_itself() {
    let mut env = default_lang_env();
    assert_eq!(eval_expression(&mut env, &num(1)), Ok(Value::Int(1)));
    assert_eq!(
        eval_expression(&mut env, &Expr::Literal(Literal::Float(4607182418800017408))),
        Ok(Value::Float(4607182418800017408))
    );
    assert_eq!(
        eval_expression(&mut env, &Expr::Literal(Literal::String(s("hi")))),
        Ok(Value::String(s("hi")))
    );
    assert_eq!(eval_expression(&mut env, &Expr::Literal(Literal::Char('c'))), Ok(Value::Char('c')));
    assert_eq!(eval_expression(&mut env, &Expr::Unit), Ok(Value::Unit));
}

#[test]
fn if_takes_the_chosen_branch_only() {
    let mut env = default_lang_env();
    let e = Expr::If(Box::new(name("True")), Box::new(num(1)), Box::new(name("missing")));
    assert_eq!(eval_expression(&mut env, &e), Ok(Value::Int(1)));
    let e = Expr::If(Box::new(name("False")), Box::new(name("missing")), Box::new(num(2)));
    assert_eq!(eval_expression(&mut env, &e), Ok(Value::Int(2)));
}

#[test]
fn if_with_a_condition_that_is_no_bool_fails() {
    let mut env = default_lang_env();
    let e = Expr::If(Box::new(num(0)), Box::new(num(1)), Box::new(num(2)));
    assert_eq!(eval_expression(&mut env, &e), Err(RuntimeError::InvalidIfCondition(Value::Int(0))));
}

#[test]
fn missing_definition_names_the_name_and_the_environment() {
    let mut env = DynamicEnv::new();
    env.add(&s("y"), Value::Int(3));
    let before = env.clone();
    assert_eq!(
        eval_expression(&mut env, &name("x")),
        Err(RuntimeError::MissingDefinition(s("x"), before))
    );
}

#[test]
fn tuple_list_and_record_keep_their_order() {
    let mut env = default_lang_env();
    let e = Expr::Tuple(vec![num(1), Expr::Unit, num(3)]);
    assert_eq!(
        eval_expression(&mut env, &e),
        Ok(Value::Tuple(vec![Value::Int(1), Value::Unit, Value::Int(3)]))
    );
    let e = Expr::List(vec![num(3), num(2), num(1)]);
    assert_eq!(
        eval_expression(&mut env, &e),
        Ok(Value::List(vec![Value::Int(3), Value::Int(2), Value::Int(1)]))
    );
    let e = Expr::Record(vec![(s("b"), num(1)), (s("a"), num(2))]);
    assert_eq!(
        eval_expression(&mut env, &e),
        Ok(Value::Record(vec![(s("b"), Value::Int(1)), (s("a"), Value::Int(2))]))
    );
}

#[test]
fn the_first_failing_part_decides_the_error() {
    let mut env = DynamicEnv::new();
    let before = env.clone();
    let e = Expr::Tuple(vec![num(1), name("p"), name("q")]);
    assert_eq!(
        eval_expression(&mut env, &e),
        Err(RuntimeError::MissingDefinition(s("p"), before))
    );
}

#[test]
fn record_field_is_found_by_name() {
    let mut env = default_lang_env();
    let record = Expr::Record(vec![(s("a"), num(1)), (s("b"), num(2))]);
    let e = Expr::RecordField(Box::new(record), s("b"));
    assert_eq!(eval_expression(&mut env, &e), Ok(Value::Int(2)));
}

#[test]
fn record_field_not_found_names_field_and_record() {
    let mut env = default_lang_env();
    let record = Expr::Record(vec![(s("a"), num(1))]);
    let e = Expr::RecordField(Box::new(record), s("z"));
    assert_eq!(
        eval_expression(&mut env, &e),
        Err(RuntimeError::RecordFieldNotFound(
            s("z"),
            Value::Record(vec![(s("a"), Value::Int(1))])
        ))
    );
}

#[test]
fn field_of_a_value_that_is_no_record_fails() {
    let mut env = default_lang_env();
    let e = Expr::RecordField(Box::new(num(5)), s("a"));
    assert_eq!(
        eval_expression(&mut env, &e),
        Err(RuntimeError::RecordUpdateOnNonRecord(s("a"), Value::Int(5)))
    );
}

#[test]
fn record_update_replaces_the_named_fields() {
    let mut env = default_lang_env();
    env.add(&s("r"), Value::Record(vec![(s("a"), Value::Int(1)), (s("b"), Value::Int(2))]));
    let e = Expr::RecordUpdate(s("r"), vec![(s("b"), num(7))]);
    assert_eq!(
        eval_expression(&mut env, &e),
        Ok(Value::Record(vec![(s("a"), Value::Int(1)), (s("b"), Value::Int(7))]))
    );
    let e = Expr::RecordUpdate(s("r"), vec![(s("c"), num(7))]);
    assert_eq!(
        eval_expression(&mut env, &e),
        Err(RuntimeError::RecordFieldNotFound(
            s("c"),
            Value::Record(vec![(s("a"), Value::Int(1)), (s("b"), Value::Int(2))])
        ))
    );
    env.add(&s("n"), Value::Int(1));
    let e = Expr::RecordUpdate(s("n"), vec![(s("a"), num(7))]);
    assert_eq!(
        eval_expression(&mut env, &e),
        Err(RuntimeError::RecordUpdateOnNonRecord(s("n"), Value::Int(1)))
    );
}

#[test]
fn closure_keeps_the_value_it_captured() {
    let mut env = default_lang_env();
    env.add(&s("x"), Value::Int(1));
    let closure = eval_expression(&mut env, &lambda(vec![var("y")], name("x"))).unwrap();
    env.add(&s("f"), closure);
    env.add(&s("x"), Value::Int(2));
    assert_eq!(eval_expression(&mut env, &name("x")), Ok(Value::Int(2)));
    assert_eq!(eval_expression(&mut env, &call(name("f"), Expr::Unit)), Ok(Value::Int(1)));
}

#[test]
fn closure_does_not_capture_what_it_binds_itself() {
    let mut env = default_lang_env();
    env.add(&s("x"), Value::Int(1));
    env.add(&s("z"), Value::Int(9));
    let body = Expr::Tuple(vec![name("x"), name("z"), name("unknown")]);
    let closure = Interpreter::create_lambda_closure(&env, &any_type(), &vec![var("x")], &body);
    match closure {
        Value::Fun { arg_count, args, fun } => {
            assert_eq!(arg_count, 1);
            assert_eq!(args, vec![]);
            match &*fun {
                Function::Definition { captures, patterns, expression, function_type } => {
                    assert_eq!(captures, &vec![(s("z"), Value::Int(9))]);
                    assert_eq!(patterns, &vec![var("x")]);
                    assert_eq!(expression, &body);
                    assert_eq!(function_type, &any_type());
                }
                _ => panic!("a definition was expected"),
            }
        }
        _ => panic!("a function was expected"),
    }
}

#[test]
fn names_bound_inside_the_body_are_not_captured() {
    let mut env = default_lang_env();
    env.add(&s("a"), Value::Int(1));
    env.add(&s("b"), Value::Int(2));
    env.add(&s("c"), Value::Int(3));
    env.add(&s("d"), Value::Int(4));
    // \_ -> (\a -> a, case d of b -> b, let c = d in c)
    let body = Expr::Tuple(vec![
        lambda(vec![var("a")], name("a")),
        Expr::Case(Box::new(name("d")), vec![(var("b"), name("b"))]),
        Expr::Let(vec![LetEntry::Pattern(var("c"), name("d"))], Box::new(name("c"))),
    ]);
    let captures = Interpreter::extract_captures(&env, &vec![], &vec![Pattern::Wildcard], &body);
    assert_eq!(captures, vec![(s("d"), Value::Int(4))]);
}

#[test]
fn function_closure_captures_its_own_name_like_any_other() {
    let mut env = default_lang_env();
    env.add(&s("f"), Value::Int(1));
    env.add(&s("g"), Value::Int(2));
    let def = Definition {
        header: any_type(),
        name: s("f"),
        patterns: vec![var("x")],
        expr: Expr::Tuple(vec![name("f"), name("g"), name("x")]),
    };
    match Interpreter::create_function_closure(&env, &def) {
        Value::Fun { arg_count, args, fun } => {
            assert_eq!(arg_count, 1);
            assert_eq!(args, vec![]);
            match &*fun {
                Function::Definition { captures, patterns, expression, function_type } => {
                    assert_eq!(captures, &vec![(s("f"), Value::Int(1)), (s("g"), Value::Int(2))]);
                    assert_eq!(patterns, &def.patterns);
                    assert_eq!(expression, &def.expr);
                    assert_eq!(function_type, &def.header);
                }
                _ => panic!("a definition was expected"),
            }
        }
        _ => panic!("a function was expected"),
    }
}

#[test]
fn a_definition_sees_what_its_name_stood_for_when_it_was_made() {
    let mut env = DynamicEnv::new();
    assert_eq!(eval_statement(&mut env, &define("f", vec![], num(1))), Ok(Some(Value::Int(1))));
    assert!(eval_statement(&mut env, &define("f", vec![var("a")], name("f"))).is_ok());
    assert_eq!(eval_expression(&mut env, &call(name("f"), num(0))), Ok(Value::Int(1)));
    // In a `let` as well.
    let e = Expr::Let(
        vec![
            LetEntry::Pattern(var("g"), num(7)),
            LetEntry::Definition(Definition {
                header: any_type(),
                name: s("g"),
                patterns: vec![var("a")],
                expr: name("g"),
            }),
        ],
        Box::new(call(name("g"), num(0))),
    );
    assert_eq!(eval_expression(&mut env, &e), Ok(Value::Int(7)));
    let outer = lambda(vec![var("y")], e);
    env.add(&s("g"), Value::Int(3));
    let captures = match eval_expression(&mut env, &outer).unwrap() {
        Value::Fun { fun, .. } => match &*fun {
            Function::Definition { captures, .. } => captures.clone(),
            _ => panic!("a definition was expected"),
        },
        _ => panic!("a function was expected"),
    };
    assert_eq!(captures, vec![]);
}

#[test]
fn a_function_of_two_parameters_waits_for_the_second_argument() {
    let mut env = default_lang_env();
    let f = lambda(vec![var("x"), var("y")], Expr::Tuple(vec![name("y"), name("x")]));
    let function = eval_expression(&mut env, &f).unwrap();
    env.add(&s("f"), function.clone());
    let partial = eval_expression(&mut env, &call(name("f"), num(1))).unwrap();
    match &partial {
        Value::Fun { arg_count, args, .. } => {
            assert_eq!(*arg_count, 2);
            assert_eq!(args, &vec![Value::Int(1)]);
        }
        _ => panic!("a function was expected"),
    }
    // The function that was applied is as it was.
    assert_eq!(eval_expression(&mut env, &name("f")), Ok(function));
    env.add(&s("g"), partial);
    assert_eq!(
        eval_expression(&mut env, &call(name("g"), num(2))),
        Ok(Value::Tuple(vec![Value::Int(2), Value::Int(1)]))
    );
    assert_eq!(
        eval_expression(&mut env, &call(call(name("f"), num(3)), num(4))),
        Ok(Value::Tuple(vec![Value::Int(4), Value::Int(3)]))
    );
}

#[test]
fn applying_what_is_no_function_fails() {
    let mut env = default_lang_env();
    assert_eq!(
        eval_expression(&mut env, &call(num(1), name("missing"))),
        Err(RuntimeError::ExpectedFunction(Value::Int(1)))
    );
    assert!(matches!(
        prepare_call(Value::Unit, Value::Int(1)),
        Err(RuntimeError::ExpectedFunction(Value::Unit))
    ));
}

#[test]
fn a_function_that_holds_too_many_arguments_fails() {
    let fun = Arc::new(Function::External { id: INT_ADD, function_type: any_type() });
    let f = Value::Fun { arg_count: 1, args: vec![Value::Int(1)], fun };
    assert!(matches!(
        prepare_call(f, Value::Int(2)),
        Err(RuntimeError::FunArgumentSizeMismatch(1, 2))
    ));
}

#[test]
fn a_wrapper_calls_what_it_wraps() {
    let inner = Arc::new(Function::External { id: INT_ADD, function_type: any_type() });
    let outer = Arc::new(Function::Wrapper { inner, function_type: any_type() });
    let f = Value::Fun { arg_count: 2, args: vec![Value::Int(20)], fun: outer };
    match prepare_call(f, Value::Int(22)) {
        Ok(CallPlan::Done(v)) => assert_eq!(v, Value::Int(42)),
        _ => panic!("a value was expected"),
    }
}

#[test]
fn let_binding_does_not_leak() {
    let mut env = default_lang_env();
    let before = env.clone();
    let e = Expr::Let(vec![LetEntry::Pattern(var("x"), num(1))], Box::new(name("x")));
    assert_eq!(eval_expression(&mut env, &e), Ok(Value::Int(1)));
    assert_eq!(env, before);
    assert_eq!(
        eval_expression(&mut env, &name("x")),
        Err(RuntimeError::MissingDefinition(s("x"), before))
    );
}

#[test]
fn scopes_are_closed_on_errors_too() {
    let mut env = default_lang_env();
    let before = env.clone();
    let e = Expr::Let(vec![LetEntry::Pattern(var("x"), num(1))], Box::new(name("nowhere")));
    assert!(eval_expression(&mut env, &e).is_err());
    assert_eq!(env, before);
    let e = Expr::Case(Box::new(num(1)), vec![(var("x"), name("nowhere"))]);
    assert!(eval_expression(&mut env, &e).is_err());
    assert_eq!(env, before);
    env.add(&s("f"), eval_expression(&mut env.clone(), &lambda(vec![var("x")], name("nowhere"))).unwrap());
    let with_f = env.clone();
    assert!(eval_expression(&mut env, &call(name("f"), num(1))).is_err());
    assert_eq!(env, with_f);
}

#[test]
fn later_let_entries_see_earlier_ones() {
    let mut env = default_lang_env();
    let e = Expr::Let(
        vec![
            LetEntry::Pattern(var("x"), num(1)),
            LetEntry::Pattern(var("y"), call2("+", name("x"), num(1))),
            LetEntry::Definition(Definition {
                header: any_type(),
                name: s("twice"),
                patterns: vec![var("n")],
                expr: call2("*", name("n"), num(2)),
            }),
            LetEntry::Definition(Definition {
                header: any_type(),
                name: s("z"),
                patterns: vec![],
                expr: call(name("twice"), name("y")),
            }),
        ],
        Box::new(Expr::Tuple(vec![name("x"), name("y"), name("z")])),
    );
    assert_eq!(
        eval_expression(&mut env, &e),
        Ok(Value::Tuple(vec![Value::Int(1), Value::Int(2), Value::Int(4)]))
    );
}

#[test]
fn let_pattern_that_does_not_match_fails() {
    let mut env = default_lang_env();
    let e = Expr::Let(vec![LetEntry::Pattern(Pattern::LitInt(2), num(1))], Box::new(Expr::Unit));
    assert_eq!(
        eval_expression(&mut env, &e),
        Err(RuntimeError::CaseExpressionNonExhaustive(Value::Int(1), vec![Pattern::LitInt(2)]))
    );
}

#[test]
fn case_takes_the_first_branch_that_matches() {
    let mut env = default_lang_env();
    let e = Expr::Case(
        Box::new(num(2)),
        vec![
            (Pattern::LitInt(1), num(10)),
            (Pattern::LitInt(2), num(20)),
            (Pattern::Wildcard, num(30)),
            (Pattern::LitInt(2), num(40)),
        ],
    );
    assert_eq!(eval_expression(&mut env, &e), Ok(Value::Int(20)));
}

#[test]
fn case_without_a_matching_branch_fails() {
    let mut env = default_lang_env();
    let e = Expr::Case(
        Box::new(num(3)),
        vec![(Pattern::LitInt(1), num(10)), (Pattern::LitInt(2), num(20))],
    );
    assert_eq!(
        eval_expression(&mut env, &e),
        Err(RuntimeError::CaseExpressionNonExhaustive(
            Value::Int(3),
            vec![Pattern::LitInt(1), Pattern::LitInt(2)]
        ))
    );
}

#[test]
fn list_patterns_take_lists_apart() {
    let mut env = default_lang_env();
    let cons = Pattern::BinaryOp(s("::"), Box::new(var("h")), Box::new(var("t")));
    let e = Expr::Case(
        Box::new(Expr::List(vec![num(1), num(2), num(3)])),
        vec![(Pattern::List(vec![]), Expr::Unit), (cons.clone(), Expr::Tuple(vec![name("h"), name("t")]))],
    );
    assert_eq!(
        eval_expression(&mut env, &e),
        Ok(Value::Tuple(vec![Value::Int(1), Value::List(vec![Value::Int(2), Value::Int(3)])]))
    );
    let e = Expr::Case(
        Box::new(Expr::List(vec![])),
        vec![(cons, num(1)), (Pattern::List(vec![]), num(0))],
    );
    assert_eq!(eval_expression(&mut env, &e), Ok(Value::Int(0)));
}

#[test]
fn match_pattern_binds_names_in_order() {
    let p = Pattern::Tuple(vec![var("a"), Pattern::Wildcard, Pattern::Record(vec![s("x")])]);
    let v = Value::Tuple(vec![
        Value::Int(1),
        Value::Unit,
        Value::Record(vec![(s("y"), Value::Int(2)), (s("x"), Value::Int(3))]),
    ]);
    let mut out = vec![(s("k"), Value::Unit)];
    assert_eq!(match_pattern(&p, &v, &mut out), Ok(true));
    assert_eq!(out, vec![(s("k"), Value::Unit), (s("a"), Value::Int(1)), (s("x"), Value::Int(3))]);
}

#[test]
fn match_pattern_reports_values_of_another_kind() {
    let mut out = vec![];
    assert_eq!(
        match_pattern(&Pattern::Tuple(vec![]), &Value::Int(1), &mut out),
        Err(RuntimeError::ExpectedTuple(Value::Int(1)))
    );
    assert_eq!(
        match_pattern(&Pattern::Tuple(vec![var("a")]), &Value::Tuple(vec![]), &mut out),
        Err(RuntimeError::ExpectedTuple(Value::Tuple(vec![])))
    );
    assert_eq!(
        match_pattern(&Pattern::List(vec![]), &Value::Int(1), &mut out),
        Err(RuntimeError::ExpectedList(Value::Int(1)))
    );
    assert_eq!(
        match_pattern(&Pattern::Record(vec![]), &Value::Int(1), &mut out),
        Err(RuntimeError::ExpectedRecord(Value::Int(1)))
    );
    assert_eq!(
        match_pattern(&Pattern::Adt(s("Just"), vec![]), &Value::Int(1), &mut out),
        Err(RuntimeError::ExpectedAdt(Value::Int(1)))
    );
    assert_eq!(
        match_pattern(&Pattern::LitInt(1), &Value::Unit, &mut out),
        Err(RuntimeError::ExpectedInt(Value::Unit))
    );
    assert_eq!(
        match_pattern(
            &Pattern::BinaryOp(s("++"), Box::new(var("a")), Box::new(var("b"))),
            &Value::List(vec![]),
            &mut out
        ),
        Err(RuntimeError::UnknownOperatorPattern(s("++")))
    );
    assert_eq!(
        match_pattern(&Pattern::Record(vec![s("q")]), &Value::Record(vec![]), &mut out),
        Err(RuntimeError::RecordFieldNotFound(s("q"), Value::Record(vec![])))
    );
}

#[test]
fn match_pattern_tells_a_mismatch_from_an_error() {
    let mut out = vec![];
    assert_eq!(match_pattern(&Pattern::LitInt(1), &Value::Int(2), &mut out), Ok(false));
    assert_eq!(match_pattern(&Pattern::LitInt(1), &Value::Number(1), &mut out), Ok(true));
    assert_eq!(
        match_pattern(&Pattern::LitString(s("a")), &Value::String(s("b")), &mut out),
        Ok(false)
    );
    assert_eq!(match_pattern(&Pattern::LitChar('a'), &Value::Char('a'), &mut out), Ok(true));
    assert_eq!(match_pattern(&Pattern::Unit, &Value::Unit, &mut out), Ok(true));
    assert_eq!(match_pattern(&Pattern::List(vec![]), &Value::List(vec![Value::Unit]), &mut out), Ok(false));
    assert_eq!(out, vec![]);
}

#[test]
fn data_type_statement_makes_constructors() {
    let mut env = default_lang_env();
    assert_eq!(eval_statement(&mut env, &Statement::Adt(maybe())), Ok(None));
    assert_eq!(
        eval_expression(&mut env, &name("Nothing")),
        Ok(Value::Adt(s("Nothing"), vec![], maybe()))
    );
    assert_eq!(
        eval_expression(&mut env, &call(name("Just"), num(1))),
        Ok(Value::Adt(s("Just"), vec![Value::Int(1)], maybe()))
    );
    let e = Expr::Case(
        Box::new(call(name("Just"), num(5))),
        vec![
            (Pattern::Adt(s("Nothing"), vec![]), num(0)),
            (Pattern::Adt(s("Just"), vec![var("x")]), name("x")),
        ],
    );
    assert_eq!(eval_expression(&mut env, &e), Ok(Value::Int(5)));
}

#[test]
fn alias_statement_changes_nothing() {
    let mut env = default_lang_env();
    let before = env.clone();
    assert_eq!(eval_statement(&mut env, &Statement::Alias(s("T"), Type::Unit)), Ok(None));
    assert_eq!(env, before);
}

#[test]
fn definition_statement_binds_its_name() {
    let mut env = default_lang_env();
    assert_eq!(eval_statement(&mut env, &define("one", vec![], num(1))), Ok(Some(Value::Int(1))));
    assert_eq!(eval_expression(&mut env, &name("one")), Ok(Value::Int(1)));
    let before = env.clone();
    assert!(eval_statement(&mut env, &define("two", vec![], name("nowhere"))).is_err());
    assert_eq!(env, before);
}

#[test]
fn a_definition_can_call_itself() {
    let mut env = default_lang_env();
    // fact n = if n == 0 then 1 else n * fact (n - 1)
    let body = Expr::If(
        Box::new(call2("==", name("n"), num(0))),
        Box::new(num(1)),
        Box::new(call2("*", name("n"), call(name("fact"), call2("-", name("n"), num(1))))),
    );
    assert!(eval_statement(&mut env, &define("fact", vec![var("n")], body)).is_ok());
    assert_eq!(eval_expression(&mut env, &call(name("fact"), num(5))), Ok(Value::Int(120)));
    assert_eq!(eval_expression(&mut env, &call(name("fact"), num(0))), Ok(Value::Int(1)));
}

#[test]
fn calls_that_nest_too_deep_fail() {
    let mut env = default_lang_env();
    let body = call(name("forever"), name("n"));
    assert!(eval_statement(&mut env, &define("forever", vec![var("n")], body)).is_ok());
    let before = env.clone();
    assert_eq!(
        eval_expression(&mut env, &call(name("forever"), num(1))),
        Err(RuntimeError::CallDepthExceeded)
    );
    assert_eq!(env, before);
    let id = lambda(vec![var("x")], name("x"));
    assert_eq!(eval_expr(&mut env, &call(id.clone(), num(1)), 0), Err(RuntimeError::CallDepthExceeded));
    assert_eq!(eval_expr(&mut env, &call(id, num(1)), 1), Ok(Value::Int(1)));
}

#[test]
fn interpreter_uses_its_own_depth() {
    assert_eq!(Interpreter::new().call_depth, DEFAULT_CALL_DEPTH);
    let mut env = default_lang_env();
    let shallow = Interpreter { call_depth: 0 };
    let e = call(lambda(vec![var("x")], name("x")), num(1));
    assert_eq!(shallow.eval_expression(&mut env, &e), Err(RuntimeError::CallDepthExceeded));
    assert_eq!(Interpreter::new().eval_expression(&mut env, &e), Ok(Value::Int(1)));
    assert_eq!(
        Interpreter::new().eval_statement(&mut env, &define("v", vec![], num(3))),
        Ok(Some(Value::Int(3)))
    );
}

#[test]
fn parameter_that_does_not_match_fails() {
    let mut env = default_lang_env();
    let f = lambda(vec![Pattern::LitInt(1)], num(0));
    assert_eq!(
        eval_expression(&mut env, &call(f, num(2))),
        Err(RuntimeError::CaseExpressionNonExhaustive(Value::Int(2), vec![Pattern::LitInt(1)]))
    );
}

#[test]
fn integer_builtins() {
    let mut env = default_lang_env();
    assert_eq!(eval_expression(&mut env, &call2("+", num(2), num(3))), Ok(Value::Int(5)));
    assert_eq!(eval_expression(&mut env, &call2("-", num(2), num(3))), Ok(Value::Int(-1)));
    assert_eq!(eval_expression(&mut env, &call2("*", num(4), num(3))), Ok(Value::Int(12)));
    assert_eq!(eval_expression(&mut env, &call2("==", num(4), num(4))), Ok(bool_value(true)));
    assert_eq!(eval_expression(&mut env, &call2("==", num(4), num(3))), Ok(bool_value(false)));
    assert_eq!(eval_expression(&mut env, &call2("<", num(3), num(4))), Ok(bool_value(true)));
    assert_eq!(eval_expression(&mut env, &call2("<", num(4), num(4))), Ok(bool_value(false)));
    assert_eq!(
        eval_expression(&mut env, &call2("+", num(i64::MAX), num(1))),
        Ok(Value::Int(i64::MIN))
    );
    assert_eq!(
        eval_expression(&mut env, &call2("-", num(i64::MIN), num(1))),
        Ok(Value::Int(i64::MAX))
    );
    assert_eq!(
        eval_expression(&mut env, &call2("*", num(i64::MAX), num(2))),
        Ok(Value::Int(-2))
    );
}

#[test]
fn builtins_check_their_arguments() {
    assert_eq!(
        call_builtin(INT_ADD, &vec![Value::Int(1), Value::Float(0)]),
        Err(RuntimeError::ExpectedInt(Value::Float(0)))
    );
    assert_eq!(
        call_builtin(INT_LT, &vec![Value::Unit, Value::Int(0)]),
        Err(RuntimeError::ExpectedNumber(Value::Unit))
    );
    assert_eq!(
        call_builtin(INT_ADD, &vec![Value::Int(1)]),
        Err(RuntimeError::FunArgumentSizeMismatch(2, 1))
    );
    assert_eq!(call_builtin(INT_ADD, &vec![Value::Number(1), Value::Int(2)]), Ok(Value::Int(3)));
    assert_eq!(call_builtin(77, &vec![]), Err(RuntimeError::UnknownBuiltinFunction(77)));
    assert_eq!(
        call_builtin(0, &vec![Value::Int(1), Value::Int(2)]),
        Err(RuntimeError::InternalErrorAdtCreation(Value::Int(1)))
    );
    assert_eq!(call_builtin(0, &vec![]), Err(RuntimeError::FunArgumentSizeMismatch(1, 0)));
}

#[test]
fn a_copy_of_a_value_shares_what_the_value_shares() {
    let adt = maybe();
    let v = Value::Adt(s("Just"), vec![Value::Int(1)], adt.clone());
    let copy = v.clone();
    assert_eq!(copy, v);
    match (&v, &copy) {
        (Value::Adt(_, _, a), Value::Adt(_, _, b)) => {
            assert!(Arc::ptr_eq(a, b));
            assert!(Arc::ptr_eq(a, &adt));
        }
        _ => panic!("two instances were expected"),
    }
}

#[test]
fn environment_scopes() {
    let mut env = DynamicEnv::new();
    assert_eq!(env.find(&s("x")), None);
    env.add(&s("x"), Value::Int(1));
    env.enter_block();
    assert_eq!(env.find(&s("x")), Some(Value::Int(1)));
    env.add(&s("x"), Value::Int(2));
    env.add(&s("y"), Value::Int(3));
    assert_eq!(env.find(&s("x")), Some(Value::Int(2)));
    env.add(&s("x"), Value::Int(4));
    assert_eq!(env.find(&s("x")), Some(Value::Int(4)));
    env.exit_block();
    assert_eq!(env.find(&s("x")), Some(Value::Int(1)));
    assert_eq!(env.find(&s("y")), None);
    env.exit_block();
    env.exit_block();
    assert_eq!(env.find(&s("x")), None);
    env.add(&s("z"), Value::Unit);
    assert_eq!(env.find(&s("z")), Some(Value::Unit));
    env.enter_with(vec![(s("w"), Value::Int(7))]);
    assert_eq!(env.find(&s("w")), Some(Value::Int(7)));
}

#[test]
fn a_greater_depth_changes_no_result() {
    let mut env = default_lang_env();
    let body = Expr::If(
        Box::new(call2("==", name("n"), num(0))),
        Box::new(num(0)),
        Box::new(call2("+", num(2), call(name("double"), call2("-", name("n"), num(1))))),
    );
    assert!(eval_statement(&mut env, &define("double", vec![var("n")], body)).is_ok());
    let e = call(name("double"), num(6));
    assert_eq!(eval_expr(&mut env, &e, 6), Err(RuntimeError::CallDepthExceeded));
    assert_eq!(eval_expr(&mut env, &e, 7), Ok(Value::Int(12)));
    assert_eq!(eval_expr(&mut env, &e, 8), Ok(Value::Int(12)));
    assert_eq!(eval_expr(&mut env, &e, 100), Ok(Value::Int(12)));
    let e = call(name("double"), name("nowhere"));
    let failed = eval_expr(&mut env, &e, 0);
    assert!(matches!(failed, Err(RuntimeError::MissingDefinition(_, _))));
    assert_eq!(eval_expr(&mut env, &e, 9), failed);
}
