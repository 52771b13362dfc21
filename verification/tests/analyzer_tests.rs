use std::sync::Arc;

use elm_interpreter::analyzer::pattern_analyzer::{analyze_pattern, is_irrefutable};
use elm_interpreter::analyzer::static_env::StaticEnv;
use elm_interpreter::analyzer::type_helper::{
    digits, is_number_var, map_vars, occurs_in, resolve, suffix, unify, VarOp,
};
use elm_interpreter::analyzer::{
    build_fun_type, strip_fun_args, type_check_expression, type_check_function, type_list,
    type_of_function, type_of_value, type_tag, PatternMatchingError, TypeError,
};
use elm_interpreter::ast::{Definition, Expr, LetEntry, Literal, Pattern, Type};
use elm_interpreter::basics::{default_lang_env, default_static_env};
use elm_interpreter::interpreter::{eval_expression, eval_statement};
use elm_interpreter::analyzer::module_analyser::declare;
use elm_interpreter::loader::Declaration;
use elm_interpreter::types::{Adt, AdtVariant, Function, Statement, Value};

fn s(text: &str) -> String {
    text.to_string()
}

fn num(i: i64) -> Expr {
    Expr::Literal(Literal::Int(i))
}

fn text(t: &str) -> Expr {
    Expr::Literal(Literal::String(s(t)))
}

fn name(n: &str) -> Expr {
    Expr::Ref(s(n))
}

fn var(n: &str) -> Pattern {
    Pattern::Var(s(n))
}

fn tvar(n: &str) -> Type {
    Type::Var(s(n))
}

fn arrow(a: Type, b: Type) -> Type {
    Type::Fun(Box::new(a), Box::new(b))
}

fn call(f: Expr, a: Expr) -> Expr {
    Expr::Application(Box::new(f), Box::new(a))
}

fn call2(f: &str, a: Expr, b: Expr) -> Expr {
    call(call(name(f), a), b)
}

fn lambda(params: Vec<Pattern>, body: Expr) -> Expr {
    Expr::Lambda(tvar("annotation"), params, Box::new(body))
}

fn maybe() -> Arc<Adt> {
    Arc::new(Adt {
        name: s("Maybe"),
        types: vec![s("a")],
        variants: vec![
            AdtVariant { name: s("Just"), types: vec![tvar("a")] },
            AdtVariant { name: s("Nothing"), types: vec![] },
        ],
    })
}

fn env_with_maybe() -> StaticEnv {
    let mut env = default_static_env();
    declare(&mut env, &Declaration::Adt(s("Maybe"), maybe()));
    env
}

fn just(e: Expr) -> Expr {
    call(name("Just"), e)
}

#[test]
fn literals_have_their_types() {
    let mut env = default_static_env();
    assert_eq!(type_check_expression(&mut env, &num(1)), Ok(type_tag("Int")));
    assert_eq!(
        type_check_expression(&mut env, &Expr::Literal(Literal::Float(0))),
        Ok(type_tag("Float"))
    );
    assert_eq!(type_check_expression(&mut env, &text("a")), Ok(type_tag("String")));
    assert_eq!(
        type_check_expression(&mut env, &Expr::Literal(Literal::Char('a'))),
        Ok(type_tag("Char"))
    );
    assert_eq!(type_check_expression(&mut env, &Expr::Unit), Ok(Type::Unit));
}

#[test]
fn inferred_type_is_the_type_of_the_value() {
    let e = Expr::If(Box::new(name("True")), Box::new(num(1)), Box::new(num(2)));
    let mut types = default_static_env();
    let mut values = default_lang_env();
    let ty = type_check_expression(&mut types, &e).unwrap();
    let value = eval_expression(&mut values, &e).unwrap();
    assert_eq!(ty, type_tag("Int"));
    assert_eq!(value, Value::Int(1));
    assert_eq!(type_of_value(&value), ty);

    let e = Expr::Tuple(vec![text("a"), Expr::List(vec![num(1)]), Expr::Record(vec![(s("k"), Expr::Unit)])]);
    let ty = type_check_expression(&mut types, &e).unwrap();
    let value = eval_expression(&mut values, &e).unwrap();
    assert_eq!(type_of_value(&value), ty);

    let mut types = env_with_maybe();
    eval_statement(&mut values, &Statement::Adt(maybe())).unwrap();
    let e = just(text("a"));
    let ty = type_check_expression(&mut types, &e).unwrap();
    let value = eval_expression(&mut values, &e).unwrap();
    assert_eq!(ty, Type::Tag(s("Maybe"), vec![type_tag("String")]));
    assert_eq!(type_of_value(&value), ty);
}

#[test]
fn if_needs_a_bool_and_two_branches_of_one_type() {
    let mut env = default_static_env();
    let e = Expr::If(Box::new(num(1)), Box::new(num(1)), Box::new(num(2)));
    assert_eq!(
        type_check_expression(&mut env, &e),
        Err(TypeError::IfWithNonBoolCondition(tvar("number#0")))
    );
    let mut env = default_static_env();
    let e = Expr::If(Box::new(name("True")), Box::new(text("a")), Box::new(Expr::Unit));
    assert_eq!(
        type_check_expression(&mut env, &e),
        Err(TypeError::IfBranchesDoesntMatch(type_tag("String"), Type::Unit))
    );
}

#[test]
fn a_name_without_a_type_is_missing() {
    let mut env = default_static_env();
    assert_eq!(
        type_check_expression(&mut env, &name("nowhere")),
        Err(TypeError::MissingDefinition(s("nowhere")))
    );
}

#[test]
fn lists_are_homogeneous() {
    let mut env = default_static_env();
    let e = Expr::List(vec![text("a"), text("b")]);
    assert_eq!(type_check_expression(&mut env, &e), Ok(type_list(type_tag("String"))));
    let e = Expr::List(vec![text("a"), Expr::Unit]);
    assert_eq!(
        type_check_expression(&mut env, &e),
        Err(TypeError::ListNotHomogeneous(type_tag("String"), Type::Unit))
    );
    let mut env = default_static_env();
    assert_eq!(type_check_expression(&mut env, &Expr::List(vec![])), Ok(type_list(tvar("t#0"))));
}

#[test]
fn numbers_take_the_kind_their_place_asks_for() {
    let mut env = default_static_env();
    let e = Expr::List(vec![num(1), Expr::Literal(Literal::Float(0))]);
    assert_eq!(type_check_expression(&mut env, &e), Ok(type_list(type_tag("Float"))));
    let e = call2("+", num(1), num(2));
    assert_eq!(type_check_expression(&mut env, &e), Ok(type_tag("Int")));
    let e = call2("+", Expr::Literal(Literal::Float(0)), num(2));
    assert_eq!(type_check_expression(&mut env, &e), Ok(type_tag("Float")));
    let e = call2("<", num(1), num(2));
    assert_eq!(type_check_expression(&mut env, &e), Ok(type_tag("Bool")));
    let e = call2("+", text("a"), num(2));
    assert!(matches!(
        type_check_expression(&mut env, &e),
        Err(TypeError::ArgumentsDoNotMatch(_, _))
    ));
}

#[test]
fn a_polymorphic_name_is_used_at_several_types() {
    let mut env = default_static_env();
    env.add(&s("id"), arrow(tvar("a"), tvar("a")));
    let e = Expr::Tuple(vec![call(name("id"), text("a")), call(name("id"), Expr::Unit)]);
    assert_eq!(
        type_check_expression(&mut env, &e),
        Ok(Type::Tuple(vec![type_tag("String"), Type::Unit]))
    );
}

#[test]
fn applications_check_function_and_argument() {
    let mut env = default_static_env();
    assert_eq!(
        type_check_expression(&mut env, &call(text("f"), Expr::Unit)),
        Err(TypeError::NotAFunction(type_tag("String")))
    );
    env.add(&s("f"), arrow(type_tag("String"), Type::Unit));
    assert_eq!(type_check_expression(&mut env, &call(name("f"), text("a"))), Ok(Type::Unit));
    assert_eq!(
        type_check_expression(&mut env, &call(name("f"), Expr::Unit)),
        Err(TypeError::ArgumentsDoNotMatch(type_tag("String"), Type::Unit))
    );
}

#[test]
fn lambda_has_the_arrow_of_its_parts() {
    let mut env = default_static_env();
    let e = lambda(vec![var("x"), var("y")], name("x"));
    assert_eq!(
        type_check_expression(&mut env, &e),
        Ok(arrow(tvar("t#1"), arrow(tvar("t#2"), tvar("t#1"))))
    );
    let e = lambda(vec![var("x")], call2("+", name("x"), num(1)));
    assert_eq!(
        type_check_expression(&mut env, &e),
        Ok(arrow(type_tag("Int"), type_tag("Int")))
    );
    let e = Expr::Lambda(arrow(Type::Unit, Type::Unit), vec![var("x")], Box::new(text("a")));
    assert_eq!(
        type_check_expression(&mut default_static_env(), &e).is_err(),
        true
    );
}

#[test]
fn definitions_are_checked_against_their_header() {
    let mut env = default_static_env();
    let def = Definition {
        header: tvar("h"),
        name: s("inc"),
        patterns: vec![var("x")],
        expr: call2("+", name("x"), num(1)),
    };
    assert_eq!(type_check_function(&mut env, &def), Ok(arrow(type_tag("Int"), type_tag("Int"))));
    let def = Definition {
        header: arrow(type_tag("String"), type_tag("String")),
        name: s("inc"),
        patterns: vec![var("x")],
        expr: call2("+", name("x"), num(1)),
    };
    assert!(type_check_function(&mut env, &def).is_err());
    let def = Definition {
        header: arrow(type_tag("Int"), type_tag("String")),
        name: s("wrong"),
        patterns: vec![var("x")],
        expr: Expr::Unit,
    };
    assert_eq!(
        type_check_function(&mut env, &def),
        Err(TypeError::DefinitionTypeAndReturnTypeMismatch(
            arrow(type_tag("Int"), type_tag("String")),
            arrow(tvar("t#13"), Type::Unit)
        ))
    );
    // A definition may use itself.
    let def = Definition {
        header: arrow(type_tag("Int"), type_tag("Int")),
        name: s("down"),
        patterns: vec![var("n")],
        expr: call(name("down"), call2("-", name("n"), num(1))),
    };
    assert_eq!(type_check_function(&mut env, &def), Ok(arrow(type_tag("Int"), type_tag("Int"))));
}

#[test]
fn let_types_do_not_leak() {
    let mut env = default_static_env();
    let scopes_before = env.scopes.clone();
    let e = Expr::Let(
        vec![
            LetEntry::Pattern(var("x"), text("a")),
            LetEntry::Definition(Definition {
                header: tvar("h"),
                name: s("pair"),
                patterns: vec![var("y")],
                expr: Expr::Tuple(vec![name("x"), name("y")]),
            }),
        ],
        Box::new(call(name("pair"), Expr::Unit)),
    );
    assert_eq!(
        type_check_expression(&mut env, &e),
        Ok(Type::Tuple(vec![type_tag("String"), Type::Unit]))
    );
    assert_eq!(env.scopes, scopes_before);
    assert_eq!(
        type_check_expression(&mut env, &name("x")),
        Err(TypeError::MissingDefinition(s("x")))
    );
    let e = Expr::Let(vec![LetEntry::Pattern(var("x"), text("a"))], Box::new(name("nowhere")));
    assert!(type_check_expression(&mut env, &e).is_err());
    assert_eq!(env.scopes, scopes_before);
}

#[test]
fn records_and_their_fields() {
    let mut env = default_static_env();
    let record = Expr::Record(vec![(s("a"), text("x")), (s("b"), Expr::Unit)]);
    let record_type = Type::Record(vec![(s("a"), type_tag("String")), (s("b"), Type::Unit)]);
    assert_eq!(type_check_expression(&mut env, &record), Ok(record_type.clone()));
    assert_eq!(
        type_check_expression(&mut env, &Expr::RecordField(Box::new(record.clone()), s("b"))),
        Ok(Type::Unit)
    );
    assert_eq!(
        type_check_expression(&mut env, &Expr::RecordField(Box::new(record.clone()), s("c"))),
        Err(TypeError::RecordFieldNotFound(s("c"), record_type.clone()))
    );
    assert_eq!(
        type_check_expression(&mut env, &Expr::RecordField(Box::new(Expr::Unit), s("c"))),
        Err(TypeError::ExpectedRecord(Type::Unit))
    );
    let twice = Expr::Record(vec![(s("a"), text("x")), (s("b"), Expr::Unit), (s("a"), Expr::Unit)]);
    assert_eq!(
        type_check_expression(&mut env, &twice),
        Err(TypeError::DuplicateRecordField(s("a")))
    );
    env.add(&s("r"), record_type.clone());
    assert_eq!(
        type_check_expression(&mut env, &Expr::RecordUpdate(s("r"), vec![(s("a"), text("y"))])),
        Ok(record_type.clone())
    );
    assert_eq!(
        type_check_expression(&mut env, &Expr::RecordUpdate(s("r"), vec![(s("a"), Expr::Unit)])),
        Err(TypeError::ArgumentsDoNotMatch(type_tag("String"), Type::Unit))
    );
    assert_eq!(
        type_check_expression(&mut env, &Expr::RecordUpdate(s("r"), vec![(s("z"), Expr::Unit)])),
        Err(TypeError::RecordFieldNotFound(s("z"), record_type))
    );
    env.add(&s("u"), Type::Unit);
    assert_eq!(
        type_check_expression(&mut env, &Expr::RecordUpdate(s("u"), vec![])),
        Err(TypeError::ExpectedRecord(Type::Unit))
    );
    assert_eq!(
        type_check_expression(&mut env, &Expr::RecordUpdate(s("nowhere"), vec![])),
        Err(TypeError::MissingDefinition(s("nowhere")))
    );
}

#[test]
fn case_over_a_data_type_has_to_cover_every_variant() {
    let only_just = Expr::Case(
        Box::new(just(text("a"))),
        vec![(Pattern::Adt(s("Just"), vec![var("x")]), name("x"))],
    );
    assert_eq!(
        type_check_expression(&mut env_with_maybe(), &only_just),
        Err(TypeError::PatternMatchingError(PatternMatchingError::PatternNotExhaustive(
            Pattern::Adt(s("Nothing"), vec![])
        )))
    );
    let only_nothing = Expr::Case(
        Box::new(just(text("a"))),
        vec![(Pattern::Adt(s("Nothing"), vec![]), text("none"))],
    );
    assert_eq!(
        type_check_expression(&mut env_with_maybe(), &only_nothing),
        Err(TypeError::PatternMatchingError(PatternMatchingError::PatternNotExhaustive(
            Pattern::Adt(s("Just"), vec![Pattern::Wildcard])
        )))
    );
    let with_wildcard = Expr::Case(
        Box::new(just(text("a"))),
        vec![
            (Pattern::Adt(s("Just"), vec![var("x")]), name("x")),
            (Pattern::Wildcard, text("none")),
        ],
    );
    assert_eq!(
        type_check_expression(&mut env_with_maybe(), &with_wildcard),
        Ok(type_tag("String"))
    );
    let with_both = Expr::Case(
        Box::new(just(text("a"))),
        vec![
            (Pattern::Adt(s("Just"), vec![var("x")]), name("x")),
            (Pattern::Adt(s("Nothing"), vec![]), text("none")),
        ],
    );
    assert_eq!(type_check_expression(&mut env_with_maybe(), &with_both), Ok(type_tag("String")));
    // A variant whose field is matched by a literal only is not covered.
    let literal_inside = Expr::Case(
        Box::new(just(text("a"))),
        vec![
            (Pattern::Adt(s("Just"), vec![Pattern::LitString(s("a"))]), text("a")),
            (Pattern::Adt(s("Nothing"), vec![]), text("none")),
        ],
    );
    assert_eq!(
        type_check_expression(&mut env_with_maybe(), &literal_inside),
        Err(TypeError::PatternMatchingError(PatternMatchingError::PatternNotExhaustive(
            Pattern::Adt(s("Just"), vec![Pattern::Wildcard])
        )))
    );
}

#[test]
fn case_over_other_types() {
    let mut env = default_static_env();
    let over_bool = Expr::Case(
        Box::new(name("True")),
        vec![
            (Pattern::Adt(s("True"), vec![]), num(1)),
            (Pattern::Adt(s("False"), vec![]), num(0)),
        ],
    );
    assert_eq!(type_check_expression(&mut env, &over_bool), Ok(type_tag("Int")));
    let over_int = Expr::Case(Box::new(num(1)), vec![(Pattern::LitInt(1), num(1))]);
    assert_eq!(
        type_check_expression(&mut env, &over_int),
        Err(TypeError::PatternMatchingError(PatternMatchingError::PatternNotExhaustive(
            Pattern::Wildcard
        )))
    );
    let cons = Pattern::BinaryOp(s("::"), Box::new(var("h")), Box::new(var("t")));
    let over_list = Expr::Case(
        Box::new(Expr::List(vec![text("a")])),
        vec![(cons.clone(), name("h"))],
    );
    assert_eq!(
        type_check_expression(&mut env, &over_list),
        Err(TypeError::PatternMatchingError(PatternMatchingError::PatternNotExhaustive(
            Pattern::List(vec![])
        )))
    );
    let over_list = Expr::Case(
        Box::new(Expr::List(vec![text("a")])),
        vec![(Pattern::List(vec![]), text("none"))],
    );
    assert_eq!(
        type_check_expression(&mut env, &over_list),
        Err(TypeError::PatternMatchingError(PatternMatchingError::PatternNotExhaustive(
            Pattern::BinaryOp(s("::"), Box::new(Pattern::Wildcard), Box::new(Pattern::Wildcard))
        )))
    );
    let over_list = Expr::Case(
        Box::new(Expr::List(vec![text("a")])),
        vec![(Pattern::List(vec![]), text("none")), (cons, name("h"))],
    );
    assert_eq!(type_check_expression(&mut env, &over_list), Ok(type_tag("String")));
    let branches_differ = Expr::Case(
        Box::new(Expr::Unit),
        vec![(Pattern::Unit, text("a")), (Pattern::Wildcard, Expr::Unit)],
    );
    assert_eq!(
        type_check_expression(&mut env, &branches_differ),
        Err(TypeError::CaseBranchDontMatchReturnType(type_tag("String"), Type::Unit))
    );
}

#[test]
fn list_pattern_items_are_of_one_type() {
    let mut env = default_static_env();
    let p = Pattern::List(vec![Pattern::LitInt(1), Pattern::LitString(s("a"))]);
    assert_eq!(
        analyze_pattern(&mut env, &p, &tvar("subject")),
        Err(PatternMatchingError::ListPatternsAreNotHomogeneous(
            type_tag("Int"),
            type_tag("String")
        ))
    );
    let mut env = default_static_env();
    let p = Pattern::List(vec![Pattern::LitInt(1), Pattern::LitInt(2), var("n")]);
    assert_eq!(analyze_pattern(&mut env, &p, &tvar("subject")), Ok(()));
    assert_eq!(env.resolve_type(&tvar("subject")), type_list(type_tag("Int")));
    assert_eq!(env.find(&s("n")).map(|(t, _)| env.resolve_type(&t)), Some(type_tag("Int")));
}

#[test]
fn pattern_errors() {
    let check = |p: Pattern, t: Type| analyze_pattern(&mut env_with_maybe(), &p, &t);
    assert_eq!(
        check(Pattern::Unit, type_tag("Int")),
        Err(PatternMatchingError::ExpectedUnit(type_tag("Int")))
    );
    assert_eq!(
        check(Pattern::LitInt(1), type_tag("String")),
        Err(PatternMatchingError::ExpectedLiteral(s("Int"), type_tag("String")))
    );
    assert_eq!(
        check(Pattern::LitString(s("a")), type_tag("Int")),
        Err(PatternMatchingError::ExpectedLiteral(s("String"), type_tag("Int")))
    );
    assert_eq!(
        check(Pattern::LitChar('a'), type_tag("Int")),
        Err(PatternMatchingError::ExpectedLiteral(s("Char"), type_tag("Int")))
    );
    assert_eq!(
        check(Pattern::Tuple(vec![var("a")]), type_tag("Int")),
        Err(PatternMatchingError::ExpectedTuple(Pattern::Tuple(vec![var("a")]), type_tag("Int")))
    );
    assert_eq!(
        check(Pattern::Tuple(vec![var("a")]), Type::Tuple(vec![Type::Unit, Type::Unit])),
        Err(PatternMatchingError::ExpectedTuple(
            Pattern::Tuple(vec![var("a")]),
            Type::Tuple(vec![Type::Unit, Type::Unit])
        ))
    );
    assert_eq!(
        check(Pattern::List(vec![]), type_tag("Int")),
        Err(PatternMatchingError::ExpectedListType(type_tag("Int")))
    );
    assert_eq!(
        check(Pattern::BinaryOp(s("::"), Box::new(var("a")), Box::new(var("b"))), Type::Unit),
        Err(PatternMatchingError::ExpectedListType(Type::Unit))
    );
    assert_eq!(
        check(Pattern::BinaryOp(s("++"), Box::new(var("a")), Box::new(var("b"))), Type::Unit),
        Err(PatternMatchingError::UnknownOperatorPattern(s("++")))
    );
    assert_eq!(
        check(Pattern::Record(vec![s("a")]), Type::Unit),
        Err(PatternMatchingError::ExpectedRecord(Type::Unit))
    );
    let record = Type::Record(vec![(s("a"), Type::Unit), (s("b"), Type::Unit)]);
    assert_eq!(
        check(Pattern::Record(vec![s("a")]), record.clone()),
        Err(PatternMatchingError::ExpectedRecord(record.clone()))
    );
    assert_eq!(
        check(Pattern::Record(vec![s("a"), s("c")]), record.clone()),
        Err(PatternMatchingError::InvalidRecordEntryName(s("c")))
    );
    assert_eq!(check(Pattern::Record(vec![s("b"), s("a")]), record), Ok(()));
    assert_eq!(
        check(Pattern::Adt(s("Some"), vec![]), Type::Unit),
        Err(PatternMatchingError::UnknownAdtVariant(s("Some")))
    );
    assert_eq!(
        check(Pattern::Adt(s("Just"), vec![var("x")]), Type::Unit),
        Err(PatternMatchingError::ExpectedAdt(s("Just"), Type::Unit))
    );
    assert_eq!(
        check(Pattern::Adt(s("Just"), vec![]), Type::Tag(s("Maybe"), vec![Type::Unit])),
        Err(PatternMatchingError::ExpectedAdt(s("Just"), Type::Tag(s("Maybe"), vec![Type::Unit])))
    );
}

#[test]
fn a_variant_pattern_gives_its_fields_their_types() {
    let mut env = env_with_maybe();
    let p = Pattern::Adt(s("Just"), vec![var("x")]);
    assert_eq!(analyze_pattern(&mut env, &p, &Type::Tag(s("Maybe"), vec![type_tag("String")])), Ok(()));
    assert_eq!(env.find(&s("x")).map(|(t, _)| env.resolve_type(&t)), Some(type_tag("String")));
}

#[test]
fn irrefutable_patterns() {
    assert!(is_irrefutable(&var("x")));
    assert!(is_irrefutable(&Pattern::Wildcard));
    assert!(is_irrefutable(&Pattern::Unit));
    assert!(is_irrefutable(&Pattern::Record(vec![s("a")])));
    assert!(is_irrefutable(&Pattern::Tuple(vec![var("x"), Pattern::Tuple(vec![])])));
    assert!(!is_irrefutable(&Pattern::Tuple(vec![var("x"), Pattern::LitInt(1)])));
    assert!(!is_irrefutable(&Pattern::LitInt(1)));
    assert!(!is_irrefutable(&Pattern::List(vec![])));
    assert!(!is_irrefutable(&Pattern::Adt(s("Just"), vec![var("x")])));
}

#[test]
fn type_of_each_kind_of_value() {
    assert_eq!(type_of_value(&Value::Unit), Type::Unit);
    assert_eq!(type_of_value(&Value::Number(1)), tvar("number"));
    assert_eq!(type_of_value(&Value::Int(1)), type_tag("Int"));
    assert_eq!(type_of_value(&Value::Float(0)), type_tag("Float"));
    assert_eq!(type_of_value(&Value::String(s("a"))), type_tag("String"));
    assert_eq!(type_of_value(&Value::Char('a')), type_tag("Char"));
    assert_eq!(type_of_value(&Value::List(vec![])), type_list(tvar("a")));
    assert_eq!(
        type_of_value(&Value::List(vec![Value::Int(1), Value::Int(2)])),
        type_list(type_tag("Int"))
    );
    assert_eq!(
        type_of_value(&Value::Tuple(vec![Value::Int(1), Value::Unit])),
        Type::Tuple(vec![type_tag("Int"), Type::Unit])
    );
    assert_eq!(
        type_of_value(&Value::Record(vec![(s("a"), Value::Int(1))])),
        Type::Record(vec![(s("a"), type_tag("Int"))])
    );
    assert_eq!(
        type_of_value(&Value::Adt(s("Just"), vec![Value::Int(1)], maybe())),
        Type::Tag(s("Maybe"), vec![type_tag("Int")])
    );
    assert_eq!(
        type_of_value(&Value::Adt(s("Nothing"), vec![], maybe())),
        Type::Tag(s("Maybe"), vec![tvar("a")])
    );
    assert_eq!(
        type_of_value(&Value::Adt(s("Other"), vec![Value::Int(1)], maybe())),
        Type::Tag(s("Maybe"), vec![tvar("a")])
    );
    assert_eq!(
        type_of_value(&Value::Adt(s("Just"), vec![], maybe())),
        Type::Tag(s("Maybe"), vec![tvar("a")])
    );
}

#[test]
fn type_of_a_function_value_loses_an_arrow_for_each_argument() {
    let ty = arrow(type_tag("Int"), arrow(type_tag("String"), Type::Unit));
    let fun = Arc::new(Function::External { id: 1, function_type: ty.clone() });
    assert_eq!(type_of_function(&fun), &ty);
    let f = |args: Vec<Value>| Value::Fun { arg_count: 2, args, fun: fun.clone() };
    assert_eq!(type_of_value(&f(vec![])), ty);
    assert_eq!(type_of_value(&f(vec![Value::Int(1)])), arrow(type_tag("String"), Type::Unit));
    assert_eq!(type_of_value(&f(vec![Value::Int(1), Value::String(s("a"))])), Type::Unit);
    assert_eq!(type_of_value(&f(vec![Value::Unit, Value::Unit, Value::Unit])), Type::Unit);
    assert_eq!(strip_fun_args(0, &ty), &ty);
    assert_eq!(strip_fun_args(5, &ty), &Type::Unit);
    let wrapper = Function::Wrapper { inner: fun.clone(), function_type: Type::Unit };
    assert_eq!(type_of_function(&wrapper), &Type::Unit);
}

#[test]
fn fun_type_from_arguments() {
    assert_eq!(build_fun_type(&vec![], Type::Unit), Type::Unit);
    assert_eq!(
        build_fun_type(&vec![type_tag("Int"), type_tag("String")], Type::Unit),
        arrow(type_tag("Int"), arrow(type_tag("String"), Type::Unit))
    );
}

#[test]
fn fresh_names() {
    assert_eq!(digits(0), "0");
    assert_eq!(digits(7), "7");
    assert_eq!(digits(10), "10");
    assert_eq!(digits(9075), "9075");
    assert_eq!(digits(u64::MAX), "18446744073709551615");
    assert_eq!(suffix(42), "#42");
    let mut env = StaticEnv::new();
    assert_eq!(env.fresh("t"), tvar("t#0"));
    assert_eq!(env.fresh("number"), tvar("number#1"));
    assert_eq!(env.fresh_suffix(), "#2");
    assert_eq!(env.next_var, 3);
    env.next_var = u64::MAX;
    assert_eq!(env.fresh_suffix(), "#18446744073709551615");
    assert_eq!(env.next_var, u64::MAX);
    assert!(is_number_var(&s("number")));
    assert!(is_number_var(&s("number#12")));
    assert!(!is_number_var(&s("numbe")));
    assert!(!is_number_var(&s("a number")));
}

#[test]
fn operations_on_variables() {
    let t = Type::Tuple(vec![
        tvar("a"),
        arrow(tvar("number"), tvar("b")),
        Type::Record(vec![(s("a"), tvar("a"))]),
        type_list(tvar("number1")),
    ]);
    assert_eq!(
        map_vars(&t, &VarOp::Rename(&s("#1"))),
        Type::Tuple(vec![
            tvar("a#1"),
            arrow(tvar("number#1"), tvar("b#1")),
            Type::Record(vec![(s("a"), tvar("a#1"))]),
            type_list(tvar("number1#1")),
        ])
    );
    assert_eq!(
        map_vars(&t, &VarOp::Replace(&s("a"), &Type::Unit)),
        Type::Tuple(vec![
            Type::Unit,
            arrow(tvar("number"), tvar("b")),
            Type::Record(vec![(s("a"), Type::Unit)]),
            type_list(tvar("number1")),
        ])
    );
    assert_eq!(
        map_vars(&t, &VarOp::DefaultNumbers),
        Type::Tuple(vec![
            tvar("a"),
            arrow(type_tag("Int"), tvar("b")),
            Type::Record(vec![(s("a"), tvar("a"))]),
            type_list(type_tag("Int")),
        ])
    );
    let bindings = vec![(s("a"), type_list(tvar("b"))), (s("b"), Type::Unit)];
    assert_eq!(resolve(&bindings, &tvar("a")), type_list(Type::Unit));
    assert!(occurs_in(&s("b"), &t));
    assert!(occurs_in(&s("number1"), &t));
    assert!(!occurs_in(&s("c"), &t));
}

#[test]
fn unification() {
    let mut bindings = vec![];
    assert_eq!(unify(&tvar("a"), &type_tag("Int"), &mut bindings), Ok(()));
    assert_eq!(bindings, vec![(s("a"), type_tag("Int"))]);

    let mut bindings = vec![];
    let left = arrow(tvar("a"), tvar("a"));
    let right = arrow(type_list(tvar("b")), type_list(type_tag("Int")));
    assert_eq!(unify(&left, &right, &mut bindings), Ok(()));
    assert_eq!(resolve(&bindings, &left), resolve(&bindings, &right));
    assert_eq!(resolve(&bindings, &left), arrow(type_list(type_tag("Int")), type_list(type_tag("Int"))));

    let mut bindings = vec![];
    assert_eq!(
        unify(&tvar("a"), &type_list(tvar("a")), &mut bindings),
        Err((tvar("a"), type_list(tvar("a"))))
    );
    assert_eq!(
        unify(&type_tag("Int"), &type_tag("String"), &mut bindings),
        Err((type_tag("Int"), type_tag("String")))
    );
    assert_eq!(
        unify(&tvar("number"), &type_tag("String"), &mut bindings),
        Err((tvar("number"), type_tag("String")))
    );
    assert_eq!(unify(&tvar("number"), &type_tag("Float"), &mut bindings), Ok(()));
    let mut bindings = vec![];
    assert_eq!(unify(&tvar("number"), &tvar("a"), &mut bindings), Ok(()));
    assert_eq!(bindings, vec![(s("a"), tvar("number"))]);
    let mut bindings = vec![];
    assert_eq!(
        unify(
            &Type::Record(vec![(s("a"), Type::Unit)]),
            &Type::Record(vec![(s("b"), Type::Unit)]),
            &mut bindings
        ),
        Err((Type::Record(vec![(s("a"), Type::Unit)]), Type::Record(vec![(s("b"), Type::Unit)])))
    );
    assert_eq!(
        unify(
            &Type::Tuple(vec![tvar("x"), tvar("x")]),
            &Type::Tuple(vec![Type::Unit, type_tag("Int")]),
            &mut bindings
        ),
        Err((Type::Unit, type_tag("Int")))
    );
}

#[test]
fn failed_unification_binds_nothing() {
    let mut env = StaticEnv::new();
    let left = Type::Tuple(vec![tvar("x"), tvar("x")]);
    let right = Type::Tuple(vec![Type::Unit, type_tag("Int")]);
    assert!(!env.unify_types(&left, &right));
    assert_eq!(env.substitution, vec![]);
    assert!(env.unify_types(&tvar("x"), &Type::Unit));
    assert_eq!(env.substitution, vec![(s("x"), Type::Unit)]);
    assert_eq!(env.resolve_type(&left), Type::Tuple(vec![Type::Unit, Type::Unit]));
}

#[test]
fn static_scopes() {
    let mut env = StaticEnv::new();
    assert_eq!(env.find(&s("x")), None);
    env.add(&s("x"), Type::Unit);
    assert_eq!(env.find(&s("x")), Some((Type::Unit, true)));
    env.enter_block();
    assert_eq!(env.find(&s("x")), Some((Type::Unit, true)));
    env.add(&s("x"), type_tag("Int"));
    assert_eq!(env.find(&s("x")), Some((type_tag("Int"), false)));
    env.exit_block();
    assert_eq!(env.find(&s("x")), Some((Type::Unit, true)));
    env.add_adt(maybe());
    assert_eq!(env.find_variant(&s("Nothing")), Some((0, 1)));
    assert_eq!(env.find_variant(&s("Other")), None);
    assert_eq!(env.find_adt(&s("Maybe")), Some(0));
    assert_eq!(env.find_adt(&s("Bool")), None);
}

#[test]
fn a_case_that_is_exhaustive_takes_a_branch_for_every_variant() {
    let case_over = |subject: Expr| {
        Expr::Case(
            Box::new(subject),
            vec![
                (Pattern::Adt(s("Just"), vec![var("x")]), name("x")),
                (Pattern::Adt(s("Nothing"), vec![]), text("none")),
            ],
        )
    };
    let mut values = default_lang_env();
    eval_statement(&mut values, &Statement::Adt(maybe())).unwrap();
    for subject in [just(text("some")), name("Nothing")] {
        let e = case_over(subject);
        assert_eq!(type_check_expression(&mut env_with_maybe(), &e), Ok(type_tag("String")));
        assert!(matches!(eval_expression(&mut values, &e), Ok(Value::String(_))));
    }
}

fn two_variants() -> Arc<Adt> {
    Arc::new(Adt {
        name: s("T"),
        types: vec![],
        variants: vec![
            AdtVariant { name: s("A"), types: vec![] },
            AdtVariant { name: s("B"), types: vec![] },
        ],
    })
}

fn env_with_two_variants() -> StaticEnv {
    let mut env = default_static_env();
    declare(&mut env, &Declaration::Adt(s("T"), two_variants()));
    env.add(&s("v"), type_tag("T"));
    env
}

#[test]
fn case_over_two_variants_with_one_branch_is_not_exhaustive() {
    let e = Expr::Case(Box::new(name("v")), vec![(Pattern::Adt(s("A"), vec![]), text("a"))]);
    assert_eq!(
        type_check_expression(&mut env_with_two_variants(), &e),
        Err(TypeError::PatternMatchingError(PatternMatchingError::PatternNotExhaustive(
            Pattern::Adt(s("B"), vec![])
        )))
    );
    let mut inner = env_with_two_variants();
    inner.enter_block();
    inner.add(&s("w"), type_tag("T"));
    let e = Expr::Case(Box::new(name("w")), vec![(Pattern::Adt(s("A"), vec![]), text("a"))]);
    assert_eq!(
        type_check_expression(&mut inner, &e),
        Err(TypeError::PatternMatchingError(PatternMatchingError::PatternNotExhaustive(
            Pattern::Adt(s("B"), vec![])
        )))
    );
}

#[test]
fn case_over_two_variants_with_a_wildcard_has_a_type() {
    let e = Expr::Case(
        Box::new(name("v")),
        vec![(Pattern::Adt(s("A"), vec![]), text("a")), (Pattern::Wildcard, text("b"))],
    );
    assert_eq!(type_check_expression(&mut env_with_two_variants(), &e), Ok(type_tag("String")));
}

#[test]
fn case_over_two_variants_with_both_branches_has_a_type() {
    let e = Expr::Case(
        Box::new(name("v")),
        vec![
            (Pattern::Adt(s("A"), vec![]), text("a")),
            (Pattern::Adt(s("B"), vec![]), text("b")),
        ],
    );
    assert_eq!(type_check_expression(&mut env_with_two_variants(), &e), Ok(type_tag("String")));
}

#[test]
fn case_with_a_mixed_list_pattern_names_both_types() {
    let mixed = Pattern::List(vec![Pattern::LitInt(1), Pattern::LitString(s("a"))]);
    let mut env = StaticEnv::new();
    env.enter_block();
    env.add(&s("subject"), tvar("x"));
    let e = Expr::Case(
        Box::new(name("subject")),
        vec![(mixed.clone(), Expr::Unit), (Pattern::Wildcard, Expr::Unit)],
    );
    assert_eq!(
        type_check_expression(&mut env, &e),
        Err(TypeError::PatternMatchingError(
            PatternMatchingError::ListPatternsAreNotHomogeneous(
                type_tag("Int"),
                type_tag("String")
            )
        ))
    );
    // Within a lambda, whose parameter has a fresh type.
    let e = lambda(
        vec![var("p")],
        Expr::Case(Box::new(name("p")), vec![(mixed, Expr::Unit)]),
    );
    assert_eq!(
        type_check_expression(&mut default_static_env(), &e),
        Err(TypeError::PatternMatchingError(
            PatternMatchingError::ListPatternsAreNotHomogeneous(
                type_tag("Int"),
                type_tag("String")
            )
        ))
    );
}

#[test]
fn a_definition_sees_the_type_that_its_name_had() {
    let mut types = default_static_env();
    let mut values = default_lang_env();
    let first = Definition { header: tvar("h"), name: s("f"), patterns: vec![], expr: text("one") };
    let ty = type_check_function(&mut types, &first).unwrap();
    assert_eq!(ty, type_tag("String"));
    types.add(&s("f"), ty);
    eval_statement(&mut values, &Statement::Def(first)).unwrap();
    let second = Definition {
        header: tvar("h"),
        name: s("f"),
        patterns: vec![Pattern::Unit],
        expr: name("f"),
    };
    let ty = type_check_function(&mut types, &second).unwrap();
    assert_eq!(ty, arrow(Type::Unit, type_tag("String")));
    types.add(&s("f"), ty);
    eval_statement(&mut values, &Statement::Def(second)).unwrap();
    let e = call(name("f"), Expr::Unit);
    let ty = type_check_expression(&mut types, &e).unwrap();
    let value = eval_expression(&mut values, &e).unwrap();
    assert_eq!(value, Value::String(s("one")));
    assert_eq!(type_of_value(&value), ty);
}
