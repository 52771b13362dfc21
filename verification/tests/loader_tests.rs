use std::sync::Arc;

use elm_interpreter::analyzer::{type_tag, TypeError};
use elm_interpreter::ast::{Definition, Expr, Import, Literal, Type};
use elm_interpreter::loader::dependency_sorter::{sort_dependencies, DependencyGraph};
use elm_interpreter::loader::{
    declaration_name, get_module_dependencies, inner_path_of, is_source_name, join_path,
    module_name, Declaration, LoaderError, ModuleLoader, SourceFile,
};
use elm_interpreter::types::{Adt, AdtVariant, Module, Statement};

fn s(text: &str) -> String {
    text.to_string()
}

fn names(list: &[&str]) -> Vec<String> {
    list.iter().map(|n| n.to_string()).collect()
}

fn graph(nodes: &[(&str, &[&str])]) -> DependencyGraph {
    let mut g = DependencyGraph::new();
    for (name, deps) in nodes {
        g.insert(s(name), names(deps));
    }
    g
}

fn source(name: &str) -> SourceFile {
    SourceFile { name: s(name), path: format!("/project/{}.elm", name), source: vec![] }
}

fn import(dotted: &str) -> Import {
    Import { path: dotted.split('.').map(|p| p.to_string()).collect() }
}

fn value(name: &str, expr: Expr) -> Statement {
    Statement::Def(Definition {
        header: Type::Var(s("header")),
        name: s(name),
        patterns: vec![],
        expr,
    })
}

fn module(imports: &[&str], statements: Vec<Statement>) -> Module {
    Module { imports: imports.iter().map(|i| import(i)).collect(), statements }
}

fn sample_project() -> Vec<(SourceFile, Module)> {
    vec![
        (
            source("Main"),
            module(
                &["SubModule1", "Mod.SubModule2"],
                vec![value("sayHello", Expr::Tuple(vec![Expr::Ref(s("hello")), Expr::Ref(s("world"))]))],
            ),
        ),
        (
            source("Mod.SubModule2"),
            module(&["SubModule1"], vec![value("world", Expr::Ref(s("hello")))]),
        ),
        (
            source("SubModule1"),
            module(&[], vec![value("hello", Expr::Literal(Literal::String(s("hello"))))]),
        ),
    ]
}

#[test]
fn test_include_folder() {
    let mut loader = ModuleLoader::new();
    loader.include_folder(&sample_project()).unwrap();
    let loaded: Vec<String> = loader.loaded_modules.iter().map(|m| m.src.name.clone()).collect();
    assert_eq!(loaded, names(&["SubModule1", "Mod.SubModule2", "Main"]));
    let main = loader.get_module(&s("Main")).unwrap();
    assert_eq!(main.dependencies, names(&["SubModule1", "Mod.SubModule2"]));
    assert_eq!(
        main.declarations,
        vec![Declaration::Def(
            s("sayHello"),
            Type::Tuple(vec![type_tag("String"), type_tag("String")])
        )]
    );
    assert!(loader.get_module(&s("Other")).is_none());
}

#[test]
fn modules_come_after_what_they_import() {
    let g = graph(&[("A", &["B"]), ("B", &["C"]), ("C", &[])]);
    assert_eq!(sort_dependencies(&g), Ok(names(&["C", "B", "A"])));
    let g = graph(&[("C", &[]), ("A", &["B"]), ("B", &["C"])]);
    assert_eq!(sort_dependencies(&g), Ok(names(&["C", "B", "A"])));
}

#[test]
fn imports_that_are_no_node_ask_for_nothing() {
    let g = graph(&[("A", &["Elsewhere", "B"]), ("B", &["Basics"])]);
    assert_eq!(sort_dependencies(&g), Ok(names(&["B", "A"])));
    assert_eq!(sort_dependencies(&DependencyGraph::new()), Ok(vec![]));
}

#[test]
fn every_node_is_ordered_once_and_after_its_dependencies() {
    let nodes: &[(&str, &[&str])] = &[
        ("E", &["C", "D"]),
        ("D", &["B", "C"]),
        ("C", &["A", "B"]),
        ("B", &["A"]),
        ("A", &[]),
        ("F", &["A", "E"]),
    ];
    let order = sort_dependencies(&graph(nodes)).unwrap();
    assert_eq!(order.len(), nodes.len());
    for (name, deps) in nodes {
        let at = order.iter().position(|n| n == name).unwrap();
        assert_eq!(order.iter().filter(|n| n == name).count(), 1);
        for dep in deps.iter() {
            assert!(order.iter().position(|n| n == dep).unwrap() < at);
        }
    }
}

#[test]
fn a_circle_of_imports_is_an_error() {
    let g = graph(&[("A", &["B"]), ("B", &["A"])]);
    let cycle = sort_dependencies(&g).unwrap_err();
    assert!(cycle == names(&["A", "B"]) || cycle == names(&["B", "A"]));
    let g = graph(&[("A", &["A"])]);
    assert_eq!(sort_dependencies(&g), Err(names(&["A"])));
    let g = graph(&[("Free", &[]), ("A", &["Free", "B"]), ("B", &["C"]), ("C", &["B"])]);
    let cycle = sort_dependencies(&g).unwrap_err();
    assert!(cycle == names(&["B", "C"]) || cycle == names(&["C", "B"]));
}

#[test]
fn inserting_a_node_again_replaces_its_dependencies() {
    let mut g = graph(&[("A", &["B"]), ("B", &["A"])]);
    g.insert(s("B"), vec![]);
    assert_eq!(g.nodes, vec![(s("A"), names(&["B"])), (s("B"), vec![])]);
    assert_eq!(sort_dependencies(&g), Ok(names(&["B", "A"])));
}

#[test]
fn a_folder_with_a_circle_loads_nothing() {
    let mut loader = ModuleLoader::new();
    let sources = vec![
        (source("A"), module(&["B"], vec![])),
        (source("B"), module(&["A"], vec![])),
        (source("C"), module(&[], vec![])),
    ];
    match loader.include_folder(&sources) {
        Err(LoaderError::CyclicDependency(cycle)) => {
            assert!(cycle == names(&["A", "B"]) || cycle == names(&["B", "A"]));
        }
        other => panic!("a cycle was expected, not {:?}", other),
    }
    assert_eq!(loader.loaded_modules, vec![]);
}

#[test]
fn a_module_needs_its_imports_loaded() {
    let mut loader = ModuleLoader::new();
    let main = module(&["SubModule1", "Mod.SubModule2", "Other"], vec![]);
    assert_eq!(
        loader.include_module(source("Main"), main.clone()),
        Err(LoaderError::MissingDependencies(names(&["SubModule1", "Mod.SubModule2", "Other"])))
    );
    assert_eq!(loader.include_file(source("SubModule1"), module(&[], vec![])), Ok(()));
    assert_eq!(
        loader.include_module(source("Main"), main),
        Err(LoaderError::MissingDependencies(names(&["Mod.SubModule2", "Other"])))
    );
    assert_eq!(loader.loaded_modules.len(), 1);
    assert_eq!(loader.missing_dependencies(&names(&["X", "SubModule1", "Y"])), names(&["X", "Y"]));
}

#[test]
fn a_module_with_a_type_error_is_not_loaded() {
    let mut loader = ModuleLoader::new();
    let broken = module(&[], vec![value("x", Expr::Ref(s("nowhere")))]);
    assert_eq!(
        loader.include_module(source("Broken"), broken),
        Err(LoaderError::Analysis(TypeError::MissingDefinition(s("nowhere"))))
    );
    assert_eq!(loader.loaded_modules, vec![]);
}

#[test]
fn a_module_sees_only_what_it_imports() {
    let mut loader = ModuleLoader::new();
    let one = module(&[], vec![value("hello", Expr::Unit)]);
    assert_eq!(loader.include_module(source("One"), one), Ok(()));
    let two = module(&[], vec![value("again", Expr::Ref(s("hello")))]);
    assert_eq!(
        loader.include_module(source("Two"), two),
        Err(LoaderError::Analysis(TypeError::MissingDefinition(s("hello"))))
    );
    let three = module(&["One"], vec![value("again", Expr::Ref(s("hello")))]);
    assert_eq!(loader.include_module(source("Three"), three), Ok(()));
    assert_eq!(
        loader.get_module(&s("Three")).unwrap().declarations,
        vec![Declaration::Def(s("again"), Type::Unit)]
    );
}

#[test]
fn statements_see_the_statements_before_them() {
    let maybe = Arc::new(Adt {
        name: s("Maybe"),
        types: vec![s("a")],
        variants: vec![
            AdtVariant { name: s("Just"), types: vec![Type::Var(s("a"))] },
            AdtVariant { name: s("Nothing"), types: vec![] },
        ],
    });
    let statements = vec![
        Statement::Alias(s("Name"), type_tag("String")),
        Statement::Adt(maybe.clone()),
        value("one", Expr::Literal(Literal::Int(1))),
        value(
            "wrapped",
            Expr::Application(Box::new(Expr::Ref(s("Just"))), Box::new(Expr::Ref(s("one")))),
        ),
    ];
    let mut loader = ModuleLoader::new();
    assert_eq!(loader.include_module(source("M"), module(&[], statements)), Ok(()));
    let declarations = &loader.get_module(&s("M")).unwrap().declarations;
    assert_eq!(
        declarations,
        &vec![
            Declaration::Alias(s("Name"), type_tag("String")),
            Declaration::Adt(s("Maybe"), maybe),
            Declaration::Def(s("one"), type_tag("Int")),
            Declaration::Def(s("wrapped"), Type::Tag(s("Maybe"), vec![type_tag("Int")])),
        ]
    );
    let found: Vec<&str> = declarations.iter().map(|d| declaration_name(d)).collect();
    assert_eq!(found, vec!["Name", "Maybe", "one", "wrapped"]);
}

#[test]
fn module_names_are_dotted() {
    assert_eq!(module_name("", "Main.elm"), "Main");
    assert_eq!(module_name("Mod", "SubModule2.elm"), "Mod.SubModule2");
    assert_eq!(module_name("A.B", "C.elm"), "A.B.C");
    assert_eq!(module_name("", "Strange.elm.elm"), "Strange");
    assert_eq!(module_name("", "NoEnding"), "NoEnding");
    assert_eq!(module_name("", ".elm"), "");
    assert_eq!(module_name("", "elm"), "elm");
    assert_eq!(module_name("Dir", "Ünïcödé.elm"), "Dir.Ünïcödé");
    assert_eq!(join_path(&names(&["Mod", "SubModule2"])), "Mod.SubModule2");
    assert_eq!(join_path(&names(&["Main"])), "Main");
    assert_eq!(join_path(&vec![]), "");
    assert_eq!(
        get_module_dependencies(&module(&["A.B.C", "D"], vec![])),
        names(&["A.B.C", "D"])
    );
}

#[test]
fn a_loaded_module_holds_what_it_was_given() {
    let mut loader = ModuleLoader::new();
    let src = SourceFile { name: s("M"), path: s("/project/M.elm"), source: vec![1, 2, 3] };
    let ast = module(&[], vec![value("one", Expr::Literal(Literal::Int(1)))]);
    assert_eq!(loader.include_module(src.clone(), ast.clone()), Ok(()));
    let loaded = loader.get_module(&s("M")).unwrap();
    assert_eq!(loaded.src, src);
    assert_eq!(loaded.ast, ast);
    assert_eq!(loaded.dependencies, Vec::<String>::new());
}

#[test]
fn a_module_included_again_takes_the_place_of_the_first() {
    let mut loader = ModuleLoader::new();
    assert_eq!(loader.include_module(source("A"), module(&[], vec![value("x", Expr::Unit)])), Ok(()));
    assert_eq!(loader.include_module(source("B"), module(&["A"], vec![])), Ok(()));
    let again = module(&[], vec![value("y", Expr::Literal(Literal::Char('c')))]);
    assert_eq!(loader.include_module(source("A"), again.clone()), Ok(()));
    let loaded: Vec<String> = loader.loaded_modules.iter().map(|m| m.src.name.clone()).collect();
    assert_eq!(loaded, names(&["A", "B"]));
    assert_eq!(loader.get_module(&s("A")).unwrap().ast, again);
    assert_eq!(
        loader.get_module(&s("A")).unwrap().declarations,
        vec![Declaration::Def(s("y"), type_tag("Char"))]
    );
}

#[test]
fn a_circle_names_no_module_twice() {
    let nodes: &[(&str, &[&str])] =
        &[("A", &["B"]), ("B", &["C", "A"]), ("C", &["D"]), ("D", &["B"]), ("E", &["A"])];
    let cycle = sort_dependencies(&graph(nodes)).unwrap_err();
    assert!(!cycle.is_empty());
    for (i, name) in cycle.iter().enumerate() {
        assert_eq!(cycle.iter().filter(|n| *n == name).count(), 1);
        let next = &cycle[(i + 1) % cycle.len()];
        let deps = nodes.iter().find(|(n, _)| n == name).unwrap().1;
        assert!(deps.contains(&next.as_str()));
    }
}

#[test]
fn source_names_and_folder_paths() {
    assert!(is_source_name("Main.elm"));
    assert!(is_source_name(".elm"));
    assert!(is_source_name("Ünï.elm"));
    assert!(!is_source_name("Main.el"));
    assert!(!is_source_name("Main.elm.txt"));
    assert!(!is_source_name("elm"));
    assert!(!is_source_name(""));
    assert_eq!(inner_path_of("", "Mod"), "Mod");
    assert_eq!(inner_path_of("Mod", "Sub"), "Mod.Sub");
    assert_eq!(inner_path_of("A.B", "C"), "A.B.C");
}
