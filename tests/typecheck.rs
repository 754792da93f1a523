use ruby_analyzer::typecheck::{ErrorKind, Expr, Method, Span, Type, TypeChecker, TypeError};

fn sp(start: usize, end: usize) -> Span {
    Span { start, end }
}

fn def(name: &str, body: Vec<Expr>) -> Expr {
    Expr::Def {
        name: name.to_string(),
        params: vec![],
        body: Some(Box::new(Expr::Statements(body))),
        loc: sp(0, 0),
    }
}

fn write(name: &str, value: Expr) -> Expr {
    Expr::LocalWrite { name: name.to_string(), value: Box::new(value), loc: sp(0, 0) }
}

fn read(name: &str, start: usize, end: usize) -> Expr {
    Expr::LocalRead { name: name.to_string(), loc: sp(start, end) }
}

fn ret_of(checker: &TypeChecker, name: &str) -> Option<String> {
    checker.get_method(name).map(|m| m.ret.as_alias().unwrap().clone())
}

#[test]
fn literals_push_their_classes() {
    let mut checker = TypeChecker::new();
    checker.visit(&Expr::Integer(sp(0, 1)));
    checker.visit(&Expr::Str(sp(2, 5)));
    assert_eq!(checker.type_stack, vec![Type::alias("Integer"), Type::alias("String")]);
    assert!(checker.local_variables.is_empty());
}

#[test]
fn method_returning_integer_literal() {
    let mut checker = TypeChecker::new();
    checker.visit(&Expr::Statements(vec![def("foo", vec![Expr::Integer(sp(10, 13))])]));
    let m = checker.get_method("foo").unwrap();
    assert_eq!(*m, Method::new(vec![], Type::alias("Integer")));
    assert!(checker.errors.is_empty());
    let object = checker.get_object("Object").unwrap().as_sig().unwrap();
    assert_eq!(object.len(), 1);
}

#[test]
fn method_reading_unbound_local() {
    let mut checker = TypeChecker::new();
    checker.visit(&def("bar", vec![read("x", 12, 13)]));
    assert_eq!(
        checker.errors,
        vec![TypeError::new(ErrorKind::UndefinedVariable("x".to_string()), sp(12, 13))]
    );
    assert_eq!(ret_of(&checker, "bar"), Some("Unknown".to_string()));
    assert!(checker.get_method("bar").unwrap().args.is_empty());
}

#[test]
fn last_write_wins_in_a_body() {
    let mut checker = TypeChecker::new();
    checker.visit(&def(
        "baz",
        vec![
            write("a", Expr::Integer(sp(0, 1))),
            write("a", Expr::Str(sp(0, 1))),
            read("a", 0, 1),
        ],
    ));
    assert_eq!(ret_of(&checker, "baz"), Some("String".to_string()));
    assert!(checker.errors.is_empty());
}

#[test]
fn write_then_read_round_trip() {
    let mut checker = TypeChecker::new();
    checker.visit(&def("w", vec![write("v", Expr::Integer(sp(0, 1))), read("v", 2, 3)]));
    assert_eq!(ret_of(&checker, "w"), Some("Integer".to_string()));
}

#[test]
fn sibling_methods_do_not_share_locals() {
    let first = def("one", vec![write("a", Expr::Integer(sp(0, 1))), read("a", 0, 1)]);
    let second = def("two", vec![write("a", Expr::Str(sp(0, 1))), read("a", 0, 1)]);
    let third = def("three", vec![read("a", 40, 41)]);
    let mut checker = TypeChecker::new();
    checker.visit(&Expr::Statements(vec![first, second, third]));
    assert_eq!(ret_of(&checker, "one"), Some("Integer".to_string()));
    assert_eq!(ret_of(&checker, "two"), Some("String".to_string()));
    assert_eq!(ret_of(&checker, "three"), Some("Unknown".to_string()));
    assert_eq!(checker.errors.len(), 1);
    assert!(checker.local_variables.is_empty());

    let mut alone = TypeChecker::new();
    alone.visit(&def("two", vec![write("a", Expr::Str(sp(0, 1))), read("a", 0, 1)]));
    assert_eq!(ret_of(&alone, "two"), Some("String".to_string()));
}

#[test]
fn redefinition_replaces_the_entry() {
    let mut checker = TypeChecker::new();
    checker.visit(&Expr::Statements(vec![
        def("f", vec![Expr::Integer(sp(0, 1))]),
        def("f", vec![Expr::Str(sp(0, 1))]),
    ]));
    assert_eq!(ret_of(&checker, "f"), Some("String".to_string()));
    assert_eq!(checker.get_object("Object").unwrap().as_sig().unwrap().len(), 1);
}

#[test]
fn empty_bodies_and_statement_values() {
    let mut checker = TypeChecker::new();
    checker.visit(&Expr::Def { name: "e".to_string(), params: vec![], body: None, loc: sp(0, 5) });
    assert_eq!(ret_of(&checker, "e"), Some("Unknown".to_string()));
    assert_eq!(checker.type_stack, vec![Type::alias("Symbol")]);
    checker.visit(&Expr::Statements(vec![]));
    assert_eq!(checker.type_stack.len(), 2);
}

#[test]
fn new_checker_tables() {
    let checker = TypeChecker::new();
    assert_eq!(checker.get_object("Object"), Some(&Type::sig(vec![])));
    assert!(checker.get_object("Nope").is_none());
    assert!(checker.get_method("upcase").is_none());
    assert_eq!(Type::alias("Integer").as_alias(), Some(&"Integer".to_string()));
    assert!(Type::alias("Integer").as_sig().is_none());
}
