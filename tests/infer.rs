use ruby_analyzer::infer::{infer, lookup_instance, Instance};
use ruby_analyzer::parser::{parse, Location};

fn run(src: &str) -> Vec<Instance> {
    infer(&parse(src).unwrap())
}

#[test]
fn single_assignment_binds_integer() {
    let env = run("x = 123");
    assert_eq!(
        env,
        vec![Instance { name: "x".to_string(), ty: "Integer".to_string(), location: Location::new(1, 1) }]
    );
    assert_eq!(lookup_instance(&env, "x").unwrap().ty, "Integer");
}

#[test]
fn two_assignments_keep_insertion_order() {
    let env = run("a = 1; b = 2");
    assert_eq!(env.len(), 2);
    assert_eq!(env[0].name, "a");
    assert_eq!(env[1].name, "b");
    assert_eq!(lookup_instance(&env, "a").unwrap().ty, "Integer");
    assert_eq!(lookup_instance(&env, "b").unwrap().ty, "Integer");
}

#[test]
fn chained_assignment_binds_both() {
    let env = run("x = y = 5");
    assert_eq!(lookup_instance(&env, "x").unwrap().ty, "Integer");
    assert_eq!(lookup_instance(&env, "y").unwrap().ty, "Integer");
    assert_eq!(lookup_instance(&env, "y").unwrap().location, Location::new(1, 5));
    assert_eq!(lookup_instance(&env, "x").unwrap().location, Location::new(1, 1));
    assert_eq!(env[0].name, "y");
}

#[test]
fn last_assignment_wins() {
    let env = run("x = 1; x = \"s\"");
    assert_eq!(lookup_instance(&env, "x").unwrap().ty, "String");
    let env = run("x = \"s\"; y = x; x = 2");
    assert_eq!(lookup_instance(&env, "y").unwrap().ty, "String");
    assert_eq!(lookup_instance(&env, "x").unwrap().ty, "Integer");
}

#[test]
fn unbound_variable_is_unknown() {
    let env = run("x = y");
    assert_eq!(lookup_instance(&env, "x").unwrap().ty, "Unknown");
    assert!(lookup_instance(&env, "y").is_none());
}
