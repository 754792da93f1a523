use ruby_analyzer::parser::{parse, Location, Node, NodeType};

fn integer(value: i64, line: u32, column: usize) -> Node {
    Node::new(NodeType::Integer(value), (line, column))
}

fn assign(name: &str, line: u32, column: usize, value: Node) -> Node {
    Node::new(NodeType::Assignment(name.to_string(), Box::new(value)), (line, column))
}

#[test]
fn test_integer() {
    assert_eq!(parse("123").unwrap()[0].node_type, NodeType::Integer(123));
}

#[test]
fn test_string() {
    assert_eq!(
        parse("\"hello\"").unwrap()[0].node_type,
        NodeType::String("hello".to_string())
    );
}

#[test]
fn test_assignment() {
    assert_eq!(
        parse("x = 123").unwrap()[0].node_type,
        NodeType::Assignment(
            "x".to_string(),
            Box::new(Node {
                node_type: NodeType::Integer(123),
                location: Location::new(1, 5)
            })
        )
    );
    assert_eq!(
        parse("x=y=123").unwrap()[0].node_type,
        NodeType::Assignment("x".to_string(), Box::new(assign("y", 1, 3, integer(123, 1, 5))))
    );
}

#[test]
fn test_variable() {
    assert_eq!(
        parse("x").unwrap()[0].node_type,
        NodeType::Variable("x".to_string())
    );
}

#[test]
fn test_expression() {
    assert_eq!(parse("x = 123").unwrap()[0], assign("x", 1, 1, integer(123, 1, 5)));
}

#[test]
fn test_expressions() {
    assert_eq!(
        parse("a = 1; b = 2").unwrap(),
        vec![assign("a", 1, 1, integer(1, 1, 5)), assign("b", 1, 8, integer(2, 1, 12))]
    );
}

#[test]
fn test_comment() {
    assert_eq!(parse("# hello").unwrap(), vec![]);
    assert_eq!(
        parse("a = 1 # hello\nb = 2").unwrap(),
        vec![assign("a", 1, 1, integer(1, 1, 5)), assign("b", 2, 1, integer(2, 2, 5))]
    );
}

#[test]
fn empty_input_has_no_statements() {
    assert_eq!(parse("").unwrap(), vec![]);
    assert_eq!(parse("  \n ").unwrap(), vec![]);
}

#[test]
fn integer_beyond_i64_is_an_error() {
    assert!(parse("x = 9223372036854775808").is_err());
    assert_eq!(
        parse("9223372036854775807").unwrap()[0].node_type,
        NodeType::Integer(i64::MAX)
    );
}

#[test]
fn parsing_stops_at_unparsable_text() {
    assert_eq!(parse("a = 1; !b = 2").unwrap(), vec![assign("a", 1, 1, integer(1, 1, 5))]);
    assert_eq!(parse("12ab").unwrap(), vec![integer(12, 1, 1)]);
}

#[test]
fn newline_separates_statements_and_columns_count_bytes() {
    let nodes = parse("s = \"é\"\nt = s").unwrap();
    assert_eq!(nodes.len(), 2);
    assert_eq!(nodes[1].location, Location::new(2, 1));
    assert_eq!(
        nodes[1].node_type,
        NodeType::Assignment(
            "t".to_string(),
            Box::new(Node::new(NodeType::Variable("s".to_string()), (2, 5)))
        )
    );
    let after = parse("\"é\"; x = 1").unwrap();
    assert_eq!(after[1].location, Location::new(1, 7));
}
