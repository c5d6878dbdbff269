use asalang::ast::Node;
use asalang::interpreter::{start_interpreter, Runtime, RuntimeError, Value};
use asalang::parser::{comparison, identifier, number, parse, program, statement};
use asalang::text::Source;

#[test]
fn leftover_input_is_returned() {
    let (rest, _) = program("1 + 2 )").unwrap();
    assert_eq!(rest, " )");
}

#[test]
fn nothing_parses_is_an_error() {
    let e = program(")").unwrap_err();
    assert_eq!(e.rest, ")");
}

#[test]
fn parse_rejects_leftover() {
    assert_eq!(parse("1 + 2 )").unwrap_err().rest, " )");
    assert!(parse("1 + 2").is_ok());
}

#[test]
fn identifier_takes_alphanumerics() {
    let src = Source::new("abc1 rest");
    match identifier(&src, 0) {
        Some((Node::Identifier { value }, q)) => {
            assert_eq!(value, "abc1");
            assert_eq!(q, 4);
        }
        other => panic!("unexpected {:?}", other),
    }
    assert!(identifier(&src, 4).is_none());
}

#[test]
fn number_reads_digits() {
    let src = Source::new("2147483647");
    match number(&src, 0) {
        Some((Node::Number { value }, q)) => {
            assert_eq!(value, 2147483647);
            assert_eq!(q, 10);
        }
        other => panic!("unexpected {:?}", other),
    }
}

#[test]
fn number_too_large_is_rejected() {
    let src = Source::new("2147483648");
    assert!(number(&src, 0).is_none());
}

#[test]
fn comparison_operands_and_operator() {
    let src = Source::new("x <= 3");
    match comparison(&src, 0) {
        Some((Node::ComparisonExpression { name, children }, q)) => {
            assert_eq!(name, "<=");
            assert_eq!(children.len(), 2);
            assert_eq!(q, 6);
        }
        other => panic!("unexpected {:?}", other),
    }
}

#[test]
fn if_statement_is_parsed_but_not_run() {
    let src = Source::new("if x < 1 { return 1; };");
    match statement(&src, 0) {
        Some((Node::Statement { children }, q)) => {
            assert!(matches!(children[0], Node::IfStatement { .. }));
            assert_eq!(q, 23);
        }
        other => panic!("unexpected {:?}", other),
    }
    let (rest, tree) = program("if x < 1 { return 1; };").unwrap();
    assert_eq!(rest, "");
    assert_eq!(start_interpreter(&tree), Err(RuntimeError::UnknownStatement));
}

#[test]
fn runtime_rejects_unhandled_nodes() {
    let mut rt = Runtime::new();
    let node = Node::IfStatement { children: vec![] };
    assert_eq!(rt.run(&node), Err(RuntimeError::UnhandledNode));
}

#[test]
fn identifier_without_frame_fails() {
    let mut rt = Runtime::new();
    let node = Node::Identifier { value: "x".to_string() };
    assert_eq!(rt.run(&node), Err(RuntimeError::NoActiveFrame));
}

#[test]
fn program_run_registers_main() {
    let mut rt = Runtime::new();
    let (_, tree) = program("7").unwrap();
    assert_eq!(rt.run(&tree), Ok(Value::Bool(true)));
    let call = Node::FunctionCall { name: "main".to_string(), children: vec![] };
    assert_eq!(rt.run(&call), Ok(Value::Number(7)));
}

#[test]
fn execution_is_repeatable() {
    let (_, tree) = program("fn main(){let x = 4; return x * x;}").unwrap();
    let first = start_interpreter(&tree);
    let second = start_interpreter(&tree);
    assert_eq!(first, Ok(Value::Number(16)));
    assert_eq!(first, second);
}
