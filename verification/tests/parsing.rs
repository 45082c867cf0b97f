use rost::errors::ParseError;
use rost::lexer::Lexer;
use rost::nodes::{literals_ok, Atom, AddExpr, Expression, Factor, NumberLiteral, Program, Term};
use rost::parser::Parser;
use rost::tokens::Token;

fn parse(src: &str) -> Result<Program, ParseError> {
    let mut lexer = Lexer::new(src);
    let tokens: Vec<Token> = lexer.scan().expect("lexes");
    let mut parser = Parser::new(&tokens);
    parser.parse()
}

#[test]
fn empty_input_is_an_empty_program() {
    let program = parse("").expect("parses");
    assert_eq!(program.len(), 0);
}

#[test]
fn statements_are_separated_by_semicolons() {
    let program = parse("1; 2; let x = 3").expect("parses");
    assert_eq!(program.len(), 3);
    assert!(matches!(program[0], Expression::Add(_)));
    assert!(matches!(program[2], Expression::Let(_)));
}

#[test]
fn let_binds_a_name_to_an_expression() {
    let program = parse("let answer = 42").expect("parses");
    assert_eq!(program.len(), 1);
    match &program[0] {
        Expression::Let(l) => {
            assert_eq!(l.name, "answer");
            assert!(matches!(*l.expr, Expression::Add(_)));
        },
        Expression::Add(_) => panic!("expected a binding"),
    }
}

#[test]
fn nested_let_is_allowed() {
    let program = parse("let x = let y = 1").expect("parses");
    match &program[0] {
        Expression::Let(l) => assert!(matches!(*l.expr, Expression::Let(_))),
        Expression::Add(_) => panic!("expected a binding"),
    }
}

#[test]
fn operator_chains_stay_flat_and_ordered() {
    let program = parse("8 - 3 - 2").expect("parses");
    match &program[0] {
        Expression::Add(a) => {
            assert_eq!(a.following.len(), 2);
        },
        Expression::Let(_) => panic!("expected an expression"),
    }
}

#[test]
fn dangling_operator_is_expected_expression() {
    assert!(matches!(parse("2 +"), Err(ParseError::ExpectedExpression)));
}

#[test]
fn unclosed_parenthesis_is_expected_token() {
    assert!(matches!(parse("(2 + 3"), Err(ParseError::ExpectedToken(')'))));
}

#[test]
fn let_without_name_is_expected_identifier() {
    assert!(matches!(parse("let 5 = 3"), Err(ParseError::ExpectedIdentifier)));
}

#[test]
fn let_without_assign_is_expected_token() {
    assert!(matches!(parse("let x 5"), Err(ParseError::ExpectedToken('='))));
}

#[test]
fn leftover_input_is_expected_eof() {
    assert!(matches!(parse("2 3"), Err(ParseError::ExpectedEof)));
    assert!(matches!(parse("1; 2 )"), Err(ParseError::ExpectedEof)));
}

#[test]
fn semicolon_must_be_followed_by_an_expression() {
    assert!(matches!(parse("1;"), Err(ParseError::ExpectedExpression)));
}

#[test]
fn parsed_literals_are_well_formed() {
    let program = parse("1.5 + 2 * (3.25 - _a)").expect("parses");
    assert!(literals_ok(&program));
}

#[test]
fn hand_made_malformed_literal_is_detected() {
    let atom = Atom::Number(NumberLiteral { text: "abc".to_string(), num_bits: 0 });
    let factor = Factor { ops: vec![], atom };
    let term = Term { factor, following: vec![] };
    let add = AddExpr { term: Box::new(term), following: vec![] };
    let program: Program = vec![Expression::Add(add)];
    assert!(!literals_ok(&program));
}
