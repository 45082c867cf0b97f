use rost::errors::EvalError;
use rost::interpreter::Interpreter;
use rost::lexer::Lexer;
use rost::nodes::{literals_ok, Program};
use rost::parser::Parser;

fn eval(src: &str) -> Result<Option<String>, EvalError> {
    let mut lexer = Lexer::new(src);
    let tokens = lexer.scan().expect("lexes");
    let mut parser = Parser::new(&tokens);
    let program: Program = parser.parse().expect("parses");
    assert!(literals_ok(&program));
    Interpreter::run(&program)
}

fn value(src: &str) -> String {
    eval(src).expect("evaluates").expect("has a value")
}

#[test]
fn plain_arithmetic_matches_hand_computation() {
    assert_eq!(value("2 + 3"), "5");
    assert_eq!(value("7 - 10"), "-3");
    assert_eq!(value("6 * 7"), "42");
    assert_eq!(value("1.5 + 2.25"), "3.75");
    assert_eq!(value("0.1 + 0.2"), "0.3");
}

#[test]
fn division_uses_decimal_arithmetic() {
    assert_eq!(value("10 / 4"), "2.5");
    assert_eq!(value("9 / 3"), "3");
}

#[test]
fn precedence_multiplication_binds_tighter() {
    assert_eq!(value("2 + 3 * 4"), "14");
    assert_eq!(value("(2 + 3) * 4"), "20");
}

#[test]
fn subtraction_is_left_associative() {
    assert_eq!(value("8 - 3 - 2"), "3");
}

#[test]
fn division_is_left_associative() {
    assert_eq!(value("8 / 2 / 2"), "2");
}

#[test]
fn unary_chains_apply_sign_by_sign() {
    assert_eq!(value("--5"), "5");
    assert_eq!(value("-+-5"), "5");
    assert_eq!(value("-5"), "-5");
    assert_eq!(value("+5"), "5");
}

#[test]
fn bindings_evaluate_in_order() {
    assert_eq!(value("let x = 2; let y = x + 3; x * y"), "10");
}

#[test]
fn a_rebound_name_shadows_the_earlier_value() {
    assert_eq!(value("let x = 1; let x = x + 1; x"), "2");
}

#[test]
fn a_binding_is_worth_its_bound_value() {
    assert_eq!(value("let x = 4 * 2"), "8");
}

#[test]
fn nested_bindings_bind_both_names() {
    assert_eq!(value("let x = let y = 2; y * 3"), "6");
    assert_eq!(value("let x = let y = 2; y + x"), "4");
}

#[test]
fn empty_program_has_no_value() {
    assert!(matches!(eval(""), Ok(None)));
}

#[test]
fn division_by_zero_is_a_typed_error() {
    assert!(matches!(eval("1 / 0"), Err(EvalError::DivisionByZero)));
    assert!(matches!(eval("1 / (2 - 2)"), Err(EvalError::DivisionByZero)));
}

#[test]
fn unbound_variable_is_a_typed_error() {
    match eval("a + 1") {
        Err(EvalError::UnboundVariable(name)) => assert_eq!(name, "a"),
        other => panic!("expected an unbound-variable error, got {:?}", other),
    }
}

#[test]
fn grouping_underscores_do_not_change_the_value() {
    assert_eq!(value("1_000 + 1"), "1001");
}
