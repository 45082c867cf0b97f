use rost::errors::EvalError;
use rost::interpreter::Interpreter;
use rost::lexer::Lexer;
use rost::nodes::{literals_ok, Program};
use rost::parser::Parser;
use rost::serializer::serialize;

fn parse(src: &str) -> Program {
    let mut lexer = Lexer::new(src);
    let tokens = lexer.scan().expect("lexes");
    let mut parser = Parser::new(&tokens);
    parser.parse().expect("parses")
}

fn eval(program: &Program) -> Result<Option<String>, EvalError> {
    assert!(literals_ok(program));
    Interpreter::run(program)
}

/// The rendering of a parsed program lexes and parses again, evaluates
/// to the same value, and renders identically the second time.
fn assert_round_trip(src: &str) {
    let program = parse(src);
    let rendered = serialize(&program);
    let reparsed = parse(&rendered);
    let rendered_again = serialize(&reparsed);
    assert_eq!(rendered, rendered_again, "rendering is stable for {:?}", src);
    let v1 = eval(&program).expect("first evaluates");
    let v2 = eval(&reparsed).expect("second evaluates");
    assert_eq!(v1, v2, "values agree for {:?}", src);
}

#[test]
fn round_trip_keeps_the_value() {
    for src in [
        "2 + 3 * 4",
        "(2 + 3) * 4",
        "8 - 3 - 2",
        "--5",
        "-+-5",
        "10 / 4",
        "let x = 2; let y = x + 3; x * y",
        "let x = let y = 1; y",
        "1.5 + 2.25",
        "((7))",
        "",
    ] {
        assert_round_trip(src);
    }
}

#[test]
fn rendering_normalizes_spacing_only() {
    assert_eq!(serialize(&parse("2+3*4")), "2 + 3 * 4");
    assert_eq!(serialize(&parse("let x=1;x")), "let x = 1; x");
    assert_eq!(serialize(&parse(" - 5")), "-5");
    assert_eq!(serialize(&parse("(1)")), "(1)");
}

#[test]
fn underscores_are_not_rendered_back() {
    // Grouping underscores are dropped by the lexer, so the rendering
    // holds the cleaned literal; the value is unchanged.
    assert_eq!(serialize(&parse("1_000")), "1000");
    assert_round_trip("1_000 + 2");
}

#[test]
fn empty_program_renders_empty() {
    assert_eq!(serialize(&parse("")), "");
}
