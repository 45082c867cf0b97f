use rost::compiler::Compiler;
use rost::errors::CompileError;
use rost::lexer::Lexer;
use rost::nodes::Program;
use rost::parser::Parser;
use rost::tokens::TokenType;

const OP_END: u8 = 0x0b;
const OP_LOCAL_SET: u8 = 0x21;
const OP_LOCAL_GET: u8 = 0x20;
const OP_CONST: u8 = 0x44;
const OP_NEG: u8 = 0x9a;
const OP_ADD: u8 = 0xa0;
const OP_MUL: u8 = 0xa2;
const TYPE_FUNC: u8 = 0x60;
const TYPE_NUM: u8 = 0x7c;

fn compile(src: &str) -> Result<Vec<u8>, CompileError> {
    let mut lexer = Lexer::new(src);
    let mut tokens = lexer.scan().expect("lexes");
    for t in tokens.iter_mut() {
        if t.token_type == TokenType::Number {
            t.num_bits = t.value.parse::<f64>().expect("numeric literal").to_bits();
        }
    }
    let mut parser = Parser::new(&tokens);
    let program: Program = parser.parse().expect("parses");
    Compiler::new(program).compile()
}

fn uleb(mut n: u64) -> Vec<u8> {
    let mut v = vec![];
    loop {
        let mut b = (n & 0x7f) as u8;
        n >>= 7;
        if n != 0 {
            b |= 0x80;
        }
        v.push(b);
        if n == 0 {
            return v;
        }
    }
}

fn module_around(let_count: u64, instrs: Vec<u8>) -> Vec<u8> {
    let mut body = vec![1];
    body.extend(uleb(let_count));
    body.push(TYPE_NUM);
    body.extend(instrs);
    body.push(OP_END);
    let mut code = vec![1];
    code.extend(uleb(body.len() as u64));
    code.extend(body);
    let mut out = b"\0asm".to_vec();
    out.extend([1, 0, 0, 0]);
    out.push(1);
    out.extend(uleb(5));
    out.extend([1, TYPE_FUNC, 0, 1, TYPE_NUM]);
    out.push(3);
    out.extend(uleb(2));
    out.extend([1, 0]);
    out.push(7);
    out.extend(uleb(8));
    out.extend([1, 4]);
    out.extend(b"main");
    out.extend([0, 0]);
    out.push(10);
    out.extend(uleb(code.len() as u64));
    out.extend(code);
    out
}

fn const_of(v: f64) -> Vec<u8> {
    let mut b = vec![OP_CONST];
    b.extend(v.to_bits().to_le_bytes());
    b
}

#[test]
fn module_shape_for_a_single_binding() {
    let bytes = compile("let x = 1").expect("compiles");

    // Byte-exact image.
    let mut instrs = const_of(1.0);
    instrs.extend([OP_LOCAL_SET, 0]);
    assert_eq!(bytes, module_around(1, instrs));

    // The shape called out piece by piece: magic, version, the four
    // sections in order, the export name, one local group of one local.
    assert_eq!(&bytes[0..4], b"\0asm");
    assert_eq!(&bytes[4..8], [1, 0, 0, 0]);
    assert_eq!(bytes[8], 1, "type section id");
    assert_eq!(bytes[15], 3, "function section id");
    assert_eq!(bytes[19], 7, "export section id");
    let export = &bytes[21..29];
    assert_eq!(export[0], 1, "one export");
    assert_eq!(export[1], 4, "name length");
    assert_eq!(&export[2..6], b"main");
    assert_eq!(bytes[29], 10, "code section id");
    assert_eq!(bytes[31], 1, "one function body");
    assert_eq!(bytes[33], 1, "one local group");
    assert_eq!(bytes[34], 1, "one local in the group");
}

#[test]
fn empty_program_compiles_to_an_empty_body() {
    let bytes = compile("").expect("compiles");
    assert_eq!(bytes, module_around(0, vec![]));
}

#[test]
fn operands_and_operators_come_in_encounter_order() {
    let bytes = compile("2 + 3 * 4").expect("compiles");
    let mut instrs = const_of(2.0);
    instrs.extend(const_of(3.0));
    instrs.extend(const_of(4.0));
    instrs.push(OP_MUL);
    instrs.push(OP_ADD);
    assert_eq!(bytes, module_around(0, instrs));
}

#[test]
fn each_minus_sign_emits_a_negate() {
    let bytes = compile("--5").expect("compiles");
    let mut instrs = const_of(5.0);
    instrs.extend([OP_NEG, OP_NEG]);
    assert_eq!(bytes, module_around(0, instrs));
}

#[test]
fn slots_are_assigned_in_first_binding_order() {
    let bytes = compile("let x = 2; let y = x + 3; x * y").expect("compiles");
    let mut instrs = const_of(2.0);
    instrs.extend([OP_LOCAL_SET, 0]);
    instrs.extend([OP_LOCAL_GET, 0]);
    instrs.extend(const_of(3.0));
    instrs.push(OP_ADD);
    instrs.extend([OP_LOCAL_SET, 1]);
    instrs.extend([OP_LOCAL_GET, 0]);
    instrs.extend([OP_LOCAL_GET, 1]);
    instrs.push(OP_MUL);
    assert_eq!(bytes, module_around(2, instrs));
}

#[test]
fn fractional_constants_use_their_bit_pattern() {
    let bytes = compile("0.1").expect("compiles");
    assert_eq!(bytes, module_around(0, const_of(0.1)));
}

#[test]
fn long_bodies_use_multi_byte_lengths() {
    // Fourteen constants and thirteen additions make the body longer
    // than 127 bytes, so its length needs the continuation bit.
    let src = "1 + 1 + 1 + 1 + 1 + 1 + 1 + 1 + 1 + 1 + 1 + 1 + 1 + 1";
    let bytes = compile(src).expect("compiles");
    let mut instrs = const_of(1.0);
    for _ in 0..13 {
        instrs.extend(const_of(1.0));
        instrs.push(OP_ADD);
    }
    assert!(instrs.len() > 127);
    let expected = module_around(0, instrs);
    assert_eq!(bytes, expected);
}

#[test]
fn nested_binding_takes_a_slot_but_only_top_level_lets_are_counted() {
    // The inner binding receives slot 0 and the outer one slot 1, while
    // the local group holds the pre-counted top-level bindings only.
    let bytes = compile("let x = let y = 2; y + x").expect("compiles");
    let mut instrs = const_of(2.0);
    instrs.extend([OP_LOCAL_SET, 0]);
    instrs.extend([OP_LOCAL_SET, 1]);
    instrs.extend([OP_LOCAL_GET, 0]);
    instrs.extend([OP_LOCAL_GET, 1]);
    instrs.push(OP_ADD);
    assert_eq!(bytes, module_around(1, instrs));
}

#[test]
fn unresolved_variable_is_a_typed_error() {
    match compile("q * 2") {
        Err(CompileError::UnresolvedVariable(name)) => assert_eq!(name, "q"),
        other => panic!("expected an unresolved-variable error, got {:?}", other),
    }
}

#[test]
fn binding_must_precede_the_reference() {
    assert!(matches!(compile("x; let x = 1"), Err(CompileError::UnresolvedVariable(_))));
}
