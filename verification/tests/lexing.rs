use rost::errors::LexError;
use rost::lexer::Lexer;
use rost::tokens::{Token, TokenType};

fn scan(src: &str) -> Result<Vec<Token>, LexError> {
    let mut lexer = Lexer::new(src);
    lexer.scan()
}

fn kinds(tokens: &[Token]) -> Vec<TokenType> {
    tokens.iter().map(|t| t.token_type).collect()
}

#[test]
fn empty_input_yields_single_eof() {
    let tokens = scan("").expect("lexes");
    assert_eq!(kinds(&tokens), vec![TokenType::Eof]);
    assert_eq!(tokens[0].value, "EOF");
}

#[test]
fn single_character_tokens() {
    let tokens = scan("( ) + - * / = ;").expect("lexes");
    assert_eq!(
        kinds(&tokens),
        vec![
            TokenType::LParen,
            TokenType::RParen,
            TokenType::Plus,
            TokenType::Minus,
            TokenType::Multiply,
            TokenType::Divide,
            TokenType::Assign,
            TokenType::Semicolon,
            TokenType::Eof,
        ]
    );
    assert_eq!(tokens[0].value, "(");
    assert_eq!(tokens[7].value, ";");
}

#[test]
fn numbers_collect_digits_and_fraction() {
    let tokens = scan("12.34").expect("lexes");
    assert_eq!(kinds(&tokens), vec![TokenType::Number, TokenType::Eof]);
    assert_eq!(tokens[0].value, "12.34");
}

#[test]
fn underscores_are_grouping_separators() {
    let tokens = scan("1_000").expect("lexes");
    assert_eq!(tokens[0].value, "1000");
    let tokens = scan("1_0.5_0").expect("lexes");
    assert_eq!(tokens[0].value, "10.50");
}

#[test]
fn trailing_dot_is_not_part_of_the_number() {
    // "5" lexes as a number, and the lone dot begins no token at all.
    assert!(matches!(scan("5."), Err(LexError::IllegalCharacter('.'))));
}

#[test]
fn underscore_after_dot_stops_the_fraction() {
    // The dot is consumed only when directly followed by a digit.
    assert!(matches!(scan("1._5"), Err(LexError::IllegalCharacter('.'))));
}

#[test]
fn names_and_the_let_keyword() {
    let tokens = scan("let lettuce _x9").expect("lexes");
    assert_eq!(
        kinds(&tokens),
        vec![TokenType::Let, TokenType::Ident, TokenType::Ident, TokenType::Eof]
    );
    assert_eq!(tokens[0].value, "let");
    assert_eq!(tokens[1].value, "lettuce");
    assert_eq!(tokens[2].value, "_x9");
}

#[test]
fn alphabet_inputs_always_lex() {
    // Anything made only of digits, symbols, whitespace, letters and
    // underscore lexes, however odd it reads.
    for src in ["___ 000abc", "++--//**", "\t \t", "9_9_9", "letlet let"] {
        assert!(scan(src).is_ok(), "{:?} should lex", src);
    }
}

#[test]
fn stream_always_ends_with_exactly_one_eof() {
    for src in ["", "1 + 2", "let x = 1; x", "((((("] {
        let tokens = scan(src).expect("lexes");
        let eofs = tokens.iter().filter(|t| t.token_type == TokenType::Eof).count();
        assert_eq!(eofs, 1, "{:?}", src);
        assert_eq!(tokens.last().unwrap().token_type, TokenType::Eof, "{:?}", src);
    }
}

#[test]
fn illegal_character_is_reported() {
    assert!(matches!(scan("2 $ 3"), Err(LexError::IllegalCharacter('$'))));
    assert!(matches!(scan("#"), Err(LexError::IllegalCharacter('#'))));
}

#[test]
fn fresh_tokens_carry_no_numeric_encoding() {
    let t = Token::new(TokenType::Number, "5".to_string());
    assert_eq!(t.token_type, TokenType::Number);
    assert_eq!(t.value, "5");
    assert_eq!(t.num_bits, 0);
    let tokens = scan("7.25").expect("lexes");
    assert_eq!(tokens[0].num_bits, 0);
}
