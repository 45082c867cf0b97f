pub mod compiler;
pub mod errors;
pub mod interpreter;
pub mod lexer;
pub mod nodes;
pub mod parser;
pub mod serializer;
pub mod tokens;
