//! A front end for a small expression language: a tokenizer and a
//! precedence-climbing expression parser with inline type annotations.

pub mod expr;
pub mod grammar;
pub mod lex_laws;
pub mod lex_model;
pub mod lexer;
pub mod parse_laws;
pub mod parser;
pub mod text;
pub mod token;
pub mod types;

pub use expr::Expr;
pub use lexer::{try_match_pair, LasmiaoLexer, LexError, Lexer};
pub use grammar::ParseErrorKind;
pub use parser::{ParseError, Parser, TokenParser};
pub use token::{Decimal, Token};
pub use types::{TensorShapeType, Type};
