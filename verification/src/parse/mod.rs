//! Lexical analysis and parsing.
pub mod token;
pub mod errors;
pub mod tokenize;
pub mod expect;
pub mod grammar;
pub mod parser;
pub mod unparse;
pub mod render;
pub mod relex;
pub mod canonical;
pub mod round_trip;

pub use self::errors::{Error, LexError};
pub use self::token::Token;
pub use self::tokenize::Tokenizer;
