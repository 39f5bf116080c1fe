//! Errors of the lexer and the parser.
use vstd::prelude::*;
use crate::parse::token::{Token, TokenView, views};

verus! {

/// Why a piece of text is not a token.
#[derive(Debug, PartialEq, Eq)]
pub enum LexError {
    /// The character starts no token.
    UnexpectedCharacter(char),
    /// The run of numeric characters is not a decimal number that fits the
    /// range of integer tokens.
    InvalidInteger(String),
}

/// What a lexical error is, as a value.
pub enum LexErrorView {
    UnexpectedCharacter(char),
    InvalidInteger(Seq<char>),
}

impl View for LexError {
    type V = LexErrorView;

    open spec fn view(&self) -> LexErrorView {
        match self {
            LexError::UnexpectedCharacter(c) => LexErrorView::UnexpectedCharacter(*c),
            LexError::InvalidInteger(text) => LexErrorView::InvalidInteger(text@),
        }
    }
}

impl Clone for LexError {
    fn clone(&self) -> (copy: LexError)
        ensures
            copy@ == self@,
    {
        match self {
            LexError::UnexpectedCharacter(c) => LexError::UnexpectedCharacter(*c),
            LexError::InvalidInteger(text) => LexError::InvalidInteger(text.clone()),
        }
    }
}

/// Why a sequence of tokens is not a program.
#[derive(Clone, Debug, PartialEq, Eq)]
pub enum Error {
    /// A token stands where the grammar has no use for it. `expected` lists
    /// what could have stood there; at the end of the input `got` is
    /// `EndOfFile`.
    UnexpectedToken { got: Token, expected: Vec<Token> },
    /// The input broke off at something that is no token.
    Lexical(LexError),
}

/// What a parse error is, as a value.
pub enum ErrorView {
    UnexpectedToken { got: TokenView, expected: Seq<TokenView> },
    Lexical(LexErrorView),
}

impl View for Error {
    type V = ErrorView;

    open spec fn view(&self) -> ErrorView {
        match self {
            Error::UnexpectedToken { got, expected } => ErrorView::UnexpectedToken {
                got: got@,
                expected: views(expected@),
            },
            Error::Lexical(error) => ErrorView::Lexical(error@),
        }
    }
}

} // verus!
