//! Tokens.
use vstd::prelude::*;

verus! {

/// A lexical token.
#[derive(Debug, PartialEq, Eq)]
pub enum Token {
    /// A standalone word.
    Word(String),
    /// A symbol, taken from the table of operators.
    Symbol(&'static str),
    /// A string in quotes.
    String(String),
    /// An integer.
    Integer(i64),
    EndOfLine,
    EndOfFile,
}

/// What a token is, as a value.
pub enum TokenView {
    Word(Seq<char>),
    Symbol(Seq<char>),
    String(Seq<char>),
    Integer(i64),
    EndOfLine,
    EndOfFile,
}

impl View for Token {
    type V = TokenView;

    open spec fn view(&self) -> TokenView {
        match self {
            Token::Word(word) => TokenView::Word(word@),
            Token::Symbol(symbol) => TokenView::Symbol(symbol@),
            Token::String(text) => TokenView::String(text@),
            Token::Integer(value) => TokenView::Integer(*value),
            Token::EndOfLine => TokenView::EndOfLine,
            Token::EndOfFile => TokenView::EndOfFile,
        }
    }
}

/// The values of a list of tokens.
pub open spec fn views(tokens: Seq<Token>) -> Seq<TokenView> {
    tokens.map_values(|t: Token| t@)
}

impl TokenView {
    /// A word with the given text.
    pub open spec fn word(text: &str) -> TokenView {
        TokenView::Word(text@)
    }

    /// A symbol with the given text.
    pub open spec fn symbol(text: &str) -> TokenView {
        TokenView::Symbol(text@)
    }

    /// Whether the token ends an item: a new line or a semicolon.
    pub open spec fn is_terminator(self) -> bool {
        self == TokenView::EndOfLine || self == TokenView::symbol(";")
    }
}

impl Clone for Token {
    fn clone(&self) -> (copy: Token)
        ensures
            copy@ == self@,
    {
        match self {
            Token::Word(word) => Token::Word(word.clone()),
            Token::Symbol(symbol) => Token::Symbol(*symbol),
            Token::String(text) => Token::String(text.clone()),
            Token::Integer(value) => Token::Integer(*value),
            Token::EndOfLine => Token::EndOfLine,
            Token::EndOfFile => Token::EndOfFile,
        }
    }
}

impl Token {
    /// The `class` keyword.
    pub fn class() -> (token: Token)
        ensures
            token@ == TokenView::word("class"),
    {
        Token::Word("class".to_owned())
    }

    /// The `module` keyword.
    pub fn module() -> (token: Token)
        ensures
            token@ == TokenView::word("module"),
    {
        Token::Word("module".to_owned())
    }

    /// The `def` keyword.
    pub fn def() -> (token: Token)
        ensures
            token@ == TokenView::word("def"),
    {
        Token::Word("def".to_owned())
    }

    /// The `end` keyword.
    pub fn end() -> (token: Token)
        ensures
            token@ == TokenView::word("end"),
    {
        Token::Word("end".to_owned())
    }

    pub fn left_paren() -> (token: Token)
        ensures
            token@ == TokenView::symbol("("),
    {
        Token::Symbol("(")
    }

    pub fn right_paren() -> (token: Token)
        ensures
            token@ == TokenView::symbol(")"),
    {
        Token::Symbol(")")
    }

    pub fn less_than() -> (token: Token)
        ensures
            token@ == TokenView::symbol("<"),
    {
        Token::Symbol("<")
    }

    pub fn greater_than() -> (token: Token)
        ensures
            token@ == TokenView::symbol(">"),
    {
        Token::Symbol(">")
    }

    pub fn colon() -> (token: Token)
        ensures
            token@ == TokenView::symbol(":"),
    {
        Token::Symbol(":")
    }

    pub fn comma() -> (token: Token)
        ensures
            token@ == TokenView::symbol(","),
    {
        Token::Symbol(",")
    }

    pub fn negate() -> (token: Token)
        ensures
            token@ == TokenView::symbol("-"),
    {
        Token::Symbol("-")
    }

    pub fn rocket() -> (token: Token)
        ensures
            token@ == TokenView::symbol("=>"),
    {
        Token::Symbol("=>")
    }

    pub fn equals() -> (token: Token)
        ensures
            token@ == TokenView::symbol("="),
    {
        Token::Symbol("=")
    }

    /// Whether the token ends an item: a new line or a semicolon.
    pub fn is_terminator(&self) -> (yes: bool)
        ensures
            yes == self@.is_terminator(),
    {
        match self {
            Token::EndOfLine => true,
            Token::Symbol(symbol) => (*symbol).eq(";"),
            _ => false,
        }
    }

    /// Whether this is the word `text`.
    pub fn is_word(&self, text: &str) -> (yes: bool)
        ensures
            yes == (self@ == TokenView::word(text)),
    {
        match self {
            Token::Word(word) => word.as_str().eq(text),
            _ => false,
        }
    }

    /// Whether this is the symbol `text`.
    pub fn is_symbol(&self, text: &str) -> (yes: bool)
        ensures
            yes == (self@ == TokenView::symbol(text)),
    {
        match self {
            Token::Symbol(symbol) => (*symbol).eq(text),
            _ => false,
        }
    }

    /// Whether both tokens are of the same kind and carry the same value.
    pub fn same_as(&self, other: &Token) -> (yes: bool)
        ensures
            yes == (self@ == other@),
    {
        match (self, other) {
            (Token::Word(a), Token::Word(b)) => a.as_str().eq(b.as_str()),
            (Token::Symbol(a), Token::Symbol(b)) => (*a).eq(*b),
            (Token::String(a), Token::String(b)) => a.as_str().eq(b.as_str()),
            (Token::Integer(a), Token::Integer(b)) => *a == *b,
            (Token::EndOfLine, Token::EndOfLine) => true,
            (Token::EndOfFile, Token::EndOfFile) => true,
            _ => false,
        }
    }
}

} // verus!
