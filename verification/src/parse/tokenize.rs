//! The tokenizer: characters in, tokens out.
//!
//! `read_token` says which token starts at a position of the input, and
//! `lex` which tokens the whole input holds. The `Tokenizer` computes both,
//! one token at a time.
use vstd::prelude::*;
use crate::text::{alphabetic, alphanumeric, char_is_alphabetic, char_is_alphanumeric,
                  char_is_numeric, char_is_whitespace, numeric, whitespace};
use crate::parse::token::{Token, TokenView, views};
use crate::parse::errors::{LexError, LexErrorView};

verus! {

/// The classes of characters that the tokenizer reads in runs.
pub enum CharClass {
    /// White space other than a new line.
    Blank,
    /// What a word may hold after its first character.
    WordPart,
    /// What a number is made of.
    Numeric,
    /// What stands between quotes.
    Quoted,
}

impl CharClass {
    pub open spec fn holds(self, c: char) -> bool {
        match self {
            CharClass::Blank => c != '\n' && whitespace(c),
            CharClass::WordPart => alphanumeric(c) || c == '-',
            CharClass::Numeric => numeric(c),
            CharClass::Quoted => !is_quote(c),
        }
    }

    fn test(&self, c: char) -> (yes: bool)
        ensures
            yes == self.holds(c),
    {
        match self {
            CharClass::Blank => c != '\n' && char_is_whitespace(c),
            CharClass::WordPart => char_is_alphanumeric(c) || c == '-',
            CharClass::Numeric => char_is_numeric(c),
            CharClass::Quoted => !(c == '"' || c == '\''),
        }
    }
}

/// A single or a double quote: either opens a string, and either closes it.
pub open spec fn is_quote(c: char) -> bool {
    c == '"' || c == '\''
}

/// The operators of one character.
pub open spec fn single_symbol(c: char) -> bool {
    c == '{' || c == '}' || c == '(' || c == ')' || c == '[' || c == ']' || c == '<' || c == '>'
        || c == '-' || c == '.' || c == ';' || c == '&' || c == '|' || c == '@' || c == '='
        || c == ',' || c == ':'
}

/// The operators of two characters: `::`, `&&`, `||` and `=>`.
pub open spec fn double_symbol(a: char, b: char) -> bool {
    (a == ':' && b == ':') || (a == '&' && b == '&') || (a == '|' && b == '|') || (a == '='
        && b == '>')
}

/// Where the run of characters of `class` that starts at `from` ends.
pub open spec fn run_end(s: Seq<char>, from: int, class: CharClass) -> int
    decreases s.len() - from,
{
    if 0 <= from < s.len() && class.holds(s[from]) {
        run_end(s, from + 1, class)
    } else {
        from
    }
}

/// The number that a single decimal digit stands for.
pub open spec fn digit_value(c: char) -> int {
    c as int - '0' as int
}

pub open spec fn is_digit(c: char) -> bool {
    '0' <= c <= '9'
}

/// The number that a sequence of decimal digits denotes.
pub open spec fn decimal(digits: Seq<char>) -> int
    decreases digits.len(),
{
    if digits.len() == 0 {
        0
    } else {
        10 * decimal(digits.drop_last()) + digit_value(digits.last())
    }
}

/// The integer token for a run of numeric characters, if they are decimal
/// digits and their number is in range.
pub open spec fn integer_of(digits: Seq<char>) -> Option<i64> {
    if (forall|i: int| 0 <= i < digits.len() ==> is_digit(#[trigger] digits[i])) && decimal(digits)
        <= i64::MAX {
        Some(decimal(digits) as i64)
    } else {
        None
    }
}

/// What stands at a position of the input.
pub enum Lexeme {
    /// A token, and the position behind it.
    Token(TokenView, int),
    /// Nothing but blanks up to the end of the input.
    End,
    /// Something that is no token.
    Invalid(LexErrorView),
}

/// The token that starts at `from`, blanks skipped.
///
/// Operators are matched longest first: two characters that form an operator
/// are one symbol, otherwise the first character alone has to be one.
pub open spec fn read_token(s: Seq<char>, from: int) -> Lexeme {
    let start = run_end(s, from, CharClass::Blank);
    if !(0 <= start < s.len()) {
        Lexeme::End
    } else {
        let c = s[start];
        if alphabetic(c) {
            let end = run_end(s, start, CharClass::WordPart);
            Lexeme::Token(TokenView::Word(s.subrange(start, end)), end)
        } else if numeric(c) {
            let end = run_end(s, start, CharClass::Numeric);
            match integer_of(s.subrange(start, end)) {
                Some(value) => Lexeme::Token(TokenView::Integer(value), end),
                None => Lexeme::Invalid(LexErrorView::InvalidInteger(s.subrange(start, end))),
            }
        } else if c == '\n' {
            Lexeme::Token(TokenView::EndOfLine, start + 1)
        } else if is_quote(c) {
            let end = run_end(s, start + 1, CharClass::Quoted);
            Lexeme::Token(
                TokenView::String(s.subrange(start + 1, end)),
                if end < s.len() {
                    end + 1
                } else {
                    end
                },
            )
        } else if start + 1 < s.len() && double_symbol(c, s[start + 1]) {
            Lexeme::Token(TokenView::Symbol(seq![c, s[start + 1]]), start + 2)
        } else if single_symbol(c) {
            Lexeme::Token(TokenView::Symbol(seq![c]), start + 1)
        } else {
            Lexeme::Invalid(LexErrorView::UnexpectedCharacter(c))
        }
    }
}

/// The tokens of an input, up to its end or to the first thing in it that
/// is no token.
pub struct Lexed {
    pub tokens: Seq<TokenView>,
    pub fault: Option<LexErrorView>,
}

/// The tokens from `from` on. An input that is read to its end is closed
/// by one more `EndOfLine`.
pub open spec fn lex_from(s: Seq<char>, from: int) -> Lexed
    decreases s.len() - from,
{
    match read_token(s, from) {
        Lexeme::End => Lexed { tokens: seq![TokenView::EndOfLine], fault: None },
        Lexeme::Invalid(error) => Lexed { tokens: seq![], fault: Some(error) },
        Lexeme::Token(token, next) => {
            if from < next <= s.len() {
                let rest = lex_from(s, next);
                Lexed { tokens: seq![token] + rest.tokens, fault: rest.fault }
            } else {
                Lexed { tokens: seq![token], fault: None }
            }
        },
    }
}

/// The tokens of an input.
pub open spec fn lex(s: Seq<char>) -> Lexed {
    lex_from(s, 0)
}

/// A run ends at or behind its start, inside the input, and at a character
/// that is not of the class.
pub proof fn lemma_run_end(s: Seq<char>, from: int, class: CharClass)
    requires
        0 <= from <= s.len(),
    ensures
        from <= run_end(s, from, class) <= s.len(),
        run_end(s, from, class) < s.len() ==> !class.holds(s[run_end(s, from, class)]),
        forall|i: int| from <= i < run_end(s, from, class) ==> class.holds(#[trigger] s[i]),
    decreases s.len() - from,
{
    if from < s.len() && class.holds(s[from]) {
        lemma_run_end(s, from + 1, class);
    }
}

/// A run that is entered in its middle ends where the whole run ends.
pub proof fn lemma_run_end_from_inside(s: Seq<char>, from: int, at: int, class: CharClass)
    requires
        0 <= from <= at <= s.len(),
        forall|i: int| from <= i < at ==> class.holds(#[trigger] s[i]),
    ensures
        run_end(s, from, class) == run_end(s, at, class),
    decreases at - from,
{
    if from < at {
        lemma_run_end_from_inside(s, from + 1, at, class);
    }
}

/// Every token takes at least one character, and none reaches behind the
/// input.
pub proof fn lemma_read_token_advances(s: Seq<char>, from: int)
    requires
        0 <= from,
    ensures
        match read_token(s, from) {
            Lexeme::Token(_, next) => from < next <= s.len(),
            _ => true,
        },
{
    if from <= s.len() {
        lemma_run_end(s, from, CharClass::Blank);
        let start = run_end(s, from, CharClass::Blank);
        if start < s.len() {
            lemma_run_end(s, start, CharClass::WordPart);
            lemma_run_end(s, start, CharClass::Numeric);
            lemma_run_end(s, start + 1, CharClass::Quoted);
        }
    }
}

/// Every input that is read to its end is closed by an `EndOfLine`, whether
/// or not it ends in a new line itself.
pub proof fn lemma_lexed_ends_with_line(s: Seq<char>, from: int)
    requires
        0 <= from,
        lex_from(s, from).fault is None,
    ensures
        lex_from(s, from).tokens.len() > 0,
        lex_from(s, from).tokens.last() == TokenView::EndOfLine,
    decreases s.len() - from,
{
    lemma_read_token_advances(s, from);
    match read_token(s, from) {
        Lexeme::Token(token, next) => {
            lemma_lexed_ends_with_line(s, next);
        },
        _ => {},
    }
}

/// An input that holds nothing, or nothing but blanks, has exactly one
/// token: the `EndOfLine` that closes every input.
pub proof fn lemma_blank_input_is_one_end_of_line(s: Seq<char>)
    requires
        forall|i: int| 0 <= i < s.len() ==> CharClass::Blank.holds(#[trigger] s[i]),
    ensures
        lex(s) == (Lexed { tokens: seq![TokenView::EndOfLine], fault: None }),
{
    lemma_run_end(s, 0, CharClass::Blank);
}

/// The text of the operator of two characters `a`, `b`, if they form one.
fn double_symbol_text(a: char, b: char) -> (text: Option<&'static str>)
    ensures
        text is Some == double_symbol(a, b),
        text matches Some(t) ==> t@ == seq![a, b],
{
    proof {
        reveal_strlit("::");
        reveal_strlit("&&");
        reveal_strlit("||");
        reveal_strlit("=>");
    }
    let text = if a == ':' && b == ':' {
        Some("::")
    } else if a == '&' && b == '&' {
        Some("&&")
    } else if a == '|' && b == '|' {
        Some("||")
    } else if a == '=' && b == '>' {
        Some("=>")
    } else {
        None
    };
    assert(text matches Some(t) ==> t@ =~= seq![a, b]);
    text
}

/// The text of the operator of one character `c`, if it is one.
fn single_symbol_text(c: char) -> (text: Option<&'static str>)
    ensures
        text is Some == single_symbol(c),
        text matches Some(t) ==> t@ == seq![c],
{
    proof {
        reveal_strlit("{");
        reveal_strlit("}");
        reveal_strlit("(");
        reveal_strlit(")");
        reveal_strlit("[");
        reveal_strlit("]");
        reveal_strlit("<");
        reveal_strlit(">");
        reveal_strlit("-");
        reveal_strlit(".");
        reveal_strlit(";");
        reveal_strlit("&");
        reveal_strlit("|");
        reveal_strlit("@");
        reveal_strlit("=");
        reveal_strlit(",");
        reveal_strlit(":");
    }
    let text = if c == '{' {
        Some("{")
    } else if c == '}' {
        Some("}")
    } else if c == '(' {
        Some("(")
    } else if c == ')' {
        Some(")")
    } else if c == '[' {
        Some("[")
    } else if c == ']' {
        Some("]")
    } else if c == '<' {
        Some("<")
    } else if c == '>' {
        Some(">")
    } else if c == '-' {
        Some("-")
    } else if c == '.' {
        Some(".")
    } else if c == ';' {
        Some(";")
    } else if c == '&' {
        Some("&")
    } else if c == '|' {
        Some("|")
    } else if c == '@' {
        Some("@")
    } else if c == '=' {
        Some("=")
    } else if c == ',' {
        Some(",")
    } else if c == ':' {
        Some(":")
    } else {
        None
    };
    assert(text matches Some(t) ==> t@ =~= seq![c]);
    text
}

/// A longer sequence of digits denotes no smaller a number.
proof fn lemma_decimal_grows(digits: Seq<char>, n: int)
    requires
        0 <= n <= digits.len(),
        forall|i: int| 0 <= i < digits.len() ==> is_digit(#[trigger] digits[i]),
    ensures
        0 <= decimal(digits.take(n)) <= decimal(digits),
    decreases digits.len() - n,
{
    if n == digits.len() {
        assert(digits.take(n) == digits);
        lemma_decimal_nonnegative(digits);
    } else {
        lemma_decimal_grows(digits, n + 1);
        let longer = digits.take(n + 1);
        assert(longer.drop_last() == digits.take(n));
        assert(is_digit(digits[n]));
        lemma_decimal_nonnegative(digits.take(n));
    }
}

/// A sequence of decimal digits denotes a number that is not negative.
pub proof fn lemma_decimal_nonnegative(digits: Seq<char>)
    requires
        forall|i: int| 0 <= i < digits.len() ==> is_digit(#[trigger] digits[i]),
    ensures
        0 <= decimal(digits),
    decreases digits.len(),
{
    if digits.len() > 0 {
        lemma_decimal_nonnegative(digits.drop_last());
        assert(is_digit(digits[digits.len() - 1]));
    }
}

/// A tokenizer over an input that is held in full.
pub struct Tokenizer {
    chars: Vec<char>,
    pos: usize,
    /// Set once the `EndOfLine` that closes every input has been handed out.
    sent_last_new_line: bool,
}

impl Tokenizer {
    /// The position is in the input, and at its end once the last token
    /// has been handed out.
    #[verifier::type_invariant]
    spec fn in_bounds(self) -> bool {
        &&& self.pos <= self.chars.len()
        &&& self.sent_last_new_line ==> self.pos == self.chars.len()
    }

    /// The characters that the tokenizer was made with.
    pub closed spec fn input(&self) -> Seq<char> {
        self.chars@
    }

    /// How many characters have been read.
    pub closed spec fn position(&self) -> int {
        self.pos as int
    }

    /// Whether the last token has been handed out.
    pub closed spec fn finished(&self) -> bool {
        self.sent_last_new_line
    }

    /// The tokens that have not been handed out yet.
    pub open spec fn remaining(&self) -> Lexed {
        if self.finished() {
            Lexed { tokens: seq![], fault: None }
        } else {
            lex_from(self.input(), self.position())
        }
    }

    /// Creates a new tokenizer.
    pub fn new(characters: Vec<char>) -> (tokenizer: Self)
        ensures
            tokenizer.input() == characters@,
            tokenizer.position() == 0,
            !tokenizer.finished(),
    {
        Tokenizer { chars: characters, pos: 0, sent_last_new_line: false }
    }

    /// The character at the current position, if there is one.
    fn peek_char(&self) -> (c: Option<char>)
        ensures
            0 <= self.position() <= self.input().len(),
            self.position() < self.input().len() ==> c == Some(self.input()[self.position()]),
            self.position() >= self.input().len() ==> c is None,
    {
        proof {
            use_type_invariant(self);
        }
        if self.pos < self.chars.len() {
            Some(self.chars[self.pos])
        } else {
            None
        }
    }

    /// The number that the characters from `from` up to `to` denote, if they
    /// are decimal digits and their number is in range.
    fn integer_between(&self, from: usize, to: usize) -> (value: Option<i64>)
        requires
            from <= to <= self.input().len(),
        ensures
            value == integer_of(self.input().subrange(from as int, to as int)),
    {
        let ghost digits = self.chars@.subrange(from as int, to as int);
        let mut total: i64 = 0;
        let mut i: usize = from;
        assert(digits.take(0) =~= seq![]);
        while i < to
            invariant
                from <= i <= to <= self.chars.len(),
                digits == self.chars@.subrange(from as int, to as int),
                forall|k: int| 0 <= k < i - from ==> is_digit(#[trigger] digits[k]),
                total == decimal(digits.take(i - from)),
                0 <= total,
            decreases to - i,
        {
            let c = self.chars[i];
            assert(c == digits[i - from]);
            if !('0' <= c && c <= '9') {
                return None;
            }
            let digit: i64 = (c as u32 - '0' as u32) as i64;
            assert(digits.take(i - from + 1).drop_last() =~= digits.take(i - from));
            assert(decimal(digits.take(i - from + 1)) == 10 * total + digit);
            if total > (i64::MAX - digit) / 10 {
                proof {
                    if forall|k: int| 0 <= k < digits.len() ==> is_digit(#[trigger] digits[k]) {
                        lemma_decimal_grows(digits, i - from + 1);
                    }
                }
                return None;
            }
            total = 10 * total + digit;
            i += 1;
        }
        assert(digits.take(to - from) =~= digits);
        Some(total)
    }

    /// Steps over the run of characters of `class` at the current position.
    fn skip_run(&mut self, class: CharClass)
        ensures
            final(self).input() == old(self).input(),
            final(self).finished() == old(self).finished(),
            final(self).position() == run_end(old(self).input(), old(self).position(), class),
            old(self).position() <= final(self).position() <= old(self).input().len(),
    {
        proof {
            use_type_invariant(&*self);
        }
        while self.pos < self.chars.len() && class.test(self.chars[self.pos])
            invariant
                self.chars@ == old(self).chars@,
                self.sent_last_new_line == old(self).sent_last_new_line,
                old(self).pos <= self.pos <= self.chars.len(),
                self.sent_last_new_line ==> self.pos == self.chars.len(),
                run_end(self.chars@, old(self).pos as int, class) == run_end(
                    self.chars@,
                    self.pos as int,
                    class,
                ),
            decreases self.chars.len() - self.pos,
        {
            self.pos += 1;
        }
    }

    /// The characters from `from` up to `to`.
    fn text_between(&self, from: usize, to: usize) -> (text: String)
        requires
            from <= to <= self.input().len(),
        ensures
            text@ == self.input().subrange(from as int, to as int),
    {
        let mut text = String::new();
        let mut i = from;
        while i < to
            invariant
                from <= i <= to <= self.chars.len(),
                text@ == self.chars@.subrange(from as int, i as int),
            decreases to - i,
        {
            text.push(self.chars[i]);
            i += 1;
            assert(text@ =~= self.chars@.subrange(from as int, i as int));
        }
        text
    }

    /// Reads the run of characters of `class` at the current position.
    fn read_run(&mut self, class: CharClass) -> (run: String)
        ensures
            final(self).input() == old(self).input(),
            final(self).finished() == old(self).finished(),
            final(self).position() == run_end(old(self).input(), old(self).position(), class),
            old(self).position() <= final(self).position() <= old(self).input().len(),
            run@ == old(self).input().subrange(old(self).position(), final(self).position()),
    {
        let start = self.pos;
        self.skip_run(class);
        self.text_between(start, self.pos)
    }

    fn eat_whitespace(&mut self)
        ensures
            final(self).input() == old(self).input(),
            final(self).finished() == old(self).finished(),
            final(self).position() == run_end(
                old(self).input(),
                old(self).position(),
                CharClass::Blank,
            ),
            old(self).position() <= final(self).position() <= old(self).input().len(),
    {
        self.skip_run(CharClass::Blank);
    }

    fn read_word(&mut self) -> (token: Token)
        ensures
            final(self).input() == old(self).input(),
            final(self).finished() == old(self).finished(),
            final(self).position() == run_end(
                old(self).input(),
                old(self).position(),
                CharClass::WordPart,
            ),
            old(self).position() <= final(self).position() <= old(self).input().len(),
            token@ == TokenView::Word(
                old(self).input().subrange(old(self).position(), final(self).position()),
            ),
    {
        Token::Word(self.read_run(CharClass::WordPart))
    }

    fn read_number(&mut self) -> (token: Result<Token, LexError>)
        ensures
            final(self).input() == old(self).input(),
            final(self).finished() == old(self).finished(),
            final(self).position() == run_end(
                old(self).input(),
                old(self).position(),
                CharClass::Numeric,
            ),
            old(self).position() <= final(self).position() <= old(self).input().len(),
            ({
                let digits = old(self).input().subrange(
                    old(self).position(),
                    final(self).position(),
                );
                match integer_of(digits) {
                    Some(value) => token matches Ok(t) && t@ == TokenView::Integer(value),
                    None => token matches Err(e) && e@ == LexErrorView::InvalidInteger(digits),
                }
            }),
    {
        let start = self.pos;
        self.skip_run(CharClass::Numeric);
        match self.integer_between(start, self.pos) {
            Some(value) => Ok(Token::Integer(value)),
            None => Err(LexError::InvalidInteger(self.text_between(start, self.pos))),
        }
    }

    fn read_string(&mut self) -> (token: Token)
        requires
            old(self).position() < old(self).input().len(),
        ensures
            final(self).input() == old(self).input(),
            final(self).finished() == old(self).finished(),
            ({
                let end = run_end(
                    old(self).input(),
                    old(self).position() + 1,
                    CharClass::Quoted,
                );
                &&& token@ == TokenView::String(
                    old(self).input().subrange(old(self).position() + 1, end),
                )
                &&& final(self).position() == if end < old(self).input().len() {
                    end + 1
                } else {
                    end
                }
            }),
    {
        proof {
            use_type_invariant(&*self);
        }
        self.pos += 1;
        let text = self.read_run(CharClass::Quoted);
        proof {
            use_type_invariant(&*self);
        }
        if self.pos < self.chars.len() {
            self.pos += 1;
        }
        Token::String(text)
    }

    /// Reads the token at the current position. On an error the tokenizer
    /// is where it was before the call.
    fn read_token(&mut self) -> (token: Option<Result<Token, LexError>>)
        ensures
            final(self).input() == old(self).input(),
            final(self).finished() == old(self).finished(),
            match read_token(old(self).input(), old(self).position()) {
                Lexeme::Token(t, next) => {
                    &&& token matches Some(Ok(found))
                    &&& found@ == t
                    &&& final(self).position() == next
                    &&& old(self).position() < next
                },
                Lexeme::Invalid(e) => {
                    &&& token matches Some(Err(error))
                    &&& error@ == e
                    &&& final(self).position() == old(self).position()
                },
                Lexeme::End => {
                    &&& token is None
                    &&& final(self).position() == old(self).input().len()
                },
            },
    {
        let before = self.pos;
        proof {
            use_type_invariant(&*self);
            lemma_read_token_advances(self.chars@, self.pos as int);
        }
        self.eat_whitespace();
        let peeked_char = match self.peek_char() {
            Some(c) => c,
            None => {
                return None;
            },
        };
        if char_is_alphabetic(peeked_char) {
            Some(Ok(self.read_word()))
        } else if char_is_numeric(peeked_char) {
            match self.read_number() {
                Ok(token) => Some(Ok(token)),
                Err(error) => {
                    self.pos = before;
                    Some(Err(error))
                },
            }
        } else if peeked_char == '\n' {
            self.pos += 1;
            Some(Ok(Token::EndOfLine))
        } else if peeked_char == '"' || peeked_char == '\'' {
            Some(Ok(self.read_string()))
        } else {
            let double = if self.pos + 1 < self.chars.len() {
                double_symbol_text(peeked_char, self.chars[self.pos + 1])
            } else {
                None
            };
            match double {
                Some(text) => {
                    self.pos += 2;
                    Some(Ok(Token::Symbol(text)))
                },
                None => match single_symbol_text(peeked_char) {
                    Some(text) => {
                        self.pos += 1;
                        Some(Ok(Token::Symbol(text)))
                    },
                    None => {
                        self.pos = before;
                        Some(Err(LexError::UnexpectedCharacter(peeked_char)))
                    },
                },
            }
        }
    }

    /// Hands out the next token: what `read_token` finds at the current
    /// position, then one closing `EndOfLine`, then nothing.
    pub fn next(&mut self) -> (token: Option<Result<Token, LexError>>)
        ensures
            final(self).input() == old(self).input(),
            0 <= old(self).position() <= old(self).input().len(),
            match read_token(old(self).input(), old(self).position()) {
                Lexeme::Token(t, next) => {
                    &&& token matches Some(Ok(found))
                    &&& found@ == t
                    &&& final(self).position() == next
                    &&& old(self).position() < next <= old(self).input().len()
                    &&& !final(self).finished()
                    &&& !old(self).finished()
                },
                Lexeme::Invalid(e) => {
                    &&& token matches Some(Err(error))
                    &&& error@ == e
                    &&& final(self).position() == old(self).position()
                    &&& !final(self).finished()
                    &&& !old(self).finished()
                },
                Lexeme::End => {
                    &&& final(self).position() == old(self).input().len()
                    &&& final(self).finished()
                    &&& if old(self).finished() {
                        token is None
                    } else {
                        token matches Some(Ok(found)) && found@ == TokenView::EndOfLine
                    }
                },
            },
    {
        proof {
            use_type_invariant(&*self);
            lemma_read_token_advances(self.chars@, self.pos as int);
        }
        match self.read_token() {
            Some(token) => Some(token),
            None => {
                if self.sent_last_new_line {
                    None
                } else {
                    self.sent_last_new_line = true;
                    Some(Ok(Token::EndOfLine))
                }
            },
        }
    }

    /// Reads on to the end of the input or to the first thing that is no
    /// token, and returns the tokens read and what stopped the reading.
    pub fn run(self) -> (lexed: (Vec<Token>, Option<LexError>))
        ensures
            views(lexed.0@) == self.remaining().tokens,
            lexed.1 matches Some(e) ==> self.remaining().fault == Some(e@),
            lexed.1 is None ==> self.remaining().fault is None,
    {
        let ghost input = self.chars@;
        let ghost start = self.pos as int;
        let mut tokenizer = self;
        let mut tokens: Vec<Token> = Vec::new();
        proof {
            use_type_invariant(&tokenizer);
            assert(views(tokens@) =~= Seq::<TokenView>::empty());
        }
        if tokenizer.sent_last_new_line {
            return (tokens, None);
        }
        loop
            invariant
                input == self.chars@,
                start == self.pos,
                !self.sent_last_new_line,
                tokenizer.chars@ == input,
                !tokenizer.sent_last_new_line,
                0 <= tokenizer.pos <= input.len(),
                lex_from(input, start).tokens == views(tokens@) + lex_from(
                    input,
                    tokenizer.pos as int,
                ).tokens,
                lex_from(input, start).fault == lex_from(input, tokenizer.pos as int).fault,
            decreases input.len() - tokenizer.pos,
        {
            let ghost before = tokens@;
            let ghost here = tokenizer.pos as int;
            let ghost rest = lex_from(input, here);
            match tokenizer.next() {
                None => {
                    return (tokens, None);
                },
                Some(Err(error)) => {
                    assert(rest.tokens =~= Seq::<TokenView>::empty());
                    assert(views(tokens@) + Seq::<TokenView>::empty() =~= views(tokens@));
                    return (tokens, Some(error));
                },
                Some(Ok(token)) => {
                    tokens.push(token);
                    assert(views(tokens@) =~= views(before).push(token@));
                    if tokenizer.sent_last_new_line {
                        assert(rest.tokens =~= seq![token@]);
                        return (tokens, None);
                    }
                    assert(rest.tokens =~= seq![token@] + lex_from(
                        input,
                        tokenizer.pos as int,
                    ).tokens);
                    assert(views(before).push(token@) + lex_from(
                        input,
                        tokenizer.pos as int,
                    ).tokens =~= views(before) + (seq![token@] + lex_from(
                        input,
                        tokenizer.pos as int,
                    ).tokens));
                },
            }
        }
    }
}

/// The tokens of `chars`, or the first thing in it that is no token.
pub fn tokenize(chars: Vec<char>) -> (tokens: Result<Vec<Token>, LexError>)
    ensures
        match lex(chars@).fault {
            None => tokens matches Ok(found) && views(found@) == lex(chars@).tokens,
            Some(error) => tokens matches Err(e) && e@ == error,
        },
{
    let (tokens, fault) = Tokenizer::new(chars).run();
    match fault {
        None => Ok(tokens),
        Some(error) => Err(error),
    }
}

} // verus!
