//! From tokens back to text.
//!
//! A word, a symbol, a string in double quotes and a number in decimal
//! digits are each followed by a space; a new line is a new line.
use vstd::prelude::*;
use vstd::std_specs::iter::IteratorSpec;
use crate::ast::Program;
use crate::parse::token::{Token, TokenView, views};
use crate::parse::tokenize::{decimal, is_digit};
use crate::parse::unparse::{items_tokens, unparse};

verus! {

/// The character of a decimal digit.
pub open spec fn digit_char(digit: int) -> char {
    if digit == 0 {
        '0'
    } else if digit == 1 {
        '1'
    } else if digit == 2 {
        '2'
    } else if digit == 3 {
        '3'
    } else if digit == 4 {
        '4'
    } else if digit == 5 {
        '5'
    } else if digit == 6 {
        '6'
    } else if digit == 7 {
        '7'
    } else if digit == 8 {
        '8'
    } else {
        '9'
    }
}

/// The decimal digits of a number that is not negative, without leading
/// zeros.
pub open spec fn digits_of(number: int) -> Seq<char>
    decreases number,
{
    if number < 10 {
        seq![digit_char(number)]
    } else {
        digits_of(number / 10).push(digit_char(number % 10))
    }
}

/// The digits of a number denote the number.
pub proof fn lemma_digits_of(number: int)
    requires
        0 <= number,
    ensures
        digits_of(number).len() > 0,
        forall|i: int| 0 <= i < digits_of(number).len() ==> is_digit(#[trigger] digits_of(number)[i]),
        decimal(digits_of(number)) == number,
    decreases number,
{
    if number < 10 {
        let digits = digits_of(number);
        assert(digits.drop_last() =~= seq![]);
        assert(decimal(digits.drop_last()) == 0);
    } else {
        lemma_digits_of(number / 10);
        let digits = digits_of(number);
        assert(digits.drop_last() =~= digits_of(number / 10));
        assert(digits.last() == digit_char(number % 10));
    }
}

/// The text of a number: its digits, behind a dash if it is negative.
pub open spec fn number_text(number: int) -> Seq<char> {
    if number < 0 {
        seq!['-'] + digits_of(-number)
    } else {
        digits_of(number)
    }
}

/// The text of a token.
pub open spec fn token_text(token: TokenView) -> Seq<char> {
    match token {
        TokenView::Word(word) => word + seq![' '],
        TokenView::Symbol(symbol) => symbol + seq![' '],
        TokenView::String(text) => seq!['"'] + text + seq!['"', ' '],
        TokenView::Integer(number) => number_text(number as int) + seq![' '],
        TokenView::EndOfLine => seq!['\n'],
        TokenView::EndOfFile => seq![],
    }
}

/// The text of a sequence of tokens.
pub open spec fn tokens_text(tokens: Seq<TokenView>) -> Seq<char>
    decreases tokens.len(),
{
    if tokens.len() == 0 {
        seq![]
    } else {
        token_text(tokens[0]) + tokens_text(tokens.drop_first())
    }
}

/// The canonical source text of a program.
pub open spec fn source_of(items: Seq<crate::ast::ItemView>) -> Seq<char> {
    tokens_text(items_tokens(items))
}

/// Adds the digits of a number to the end of a text.
fn digits_into(number: u64, text: &mut Vec<char>)
    ensures
        final(text)@ == old(text)@ + digits_of(number as int),
    decreases number,
{
    if number >= 10 {
        digits_into(number / 10, text);
    }
    let digit = number % 10;
    let c = if digit == 0 {
        '0'
    } else if digit == 1 {
        '1'
    } else if digit == 2 {
        '2'
    } else if digit == 3 {
        '3'
    } else if digit == 4 {
        '4'
    } else if digit == 5 {
        '5'
    } else if digit == 6 {
        '6'
    } else if digit == 7 {
        '7'
    } else if digit == 8 {
        '8'
    } else {
        '9'
    };
    text.push(c);
    assert(text@ =~= old(text)@ + digits_of(number as int));
}

/// Adds the characters of a string to the end of a text.
fn chars_into(s: &str, text: &mut Vec<char>)
    ensures
        final(text)@ == old(text)@ + s@,
{
    broadcast use vstd::string::group_string_axioms;

    let mut chars = s.chars();
    assert(old(text)@ + Seq::<char>::empty() =~= old(text)@);
    assert(s@.skip(0) =~= s@);
    let ghost mut done: int = 0;
    loop
        invariant
            0 <= done <= s@.len(),
            chars.obeys_prophetic_iter_laws(),
            chars.remaining() == s@.skip(done),
            text@ == old(text)@ + s@.take(done),
        decreases s@.len() - done,
    {
        let ghost before = chars.remaining();
        match chars.next() {
            Some(c) => {
                text.push(c);
                proof {
                    assert(before[0] == s@[done]);
                    assert(before.drop_first() =~= s@.skip(done + 1));
                    assert(text@ =~= old(text)@ + s@.take(done + 1));
                    done = done + 1;
                }
            },
            None => {
                assert(s@.take(done) =~= s@);
                return;
            },
        }
    }
}

/// Adds the text of a token to the end of a text.
fn token_into(token: &Token, text: &mut Vec<char>)
    ensures
        final(text)@ == old(text)@ + token_text(token@),
{
    match token {
        Token::Word(word) => {
            chars_into(word.as_str(), text);
            text.push(' ');
        },
        Token::Symbol(symbol) => {
            chars_into(symbol, text);
            text.push(' ');
        },
        Token::String(string) => {
            text.push('"');
            chars_into(string.as_str(), text);
            text.push('"');
            text.push(' ');
        },
        Token::Integer(number) => {
            if *number < 0 {
                text.push('-');
                digits_into((-(*number + 1)) as u64 + 1, text);
            } else {
                digits_into(*number as u64, text);
            }
            text.push(' ');
        },
        Token::EndOfLine => {
            text.push('\n');
        },
        Token::EndOfFile => {},
    }
    assert(text@ =~= old(text)@ + token_text(token@));
}

/// The text of a list of tokens.
pub fn render(tokens: &Vec<Token>) -> (text: Vec<char>)
    ensures
        text@ == tokens_text(views(tokens@)),
{
    let ghost all = views(tokens@);
    let mut text: Vec<char> = Vec::new();
    let mut i: usize = 0;
    assert(all.skip(0) =~= all);
    while i < tokens.len()
        invariant
            i <= tokens.len(),
            all == views(tokens@),
            text@ + tokens_text(all.skip(i as int)) == tokens_text(all),
        decreases tokens.len() - i,
    {
        let ghost before = text@;
        let ghost rest = tokens_text(all.skip(i + 1));
        proof {
            assert(all.skip(i as int)[0] == all[i as int]);
            assert(all.skip(i as int).drop_first() =~= all.skip(i + 1));
        }
        token_into(&tokens[i], &mut text);
        proof {
            assert((before + token_text(all[i as int])) + rest =~= before + (token_text(
                all[i as int],
            ) + rest));
        }
        i += 1;
    }
    assert(tokens_text(all.skip(tokens.len() as int)) =~= seq![]);
    assert(text@ + Seq::<char>::empty() =~= text@);
    text
}

/// The canonical source text of a program.
pub fn to_source(program: &Program) -> (text: Vec<char>)
    ensures
        text@ == source_of(program@),
{
    let tokens = unparse(program);
    render(&tokens)
}

} // verus!
