use rubic::parse::tokenize::tokenize as lex;
use rubic::parse::{LexError, Token, Tokenizer};

fn tokenize(s: &str) -> Vec<Token> {
    lex(s.chars().collect()).expect("failed to tokenize")
}

#[test]
fn can_read_simple_word() {
    assert_eq!(tokenize("abcdef"), vec![Token::Word("abcdef".to_owned()),
                                        Token::EndOfLine]);
}

#[test]
fn can_handle_whitespace_at_start_of_word() {
    assert_eq!(tokenize("     abcdef"), vec![Token::Word("abcdef".to_owned()),
                                             Token::EndOfLine]);
}

#[test]
fn can_read_multiple_words() {
    assert_eq!(tokenize("\tabcdef hg"), vec![Token::Word("abcdef".to_owned()),
                                             Token::Word("hg".to_owned()),
                                             Token::EndOfLine]);
}

#[test]
fn considers_dashes_a_part_of_words() {
    assert_eq!(tokenize("\tabcdef-hg"), vec![Token::Word("abcdef-hg".to_owned()), Token::EndOfLine]);
}

#[test]
fn can_read_single_dot() {
    assert_eq!(tokenize("."), vec![Token::Symbol("."), Token::EndOfLine]);
}

#[test]
fn can_read_multiple_dots() {
    assert_eq!(tokenize("..."), vec![Token::Symbol("."),
                                     Token::Symbol("."),
                                     Token::Symbol("."),
                                     Token::EndOfLine]);
}

#[test]
fn can_read_new_line() {
    assert_eq!(tokenize(" \nb"), vec![Token::EndOfLine, Token::Word("b".to_owned()), Token::EndOfLine]);
}

#[test]
fn can_read_string() {
    assert_eq!(tokenize("\"hello\""), vec![Token::String("hello".to_owned()),
                                           Token::EndOfLine]);
}

#[test]
fn can_read_double_colon() {
    assert_eq!(tokenize("Abc::Def"), vec![Token::Word("Abc".to_owned()),
                                          Token::Symbol("::"),
                                          Token::Word("Def".to_owned()),
                                          Token::EndOfLine]);
}

#[test]
fn can_read_positive_integer() {
    assert_eq!(tokenize("123 45"), vec![Token::Integer(123),
                                        Token::Integer(45),
                                        Token::EndOfLine]);
}

#[test]
fn empty_input_is_one_end_of_line() {
    assert_eq!(tokenize(""), vec![Token::EndOfLine]);
}

#[test]
fn blank_input_is_one_end_of_line() {
    assert_eq!(tokenize("  \t \r "), vec![Token::EndOfLine]);
}

#[test]
fn tokenizer_ends_after_the_closing_end_of_line() {
    let mut tokenizer = Tokenizer::new("a".chars().collect());
    assert_eq!(tokenizer.next(), Some(Ok(Token::Word("a".to_owned()))));
    assert_eq!(tokenizer.next(), Some(Ok(Token::EndOfLine)));
    assert_eq!(tokenizer.next(), None);
    assert_eq!(tokenizer.next(), None);
}

#[test]
fn prefers_the_longer_operator() {
    assert_eq!(tokenize("a => b"), vec![Token::Word("a".to_owned()),
                                        Token::Symbol("=>"),
                                        Token::Word("b".to_owned()),
                                        Token::EndOfLine]);
    assert_eq!(tokenize("&&&"), vec![Token::Symbol("&&"), Token::Symbol("&"), Token::EndOfLine]);
    assert_eq!(tokenize(":::"), vec![Token::Symbol("::"), Token::Symbol(":"), Token::EndOfLine]);
    assert_eq!(tokenize("|| |"), vec![Token::Symbol("||"), Token::Symbol("|"), Token::EndOfLine]);
}

#[test]
fn falls_back_to_the_single_operator() {
    assert_eq!(tokenize("=x"), vec![Token::Symbol("="), Token::Word("x".to_owned()), Token::EndOfLine]);
    assert_eq!(tokenize(":x"), vec![Token::Symbol(":"), Token::Word("x".to_owned()), Token::EndOfLine]);
    assert_eq!(tokenize("&"), vec![Token::Symbol("&"), Token::EndOfLine]);
    assert_eq!(tokenize("a,b"), vec![Token::Word("a".to_owned()),
                                     Token::Symbol(","),
                                     Token::Word("b".to_owned()),
                                     Token::EndOfLine]);
}

#[test]
fn reads_every_single_operator() {
    let expected: Vec<Token> = ["{", "}", "(", ")", "[", "]", "<", ">", "-", ".", ";", "@"]
        .iter()
        .map(|s| Token::Symbol(s))
        .chain(std::iter::once(Token::EndOfLine))
        .collect();
    assert_eq!(tokenize("{}()[]<>-.;@"), expected);
}

#[test]
fn a_leading_dash_is_a_symbol() {
    assert_eq!(tokenize("-ab-c"), vec![Token::Symbol("-"),
                                       Token::Word("ab-c".to_owned()),
                                       Token::EndOfLine]);
}

#[test]
fn either_quote_closes_a_string() {
    assert_eq!(tokenize("'it\"s"), vec![Token::String("it".to_owned()),
                                        Token::Word("s".to_owned()),
                                        Token::EndOfLine]);
}

#[test]
fn an_open_string_runs_to_the_end() {
    assert_eq!(tokenize("\"ab c\n"), vec![Token::String("ab c\n".to_owned()), Token::EndOfLine]);
    assert_eq!(tokenize("\""), vec![Token::String(String::new()), Token::EndOfLine]);
}

#[test]
fn reads_the_largest_integer() {
    assert_eq!(tokenize("9223372036854775807"), vec![Token::Integer(i64::MAX), Token::EndOfLine]);
    assert_eq!(tokenize("007"), vec![Token::Integer(7), Token::EndOfLine]);
    assert_eq!(tokenize("0"), vec![Token::Integer(0), Token::EndOfLine]);
}

#[test]
fn rejects_an_integer_out_of_range() {
    assert_eq!(lex("1 9223372036854775808".chars().collect()),
               Err(LexError::InvalidInteger("9223372036854775808".to_owned())));
    assert_eq!(lex("99999999999999999999999".chars().collect()),
               Err(LexError::InvalidInteger("99999999999999999999999".to_owned())));
}

#[test]
fn rejects_numerals_that_are_no_decimal_digits() {
    assert_eq!(lex("1\u{0663}".chars().collect()),
               Err(LexError::InvalidInteger("1\u{0663}".to_owned())));
}

#[test]
fn rejects_an_unknown_character() {
    assert_eq!(lex("abc # def".chars().collect()), Err(LexError::UnexpectedCharacter('#')));
    assert_eq!(lex("!".chars().collect()), Err(LexError::UnexpectedCharacter('!')));
}

#[test]
fn an_error_leaves_the_tokenizer_in_place() {
    let mut tokenizer = Tokenizer::new("a ?".chars().collect());
    assert_eq!(tokenizer.next(), Some(Ok(Token::Word("a".to_owned()))));
    assert_eq!(tokenizer.next(), Some(Err(LexError::UnexpectedCharacter('?'))));
    assert_eq!(tokenizer.next(), Some(Err(LexError::UnexpectedCharacter('?'))));
}

#[test]
fn run_returns_the_tokens_before_the_fault() {
    let (tokens, fault) = Tokenizer::new("a . %".chars().collect()).run();
    assert_eq!(tokens, vec![Token::Word("a".to_owned()), Token::Symbol(".")]);
    assert_eq!(fault, Some(LexError::UnexpectedCharacter('%')));
}

#[test]
fn unicode_letters_make_words() {
    assert_eq!(tokenize("caf\u{e9} \u{4e16}\u{754c}"), vec![Token::Word("caf\u{e9}".to_owned()),
                                                              Token::Word("\u{4e16}\u{754c}".to_owned()),
                                                              Token::EndOfLine]);
}
