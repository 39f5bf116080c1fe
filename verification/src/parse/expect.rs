//! What the parser asks of the token in front of it.
//!
//! Each function takes the token that was read, `None` at the end of the
//! input, and either hands back what the grammar needs of it or says what
//! was found and what would have been accepted.
use vstd::prelude::*;
use crate::parse::token::{Token, TokenView, views};
use crate::parse::errors::{Error, ErrorView};

verus! {

/// The error for `got` where one of `expected` should stand. The end of
/// the input is reported as `EndOfFile`.
pub open spec fn unexpected(got: Option<TokenView>, expected: Seq<TokenView>) -> ErrorView {
    ErrorView::UnexpectedToken {
        got: match got {
            Some(token) => token,
            None => TokenView::EndOfFile,
        },
        expected,
    }
}

pub open spec fn spec_something(token: Option<TokenView>) -> Result<TokenView, ErrorView> {
    match token {
        Some(token) => Ok(token),
        None => Err(unexpected(None, seq![])),
    }
}

pub open spec fn spec_specific(token: Option<TokenView>, expected: TokenView) -> Result<
    TokenView,
    ErrorView,
> {
    if token == Some(expected) {
        Ok(expected)
    } else {
        Err(unexpected(token, seq![expected]))
    }
}

pub open spec fn spec_word(token: Option<TokenView>) -> Result<Seq<char>, ErrorView> {
    match token {
        Some(TokenView::Word(word)) => Ok(word),
        _ => Err(unexpected(token, seq![TokenView::word("word")])),
    }
}

pub open spec fn spec_one_of(token: Option<TokenView>, whitelist: Seq<TokenView>) -> Result<
    TokenView,
    ErrorView,
> {
    match token {
        Some(found) if whitelist.contains(found) => Ok(found),
        _ => Err(unexpected(token, whitelist)),
    }
}

/// The end of the input ends an item as a new line or a semicolon does.
pub open spec fn spec_terminator(token: Option<TokenView>) -> Result<(), ErrorView> {
    match token {
        None => Ok(()),
        Some(found) => if found.is_terminator() {
            Ok(())
        } else {
            Err(unexpected(token, seq![TokenView::word("terminator")]))
        },
    }
}

/// The view of an optional token.
pub open spec fn option_view(token: Option<Token>) -> Option<TokenView> {
    match token {
        Some(token) => Some(token@),
        None => None,
    }
}

fn unexpected_token(token: Option<Token>, expected: Vec<Token>) -> (error: Error)
    ensures
        error@ == unexpected(option_view(token), views(expected@)),
{
    match token {
        Some(got) => Error::UnexpectedToken { got, expected },
        None => Error::UnexpectedToken { got: Token::EndOfFile, expected },
    }
}

/// Any token at all.
pub fn something(token: Option<Token>) -> (found: Result<Token, Error>)
    ensures
        match spec_something(option_view(token)) {
            Ok(t) => found matches Ok(f) && f@ == t,
            Err(e) => found matches Err(f) && f@ == e,
        },
{
    match token {
        Some(token) => Ok(token),
        None => {
            let expected: Vec<Token> = Vec::new();
            assert(views(expected@) =~= Seq::<TokenView>::empty());
            Err(unexpected_token(None, expected))
        },
    }
}

/// The token `expected` and no other.
pub fn specific(token: Option<Token>, expected: Token) -> (found: Result<Token, Error>)
    ensures
        match spec_specific(option_view(token), expected@) {
            Ok(t) => found matches Ok(f) && f@ == t,
            Err(e) => found matches Err(f) && f@ == e,
        },
{
    let matches = match &token {
        Some(found) => found.same_as(&expected),
        None => false,
    };
    if matches {
        Ok(expected)
    } else {
        let mut list: Vec<Token> = Vec::new();
        list.push(expected);
        assert(views(list@) =~= seq![expected@]);
        Err(unexpected_token(token, list))
    }
}

/// A word, of which the text is returned.
pub fn word(token: Option<Token>) -> (found: Result<String, Error>)
    ensures
        match spec_word(option_view(token)) {
            Ok(w) => found matches Ok(f) && f@ == w,
            Err(e) => found matches Err(f) && f@ == e,
        },
{
    match token {
        Some(Token::Word(word)) => Ok(word),
        other => {
            let mut list: Vec<Token> = Vec::new();
            list.push(Token::Word("word".to_owned()));
            assert(views(list@) =~= seq![TokenView::word("word")]);
            Err(unexpected_token(other, list))
        },
    }
}

/// One of the tokens of `whitelist`.
pub fn one_of(token: Option<Token>, whitelist: &[Token]) -> (found: Result<Token, Error>)
    ensures
        match spec_one_of(option_view(token), views(whitelist@)) {
            Ok(t) => found matches Ok(f) && f@ == t,
            Err(e) => found matches Err(f) && f@ == e,
        },
{
    let mut allowed = false;
    let mut list: Vec<Token> = Vec::new();
    let mut i: usize = 0;
    while i < whitelist.len()
        invariant
            i <= whitelist.len(),
            views(list@) == views(whitelist@).take(i as int),
            allowed == (token matches Some(t) && views(whitelist@).take(i as int).contains(t@)),
        decreases whitelist.len() - i,
    {
        let ghost before = views(whitelist@).take(i as int);
        if let Some(found) = &token {
            if whitelist[i].same_as(found) {
                allowed = true;
            }
        }
        list.push(whitelist[i].clone());
        i += 1;
        proof {
            let now = views(whitelist@).take(i as int);
            assert(now =~= before.push(whitelist@[i - 1]@));
            assert(views(list@) =~= now);
            assert(forall|t: TokenView|
                now.contains(t) <==> (before.contains(t) || t == whitelist@[i - 1]@)) by {
                assert forall|t: TokenView| now.contains(t) implies (before.contains(t) || t
                    == whitelist@[i - 1]@) by {
                    let k = choose|k: int| 0 <= k < now.len() && now[k] == t;
                    if k < i - 1 {
                        assert(before[k] == t);
                    }
                }
                assert forall|t: TokenView| (before.contains(t) || t == whitelist@[i - 1]@)
                    implies now.contains(t) by {
                    if before.contains(t) {
                        let k = choose|k: int| 0 <= k < before.len() && before[k] == t;
                        assert(now[k] == t);
                    } else {
                        assert(now[i - 1] == t);
                    }
                }
            }
        }
    }
    assert(views(whitelist@).take(whitelist.len() as int) =~= views(whitelist@));
    if allowed {
        match token {
            Some(found) => Ok(found),
            None => Err(unexpected_token(None, list)),
        }
    } else {
        Err(unexpected_token(token, list))
    }
}

/// A terminating new line or semicolon, or the end of the input.
pub fn terminator(token: Option<Token>) -> (found: Result<(), Error>)
    ensures
        match spec_terminator(option_view(token)) {
            Ok(_) => found is Ok,
            Err(e) => found matches Err(f) && f@ == e,
        },
{
    let ends = match &token {
        None => true,
        Some(found) => found.is_terminator(),
    };
    if ends {
        Ok(())
    } else {
        let mut list: Vec<Token> = Vec::new();
        list.push(Token::Word("terminator".to_owned()));
        assert(views(list@) =~= seq![TokenView::word("terminator")]);
        Err(unexpected_token(token, list))
    }
}

} // verus!
