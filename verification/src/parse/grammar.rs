//! The grammar, as functions from a position in the tokens to what is
//! parsed there and the position behind it.
//!
//! Reading never goes back: what is parsed at a position depends on the
//! tokens from that position on, and on nothing else.
use vstd::prelude::*;
use crate::ast::{ExprView, ItemView, PathSegmentKindView, PathSegmentView, PathSeparator};
use crate::parse::errors::ErrorView;
use crate::parse::expect::{spec_one_of, spec_something, spec_specific, spec_terminator, spec_word,
                           unexpected};
use crate::parse::token::TokenView;
use crate::parse::tokenize::Lexed;

verus! {

/// The token at `at`. Behind the last token there is nothing, unless the
/// input broke off there: then every look at that place is an error.
pub open spec fn peek(input: Lexed, at: int) -> Result<Option<TokenView>, ErrorView> {
    if 0 <= at < input.tokens.len() {
        Ok(Some(input.tokens[at]))
    } else {
        match input.fault {
            Some(error) => Err(ErrorView::Lexical(error)),
            None => Ok(None),
        }
    }
}

/// The position behind the token at `at`, which stays where it is at the
/// end of the input.
pub open spec fn behind(token: Option<TokenView>, at: int) -> int {
    if token is Some {
        at + 1
    } else {
        at
    }
}

/// The first position from `at` on that holds no `EndOfLine`.
pub open spec fn skip_lines(input: Lexed, at: int) -> int
    decreases input.tokens.len() - at,
{
    if 0 <= at < input.tokens.len() && input.tokens[at] == TokenView::EndOfLine {
        skip_lines(input, at + 1)
    } else {
        at
    }
}

pub proof fn lemma_skip_lines(input: Lexed, at: int)
    requires
        0 <= at <= input.tokens.len(),
    ensures
        at <= skip_lines(input, at) <= input.tokens.len(),
        skip_lines(input, at) < input.tokens.len() ==> input.tokens[skip_lines(input, at)]
            != TokenView::EndOfLine,
        skip_lines(input, skip_lines(input, at)) == skip_lines(input, at),
    decreases input.tokens.len() - at,
{
    if at < input.tokens.len() && input.tokens[at] == TokenView::EndOfLine {
        lemma_skip_lines(input, at + 1);
    }
}

/// A path: words separated by `::` or `.`. Each word becomes a segment that
/// carries the separator in front of it, the first one `Root`.
pub open spec fn parse_path(input: Lexed, at: int) -> Result<(Seq<PathSegmentView>, int), ErrorView> {
    path_from(input, at, PathSeparator::Root, seq![])
}

/// The rest of a path of which `parts` have been read, the next segment
/// standing behind `separator`.
pub open spec fn path_from(
    input: Lexed,
    at: int,
    separator: PathSeparator,
    parts: Seq<PathSegmentView>,
) -> Result<(Seq<PathSegmentView>, int), ErrorView>
    decreases input.tokens.len() - at,
{
    match peek(input, at) {
        Err(error) => Err(error),
        Ok(token) => match spec_word(token) {
            Err(error) => Err(error),
            Ok(word) => {
                let parts = parts.push(
                    PathSegmentView { kind: PathSegmentKindView::of(word), separator },
                );
                match peek(input, at + 1) {
                    Err(error) => Err(error),
                    Ok(next) => if next == Some(TokenView::symbol("::")) {
                        path_from(input, at + 2, PathSeparator::DoubleColon, parts)
                    } else if next == Some(TokenView::symbol(".")) {
                        path_from(input, at + 2, PathSeparator::Dot, parts)
                    } else {
                        Ok((parts, at + 1))
                    },
                }
            },
        },
    }
}

pub proof fn lemma_path_advances(
    input: Lexed,
    at: int,
    separator: PathSeparator,
    parts: Seq<PathSegmentView>,
)
    requires
        0 <= at,
    ensures
        path_from(input, at, separator, parts) matches Ok((_, after)) ==> at < after
            <= input.tokens.len(),
    decreases input.tokens.len() - at,
{
    match peek(input, at) {
        Err(_) => {},
        Ok(token) => match spec_word(token) {
            Err(_) => {},
            Ok(word) => {
                let parts = parts.push(
                    PathSegmentView { kind: PathSegmentKindView::of(word), separator },
                );
                match peek(input, at + 1) {
                    Err(_) => {},
                    Ok(next) => if next == Some(TokenView::symbol("::")) {
                        lemma_path_advances(input, at + 2, PathSeparator::DoubleColon, parts);
                    } else if next == Some(TokenView::symbol(".")) {
                        lemma_path_advances(input, at + 2, PathSeparator::Dot, parts);
                    },
                }
            },
        },
    }
}

/// Whether a parse that began at `from` and ended at `to` took at least one
/// token and none that is not there.
pub open spec fn moved(input: Lexed, from: int, to: int) -> bool {
    0 <= from < to <= input.tokens.len()
}

/// The error of a parse that did not move. No parse ends so: each takes at
/// least one token, as the lemmas in `canonical` show. The tests on
/// positions in the definitions below show that the definitions are well
/// founded, and this is what stands in the branch that is never taken.
pub open spec fn stalled() -> ErrorView {
    unexpected(None, seq![])
}

/// An expression.
///
/// A word starts a path, which is assigned to if `=` follows and is called
/// otherwise; a string or an integer stands for itself; `(` opens a
/// parenthesized expression; `:` starts a symbol, which is the key of a
/// pair if `=>` follows.
pub open spec fn parse_expression(input: Lexed, at: int) -> Result<(ExprView, int), ErrorView>
    decreases input.tokens.len() - at, 1int,
{
    let start = skip_lines(input, at);
    if at < 0 || start < at {
        Err(stalled())
    } else {
        match peek(input, start) {
            Err(error) => Err(error),
            Ok(token) => match spec_something(token) {
                Err(error) => Err(error),
                Ok(TokenView::Word(_)) => match parse_path(input, start) {
                    Err(error) => Err(error),
                    Ok((path, after)) => match peek(input, after) {
                        Err(error) => Err(error),
                        Ok(next) => if !moved(input, start, after) {
                            Err(stalled())
                        } else if next == Some(TokenView::symbol("=")) {
                            match parse_expression(input, after + 1) {
                                Err(error) => Err(error),
                                Ok((value, end)) => Ok(
                                    (
                                        ExprView::Assignment {
                                            assignee: path,
                                            value: Box::new(value),
                                        },
                                        end,
                                    ),
                                ),
                            }
                        } else {
                            match parse_arguments(input, after) {
                                Err(error) => Err(error),
                                Ok((arguments, end)) => Ok(
                                    (ExprView::Call { callee: path, arguments }, end),
                                ),
                            }
                        },
                    },
                },
                Ok(TokenView::String(value)) => Ok((ExprView::StringLiteral { text: value }, start + 1)),
                Ok(TokenView::Integer(value)) => Ok(
                    (ExprView::IntegerLiteral { number: value }, start + 1),
                ),
                Ok(found) => if found == TokenView::symbol("(") {
                    match parse_expression(input, start + 1) {
                        Err(error) => Err(error),
                        Ok((inner, after)) => match peek(input, after) {
                            Err(error) => Err(error),
                            Ok(close) => match spec_specific(close, TokenView::symbol(")")) {
                                Err(error) => Err(error),
                                Ok(_) => Ok(
                                    (ExprView::Paren { inner: Box::new(inner) }, after + 1),
                                ),
                            },
                        },
                    }
                } else if found == TokenView::symbol(":") {
                    match peek(input, start + 1) {
                        Err(error) => Err(error),
                        Ok(token) => match spec_word(token) {
                            Err(error) => Err(error),
                            Ok(name) => match peek(input, start + 2) {
                                Err(error) => Err(error),
                                Ok(next) => if next == Some(TokenView::symbol("=>")) {
                                    match parse_expression(input, start + 3) {
                                        Err(error) => Err(error),
                                        Ok((value, end)) => Ok(
                                            (
                                                ExprView::KeyValue {
                                                    key: name,
                                                    value: Box::new(value),
                                                },
                                                end,
                                            ),
                                        ),
                                    }
                                } else {
                                    Ok((ExprView::Symbol { name }, start + 2))
                                },
                            },
                        },
                    }
                } else {
                    Err(unexpected(Some(found), seq![TokenView::word("expression")]))
                },
            },
        }
    }
}

/// The arguments of a call: a list in parentheses if `(` follows the
/// callee, none if the item ends there, else a list without parentheses.
pub open spec fn parse_arguments(input: Lexed, at: int) -> Result<(Seq<ExprView>, int), ErrorView>
    decreases input.tokens.len() - at, 3int,
{
    match peek(input, at) {
        Err(error) => Err(error),
        Ok(token) => if token == Some(TokenView::symbol("(")) {
            arguments_in_parens(input, at + 1, seq![])
        } else if token is None || token->0.is_terminator() {
            Ok((seq![], at))
        } else {
            arguments_bare(input, at, seq![])
        },
    }
}

/// The rest of a list of arguments in parentheses, up to and with the `)`.
/// Each argument is followed by `,` or by the `)`; new lines between
/// arguments do not count.
pub open spec fn arguments_in_parens(input: Lexed, at: int, found: Seq<ExprView>) -> Result<
    (Seq<ExprView>, int),
    ErrorView,
>
    decreases input.tokens.len() - at, 2int,
{
    let start = skip_lines(input, at);
    if at < 0 || start < at {
        Err(stalled())
    } else {
        match peek(input, start) {
            Err(error) => Err(error),
            Ok(token) => if token is None {
                Err(unexpected(None, seq![TokenView::symbol(")")]))
            } else if token == Some(TokenView::symbol(")")) {
                Ok((found, start + 1))
            } else {
                match parse_expression(input, start) {
                    Err(error) => Err(error),
                    Ok((argument, after)) => match peek(input, after) {
                        Err(error) => Err(error),
                        Ok(next) => match spec_one_of(
                            next,
                            seq![TokenView::symbol(","), TokenView::symbol(")")],
                        ) {
                            Err(error) => Err(error),
                            Ok(separator) => if !moved(input, start, after) {
                                Err(stalled())
                            } else {
                                arguments_in_parens(
                                    input,
                                    if separator == TokenView::symbol(",") {
                                        after + 1
                                    } else {
                                        after
                                    },
                                    found.push(argument),
                                )
                            },
                        },
                    },
                }
            },
        }
    }
}

/// The rest of a list of arguments without parentheses: expressions
/// separated by `,`, the last one followed by anything else.
pub open spec fn arguments_bare(input: Lexed, at: int, found: Seq<ExprView>) -> Result<
    (Seq<ExprView>, int),
    ErrorView,
>
    decreases input.tokens.len() - at, 2int,
{
    match parse_expression(input, at) {
        Err(error) => Err(error),
        Ok((argument, after)) => match peek(input, after) {
            Err(error) => Err(error),
            Ok(next) => if !moved(input, at, after) {
                Err(stalled())
            } else if next == Some(TokenView::symbol(",")) {
                arguments_bare(input, after + 1, found.push(argument))
            } else {
                Ok((found.push(argument), after))
            },
        },
    }
}

/// The statements of a function body, up to and with the `end`.
pub open spec fn statements_until_end(input: Lexed, at: int, found: Seq<ExprView>) -> Result<
    (Seq<ExprView>, int),
    ErrorView,
>
    decreases input.tokens.len() - at,
{
    let start = skip_lines(input, at);
    if at < 0 || start < at {
        Err(stalled())
    } else {
        match peek(input, start) {
            Err(error) => Err(error),
            Ok(token) => if token is None {
                Err(unexpected(None, seq![TokenView::word("end")]))
            } else if token == Some(TokenView::word("end")) {
                Ok((found, start + 1))
            } else {
                match parse_expression(input, start) {
                    Err(error) => Err(error),
                    Ok((statement, after)) => if !moved(input, start, after) {
                        Err(stalled())
                    } else {
                        statements_until_end(input, after, found.push(statement))
                    },
                }
            },
        }
    }
}

/// An item and the terminator behind it. The first word decides: `class`,
/// `module` and `def` open a declaration, anything else is a statement.
pub open spec fn parse_item(input: Lexed, at: int) -> Result<(ItemView, int), ErrorView>
    decreases input.tokens.len() - at, 2int,
{
    match peek(input, at) {
        Err(error) => Err(error),
        Ok(token) => match spec_word(token) {
            Err(error) => Err(error),
            Ok(word) => {
                let parsed = if word == "class"@ {
                    parse_class(input, at)
                } else if word == "module"@ {
                    parse_module(input, at)
                } else if word == "def"@ {
                    parse_function(input, at)
                } else {
                    match parse_expression(input, at) {
                        Err(error) => Err(error),
                        Ok((statement, after)) => Ok((ItemView::Stmt(statement), after)),
                    }
                };
                match parsed {
                    Err(error) => Err(error),
                    Ok((item, after)) => match peek(input, after) {
                        Err(error) => Err(error),
                        Ok(next) => match spec_terminator(next) {
                            Err(error) => Err(error),
                            Ok(_) => Ok((item, behind(next, after))),
                        },
                    },
                }
            },
        },
    }
}

/// The superclass of a class whose name ends in front of `at`: the path
/// behind `<`, if there is a `<`.
pub open spec fn parse_superclass(input: Lexed, at: int) -> Result<
    (Option<Seq<PathSegmentView>>, int),
    ErrorView,
> {
    match peek(input, at) {
        Err(error) => Err(error),
        Ok(token) => if token == Some(TokenView::symbol("<")) {
            match parse_path(input, at + 1) {
                Err(error) => Err(error),
                Ok((path, after)) => Ok((Some(path), after)),
            }
        } else {
            Ok((None, at))
        },
    }
}

/// A class, from the word `class` at `at` to its `end`.
pub open spec fn parse_class(input: Lexed, at: int) -> Result<(ItemView, int), ErrorView>
    decreases input.tokens.len() - at, 1int,
{
    match peek(input, at + 1) {
        Err(error) => Err(error),
        Ok(token) => match spec_word(token) {
            Err(error) => Err(error),
            Ok(name) => match parse_superclass(input, at + 2) {
                Err(error) => Err(error),
                Ok((superclass, after)) => match peek(input, after) {
                    Err(error) => Err(error),
                    Ok(next) => match spec_terminator(next) {
                        Err(error) => Err(error),
                        Ok(_) => if !moved(input, at, after) {
                            Err(stalled())
                        } else {
                            match items_until_end(input, behind(next, after), seq![]) {
                                Err(error) => Err(error),
                                Ok((items, end)) => Ok(
                                    (ItemView::Class { name, items, superclass }, end),
                                ),
                            }
                        },
                    },
                },
            },
        },
    }
}

/// A module, from the word `module` at `at` to its `end`.
pub open spec fn parse_module(input: Lexed, at: int) -> Result<(ItemView, int), ErrorView>
    decreases input.tokens.len() - at, 1int,
{
    match peek(input, at + 1) {
        Err(error) => Err(error),
        Ok(token) => match spec_word(token) {
            Err(error) => Err(error),
            Ok(name) => match peek(input, at + 2) {
                Err(error) => Err(error),
                Ok(next) => match spec_terminator(next) {
                    Err(error) => Err(error),
                    Ok(_) => if at < 0 {
                        Err(stalled())
                    } else {
                        match items_until_end(input, behind(next, at + 2), seq![]) {
                            Err(error) => Err(error),
                            Ok((items, end)) => Ok((ItemView::Module { name, items }, end)),
                        }
                    },
                },
            },
        },
    }
}

/// A function, from the word `def` at `at` to its `end`. A list of
/// parameters is not part of the grammar: `(` behind the name is an error.
pub open spec fn parse_function(input: Lexed, at: int) -> Result<(ItemView, int), ErrorView> {
    match peek(input, at + 1) {
        Err(error) => Err(error),
        Ok(token) => match spec_word(token) {
            Err(error) => Err(error),
            Ok(name) => match peek(input, at + 2) {
                Err(error) => Err(error),
                Ok(next) => match spec_something(next) {
                    Err(error) => Err(error),
                    Ok(_) => match spec_terminator(next) {
                        Err(error) => Err(error),
                        Ok(_) => match statements_until_end(input, at + 3, seq![]) {
                            Err(error) => Err(error),
                            Ok((statements, end)) => Ok(
                                (ItemView::Function { name, statements }, end),
                            ),
                        },
                    },
                },
            },
        },
    }
}

/// The rest of the items of a class or module, up to and with the `end`.
pub open spec fn items_until_end(input: Lexed, at: int, found: Seq<ItemView>) -> Result<
    (Seq<ItemView>, int),
    ErrorView,
>
    decreases input.tokens.len() - at, 3int,
{
    let start = skip_lines(input, at);
    if at < 0 || start < at {
        Err(stalled())
    } else {
        match peek(input, start) {
            Err(error) => Err(error),
            Ok(token) => if token is None {
                Err(unexpected(None, seq![TokenView::word("end")]))
            } else if token == Some(TokenView::word("end")) {
                Ok((found, start + 1))
            } else {
                match parse_item(input, start) {
                    Err(error) => Err(error),
                    Ok((item, after)) => if !moved(input, start, after) {
                        Err(stalled())
                    } else {
                        items_until_end(input, after, found.push(item))
                    },
                }
            },
        }
    }
}

/// The rest of the items of a program, up to the end of the input.
pub open spec fn program_from(input: Lexed, at: int, found: Seq<ItemView>) -> Result<
    Seq<ItemView>,
    ErrorView,
>
    decreases input.tokens.len() - at,
{
    let start = skip_lines(input, at);
    if at < 0 || start < at {
        Err(stalled())
    } else {
        match peek(input, start) {
            Err(error) => Err(error),
            Ok(token) => if token is None || token == Some(TokenView::EndOfFile) {
                Ok(found)
            } else {
                match parse_item(input, start) {
                    Err(error) => Err(error),
                    Ok((item, after)) => if !moved(input, start, after) {
                        Err(stalled())
                    } else {
                        program_from(input, after, found.push(item))
                    },
                }
            },
        }
    }
}

/// The program that a sequence of tokens holds: its items, each followed
/// by a terminator, blank lines between them skipped.
pub open spec fn parse_program(input: Lexed) -> Result<Seq<ItemView>, ErrorView> {
    program_from(input, 0, seq![])
}

} // verus!
