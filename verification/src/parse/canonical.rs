//! Whatever the parser builds is canonical, is made of tokens of the input,
//! and has taken at least one token.
use vstd::prelude::*;
use crate::ast::{ExprView, ItemView, PathSegmentKindView, PathSegmentView, PathSeparator};
use crate::parse::expect::{spec_one_of, spec_something, spec_terminator, spec_word};
use crate::parse::grammar::{arguments_bare, arguments_in_parens, behind, items_until_end,
                            lemma_path_advances, lemma_skip_lines, moved, parse_arguments,
                            parse_class, parse_expression, parse_function, parse_item, parse_module,
                            parse_path, parse_superclass, path_from, peek, program_from, skip_lines,
                            statements_until_end};
use crate::parse::token::TokenView;
use crate::parse::tokenize::Lexed;
use crate::parse::unparse::{canonical_expr, canonical_item, canonical_path, canonical_program,
                            canonical_statement, expr_made_of, first_word, item_made_of,
                            path_made_of};

verus! {

/// The test for a token of the input.
pub open spec fn in_input(input: Lexed) -> spec_fn(TokenView) -> bool {
    |token: TokenView| input.tokens.contains(token)
}

/// The segments read so far and the separator in front of the next one
/// are the start of a canonical path.
pub open spec fn canonical_so_far(parts: Seq<PathSegmentView>, separator: PathSeparator) -> bool {
    if parts.len() == 0 {
        separator == PathSeparator::Root
    } else {
        canonical_path(parts) && separator != PathSeparator::Root
    }
}

/// A path that is parsed is canonical, and starts with the word at which
/// parsing began.
pub proof fn lemma_parsed_path(
    input: Lexed,
    at: int,
    separator: PathSeparator,
    parts: Seq<PathSegmentView>,
)
    requires
        canonical_so_far(parts, separator),
        path_made_of(parts, in_input(input)),
    ensures
        path_from(input, at, separator, parts) matches Ok((path, after)) ==> {
            &&& canonical_path(path)
            &&& path_made_of(path, in_input(input))
            &&& path[0] == if parts.len() > 0 {
                parts[0]
            } else {
                PathSegmentView {
                    kind: PathSegmentKindView::of(input.tokens[at]->Word_0),
                    separator: PathSeparator::Root,
                }
            }
            &&& parts.len() == 0 ==> 0 <= at < input.tokens.len() && input.tokens[at] is Word
        },
    decreases input.tokens.len() - at,
{
    match peek(input, at) {
        Err(_) => {},
        Ok(token) => match spec_word(token) {
            Err(_) => {},
            Ok(word) => {
                let segment = PathSegmentView { kind: PathSegmentKindView::of(word), separator };
                let grown = parts.push(segment);
                assert(segment.kind.name() == word);
                assert(input.tokens[at] == TokenView::Word(word));
                assert(path_made_of(grown, in_input(input))) by {
                    assert forall|i: int| 0 <= i < grown.len() implies in_input(input)(
                        TokenView::Word((#[trigger] grown[i]).kind.name()),
                    ) by {
                        if i < parts.len() {
                            assert(grown[i] == parts[i]);
                        }
                    }
                }
                assert(canonical_path(grown)) by {
                    assert forall|i: int| 0 < i < grown.len() implies (
                    #[trigger] grown[i]).separator != PathSeparator::Root by {
                        if i < parts.len() {
                            assert(grown[i] == parts[i]);
                        }
                    }
                    assert forall|i: int| 0 <= i < grown.len() implies (#[trigger] grown[i]).kind
                        == PathSegmentKindView::of(grown[i].kind.name()) by {
                        if i < parts.len() {
                            assert(grown[i] == parts[i]);
                        }
                    }
                    if parts.len() > 0 {
                        assert(grown[0] == parts[0]);
                    }
                }
                match peek(input, at + 1) {
                    Err(_) => {},
                    Ok(next) => if next == Some(TokenView::symbol("::")) {
                        lemma_parsed_path(input, at + 2, PathSeparator::DoubleColon, grown);
                    } else if next == Some(TokenView::symbol(".")) {
                        lemma_parsed_path(input, at + 2, PathSeparator::Dot, grown);
                    },
                }
            },
        },
    }
}

/// What holds of an expression that was parsed from `start` on, blank
/// lines skipped: it is canonical, and it starts with a word exactly if a
/// word stands at `start`, which then is that word.
pub open spec fn parsed_well(input: Lexed, start: int, expr: ExprView) -> bool {
    &&& canonical_expr(expr)
    &&& expr_made_of(expr, in_input(input))
    &&& 0 <= start < input.tokens.len()
    &&& match first_word(expr) {
        Some(word) => input.tokens[start] == TokenView::Word(word),
        None => !(input.tokens[start] is Word),
    }
}

/// An expression that is parsed is canonical, and made of tokens of the
/// input.
pub proof fn lemma_parsed_expression(input: Lexed, at: int)
    ensures
        parse_expression(input, at) matches Ok((expr, after)) ==> parsed_well(
            input,
            skip_lines(input, at),
            expr,
        ) && moved(input, skip_lines(input, at), after),
    decreases input.tokens.len() - at, 1int,
{
    let start = skip_lines(input, at);
    if at < 0 || start < at {
    } else {
        match peek(input, start) {
            Err(_) => {},
            Ok(token) => match spec_something(token) {
                Err(_) => {},
                Ok(TokenView::Word(_)) => {
                    lemma_parsed_path(input, start, PathSeparator::Root, seq![]);
                    lemma_path_advances(input, start, PathSeparator::Root, seq![]);
                    match parse_path(input, start) {
                        Err(_) => {},
                        Ok((path, after)) => match peek(input, after) {
                            Err(_) => {},
                            Ok(next) => if !moved(input, start, after) {
                            } else if next == Some(TokenView::symbol("=")) {
                                lemma_parsed_expression(input, after + 1);
                            } else {
                                lemma_parsed_arguments(input, after);
                            },
                        },
                    }
                },
                Ok(TokenView::String(_)) => {},
                Ok(TokenView::Integer(_)) => {},
                Ok(found) => if found == TokenView::symbol("(") {
                    lemma_parsed_expression(input, start + 1);
                } else if found == TokenView::symbol(":") {
                    match peek(input, start + 1) {
                        Err(_) => {},
                        Ok(token) => match spec_word(token) {
                            Err(_) => {},
                            Ok(name) => match peek(input, start + 2) {
                                Err(_) => {},
                                Ok(next) => if next == Some(TokenView::symbol("=>")) {
                                    lemma_parsed_expression(input, start + 3);
                                },
                            },
                        },
                    }
                },
            },
        }
    }
}

/// The arguments of a call that are parsed are canonical.
pub proof fn lemma_parsed_arguments(input: Lexed, at: int)
    requires
        0 <= at <= input.tokens.len(),
    ensures
        parse_arguments(input, at) matches Ok((arguments, after)) ==> at <= after
            <= input.tokens.len() && forall|i: int|
            0 <= i < arguments.len() ==> canonical_expr(#[trigger] arguments[i]) && expr_made_of(
                arguments[i],
                in_input(input),
            ),
    decreases input.tokens.len() - at, 3int,
{
    match peek(input, at) {
        Err(_) => {},
        Ok(token) => if token == Some(TokenView::symbol("(")) {
            lemma_parsed_in_parens(input, at + 1, seq![]);
        } else if token is None || token->0.is_terminator() {
        } else {
            lemma_parsed_bare(input, at, seq![]);
        },
    }
}

/// The arguments in parentheses that are parsed are canonical.
pub proof fn lemma_parsed_in_parens(input: Lexed, at: int, found: Seq<ExprView>)
    requires
        forall|i: int|
            0 <= i < found.len() ==> canonical_expr(#[trigger] found[i]) && expr_made_of(
                found[i],
                in_input(input),
            ),
    ensures
        arguments_in_parens(input, at, found) matches Ok((arguments, after)) ==> moved(
            input,
            at,
            after,
        ) && forall|i: int|
            0 <= i < arguments.len() ==> canonical_expr(#[trigger] arguments[i]) && expr_made_of(
                arguments[i],
                in_input(input),
            ),
    decreases input.tokens.len() - at, 2int,
{
    let start = skip_lines(input, at);
    if at < 0 || start < at {
    } else {
        match peek(input, start) {
            Err(_) => {},
            Ok(token) => if token is None {
            } else if token == Some(TokenView::symbol(")")) {
            } else {
                lemma_parsed_expression(input, start);
                match parse_expression(input, start) {
                    Err(_) => {},
                    Ok((argument, after)) => match peek(input, after) {
                        Err(_) => {},
                        Ok(next) => match spec_one_of(
                            next,
                            seq![TokenView::symbol(","), TokenView::symbol(")")],
                        ) {
                            Err(_) => {},
                            Ok(separator) => if !moved(input, start, after) {
                            } else {
                                lemma_skip_lines(input, start);
                                let grown = found.push(argument);
                                assert forall|i: int| 0 <= i < grown.len() implies canonical_expr(
                                    #[trigger] grown[i],
                                ) && expr_made_of(grown[i], in_input(input)) by {
                                    if i < found.len() {
                                        assert(grown[i] == found[i]);
                                    }
                                }
                                lemma_parsed_in_parens(
                                    input,
                                    if separator == TokenView::symbol(",") {
                                        after + 1
                                    } else {
                                        after
                                    },
                                    grown,
                                );
                            },
                        },
                    },
                }
            },
        }
    }
}

/// The arguments without parentheses that are parsed are canonical.
pub proof fn lemma_parsed_bare(input: Lexed, at: int, found: Seq<ExprView>)
    requires
        forall|i: int|
            0 <= i < found.len() ==> canonical_expr(#[trigger] found[i]) && expr_made_of(
                found[i],
                in_input(input),
            ),
    ensures
        arguments_bare(input, at, found) matches Ok((arguments, after)) ==> moved(
            input,
            at,
            after,
        ) && forall|i: int|
            0 <= i < arguments.len() ==> canonical_expr(#[trigger] arguments[i]) && expr_made_of(
                arguments[i],
                in_input(input),
            ),
    decreases input.tokens.len() - at, 2int,
{
    lemma_parsed_expression(input, at);
    match parse_expression(input, at) {
        Err(_) => {},
        Ok((argument, after)) => match peek(input, after) {
            Err(_) => {},
            Ok(next) => {
                let grown = found.push(argument);
                assert forall|i: int| 0 <= i < grown.len() implies canonical_expr(
                    #[trigger] grown[i],
                ) && expr_made_of(grown[i], in_input(input)) by {
                    if i < found.len() {
                        assert(grown[i] == found[i]);
                    }
                }
                if !moved(input, at, after) {
                } else if next == Some(TokenView::symbol(",")) {
                    lemma_parsed_bare(input, after + 1, grown);
                }
            },
        },
    }
}

/// The statements of a function that are parsed are canonical.
pub proof fn lemma_parsed_statements(input: Lexed, at: int, found: Seq<ExprView>)
    requires
        forall|i: int|
            0 <= i < found.len() ==> canonical_statement(#[trigger] found[i]) && expr_made_of(
                found[i],
                in_input(input),
            ),
    ensures
        statements_until_end(input, at, found) matches Ok((statements, after)) ==> moved(
            input,
            at,
            after,
        ) && forall|i: int|
            0 <= i < statements.len() ==> canonical_statement(#[trigger] statements[i])
                && expr_made_of(statements[i], in_input(input)),
    decreases input.tokens.len() - at,
{
    let start = skip_lines(input, at);
    if at < 0 || start < at {
    } else {
        match peek(input, start) {
            Err(_) => {},
            Ok(token) => if token is None {
            } else if token == Some(TokenView::word("end")) {
            } else {
                lemma_skip_lines(input, at);
                lemma_parsed_expression(input, start);
                match parse_expression(input, start) {
                    Err(_) => {},
                    Ok((statement, after)) => if !moved(input, start, after) {
                    } else {
                        let grown = found.push(statement);
                        assert forall|i: int| 0 <= i < grown.len() implies canonical_statement(
                            #[trigger] grown[i],
                        ) && expr_made_of(grown[i], in_input(input)) by {
                            if i < found.len() {
                                assert(grown[i] == found[i]);
                            }
                        }
                        lemma_parsed_statements(input, after, grown);
                    },
                }
            },
        }
    }
}

/// An item that is parsed is canonical; if it does not start with the
/// word `end`, it is canonical between `class` or `module` and `end` too.
pub proof fn lemma_parsed_item(input: Lexed, at: int)
    ensures
        parse_item(input, at) matches Ok((item, after)) ==> {
            &&& moved(input, at, after)
            &&& canonical_item(item, false)
            &&& item_made_of(item, in_input(input))
            &&& input.tokens[at] != TokenView::word("end") ==> canonical_item(item, true)
        },
    decreases input.tokens.len() - at, 2int,
{
    match peek(input, at) {
        Err(_) => {},
        Ok(token) => match spec_word(token) {
            Err(_) => {},
            Ok(word) => {
                if word == "class"@ {
                    lemma_parsed_class(input, at);
                } else if word == "module"@ {
                    lemma_parsed_module(input, at);
                } else if word == "def"@ {
                    lemma_parsed_function(input, at);
                } else {
                    lemma_parsed_expression(input, at);
                    assert(skip_lines(input, at) == at);
                }
            },
        },
    }
}

/// A class that is parsed is canonical.
pub proof fn lemma_parsed_class(input: Lexed, at: int)
    ensures
        parse_class(input, at) matches Ok((item, after)) ==> moved(input, at, after)
            && canonical_item(item, true) && canonical_item(item, false) && item_made_of(
            item,
            in_input(input),
        ),
    decreases input.tokens.len() - at, 1int,
{
    match peek(input, at + 1) {
        Err(_) => {},
        Ok(token) => match spec_word(token) {
            Err(_) => {},
            Ok(name) => {
                match peek(input, at + 2) {
                    Err(_) => {},
                    Ok(token) => if token == Some(TokenView::symbol("<")) {
                        lemma_parsed_path(input, at + 3, PathSeparator::Root, seq![]);
                        lemma_path_advances(input, at + 3, PathSeparator::Root, seq![]);
                    },
                }
                match parse_superclass(input, at + 2) {
                    Err(_) => {},
                    Ok((superclass, after)) => match peek(input, after) {
                        Err(_) => {},
                        Ok(next) => match spec_terminator(next) {
                            Err(_) => {},
                            Ok(_) => if !moved(input, at, after) {
                            } else {
                                lemma_parsed_items(input, behind(next, after), seq![]);
                            },
                        },
                    },
                }
            },
        },
    }
}

/// A module that is parsed is canonical.
pub proof fn lemma_parsed_module(input: Lexed, at: int)
    ensures
        parse_module(input, at) matches Ok((item, after)) ==> moved(input, at, after)
            && canonical_item(item, true) && canonical_item(item, false) && item_made_of(
            item,
            in_input(input),
        ),
    decreases input.tokens.len() - at, 1int,
{
    match peek(input, at + 1) {
        Err(_) => {},
        Ok(token) => match spec_word(token) {
            Err(_) => {},
            Ok(name) => match peek(input, at + 2) {
                Err(_) => {},
                Ok(next) => match spec_terminator(next) {
                    Err(_) => {},
                    Ok(_) => if at < 0 {
                    } else {
                        lemma_parsed_items(input, behind(next, at + 2), seq![]);
                    },
                },
            },
        },
    }
}

/// A function that is parsed is canonical.
pub proof fn lemma_parsed_function(input: Lexed, at: int)
    requires
        0 <= at,
    ensures
        parse_function(input, at) matches Ok((item, after)) ==> moved(input, at, after)
            && canonical_item(item, true) && canonical_item(item, false) && item_made_of(
            item,
            in_input(input),
        ),
{
    lemma_parsed_statements(input, at + 3, seq![]);
}

/// The items of a class or module that are parsed are canonical.
pub proof fn lemma_parsed_items(input: Lexed, at: int, found: Seq<ItemView>)
    requires
        forall|i: int|
            0 <= i < found.len() ==> canonical_item(#[trigger] found[i], true) && item_made_of(
                found[i],
                in_input(input),
            ),
    ensures
        items_until_end(input, at, found) matches Ok((items, after)) ==> moved(input, at, after)
            && forall|i: int|
            0 <= i < items.len() ==> canonical_item(#[trigger] items[i], true) && item_made_of(
                items[i],
                in_input(input),
            ),
    decreases input.tokens.len() - at, 3int,
{
    let start = skip_lines(input, at);
    if at < 0 || start < at {
    } else {
        match peek(input, start) {
            Err(_) => {},
            Ok(token) => if token is None {
            } else if token == Some(TokenView::word("end")) {
            } else {
                lemma_parsed_item(input, start);
                match parse_item(input, start) {
                    Err(_) => {},
                    Ok((item, after)) => if !moved(input, start, after) {
                    } else {
                        let grown = found.push(item);
                        assert forall|i: int| 0 <= i < grown.len() implies canonical_item(
                            #[trigger] grown[i],
                            true,
                        ) && item_made_of(grown[i], in_input(input)) by {
                            if i < found.len() {
                                assert(grown[i] == found[i]);
                            }
                        }
                        lemma_parsed_items(input, after, grown);
                    },
                }
            },
        }
    }
}

/// The items of a program that are parsed are canonical.
pub proof fn lemma_parsed_program(input: Lexed, at: int, found: Seq<ItemView>)
    requires
        canonical_program(found),
        forall|i: int| 0 <= i < found.len() ==> item_made_of(#[trigger] found[i], in_input(input)),
    ensures
        program_from(input, at, found) matches Ok(items) ==> canonical_program(items) && forall|
            i: int,
        |
            0 <= i < items.len() ==> item_made_of(#[trigger] items[i], in_input(input)),
    decreases input.tokens.len() - at,
{
    let start = skip_lines(input, at);
    if at < 0 || start < at {
    } else {
        match peek(input, start) {
            Err(_) => {},
            Ok(token) => if token is None || token == Some(TokenView::EndOfFile) {
            } else {
                lemma_parsed_item(input, start);
                match parse_item(input, start) {
                    Err(_) => {},
                    Ok((item, after)) => if !moved(input, start, after) {
                    } else {
                        let grown = found.push(item);
                        assert forall|i: int| 0 <= i < grown.len() implies canonical_item(
                            #[trigger] grown[i],
                            false,
                        ) && item_made_of(grown[i], in_input(input)) by {
                            if i < found.len() {
                                assert(grown[i] == found[i]);
                            }
                        }
                        lemma_parsed_program(input, after, grown);
                    },
                }
            },
        }
    }
}

} // verus!
