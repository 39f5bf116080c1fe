//! Parsing the canonical tokens of a tree, or its canonical text, gives the
//! tree back.
use vstd::prelude::*;
use crate::ast::{ExprView, ItemView, PathSegmentKindView, PathSegmentView, PathSeparator};
use crate::parse::canonical::{in_input, lemma_parsed_program};
use crate::parse::errors::ErrorView;
use crate::parse::grammar::{arguments_in_parens, items_until_end, lemma_skip_lines,
                            parse_arguments, parse_class, parse_expression, parse_function,
                            parse_item, parse_module, parse_path, parse_program, parse_superclass,
                            path_from, peek, program_from, skip_lines, statements_until_end};
use crate::parse::relex::{lemma_items_tokens_lexable, lemma_lexed_tokens_lexable, lemma_relex,
                          lexable};
use crate::parse::render::source_of;
use crate::parse::token::TokenView;
use crate::parse::tokenize::{Lexed, lex};
use crate::parse::unparse::{arguments_tokens, canonical_expr, canonical_item, canonical_path,
                            canonical_program, canonical_statement, expr_tokens, first_word,
                            item_tokens, items_tokens, path_tokens, separator_tokens,
                            statements_tokens};

verus! {

/// Whether the tokens of `input` from `at` on start with `tokens`.
pub open spec fn holds_at(input: Lexed, at: int, tokens: Seq<TokenView>) -> bool {
    &&& 0 <= at
    &&& at + tokens.len() <= input.tokens.len()
    &&& forall|i: int| 0 <= i < tokens.len() ==> input.tokens[at + i] == #[trigger] tokens[i]
}

/// The input holds two sequences of tokens, one behind the other, exactly
/// if it holds the two of them joined.
pub proof fn lemma_holds_joined(input: Lexed, at: int, first: Seq<TokenView>, second: Seq<TokenView>)
    ensures
        holds_at(input, at, first + second) <==> holds_at(input, at, first) && holds_at(
            input,
            at + first.len(),
            second,
        ),
{
    let joined = first + second;
    if holds_at(input, at, joined) {
        assert forall|i: int| 0 <= i < first.len() implies input.tokens[at + i]
            == #[trigger] first[i] by {
            assert(joined[i] == first[i]);
        }
        assert forall|i: int| 0 <= i < second.len() implies input.tokens[at + first.len() + i]
            == #[trigger] second[i] by {
            assert(joined[first.len() + i] == second[i]);
        }
    }
    if holds_at(input, at, first) && holds_at(input, at + first.len(), second) {
        assert forall|i: int| 0 <= i < joined.len() implies input.tokens[at + i]
            == #[trigger] joined[i] by {
            if i < first.len() {
                assert(joined[i] == first[i]);
            } else {
                assert(joined[i] == second[i - first.len()]);
            }
        }
    }
}

/// The words and symbols of the grammar differ from each other.
pub proof fn lemma_keywords_differ()
    ensures
        "class"@ != "module"@,
        "class"@ != "def"@,
        "class"@ != "end"@,
        "module"@ != "def"@,
        "module"@ != "end"@,
        "def"@ != "end"@,
        "("@ != ")"@,
        "("@ != ":"@,
        "("@ != "="@,
        "("@ != "::"@,
        "("@ != "."@,
        "("@ != ";"@,
        "("@ != ","@,
        "("@ != "=>"@,
        ")"@ != ":"@,
        ")"@ != ","@,
        ")"@ != "=>"@,
        ")"@ != ";"@,
        ","@ != "=>"@,
        ","@ != ":"@,
        ","@ != "("@,
        ","@ != ";"@,
        "="@ != "::"@,
        "="@ != "."@,
        "="@ != "=>"@,
        "="@ != ";"@,
        ":"@ != "=>"@,
        ":"@ != "::"@,
        "<"@ != "::"@,
        "<"@ != "."@,
        "<"@ != ";"@,
        "::"@ != "."@,
        "=>"@ != ";"@,
        "=>"@ != "::"@,
        "=>"@ != "."@,
{
    reveal_strlit("class");
    reveal_strlit("module");
    reveal_strlit("def");
    reveal_strlit("end");
    reveal_strlit("(");
    reveal_strlit(")");
    reveal_strlit(":");
    reveal_strlit("=");
    reveal_strlit("::");
    reveal_strlit(".");
    reveal_strlit(";");
    reveal_strlit(",");
    reveal_strlit("=>");
    reveal_strlit("<");
    assert("class"@[0] == 'c' && "module"@[0] == 'm' && "def"@[0] == 'd' && "end"@[0] == 'e');
    assert("("@[0] == '(' && ")"@[0] == ')' && ":"@[0] == ':' && "="@[0] == '=' && "."@[0] == '.'
        && ";"@[0] == ';' && ","@[0] == ',' && "<"@[0] == '<');
    assert("::"@.len() == 2 && "=>"@.len() == 2 && "::"@[0] == ':' && "=>"@[0] == '=');
}

/// Parsing the tokens of the rest of a path gives the rest of the path.
pub proof fn lemma_reparse_path(
    input: Lexed,
    at: int,
    rest: Seq<PathSegmentView>,
    parts: Seq<PathSegmentView>,
)
    requires
        input.fault is None,
        rest.len() > 0,
        forall|i: int| 0 < i < rest.len() ==> (#[trigger] rest[i]).separator != PathSeparator::Root,
        forall|i: int|
            0 <= i < rest.len() ==> (#[trigger] rest[i]).kind == PathSegmentKindView::of(
                rest[i].kind.name(),
            ),
        holds_at(
            input,
            at,
            seq![TokenView::Word(rest[0].kind.name())] + path_tokens(rest.drop_first()),
        ),
        ({
            let end = at + 1 + path_tokens(rest.drop_first()).len();
            peek(input, end) != Ok::<Option<TokenView>, ErrorView>(
                Some(TokenView::symbol("::")),
            ) && peek(input, end) != Ok::<Option<TokenView>, ErrorView>(
                Some(TokenView::symbol(".")),
            )
        }),
    ensures
        path_from(input, at, rest[0].separator, parts) == Ok::<
            (Seq<PathSegmentView>, int),
            ErrorView,
        >((parts + rest, at + 1 + path_tokens(rest.drop_first()).len())),
    decreases rest.len(),
{
    lemma_keywords_differ();
    let head = seq![TokenView::Word(rest[0].kind.name())];
    let tail = rest.drop_first();
    lemma_holds_joined(input, at, head, path_tokens(tail));
    assert(input.tokens[at] == head[0]);
    let grown = parts.push(
        PathSegmentView {
            kind: PathSegmentKindView::of(rest[0].kind.name()),
            separator: rest[0].separator,
        },
    );
    assert(grown == parts.push(rest[0]));
    if tail.len() == 0 {
        assert(parts + rest =~= grown);
    } else {
        let mark = separator_tokens(tail[0].separator);
        let next = seq![TokenView::Word(tail[0].kind.name())] + path_tokens(tail.drop_first());
        assert(tail[0] == rest[1]);
        assert(mark.len() == 1);
        assert(path_tokens(tail) =~= mark + next);
        lemma_holds_joined(input, at + 1, mark, next);
        assert(input.tokens[at + 1] == mark[0]);
        assert forall|i: int| 0 < i < tail.len() implies (#[trigger] tail[i]).separator
            != PathSeparator::Root by {
            assert(tail[i] == rest[i + 1]);
        }
        assert forall|i: int| 0 <= i < tail.len() implies (#[trigger] tail[i]).kind
            == PathSegmentKindView::of(tail[i].kind.name()) by {
            assert(tail[i] == rest[i + 1]);
        }
        lemma_reparse_path(input, at + 2, tail, grown);
        assert(grown + tail =~= parts + rest);
    }
}

/// Whether an expression can start with the token.
pub open spec fn starts_expression(token: TokenView) -> bool {
    token is Word || token is String || token is Integer || token == TokenView::symbol("(")
        || token == TokenView::symbol(":")
}

/// The tokens of a canonical expression start with a token that starts an
/// expression, which is the word that the expression starts with if it
/// starts with one.
pub proof fn lemma_expr_tokens_start(expr: ExprView)
    requires
        canonical_expr(expr),
    ensures
        expr_tokens(expr).len() > 0,
        starts_expression(expr_tokens(expr)[0]),
        match first_word(expr) {
            Some(word) => expr_tokens(expr)[0] == TokenView::Word(word),
            None => !(expr_tokens(expr)[0] is Word),
        },
{
    match expr {
        ExprView::Assignment { assignee, value } => {
            assert(path_tokens(assignee)[0] == TokenView::Word(assignee[0].kind.name()));
        },
        ExprView::Call { callee, arguments } => {
            assert(path_tokens(callee)[0] == TokenView::Word(callee[0].kind.name()));
        },
        _ => {},
    }
}

/// A token that starts an expression is no new line, closes no
/// parenthesis and is no comma.
pub proof fn lemma_starts_expression(token: TokenView)
    requires
        starts_expression(token),
    ensures
        token != TokenView::EndOfLine,
        token != TokenView::symbol(")"),
        token != TokenView::symbol(","),
        token != TokenView::symbol("=>"),
{
    lemma_keywords_differ();
}

/// Parsing the tokens of a canonical path gives the path.
pub proof fn lemma_reparse_whole_path(input: Lexed, at: int, path: Seq<PathSegmentView>)
    requires
        input.fault is None,
        canonical_path(path),
        holds_at(input, at, path_tokens(path)),
        peek(input, at + path_tokens(path).len()) != Ok::<
            Option<TokenView>,
            ErrorView,
        >(Some(TokenView::symbol("::"))),
        peek(input, at + path_tokens(path).len()) != Ok::<
            Option<TokenView>,
            ErrorView,
        >(Some(TokenView::symbol("."))),
    ensures
        parse_path(input, at) == Ok::<(Seq<PathSegmentView>, int), ErrorView>(
            (path, at + path_tokens(path).len()),
        ),
        path_tokens(path).len() > 0,
        path_tokens(path)[0] == TokenView::Word(path[0].kind.name()),
{
    assert(path_tokens(path) =~= seq![TokenView::Word(path[0].kind.name())] + path_tokens(
        path.drop_first(),
    ));
    lemma_reparse_path(input, at, path, seq![]);
    assert(Seq::<PathSegmentView>::empty() + path =~= path);
}

/// Parsing the tokens of a canonical expression gives the expression,
/// unless `=>` stands behind them.
pub proof fn lemma_reparse_expression(input: Lexed, at: int, expr: ExprView)
    requires
        input.fault is None,
        canonical_expr(expr),
        holds_at(input, at, expr_tokens(expr)),
        peek(input, at + expr_tokens(expr).len()) != Ok::<
            Option<TokenView>,
            ErrorView,
        >(Some(TokenView::symbol("=>"))),
    ensures
        parse_expression(input, at) == Ok::<(ExprView, int), ErrorView>(
            (expr, at + expr_tokens(expr).len()),
        ),
        expr_tokens(expr).len() > 0,
    decreases expr, 0int,
{
    lemma_keywords_differ();
    lemma_expr_tokens_start(expr);
    lemma_starts_expression(expr_tokens(expr)[0]);
    let tokens = expr_tokens(expr);
    assert(input.tokens[at] == tokens[0]);
    assert(skip_lines(input, at) == at);
    match expr {
        ExprView::Assignment { assignee, value } => {
            let left = path_tokens(assignee);
            let sign = seq![TokenView::symbol("=")];
            let right = expr_tokens(*value);
            assert(tokens == left + sign + right);
            lemma_holds_joined(input, at, left + sign, right);
            lemma_holds_joined(input, at, left, sign);
            assert(input.tokens[at + left.len()] == sign[0]);
            lemma_reparse_whole_path(input, at, assignee);
            lemma_reparse_expression(input, at + left.len() + 1, *value);
        },
        ExprView::Paren { inner } => {
            let open = seq![TokenView::symbol("(")];
            let middle = expr_tokens(*inner);
            let close = seq![TokenView::symbol(")")];
            assert(tokens == open + middle + close);
            lemma_holds_joined(input, at, open + middle, close);
            lemma_holds_joined(input, at, open, middle);
            assert(input.tokens[at + 1 + middle.len()] == close[0]);
            lemma_reparse_expression(input, at + 1, *inner);
        },
        ExprView::Call { callee, arguments } => {
            let left = path_tokens(callee);
            let open = seq![TokenView::symbol("(")];
            let middle = arguments_tokens(arguments);
            let close = seq![TokenView::symbol(")")];
            assert(tokens == left + open + middle + close);
            lemma_holds_joined(input, at, left + open + middle, close);
            lemma_holds_joined(input, at, left + open, middle);
            lemma_holds_joined(input, at, left, open);
            lemma_holds_joined(input, at + left.len() + 1, middle, close);
            assert(input.tokens[at + left.len()] == open[0]);
            lemma_reparse_whole_path(input, at, callee);
            let none: Seq<ExprView> = seq![];
            lemma_reparse_arguments(input, at + left.len() + 1, arguments, none);
            assert(none + arguments =~= arguments);
            assert(parse_arguments(input, at + left.len()) == arguments_in_parens(
                input,
                at + left.len() + 1,
                none,
            ));
        },
        ExprView::StringLiteral { text } => {},
        ExprView::IntegerLiteral { number } => {},
        ExprView::Symbol { name } => {
            assert(input.tokens[at + 1] == tokens[1]);
        },
        ExprView::KeyValue { key, value } => {
            let head = seq![
                TokenView::symbol(":"),
                TokenView::Word(key),
                TokenView::symbol("=>"),
            ];
            let right = expr_tokens(*value);
            assert(tokens == head + right);
            lemma_holds_joined(input, at, head, right);
            assert(input.tokens[at + 1] == head[1]);
            assert(input.tokens[at + 2] == head[2]);
            lemma_reparse_expression(input, at + 3, *value);
        },
        ExprView::Negate { inner } => {},
    }
}

/// Parsing the tokens of a list of canonical arguments and the `)` behind
/// them gives the arguments.
pub proof fn lemma_reparse_arguments(
    input: Lexed,
    at: int,
    arguments: Seq<ExprView>,
    found: Seq<ExprView>,
)
    requires
        input.fault is None,
        forall|i: int| 0 <= i < arguments.len() ==> canonical_expr(#[trigger] arguments[i]),
        holds_at(input, at, arguments_tokens(arguments) + seq![TokenView::symbol(")")]),
    ensures
        arguments_in_parens(input, at, found) == Ok::<
            (Seq<ExprView>, int),
            ErrorView,
        >((found + arguments, at + arguments_tokens(arguments).len() + 1)),
    decreases arguments, 1int,
{
    lemma_keywords_differ();
    let close = seq![TokenView::symbol(")")];
    let tokens = arguments_tokens(arguments);
    lemma_holds_joined(input, at, tokens, close);
    if arguments.len() == 0 {
        assert(input.tokens[at] == close[0]);
        assert(skip_lines(input, at) == at);
        assert(found + arguments =~= found);
    } else {
        let first = expr_tokens(arguments[0]);
        let comma = if arguments.len() > 1 {
            seq![TokenView::symbol(",")]
        } else {
            seq![]
        };
        let rest = arguments.drop_first();
        let others = arguments_tokens(rest);
        assert(tokens == first + comma + others);
        lemma_expr_tokens_start(arguments[0]);
        lemma_starts_expression(first[0]);
        lemma_holds_joined(input, at, first + comma, others);
        lemma_holds_joined(input, at, first, comma);
        assert(input.tokens[at] == first[0]);
        assert(skip_lines(input, at) == at);
        let after = at + first.len();
        if arguments.len() > 1 {
            assert(input.tokens[after] == comma[0]);
        } else {
            assert(others =~= seq![]);
            assert(input.tokens[after] == close[0]);
        }
        lemma_reparse_expression(input, at, arguments[0]);
        let list = seq![TokenView::symbol(","), TokenView::symbol(")")];
        assert(list[0] == TokenView::symbol(",") && list[1] == TokenView::symbol(")"));
        assert(list.contains(input.tokens[after]));
        assert forall|i: int| 0 <= i < rest.len() implies canonical_expr(#[trigger] rest[i]) by {
            assert(rest[i] == arguments[i + 1]);
        }
        let next = if arguments.len() > 1 {
            after + 1
        } else {
            after
        };
        lemma_holds_joined(input, at + first.len() + comma.len(), others, close);
        lemma_reparse_arguments(input, next, rest, found.push(arguments[0]));
        assert(found.push(arguments[0]) + rest =~= found + arguments);
    }
}

/// A list of statements starts behind the new lines in front of it.
pub proof fn lemma_statements_behind_line(input: Lexed, at: int, found: Seq<ExprView>)
    requires
        0 <= at < input.tokens.len(),
        input.tokens[at] == TokenView::EndOfLine,
    ensures
        statements_until_end(input, at, found) == statements_until_end(input, at + 1, found),
{
    lemma_skip_lines(input, at + 1);
}

/// Parsing the tokens of a list of canonical statements and the `end`
/// behind them gives the statements.
pub proof fn lemma_reparse_statements(
    input: Lexed,
    at: int,
    statements: Seq<ExprView>,
    found: Seq<ExprView>,
)
    requires
        input.fault is None,
        forall|i: int| 0 <= i < statements.len() ==> canonical_statement(#[trigger] statements[i]),
        holds_at(input, at, statements_tokens(statements) + seq![TokenView::word("end")]),
    ensures
        statements_until_end(input, at, found) == Ok::<
            (Seq<ExprView>, int),
            ErrorView,
        >((found + statements, at + statements_tokens(statements).len() + 1)),
    decreases statements.len(),
{
    lemma_keywords_differ();
    let close = seq![TokenView::word("end")];
    let tokens = statements_tokens(statements);
    lemma_holds_joined(input, at, tokens, close);
    if statements.len() == 0 {
        assert(input.tokens[at] == close[0]);
        assert(skip_lines(input, at) == at);
        assert(found + statements =~= found);
    } else {
        let first = expr_tokens(statements[0]);
        let line = seq![TokenView::EndOfLine];
        let rest = statements.drop_first();
        let others = statements_tokens(rest);
        assert(tokens == first + line + others);
        assert(canonical_statement(statements[0]));
        lemma_expr_tokens_start(statements[0]);
        lemma_starts_expression(first[0]);
        lemma_holds_joined(input, at, first + line, others);
        lemma_holds_joined(input, at, first, line);
        assert(input.tokens[at] == first[0]);
        assert(skip_lines(input, at) == at);
        let after = at + first.len();
        assert(input.tokens[after] == line[0]);
        lemma_reparse_expression(input, at, statements[0]);
        assert forall|i: int| 0 <= i < rest.len() implies canonical_statement(
            #[trigger] rest[i],
        ) by {
            assert(rest[i] == statements[i + 1]);
        }
        lemma_holds_joined(input, after + 1, others, close);
        lemma_statements_behind_line(input, after, found.push(statements[0]));
        lemma_reparse_statements(input, after + 1, rest, found.push(statements[0]));
        assert(found.push(statements[0]) + rest =~= found + statements);
    }
}

/// The tokens of a canonical item start with a word, which between `class`
/// or `module` and `end` is not `end`.
pub proof fn lemma_item_tokens_start(item: ItemView, nested: bool)
    requires
        canonical_item(item, nested),
    ensures
        item_tokens(item).len() > 0,
        item_tokens(item)[0] is Word,
        nested ==> item_tokens(item)[0] != TokenView::word("end"),
{
    lemma_keywords_differ();
    match item {
        ItemView::Stmt(expr) => {
            lemma_expr_tokens_start(expr);
        },
        _ => {},
    }
}

/// Parsing the tokens of a canonical module, up to its `end`, gives the
/// module.
pub proof fn lemma_reparse_module(input: Lexed, at: int, item: ItemView)
    requires
        input.fault is None,
        item is Module,
        canonical_item(item, false),
        holds_at(input, at, item_tokens(item)),
    ensures
        parse_module(input, at) == Ok::<(ItemView, int), ErrorView>(
            (item, at + item_tokens(item).len() - 1),
        ),
        input.tokens[at] == TokenView::word("module"),
        input.tokens[at + item_tokens(item).len() - 1] == TokenView::EndOfLine,
    decreases item, 0int,
{
    lemma_keywords_differ();
    let tokens = item_tokens(item);
    match item {
        ItemView::Module { name, items } => {
            let head = seq![
                TokenView::word("module"),
                TokenView::Word(name),
                TokenView::EndOfLine,
            ];
            let body = items_tokens(items);
            let close = seq![TokenView::word("end"), TokenView::EndOfLine];
            let end = seq![TokenView::word("end")];
            let line = seq![TokenView::EndOfLine];
            assert(tokens == head + body + close);
            assert(close =~= end + line);
            lemma_holds_joined(input, at, head + body, close);
            lemma_holds_joined(input, at, head, body);
            lemma_holds_joined(input, at + 3 + body.len(), end, line);
            lemma_holds_joined(input, at + 3, body, end);
            assert(input.tokens[at] == head[0]);
            assert(input.tokens[at + 1] == head[1]);
            assert(input.tokens[at + 2] == head[2]);
            assert(input.tokens[at + 3 + body.len() + 1] == line[0]);
            let none: Seq<ItemView> = seq![];
            lemma_reparse_items(input, at + 3, items, none);
            assert(none + items =~= items);
        },
        _ => {},
    }
}

/// Parsing the tokens of a canonical class, up to its `end`, gives the
/// class.
pub proof fn lemma_reparse_class(input: Lexed, at: int, item: ItemView)
    requires
        input.fault is None,
        item is Class,
        canonical_item(item, false),
        holds_at(input, at, item_tokens(item)),
    ensures
        parse_class(input, at) == Ok::<(ItemView, int), ErrorView>(
            (item, at + item_tokens(item).len() - 1),
        ),
        input.tokens[at] == TokenView::word("class"),
        input.tokens[at + item_tokens(item).len() - 1] == TokenView::EndOfLine,
    decreases item, 0int,
{
    lemma_keywords_differ();
    let tokens = item_tokens(item);
    match item {
        ItemView::Class { name, items, superclass } => {
            let head = seq![TokenView::word("class"), TokenView::Word(name)];
            let parent = match superclass {
                Some(path) => seq![TokenView::symbol("<")] + path_tokens(path),
                None => seq![],
            };
            let line = seq![TokenView::EndOfLine];
            let body = items_tokens(items);
            let close = seq![TokenView::word("end"), TokenView::EndOfLine];
            let end = seq![TokenView::word("end")];
            assert(tokens == head + parent + line + body + close);
            assert(close =~= end + line);
            lemma_holds_joined(input, at, head + parent + line + body, close);
            lemma_holds_joined(input, at, head + parent + line, body);
            lemma_holds_joined(input, at, head + parent, line);
            lemma_holds_joined(input, at, head, parent);
            let after = at + 2 + parent.len();
            lemma_holds_joined(input, after + 1 + body.len(), end, line);
            lemma_holds_joined(input, after + 1, body, end);
            assert(input.tokens[at] == head[0]);
            assert(input.tokens[at + 1] == head[1]);
            assert(input.tokens[after] == line[0]);
            assert(input.tokens[after + 1 + body.len() + 1] == line[0]);
            match superclass {
                Some(path) => {
                    let mark = seq![TokenView::symbol("<")];
                    lemma_holds_joined(input, at + 2, mark, path_tokens(path));
                    assert(input.tokens[at + 2] == mark[0]);
                    lemma_reparse_whole_path(input, at + 3, path);
                },
                None => {},
            }
            assert(parse_superclass(input, at + 2) == Ok::<
                (Option<Seq<PathSegmentView>>, int),
                ErrorView,
            >((superclass, after)));
            let none: Seq<ItemView> = seq![];
            lemma_reparse_items(input, after + 1, items, none);
            assert(none + items =~= items);
        },
        _ => {},
    }
}

/// Parsing the tokens of a canonical function, up to its `end`, gives the
/// function.
pub proof fn lemma_reparse_function(input: Lexed, at: int, item: ItemView)
    requires
        input.fault is None,
        item is Function,
        canonical_item(item, false),
        holds_at(input, at, item_tokens(item)),
    ensures
        parse_function(input, at) == Ok::<(ItemView, int), ErrorView>(
            (item, at + item_tokens(item).len() - 1),
        ),
        input.tokens[at] == TokenView::word("def"),
        input.tokens[at + item_tokens(item).len() - 1] == TokenView::EndOfLine,
{
    lemma_keywords_differ();
    let tokens = item_tokens(item);
    match item {
        ItemView::Function { name, statements } => {
            let head = seq![
                TokenView::word("def"),
                TokenView::Word(name),
                TokenView::EndOfLine,
            ];
            let body = statements_tokens(statements);
            let close = seq![TokenView::word("end"), TokenView::EndOfLine];
            let end = seq![TokenView::word("end")];
            let line = seq![TokenView::EndOfLine];
            assert(tokens == head + body + close);
            assert(close =~= end + line);
            lemma_holds_joined(input, at, head + body, close);
            lemma_holds_joined(input, at, head, body);
            lemma_holds_joined(input, at + 3 + body.len(), end, line);
            lemma_holds_joined(input, at + 3, body, end);
            assert(input.tokens[at] == head[0]);
            assert(input.tokens[at + 1] == head[1]);
            assert(input.tokens[at + 2] == head[2]);
            assert(input.tokens[at + 3 + body.len() + 1] == line[0]);
            let none: Seq<ExprView> = seq![];
            lemma_reparse_statements(input, at + 3, statements, none);
            assert(none + statements =~= statements);
        },
        _ => {},
    }
}

/// Parsing the tokens of a canonical item gives the item.
pub proof fn lemma_reparse_item(input: Lexed, at: int, item: ItemView, nested: bool)
    requires
        input.fault is None,
        canonical_item(item, nested),
        holds_at(input, at, item_tokens(item)),
    ensures
        parse_item(input, at) == Ok::<(ItemView, int), ErrorView>(
            (item, at + item_tokens(item).len()),
        ),
    decreases item, 1int,
{
    lemma_keywords_differ();
    let tokens = item_tokens(item);
    match item {
        ItemView::Module { name, items } => {
            lemma_reparse_module(input, at, item);
        },
        ItemView::Class { name, items, superclass } => {
            lemma_reparse_class(input, at, item);
        },
        ItemView::Function { name, statements } => {
            lemma_reparse_function(input, at, item);
        },
        ItemView::Stmt(expr) => {
            let body = expr_tokens(expr);
            let line = seq![TokenView::EndOfLine];
            assert(tokens == body + line);
            lemma_holds_joined(input, at, body, line);
            lemma_expr_tokens_start(expr);
            assert(input.tokens[at] == body[0]);
            assert(input.tokens[at + body.len()] == line[0]);
            lemma_reparse_expression(input, at, expr);
        },
    }
}

/// Parsing the tokens of a list of canonical items and the `end` behind
/// them gives the items.
pub proof fn lemma_reparse_items(
    input: Lexed,
    at: int,
    items: Seq<ItemView>,
    found: Seq<ItemView>,
)
    requires
        input.fault is None,
        forall|i: int| 0 <= i < items.len() ==> canonical_item(#[trigger] items[i], true),
        holds_at(input, at, items_tokens(items) + seq![TokenView::word("end")]),
    ensures
        items_until_end(input, at, found) == Ok::<
            (Seq<ItemView>, int),
            ErrorView,
        >((found + items, at + items_tokens(items).len() + 1)),
    decreases items, 2int,
{
    lemma_keywords_differ();
    let close = seq![TokenView::word("end")];
    let tokens = items_tokens(items);
    lemma_holds_joined(input, at, tokens, close);
    if items.len() == 0 {
        assert(input.tokens[at] == close[0]);
        assert(skip_lines(input, at) == at);
        assert(found + items =~= found);
    } else {
        let first = item_tokens(items[0]);
        let rest = items.drop_first();
        let others = items_tokens(rest);
        assert(tokens == first + others);
        lemma_item_tokens_start(items[0], true);
        lemma_holds_joined(input, at, first, others);
        assert(input.tokens[at] == first[0]);
        assert(skip_lines(input, at) == at);
        lemma_reparse_item(input, at, items[0], true);
        assert forall|i: int| 0 <= i < rest.len() implies canonical_item(#[trigger] rest[i], true) by {
            assert(rest[i] == items[i + 1]);
        }
        lemma_holds_joined(input, at + first.len(), others, close);
        lemma_reparse_items(input, at + first.len(), rest, found.push(items[0]));
        assert(found.push(items[0]) + rest =~= found + items);
    }
}

/// Parsing the tokens of a list of canonical items, with nothing but new
/// lines behind them, gives the items.
pub proof fn lemma_reparse_program(input: Lexed, at: int, items: Seq<ItemView>, found: Seq<ItemView>)
    requires
        input.fault is None,
        canonical_program(items),
        holds_at(input, at, items_tokens(items)),
        skip_lines(input, at + items_tokens(items).len()) == input.tokens.len(),
    ensures
        program_from(input, at, found) == Ok::<Seq<ItemView>, ErrorView>(
            found + items,
        ),
    decreases items.len(),
{
    lemma_keywords_differ();
    let tokens = items_tokens(items);
    if items.len() == 0 {
        assert(found + items =~= found);
    } else {
        let first = item_tokens(items[0]);
        let rest = items.drop_first();
        let others = items_tokens(rest);
        assert(tokens == first + others);
        lemma_item_tokens_start(items[0], false);
        lemma_holds_joined(input, at, first, others);
        assert(input.tokens[at] == first[0]);
        assert(skip_lines(input, at) == at);
        lemma_reparse_item(input, at, items[0], false);
        assert forall|i: int| 0 <= i < rest.len() implies canonical_item(
            #[trigger] rest[i],
            false,
        ) by {
            assert(rest[i] == items[i + 1]);
        }
        lemma_reparse_program(input, at + first.len(), rest, found.push(items[0]));
        assert(found.push(items[0]) + rest =~= found + items);
    }
}

/// The canonical tokens of a canonical program, with or without new lines
/// behind them, are parsed to that program.
pub proof fn lemma_canonical_tokens_parse_back(items: Seq<ItemView>, lines: nat)
    requires
        canonical_program(items),
    ensures
        parse_program(
            Lexed {
                tokens: items_tokens(items) + Seq::new(lines, |i: int| TokenView::EndOfLine),
                fault: None,
            },
        ) == Ok::<Seq<ItemView>, ErrorView>(items),
{
    let tail = Seq::new(lines, |i: int| TokenView::EndOfLine);
    let input = Lexed { tokens: items_tokens(items) + tail, fault: None };
    let n = items_tokens(items).len() as int;
    assert(holds_at(input, 0, items_tokens(items)));
    lemma_only_lines(input, n);
    let none: Seq<ItemView> = seq![];
    lemma_reparse_program(input, 0, items, none);
    assert(none + items =~= items);
}

/// Where nothing but new lines follow, skipping them leads to the end.
pub proof fn lemma_only_lines(input: Lexed, at: int)
    requires
        0 <= at <= input.tokens.len(),
        forall|i: int| at <= i < input.tokens.len() ==> input.tokens[i] == TokenView::EndOfLine,
    ensures
        skip_lines(input, at) == input.tokens.len(),
    decreases input.tokens.len() - at,
{
    if at < input.tokens.len() {
        lemma_only_lines(input, at + 1);
    }
}

/// Parsing is idempotent under canonical rendering: whatever program a
/// sequence of tokens is parsed to, the canonical tokens of that program
/// are parsed to the same program.
pub proof fn lemma_round_trip_tokens(input: Lexed)
    requires
        parse_program(input) is Ok,
    ensures
        parse_program(Lexed { tokens: items_tokens(parse_program(input)->Ok_0), fault: None })
            == parse_program(input),
{
    let items = parse_program(input)->Ok_0;
    lemma_parsed_program(input, 0, seq![]);
    lemma_canonical_tokens_parse_back(items, 0);
    assert(items_tokens(items) + Seq::new(0nat, |i: int| TokenView::EndOfLine) =~= items_tokens(
        items,
    ));
}

/// Parsing is idempotent under canonical rendering: whatever program a text
/// is parsed to, the canonical source text of that program is parsed to
/// the same program.
pub proof fn lemma_round_trip(text: Seq<char>)
    requires
        parse_program(lex(text)) is Ok,
    ensures
        parse_program(lex(source_of(parse_program(lex(text))->Ok_0))) == parse_program(lex(text)),
{
    let input = lex(text);
    let items = parse_program(input)->Ok_0;
    let good = in_input(input);
    lemma_parsed_program(input, 0, seq![]);
    lemma_lexed_tokens_lexable(text, 0);
    assert forall|token: TokenView| #[trigger] good(token) implies lexable(token) by {
        let i = choose|i: int| 0 <= i < input.tokens.len() && input.tokens[i] == token;
        assert(lexable(input.tokens[i]));
    }
    lemma_items_tokens_lexable(items, good);
    lemma_relex(items_tokens(items));
    lemma_canonical_tokens_parse_back(items, 1);
    assert(items_tokens(items) + Seq::new(1nat, |i: int| TokenView::EndOfLine) =~= items_tokens(
        items,
    ).push(TokenView::EndOfLine));
}

} // verus!
