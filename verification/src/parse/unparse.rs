//! From a syntax tree back to tokens.
//!
//! Every tree that the parser builds has one canonical sequence of tokens:
//! calls carry their arguments in parentheses, and every item and statement
//! is followed by a new line.
use vstd::prelude::*;
use crate::ast::{Argument, Expr, ExprView, Item, ItemView, Path, PathSegmentKindView,
                 PathSegmentView, PathSeparator, Program, item_views, lemma_call_view,
                 lemma_class_view, lemma_module_view};
use crate::ast::expr::{argument_views, expr_views};
use crate::parse::token::{Token, TokenView, views};

verus! {

/// The token that stands in front of a segment of a path.
pub open spec fn separator_tokens(separator: PathSeparator) -> Seq<TokenView> {
    match separator {
        PathSeparator::Root => seq![],
        PathSeparator::Dot => seq![TokenView::symbol(".")],
        PathSeparator::DoubleColon => seq![TokenView::symbol("::")],
    }
}

/// The tokens of a path: each segment's name behind its separator.
pub open spec fn path_tokens(path: Seq<PathSegmentView>) -> Seq<TokenView>
    decreases path.len(),
{
    if path.len() == 0 {
        seq![]
    } else {
        separator_tokens(path[0].separator) + seq![TokenView::Word(path[0].kind.name())]
            + path_tokens(path.drop_first())
    }
}

/// The tokens of an expression.
pub open spec fn expr_tokens(expr: ExprView) -> Seq<TokenView>
    decreases expr, 0int,
{
    match expr {
        ExprView::Assignment { assignee, value } => path_tokens(assignee) + seq![
            TokenView::symbol("="),
        ] + expr_tokens(*value),
        ExprView::Paren { inner } => seq![TokenView::symbol("(")] + expr_tokens(*inner) + seq![
            TokenView::symbol(")"),
        ],
        ExprView::Call { callee, arguments } => path_tokens(callee) + seq![TokenView::symbol("(")]
            + arguments_tokens(arguments) + seq![TokenView::symbol(")")],
        ExprView::StringLiteral { text } => seq![TokenView::String(text)],
        ExprView::IntegerLiteral { number } => seq![TokenView::Integer(number)],
        ExprView::Symbol { name } => seq![TokenView::symbol(":"), TokenView::Word(name)],
        ExprView::KeyValue { key, value } => seq![
            TokenView::symbol(":"),
            TokenView::Word(key),
            TokenView::symbol("=>"),
        ] + expr_tokens(*value),
        ExprView::Negate { inner } => seq![TokenView::symbol("-")] + expr_tokens(*inner),
    }
}

/// The tokens of a list of arguments: the arguments with a comma between
/// each two of them.
pub open spec fn arguments_tokens(arguments: Seq<ExprView>) -> Seq<TokenView>
    decreases arguments, 1int,
{
    if arguments.len() == 0 {
        seq![]
    } else {
        expr_tokens(arguments[0]) + if arguments.len() > 1 {
            seq![TokenView::symbol(",")]
        } else {
            seq![]
        } + arguments_tokens(arguments.drop_first())
    }
}

/// The tokens of the statements of a function, each followed by a new line.
pub open spec fn statements_tokens(statements: Seq<ExprView>) -> Seq<TokenView>
    decreases statements.len(),
{
    if statements.len() == 0 {
        seq![]
    } else {
        expr_tokens(statements[0]) + seq![TokenView::EndOfLine] + statements_tokens(
            statements.drop_first(),
        )
    }
}

/// The tokens of an item, the new line behind it among them.
pub open spec fn item_tokens(item: ItemView) -> Seq<TokenView>
    decreases item, 0int,
{
    match item {
        ItemView::Module { name, items } => seq![
            TokenView::word("module"),
            TokenView::Word(name),
            TokenView::EndOfLine,
        ] + items_tokens(items) + seq![TokenView::word("end"), TokenView::EndOfLine],
        ItemView::Class { name, items, superclass } => seq![
            TokenView::word("class"),
            TokenView::Word(name),
        ] + match superclass {
            Some(path) => seq![TokenView::symbol("<")] + path_tokens(path),
            None => seq![],
        } + seq![TokenView::EndOfLine] + items_tokens(items) + seq![
            TokenView::word("end"),
            TokenView::EndOfLine,
        ],
        ItemView::Function { name, statements } => seq![
            TokenView::word("def"),
            TokenView::Word(name),
            TokenView::EndOfLine,
        ] + statements_tokens(statements) + seq![TokenView::word("end"), TokenView::EndOfLine],
        ItemView::Stmt(expr) => expr_tokens(expr) + seq![TokenView::EndOfLine],
    }
}

/// The tokens of a list of items.
pub open spec fn items_tokens(items: Seq<ItemView>) -> Seq<TokenView>
    decreases items, 1int,
{
    if items.len() == 0 {
        seq![]
    } else {
        item_tokens(items[0]) + items_tokens(items.drop_first())
    }
}

/// Whether a path is one that the parser builds: it has a segment, only
/// its first segment stands at the root, and a segment is a constant
/// exactly if its name starts in upper case.
pub open spec fn canonical_path(path: Seq<PathSegmentView>) -> bool {
    &&& path.len() > 0
    &&& path[0].separator == PathSeparator::Root
    &&& forall|i: int| 0 < i < path.len() ==> (#[trigger] path[i]).separator != PathSeparator::Root
    &&& forall|i: int|
        0 <= i < path.len() ==> (#[trigger] path[i]).kind == PathSegmentKindView::of(
            path[i].kind.name(),
        )
}

/// Whether an expression is one that the parser builds.
pub open spec fn canonical_expr(expr: ExprView) -> bool
    decreases expr,
{
    match expr {
        ExprView::Assignment { assignee, value } => canonical_path(assignee) && canonical_expr(
            *value,
        ),
        ExprView::Paren { inner } => canonical_expr(*inner),
        ExprView::Call { callee, arguments } => canonical_path(callee) && forall|i: int|
            0 <= i < arguments.len() ==> canonical_expr(#[trigger] arguments[i]),
        ExprView::StringLiteral { text } => true,
        ExprView::IntegerLiteral { number } => true,
        ExprView::Symbol { name } => true,
        ExprView::KeyValue { key, value } => canonical_expr(*value),
        ExprView::Negate { inner } => false,
    }
}

/// The word that an expression starts with, if it starts with one.
pub open spec fn first_word(expr: ExprView) -> Option<Seq<char>> {
    match expr {
        ExprView::Assignment { assignee, value } => if assignee.len() > 0 {
            Some(assignee[0].kind.name())
        } else {
            None
        },
        ExprView::Call { callee, arguments } => if callee.len() > 0 {
            Some(callee[0].kind.name())
        } else {
            None
        },
        _ => None,
    }
}

/// Whether a statement is one that the parser builds inside a function: an
/// expression that does not start with the word `end`.
pub open spec fn canonical_statement(expr: ExprView) -> bool {
    canonical_expr(expr) && first_word(expr) != Some("end"@)
}

/// Whether an item is one that the parser builds, inside a class or module
/// if `nested` and at the top of a program if not. A statement starts with
/// a word that opens no declaration and, between `class` or `module` and
/// `end`, is not `end`.
pub open spec fn canonical_item(item: ItemView, nested: bool) -> bool
    decreases item,
{
    match item {
        ItemView::Module { name, items } => forall|i: int|
            0 <= i < items.len() ==> canonical_item(#[trigger] items[i], true),
        ItemView::Class { name, items, superclass } => {
            &&& superclass matches Some(path) ==> canonical_path(path)
            &&& forall|i: int| 0 <= i < items.len() ==> canonical_item(#[trigger] items[i], true)
        },
        ItemView::Function { name, statements } => forall|i: int|
            0 <= i < statements.len() ==> canonical_statement(#[trigger] statements[i]),
        ItemView::Stmt(expr) => {
            &&& canonical_expr(expr)
            &&& first_word(expr) matches Some(word) && word != "class"@ && word != "module"@
                && word != "def"@ && (nested ==> word != "end"@)
        },
    }
}

/// Whether every name of a path is a word that `good` accepts.
pub open spec fn path_made_of(path: Seq<PathSegmentView>, good: spec_fn(TokenView) -> bool) -> bool {
    forall|i: int| 0 <= i < path.len() ==> good(TokenView::Word((#[trigger] path[i]).kind.name()))
}

/// Whether every word, string and number of an expression is a token that
/// `good` accepts.
pub open spec fn expr_made_of(expr: ExprView, good: spec_fn(TokenView) -> bool) -> bool
    decreases expr,
{
    match expr {
        ExprView::Assignment { assignee, value } => path_made_of(assignee, good) && expr_made_of(
            *value,
            good,
        ),
        ExprView::Paren { inner } => expr_made_of(*inner, good),
        ExprView::Call { callee, arguments } => path_made_of(callee, good) && forall|i: int|
            0 <= i < arguments.len() ==> expr_made_of(#[trigger] arguments[i], good),
        ExprView::StringLiteral { text } => good(TokenView::String(text)),
        ExprView::IntegerLiteral { number } => good(TokenView::Integer(number)),
        ExprView::Symbol { name } => good(TokenView::Word(name)),
        ExprView::KeyValue { key, value } => good(TokenView::Word(key)) && expr_made_of(
            *value,
            good,
        ),
        ExprView::Negate { inner } => expr_made_of(*inner, good),
    }
}

/// Whether every word, string and number of an item is a token that `good`
/// accepts.
pub open spec fn item_made_of(item: ItemView, good: spec_fn(TokenView) -> bool) -> bool
    decreases item,
{
    match item {
        ItemView::Module { name, items } => good(TokenView::Word(name)) && forall|i: int|
            0 <= i < items.len() ==> item_made_of(#[trigger] items[i], good),
        ItemView::Class { name, items, superclass } => {
            &&& good(TokenView::Word(name))
            &&& superclass matches Some(path) ==> path_made_of(path, good)
            &&& forall|i: int| 0 <= i < items.len() ==> item_made_of(#[trigger] items[i], good)
        },
        ItemView::Function { name, statements } => good(TokenView::Word(name)) && forall|i: int|
            0 <= i < statements.len() ==> expr_made_of(#[trigger] statements[i], good),
        ItemView::Stmt(expr) => expr_made_of(expr, good),
    }
}

/// Whether a program is one that the parser builds.
pub open spec fn canonical_program(items: Seq<ItemView>) -> bool {
    forall|i: int| 0 <= i < items.len() ==> canonical_item(#[trigger] items[i], false)
}

/// Adds a token to the end of a list.
fn put(tokens: &mut Vec<Token>, token: Token)
    ensures
        views(final(tokens)@) == views(old(tokens)@) + seq![token@],
{
    tokens.push(token);
    assert(views(tokens@) =~= views(old(tokens)@) + seq![token@]);
}

/// Adds the tokens of a path to the end of a list.
fn path_into(path: &Path, tokens: &mut Vec<Token>)
    ensures
        views(final(tokens)@) == views(old(tokens)@) + path_tokens(path@),
{
    let ghost all = path@;
    let ghost start = views(tokens@);
    let mut i: usize = 0;
    assert(all.skip(0) =~= all);
    while i < path.parts.len()
        invariant
            i <= path.parts.len(),
            all == path@,
            views(tokens@) + path_tokens(all.skip(i as int)) == start + path_tokens(all),
        decreases path.parts.len() - i,
    {
        let ghost before = views(tokens@);
        let ghost rest = path_tokens(all.skip(i + 1));
        let segment = &path.parts[i];
        proof {
            assert(all.skip(i as int)[0] == segment@);
            assert(all.skip(i as int).drop_first() =~= all.skip(i + 1));
        }
        match segment.separator {
            PathSeparator::Root => {},
            PathSeparator::Dot => put(tokens, Token::Symbol(".")),
            PathSeparator::DoubleColon => put(tokens, Token::Symbol("::")),
        }
        put(tokens, Token::Word(segment.kind.name().clone()));
        proof {
            let mine = separator_tokens(segment@.separator) + seq![
                TokenView::Word(segment@.kind.name()),
            ];
            assert(views(tokens@) =~= before + mine);
            assert((before + mine) + rest =~= before + (mine + rest));
        }
        i += 1;
    }
    assert(path_tokens(all.skip(path.parts.len() as int)) =~= seq![]);
    assert(views(tokens@) + Seq::<TokenView>::empty() =~= views(tokens@));
}

/// Adds the tokens of an expression to the end of a list.
fn expr_into(expr: &Expr, tokens: &mut Vec<Token>)
    ensures
        views(final(tokens)@) == views(old(tokens)@) + expr_tokens(expr@),
    decreases expr, 0int,
{
    let ghost start = views(tokens@);
    match expr {
        Expr::Assignment(e) => {
            path_into(&e.assignee, tokens);
            put(tokens, Token::equals());
            expr_into(&e.value, tokens);
            assert(views(tokens@) =~= start + expr_tokens(expr@));
        },
        Expr::Paren(e) => {
            put(tokens, Token::left_paren());
            expr_into(&e.inner, tokens);
            put(tokens, Token::right_paren());
            assert(views(tokens@) =~= start + expr_tokens(expr@));
        },
        Expr::Call(e) => {
            proof {
                lemma_call_view(*e);
            }
            path_into(&e.callee, tokens);
            put(tokens, Token::left_paren());
            arguments_into(&e.arguments, tokens);
            put(tokens, Token::right_paren());
            assert(views(tokens@) =~= start + expr_tokens(expr@));
        },
        Expr::StringLiteral(e) => {
            put(tokens, Token::String(e.value.clone()));
        },
        Expr::IntegerLiteral(e) => {
            put(tokens, Token::Integer(e.value));
        },
        Expr::Symbol(e) => {
            put(tokens, Token::colon());
            put(tokens, Token::Word(e.name.clone()));
            assert(views(tokens@) =~= start + expr_tokens(expr@));
        },
        Expr::KeyValue(e) => {
            put(tokens, Token::colon());
            put(tokens, Token::Word(e.key.clone()));
            put(tokens, Token::rocket());
            expr_into(&e.value, tokens);
            assert(views(tokens@) =~= start + expr_tokens(expr@));
        },
        Expr::Negate(e) => {
            put(tokens, Token::negate());
            expr_into(&e.inner, tokens);
            assert(views(tokens@) =~= start + expr_tokens(expr@));
        },
    }
}

/// Adds the tokens of a list of arguments to the end of a list.
fn arguments_into(arguments: &Vec<Argument>, tokens: &mut Vec<Token>)
    ensures
        views(final(tokens)@) == views(old(tokens)@) + arguments_tokens(
            argument_views(arguments@),
        ),
    decreases arguments, 1int,
{
    let ghost all = argument_views(arguments@);
    let ghost start = views(tokens@);
    let mut i: usize = 0;
    assert(all.skip(0) =~= all);
    while i < arguments.len()
        invariant
            i <= arguments.len(),
            all == argument_views(arguments@),
            views(tokens@) + arguments_tokens(all.skip(i as int)) == start + arguments_tokens(all),
        decreases arguments.len() - i,
    {
        let ghost before = views(tokens@);
        let ghost rest = arguments_tokens(all.skip(i + 1));
        let ghost mine = expr_tokens(all[i as int]) + if i + 1 < arguments.len() {
            seq![TokenView::symbol(",")]
        } else {
            seq![]
        };
        proof {
            assert(all.skip(i as int)[0] == all[i as int]);
            assert(all.skip(i as int).drop_first() =~= all.skip(i + 1));
            assert(all.skip(i as int).len() == arguments.len() - i);
        }
        match &arguments[i] {
            Argument::Positional(value) => {
                expr_into(value, tokens);
            },
        }
        if i + 1 < arguments.len() {
            put(tokens, Token::comma());
        }
        proof {
            assert(views(tokens@) =~= before + mine);
            assert((before + mine) + rest =~= before + (mine + rest));
        }
        i += 1;
    }
    assert(arguments_tokens(all.skip(arguments.len() as int)) =~= seq![]);
    assert(views(tokens@) + Seq::<TokenView>::empty() =~= views(tokens@));
}

/// Adds the tokens of the statements of a function to the end of a list.
fn statements_into(statements: &Vec<Expr>, tokens: &mut Vec<Token>)
    ensures
        views(final(tokens)@) == views(old(tokens)@) + statements_tokens(expr_views(statements@)),
{
    let ghost all = expr_views(statements@);
    let ghost start = views(tokens@);
    let mut i: usize = 0;
    assert(all.skip(0) =~= all);
    while i < statements.len()
        invariant
            i <= statements.len(),
            all == expr_views(statements@),
            views(tokens@) + statements_tokens(all.skip(i as int)) == start + statements_tokens(
                all,
            ),
        decreases statements.len() - i,
    {
        let ghost before = views(tokens@);
        let ghost rest = statements_tokens(all.skip(i + 1));
        let ghost mine = expr_tokens(all[i as int]) + seq![TokenView::EndOfLine];
        proof {
            assert(all.skip(i as int)[0] == all[i as int]);
            assert(all.skip(i as int).drop_first() =~= all.skip(i + 1));
        }
        expr_into(&statements[i], tokens);
        put(tokens, Token::EndOfLine);
        proof {
            assert(views(tokens@) =~= before + mine);
            assert((before + mine) + rest =~= before + (mine + rest));
        }
        i += 1;
    }
    assert(statements_tokens(all.skip(statements.len() as int)) =~= seq![]);
    assert(views(tokens@) + Seq::<TokenView>::empty() =~= views(tokens@));
}

/// Adds the tokens of an item to the end of a list.
fn item_into(item: &Item, tokens: &mut Vec<Token>)
    ensures
        views(final(tokens)@) == views(old(tokens)@) + item_tokens(item@),
    decreases item, 0int,
{
    let ghost start = views(tokens@);
    match item {
        Item::Module(module) => {
            proof {
                lemma_module_view(*module);
            }
            put(tokens, Token::module());
            put(tokens, Token::Word(module.name.clone()));
            put(tokens, Token::EndOfLine);
            items_into(&module.items, tokens);
            put(tokens, Token::end());
            put(tokens, Token::EndOfLine);
            assert(views(tokens@) =~= start + item_tokens(item@));
        },
        Item::Class(class) => {
            proof {
                lemma_class_view(*class);
            }
            put(tokens, Token::class());
            put(tokens, Token::Word(class.name.clone()));
            match &class.superclass {
                Some(path) => {
                    put(tokens, Token::less_than());
                    path_into(path, tokens);
                },
                None => {},
            }
            put(tokens, Token::EndOfLine);
            items_into(&class.items, tokens);
            put(tokens, Token::end());
            put(tokens, Token::EndOfLine);
            assert(views(tokens@) =~= start + item_tokens(item@));
        },
        Item::Function(function) => {
            put(tokens, Token::def());
            put(tokens, Token::Word(function.name.clone()));
            put(tokens, Token::EndOfLine);
            statements_into(&function.statements, tokens);
            put(tokens, Token::end());
            put(tokens, Token::EndOfLine);
            assert(views(tokens@) =~= start + item_tokens(item@));
        },
        Item::Stmt(expr) => {
            expr_into(expr, tokens);
            put(tokens, Token::EndOfLine);
            assert(views(tokens@) =~= start + item_tokens(item@));
        },
    }
}

/// Adds the tokens of a list of items to the end of a list.
fn items_into(items: &Vec<Item>, tokens: &mut Vec<Token>)
    ensures
        views(final(tokens)@) == views(old(tokens)@) + items_tokens(item_views(items@)),
    decreases items, 1int,
{
    let ghost all = item_views(items@);
    let ghost start = views(tokens@);
    let mut i: usize = 0;
    assert(all.skip(0) =~= all);
    while i < items.len()
        invariant
            i <= items.len(),
            all == item_views(items@),
            views(tokens@) + items_tokens(all.skip(i as int)) == start + items_tokens(all),
        decreases items.len() - i,
    {
        let ghost before = views(tokens@);
        let ghost rest = items_tokens(all.skip(i + 1));
        let ghost mine = item_tokens(all[i as int]);
        proof {
            assert(all.skip(i as int)[0] == all[i as int]);
            assert(all.skip(i as int).drop_first() =~= all.skip(i + 1));
        }
        item_into(&items[i], tokens);
        proof {
            assert((before + mine) + rest =~= before + (mine + rest));
        }
        i += 1;
    }
    assert(items_tokens(all.skip(items.len() as int)) =~= seq![]);
    assert(views(tokens@) + Seq::<TokenView>::empty() =~= views(tokens@));
}

/// The canonical tokens of a program.
pub fn unparse(program: &Program) -> (tokens: Vec<Token>)
    ensures
        views(tokens@) == items_tokens(program@),
{
    let mut tokens: Vec<Token> = Vec::new();
    assert(views(tokens@) =~= Seq::<TokenView>::empty());
    items_into(&program.items, &mut tokens);
    assert(Seq::<TokenView>::empty() + items_tokens(program@) =~= items_tokens(program@));
    tokens
}

} // verus!
