//! The parser: tokens in, a syntax tree out.
//!
//! Every function here computes what the function of the same name in
//! `grammar` defines, at the parser's position, and leaves the parser
//! behind what it read.
use vstd::prelude::*;
use crate::ast::{Argument, AssignmentExpr, CallExpr, Class, Expr, ExprView, Function,
                 IntegerLiteral, Item, ItemView, KeyValueExpr, Module, ParenExpr, Path,
                 PathSegment, PathSegmentKind, PathSegmentView, PathSeparator, Program,
                 StringLiteral, SymbolExpr, item_views, lemma_call_view, lemma_class_view,
                 lemma_module_view};
use crate::ast::expr::{argument_views, expr_views};
use crate::parse::errors::{Error, ErrorView, LexError};
use crate::parse::expect::{one_of, option_view, something, specific, terminator, word};
use crate::parse::grammar;
use crate::parse::grammar::moved;
use crate::parse::token::{Token, TokenView, views};
use crate::parse::tokenize::{Lexed, Tokenizer, lex};

verus! {

/// A parser over the tokens of an input.
pub struct Parser {
    tokens: Vec<Token>,
    /// What the input broke off at, behind the last token.
    fault: Option<LexError>,
    pos: usize,
}

/// Parses a text: the program that `grammar::parse_program` finds in the
/// tokens of the text.
pub fn parse(input: Vec<char>) -> (program: Result<Program, Error>)
    ensures
        match grammar::parse_program(lex(input@)) {
            Ok(items) => program matches Ok(found) && found@ == items,
            Err(error) => program matches Err(found) && found@ == error,
        },
{
    Parser::new(input).parse()
}

/// Whether `token` is the symbol `text`.
fn holds_symbol(token: &Option<Token>, text: &str) -> (yes: bool)
    ensures
        yes == (option_view(*token) == Some(TokenView::symbol(text))),
{
    match token {
        Some(found) => found.is_symbol(text),
        None => false,
    }
}

/// Whether `token` is the word `text`.
fn holds_word(token: &Option<Token>, text: &str) -> (yes: bool)
    ensures
        yes == (option_view(*token) == Some(TokenView::word(text))),
{
    match token {
        Some(found) => found.is_word(text),
        None => false,
    }
}

impl Parser {
    #[verifier::type_invariant]
    spec fn in_bounds(self) -> bool {
        self.pos <= self.tokens.len()
    }

    /// The tokens that the parser reads.
    pub closed spec fn input(&self) -> Lexed {
        Lexed {
            tokens: views(self.tokens@),
            fault: match self.fault {
                Some(error) => Some(error@),
                None => None,
            },
        }
    }

    /// How many tokens have been read.
    pub closed spec fn position(&self) -> int {
        self.pos as int
    }

    /// Whether `result` and the parser's position are what `expected` says.
    pub open spec fn agrees<T: View>(
        &self,
        result: Result<T, Error>,
        expected: Result<(T::V, int), ErrorView>,
    ) -> bool {
        match expected {
            Ok((value, after)) => result matches Ok(found) && found@ == value && self.position()
                == after,
            Err(error) => result matches Err(found) && found@ == error,
        }
    }

    /// Creates a new parser, at the first token of `input`.
    pub fn new(input: Vec<char>) -> (parser: Self)
        ensures
            parser.input() == lex(input@),
            parser.position() == 0,
    {
        let (tokens, fault) = Tokenizer::new(input).run();
        Parser { tokens, fault, pos: 0 }
    }

    /// Creates a new parser, at the first of `tokens`.
    pub fn from_tokens(tokens: Vec<Token>) -> (parser: Self)
        ensures
            parser.input() == (Lexed { tokens: views(tokens@), fault: None }),
            parser.position() == 0,
    {
        Parser { tokens, fault: None, pos: 0 }
    }

    /// The token at the current position.
    fn peek(&self) -> (token: Result<Option<Token>, Error>)
        ensures
            0 <= self.position() <= self.input().tokens.len(),
            match grammar::peek(self.input(), self.position()) {
                Ok(expected) => token matches Ok(found) && option_view(found) == expected,
                Err(error) => token matches Err(found) && found@ == error,
            },
    {
        proof {
            use_type_invariant(self);
        }
        if self.pos < self.tokens.len() {
            Ok(Some(self.tokens[self.pos].clone()))
        } else {
            match &self.fault {
                Some(error) => Err(Error::Lexical(error.clone())),
                None => Ok(None),
            }
        }
    }

    /// Steps over the token at the current position, if there is one.
    fn eat(&mut self)
        ensures
            final(self).input() == old(self).input(),
            0 <= old(self).position() <= old(self).input().tokens.len(),
            final(self).position() == if old(self).position() < old(self).input().tokens.len() {
                old(self).position() + 1
            } else {
                old(self).position()
            },
    {
        proof {
            use_type_invariant(&*self);
        }
        if self.pos < self.tokens.len() {
            self.pos += 1;
        }
    }

    /// The token at the current position, which is stepped over.
    fn next(&mut self) -> (token: Result<Option<Token>, Error>)
        ensures
            final(self).input() == old(self).input(),
            0 <= old(self).position() <= old(self).input().tokens.len(),
            match grammar::peek(old(self).input(), old(self).position()) {
                Ok(expected) => {
                    &&& token matches Ok(found)
                    &&& option_view(found) == expected
                    &&& final(self).position() == grammar::behind(expected, old(self).position())
                },
                Err(error) => token matches Err(found) && found@ == error,
            },
    {
        let token = self.peek()?;
        self.eat();
        Ok(token)
    }

    /// Checks if the end of the input has been reached.
    fn is_eof(&self) -> (end: Result<bool, Error>)
        ensures
            match grammar::peek(self.input(), self.position()) {
                Ok(token) => end == Ok::<bool, Error>(
                    token is None || token == Some(TokenView::EndOfFile),
                ),
                Err(error) => end matches Err(found) && found@ == error,
            },
    {
        match self.peek()? {
            Some(Token::EndOfFile) => Ok(true),
            Some(_) => Ok(false),
            None => Ok(true),
        }
    }

    /// Steps over new lines.
    fn eat_whitespace(&mut self)
        ensures
            final(self).input() == old(self).input(),
            final(self).position() == grammar::skip_lines(old(self).input(), old(self).position()),
            0 <= old(self).position() <= final(self).position() <= old(self).input().tokens.len(),
    {
        proof {
            use_type_invariant(&*self);
        }
        while self.pos < self.tokens.len() && self.tokens[self.pos].same_as(&Token::EndOfLine)
            invariant
                self.tokens == old(self).tokens,
                self.fault == old(self).fault,
                old(self).pos <= self.pos <= self.tokens.len(),
                grammar::skip_lines(old(self).input(), old(self).pos as int) == grammar::skip_lines(
                    old(self).input(),
                    self.pos as int,
                ),
            decreases self.tokens.len() - self.pos,
        {
            self.pos += 1;
        }
    }

    /// Parses a path.
    fn parse_path(&mut self) -> (path: Result<Path, Error>)
        ensures
            final(self).input() == old(self).input(),
            final(self).agrees(path, grammar::parse_path(old(self).input(), old(self).position())),
            path is Ok ==> moved(old(self).input(), old(self).position(), final(self).position()),
    {
        let mut segments: Vec<PathSegment> = Vec::new();
        let mut last_separator = PathSeparator::Root;
        let ghost input = self.input();
        let ghost start = self.position();
        let mut path = Path { parts: segments };
        proof {
            use_type_invariant(&*self);
            assert(path@ =~= Seq::<PathSegmentView>::empty());
        }
        loop
            invariant
                self.input() == input,
                input == old(self).input(),
                start == old(self).position(),
                start <= self.position() <= input.tokens.len(),
                path@.len() > 0 ==> start < self.position(),
                grammar::parse_path(input, start) == grammar::path_from(
                    input,
                    self.position(),
                    last_separator,
                    path@,
                ),
            decreases input.tokens.len() - self.position(),
        {
            let ghost before = path@;
            // Read the next word and push it to the list.
            let name = word(self.next()?)?;
            path.parts.push(
                PathSegment { separator: last_separator, kind: PathSegmentKind::new(name) },
            );
            assert(path@ =~= before.push(path.parts@.last()@));
            let next = self.peek()?;
            if holds_symbol(&next, "::") {
                last_separator = PathSeparator::DoubleColon;
                self.eat();
            } else if holds_symbol(&next, ".") {
                last_separator = PathSeparator::Dot;
                self.eat();
            } else {
                // We've finished parsing.
                return Ok(path);
            }
        }
    }

    /// Parses an expression.
    fn parse_expression(&mut self) -> (expr: Result<Expr, Error>)
        ensures
            final(self).input() == old(self).input(),
            final(self).agrees(
                expr,
                grammar::parse_expression(old(self).input(), old(self).position()),
            ),
            expr is Ok ==> moved(old(self).input(), old(self).position(), final(self).position()),
        decreases old(self).tokens.len() - old(self).pos, 1int,
    {
        self.eat_whitespace();
        let token = something(self.peek()?)?;
        match token {
            Token::Word(_) => {
                let path = self.parse_path()?;
                let next = self.peek()?;
                // Check for assignment.
                if holds_symbol(&next, "=") {
                    self.eat();
                    let value = self.parse_expression()?;
                    Ok(Expr::Assignment(AssignmentExpr { assignee: path, value: Box::new(value) }))
                } else {
                    // Regular method call.
                    let arguments = self.parse_arguments()?;
                    let call = CallExpr { callee: path, arguments };
                    proof {
                        lemma_call_view(call);
                    }
                    Ok(Expr::Call(call))
                }
            },
            Token::String(value) => {
                self.eat();
                Ok(Expr::StringLiteral(StringLiteral { value }))
            },
            Token::Integer(value) => {
                self.eat();
                Ok(Expr::IntegerLiteral(IntegerLiteral { value }))
            },
            other => {
                if other.is_symbol("(") {
                    self.parse_paren_expression()
                } else if other.is_symbol(":") {
                    self.parse_expr_starting_with_colon()
                } else {
                    let mut expected: Vec<Token> = Vec::new();
                    expected.push(Token::Word("expression".to_owned()));
                    assert(views(expected@) =~= seq![TokenView::word("expression")]);
                    Err(Error::UnexpectedToken { got: other, expected })
                }
            },
        }
    }

    /// Parses the expression in parentheses that starts at the current
    /// position.
    fn parse_paren_expression(&mut self) -> (expr: Result<Expr, Error>)
        requires
            grammar::peek(old(self).input(), old(self).position()) == Ok::<
                Option<TokenView>,
                ErrorView,
            >(Some(TokenView::symbol("("))),
        ensures
            final(self).input() == old(self).input(),
            final(self).agrees(
                expr,
                grammar::parse_expression(old(self).input(), old(self).position()),
            ),
            expr is Ok ==> moved(old(self).input(), old(self).position(), final(self).position()),
        decreases old(self).tokens.len() - old(self).pos, 0int,
    {
        proof {
            use_type_invariant(&*self);
        }
        self.eat();
        let inner = self.parse_expression()?;
        let _ = specific(self.next()?, Token::right_paren())?;
        Ok(Expr::Paren(ParenExpr { inner: Box::new(inner) }))
    }

    /// Parses the symbol or the pair of key and value that starts at the
    /// current position.
    fn parse_expr_starting_with_colon(&mut self) -> (expr: Result<Expr, Error>)
        requires
            grammar::peek(old(self).input(), old(self).position()) == Ok::<
                Option<TokenView>,
                ErrorView,
            >(Some(TokenView::symbol(":"))),
        ensures
            final(self).input() == old(self).input(),
            final(self).agrees(
                expr,
                grammar::parse_expression(old(self).input(), old(self).position()),
            ),
            expr is Ok ==> moved(old(self).input(), old(self).position(), final(self).position()),
        decreases old(self).tokens.len() - old(self).pos, 0int,
    {
        proof {
            use_type_invariant(&*self);
            reveal_strlit(":");
            reveal_strlit("(");
            assert(":"@[0] != "("@[0]);
        }
        self.eat();
        let name = word(self.next()?)?;
        let next = self.peek()?;
        if holds_symbol(&next, "=>") {
            self.eat();
            let value = self.parse_expression()?;
            Ok(Expr::KeyValue(KeyValueExpr { key: name, value: Box::new(value) }))
        } else {
            Ok(Expr::Symbol(SymbolExpr { name }))
        }
    }

    /// Parses the arguments of a call.
    fn parse_arguments(&mut self) -> (arguments: Result<Vec<Argument>, Error>)
        ensures
            final(self).input() == old(self).input(),
            match grammar::parse_arguments(old(self).input(), old(self).position()) {
                Ok((expected, after)) => {
                    &&& arguments matches Ok(found)
                    &&& argument_views(found@) == expected
                    &&& final(self).position() == after
                    &&& old(self).position() <= after <= old(self).input().tokens.len()
                },
                Err(error) => arguments matches Err(found) && found@ == error,
            },
        decreases old(self).tokens.len() - old(self).pos, 4int,
    {
        let token = self.peek()?;
        if holds_symbol(&token, "(") {
            self.parse_arguments_with_parens()
        } else {
            self.parse_arguments_without_parens()
        }
    }

    fn parse_arguments_with_parens(&mut self) -> (arguments: Result<Vec<Argument>, Error>)
        requires
            grammar::peek(old(self).input(), old(self).position()) == Ok::<
                Option<TokenView>,
                ErrorView,
            >(Some(TokenView::symbol("("))),
        ensures
            final(self).input() == old(self).input(),
            match grammar::parse_arguments(old(self).input(), old(self).position()) {
                Ok((expected, after)) => {
                    &&& arguments matches Ok(found)
                    &&& argument_views(found@) == expected
                    &&& final(self).position() == after
                    &&& old(self).position() <= after <= old(self).input().tokens.len()
                },
                Err(error) => arguments matches Err(found) && found@ == error,
            },
        decreases old(self).tokens.len() - old(self).pos, 3int,
    {
        let ghost input = self.input();
        let ghost start = self.position();
        proof {
            use_type_invariant(&*self);
        }
        self.eat();
        let mut arguments: Vec<Argument> = Vec::new();
        let mut whitelist: Vec<Token> = Vec::new();
        whitelist.push(Token::comma());
        whitelist.push(Token::right_paren());
        assert(views(whitelist@) =~= seq![TokenView::symbol(","), TokenView::symbol(")")]);
        assert(argument_views(arguments@) =~= Seq::<ExprView>::empty());
        loop
            invariant
                self.input() == input,
                input == old(self).input(),
                start == old(self).position(),
                start < self.position() <= input.tokens.len(),
                self.tokens.len() == old(self).tokens.len(),
                views(whitelist@) == seq![TokenView::symbol(","), TokenView::symbol(")")],
                grammar::parse_arguments(input, start) == grammar::arguments_in_parens(
                    input,
                    self.position(),
                    argument_views(arguments@),
                ),
            decreases input.tokens.len() - self.position(),
        {
            self.eat_whitespace();
            let token = self.peek()?;
            if token.is_none() {
                let mut expected: Vec<Token> = Vec::new();
                expected.push(Token::right_paren());
                assert(views(expected@) =~= seq![TokenView::symbol(")")]);
                return Err(Error::UnexpectedToken { got: Token::EndOfFile, expected });
            }
            if holds_symbol(&token, ")") {
                self.eat();
                return Ok(arguments);
            }
            let ghost before = argument_views(arguments@);
            let argument = self.parse_argument()?;
            arguments.push(argument);
            assert(argument_views(arguments@) =~= before.push(argument@));
            let separator = one_of(self.peek()?, whitelist.as_slice())?;
            if separator.is_symbol(",") {
                self.eat();
            }
        }
    }

    fn parse_arguments_without_parens(&mut self) -> (arguments: Result<Vec<Argument>, Error>)
        requires
            grammar::peek(old(self).input(), old(self).position()) matches Ok(token) && token
                != Some(TokenView::symbol("(")),
        ensures
            final(self).input() == old(self).input(),
            match grammar::parse_arguments(old(self).input(), old(self).position()) {
                Ok((expected, after)) => {
                    &&& arguments matches Ok(found)
                    &&& argument_views(found@) == expected
                    &&& final(self).position() == after
                    &&& old(self).position() <= after <= old(self).input().tokens.len()
                },
                Err(error) => arguments matches Err(found) && found@ == error,
            },
        decreases old(self).tokens.len() - old(self).pos, 3int,
    {
        let ghost input = self.input();
        let ghost start = self.position();
        let mut arguments: Vec<Argument> = Vec::new();
        assert(argument_views(arguments@) =~= Seq::<ExprView>::empty());
        let ends = match self.peek()? {
            None => true,
            Some(token) => token.is_terminator(),
        };
        if ends {
            return Ok(arguments);
        }
        loop
            invariant
                self.input() == input,
                input == old(self).input(),
                start == old(self).position(),
                start <= self.position() <= input.tokens.len(),
                self.tokens.len() == old(self).tokens.len(),
                grammar::parse_arguments(input, start) == grammar::arguments_bare(
                    input,
                    self.position(),
                    argument_views(arguments@),
                ),
            decreases input.tokens.len() - self.position(),
        {
            let ghost before = argument_views(arguments@);
            let argument = self.parse_argument()?;
            arguments.push(argument);
            assert(argument_views(arguments@) =~= before.push(argument@));
            let next = self.peek()?;
            if holds_symbol(&next, ",") {
                self.eat();
            } else {
                return Ok(arguments);
            }
        }
    }

    fn parse_argument(&mut self) -> (argument: Result<Argument, Error>)
        ensures
            final(self).input() == old(self).input(),
            final(self).agrees(
                argument,
                grammar::parse_expression(old(self).input(), old(self).position()),
            ),
            argument is Ok ==> moved(
                old(self).input(),
                old(self).position(),
                final(self).position(),
            ),
        decreases old(self).tokens.len() - old(self).pos, 2int,
    {
        let value = self.parse_expression()?;
        Ok(Argument::Positional(value))
    }

    /// Parses the program.
    pub fn parse(self) -> (program: Result<Program, Error>)
        ensures
            match grammar::program_from(self.input(), self.position(), seq![]) {
                Ok(items) => program matches Ok(found) && found@ == items,
                Err(error) => program matches Err(found) && found@ == error,
            },
    {
        let ghost input = self.input();
        let ghost start = self.position();
        let mut parser = self;
        let mut items: Vec<Item> = Vec::new();
        proof {
            use_type_invariant(&parser);
            assert(item_views(items@) =~= Seq::<ItemView>::empty());
        }
        loop
            invariant
                input == self.input(),
                start == self.position(),
                parser.input() == input,
                0 <= parser.position() <= input.tokens.len(),
                grammar::program_from(input, start, seq![]) == grammar::program_from(
                    input,
                    parser.position(),
                    item_views(items@),
                ),
            decreases input.tokens.len() - parser.position(),
        {
            parser.eat_whitespace();
            if parser.is_eof()? {
                return Ok(Program { items });
            }
            let ghost before = item_views(items@);
            let item = parser.parse_item()?;
            items.push(item);
            assert(item_views(items@) =~= before.push(item@));
        }
    }

    /// Parses an item and the terminator behind it.
    fn parse_item(&mut self) -> (item: Result<Item, Error>)
        ensures
            final(self).input() == old(self).input(),
            final(self).agrees(item, grammar::parse_item(old(self).input(), old(self).position())),
            item is Ok ==> moved(old(self).input(), old(self).position(), final(self).position()),
        decreases old(self).tokens.len() - old(self).pos, 2int,
    {
        let first = Some(Token::Word(word(self.peek()?)?));
        let item = if holds_word(&first, "class") {
            let class = self.parse_class()?;
            proof {
                lemma_class_view(class);
            }
            Item::Class(class)
        } else if holds_word(&first, "module") {
            let module = self.parse_module()?;
            proof {
                lemma_module_view(module);
            }
            Item::Module(module)
        } else if holds_word(&first, "def") {
            Item::Function(self.parse_function()?)
        } else {
            Item::Stmt(self.parse_statement()?)
        };
        terminator(self.next()?)?;
        Ok(item)
    }

    /// Parses a class definition.
    fn parse_class(&mut self) -> (class: Result<Class, Error>)
        requires
            grammar::peek(old(self).input(), old(self).position()) == Ok::<
                Option<TokenView>,
                ErrorView,
            >(Some(TokenView::word("class"))),
        ensures
            final(self).input() == old(self).input(),
            final(self).agrees(class, grammar::parse_class(old(self).input(), old(self).position())),
            class is Ok ==> moved(old(self).input(), old(self).position(), final(self).position()),
        decreases old(self).tokens.len() - old(self).pos, 1int,
    {
        proof {
            use_type_invariant(&*self);
        }
        self.eat();
        let name = word(self.next()?)?;
        // Check if we have a superclass specified.
        let next = self.peek()?;
        let superclass = if holds_symbol(&next, "<") {
            self.eat();
            Some(self.parse_path()?)
        } else {
            None
        };
        terminator(self.next()?)?;
        let items = self.parse_items_until_end()?;
        Ok(Class { name, items, superclass })
    }

    /// Parses a module definition.
    fn parse_module(&mut self) -> (module: Result<Module, Error>)
        requires
            grammar::peek(old(self).input(), old(self).position()) == Ok::<
                Option<TokenView>,
                ErrorView,
            >(Some(TokenView::word("module"))),
        ensures
            final(self).input() == old(self).input(),
            final(self).agrees(
                module,
                grammar::parse_module(old(self).input(), old(self).position()),
            ),
            module is Ok ==> moved(old(self).input(), old(self).position(), final(self).position()),
        decreases old(self).tokens.len() - old(self).pos, 1int,
    {
        proof {
            use_type_invariant(&*self);
        }
        self.eat();
        let name = word(self.next()?)?;
        terminator(self.next()?)?;
        let items = self.parse_items_until_end()?;
        Ok(Module { name, items })
    }

    /// Parses a function.
    fn parse_function(&mut self) -> (function: Result<Function, Error>)
        requires
            grammar::peek(old(self).input(), old(self).position()) == Ok::<
                Option<TokenView>,
                ErrorView,
            >(Some(TokenView::word("def"))),
        ensures
            final(self).input() == old(self).input(),
            final(self).agrees(
                function,
                grammar::parse_function(old(self).input(), old(self).position()),
            ),
            function is Ok ==> moved(
                old(self).input(),
                old(self).position(),
                final(self).position(),
            ),
    {
        proof {
            use_type_invariant(&*self);
        }
        self.eat();
        let name = word(self.next()?)?;
        self.parse_function_parameters()?;
        // Expect new line or semicolon after parameters.
        terminator(self.next()?)?;
        let statements = self.parse_statements_until_end()?;
        Ok(Function { name, statements })
    }

    /// Looks at what follows the name of a function. Something has to
    /// follow; a list of parameters is refused by the test for a terminator
    /// that comes next.
    fn parse_function_parameters(&self) -> (parameters: Result<(), Error>)
        ensures
            match grammar::peek(self.input(), self.position()) {
                Ok(token) => match crate::parse::expect::spec_something(token) {
                    Ok(_) => parameters is Ok,
                    Err(error) => parameters matches Err(found) && found@ == error,
                },
                Err(error) => parameters matches Err(found) && found@ == error,
            },
    {
        let _ = something(self.peek()?)?;
        Ok(())
    }

    /// Parses a statement.
    fn parse_statement(&mut self) -> (statement: Result<Expr, Error>)
        ensures
            final(self).input() == old(self).input(),
            final(self).agrees(
                statement,
                grammar::parse_expression(old(self).input(), old(self).position()),
            ),
            statement is Ok ==> moved(
                old(self).input(),
                old(self).position(),
                final(self).position(),
            ),
    {
        self.parse_expression()
    }

    /// Parses the items of a class or module, and the `end` behind them.
    fn parse_items_until_end(&mut self) -> (items: Result<Vec<Item>, Error>)
        ensures
            final(self).input() == old(self).input(),
            match grammar::items_until_end(old(self).input(), old(self).position(), seq![]) {
                Ok((expected, after)) => {
                    &&& items matches Ok(found)
                    &&& item_views(found@) == expected
                    &&& final(self).position() == after
                    &&& moved(old(self).input(), old(self).position(), after)
                },
                Err(error) => items matches Err(found) && found@ == error,
            },
        decreases old(self).tokens.len() - old(self).pos, 3int,
    {
        let ghost input = self.input();
        let ghost start = self.position();
        let mut items: Vec<Item> = Vec::new();
        proof {
            use_type_invariant(&*self);
            assert(item_views(items@) =~= Seq::<ItemView>::empty());
        }
        loop
            invariant
                self.input() == input,
                input == old(self).input(),
                start == old(self).position(),
                start <= self.position() <= input.tokens.len(),
                self.tokens.len() == old(self).tokens.len(),
                grammar::items_until_end(input, start, seq![]) == grammar::items_until_end(
                    input,
                    self.position(),
                    item_views(items@),
                ),
            decreases input.tokens.len() - self.position(),
        {
            self.eat_whitespace();
            let token = self.peek()?;
            if token.is_none() {
                let mut expected: Vec<Token> = Vec::new();
                expected.push(Token::end());
                assert(views(expected@) =~= seq![TokenView::word("end")]);
                return Err(Error::UnexpectedToken { got: Token::EndOfFile, expected });
            }
            if holds_word(&token, "end") {
                self.eat();
                return Ok(items);
            }
            let ghost before = item_views(items@);
            let item = self.parse_item()?;
            items.push(item);
            assert(item_views(items@) =~= before.push(item@));
        }
    }

    /// Parses the statements of a function, and the `end` behind them.
    fn parse_statements_until_end(&mut self) -> (statements: Result<Vec<Expr>, Error>)
        ensures
            final(self).input() == old(self).input(),
            match grammar::statements_until_end(old(self).input(), old(self).position(), seq![]) {
                Ok((expected, after)) => {
                    &&& statements matches Ok(found)
                    &&& expr_views(found@) == expected
                    &&& final(self).position() == after
                    &&& moved(old(self).input(), old(self).position(), after)
                },
                Err(error) => statements matches Err(found) && found@ == error,
            },
    {
        let ghost input = self.input();
        let ghost start = self.position();
        let mut statements: Vec<Expr> = Vec::new();
        proof {
            use_type_invariant(&*self);
            assert(expr_views(statements@) =~= Seq::<ExprView>::empty());
        }
        loop
            invariant
                self.input() == input,
                input == old(self).input(),
                start == old(self).position(),
                start <= self.position() <= input.tokens.len(),
                grammar::statements_until_end(input, start, seq![])
                    == grammar::statements_until_end(
                    input,
                    self.position(),
                    expr_views(statements@),
                ),
            decreases input.tokens.len() - self.position(),
        {
            self.eat_whitespace();
            let token = self.peek()?;
            if token.is_none() {
                let mut expected: Vec<Token> = Vec::new();
                expected.push(Token::end());
                assert(views(expected@) =~= seq![TokenView::word("end")]);
                return Err(Error::UnexpectedToken { got: Token::EndOfFile, expected });
            }
            if holds_word(&token, "end") {
                self.eat();
                return Ok(statements);
            }
            let ghost before = expr_views(statements@);
            let statement = self.parse_statement()?;
            statements.push(statement);
            assert(expr_views(statements@) =~= before.push(statement@));
        }
    }
}

} // verus!
