use rubic::ast;
use rubic::parse::parser::Parser;
use rubic::parse::{Error, LexError, Token};

fn parse(s: &str) -> ast::Program {
    Parser::new(s.chars().collect()).parse().expect("failed to parse")
}

fn parse_error(s: &str) -> Error {
    Parser::new(s.chars().collect()).parse().expect_err("parsed")
}

fn unexpected(got: Token, expected: Vec<Token>) -> Error {
    Error::UnexpectedToken { got, expected }
}

fn word(s: &str) -> Token {
    Token::Word(s.to_owned())
}

fn segment(name: &str, separator: ast::PathSeparator) -> ast::PathSegment {
    ast::PathSegment { kind: ast::PathSegmentKind::new(name.to_owned()), separator }
}

fn path(name: &str) -> ast::Path {
    ast::Path { parts: vec![segment(name, ast::PathSeparator::Root)] }
}

fn call(name: &str, arguments: Vec<ast::Expr>) -> ast::Expr {
    ast::Expr::Call(ast::CallExpr {
        callee: path(name),
        arguments: arguments.into_iter().map(ast::Argument::Positional).collect(),
    })
}

fn integer(value: i64) -> ast::Expr {
    ast::Expr::IntegerLiteral(ast::IntegerLiteral { value })
}

fn string(value: &str) -> ast::Expr {
    ast::Expr::StringLiteral(ast::StringLiteral { value: value.to_owned() })
}

fn symbol(name: &str) -> ast::Expr {
    ast::Expr::Symbol(ast::SymbolExpr { name: name.to_owned() })
}

#[test]
fn can_parse_single_empty_class() {
    assert_eq!(parse("class Abc\nend"), ast::Program {
        items: vec![ast::Item::Class(ast::Class::new("Abc"))]
    });
}

#[test]
fn can_parse_multiple_empty_classes() {
    assert_eq!(parse("class Abc\nend\nclass Def\nend"), ast::Program {
        items: vec![ast::Item::Class(ast::Class::new("Abc")), ast::Item::Class(ast::Class::new("Def"))],
    });
}

#[test]
fn can_parse_classes_with_semicolons() {
    assert_eq!(parse("class Abc;end"), ast::Program {
        items: vec![ast::Item::Class(ast::Class::new("Abc"))],
    });
}

#[test]
fn can_parse_nested_classes() {
    assert_eq!(parse("class Abc; class Def; end; end"), ast::Program {
        items: vec![ast::Item::Class(ast::Class {
            name: "Abc".to_owned(),
            items: vec![ast::Item::Class(ast::Class::new("Def"))],
            superclass: None,
        })]
    });
}

#[test]
fn can_parse_single_empty_module() {
    assert_eq!(parse("module Abc\nend"), ast::Program {
        items: vec![ast::Item::Module(ast::Module::new("Abc"))]
    });
}

#[test]
fn can_parse_nested_modules() {
    assert_eq!(parse("module Abc; module Def; end; end"), ast::Program {
        items: vec![ast::Item::Module(ast::Module {
            name: "Abc".to_owned(),
            items: vec![ast::Item::Module(ast::Module::new("Def"))],
        })]
    });
}

#[test]
fn can_parse_simple_function() {
    assert_eq!(parse("def abc; end"), ast::Program {
        items: vec![ast::Item::Function(ast::Function {
            name: "abc".to_owned(),
            statements: vec![],
        })]
    });
}

#[test]
fn can_parse_path() {
    assert_eq!(parse("Abc::def.obt"), ast::Program {
        items: vec![ast::Item::Stmt(ast::Expr::Call(ast::CallExpr {
            callee: ast::Path {
                parts: vec![
                    ast::PathSegment {
                        kind: ast::PathSegmentKind::Constant(ast::Constant("Abc".to_owned())),
                        separator: ast::PathSeparator::Root,
                    },
                    ast::PathSegment {
                        kind: ast::PathSegmentKind::Identifier(ast::Identifier("def".to_owned())),
                        separator: ast::PathSeparator::DoubleColon,
                    },
                    ast::PathSegment {
                        kind: ast::PathSegmentKind::Identifier(ast::Identifier("obt".to_owned())),
                        separator: ast::PathSeparator::Dot,
                    },
                ],
            },
            arguments: Vec::new(),
        }))]
    });
}

#[test]
fn empty_input_is_an_empty_program() {
    assert_eq!(parse(""), ast::Program::new());
    assert_eq!(parse("\n\n  \n"), ast::Program { items: vec![] });
}

#[test]
fn can_parse_a_superclass() {
    assert_eq!(parse("class Abc < Foo::Bar\nend"), ast::Program {
        items: vec![ast::Item::Class(ast::Class {
            name: "Abc".to_owned(),
            items: vec![],
            superclass: Some(ast::Path {
                parts: vec![
                    ast::PathSegment {
                        kind: ast::PathSegmentKind::Constant(ast::Constant("Foo".to_owned())),
                        separator: ast::PathSeparator::Root,
                    },
                    ast::PathSegment {
                        kind: ast::PathSegmentKind::Constant(ast::Constant("Bar".to_owned())),
                        separator: ast::PathSeparator::DoubleColon,
                    },
                ],
            }),
        })]
    });
}

#[test]
fn a_word_in_upper_case_is_a_constant() {
    assert_eq!(ast::PathSegmentKind::new("Abc".to_owned()),
               ast::PathSegmentKind::Constant(ast::Constant("Abc".to_owned())));
    assert_eq!(ast::PathSegmentKind::new("abc".to_owned()),
               ast::PathSegmentKind::Identifier(ast::Identifier("abc".to_owned())));
    assert_eq!(ast::PathSegmentKind::new("aBC".to_owned()),
               ast::PathSegmentKind::Identifier(ast::Identifier("aBC".to_owned())));
    assert_eq!(ast::PathSegmentKind::new(String::new()),
               ast::PathSegmentKind::Identifier(ast::Identifier(String::new())));
}

#[test]
fn can_parse_an_assignment() {
    assert_eq!(parse("a = 1"), ast::Program {
        items: vec![ast::Item::Stmt(ast::Expr::Assignment(ast::AssignmentExpr {
            assignee: path("a"),
            value: Box::new(integer(1)),
        }))]
    });
}

#[test]
fn assignment_is_right_recursive() {
    assert_eq!(parse("a = b = \"c\""), ast::Program {
        items: vec![ast::Item::Stmt(ast::Expr::Assignment(ast::AssignmentExpr {
            assignee: path("a"),
            value: Box::new(ast::Expr::Assignment(ast::AssignmentExpr {
                assignee: path("b"),
                value: Box::new(string("c")),
            })),
        }))]
    });
}

#[test]
fn can_parse_arguments_in_parentheses() {
    assert_eq!(parse("foo(1, \"two\", :three)"), ast::Program {
        items: vec![ast::Item::Stmt(call("foo", vec![integer(1), string("two"), symbol("three")]))]
    });
    assert_eq!(parse("foo()"), ast::Program { items: vec![ast::Item::Stmt(call("foo", vec![]))] });
    assert_eq!(parse("foo(1,)"), ast::Program {
        items: vec![ast::Item::Stmt(call("foo", vec![integer(1)]))]
    });
    assert_eq!(parse("foo(\n1,\n2)"), ast::Program {
        items: vec![ast::Item::Stmt(call("foo", vec![integer(1), integer(2)]))]
    });
}

#[test]
fn can_parse_arguments_without_parentheses() {
    assert_eq!(parse("foo 1, 2"), ast::Program {
        items: vec![ast::Item::Stmt(call("foo", vec![integer(1), integer(2)]))]
    });
    assert_eq!(parse("foo bar"), ast::Program {
        items: vec![ast::Item::Stmt(call("foo", vec![call("bar", vec![])]))]
    });
    assert_eq!(parse("foo; bar"), ast::Program {
        items: vec![ast::Item::Stmt(call("foo", vec![])), ast::Item::Stmt(call("bar", vec![]))]
    });
}

#[test]
fn can_parse_nested_calls() {
    assert_eq!(parse("foo(bar(), baz(1))"), ast::Program {
        items: vec![ast::Item::Stmt(call("foo", vec![call("bar", vec![]),
                                                      call("baz", vec![integer(1)])]))]
    });
}

#[test]
fn can_parse_a_parenthesized_expression() {
    assert_eq!(parse("a = (1)"), ast::Program {
        items: vec![ast::Item::Stmt(ast::Expr::Assignment(ast::AssignmentExpr {
            assignee: path("a"),
            value: Box::new(ast::Expr::Paren(ast::ParenExpr { inner: Box::new(integer(1)) })),
        }))]
    });
    assert_eq!(parse("f ((\"x\"))"), ast::Program {
        items: vec![ast::Item::Stmt(call("f", vec![ast::Expr::Paren(ast::ParenExpr {
            inner: Box::new(string("x")),
        })]))]
    });
    assert_eq!(parse("f 1, ((2))"), ast::Program {
        items: vec![ast::Item::Stmt(call("f", vec![integer(1), ast::Expr::Paren(ast::ParenExpr {
            inner: Box::new(ast::Expr::Paren(ast::ParenExpr { inner: Box::new(integer(2)) })),
        })]))]
    });
}

#[test]
fn can_parse_symbols_and_pairs() {
    assert_eq!(parse("foo :a"), ast::Program {
        items: vec![ast::Item::Stmt(call("foo", vec![symbol("a")]))]
    });
    assert_eq!(parse("foo :a => 1, :b => :c"), ast::Program {
        items: vec![ast::Item::Stmt(call("foo", vec![
            ast::Expr::KeyValue(ast::KeyValueExpr { key: "a".to_owned(), value: Box::new(integer(1)) }),
            ast::Expr::KeyValue(ast::KeyValueExpr { key: "b".to_owned(), value: Box::new(symbol("c")) }),
        ]))]
    });
}

#[test]
fn can_parse_a_function_with_statements() {
    assert_eq!(parse("def abc\n  foo 1\n  x = \"y\"\n\nend\n"), ast::Program {
        items: vec![ast::Item::Function(ast::Function {
            name: "abc".to_owned(),
            statements: vec![
                call("foo", vec![integer(1)]),
                ast::Expr::Assignment(ast::AssignmentExpr {
                    assignee: path("x"),
                    value: Box::new(string("y")),
                }),
            ],
        })]
    });
}

#[test]
fn can_parse_a_class_with_members() {
    assert_eq!(parse("module M\n class C < M\n  def f\n  end\n  g 1\n end\nend"), ast::Program {
        items: vec![ast::Item::Module(ast::Module {
            name: "M".to_owned(),
            items: vec![ast::Item::Class(ast::Class {
                name: "C".to_owned(),
                items: vec![
                    ast::Item::Function(ast::Function { name: "f".to_owned(), statements: vec![] }),
                    ast::Item::Stmt(call("g", vec![integer(1)])),
                ],
                superclass: Some(ast::Path {
                    parts: vec![ast::PathSegment {
                        kind: ast::PathSegmentKind::Constant(ast::Constant("M".to_owned())),
                        separator: ast::PathSeparator::Root,
                    }],
                }),
            })],
        })]
    });
}

#[test]
fn an_item_needs_a_terminator() {
    assert_eq!(parse_error("class Abc; end )"),
               unexpected(Token::Symbol(")"), vec![word("terminator")]));
    assert_eq!(parse_error("a = 1 2"), unexpected(Token::Integer(2), vec![word("terminator")]));
}

#[test]
fn an_item_starts_with_a_word() {
    assert_eq!(parse_error("1"), unexpected(Token::Integer(1), vec![word("word")]));
    assert_eq!(parse_error("class 1"), unexpected(Token::Integer(1), vec![word("word")]));
    assert_eq!(parse_error("class\n"), unexpected(Token::EndOfLine, vec![word("word")]));
    assert_eq!(parse_error("a.1"), unexpected(Token::Integer(1), vec![word("word")]));
}

#[test]
fn a_declaration_needs_its_end() {
    assert_eq!(parse_error("class Abc"), unexpected(Token::EndOfFile, vec![word("end")]));
    assert_eq!(parse_error("module Abc\n foo\n"), unexpected(Token::EndOfFile, vec![word("end")]));
    assert_eq!(parse_error("def abc\n foo\n"), unexpected(Token::EndOfFile, vec![word("end")]));
}

#[test]
fn a_parameter_list_is_refused() {
    assert_eq!(parse_error("def abc(a)\nend"),
               unexpected(Token::Symbol("("), vec![word("terminator")]));
}

#[test]
fn a_parenthesis_needs_its_partner() {
    assert_eq!(parse_error("a = (1"), unexpected(Token::EndOfLine, vec![Token::Symbol(")")]));
    assert_eq!(parse_error("foo(1 2)"),
               unexpected(Token::Integer(2), vec![Token::Symbol(","), Token::Symbol(")")]));
    assert_eq!(parse_error("foo(1,"), unexpected(Token::EndOfFile, vec![Token::Symbol(")")]));
    assert_eq!(parse_error("foo(1\n)"),
               unexpected(Token::EndOfLine, vec![Token::Symbol(","), Token::Symbol(")")]));
}

#[test]
fn an_expression_is_expected() {
    assert_eq!(parse_error("a = ."), unexpected(Token::Symbol("."), vec![word("expression")]));
    assert_eq!(parse_error("a ="), unexpected(Token::EndOfFile, vec![]));
    assert_eq!(parse_error("foo(bar)"), unexpected(Token::Symbol(")"), vec![word("expression")]));
}

#[test]
fn a_lexical_error_is_reported_where_parsing_reaches_it() {
    assert_eq!(parse_error("class Abc; end\n#"), Error::Lexical(LexError::UnexpectedCharacter('#')));
    assert_eq!(parse_error("1 #"), unexpected(Token::Integer(1), vec![word("word")]));
    assert_eq!(parse_error("foo 99999999999999999999"),
               Error::Lexical(LexError::InvalidInteger("99999999999999999999".to_owned())));
}
