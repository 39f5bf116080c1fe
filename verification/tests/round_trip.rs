use rubic::ast;
use rubic::parse::parser::Parser;
use rubic::parse::render::{render, to_source};
use rubic::parse::tokenize::tokenize;
use rubic::parse::unparse::unparse;
use rubic::parse::Token;

fn parsed(s: &str) -> ast::Program {
    Parser::new(s.chars().collect()).parse().expect("failed to parse")
}

fn source(program: &ast::Program) -> String {
    to_source(program).into_iter().collect()
}

fn parses_back(s: &str) {
    let program = parsed(s);
    let text = to_source(&program);
    assert_eq!(Parser::new(text.clone()).parse(), Ok(parsed(s)));
    assert_eq!(rubic::parse::parser::parse(text.clone()), Ok(parsed(s)));
    assert_eq!(Parser::from_tokens(unparse(&program)).parse(), Ok(parsed(s)));
    let mut tokens = unparse(&program);
    tokens.push(Token::EndOfLine);
    assert_eq!(tokenize(text), Ok(tokens));
}

#[test]
fn canonical_tokens_of_a_class() {
    assert_eq!(unparse(&parsed("class Abc < Foo::Bar; end")), vec![
        Token::Word("class".to_owned()),
        Token::Word("Abc".to_owned()),
        Token::Symbol("<"),
        Token::Word("Foo".to_owned()),
        Token::Symbol("::"),
        Token::Word("Bar".to_owned()),
        Token::EndOfLine,
        Token::Word("end".to_owned()),
        Token::EndOfLine,
    ]);
}

#[test]
fn canonical_tokens_of_a_call() {
    assert_eq!(unparse(&parsed("a.b 1, :c => \"d\"")), vec![
        Token::Word("a".to_owned()),
        Token::Symbol("."),
        Token::Word("b".to_owned()),
        Token::Symbol("("),
        Token::Integer(1),
        Token::Symbol(","),
        Token::Symbol(":"),
        Token::Word("c".to_owned()),
        Token::Symbol("=>"),
        Token::String("d".to_owned()),
        Token::Symbol(")"),
        Token::EndOfLine,
    ]);
}

#[test]
fn canonical_source_of_a_program() {
    assert_eq!(source(&parsed("module M; class Abc<M; def f\n x = (7)\n g\n end; end; end")),
               "module M \nclass Abc < M \ndef f \nx = ( 7 ) \ng ( ) \nend \nend \nend \n");
    assert_eq!(source(&parsed("")), "");
    assert_eq!(source(&parsed("foo 007, 'a b'")), "foo ( 7 , \"a b\" ) \n");
}

#[test]
fn text_of_tokens() {
    let text: String = render(&vec![
        Token::Word("ab-c".to_owned()),
        Token::Symbol("=>"),
        Token::String("x y".to_owned()),
        Token::Integer(120),
        Token::Integer(0),
        Token::Integer(-45),
        Token::Integer(i64::MIN),
        Token::Integer(i64::MAX),
        Token::EndOfLine,
        Token::EndOfFile,
        Token::Symbol("."),
    ]).into_iter().collect();
    assert_eq!(text, "ab-c => \"x y\" 120 0 -45 -9223372036854775808 9223372036854775807 \n. ");
}

#[test]
fn declarations_parse_back() {
    parses_back("class Abc\nend");
    parses_back("class Abc; class Def; end; end");
    parses_back("module Abc; module Def; end; end");
    parses_back("def abc; end");
    parses_back("class Abc < Foo::Bar.baz\n\n\n def f\n\n  x\n  y 1\n end\n\nend\n\n");
    parses_back("class class; end; module def; end; def end; end");
}

#[test]
fn statements_parse_back() {
    parses_back("Abc::def.obt");
    parses_back("a = b = \"c\"");
    parses_back("foo(1, \"two\", :three)");
    parses_back("foo 1, 2");
    parses_back("foo bar");
    parses_back("foo(bar(), baz(1,))");
    parses_back("f :a, ((\"x\")), :k => (:v), :w => g(h(1), i())");
    parses_back("end\nend 1");
    parses_back("x = 'un\nclosed");
    parses_back("x = 9223372036854775807; y = 000");
    parses_back("caf\u{e9}.\u{4e16}\u{754c} = :\u{3b1}-1");
}

#[test]
fn function_bodies_parse_back() {
    parses_back("def f\n class\n module 1\n def()\n (1)\n \"s\"\n 2\n :s\n :k => v\nend");
    parses_back("module M\n def f\n  a = end\n end\nend");
}
