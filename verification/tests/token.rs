use rubic::ast;
use rubic::parse::expect::{one_of, something, specific, terminator, word};
use rubic::parse::parser::Parser;
use rubic::parse::{Error, LexError, Token};

fn unexpected(got: Token, expected: Vec<Token>) -> Error {
    Error::UnexpectedToken { got, expected }
}

#[test]
fn the_keywords_are_words() {
    assert_eq!(Token::class(), Token::Word("class".to_owned()));
    assert_eq!(Token::module(), Token::Word("module".to_owned()));
    assert_eq!(Token::def(), Token::Word("def".to_owned()));
    assert_eq!(Token::end(), Token::Word("end".to_owned()));
}

#[test]
fn the_operators_are_symbols() {
    assert_eq!(Token::left_paren(), Token::Symbol("("));
    assert_eq!(Token::right_paren(), Token::Symbol(")"));
    assert_eq!(Token::less_than(), Token::Symbol("<"));
    assert_eq!(Token::greater_than(), Token::Symbol(">"));
    assert_eq!(Token::colon(), Token::Symbol(":"));
    assert_eq!(Token::comma(), Token::Symbol(","));
    assert_eq!(Token::negate(), Token::Symbol("-"));
    assert_eq!(Token::rocket(), Token::Symbol("=>"));
    assert_eq!(Token::equals(), Token::Symbol("="));
}

#[test]
fn a_new_line_and_a_semicolon_are_terminators() {
    assert!(Token::EndOfLine.is_terminator());
    assert!(Token::Symbol(";").is_terminator());
    assert!(!Token::Symbol(":").is_terminator());
    assert!(!Token::EndOfFile.is_terminator());
    assert!(!Token::Word(";".to_owned()).is_terminator());
    assert!(!Token::String(";".to_owned()).is_terminator());
    assert!(!Token::Integer(0).is_terminator());
}

#[test]
fn tokens_are_compared_by_kind_and_value() {
    let tokens = vec![
        Token::Word("a".to_owned()),
        Token::Word("b".to_owned()),
        Token::Symbol("a"),
        Token::String("a".to_owned()),
        Token::Integer(1),
        Token::Integer(2),
        Token::EndOfLine,
        Token::EndOfFile,
    ];
    for (i, a) in tokens.iter().enumerate() {
        for (j, b) in tokens.iter().enumerate() {
            assert_eq!(a.same_as(b), i == j);
            assert_eq!(a == b, i == j);
        }
        assert_eq!(&a.clone(), a);
    }
    assert!(Token::Word("end".to_owned()).is_word("end"));
    assert!(!Token::Word("end".to_owned()).is_word("en"));
    assert!(!Token::Symbol("end").is_word("end"));
    assert!(Token::Symbol("::").is_symbol("::"));
    assert!(!Token::Symbol("::").is_symbol(":"));
    assert!(!Token::Word("::".to_owned()).is_symbol("::"));
}

#[test]
fn something_is_any_token() {
    assert_eq!(something(Some(Token::Integer(1))), Ok(Token::Integer(1)));
    assert_eq!(something(Some(Token::EndOfLine)), Ok(Token::EndOfLine));
    assert_eq!(something(None), Err(unexpected(Token::EndOfFile, vec![])));
}

#[test]
fn specific_is_one_token() {
    assert_eq!(specific(Some(Token::comma()), Token::comma()), Ok(Token::comma()));
    assert_eq!(specific(Some(Token::colon()), Token::comma()),
               Err(unexpected(Token::colon(), vec![Token::comma()])));
    assert_eq!(specific(None, Token::comma()),
               Err(unexpected(Token::EndOfFile, vec![Token::comma()])));
}

#[test]
fn word_is_the_text_of_a_word() {
    assert_eq!(word(Some(Token::Word("abc".to_owned()))), Ok("abc".to_owned()));
    assert_eq!(word(Some(Token::String("abc".to_owned()))),
               Err(unexpected(Token::String("abc".to_owned()), vec![Token::Word("word".to_owned())])));
    assert_eq!(word(None), Err(unexpected(Token::EndOfFile, vec![Token::Word("word".to_owned())])));
}

#[test]
fn one_of_is_a_token_of_the_list() {
    let list = [Token::comma(), Token::right_paren()];
    assert_eq!(one_of(Some(Token::right_paren()), &list), Ok(Token::right_paren()));
    assert_eq!(one_of(Some(Token::comma()), &list), Ok(Token::comma()));
    assert_eq!(one_of(Some(Token::Integer(1)), &list),
               Err(unexpected(Token::Integer(1), vec![Token::comma(), Token::right_paren()])));
    assert_eq!(one_of(None, &list),
               Err(unexpected(Token::EndOfFile, vec![Token::comma(), Token::right_paren()])));
    assert_eq!(one_of(Some(Token::comma()), &[]), Err(unexpected(Token::comma(), vec![])));
}

#[test]
fn terminator_is_the_end_of_an_item() {
    assert_eq!(terminator(None), Ok(()));
    assert_eq!(terminator(Some(Token::EndOfLine)), Ok(()));
    assert_eq!(terminator(Some(Token::Symbol(";"))), Ok(()));
    assert_eq!(terminator(Some(Token::Integer(1))),
               Err(unexpected(Token::Integer(1), vec![Token::Word("terminator".to_owned())])));
}

#[test]
fn errors_are_copied_whole() {
    let error = unexpected(Token::Word("a".to_owned()), vec![Token::comma()]);
    assert_eq!(error.clone(), error);
    let error = LexError::InvalidInteger("12x".to_owned());
    assert_eq!(error.clone(), error);
    assert_eq!(LexError::UnexpectedCharacter('?').clone(), LexError::UnexpectedCharacter('?'));
}

#[test]
fn a_path_is_constant_if_all_its_segments_are() {
    let program = Parser::new("a = Foo::Bar; b = Foo.bar; c = foo".chars().collect()).parse().unwrap();
    let constant: Vec<bool> = program
        .items
        .iter()
        .map(|item| match item {
            ast::Item::Stmt(ast::Expr::Assignment(e)) => match &*e.value {
                ast::Expr::Call(call) => call.callee.is_constant(),
                _ => panic!("no call"),
            },
            _ => panic!("no assignment"),
        })
        .collect();
    assert_eq!(constant, vec![true, false, false]);
    assert!(ast::Path { parts: vec![] }.is_constant());
    let kind = ast::PathSegmentKind::new("Foo".to_owned());
    assert!(kind.is_constant());
    assert_eq!(kind.name(), "Foo");
    let kind = ast::PathSegmentKind::new("foo".to_owned());
    assert!(!kind.is_constant());
    assert_eq!(kind.name(), "foo");
}

#[test]
fn syntax_trees_are_copied_whole() {
    let text = "module M\n class C < M\n  def f\n   a.b = g(1, :c => (\"d\"))\n  end\n  h\n end\nend";
    let program = Parser::new(text.chars().collect()).parse().unwrap();
    assert_eq!(program.clone(), program);
    assert_eq!(program.items[0].clone(), program.items[0]);
    match &program.items[0] {
        ast::Item::Module(module) => {
            assert_eq!(&module.clone(), module);
            match &module.items[0] {
                ast::Item::Class(class) => {
                    assert_eq!(&class.clone(), class);
                    assert_eq!(class.superclass.clone(), class.superclass);
                    match &class.items[0] {
                        ast::Item::Function(function) => {
                            assert_eq!(&function.clone(), function);
                            assert_eq!(function.statements[0].clone(), function.statements[0]);
                        }
                        _ => panic!("no function"),
                    }
                }
                _ => panic!("no class"),
            }
        }
        _ => panic!("no module"),
    }
    let argument = ast::Argument::Positional(ast::Expr::IntegerLiteral(ast::IntegerLiteral { value: 3 }));
    assert_eq!(argument.clone(), argument);
}
