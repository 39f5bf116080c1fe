use rubic::ast;
use rubic::ir;
use rubic::ir::build::{from_ast, Context, Error, ErrorKind, Scope, ScopeContext};
use rubic::parse::parser::Parser;

fn constant(name: &str, separator: ast::PathSeparator) -> ast::PathSegment {
    ast::PathSegment {
        kind: ast::PathSegmentKind::Constant(ast::Constant(name.to_owned())),
        separator,
    }
}

fn constant_path(names: &[&str]) -> ast::Path {
    ast::Path {
        parts: names
            .iter()
            .enumerate()
            .map(|(i, name)| {
                constant(name, if i == 0 { ast::PathSeparator::Root } else { ast::PathSeparator::DoubleColon })
            })
            .collect(),
    }
}

fn lower(s: &str) -> Result<ir::Program, Error> {
    from_ast(Parser::new(s.chars().collect()).parse().expect("failed to parse"))
}

fn class_named<'a>(program: &'a ir::Program, name: &str) -> &'a ir::Class {
    program.classes.values().find(|class| class.name == name).expect("no such class")
}

#[test]
fn can_resolve_basic_scopes() {
    let mut ids = ir::Counter::new();
    let mut context = ScopeContext::new(&mut ids);
    context.begin("Foo".to_owned(), ir::ItemId::Class(ir::ClassId::new(&mut ids)));
    context.begin("Bar".to_owned(), ir::ItemId::Class(ir::ClassId::new(&mut ids)));

    let path = ast::Path {
        parts: vec![ast::PathSegment {
            kind: ast::PathSegmentKind::Constant(ast::Constant("Foo".to_owned())),
            separator: ast::PathSeparator::Root},
        ast::PathSegment {
            kind: ast::PathSegmentKind::Constant(ast::Constant("Bar".to_owned())),
            separator: ast::PathSeparator::DoubleColon,
        }],
    };
    assert_eq!(context.resolve_scope(&path).unwrap().name, "Bar");
}

#[test]
fn can_resolve_multiple_nested_scopes() {
    let mut ids = ir::Counter::new();
    let mut context = ScopeContext::new(&mut ids);
    context.begin("Foo".to_owned(), ir::ItemId::Class(ir::ClassId::new(&mut ids)));
    context.begin("Bar".to_owned(), ir::ItemId::Class(ir::ClassId::new(&mut ids)));
    context.begin("Baz".to_owned(), ir::ItemId::Class(ir::ClassId::new(&mut ids)));

    let path = ast::Path {
        parts: vec![ast::PathSegment {
            kind: ast::PathSegmentKind::Constant(ast::Constant("Foo".to_owned())),
            separator: ast::PathSeparator::Root},
        ast::PathSegment {
            kind: ast::PathSegmentKind::Constant(ast::Constant("Bar".to_owned())),
            separator: ast::PathSeparator::DoubleColon,
        },
        ast::PathSegment {
            kind: ast::PathSegmentKind::Constant(ast::Constant("Baz".to_owned())),
            separator: ast::PathSeparator::DoubleColon,
        }],
    };
    assert_eq!(context.resolve_scope(&path).unwrap().name, "Baz");
}

#[test]
fn identifiers_count_up_from_one() {
    let mut ids = ir::Counter::new();
    assert!(!ids.is_exhausted());
    let first = ir::Id::new(&mut ids);
    let second = ir::Id::new(&mut ids);
    assert_eq!(first.value(), 1);
    assert_eq!(second.value(), 2);
    assert_ne!(first, second);
    assert_eq!(ir::ModuleId::new(&mut ids).0.value(), 3);
    assert_eq!(ir::ClassId::new(&mut ids).0.value(), 4);
    assert_eq!(ir::FunctionId::new(&mut ids).0.value(), 5);
    assert_eq!(ir::Module::new("M", &mut ids).id.0.value(), 6);
    let class = ir::Class::new("C", &mut ids);
    assert_eq!(class.id.0.value(), 7);
    assert_eq!(class.name, "C");
    assert_eq!(class.superclass, None);
}

#[test]
fn an_item_id_knows_its_class() {
    let mut ids = ir::Counter::new();
    let class = ir::ClassId::new(&mut ids);
    let module = ir::ModuleId::new(&mut ids);
    assert_eq!(ir::ItemId::Class(class).expect_class(), class);
    assert_eq!(ir::ItemId::Class(class).as_class(), Some(class));
    assert_eq!(ir::ItemId::Module(module).as_class(), None);
}

#[test]
fn the_global_scope_has_no_name() {
    let mut ids = ir::Counter::new();
    let global = Scope::global(&mut ids);
    assert!(global.is_global());
    assert_eq!(global.id, ir::ItemId::Module(ir::ModuleId(ir::Id::new(&mut ir::Counter::new()))));
    let scope = Scope::new("Foo".to_owned(), ir::ItemId::Class(ir::ClassId::new(&mut ids)));
    assert!(!scope.is_global());
    assert_eq!(scope.name, "Foo");
    assert!(scope.classes.is_empty());
}

#[test]
fn a_scope_records_what_is_declared_in_it() {
    let mut ids = ir::Counter::new();
    let mut scope = Scope::global(&mut ids);
    let module = ir::Module::new("M", &mut ids);
    let class = ir::Class::new("C", &mut ids);
    let function = ir::Function { id: ir::FunctionId::new(&mut ids), name: "f".to_owned(), statements: vec![] };
    scope.insert_module(&module);
    scope.insert_class(&class);
    scope.insert_function(&function);
    assert_eq!(scope.modules.get("M"), Some(&module.id));
    assert_eq!(scope.classes.get("C"), Some(&class.id));
    assert_eq!(scope.functions.get("f"), Some(&function.id));
    assert_eq!(scope.classes.get("M"), None);
    let second = ir::Class::new("C", &mut ids);
    scope.insert_class(&second);
    assert_eq!(scope.classes.get("C"), Some(&second.id));
    assert_eq!(scope.classes.len(), 1);
}

#[test]
fn scopes_end_in_reverse_order() {
    let mut ids = ir::Counter::new();
    let mut context = ScopeContext::new(&mut ids);
    assert_eq!(context.depth(), 1);
    assert!(context.current().is_global());
    context.begin("Foo".to_owned(), ir::ItemId::Class(ir::ClassId::new(&mut ids)));
    context.begin("Bar".to_owned(), ir::ItemId::Class(ir::ClassId::new(&mut ids)));
    assert_eq!(context.depth(), 3);
    assert_eq!(context.current().name, "Bar");
    context.end();
    assert_eq!(context.current().name, "Foo");
    context.end();
    assert_eq!(context.depth(), 1);
    assert!(context.current().is_global());
}

#[test]
fn the_global_scope_is_not_ended() {
    let mut ids = ir::Counter::new();
    let mut context = ScopeContext::new(&mut ids);
    assert!(!context.try_end());
    assert_eq!(context.depth(), 1);
    context.begin("Foo".to_owned(), ir::ItemId::Class(ir::ClassId::new(&mut ids)));
    assert!(context.try_end());
    assert!(!context.try_end());
    assert!(!context.try_end());
    assert_eq!(context.depth(), 1);
    assert!(context.current().is_global());
}

#[test]
fn declarations_go_to_the_innermost_scope() {
    let mut ids = ir::Counter::new();
    let mut context = ScopeContext::new(&mut ids);
    context.begin("Foo".to_owned(), ir::ItemId::Class(ir::ClassId::new(&mut ids)));
    let class = ir::Class::new("Bar", &mut ids);
    context.current_mut().insert_class(&class);
    assert_eq!(context.current().classes.get("Bar"), Some(&class.id));
    context.end();
    assert_eq!(context.current().classes.get("Bar"), None);
}

#[test]
fn a_path_resolves_to_the_scope_of_its_last_segment() {
    let mut ids = ir::Counter::new();
    let mut context = ScopeContext::new(&mut ids);
    let foo = ir::ClassId::new(&mut ids);
    let bar = ir::ModuleId::new(&mut ids);
    let baz = ir::ClassId::new(&mut ids);
    context.begin("Foo".to_owned(), ir::ItemId::Class(foo));
    context.begin("Bar".to_owned(), ir::ItemId::Module(bar));
    context.begin("Baz".to_owned(), ir::ItemId::Class(baz));
    assert_eq!(context.resolve(&constant_path(&["Foo"])), Some(ir::ItemId::Class(foo)));
    assert_eq!(context.resolve(&constant_path(&["Foo", "Bar"])), Some(ir::ItemId::Module(bar)));
    assert_eq!(context.resolve(&constant_path(&["Bar", "Baz"])), Some(ir::ItemId::Class(baz)));
    assert_eq!(context.resolve(&constant_path(&["Baz"])), Some(ir::ItemId::Class(baz)));
}

#[test]
fn a_path_that_leaves_the_run_of_scopes_does_not_resolve() {
    let mut ids = ir::Counter::new();
    let mut context = ScopeContext::new(&mut ids);
    context.begin("Foo".to_owned(), ir::ItemId::Class(ir::ClassId::new(&mut ids)));
    context.begin("Bar".to_owned(), ir::ItemId::Class(ir::ClassId::new(&mut ids)));
    assert_eq!(context.resolve(&constant_path(&["Qux"])), None);
    assert_eq!(context.resolve(&constant_path(&["Foo", "Baz"])), None);
    assert_eq!(context.resolve(&constant_path(&["Foo", "Bar", "Baz"])), None);
    assert_eq!(context.resolve(&constant_path(&["Bar", "Foo"])), None);
    assert_eq!(context.resolve(&constant_path(&[])), None);
    assert!(context.resolve_scope(&constant_path(&["Foo", "Foo"])).is_none());
}

#[test]
fn only_the_first_scope_of_a_name_is_tried() {
    let mut ids = ir::Counter::new();
    let mut context = ScopeContext::new(&mut ids);
    let outer = ir::ClassId::new(&mut ids);
    let inner = ir::ClassId::new(&mut ids);
    context.begin("Foo".to_owned(), ir::ItemId::Class(outer));
    context.begin("Foo".to_owned(), ir::ItemId::Class(inner));
    context.begin("Bar".to_owned(), ir::ItemId::Class(ir::ClassId::new(&mut ids)));
    assert_eq!(context.resolve(&constant_path(&["Foo"])), Some(ir::ItemId::Class(outer)));
    assert_eq!(context.resolve(&constant_path(&["Foo", "Foo"])), Some(ir::ItemId::Class(inner)));
    assert_eq!(context.resolve(&constant_path(&["Foo", "Bar"])), None);
}

#[test]
fn an_empty_program_lowers_to_empty_tables() {
    assert_eq!(lower(""), Ok(ir::Program::new()));
}

#[test]
fn declarations_take_identifiers_in_order() {
    let program = lower("module M\n class C\n  def f\n  end\n end\nend\ndef g\nend").unwrap();
    assert_eq!(program.modules.len(), 1);
    assert_eq!(program.classes.len(), 1);
    assert_eq!(program.functions.len(), 2);
    assert_eq!(program.modules[&2].name, "M");
    assert_eq!(program.modules[&2].id.0.value(), 2);
    assert_eq!(program.classes[&3].name, "C");
    assert_eq!(program.classes[&3].superclass, None);
    assert_eq!(program.functions[&4].name, "f");
    assert_eq!(program.functions[&5].name, "g");
    assert!(program.functions[&4].statements.is_empty());
}

#[test]
fn no_identifier_is_used_twice() {
    let program = lower("class A\n class B\n end\n module C\n  def d\n  end\n end\nend\nclass A\nend\ndef d\nend\nmodule E\nend").unwrap();
    let mut ids: Vec<u64> = program
        .modules
        .keys()
        .chain(program.classes.keys())
        .chain(program.functions.keys())
        .cloned()
        .collect();
    assert_eq!(ids.len(), 7);
    ids.sort();
    ids.dedup();
    assert_eq!(ids, vec![2, 3, 4, 5, 6, 7, 8]);
    for (key, class) in &program.classes {
        assert_eq!(class.id.0.value(), *key);
    }
}

#[test]
fn a_class_descends_from_a_class_that_encloses_it() {
    let program = lower("class Foo\n class Bar < Foo\n  class Baz < Foo::Bar\n  end\n end\nend").unwrap();
    let foo = class_named(&program, "Foo");
    let bar = class_named(&program, "Bar");
    let baz = class_named(&program, "Baz");
    assert_eq!(foo.superclass, None);
    assert_eq!(bar.superclass, Some(foo.id));
    assert_eq!(baz.superclass, Some(bar.id));
    assert!(foo.id.0.value() < bar.id.0.value());
    assert!(bar.id.0.value() < baz.id.0.value());
}

#[test]
fn a_class_in_a_sibling_scope_is_not_found() {
    assert_eq!(lower("class Foo\nend\nclass Bar < Foo\nend"),
               Err(Error { kind: ErrorKind::Unresolved(constant_path(&["Foo"])) }));
    assert_eq!(lower("class A\n class Foo\n end\n class Bar < Foo\n end\nend"),
               Err(Error { kind: ErrorKind::Unresolved(constant_path(&["Foo"])) }));
}

#[test]
fn a_class_declared_later_is_not_found() {
    assert_eq!(lower("class Bar < Foo\nend\nclass Foo\nend"),
               Err(Error { kind: ErrorKind::Unresolved(constant_path(&["Foo"])) }));
    assert_eq!(lower("class Foo < Foo\nend"),
               Err(Error { kind: ErrorKind::Unresolved(constant_path(&["Foo"])) }));
}

#[test]
fn a_module_is_no_superclass() {
    assert_eq!(lower("module Foo\n class Bar < Foo\n end\nend"),
               Err(Error { kind: ErrorKind::NotAClass(constant_path(&["Foo"])) }));
}

#[test]
fn a_path_with_an_identifier_names_no_class() {
    let result = lower("class Foo\n class Bar < Foo.bar\n end\nend");
    match result {
        Err(Error { kind: ErrorKind::Unresolved(path) }) => assert_eq!(path.parts.len(), 2),
        other => panic!("got {:?}", other),
    }
}

#[test]
fn a_statement_is_not_lowered() {
    assert_eq!(lower("foo 1"), Err(Error { kind: ErrorKind::Statement }));
    assert_eq!(lower("class A\n foo\nend"), Err(Error { kind: ErrorKind::Statement }));
}

#[test]
fn a_context_builds_what_from_ast_builds() {
    let text = "module M\n class C\n end\nend";
    let program = Parser::new(text.chars().collect()).parse().unwrap();
    assert_eq!(Context::new().build(program), lower(text));
}

#[test]
fn a_build_fails_when_the_identifiers_run_out() {
    let text = "class A\nend";
    let program = Parser::new(text.chars().collect()).parse().unwrap();
    let ids = ir::Counter::starting_after(u64::MAX - 1);
    assert!(!ids.is_exhausted());
    assert_eq!(Context::continuing(ids).build(program),
               Err(Error { kind: ErrorKind::OutOfIdentifiers }));
    assert!(ir::Counter::starting_after(u64::MAX).is_exhausted());
}

#[test]
fn a_build_goes_on_behind_the_identifiers_of_another() {
    let text = "module M\n def f\n end\nend";
    let program = Parser::new(text.chars().collect()).parse().unwrap();
    let lowered = Context::continuing(ir::Counter::starting_after(100)).build(program).unwrap();
    assert_eq!(lowered.modules[&102].name, "M");
    assert_eq!(lowered.functions[&103].name, "f");
    assert_eq!(lowered.modules.len(), 1);
    assert_eq!(lowered.functions.len(), 1);
}

#[test]
fn entries_are_found_by_their_identifiers() {
    let program = lower("module M\n class C\n  def f\n  end\n end\nend").unwrap();
    let class = class_named(&program, "C");
    assert_eq!(program.class(class.id), Some(class));
    let module = program.modules.values().next().unwrap();
    assert_eq!(program.module(module.id).map(|m| &m.name[..]), Some("M"));
    let function = program.functions.values().next().unwrap();
    assert_eq!(program.function(function.id).map(|f| &f.name[..]), Some("f"));
    assert_eq!(program.class(ir::ClassId(module.id.0)), None);
    assert_eq!(program.module(ir::ModuleId(class.id.0)), None);
    assert_eq!(program.function(ir::FunctionId(class.id.0)), None);
}
