//! The builder: from a syntax tree to the intermediate representation.
use vstd::prelude::*;
use std::collections::HashMap;
use crate::ast;
use crate::ast::item_views;
use crate::ir;
use crate::ir::{ClassId, Counter, FunctionId, ItemId, ItemIdView, ModuleId};
use self::scope::{lemma_resolves_to_open_scope, resolve};
use self::state::{ContextView, Kind, class_key, declarations, declarations_in, function_key,
                  identifiers_unique, kept, lemma_close_class_keeps_sound,
                  lemma_close_module_keeps_sound, lemma_function_keeps_sound,
                  lemma_lower_items_fails_early, lemma_open_keeps_sound, lemma_program_laws,
                  lemma_start_is_sound, lower_item, lower_items, lower_program, lower_superclass,
                  module_key, open_class, open_ids, program_of, sound, superclasses_precede,
                  table};

pub use self::scope::{Scope, ScopeContext};

pub mod scope;
pub mod state;

verus! {

/// Why a syntax tree has no intermediate representation.
#[derive(Clone, Debug, PartialEq, Eq)]
pub enum ErrorKind {
    /// The path leads to no open scope.
    Unresolved(ast::Path),
    /// The path leads to a scope that is no class.
    NotAClass(ast::Path),
    /// A statement stands where only declarations are lowered.
    Statement,
    /// Every identifier has been handed out.
    OutOfIdentifiers,
}

/// The error of a build.
#[derive(Clone, Debug, PartialEq, Eq)]
pub struct Error {
    pub kind: ErrorKind,
}

impl View for Error {
    type V = state::ErrorView;

    open spec fn view(&self) -> state::ErrorView {
        match self.kind {
            ErrorKind::Unresolved(path) => state::ErrorView::Unresolved(path@),
            ErrorKind::NotAClass(path) => state::ErrorView::NotAClass(path@),
            ErrorKind::Statement => state::ErrorView::Statement,
            ErrorKind::OutOfIdentifiers => state::ErrorView::OutOfIdentifiers,
        }
    }
}

/// Lowers a program.
///
/// The result is the program that `lower_program` describes. In it no
/// identifier is used twice, and the superclass of every class is a class
/// that was declared before it.
pub fn from_ast(program: ast::Program) -> (lowered: Result<ir::Program, Error>)
    ensures
        match lower_program(program@) {
            Ok(expected) => lowered matches Ok(found) && found@ == expected,
            Err(error) => lowered matches Err(found) && found@ == error,
        },
        lowered matches Ok(found) ==> identifiers_unique(found@, program@)
            && superclasses_precede(found@),
{
    proof {
        lemma_start_is_sound(0);
        match lower_items(ContextView::start(), program@) {
            Ok(state) => {
                if kept(
                    ContextView::start(),
                    state,
                    |kind: Kind| declarations_in(program@, kind),
                ) {
                    lemma_program_laws(0, state, program@);
                }
            },
            Err(_) => {},
        }
    }
    Context::new().build(program)
}

/// The state of a build: the source of identifiers, the scopes that are
/// open, and the modules, classes and functions lowered so far.
pub struct Context {
    modules: Vec<ir::Module>,
    classes: Vec<ir::Class>,
    functions: Vec<ir::Function>,
    scopes: ScopeContext,
    ids: Counter,
}

/// The table of the modules of a list.
fn index_modules(list: Vec<ir::Module>) -> (indexed: HashMap<u64, ir::Module>)
    ensures
        indexed@.map_values(|module: ir::Module| module@) == table(
            list@.map_values(|module: ir::Module| module@),
            module_key(),
        ),
{
    let ghost all = list@.map_values(|module: ir::Module| module@);
    let mut list = list;
    let mut indexed: HashMap<u64, ir::Module> = HashMap::new();
    assert(all.skip(all.len() as int) =~= seq![]);
    assert(indexed@.map_values(|module: ir::Module| module@) =~= Map::empty());
    while list.len() > 0
        invariant
            list@.map_values(|module: ir::Module| module@) == all.take(list.len() as int),
            list.len() <= all.len(),
            indexed@.map_values(|module: ir::Module| module@) == table(
                all.skip(list.len() as int),
                module_key(),
            ),
        decreases list.len(),
    {
        let ghost n = list.len() as int;
        let ghost before = indexed@.map_values(|module: ir::Module| module@);
        let ghost views = list@.map_values(|module: ir::Module| module@);
        match list.pop() {
            Some(entry) => {
                proof {
                    assert(entry@ == views[n - 1]);
                    assert(all.skip(n - 1).drop_first() =~= all.skip(n));
                    assert(list@.map_values(|module: ir::Module| module@) =~= all.take(n - 1));
                }
                let key = entry.id.0.value();
                indexed.insert(key, entry);
                assert(indexed@.map_values(|module: ir::Module| module@) =~= before.insert(
                    key,
                    entry@,
                ));
            },
            None => {},
        }
    }
    assert(all.skip(0) =~= all);
    indexed
}

/// The table of the classes of a list.
fn index_classes(list: Vec<ir::Class>) -> (indexed: HashMap<u64, ir::Class>)
    ensures
        indexed@.map_values(|class: ir::Class| class@) == table(
            list@.map_values(|class: ir::Class| class@),
            class_key(),
        ),
{
    let ghost all = list@.map_values(|class: ir::Class| class@);
    let mut list = list;
    let mut indexed: HashMap<u64, ir::Class> = HashMap::new();
    assert(all.skip(all.len() as int) =~= seq![]);
    assert(indexed@.map_values(|class: ir::Class| class@) =~= Map::empty());
    while list.len() > 0
        invariant
            list@.map_values(|class: ir::Class| class@) == all.take(list.len() as int),
            list.len() <= all.len(),
            indexed@.map_values(|class: ir::Class| class@) == table(
                all.skip(list.len() as int),
                class_key(),
            ),
        decreases list.len(),
    {
        let ghost n = list.len() as int;
        let ghost before = indexed@.map_values(|class: ir::Class| class@);
        let ghost views = list@.map_values(|class: ir::Class| class@);
        match list.pop() {
            Some(entry) => {
                proof {
                    assert(entry@ == views[n - 1]);
                    assert(all.skip(n - 1).drop_first() =~= all.skip(n));
                    assert(list@.map_values(|class: ir::Class| class@) =~= all.take(n - 1));
                }
                let key = entry.id.0.value();
                indexed.insert(key, entry);
                assert(indexed@.map_values(|class: ir::Class| class@) =~= before.insert(
                    key,
                    entry@,
                ));
            },
            None => {},
        }
    }
    assert(all.skip(0) =~= all);
    indexed
}

/// The table of the functions of a list.
fn index_functions(list: Vec<ir::Function>) -> (indexed: HashMap<u64, ir::Function>)
    ensures
        indexed@.map_values(|function: ir::Function| function@) == table(
            list@.map_values(|function: ir::Function| function@),
            function_key(),
        ),
{
    let ghost all = list@.map_values(|function: ir::Function| function@);
    let mut list = list;
    let mut indexed: HashMap<u64, ir::Function> = HashMap::new();
    assert(all.skip(all.len() as int) =~= seq![]);
    assert(indexed@.map_values(|function: ir::Function| function@) =~= Map::empty());
    while list.len() > 0
        invariant
            list@.map_values(|function: ir::Function| function@) == all.take(list.len() as int),
            list.len() <= all.len(),
            indexed@.map_values(|function: ir::Function| function@) == table(
                all.skip(list.len() as int),
                function_key(),
            ),
        decreases list.len(),
    {
        let ghost n = list.len() as int;
        let ghost before = indexed@.map_values(|function: ir::Function| function@);
        let ghost views = list@.map_values(|function: ir::Function| function@);
        match list.pop() {
            Some(entry) => {
                proof {
                    assert(entry@ == views[n - 1]);
                    assert(all.skip(n - 1).drop_first() =~= all.skip(n));
                    assert(list@.map_values(|function: ir::Function| function@) =~= all.take(
                        n - 1,
                    ));
                }
                let key = entry.id.0.value();
                indexed.insert(key, entry);
                assert(indexed@.map_values(|function: ir::Function| function@) =~= before.insert(
                    key,
                    entry@,
                ));
            },
            None => {},
        }
    }
    assert(all.skip(0) =~= all);
    indexed
}

impl View for Context {
    type V = ContextView;

    closed spec fn view(&self) -> ContextView {
        ContextView {
            issued: self.ids@,
            scopes: self.scopes@,
            modules: self.modules@.map_values(|module: ir::Module| module@),
            classes: self.classes@.map_values(|class: ir::Class| class@),
            functions: self.functions@.map_values(|function: ir::Function| function@),
        }
    }
}

impl Context {
    /// The state at the start of a build.
    pub fn new() -> (context: Self)
        ensures
            context@ == ContextView::start(),
    {
        Context::continuing(Counter::new())
    }

    /// The state at the start of a build that takes its identifiers from
    /// `ids`, which must have one left for the global scope.
    pub fn continuing(ids: Counter) -> (context: Self)
        requires
            ids@ < u64::MAX,
        ensures
            context@ == ContextView::start_after(ids@),
    {
        let mut ids = ids;
        let scopes = ScopeContext::new(&mut ids);
        let context = Context {
            modules: Vec::new(),
            classes: Vec::new(),
            functions: Vec::new(),
            scopes,
            ids,
        };
        assert(context@.modules =~= seq![]);
        assert(context@.classes =~= seq![]);
        assert(context@.functions =~= seq![]);
        context
    }

    /// Lowers the items of a program and hands out what has been lowered,
    /// each entry under the number of its identifier.
    pub fn build(self, program: ast::Program) -> (lowered: Result<ir::Program, Error>)
        requires
            sound(self@),
        ensures
            match lower_items(self@, program@) {
                Ok(state) => {
                    &&& lowered matches Ok(found)
                    &&& found@ == program_of(state)
                    &&& kept(self@, state, |kind: Kind| declarations_in(program@, kind))
                },
                Err(error) => lowered matches Err(found) && found@ == error,
            },
    {
        let mut context = self;
        context.items(&program.items)?;
        Ok(
            ir::Program {
                modules: index_modules(context.modules),
                classes: index_classes(context.classes),
                functions: index_functions(context.functions),
            },
        )
    }

    /// Lowers an item.
    fn item(&mut self, item: &ast::Item) -> (done: Result<(), Error>)
        requires
            sound(old(self)@),
        ensures
            match lower_item(old(self)@, item@) {
                Ok(state) => done is Ok && final(self)@ == state,
                Err(error) => done matches Err(found) && found@ == error,
            },
            done is Ok ==> kept(old(self)@, final(self)@, |kind: Kind| declarations(item@, kind)),
        decreases item, 1int,
    {
        match item {
            ast::Item::Module(m) => {
                proof {
                    ast::lemma_module_view(*m);
                }
                self.module(m)
            },
            ast::Item::Class(c) => {
                proof {
                    ast::lemma_class_view(*c);
                }
                self.class(c)
            },
            ast::Item::Function(f) => self.function(f),
            ast::Item::Stmt(_) => Err(Error { kind: ErrorKind::Statement }),
        }
    }

    /// Lowers the items of a list, one after the other.
    fn items(&mut self, items: &Vec<ast::Item>) -> (done: Result<(), Error>)
        requires
            sound(old(self)@),
        ensures
            match lower_items(old(self)@, item_views(items@)) {
                Ok(state) => done is Ok && final(self)@ == state,
                Err(error) => done matches Err(found) && found@ == error,
            },
            done is Ok ==> kept(
                old(self)@,
                final(self)@,
                |kind: Kind| declarations_in(item_views(items@), kind),
            ),
        decreases items, 2int,
    {
        let ghost all = item_views(items@);
        let mut i: usize = 0;
        assert(all.take(0) =~= seq![]);
        while i < items.len()
            invariant
                i <= items.len(),
                all == item_views(items@),
                lower_items(old(self)@, all.take(i as int)) == Ok::<ContextView, state::ErrorView>(
                    self@,
                ),
                kept(old(self)@, self@, |kind: Kind| declarations_in(all.take(i as int), kind)),
            decreases items.len() - i,
        {
            proof {
                assert(all.take(i + 1).drop_last() =~= all.take(i as int));
                assert(all.take(i + 1).last() == items@[i as int]@);
            }
            match self.item(&items[i]) {
                Ok(_) => {},
                Err(error) => {
                    proof {
                        lemma_lower_items_fails_early(old(self)@, all, i + 1);
                    }
                    return Err(error);
                },
            }
            i += 1;
        }
        assert(all.take(items.len() as int) =~= all);
        Ok(())
    }

    /// Lowers a module and what it holds.
    fn module(&mut self, module: &ast::Module) -> (done: Result<(), Error>)
        requires
            sound(old(self)@),
        ensures
            match lower_item(old(self)@, module@) {
                Ok(state) => done is Ok && final(self)@ == state,
                Err(error) => done matches Err(found) && found@ == error,
            },
            done is Ok ==> kept(old(self)@, final(self)@, |kind: Kind| declarations(module@, kind)),
        decreases module, 3int,
    {
        if self.ids.is_exhausted() {
            return Err(Error { kind: ErrorKind::OutOfIdentifiers });
        }
        let ir = ir::Module { id: ModuleId::new(&mut self.ids), name: module.name.clone() };
        self.scopes.current_mut().insert_module(&ir);
        self.scopes.begin(module.name.clone(), ItemId::Module(ir.id));
        let ghost opened = self@;
        proof {
            assert(open_ids(opened.scopes) =~= open_ids(old(self)@.scopes).push(
                ItemIdView::Module(ir@.id),
            ));
            lemma_open_keeps_sound(old(self)@, opened, ItemIdView::Module(ir@.id));
        }
        self.items(&module.items)?;
        let ghost done = self@;
        self.modules.push(ir);
        self.scopes.end();
        proof {
            assert(self@.modules =~= done.modules.push(ir@));
            assert(open_ids(done.scopes).last() == open_ids(opened.scopes).last());
            assert(open_ids(done.scopes).drop_last() =~= open_ids(old(self)@.scopes));
            lemma_close_module_keeps_sound(done, self@, ir@);
            assert(open_ids(self@.scopes) =~= open_ids(old(self)@.scopes));
        }
        Ok(())
    }

    /// Lowers a class and what it holds.
    fn class(&mut self, class: &ast::Class) -> (done: Result<(), Error>)
        requires
            sound(old(self)@),
        ensures
            match lower_item(old(self)@, class@) {
                Ok(state) => done is Ok && final(self)@ == state,
                Err(error) => done matches Err(found) && found@ == error,
            },
            done is Ok ==> kept(old(self)@, final(self)@, |kind: Kind| declarations(class@, kind)),
        decreases class, 3int,
    {
        let superclass = self.superclass(&class.superclass)?;
        if self.ids.is_exhausted() {
            return Err(Error { kind: ErrorKind::OutOfIdentifiers });
        }
        let ir = ir::Class {
            id: ClassId::new(&mut self.ids),
            name: class.name.clone(),
            superclass,
        };
        self.scopes.current_mut().insert_class(&ir);
        self.scopes.begin(class.name.clone(), ItemId::Class(ir.id));
        let ghost opened = self@;
        proof {
            assert(open_ids(opened.scopes) =~= open_ids(old(self)@.scopes).push(
                ItemIdView::Class(ir@.id),
            ));
            lemma_open_keeps_sound(old(self)@, opened, ItemIdView::Class(ir@.id));
        }
        self.items(&class.items)?;
        let ghost done = self@;
        self.classes.push(ir);
        self.scopes.end();
        proof {
            assert(self@.classes =~= done.classes.push(ir@));
            assert(open_ids(done.scopes).last() == open_ids(opened.scopes).last());
            assert(open_ids(done.scopes).drop_last() =~= open_ids(old(self)@.scopes));
            lemma_close_class_keeps_sound(done, self@, ir@);
            assert(open_ids(self@.scopes) =~= open_ids(old(self)@.scopes));
        }
        Ok(())
    }

    /// Resolves the path that names a superclass.
    fn superclass(&self, path: &Option<ast::Path>) -> (superclass: Result<Option<ClassId>, Error>)
        requires
            sound(self@),
        ensures
            match lower_superclass(
                self@.scopes,
                match path {
                    Some(path) => Some(path@),
                    None => None,
                },
            ) {
                Ok(Some(id)) => {
                    &&& superclass matches Ok(Some(found))
                    &&& found@ == id
                    &&& id <= self@.issued
                    &&& open_class(open_ids(self@.scopes), id)
                },
                Ok(None) => superclass matches Ok(None),
                Err(error) => superclass matches Err(found) && found@ == error,
            },
    {
        match path {
            None => Ok(None),
            Some(path) => {
                if !path.is_constant() {
                    return Err(Error { kind: ErrorKind::Unresolved(path.clone()) });
                }
                match self.scopes.resolve(path) {
                    None => Err(Error { kind: ErrorKind::Unresolved(path.clone()) }),
                    Some(id) => match id.as_class() {
                        Some(class) => {
                            proof {
                                lemma_resolves_to_open_scope(self@.scopes, path@);
                                let scope = resolve(self@.scopes, path@)->0;
                                let i = choose|i: int|
                                    0 <= i < self@.scopes.len() && self@.scopes[i] == scope;
                                assert(open_ids(self@.scopes)[i] == ItemIdView::Class(class@));
                            }
                            Ok(Some(class))
                        },
                        None => Err(Error { kind: ErrorKind::NotAClass(path.clone()) }),
                    },
                }
            },
        }
    }

    /// Lowers a function. Its statements are not lowered.
    fn function(&mut self, function: &ast::Function) -> (done: Result<(), Error>)
        requires
            sound(old(self)@),
        ensures
            match lower_item(old(self)@, function@) {
                Ok(state) => done is Ok && final(self)@ == state,
                Err(error) => done matches Err(found) && found@ == error,
            },
            done is Ok ==> kept(
                old(self)@,
                final(self)@,
                |kind: Kind| declarations(function@, kind),
            ),
    {
        if self.ids.is_exhausted() {
            return Err(Error { kind: ErrorKind::OutOfIdentifiers });
        }
        let ir = ir::Function {
            id: FunctionId::new(&mut self.ids),
            name: function.name.clone(),
            statements: Vec::new(),
        };
        assert(ir@.statements =~= seq![]);
        self.scopes.current_mut().insert_function(&ir);
        let ghost before = self@.functions;
        self.functions.push(ir);
        proof {
            assert(self@.functions =~= before.push(ir@));
            assert(open_ids(self@.scopes) =~= open_ids(old(self)@.scopes));
            lemma_function_keeps_sound(old(self)@, self@, ir@);
        }
        Ok(())
    }
}

} // verus!
