//! The intermediate representation: flat tables of modules, classes and
//! functions, each entry found by its identifier.
use vstd::prelude::*;
use std::collections::HashMap;
use crate::ast::{Expr, ExprView};
use crate::ast::expr::expr_views;

pub use self::id::{Counter, Id};

pub mod id;
pub mod build;

verus! {

#[derive(Copy, Clone, Debug, PartialEq, Eq, Hash)]
pub struct ModuleId(pub Id);

#[derive(Copy, Clone, Debug, PartialEq, Eq, Hash)]
pub struct ClassId(pub Id);

#[derive(Copy, Clone, Debug, PartialEq, Eq, Hash)]
pub struct FunctionId(pub Id);

impl View for ModuleId {
    type V = u64;

    open spec fn view(&self) -> u64 {
        self.0@
    }
}

impl View for ClassId {
    type V = u64;

    open spec fn view(&self) -> u64 {
        self.0@
    }
}

impl View for FunctionId {
    type V = u64;

    open spec fn view(&self) -> u64 {
        self.0@
    }
}

impl ModuleId {
    pub fn new(counter: &mut Counter) -> (id: Self)
        requires
            old(counter)@ < u64::MAX,
        ensures
            id@ == old(counter)@ + 1,
            final(counter)@ == id@,
    {
        ModuleId(Id::new(counter))
    }
}

impl ClassId {
    pub fn new(counter: &mut Counter) -> (id: Self)
        requires
            old(counter)@ < u64::MAX,
        ensures
            id@ == old(counter)@ + 1,
            final(counter)@ == id@,
    {
        ClassId(Id::new(counter))
    }
}

impl FunctionId {
    pub fn new(counter: &mut Counter) -> (id: Self)
        requires
            old(counter)@ < u64::MAX,
        ensures
            id@ == old(counter)@ + 1,
            final(counter)@ == id@,
    {
        FunctionId(Id::new(counter))
    }
}

/// What a scope stands for.
#[derive(Copy, Clone, Debug, PartialEq, Eq)]
pub enum ItemId {
    Module(ModuleId),
    Class(ClassId),
    Function(FunctionId),
}

/// What an item's identifier is, as a value.
pub enum ItemIdView {
    Module(u64),
    Class(u64),
    Function(u64),
}

impl ItemIdView {
    /// The number of the identifier, whatever it names.
    pub open spec fn number(self) -> u64 {
        match self {
            ItemIdView::Module(id) => id,
            ItemIdView::Class(id) => id,
            ItemIdView::Function(id) => id,
        }
    }
}

impl View for ItemId {
    type V = ItemIdView;

    open spec fn view(&self) -> ItemIdView {
        match self {
            ItemId::Module(id) => ItemIdView::Module(id@),
            ItemId::Class(id) => ItemIdView::Class(id@),
            ItemId::Function(id) => ItemIdView::Function(id@),
        }
    }
}

impl ItemId {
    /// The class that the identifier names.
    pub fn expect_class(&self) -> (id: ClassId)
        requires
            self@ is Class,
        ensures
            self@ == ItemIdView::Class(id@),
    {
        match self {
            ItemId::Class(id) => *id,
            _ => vstd::pervasive::unreached(),
        }
    }

    /// The class that the identifier names, if it names one.
    pub fn as_class(&self) -> (id: Option<ClassId>)
        ensures
            match self@ {
                ItemIdView::Class(class) => id matches Some(found) && found@ == class,
                _ => id is None,
            },
    {
        match self {
            ItemId::Class(id) => Some(*id),
            _ => None,
        }
    }
}

/// A module.
#[derive(Clone, Debug, PartialEq, Eq)]
pub struct Module {
    pub id: ModuleId,
    /// The name of the module.
    pub name: String,
}

/// A class.
#[derive(Clone, Debug, PartialEq, Eq)]
pub struct Class {
    pub id: ClassId,
    /// The name of the class.
    pub name: String,
    /// The parent class.
    pub superclass: Option<ClassId>,
}

#[derive(Clone, Debug, PartialEq, Eq)]
pub struct Function {
    pub id: FunctionId,
    /// The name of the function.
    pub name: String,
    /// The statements in the function.
    pub statements: Vec<Expr>,
}

pub struct ModuleView {
    pub id: u64,
    pub name: Seq<char>,
}

pub struct ClassView {
    pub id: u64,
    pub name: Seq<char>,
    pub superclass: Option<u64>,
}

pub struct FunctionView {
    pub id: u64,
    pub name: Seq<char>,
    pub statements: Seq<ExprView>,
}

impl View for Module {
    type V = ModuleView;

    open spec fn view(&self) -> ModuleView {
        ModuleView { id: self.id@, name: self.name@ }
    }
}

impl View for Class {
    type V = ClassView;

    open spec fn view(&self) -> ClassView {
        ClassView {
            id: self.id@,
            name: self.name@,
            superclass: match self.superclass {
                Some(id) => Some(id@),
                None => None,
            },
        }
    }
}

impl View for Function {
    type V = FunctionView;

    open spec fn view(&self) -> FunctionView {
        FunctionView { id: self.id@, name: self.name@, statements: expr_views(self.statements@) }
    }
}

impl Module {
    /// A module of the given name, under a new identifier.
    pub fn new(name: &str, counter: &mut Counter) -> (module: Self)
        requires
            old(counter)@ < u64::MAX,
        ensures
            module@ == (ModuleView { id: (old(counter)@ + 1) as u64, name: name@ }),
            final(counter)@ == old(counter)@ + 1,
    {
        Module { id: ModuleId::new(counter), name: name.to_owned() }
    }
}

impl Class {
    /// A class of the given name without a parent, under a new identifier.
    pub fn new(name: &str, counter: &mut Counter) -> (class: Self)
        requires
            old(counter)@ < u64::MAX,
        ensures
            class@ == (ClassView {
                id: (old(counter)@ + 1) as u64,
                name: name@,
                superclass: None,
            }),
            final(counter)@ == old(counter)@ + 1,
    {
        Class { id: ClassId::new(counter), name: name.to_owned(), superclass: None }
    }
}

/// An identifier.
#[derive(Clone, Debug, PartialEq, Eq)]
pub struct Identifier(pub String);

/// A constant.
#[derive(Clone, Debug, PartialEq, Eq)]
pub struct Constant(pub String);

#[derive(Clone, Debug, PartialEq, Eq)]
pub enum Argument {
    /// A standard positional argument.
    Positional(Expr),
}

#[derive(Clone, Debug, PartialEq, Eq)]
pub struct Parameter {
    pub name: String,
    pub default: Option<Box<Expr>>,
}

#[derive(Clone, Debug, PartialEq, Eq)]
pub enum Lvalue {
    Variable { name: String },
    Field { name: String },
}

/// A program: every module, class and function that was declared, under
/// the number of its identifier.
#[derive(Clone, Debug, PartialEq, Eq)]
pub struct Program {
    pub modules: HashMap<u64, Module>,
    pub classes: HashMap<u64, Class>,
    pub functions: HashMap<u64, Function>,
}

/// What a program is, as a value.
pub struct ProgramView {
    pub modules: Map<u64, ModuleView>,
    pub classes: Map<u64, ClassView>,
    pub functions: Map<u64, FunctionView>,
}

impl View for Program {
    type V = ProgramView;

    open spec fn view(&self) -> ProgramView {
        ProgramView {
            modules: self.modules@.map_values(|module: Module| module@),
            classes: self.classes@.map_values(|class: Class| class@),
            functions: self.functions@.map_values(|function: Function| function@),
        }
    }
}

impl Program {
    /// The module with the given identifier.
    pub fn module(&self, id: ModuleId) -> (module: Option<&Module>)
        ensures
            match module {
                Some(found) => self@.modules.contains_key(id@) && found@ == self@.modules[id@],
                None => !self@.modules.contains_key(id@),
            },
    {
        let key = id.0.value();
        self.modules.get(&key)
    }

    /// The class with the given identifier.
    pub fn class(&self, id: ClassId) -> (class: Option<&Class>)
        ensures
            match class {
                Some(found) => self@.classes.contains_key(id@) && found@ == self@.classes[id@],
                None => !self@.classes.contains_key(id@),
            },
    {
        let key = id.0.value();
        self.classes.get(&key)
    }

    /// The function with the given identifier.
    pub fn function(&self, id: FunctionId) -> (function: Option<&Function>)
        ensures
            match function {
                Some(found) => self@.functions.contains_key(id@) && found@
                    == self@.functions[id@],
                None => !self@.functions.contains_key(id@),
            },
    {
        let key = id.0.value();
        self.functions.get(&key)
    }

    /// A program in which nothing is declared.
    pub fn new() -> (program: Self)
        ensures
            program@.modules == Map::<u64, ModuleView>::empty(),
            program@.classes == Map::<u64, ClassView>::empty(),
            program@.functions == Map::<u64, FunctionView>::empty(),
    {
        let program = Program {
            modules: HashMap::new(),
            classes: HashMap::new(),
            functions: HashMap::new(),
        };
        assert(program@.modules =~= Map::<u64, ModuleView>::empty());
        assert(program@.classes =~= Map::<u64, ClassView>::empty());
        assert(program@.functions =~= Map::<u64, FunctionView>::empty());
        program
    }
}

} // verus!
