//! The syntax tree.
use vstd::prelude::*;
use crate::text::{char_is_uppercase, uppercase};

pub use self::expr::{AssignmentExpr, CallExpr, Expr, ExprView, IntegerLiteral, KeyValueExpr,
                     NegateExpr, ParenExpr, StringLiteral, SymbolExpr};

pub mod expr;

verus! {

/// A program.
#[derive(Debug, PartialEq, Eq)]
pub struct Program {
    pub items: Vec<Item>,
}

/// An item.
#[derive(Debug, PartialEq, Eq)]
pub enum Item {
    Module(Module),
    Class(Class),
    Function(Function),
    /// An expression used as a statement.
    Stmt(Expr),
}

/// A module.
#[derive(Debug, PartialEq, Eq)]
pub struct Module {
    /// The name of the module.
    pub name: String,
    /// The items contained in the module.
    pub items: Vec<Item>,
}

/// A class.
#[derive(Debug, PartialEq, Eq)]
pub struct Class {
    /// The name of the class.
    pub name: String,
    /// The items contained in the class.
    pub items: Vec<Item>,
    /// The path that names the parent class.
    pub superclass: Option<Path>,
}

#[derive(Debug, PartialEq, Eq)]
pub struct Function {
    /// The name of the function.
    pub name: String,
    /// The statements in the function.
    pub statements: Vec<Expr>,
}

/// A name that starts in lower case: a method or a variable.
#[derive(Clone, Debug, PartialEq, Eq)]
pub struct Identifier(pub String);

/// A name that starts in upper case: a class or a module.
#[derive(Clone, Debug, PartialEq, Eq)]
pub struct Constant(pub String);

/// A list of names separated by periods or double colons.
///
/// `My::Object.do_thing`.
#[derive(Debug, PartialEq, Eq)]
pub struct Path {
    /// The parts that make up the path.
    pub parts: Vec<PathSegment>,
}

#[derive(Debug, PartialEq, Eq)]
pub struct PathSegment {
    pub kind: PathSegmentKind,
    /// What stands between this segment and the one before it.
    pub separator: PathSeparator,
}

#[derive(Debug, PartialEq, Eq)]
pub enum PathSegmentKind {
    Identifier(Identifier),
    Constant(Constant),
}

#[derive(Copy, Clone, Debug, PartialEq, Eq, Structural)]
pub enum PathSeparator {
    /// The root part of a path.
    /// Only the very first segment has it.
    Root,
    Dot,
    DoubleColon,
}

#[derive(Debug, PartialEq, Eq)]
pub enum Argument {
    /// A standard positional argument.
    Positional(Expr),
}

/// What a path segment's kind is, as a value.
pub enum PathSegmentKindView {
    Identifier(Seq<char>),
    Constant(Seq<char>),
}

/// What a path segment is, as a value.
pub struct PathSegmentView {
    pub kind: PathSegmentKindView,
    pub separator: PathSeparator,
}

/// What an item is, as a value.
pub enum ItemView {
    Module { name: Seq<char>, items: Seq<ItemView> },
    Class { name: Seq<char>, items: Seq<ItemView>, superclass: Option<Seq<PathSegmentView>> },
    Function { name: Seq<char>, statements: Seq<ExprView> },
    Stmt(ExprView),
}

impl PathSegmentKindView {
    /// The name, whatever its kind.
    pub open spec fn name(self) -> Seq<char> {
        match self {
            PathSegmentKindView::Identifier(name) => name,
            PathSegmentKindView::Constant(name) => name,
        }
    }

    /// The kind of a word: a constant if it starts in upper case, else an
    /// identifier.
    pub open spec fn of(word: Seq<char>) -> PathSegmentKindView {
        if word.len() > 0 && uppercase(word[0]) {
            PathSegmentKindView::Constant(word)
        } else {
            PathSegmentKindView::Identifier(word)
        }
    }
}

impl View for PathSegmentKind {
    type V = PathSegmentKindView;

    open spec fn view(&self) -> PathSegmentKindView {
        match self {
            PathSegmentKind::Identifier(identifier) => PathSegmentKindView::Identifier(
                identifier.0@,
            ),
            PathSegmentKind::Constant(constant) => PathSegmentKindView::Constant(constant.0@),
        }
    }
}

impl View for PathSegment {
    type V = PathSegmentView;

    open spec fn view(&self) -> PathSegmentView {
        PathSegmentView { kind: self.kind@, separator: self.separator }
    }
}

impl View for Path {
    type V = Seq<PathSegmentView>;

    open spec fn view(&self) -> Seq<PathSegmentView> {
        self.parts@.map_values(|segment: PathSegment| segment@)
    }
}

/// The names of the segments of a path.
pub open spec fn textual_parts(path: Seq<PathSegmentView>) -> Seq<Seq<char>> {
    path.map_values(|segment: PathSegmentView| segment.kind.name())
}

/// Whether every segment of a path is a constant.
pub open spec fn is_constant(path: Seq<PathSegmentView>) -> bool {
    forall|i: int| 0 <= i < path.len() ==> (#[trigger] path[i]).kind is Constant
}

impl Item {
    /// The value of the item.
    pub open spec fn model(&self) -> ItemView
        decreases self,
    {
        match self {
            Item::Module(module) => ItemView::Module {
                name: module.name@,
                items: Seq::new(
                    module.items@.len(),
                    |i: int|
                        if 0 <= i < module.items@.len() {
                            module.items@[i].model()
                        } else {
                            arbitrary()
                        },
                ),
            },
            Item::Class(class) => ItemView::Class {
                name: class.name@,
                items: Seq::new(
                    class.items@.len(),
                    |i: int|
                        if 0 <= i < class.items@.len() {
                            class.items@[i].model()
                        } else {
                            arbitrary()
                        },
                ),
                superclass: match class.superclass {
                    Some(path) => Some(path@),
                    None => None,
                },
            },
            Item::Function(function) => ItemView::Function {
                name: function.name@,
                statements: function.statements@.map_values(|e: Expr| e@),
            },
            Item::Stmt(e) => ItemView::Stmt(e@),
        }
    }
}

impl View for Item {
    type V = ItemView;

    open spec fn view(&self) -> ItemView {
        self.model()
    }
}

/// The values of a list of items.
pub open spec fn item_views(items: Seq<Item>) -> Seq<ItemView> {
    items.map_values(|item: Item| item@)
}

impl View for Module {
    type V = ItemView;

    open spec fn view(&self) -> ItemView {
        ItemView::Module { name: self.name@, items: item_views(self.items@) }
    }
}

impl View for Class {
    type V = ItemView;

    open spec fn view(&self) -> ItemView {
        ItemView::Class {
            name: self.name@,
            items: item_views(self.items@),
            superclass: match self.superclass {
                Some(path) => Some(path@),
                None => None,
            },
        }
    }
}

impl View for Function {
    type V = ItemView;

    open spec fn view(&self) -> ItemView {
        ItemView::Function {
            name: self.name@,
            statements: self.statements@.map_values(|e: Expr| e@),
        }
    }
}

impl View for Program {
    type V = Seq<ItemView>;

    open spec fn view(&self) -> Seq<ItemView> {
        item_views(self.items@)
    }
}

impl Program {
    /// A program without items.
    pub fn new() -> (program: Self)
        ensures
            program@ == Seq::<ItemView>::empty(),
    {
        let program = Program { items: Vec::new() };
        assert(program@ =~= Seq::<ItemView>::empty());
        program
    }
}

impl Module {
    /// A module without items.
    pub fn new(name: &str) -> (module: Self)
        ensures
            module@ == (ItemView::Module { name: name@, items: seq![] }),
    {
        let module = Module { name: name.to_owned(), items: Vec::new() };
        assert(item_views(module.items@) =~= seq![]);
        module
    }
}

impl Class {
    /// A class without items and without a superclass.
    pub fn new(name: &str) -> (class: Self)
        ensures
            class@ == (ItemView::Class { name: name@, items: seq![], superclass: None }),
    {
        let class = Class { name: name.to_owned(), items: Vec::new(), superclass: None };
        assert(item_views(class.items@) =~= seq![]);
        class
    }
}

impl PathSegmentKind {
    /// The kind of a word: a constant if it starts in upper case, else an
    /// identifier.
    pub fn new(word: String) -> (kind: Self)
        ensures
            kind@ == PathSegmentKindView::of(word@),
    {
        if !word.as_str().is_empty() && char_is_uppercase(word.as_str().get_char(0)) {
            PathSegmentKind::Constant(Constant(word))
        } else {
            PathSegmentKind::Identifier(Identifier(word))
        }
    }

    /// The name, whatever its kind.
    pub fn name(&self) -> (name: &String)
        ensures
            name@ == self@.name(),
    {
        match self {
            PathSegmentKind::Identifier(identifier) => &identifier.0,
            PathSegmentKind::Constant(constant) => &constant.0,
        }
    }

    pub fn is_constant(&self) -> (yes: bool)
        ensures
            yes == (self@ is Constant),
    {
        match self {
            PathSegmentKind::Identifier(_) => false,
            PathSegmentKind::Constant(_) => true,
        }
    }
}

impl Clone for PathSegmentKind {
    fn clone(&self) -> (copy: Self)
        ensures
            copy@ == self@,
    {
        match self {
            PathSegmentKind::Identifier(identifier) => PathSegmentKind::Identifier(
                Identifier(identifier.0.clone()),
            ),
            PathSegmentKind::Constant(constant) => PathSegmentKind::Constant(
                Constant(constant.0.clone()),
            ),
        }
    }
}

impl Clone for PathSegment {
    fn clone(&self) -> (copy: Self)
        ensures
            copy@ == self@,
    {
        PathSegment { kind: self.kind.clone(), separator: self.separator }
    }
}

impl Clone for Path {
    fn clone(&self) -> (copy: Self)
        ensures
            copy@ == self@,
    {
        let mut parts: Vec<PathSegment> = Vec::new();
        let mut i: usize = 0;
        while i < self.parts.len()
            invariant
                i <= self.parts.len(),
                parts@.len() == i,
                forall|k: int| 0 <= k < i ==> parts@[k]@ == self.parts@[k]@,
            decreases self.parts.len() - i,
        {
            parts.push(self.parts[i].clone());
            i += 1;
        }
        let copy = Path { parts };
        assert(copy@ =~= self@);
        copy
    }
}

/// A copy of an item.
fn copy_item(item: &Item) -> (copy: Item)
    ensures
        copy@ == item@,
    decreases item, 0int,
{
    match item {
        Item::Module(module) => {
            let copy = Module { name: module.name.clone(), items: copy_items(&module.items) };
            proof {
                lemma_module_view(copy);
                lemma_module_view(*module);
            }
            Item::Module(copy)
        },
        Item::Class(class) => {
            let copy = Class {
                name: class.name.clone(),
                items: copy_items(&class.items),
                superclass: match &class.superclass {
                    Some(path) => Some(path.clone()),
                    None => None,
                },
            };
            proof {
                lemma_class_view(copy);
                lemma_class_view(*class);
            }
            Item::Class(copy)
        },
        Item::Function(function) => Item::Function(
            Function {
                name: function.name.clone(),
                statements: self::expr::copy_exprs(&function.statements),
            },
        ),
        Item::Stmt(expr) => Item::Stmt(expr.clone()),
    }
}

/// A copy of a list of items.
fn copy_items(items: &Vec<Item>) -> (copy: Vec<Item>)
    ensures
        item_views(copy@) == item_views(items@),
    decreases items, 1int,
{
    let mut copy: Vec<Item> = Vec::new();
    let mut i: usize = 0;
    while i < items.len()
        invariant
            i <= items.len(),
            copy@.len() == i,
            forall|k: int| 0 <= k < i ==> copy@[k]@ == items@[k]@,
        decreases items.len() - i,
    {
        copy.push(copy_item(&items[i]));
        i += 1;
    }
    assert(item_views(copy@) =~= item_views(items@));
    copy
}

impl Clone for Item {
    fn clone(&self) -> (copy: Self)
        ensures
            copy@ == self@,
    {
        copy_item(self)
    }
}

impl Clone for Module {
    fn clone(&self) -> (copy: Self)
        ensures
            copy@ == self@,
    {
        Module { name: self.name.clone(), items: copy_items(&self.items) }
    }
}

impl Clone for Class {
    fn clone(&self) -> (copy: Self)
        ensures
            copy@ == self@,
    {
        Class {
            name: self.name.clone(),
            items: copy_items(&self.items),
            superclass: match &self.superclass {
                Some(path) => Some(path.clone()),
                None => None,
            },
        }
    }
}

impl Clone for Function {
    fn clone(&self) -> (copy: Self)
        ensures
            copy@ == self@,
    {
        Function {
            name: self.name.clone(),
            statements: self::expr::copy_exprs(&self.statements),
        }
    }
}

impl Clone for Program {
    fn clone(&self) -> (copy: Self)
        ensures
            copy@ == self@,
    {
        Program { items: copy_items(&self.items) }
    }
}

impl Path {
    /// Whether every segment of the path is a constant.
    pub fn is_constant(&self) -> (yes: bool)
        ensures
            yes == is_constant(self@),
    {
        let mut i: usize = 0;
        while i < self.parts.len()
            invariant
                i <= self.parts.len(),
                forall|k: int| 0 <= k < i ==> (#[trigger] self@[k]).kind is Constant,
            decreases self.parts.len() - i,
        {
            if !self.parts[i].kind.is_constant() {
                assert(!(self@[i as int].kind is Constant));
                return false;
            }
            i += 1;
        }
        true
    }
}

/// The value of a call is the value of its callee and of its arguments.
pub proof fn lemma_call_view(call: CallExpr)
    ensures
        Expr::Call(call)@ == (ExprView::Call {
            callee: call.callee@,
            arguments: self::expr::argument_views(call.arguments@),
        }),
{
    let model = Expr::Call(call).model();
    match model {
        ExprView::Call { callee, arguments } => {
            assert(arguments =~= self::expr::argument_views(call.arguments@));
        },
        _ => {},
    }
}

/// The value of a module as an item is the value of the module.
pub proof fn lemma_module_view(module: Module)
    ensures
        Item::Module(module)@ == module@,
{
    match Item::Module(module).model() {
        ItemView::Module { name, items } => {
            assert(items =~= item_views(module.items@));
        },
        _ => {},
    }
}

/// The value of a class as an item is the value of the class.
pub proof fn lemma_class_view(class: Class)
    ensures
        Item::Class(class)@ == class@,
{
    match Item::Class(class).model() {
        ItemView::Class { name, items, superclass } => {
            assert(items =~= item_views(class.items@));
        },
        _ => {},
    }
}

} // verus!
