//! What a build does, step by step, as a function on the state of the
//! builder.
use vstd::prelude::*;
use crate::ast::{ItemView, PathSegmentView, is_constant};
use crate::ir::{ClassView, FunctionView, ItemIdView, ModuleView, ProgramView};
use crate::ir::build::scope::{ScopeView, resolve};

verus! {

/// Why a syntax tree is not lowered.
pub enum ErrorView {
    /// The path leads to no open scope.
    Unresolved(Seq<PathSegmentView>),
    /// The path leads to a scope that is no class.
    NotAClass(Seq<PathSegmentView>),
    /// A statement stands where only declarations are lowered.
    Statement,
    /// Every identifier has been handed out.
    OutOfIdentifiers,
}

/// The state of a build: the number of the last identifier handed out, the
/// scopes that are open, the global scope first, and what has been lowered
/// so far.
pub struct ContextView {
    pub issued: u64,
    pub scopes: Seq<ScopeView>,
    pub modules: Seq<ModuleView>,
    pub classes: Seq<ClassView>,
    pub functions: Seq<FunctionView>,
}

impl ContextView {
    /// The state at the start of a build: the global scope has taken the
    /// first identifier.
    pub open spec fn start() -> ContextView {
        ContextView::start_after(0)
    }

    /// The state at the start of a build that goes on behind the
    /// identifier `last`: the global scope has taken the next one.
    pub open spec fn start_after(last: u64) -> ContextView {
        let id = (last + 1) as u64;
        ContextView {
            issued: id,
            scopes: seq![ScopeView::empty(seq![], ItemIdView::Module(id))],
            modules: seq![],
            classes: seq![],
            functions: seq![],
        }
    }

    /// The state with `scope` in place of the innermost scope.
    pub open spec fn with_current(self, scope: ScopeView) -> ContextView {
        ContextView { scopes: self.scopes.update(self.scopes.len() - 1, scope), ..self }
    }
}

/// The class that a superclass path names: the class that the scope which
/// the path leads to stands for.
pub open spec fn lower_superclass(
    scopes: Seq<ScopeView>,
    superclass: Option<Seq<PathSegmentView>>,
) -> Result<Option<u64>, ErrorView> {
    match superclass {
        None => Ok(None),
        Some(path) => if !is_constant(path) {
            Err(ErrorView::Unresolved(path))
        } else {
            match resolve(scopes, path) {
                None => Err(ErrorView::Unresolved(path)),
                Some(scope) => match scope.id {
                    ItemIdView::Class(id) => Ok(Some(id)),
                    _ => Err(ErrorView::NotAClass(path)),
                },
            }
        },
    }
}

/// The state after an item has been lowered.
///
/// A module or a class takes a new identifier, is declared in the innermost
/// scope and opens a scope of its own for its items; when they are done the
/// scope is closed and the module or class is added to what has been
/// lowered. The superclass of a class is resolved before anything else
/// happens, so a class can only descend from one that encloses it. A
/// function takes a new identifier and is declared in the innermost scope;
/// its statements are not lowered.
pub open spec fn lower_item(state: ContextView, item: ItemView) -> Result<ContextView, ErrorView>
    decreases item, 0int,
{
    match item {
        ItemView::Module { name, items } => if state.issued == u64::MAX {
            Err(ErrorView::OutOfIdentifiers)
        } else {
            let id = (state.issued + 1) as u64;
            let opened = ContextView {
                issued: id,
                scopes: state.with_current(state.scopes.last().with_module(name, id)).scopes.push(
                    ScopeView::empty(name, ItemIdView::Module(id)),
                ),
                ..state
            };
            match lower_items(opened, items) {
                Err(error) => Err(error),
                Ok(done) => Ok(
                    ContextView {
                        modules: done.modules.push(ModuleView { id, name }),
                        scopes: done.scopes.drop_last(),
                        ..done
                    },
                ),
            }
        },
        ItemView::Class { name, items, superclass } => match lower_superclass(
            state.scopes,
            superclass,
        ) {
            Err(error) => Err(error),
            Ok(superclass) => if state.issued == u64::MAX {
                Err(ErrorView::OutOfIdentifiers)
            } else {
                let id = (state.issued + 1) as u64;
                let opened = ContextView {
                    issued: id,
                    scopes: state.with_current(
                        state.scopes.last().with_class(name, id),
                    ).scopes.push(ScopeView::empty(name, ItemIdView::Class(id))),
                    ..state
                };
                match lower_items(opened, items) {
                    Err(error) => Err(error),
                    Ok(done) => Ok(
                        ContextView {
                            classes: done.classes.push(ClassView { id, name, superclass }),
                            scopes: done.scopes.drop_last(),
                            ..done
                        },
                    ),
                }
            },
        },
        ItemView::Function { name, statements } => if state.issued == u64::MAX {
            Err(ErrorView::OutOfIdentifiers)
        } else {
            let id = (state.issued + 1) as u64;
            Ok(
                ContextView {
                    issued: id,
                    scopes: state.with_current(state.scopes.last().with_function(name, id)).scopes,
                    functions: state.functions.push(FunctionView { id, name, statements: seq![] }),
                    ..state
                },
            )
        },
        ItemView::Stmt(_) => Err(ErrorView::Statement),
    }
}

/// The state after a list of items has been lowered, one after the other.
pub open spec fn lower_items(state: ContextView, items: Seq<ItemView>) -> Result<
    ContextView,
    ErrorView,
>
    decreases items, 1int,
{
    if items.len() == 0 {
        Ok(state)
    } else {
        match lower_items(state, items.drop_last()) {
            Err(error) => Err(error),
            Ok(before) => lower_item(before, items.last()),
        }
    }
}

/// Lowering stops at the first item that fails: if some of the first items
/// of a list cannot be lowered, the list cannot, for the same reason.
pub proof fn lemma_lower_items_fails_early(state: ContextView, items: Seq<ItemView>, n: int)
    requires
        0 <= n <= items.len(),
        lower_items(state, items.take(n)) is Err,
    ensures
        lower_items(state, items) == lower_items(state, items.take(n)),
    decreases items.len() - n,
{
    if n == items.len() {
        assert(items.take(n) =~= items);
    } else {
        assert(items.take(n + 1).drop_last() =~= items.take(n));
        lemma_lower_items_fails_early(state, items, n + 1);
    }
}

/// What the open scopes stand for, the global scope first.
pub open spec fn open_ids(scopes: Seq<ScopeView>) -> Seq<ItemIdView> {
    scopes.map_values(|scope: ScopeView| scope.id)
}

/// Whether the class `id` has been lowered.
pub open spec fn listed(classes: Seq<ClassView>, id: u64) -> bool {
    exists|i: int| 0 <= i < classes.len() && (#[trigger] classes[i]).id == id
}

/// Whether the scope of the class `id` is open.
pub open spec fn open_class(ids: Seq<ItemIdView>, id: u64) -> bool {
    exists|i: int| 0 <= i < ids.len() && #[trigger] ids[i] == ItemIdView::Class(id)
}

/// No identifier in the state is one that has not been handed out.
pub open spec fn bounded(state: ContextView) -> bool {
    &&& forall|i: int|
        0 <= i < state.modules.len() ==> (#[trigger] state.modules[i]).id <= state.issued
    &&& forall|i: int|
        0 <= i < state.classes.len() ==> (#[trigger] state.classes[i]).id <= state.issued
    &&& forall|i: int|
        0 <= i < state.functions.len() ==> (#[trigger] state.functions[i]).id <= state.issued
    &&& forall|i: int|
        0 <= i < state.scopes.len() ==> (#[trigger] open_ids(state.scopes)[i]).number()
            <= state.issued
}

/// No two of the modules, classes and functions lowered so far and of the
/// scopes that are open have the same identifier.
pub open spec fn distinct(state: ContextView) -> bool {
    let open = open_ids(state.scopes);
    &&& forall|i: int, j: int|
        0 <= i < j < state.modules.len() ==> (#[trigger] state.modules[i]).id
            != (#[trigger] state.modules[j]).id
    &&& forall|i: int, j: int|
        0 <= i < j < state.classes.len() ==> (#[trigger] state.classes[i]).id
            != (#[trigger] state.classes[j]).id
    &&& forall|i: int, j: int|
        0 <= i < j < state.functions.len() ==> (#[trigger] state.functions[i]).id
            != (#[trigger] state.functions[j]).id
    &&& forall|i: int, j: int|
        0 <= i < j < open.len() ==> (#[trigger] open[i]).number() != (#[trigger] open[j]).number()
    &&& forall|i: int, j: int|
        0 <= i < state.modules.len() && 0 <= j < state.classes.len() ==> (
        #[trigger] state.modules[i]).id != (#[trigger] state.classes[j]).id
    &&& forall|i: int, j: int|
        0 <= i < state.modules.len() && 0 <= j < state.functions.len() ==> (
        #[trigger] state.modules[i]).id != (#[trigger] state.functions[j]).id
    &&& forall|i: int, j: int|
        0 <= i < state.classes.len() && 0 <= j < state.functions.len() ==> (
        #[trigger] state.classes[i]).id != (#[trigger] state.functions[j]).id
    &&& forall|i: int, j: int|
        0 <= i < open.len() && 0 <= j < state.modules.len() ==> (#[trigger] open[i]).number() != (
        #[trigger] state.modules[j]).id
    &&& forall|i: int, j: int|
        0 <= i < open.len() && 0 <= j < state.classes.len() ==> (#[trigger] open[i]).number() != (
        #[trigger] state.classes[j]).id
    &&& forall|i: int, j: int|
        0 <= i < open.len() && 0 <= j < state.functions.len() ==> (#[trigger] open[i]).number()
            != (#[trigger] state.functions[j]).id
}

/// The superclass of every class lowered so far was declared before the
/// class, and is itself a class: one lowered so far, or one whose scope is
/// still open.
pub open spec fn descends(state: ContextView) -> bool {
    forall|i: int|
        0 <= i < state.classes.len() ==> match (#[trigger] state.classes[i]).superclass {
            Some(parent) => parent < state.classes[i].id && (listed(state.classes, parent)
                || open_class(open_ids(state.scopes), parent)),
            None => true,
        }
}

/// What holds of the state of a build at every step.
pub open spec fn sound(state: ContextView) -> bool {
    &&& state.scopes.len() > 0
    &&& bounded(state)
    &&& distinct(state)
    &&& descends(state)
}

/// The kinds of declarations.
pub enum Kind {
    Module,
    Class,
    Function,
}

/// How many declarations of a kind an item holds, itself counted.
pub open spec fn declarations(item: ItemView, kind: Kind) -> nat
    decreases item, 0int,
{
    match item {
        ItemView::Module { name, items } => declarations_in(items, kind) + if kind is Module {
            1nat
        } else {
            0nat
        },
        ItemView::Class { name, items, superclass } => declarations_in(items, kind)
            + if kind is Class {
            1nat
        } else {
            0nat
        },
        ItemView::Function { name, statements } => if kind is Function {
            1nat
        } else {
            0nat
        },
        ItemView::Stmt(_) => 0nat,
    }
}

/// How many declarations of a kind a list of items holds.
pub open spec fn declarations_in(items: Seq<ItemView>, kind: Kind) -> nat
    decreases items, 1int,
{
    if items.len() == 0 {
        0nat
    } else {
        declarations_in(items.drop_last(), kind) + declarations(items.last(), kind)
    }
}

/// How many more entries `after` has than `before`, kind by kind: one for
/// each declaration of `count`.
pub open spec fn grown_by(
    before: ContextView,
    after: ContextView,
    count: spec_fn(Kind) -> nat,
) -> bool {
    &&& after.modules.len() == before.modules.len() + count(Kind::Module)
    &&& after.classes.len() == before.classes.len() + count(Kind::Class)
    &&& after.functions.len() == before.functions.len() + count(Kind::Function)
}

/// What a step of a build keeps and adds: the state stays sound, the same
/// scopes are open, and there is one more entry for each declaration of
/// `count`.
pub open spec fn kept(before: ContextView, after: ContextView, count: spec_fn(Kind) -> nat) -> bool {
    &&& sound(after)
    &&& open_ids(after.scopes) == open_ids(before.scopes)
    &&& grown_by(before, after, count)
}

/// The start of a build is sound.
pub proof fn lemma_start_is_sound(last: u64)
    requires
        last < u64::MAX,
    ensures
        sound(ContextView::start_after(last)),
{
}

/// Opening the scope of a new module or class keeps the state sound.
pub proof fn lemma_open_keeps_sound(state: ContextView, opened: ContextView, id: ItemIdView)
    requires
        sound(state),
        state.issued < u64::MAX,
        id.number() == state.issued + 1,
        opened.issued == state.issued + 1,
        open_ids(opened.scopes) == open_ids(state.scopes).push(id),
        opened.modules == state.modules,
        opened.classes == state.classes,
        opened.functions == state.functions,
    ensures
        sound(opened),
{
    let open = open_ids(opened.scopes);
    let before = open_ids(state.scopes);
    assert(opened.scopes.len() == open.len());
    assert(state.scopes.len() == before.len());
    assert forall|i: int| 0 <= i < open.len() implies (#[trigger] open[i]).number()
        <= opened.issued by {
        if i < before.len() {
            assert(open[i] == before[i]);
        }
    }
    assert forall|i: int, j: int| 0 <= i < j < open.len() implies (#[trigger] open[i]).number() != (
    #[trigger] open[j]).number() by {
        assert(open[i] == before[i]);
        if j < before.len() {
            assert(open[j] == before[j]);
        }
    }
    assert forall|i: int, j: int| 0 <= i < open.len() && 0 <= j < opened.modules.len() implies (
    #[trigger] open[i]).number() != (#[trigger] opened.modules[j]).id by {
        if i < before.len() {
            assert(open[i] == before[i]);
        }
    }
    assert forall|i: int, j: int| 0 <= i < open.len() && 0 <= j < opened.classes.len() implies (
    #[trigger] open[i]).number() != (#[trigger] opened.classes[j]).id by {
        if i < before.len() {
            assert(open[i] == before[i]);
        }
    }
    assert forall|i: int, j: int| 0 <= i < open.len() && 0 <= j < opened.functions.len() implies (
    #[trigger] open[i]).number() != (#[trigger] opened.functions[j]).id by {
        if i < before.len() {
            assert(open[i] == before[i]);
        }
    }
    assert forall|i: int| 0 <= i < opened.classes.len() implies match (
    #[trigger] opened.classes[i]).superclass {
        Some(parent) => parent < opened.classes[i].id && (listed(opened.classes, parent)
            || open_class(open, parent)),
        None => true,
    } by {
        match state.classes[i].superclass {
            Some(parent) => {
                if open_class(before, parent) {
                    let k = choose|k: int|
                        0 <= k < before.len() && #[trigger] before[k] == ItemIdView::Class(parent);
                    assert(open[k] == ItemIdView::Class(parent));
                }
            },
            None => {},
        }
    }
}

/// Closing the scope of a module and adding the module to what has been
/// lowered keeps the state sound.
pub proof fn lemma_close_module_keeps_sound(done: ContextView, closed: ContextView, module: ModuleView)
    requires
        sound(done),
        done.scopes.len() > 1,
        open_ids(done.scopes).last() == ItemIdView::Module(module.id),
        closed.issued == done.issued,
        closed.scopes == done.scopes.drop_last(),
        closed.modules == done.modules.push(module),
        closed.classes == done.classes,
        closed.functions == done.functions,
    ensures
        sound(closed),
{
    let open = open_ids(closed.scopes);
    let before = open_ids(done.scopes);
    let top = before.len() - 1;
    assert(open =~= before.drop_last());
    assert(before[top].number() == module.id);
    assert forall|i: int| 0 <= i < open.len() implies (#[trigger] open[i]).number()
        <= closed.issued by {
        assert(open[i] == before[i]);
    }
    assert forall|i: int, j: int| 0 <= i < j < closed.modules.len() implies (
    #[trigger] closed.modules[i]).id != (#[trigger] closed.modules[j]).id by {
        if j == done.modules.len() {
            assert(before[top].number() != done.modules[i].id);
        }
    }
    assert forall|i: int, j: int| 0 <= i < j < open.len() implies (#[trigger] open[i]).number() != (
    #[trigger] open[j]).number() by {
        assert(open[i] == before[i]);
        assert(open[j] == before[j]);
    }
    assert forall|i: int, j: int|
        0 <= i < closed.modules.len() && 0 <= j < closed.classes.len() implies (
    #[trigger] closed.modules[i]).id != (#[trigger] closed.classes[j]).id by {
        if i == done.modules.len() {
            assert(before[top].number() != done.classes[j].id);
        }
    }
    assert forall|i: int, j: int|
        0 <= i < closed.modules.len() && 0 <= j < closed.functions.len() implies (
    #[trigger] closed.modules[i]).id != (#[trigger] closed.functions[j]).id by {
        if i == done.modules.len() {
            assert(before[top].number() != done.functions[j].id);
        }
    }
    assert forall|i: int, j: int| 0 <= i < open.len() && 0 <= j < closed.modules.len() implies (
    #[trigger] open[i]).number() != (#[trigger] closed.modules[j]).id by {
        assert(open[i] == before[i]);
        if j == done.modules.len() {
            assert(before[i].number() != before[top].number());
        }
    }
    assert forall|i: int, j: int| 0 <= i < open.len() && 0 <= j < closed.classes.len() implies (
    #[trigger] open[i]).number() != (#[trigger] closed.classes[j]).id by {
        assert(open[i] == before[i]);
    }
    assert forall|i: int, j: int| 0 <= i < open.len() && 0 <= j < closed.functions.len() implies (
    #[trigger] open[i]).number() != (#[trigger] closed.functions[j]).id by {
        assert(open[i] == before[i]);
    }
    assert forall|i: int| 0 <= i < closed.classes.len() implies match (
    #[trigger] closed.classes[i]).superclass {
        Some(parent) => parent < closed.classes[i].id && (listed(closed.classes, parent)
            || open_class(open, parent)),
        None => true,
    } by {
        match done.classes[i].superclass {
            Some(parent) => {
                if open_class(before, parent) {
                    let k = choose|k: int|
                        0 <= k < before.len() && #[trigger] before[k] == ItemIdView::Class(parent);
                    assert(k != top);
                    assert(open[k] == ItemIdView::Class(parent));
                }
            },
            None => {},
        }
    }
}

/// Closing the scope of a class and adding the class to what has been
/// lowered keeps the state sound, if the superclass of the class is a
/// class whose scope stays open and that was declared before it.
pub proof fn lemma_close_class_keeps_sound(done: ContextView, closed: ContextView, class: ClassView)
    requires
        sound(done),
        done.scopes.len() > 1,
        open_ids(done.scopes).last() == ItemIdView::Class(class.id),
        class.superclass matches Some(parent) ==> parent < class.id && open_class(
            open_ids(done.scopes).drop_last(),
            parent,
        ),
        closed.issued == done.issued,
        closed.scopes == done.scopes.drop_last(),
        closed.modules == done.modules,
        closed.classes == done.classes.push(class),
        closed.functions == done.functions,
    ensures
        sound(closed),
{
    let open = open_ids(closed.scopes);
    let before = open_ids(done.scopes);
    let top = before.len() - 1;
    assert(open =~= before.drop_last());
    assert(before[top].number() == class.id);
    assert forall|i: int| 0 <= i < open.len() implies (#[trigger] open[i]).number()
        <= closed.issued by {
        assert(open[i] == before[i]);
    }
    assert forall|i: int, j: int| 0 <= i < j < closed.classes.len() implies (
    #[trigger] closed.classes[i]).id != (#[trigger] closed.classes[j]).id by {
        if j == done.classes.len() {
            assert(before[top].number() != done.classes[i].id);
        }
    }
    assert forall|i: int, j: int| 0 <= i < j < open.len() implies (#[trigger] open[i]).number() != (
    #[trigger] open[j]).number() by {
        assert(open[i] == before[i]);
        assert(open[j] == before[j]);
    }
    assert forall|i: int, j: int|
        0 <= i < closed.modules.len() && 0 <= j < closed.classes.len() implies (
    #[trigger] closed.modules[i]).id != (#[trigger] closed.classes[j]).id by {
        if j == done.classes.len() {
            assert(before[top].number() != done.modules[i].id);
        }
    }
    assert forall|i: int, j: int|
        0 <= i < closed.classes.len() && 0 <= j < closed.functions.len() implies (
    #[trigger] closed.classes[i]).id != (#[trigger] closed.functions[j]).id by {
        if i == done.classes.len() {
            assert(before[top].number() != done.functions[j].id);
        }
    }
    assert forall|i: int, j: int| 0 <= i < open.len() && 0 <= j < closed.modules.len() implies (
    #[trigger] open[i]).number() != (#[trigger] closed.modules[j]).id by {
        assert(open[i] == before[i]);
    }
    assert forall|i: int, j: int| 0 <= i < open.len() && 0 <= j < closed.classes.len() implies (
    #[trigger] open[i]).number() != (#[trigger] closed.classes[j]).id by {
        assert(open[i] == before[i]);
        if j == done.classes.len() {
            assert(before[i].number() != before[top].number());
        }
    }
    assert forall|i: int, j: int| 0 <= i < open.len() && 0 <= j < closed.functions.len() implies (
    #[trigger] open[i]).number() != (#[trigger] closed.functions[j]).id by {
        assert(open[i] == before[i]);
    }
    assert forall|i: int| 0 <= i < closed.classes.len() implies match (
    #[trigger] closed.classes[i]).superclass {
        Some(parent) => parent < closed.classes[i].id && (listed(closed.classes, parent)
            || open_class(open, parent)),
        None => true,
    } by {
        if i < done.classes.len() {
            match done.classes[i].superclass {
                Some(parent) => {
                    if listed(done.classes, parent) {
                        let k = choose|k: int|
                            0 <= k < done.classes.len() && (#[trigger] done.classes[k]).id
                                == parent;
                        assert(closed.classes[k].id == parent);
                    } else {
                        let k = choose|k: int|
                            0 <= k < before.len() && #[trigger] before[k] == ItemIdView::Class(
                                parent,
                            );
                        if k == top {
                            assert(closed.classes[done.classes.len() as int].id == parent);
                        } else {
                            assert(open[k] == ItemIdView::Class(parent));
                        }
                    }
                },
                None => {},
            }
        }
    }
}

/// Adding a function under a new identifier keeps the state sound.
pub proof fn lemma_function_keeps_sound(state: ContextView, added: ContextView, function: FunctionView)
    requires
        sound(state),
        state.issued < u64::MAX,
        function.id == state.issued + 1,
        added.issued == state.issued + 1,
        open_ids(added.scopes) == open_ids(state.scopes),
        added.modules == state.modules,
        added.classes == state.classes,
        added.functions == state.functions.push(function),
    ensures
        sound(added),
{
    let open = open_ids(added.scopes);
    assert(added.scopes.len() == open.len());
    assert(state.scopes.len() == open.len());
    assert forall|i: int, j: int| 0 <= i < j < added.functions.len() implies (
    #[trigger] added.functions[i]).id != (#[trigger] added.functions[j]).id by {
        if j == state.functions.len() {
            assert(state.functions[i].id <= state.issued);
        }
    }
    assert forall|i: int| 0 <= i < added.classes.len() implies match (
    #[trigger] added.classes[i]).superclass {
        Some(parent) => parent < added.classes[i].id && (listed(added.classes, parent)
            || open_class(open, parent)),
        None => true,
    } by {
        assert(added.classes[i] == state.classes[i]);
    }
}

/// The table of a list of entries: each entry under the number that `key`
/// gives it. Of two entries with the same number the first one stays.
pub open spec fn table<T>(entries: Seq<T>, key: spec_fn(T) -> u64) -> Map<u64, T>
    decreases entries.len(),
{
    if entries.len() == 0 {
        Map::empty()
    } else {
        table(entries.drop_first(), key).insert(key(entries[0]), entries[0])
    }
}

/// The number of the identifier of a module.
pub open spec fn module_key() -> spec_fn(ModuleView) -> u64 {
    |module: ModuleView| module.id
}

/// The number of the identifier of a class.
pub open spec fn class_key() -> spec_fn(ClassView) -> u64 {
    |class: ClassView| class.id
}

/// The number of the identifier of a function.
pub open spec fn function_key() -> spec_fn(FunctionView) -> u64 {
    |function: FunctionView| function.id
}

/// The program that a build ends with: what has been lowered, each entry
/// under the number of its identifier.
pub open spec fn program_of(state: ContextView) -> ProgramView {
    ProgramView {
        modules: table(state.modules, module_key()),
        classes: table(state.classes, class_key()),
        functions: table(state.functions, function_key()),
    }
}

/// The intermediate representation of a program: what the build that
/// starts with nothing but the global scope ends with when it has lowered
/// the items of the program.
pub open spec fn lower_program(items: Seq<ItemView>) -> Result<ProgramView, ErrorView> {
    match lower_items(ContextView::start(), items) {
        Ok(state) => Ok(program_of(state)),
        Err(error) => Err(error),
    }
}

/// A table of entries with different numbers holds each entry under its
/// number, and nothing else.
pub proof fn lemma_table<T>(entries: Seq<T>, key: spec_fn(T) -> u64)
    requires
        forall|i: int, j: int|
            0 <= i < j < entries.len() ==> key(#[trigger] entries[i]) != key(
                #[trigger] entries[j],
            ),
    ensures
        table(entries, key).dom().finite(),
        table(entries, key).dom().len() == entries.len(),
        forall|i: int|
            0 <= i < entries.len() ==> table(entries, key).dom().contains(
                key(#[trigger] entries[i]),
            ) && table(entries, key)[key(entries[i])] == entries[i],
        forall|k: u64| #[trigger]
            table(entries, key).dom().contains(k) ==> exists|i: int|
                0 <= i < entries.len() && key(#[trigger] entries[i]) == k,
    decreases entries.len(),
{
    if entries.len() > 0 {
        let rest = entries.drop_first();
        assert forall|i: int, j: int| 0 <= i < j < rest.len() implies key(#[trigger] rest[i])
            != key(#[trigger] rest[j]) by {
            assert(rest[i] == entries[i + 1]);
            assert(rest[j] == entries[j + 1]);
        }
        lemma_table(rest, key);
        let first = key(entries[0]);
        if table(rest, key).dom().contains(first) {
            let i = choose|i: int| 0 <= i < rest.len() && key(#[trigger] rest[i]) == first;
            assert(rest[i] == entries[i + 1]);
            assert(false);
        }
        assert forall|i: int| 0 <= i < entries.len() implies table(entries, key).dom().contains(
            key(#[trigger] entries[i]),
        ) && table(entries, key)[key(entries[i])] == entries[i] by {
            if i > 0 {
                assert(rest[i - 1] == entries[i]);
            }
        }
        assert forall|k: u64| #[trigger] table(entries, key).dom().contains(k) implies exists|
            i: int,
        |
            0 <= i < entries.len() && key(#[trigger] entries[i]) == k by {
            if k != first {
                let i = choose|i: int| 0 <= i < rest.len() && key(#[trigger] rest[i]) == k;
                assert(rest[i] == entries[i + 1]);
            }
        }
    }
}

/// No identifier is used twice: each kind of declaration has as many
/// entries as the program has declarations of that kind, each entry stands
/// under the number of its own identifier, and no number stands in two of
/// the tables.
pub open spec fn identifiers_unique(program: ProgramView, items: Seq<ItemView>) -> bool {
    &&& program.modules.dom().finite()
    &&& program.classes.dom().finite()
    &&& program.functions.dom().finite()
    &&& program.modules.dom().len() == declarations_in(items, Kind::Module)
    &&& program.classes.dom().len() == declarations_in(items, Kind::Class)
    &&& program.functions.dom().len() == declarations_in(items, Kind::Function)
    &&& forall|id: u64| #[trigger]
        program.modules.dom().contains(id) ==> program.modules[id].id == id
            && !program.classes.dom().contains(id) && !program.functions.dom().contains(id)
    &&& forall|id: u64| #[trigger]
        program.classes.dom().contains(id) ==> program.classes[id].id == id
            && !program.functions.dom().contains(id)
    &&& forall|id: u64| #[trigger]
        program.functions.dom().contains(id) ==> program.functions[id].id == id
}

/// The superclass of every class is a class of the program that was
/// declared before it.
pub open spec fn superclasses_precede(program: ProgramView) -> bool {
    forall|id: u64| #[trigger]
        program.classes.dom().contains(id) ==> match program.classes[id].superclass {
            Some(parent) => parent < id && program.classes.dom().contains(parent),
            None => true,
        }
}

/// What holds of the program that a build from the start ends with.
pub proof fn lemma_program_laws(last: u64, state: ContextView, items: Seq<ItemView>)
    requires
        last < u64::MAX,
        kept(ContextView::start_after(last), state, |kind: Kind| declarations_in(items, kind)),
    ensures
        identifiers_unique(program_of(state), items),
        superclasses_precede(program_of(state)),
{
    let program = program_of(state);
    assert forall|i: int, j: int| 0 <= i < j < state.modules.len() implies module_key()(
        #[trigger] state.modules[i],
    ) != module_key()(#[trigger] state.modules[j]) by {}
    assert forall|i: int, j: int| 0 <= i < j < state.classes.len() implies class_key()(
        #[trigger] state.classes[i],
    ) != class_key()(#[trigger] state.classes[j]) by {}
    assert forall|i: int, j: int| 0 <= i < j < state.functions.len() implies function_key()(
        #[trigger] state.functions[i],
    ) != function_key()(#[trigger] state.functions[j]) by {}
    lemma_table(state.modules, module_key());
    lemma_table(state.classes, class_key());
    lemma_table(state.functions, function_key());
    assert forall|id: u64| #[trigger] program.modules.dom().contains(id) implies program.modules[id].id
        == id && !program.classes.dom().contains(id) && !program.functions.dom().contains(id) by {
        let i = choose|i: int|
            0 <= i < state.modules.len() && module_key()(#[trigger] state.modules[i]) == id;
        if program.classes.dom().contains(id) {
            let j = choose|j: int|
                0 <= j < state.classes.len() && class_key()(#[trigger] state.classes[j]) == id;
            assert(state.modules[i].id != state.classes[j].id);
        }
        if program.functions.dom().contains(id) {
            let j = choose|j: int|
                0 <= j < state.functions.len() && function_key()(#[trigger] state.functions[j])
                    == id;
            assert(state.modules[i].id != state.functions[j].id);
        }
    }
    assert forall|id: u64| #[trigger] program.classes.dom().contains(id) implies program.classes[id].id
        == id && !program.functions.dom().contains(id) by {
        let i = choose|i: int|
            0 <= i < state.classes.len() && class_key()(#[trigger] state.classes[i]) == id;
        if program.functions.dom().contains(id) {
            let j = choose|j: int|
                0 <= j < state.functions.len() && function_key()(#[trigger] state.functions[j])
                    == id;
            assert(state.classes[i].id != state.functions[j].id);
        }
    }
    assert forall|id: u64| #[trigger] program.functions.dom().contains(id) implies program.functions[id].id
        == id by {
        let i = choose|i: int|
            0 <= i < state.functions.len() && function_key()(#[trigger] state.functions[i]) == id;
    }
    assert forall|id: u64| #[trigger] program.classes.dom().contains(id) implies match program.classes[id].superclass {
        Some(parent) => parent < id && program.classes.dom().contains(parent),
        None => true,
    } by {
        let i = choose|i: int|
            0 <= i < state.classes.len() && class_key()(#[trigger] state.classes[i]) == id;
        match state.classes[i].superclass {
            Some(parent) => {
                let open = open_ids(state.scopes);
                assert(open == open_ids(ContextView::start_after(last).scopes));
                if open_class(open, parent) {
                    let k = choose|k: int|
                        0 <= k < open.len() && #[trigger] open[k] == ItemIdView::Class(parent);
                    assert(open.len() == 1);
                    assert(open[0] == ItemIdView::Module((last + 1) as u64));
                    assert(false);
                }
                let j = choose|j: int|
                    0 <= j < state.classes.len() && (#[trigger] state.classes[j]).id == parent;
                assert(class_key()(state.classes[j]) == parent);
            },
            None => {},
        }
    }
}

} // verus!
