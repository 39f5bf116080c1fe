//! Lexical scopes, and the resolution of constant paths against them.
use vstd::prelude::*;
use vstd::hash_map::StringHashMap;
use crate::ast::{Path, PathSegmentView, is_constant, textual_parts};
use crate::ir::{Class, ClassId, Counter, Function, FunctionId, ItemId, ItemIdView, Module,
                ModuleId};

verus! {

/// A single scope.
pub struct Scope {
    pub id: ItemId,
    /// The name of the scope.
    /// Empty string means global namespace.
    pub name: String,
    pub modules: StringHashMap<ModuleId>,
    pub classes: StringHashMap<ClassId>,
    pub functions: StringHashMap<FunctionId>,
}

/// What a scope is, as a value: what it stands for, its name, and the
/// number of the identifier of each module, class and function declared in
/// it, by name.
pub struct ScopeView {
    pub id: ItemIdView,
    pub name: Seq<char>,
    pub modules: Map<Seq<char>, u64>,
    pub classes: Map<Seq<char>, u64>,
    pub functions: Map<Seq<char>, u64>,
}

impl ScopeView {
    /// A scope in which nothing is declared yet.
    pub open spec fn empty(name: Seq<char>, id: ItemIdView) -> ScopeView {
        ScopeView { id, name, modules: Map::empty(), classes: Map::empty(), functions: Map::empty() }
    }

    /// The scope with one more module declared in it. A later declaration
    /// of a name takes the place of an earlier one.
    pub open spec fn with_module(self, name: Seq<char>, id: u64) -> ScopeView {
        ScopeView { modules: self.modules.insert(name, id), ..self }
    }

    pub open spec fn with_class(self, name: Seq<char>, id: u64) -> ScopeView {
        ScopeView { classes: self.classes.insert(name, id), ..self }
    }

    pub open spec fn with_function(self, name: Seq<char>, id: u64) -> ScopeView {
        ScopeView { functions: self.functions.insert(name, id), ..self }
    }
}

impl View for Scope {
    type V = ScopeView;

    open spec fn view(&self) -> ScopeView {
        ScopeView {
            id: self.id@,
            name: self.name@,
            modules: self.modules@.map_values(|id: ModuleId| id@),
            classes: self.classes@.map_values(|id: ClassId| id@),
            functions: self.functions@.map_values(|id: FunctionId| id@),
        }
    }
}

impl Scope {
    /// Creates a new named scope.
    pub fn new(name: String, id: ItemId) -> (scope: Self)
        ensures
            scope@ == ScopeView::empty(name@, id@),
    {
        let scope = Scope {
            id,
            name,
            modules: StringHashMap::new(),
            classes: StringHashMap::new(),
            functions: StringHashMap::new(),
        };
        assert(scope@.modules =~= Map::empty());
        assert(scope@.classes =~= Map::empty());
        assert(scope@.functions =~= Map::empty());
        scope
    }

    pub fn insert_module(&mut self, module: &Module)
        ensures
            final(self)@ == old(self)@.with_module(module@.name, module@.id),
    {
        self.modules.insert(module.name.clone(), module.id);
        assert(self@.modules =~= old(self)@.modules.insert(module@.name, module@.id));
    }

    pub fn insert_class(&mut self, class: &Class)
        ensures
            final(self)@ == old(self)@.with_class(class@.name, class@.id),
    {
        self.classes.insert(class.name.clone(), class.id);
        assert(self@.classes =~= old(self)@.classes.insert(class@.name, class@.id));
    }

    pub fn insert_function(&mut self, func: &Function)
        ensures
            final(self)@ == old(self)@.with_function(func@.name, func@.id),
    {
        self.functions.insert(func.name.clone(), func.id);
        assert(self@.functions =~= old(self)@.functions.insert(func@.name, func@.id));
    }

    /// Creates the global scope: a module without a name, under a new
    /// identifier.
    pub fn global(counter: &mut Counter) -> (scope: Self)
        requires
            old(counter)@ < u64::MAX,
        ensures
            scope@ == ScopeView::empty(seq![], ItemIdView::Module((old(counter)@ + 1) as u64)),
            final(counter)@ == old(counter)@ + 1,
    {
        let id = ItemId::Module(ModuleId::new(counter));
        let name = String::new();
        assert(name@ =~= seq![]);
        Scope::new(name, id)
    }

    pub fn is_global(&self) -> (yes: bool)
        ensures
            yes == (self@.name.len() == 0),
    {
        self.name.as_str().is_empty()
    }
}

/// The names of a stack of scopes, outermost first.
pub open spec fn scope_names(scopes: Seq<ScopeView>) -> Seq<Seq<char>> {
    scopes.map_values(|scope: ScopeView| scope.name)
}

/// The first place from `from` on at which `name` stands in `names`.
pub open spec fn first_named(names: Seq<Seq<char>>, name: Seq<char>, from: int) -> Option<int>
    decreases names.len() - from,
{
    if from < 0 || from >= names.len() {
        None
    } else if names[from] == name {
        Some(from)
    } else {
        first_named(names, name, from + 1)
    }
}

/// Where a path leads in a stack of scope names, outermost first.
///
/// The outermost scope that has the name of the path's first segment is
/// where the path starts. From there inwards the names of the scopes must
/// be the names of the segments, one after the other; the path leads to
/// the scope that has the name of its last segment. No other start is
/// tried.
pub open spec fn resolve_index(names: Seq<Seq<char>>, path: Seq<Seq<char>>) -> Option<int> {
    if path.len() == 0 {
        None
    } else {
        match first_named(names, path[0], 0) {
            None => None,
            Some(start) => if start + path.len() <= names.len() && names.subrange(
                start,
                start + path.len(),
            ) == path {
                Some(start + path.len() - 1)
            } else {
                None
            },
        }
    }
}

/// The scope that a path leads to.
pub open spec fn resolve(scopes: Seq<ScopeView>, path: Seq<PathSegmentView>) -> Option<ScopeView> {
    match resolve_index(scope_names(scopes), textual_parts(path)) {
        Some(index) => Some(scopes[index]),
        None => None,
    }
}

/// `first_named` finds a place that has the name, and no place before it
/// has.
pub proof fn lemma_first_named(names: Seq<Seq<char>>, name: Seq<char>, from: int)
    requires
        0 <= from,
    ensures
        match first_named(names, name, from) {
            Some(found) => {
                &&& from <= found < names.len()
                &&& names[found] == name
                &&& forall|i: int| from <= i < found ==> names[i] != name
            },
            None => forall|i: int| from <= i < names.len() ==> names[i] != name,
        },
    decreases names.len() - from,
{
    if from < names.len() && names[from] != name {
        lemma_first_named(names, name, from + 1);
    }
}

/// A path leads to an open scope, and only where an open scope has the
/// name of its first segment: what is declared in a scope that has been
/// closed, or has not been opened, is not found.
pub proof fn lemma_resolves_to_open_scope(scopes: Seq<ScopeView>, path: Seq<PathSegmentView>)
    ensures
        match resolve(scopes, path) {
            Some(scope) => {
                &&& path.len() > 0
                &&& exists|i: int|
                    path.len() - 1 <= i < scopes.len() && scopes[i] == scope && scopes[i].name
                        == path.last().kind.name() && #[trigger] scopes[i - path.len() + 1].name
                        == path[0].kind.name()
            },
            None => true,
        },
        (forall|i: int| 0 <= i < scopes.len() ==> path.len() > 0 && (#[trigger] scopes[i]).name
            != path[0].kind.name()) ==> resolve(scopes, path) is None,
{
    let names = scope_names(scopes);
    let parts = textual_parts(path);
    if path.len() > 0 {
        lemma_first_named(names, parts[0], 0);
        match resolve_index(names, parts) {
            Some(index) => {
                let start = index - path.len() + 1;
                assert(names.subrange(start, start + path.len())[path.len() - 1] == parts[path.len()
                    - 1]);
                assert(scopes[index - path.len() + 1].name == path[0].kind.name());
            },
            None => {},
        }
        if forall|i: int| 0 <= i < scopes.len() ==> (#[trigger] scopes[i]).name
            != path[0].kind.name() {
            if first_named(names, parts[0], 0) is Some {
                let found = first_named(names, parts[0], 0)->0;
                assert(scopes[found].name == names[found]);
            }
        }
    }
}

/// Scopes are ended in the reverse order of their beginning, and the global
/// scope outlives them all: a scope that is begun can be ended, ending it
/// gives back the scopes that were open before, and whatever is ended, the
/// global scope stays where it is.
pub proof fn lemma_scope_discipline(scopes: Seq<ScopeView>, scope: ScopeView)
    requires
        scopes.len() > 0,
    ensures
        scopes.push(scope).len() > 1,
        scopes.push(scope).drop_last() == scopes,
        scopes.push(scope)[0] == scopes[0],
        scopes.len() > 1 ==> scopes.drop_last().len() > 0 && scopes.drop_last()[0] == scopes[0],
{
    assert(scopes.push(scope).drop_last() =~= scopes);
}

/// The scopes that are open, the global scope first and the innermost
/// scope last.
pub struct ScopeContext {
    stack: Vec<Scope>,
}

impl View for ScopeContext {
    type V = Seq<ScopeView>;

    closed spec fn view(&self) -> Seq<ScopeView> {
        self.stack@.map_values(|scope: Scope| scope@)
    }
}

impl ScopeContext {
    /// The global scope is always there: it is opened by `new`, and `end`
    /// does not close it.
    pub open spec fn wf(&self) -> bool {
        self@.len() > 0
    }

    /// Creates a new scope context, in which only the global scope is open.
    pub fn new(counter: &mut Counter) -> (context: Self)
        requires
            old(counter)@ < u64::MAX,
        ensures
            context@ == seq![
                ScopeView::empty(seq![], ItemIdView::Module((old(counter)@ + 1) as u64)),
            ],
            final(counter)@ == old(counter)@ + 1,
    {
        let global_scope = Scope::global(counter);
        let mut stack: Vec<Scope> = Vec::new();
        stack.push(global_scope);
        let context = ScopeContext { stack };
        assert(context@ =~= seq![global_scope@]);
        context
    }

    /// How many scopes are open, the global scope counted.
    pub fn depth(&self) -> (depth: usize)
        ensures
            depth == self@.len(),
    {
        self.stack.len()
    }

    /// Creates a new nested scope.
    pub fn begin(&mut self, name: String, id: ItemId)
        ensures
            final(self)@ == old(self)@.push(ScopeView::empty(name@, id@)),
    {
        let scope = Scope::new(name, id);
        self.stack.push(scope);
        assert(self@ =~= old(self)@.push(scope@));
    }

    /// Ends the innermost scope. The global scope cannot be ended: more
    /// scopes must be open than that one.
    pub fn end(&mut self)
        requires
            old(self)@.len() > 1,
        ensures
            final(self)@ == old(self)@.drop_last(),
    {
        self.stack.pop();
        assert(self@ =~= old(self)@.drop_last());
    }

    /// Ends the innermost scope unless it is the global scope, and says
    /// whether it did.
    pub fn try_end(&mut self) -> (ended: bool)
        ensures
            ended == (old(self)@.len() > 1),
            final(self)@ == if ended {
                old(self)@.drop_last()
            } else {
                old(self)@
            },
    {
        if self.stack.len() > 1 {
            self.end();
            true
        } else {
            false
        }
    }

    /// The innermost scope.
    pub fn current(&self) -> (scope: &Scope)
        requires
            self.wf(),
        ensures
            scope@ == self@.last(),
    {
        &self.stack[self.stack.len() - 1]
    }

    /// The innermost scope, to declare something in it.
    pub fn current_mut(&mut self) -> (scope: &mut Scope)
        requires
            old(self).wf(),
        ensures
            scope@ == old(self)@.last(),
            final(self)@ == old(self)@.update(old(self)@.len() - 1, final(scope)@),
    {
        let last = self.stack.len() - 1;
        &mut self.stack[last]
    }

    /// What the scope that a path of constants leads to stands for.
    pub fn resolve(&self, path: &Path) -> (id: Option<ItemId>)
        requires
            is_constant(path@),
        ensures
            match resolve(self@, path@) {
                Some(scope) => id matches Some(found) && found@ == scope.id,
                None => id is None,
            },
    {
        match self.resolve_scope(path) {
            Some(scope) => Some(scope.id),
            None => None,
        }
    }

    /// Resolves a scope by name.
    pub fn resolve_scope(&self, path: &Path) -> (scope: Option<&Scope>)
        requires
            is_constant(path@),
        ensures
            match resolve(self@, path@) {
                Some(expected) => scope matches Some(found) && found@ == expected,
                None => scope is None,
            },
    {
        let ghost names = scope_names(self@);
        let ghost parts = textual_parts(path@);
        let depth = self.stack.len();
        let length = path.parts.len();
        if length == 0 {
            return None;
        }
        let first = path.parts[0].kind.name();
        let mut start: usize = 0;
        while start < depth && !self.stack[start].name.as_str().eq(first.as_str())
            invariant
                depth == self.stack.len(),
                names == scope_names(self@),
                parts == textual_parts(path@),
                path.parts.len() > 0,
                first@ == parts[0],
                start <= depth,
                first_named(names, parts[0], 0) == first_named(names, parts[0], start as int),
            decreases depth - start,
        {
            start += 1;
        }
        if start == depth {
            return None;
        }
        if length > depth - start {
            return None;
        }
        let mut matched: usize = 1;
        while matched < length
            invariant
                depth == self.stack.len(),
                length == path.parts.len(),
                names == scope_names(self@),
                parts == textual_parts(path@),
                start + length <= depth,
                1 <= matched <= length,
                first_named(names, parts[0], 0) == Some(start as int),
                forall|i: int| 0 <= i < matched ==> names[start + i] == parts[i],
            decreases length - matched,
        {
            let name = path.parts[matched].kind.name();
            if !self.stack[start + matched].name.as_str().eq(name.as_str()) {
                assert(names.subrange(start as int, start + length)[matched as int]
                    != parts[matched as int]);
                return None;
            }
            matched += 1;
        }
        assert(names.subrange(start as int, start + length) =~= parts);
        Some(&self.stack[start + length - 1])
    }
}

} // verus!
