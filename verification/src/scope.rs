//! Lexical scopes and the scope manager, which keeps the tree of scopes,
//! the scope currently being analysed, and resolves names by walking from
//! the current scope up through its ancestors.

use vstd::prelude::*;

use crate::error::{Result, SemanticError};
use crate::symbols::{
    clone_symbols, find_keyed, find_keyed_symbol, find_named, find_symbol, has_keyed, has_named,
    keys_distinct, lemma_find_keyed_absent, lemma_find_keyed_push, lemma_find_named_absent,
    lemma_find_named_push, lemma_keys_distinct_push, symbol_models, Symbol, SymbolModel,
    Visibility,
};

use std::collections::HashMap;
use std::collections::hash_map::Entry;

verus! {

broadcast use vstd::std_specs::hash::group_hash_axioms;

/// A lexical scope in VB6 code
#[derive(Debug)]
pub struct Scope {
    /// Unique identifier for this scope
    pub id: usize,
    /// Kind of scope
    pub kind: ScopeKind,
    /// Parent scope ID (None for global scope)
    pub parent: Option<usize>,
    /// Child scope IDs
    pub children: Vec<usize>,
    /// Symbols defined directly in this scope, in the order they were added
    pub symbols: Vec<Symbol>,
    /// Name of the scope (for debugging)
    pub name: String,
}

/// The kind of a scope
#[derive(Debug, Clone, Copy, PartialEq, Eq, Structural)]
pub enum ScopeKind {
    /// Global/Module level scope
    Global,
    /// Class scope
    Class,
    /// Function/Sub scope
    Procedure,
    /// Property scope
    Property,
    /// Block scope (With, For, etc.)
    Block,
    /// Type definition scope
    Type,
    /// Enum scope
    Enum,
}

/// The mathematical model of a `Scope`.
pub struct ScopeModel {
    pub id: usize,
    pub kind: ScopeKind,
    pub parent: Option<usize>,
    pub children: Seq<usize>,
    pub symbols: Seq<SymbolModel>,
    pub name: Seq<char>,
}

impl View for Scope {
    type V = ScopeModel;

    open spec fn view(&self) -> ScopeModel {
        ScopeModel {
            id: self.id,
            kind: self.kind,
            parent: self.parent,
            children: self.children@,
            symbols: symbol_models(self.symbols@),
            name: self.name@,
        }
    }
}

fn clone_ids(v: &Vec<usize>) -> (r: Vec<usize>)
    ensures
        r@ == v@,
{
    let r = v.clone();
    assert(r@ =~= v@);
    r
}

impl Clone for Scope {
    fn clone(&self) -> (r: Self)
        ensures
            r@ == self@,
    {
        Scope {
            id: self.id,
            kind: self.kind,
            parent: self.parent,
            children: clone_ids(&self.children),
            symbols: clone_symbols(&self.symbols),
            name: self.name.clone(),
        }
    }
}

/// A fresh scope: no children and no symbols.
pub open spec fn fresh_scope(id: usize, kind: ScopeKind, parent: Option<usize>, name: Seq<char>) -> ScopeModel {
    ScopeModel {
        id,
        kind,
        parent,
        children: Seq::empty(),
        symbols: Seq::empty(),
        name,
    }
}

/// The mathematical model of a `ScopeManager`: all scopes indexed by id, the
/// current scope, the global scope and the next id to allocate.
pub struct ScopeManagerModel {
    pub scopes: Seq<ScopeModel>,
    pub current: usize,
    pub global: usize,
    pub next: usize,
}

impl ScopeManagerModel {
    /// The scopes form a tree rooted at the global scope 0: ids are dense
    /// from 0 and each scope's id is its index; scope 0 is a global scope and
    /// the only one without a parent; every parent has a smaller id than its
    /// child and lists it among its children exactly once, and lists no other
    /// scope; the current scope exists; no scope holds two symbols of one name
    /// and kind.
    pub open spec fn wf(self) -> bool {
        &&& self.scopes.len() == self.next
        &&& 1 <= self.next
        &&& self.global == 0
        &&& self.current < self.next
        &&& self.scopes[0].parent is None
        &&& self.scopes[0].kind == ScopeKind::Global
        &&& forall|i: int| 0 <= i < self.scopes.len() ==> (#[trigger] self.scopes[i]).id == i
        &&& forall|i: int|
            0 <= i < self.scopes.len() ==> match (#[trigger] self.scopes[i]).parent {
                Some(p) => p < i,
                None => i == 0,
            }
        &&& self.parents_list_children()
        &&& forall|i: int, k: int|
            0 <= i < self.scopes.len() && 0 <= k < self.scopes[i].children.len() ==> {
                let c = #[trigger] self.scopes[i].children[k];
                &&& i < c < self.scopes.len()
                &&& self.scopes[c as int].parent == Some(i as usize)
            }
        &&& forall|i: int|
            0 <= i < self.scopes.len() ==> (#[trigger] self.scopes[i]).children.no_duplicates()
        &&& forall|i: int|
            0 <= i < self.scopes.len() ==> keys_distinct((#[trigger] self.scopes[i]).symbols)
    }

    /// Every scope's parent lists it among its children.
    #[verifier::opaque]
    pub open spec fn parents_list_children(self) -> bool {
        forall|i: int|
            #![trigger self.scopes[i].parent]
            0 <= i < self.scopes.len() ==> (self.scopes[i].parent matches Some(p)
                ==> self.scopes[p as int].children.contains(i as usize))
    }

    /// The manager as created: only the global scope, which is current.
    pub open spec fn initial() -> ScopeManagerModel {
        ScopeManagerModel {
            scopes: seq![fresh_scope(0, ScopeKind::Global, None, "global"@)],
            current: 0,
            global: 0,
            next: 1,
        }
    }

    /// The manager after a new scope of kind `kind` named `name` is opened
    /// as the last child of the current scope and becomes current.
    pub open spec fn pushed(self, kind: ScopeKind, name: Seq<char>) -> ScopeManagerModel {
        let cur = self.scopes[self.current as int];
        ScopeManagerModel {
            scopes: self.scopes.update(
                self.current as int,
                ScopeModel { children: cur.children.push(self.next), ..cur },
            ).push(fresh_scope(self.next, kind, Some(self.current), name)),
            current: self.next,
            global: self.global,
            next: (self.next + 1) as usize,
        }
    }

    /// The manager after `symbol` is added to the current scope.
    pub open spec fn with_symbol(self, symbol: SymbolModel) -> ScopeManagerModel {
        let cur = self.scopes[self.current as int];
        ScopeManagerModel {
            scopes: self.scopes.update(
                self.current as int,
                ScopeModel { symbols: cur.symbols.push(symbol), ..cur },
            ),
            ..self
        }
    }

    /// The manager after the symbols `syms` are added, in order, to the
    /// current scope.
    pub open spec fn with_symbols(self, syms: Seq<SymbolModel>) -> ScopeManagerModel
        decreases syms.len(),
    {
        if syms.len() == 0 {
            self
        } else {
            self.with_symbols(syms.drop_last()).with_symbol(syms.last())
        }
    }

    /// The first scope among `children` whose name is `name`.
    pub open spec fn first_child_named(self, children: Seq<usize>, name: Seq<char>) -> Option<usize>
        decreases children.len(),
    {
        if children.len() == 0 {
            None
        } else if children[0] < self.scopes.len() && self.scopes[children[0] as int].name == name {
            Some(children[0])
        } else {
            self.first_child_named(children.drop_first(), name)
        }
    }

    /// The scope that a container symbol (a module, class, ...) opens: the
    /// first child of the scope it is defined in that bears its name.
    pub open spec fn member_scope(self, container: SymbolModel) -> Option<usize> {
        if container.scope_id < self.scopes.len() {
            self.first_child_named(self.scopes[container.scope_id as int].children, container.name)
        } else {
            None
        }
    }

    /// The member `name` of a container: the symbol of that name in the
    /// container's own scope, looked up there only (not in enclosing scopes).
    pub open spec fn member(self, container: SymbolModel, name: Seq<char>) -> Option<SymbolModel> {
        match self.member_scope(container) {
            Some(s) => find_named(self.scopes[s as int].symbols, name),
            None => None,
        }
    }

    /// Resolves the member path `rest` from the symbol `start`: each name is
    /// looked up as a member of the symbol found before it. `Err` carries the
    /// first name that is not found.
    pub open spec fn resolve_members(self, start: SymbolModel, rest: Seq<Seq<char>>) -> std::result::Result<
        SymbolModel,
        Seq<char>,
    >
        decreases rest.len(),
    {
        if rest.len() == 0 {
            Ok(start)
        } else {
            match self.member(start, rest[0]) {
                Some(s) => self.resolve_members(s, rest.drop_first()),
                None => Err(rest[0]),
            }
        }
    }

    /// The symbol that `name` refers to when looked up from scope `id`: the
    /// one of that name in scope `id`, else what it refers to from the
    /// parent scope; `None` at a scope without parent or at a missing id.
    pub open spec fn lookup_from(self, id: int, name: Seq<char>) -> Option<SymbolModel>
        decreases id,
    {
        if !(0 <= id < self.scopes.len()) {
            None
        } else {
            match find_named(self.scopes[id].symbols, name) {
                Some(s) => Some(s),
                None => match self.scopes[id].parent {
                    Some(p) => if p < id {
                        self.lookup_from(p as int, name)
                    } else {
                        None
                    },
                    None => None,
                },
            }
        }
    }

    /// The symbol that `name` refers to from the current scope.
    pub open spec fn lookup(self, name: Seq<char>) -> Option<SymbolModel> {
        self.lookup_from(self.current as int, name)
    }

    /// The module-level scope of scope `id`: the nearest of it and its
    /// ancestors that is a global or class scope, else the root of its chain;
    /// `id` itself when no scope has that id.
    pub open spec fn module_scope(self, id: int) -> int
        decreases id,
    {
        if !(0 <= id < self.scopes.len()) {
            id
        } else if self.scopes[id].kind == ScopeKind::Global || self.scopes[id].kind
            == ScopeKind::Class {
            id
        } else {
            match self.scopes[id].parent {
                Some(p) => if p < id {
                    self.module_scope(p as int)
                } else {
                    id
                },
                None => id,
            }
        }
    }

    /// Whether `symbol` may be referred to from the current scope: public,
    /// global and friend symbols always; private symbols from the module of
    /// the scope they belong to.
    pub open spec fn accessible(self, symbol: SymbolModel) -> bool {
        match symbol.visibility {
            Visibility::Public | Visibility::Global | Visibility::Friend => true,
            Visibility::Private => self.module_scope(self.current as int) == self.module_scope(
                symbol.scope_id as int,
            ),
        }
    }
}

/// The message of the error for popping a scope that has no parent.
pub open spec fn pop_global_message() -> Seq<char> {
    "Cannot pop global scope"@
}

/// The scopes of `scopes` whose kind is `kind`, in order of their ids.
pub open spec fn scopes_of_kind(scopes: Seq<ScopeModel>, kind: ScopeKind) -> Seq<ScopeModel>
    decreases scopes.len(),
{
    if scopes.len() == 0 {
        Seq::empty()
    } else if scopes.last().kind == kind {
        scopes_of_kind(scopes.drop_last(), kind).push(scopes.last())
    } else {
        scopes_of_kind(scopes.drop_last(), kind)
    }
}

/// The models of the scopes with ids `0..next` in `map`.
pub open spec fn scope_models(map: Map<usize, Scope>, next: usize) -> Seq<ScopeModel> {
    Seq::new(next as nat, |i: int| map[i as usize]@)
}

proof fn lemma_scope_models_insert(map: Map<usize, Scope>, next: usize, id: usize, x: Scope)
    requires
        id < next,
    ensures
        scope_models(map.insert(id, x), next) == scope_models(map, next).update(id as int, x@),
{
    assert(scope_models(map.insert(id, x), next) =~= scope_models(map, next).update(id as int, x@));
}

/// Manages the scope hierarchy and symbol resolution
#[derive(Debug)]
pub struct ScopeManager {
    scopes: HashMap<usize, Scope>,
    current_scope: usize,
    global_scope: usize,
    next_scope_id: usize,
}

impl View for ScopeManager {
    type V = ScopeManagerModel;

    closed spec fn view(&self) -> ScopeManagerModel {
        ScopeManagerModel {
            scopes: scope_models(self.scopes@, self.next_scope_id),
            current: self.current_scope,
            global: self.global_scope,
            next: self.next_scope_id,
        }
    }
}

impl Clone for ScopeManager {
    fn clone(&self) -> (r: Self)
        ensures
            r@ == self@,
            r.ids_dense() == self.ids_dense(),
    {
        let r = ScopeManager {
            scopes: self.scopes.clone(),
            current_scope: self.current_scope,
            global_scope: self.global_scope,
            next_scope_id: self.next_scope_id,
        };
        assert(r.scopes@ == self.scopes@);
        r
    }
}

impl ScopeManager {
    /// The scope map holds exactly the ids below the next id to allocate.
    pub closed spec fn ids_dense(&self) -> bool {
        forall|i: usize| #[trigger] self.scopes@.contains_key(i) <==> i < self.next_scope_id
    }

    /// The manager is well formed: its scope map is keyed by the ids
    /// `0..next`, and its model is well formed (see `ScopeManagerModel::wf`).
    pub open spec fn wf(&self) -> bool {
        &&& self.ids_dense()
        &&& self@.wf()
    }

    /// The scope with id `id`, which exists.
    fn scope_at(&self, id: usize) -> (s: &Scope)
        requires
            self.ids_dense(),
            id < self.next_scope_id,
        ensures
            s@ == self@.scopes[id as int],
    {
        assert(self.scopes@.contains_key(id));
        self.scopes.get(&id).unwrap()
    }

    /// Create a new scope manager with an initial global scope
    pub fn new() -> (m: Self)
        ensures
            m.wf(),
            m@ == ScopeManagerModel::initial(),
    {
        let global = Scope {
            id: 0,
            kind: ScopeKind::Global,
            parent: None,
            children: Vec::new(),
            symbols: Vec::new(),
            name: "global".to_owned(),
        };
        assert(symbol_models(global.symbols@) =~= Seq::<SymbolModel>::empty());
        let ghost g = global@;
        let mut scopes: HashMap<usize, Scope> = HashMap::new();
        scopes.insert(0, global);
        let m = ScopeManager { scopes, current_scope: 0, global_scope: 0, next_scope_id: 1 };
        assert(m.scopes@[0usize]@ == g);
        assert(m@.scopes =~= ScopeManagerModel::initial().scopes);
        proof {
            reveal(ScopeManagerModel::parents_list_children);
        }
        m
    }

    /// Create a new scope as the last child of the current scope and make it
    /// current; returns its id, the next id in sequence.
    pub fn push_scope(&mut self, kind: ScopeKind, name: String) -> (scope_id: usize)
        requires
            old(self).wf(),
            old(self)@.next < usize::MAX,
        ensures
            final(self).wf(),
            scope_id == old(self)@.next,
            final(self)@ == old(self)@.pushed(kind, name@),
    {
        let ghost name_view = name@;
        let scope_id = self.next_scope_id;
        let cur = self.current_scope;
        let scope = Scope {
            id: scope_id,
            kind,
            parent: Some(cur),
            children: Vec::new(),
            symbols: Vec::new(),
            name,
        };
        assert(symbol_models(scope.symbols@) =~= Seq::<SymbolModel>::empty());
        let ghost new_scope = scope;
        assert(self.scopes@.contains_key(cur));
        if let Some(mut parent) = self.scopes.remove(&cur) {
            parent.children.push(scope_id);
            self.scopes.insert(cur, parent);
        }
        let ghost mid = self.scopes@;
        self.scopes.insert(scope_id, scope);
        self.next_scope_id = self.next_scope_id + 1;
        self.current_scope = scope_id;
        proof {
            let target = old(self)@.pushed(kind, name_view);
            let o = old(self).scopes@;
            assert forall|i: int| 0 <= i < self.next_scope_id implies #[trigger] self@.scopes[i]
                == target.scopes[i] by {
                if i == scope_id {
                } else if i == cur {
                    assert(self.scopes@[i as usize] == mid[cur]);
                } else {
                    assert(self.scopes@[i as usize] == o[i as usize]);
                }
            }
            assert(self@.scopes =~= target.scopes);
            assert forall|i: usize| #[trigger] self.scopes@.contains_key(i) <==> i
                < self.next_scope_id by {
                assert(o.contains_key(i) <==> i < scope_id);
            }
            lemma_pushed_wf(old(self)@, kind, name_view);
        }
        scope_id
    }

    /// Pop the current scope, returning to its parent. Fails with
    /// `InvalidScope` when the current scope has no parent; the manager is
    /// then unchanged.
    pub fn pop_scope(&mut self) -> (r: Result<()>)
        requires
            old(self).wf(),
        ensures
            final(self).wf(),
            match old(self)@.scopes[old(self)@.current as int].parent {
                Some(p) => r is Ok && final(self)@ == ScopeManagerModel {
                    current: p,
                    ..old(self)@
                },
                None => (r matches Err(SemanticError::InvalidScope { message }) && message@
                    == pop_global_message()) && final(self)@ == old(self)@,
            },
    {
        match self.scope_at(self.current_scope).parent {
            Some(parent) => {
                self.current_scope = parent;
                proof {
                    lemma_links_depend_on_tree(old(self)@, self@);
                }
                Ok(())
            },
            None => Err(SemanticError::InvalidScope { message: "Cannot pop global scope".to_owned() }),
        }
    }

    /// Get the current scope ID
    pub fn current_scope_id(&self) -> (id: usize)
        ensures
            id == self@.current,
    {
        self.current_scope
    }

    /// Get the global scope ID
    pub fn global_scope_id(&self) -> (id: usize)
        ensures
            id == self@.global,
    {
        self.global_scope
    }

    /// Get a scope by ID
    pub fn get_scope(&self, scope_id: usize) -> (r: Option<&Scope>)
        requires
            self.ids_dense(),
        ensures
            match r {
                Some(s) => scope_id < self@.scopes.len() && s@ == self@.scopes[scope_id as int],
                None => scope_id >= self@.scopes.len(),
            },
    {
        assert(self.scopes@.contains_key(scope_id) <==> scope_id < self.next_scope_id);
        self.scopes.get(&scope_id)
    }

    /// Get a mutable reference to a scope. The caller may change the scope
    /// freely; the manager then holds whatever the caller left there, and is
    /// well formed again only if the caller keeps the tree intact.
    pub fn get_scope_mut(&mut self, scope_id: usize) -> (r: Option<&mut Scope>)
        requires
            old(self).ids_dense(),
        ensures
            final(self).ids_dense(),
            match r {
                Some(s) => scope_id < old(self)@.scopes.len() && (*s)@ == old(self)@.scopes[scope_id as int]
                    && final(self)@ == ScopeManagerModel {
                    scopes: old(self)@.scopes.update(scope_id as int, (*final(s))@),
                    ..old(self)@
                },
                None => scope_id >= old(self)@.scopes.len() && final(self)@ == old(self)@,
            },
    {
        if scope_id < self.next_scope_id {
            assert(self.scopes@.contains_key(scope_id));
            let ghost before = self.scopes@;
            match self.scopes.entry(scope_id) {
                Entry::Occupied(e) => {
                    let s = e.into_mut();
                    proof {
                        lemma_scope_models_insert(before, self.next_scope_id, scope_id, *final(s));
                        assert forall|i: usize| #[trigger] before.insert(scope_id, *final(s)).contains_key(i)
                            <==> i < self.next_scope_id by {
                            assert(before.contains_key(i) <==> i < self.next_scope_id);
                        }
                    }
                    Some(s)
                },
                Entry::Vacant(_) => None,
            }
        } else {
            None
        }
    }

    /// Add a symbol to the current scope. Fails with `DuplicateSymbol` when
    /// the current scope already holds a symbol of that name and kind; the
    /// manager is then unchanged. Symbols of different kinds (a Property Get
    /// and a Property Let, say) may share a name.
    pub fn add_symbol(&mut self, symbol: Symbol) -> (r: Result<()>)
        requires
            old(self).wf(),
        ensures
            final(self).wf(),
            ({
                let cur = old(self)@.scopes[old(self)@.current as int].symbols;
                &&& has_keyed(cur, symbol.name@, symbol.kind) ==> (r matches Err(
                    SemanticError::DuplicateSymbol { name, location, previous_location },
                ) && name@ == symbol.name@ && location == symbol.location && previous_location
                    == find_keyed(cur, symbol.name@, symbol.kind)->0.location) && final(self)@
                    == old(self)@
                &&& !has_keyed(cur, symbol.name@, symbol.kind) ==> r is Ok && final(self)@ == old(
                    self,
                )@.with_symbol(symbol@)
            }),
    {
        let cur = self.current_scope;
        let ghost models = self@.scopes[cur as int].symbols;
        let scope = self.scope_at(cur);
        assert(symbol_models(scope.symbols@) == models);
        match find_keyed_symbol(&scope.symbols, &symbol.name, symbol.kind) {
            Some(existing) => {
                proof {
                    lemma_find_keyed_absent(models, symbol.name@, symbol.kind);
                }
                let previous_location = existing.location.clone();
                return Err(
                    SemanticError::DuplicateSymbol {
                        name: symbol.name,
                        location: symbol.location,
                        previous_location,
                    },
                );
            },
            None => {
                proof {
                    lemma_find_keyed_absent(models, symbol.name@, symbol.kind);
                }
            },
        }
        let ghost sym_model = symbol@;
        assert(self.scopes@.contains_key(cur));
        let ghost before = self.scopes@;
        if let Some(mut s) = self.scopes.remove(&cur) {
            let ghost taken = s;
            s.symbols.push(symbol);
            assert(symbol_models(s.symbols@) =~= symbol_models(taken.symbols@).push(sym_model));
            self.scopes.insert(cur, s);
        }
        proof {
            let target = old(self)@.with_symbol(sym_model);
            assert(self.scopes@ == before.insert(cur, self.scopes@[cur]));
            lemma_scope_models_insert(before, self.next_scope_id, cur, self.scopes@[cur]);
            assert(self@.scopes =~= target.scopes);
            assert forall|i: usize| #[trigger] self.scopes@.contains_key(i) <==> i
                < self.next_scope_id by {
                assert(before.contains_key(i) <==> i < self.next_scope_id);
            }
            lemma_with_symbol_wf(old(self)@, sym_model);
        }
        Ok(())
    }

    /// Lookup a symbol starting from current scope and walking up through
    /// the enclosing scopes; the nearest symbol of that name, if any.
    pub fn lookup(&self, name: &str) -> (r: Option<&Symbol>)
        requires
            self.wf(),
        ensures
            match r {
                Some(s) => self@.lookup(name@) == Some(s@),
                None => self@.lookup(name@) is None,
            },
    {
        let key = name.to_owned();
        let mut id = self.current_scope;
        loop
            invariant
                self.wf(),
                key@ == name@,
                id < self@.scopes.len(),
                self@.lookup_from(id as int, name@) == self@.lookup(name@),
            decreases id,
        {
            let scope = self.scope_at(id);
            assert(symbol_models(scope.symbols@) == self@.scopes[id as int].symbols);
            match find_symbol(&scope.symbols, &key) {
                Some(s) => {
                    return Some(s);
                },
                None => {},
            }
            match scope.parent {
                Some(p) => {
                    assert(self@.scopes[id as int].parent == Some(p));
                    id = p;
                },
                None => {
                    return None;
                },
            }
        }
    }

    /// Lookup a symbol in a specific scope (no parent walk); `None` also
    /// when no scope has that id.
    pub fn lookup_in_scope(&self, scope_id: usize, name: &str) -> (r: Option<&Symbol>)
        requires
            self.ids_dense(),
        ensures
            match r {
                Some(s) => scope_id < self@.scopes.len() && find_named(
                    self@.scopes[scope_id as int].symbols,
                    name@,
                ) == Some(s@),
                None => scope_id >= self@.scopes.len() || find_named(
                    self@.scopes[scope_id as int].symbols,
                    name@,
                ) is None,
            },
    {
        if scope_id >= self.next_scope_id {
            return None;
        }
        let key = name.to_owned();
        let scope = self.scope_at(scope_id);
        assert(symbol_models(scope.symbols@) == self@.scopes[scope_id as int].symbols);
        find_symbol(&scope.symbols, &key)
    }

    /// The scope that the container symbol opens (see
    /// `ScopeManagerModel::member_scope`).
    fn member_scope_id(&self, container: &Symbol) -> (r: Option<usize>)
        requires
            self.wf(),
        ensures
            r == self@.member_scope(container@),
            r matches Some(id) ==> id < self@.scopes.len(),
    {
        if container.scope_id >= self.next_scope_id {
            return None;
        }
        let children = &self.scope_at(container.scope_id).children;
        let ghost m = self@;
        let ghost all = m.scopes[container.scope_id as int].children;
        assert(children@ == all);
        assert(all.skip(0) =~= all);
        let mut k: usize = 0;
        while k < children.len()
            invariant
                self.wf(),
                m == self@,
                children@ == all,
                all == m.scopes[container.scope_id as int].children,
                container.scope_id < m.scopes.len(),
                k <= all.len(),
                m.first_child_named(all.skip(k as int), container.name@) == m.member_scope(container@),
            decreases children.len() - k,
        {
            let c = children[k];
            assert(all.skip(k as int)[0] == c);
            assert(all.skip(k as int).drop_first() =~= all.skip(k + 1));
            assert(c < m.scopes.len());
            if self.scope_at(c).name.eq(&container.name) {
                return Some(c);
            }
            k = k + 1;
        }
        assert(all.skip(k as int).len() == 0);
        None
    }

    /// The member `name` of a container symbol: the symbol of that name in
    /// the container's own scope only (see `ScopeManagerModel::member`).
    pub(crate) fn lookup_member(&self, container: &Symbol, name: &str) -> (r: Option<&Symbol>)
        requires
            self.wf(),
        ensures
            match r {
                Some(s) => self@.member(container@, name@) == Some(s@),
                None => self@.member(container@, name@) is None,
            },
    {
        match self.member_scope_id(container) {
            Some(id) => {
                let key = name.to_owned();
                let scope = self.scope_at(id);
                assert(symbol_models(scope.symbols@) == self@.scopes[id as int].symbols);
                find_symbol(&scope.symbols, &key)
            },
            None => None,
        }
    }

    /// Check if we can access a symbol from the current scope
    pub fn can_access(&self, symbol: &Symbol) -> (r: bool)
        requires
            self.wf(),
        ensures
            r == self@.accessible(symbol@),
    {
        match symbol.visibility {
            Visibility::Public | Visibility::Global => true,
            Visibility::Friend => true,
            Visibility::Private => self.is_in_same_module(symbol.scope_id),
        }
    }

    fn is_in_same_module(&self, scope_id: usize) -> (r: bool)
        requires
            self.wf(),
        ensures
            r == (self@.module_scope(self@.current as int) == self@.module_scope(scope_id as int)),
    {
        let current_module = self.find_module_scope(self.current_scope);
        let other_module = self.find_module_scope(scope_id);
        current_module == other_module
    }

    fn find_module_scope(&self, scope_id: usize) -> (r: usize)
        requires
            self.wf(),
        ensures
            r == self@.module_scope(scope_id as int),
    {
        let mut id = scope_id;
        loop
            invariant
                self.wf(),
                self@.module_scope(id as int) == self@.module_scope(scope_id as int),
            decreases id,
        {
            if id >= self.next_scope_id {
                return id;
            }
            let scope = self.scope_at(id);
            match scope.kind {
                ScopeKind::Global | ScopeKind::Class => {
                    return id;
                },
                _ => {
                    match scope.parent {
                        Some(p) => {
                            assert(self@.scopes[id as int].parent == Some(p));
                            id = p;
                        },
                        None => {
                            return id;
                        },
                    }
                },
            }
        }
    }

    /// Get all scopes of a specific kind, in order of their ids
    pub fn get_scopes_by_kind(&self, kind: ScopeKind) -> (r: Vec<&Scope>)
        requires
            self.ids_dense(),
        ensures
            r@.map_values(|s: &Scope| s@) == scopes_of_kind(self@.scopes, kind),
    {
        let mut out: Vec<&Scope> = Vec::new();
        let ghost models = self@.scopes;
        let mut i: usize = 0;
        assert(out@.map_values(|s: &Scope| s@) =~= scopes_of_kind(models.take(0), kind));
        while i < self.next_scope_id
            invariant
                self.ids_dense(),
                i <= self.next_scope_id,
                models == self@.scopes,
                models.len() == self.next_scope_id,
                out@.map_values(|s: &Scope| s@) == scopes_of_kind(models.take(i as int), kind),
            decreases self.next_scope_id - i,
        {
            let ghost before = out@;
            let s = self.scope_at(i);
            assert(models.take(i + 1).drop_last() =~= models.take(i as int));
            assert(models.take(i + 1).last() == s@);
            if s.kind == kind {
                out.push(s);
                assert(out@.map_values(|s: &Scope| s@) =~= before.map_values(|s: &Scope| s@).push(
                    s@,
                ));
            }
            i = i + 1;
        }
        assert(models.take(models.len() as int) =~= models);
        out
    }
}
/// Lookups from scope `id` agree in two managers whose scopes up to `id`
/// hold the same symbols and parents.
proof fn lemma_lookup_agrees(a: ScopeManagerModel, b: ScopeManagerModel, id: int, name: Seq<char>)
    requires
        0 <= id < a.scopes.len(),
        id < b.scopes.len(),
        forall|j: int|
            #![trigger a.scopes[j]]
            0 <= j <= id ==> a.scopes[j].symbols == b.scopes[j].symbols && a.scopes[j].parent
                == b.scopes[j].parent,
    ensures
        a.lookup_from(id, name) == b.lookup_from(id, name),
    decreases id,
{
    assert(a.scopes[id].symbols == b.scopes[id].symbols);
    match a.scopes[id].parent {
        Some(p) => {
            if p < id {
                lemma_lookup_agrees(a, b, p as int, name);
            }
        },
        None => {},
    }
}

/// The module scopes of scope `id` agree in two managers whose scopes up to
/// `id` have the same kinds and parents.
proof fn lemma_module_scope_agrees(a: ScopeManagerModel, b: ScopeManagerModel, id: int)
    requires
        0 <= id < a.scopes.len(),
        id < b.scopes.len(),
        forall|j: int|
            #![trigger a.scopes[j]]
            0 <= j <= id ==> a.scopes[j].kind == b.scopes[j].kind && a.scopes[j].parent
                == b.scopes[j].parent,
    ensures
        a.module_scope(id) == b.module_scope(id),
    decreases id,
{
    assert(a.scopes[id].kind == b.scopes[id].kind);
    match a.scopes[id].parent {
        Some(p) => {
            if p < id {
                lemma_module_scope_agrees(a, b, p as int);
            }
        },
        None => {},
    }
}

/// What a lookup finds bears the name looked up.
pub proof fn lemma_lookup_finds_the_name(m: ScopeManagerModel, id: int, name: Seq<char>)
    ensures
        m.lookup_from(id, name) matches Some(s) ==> s.name == name,
    decreases id,
{
    if 0 <= id < m.scopes.len() {
        lemma_find_named_absent(m.scopes[id].symbols, name);
        match m.scopes[id].parent {
            Some(p) => {
                if p < id {
                    lemma_lookup_finds_the_name(m, p as int, name);
                }
            },
            None => {},
        }
    }
}

/// A symbol of the current scope hides every symbol of the same name in the
/// enclosing scopes: a lookup finds the innermost one.
pub proof fn lemma_innermost_symbol_wins(m: ScopeManagerModel, name: Seq<char>)
    requires
        m.wf(),
        has_named(m.scopes[m.current as int].symbols, name),
    ensures
        m.lookup(name) == find_named(m.scopes[m.current as int].symbols, name),
        m.lookup(name) is Some,
{
    lemma_find_named_absent(m.scopes[m.current as int].symbols, name);
}

/// Opening a scope changes no lookup: the new scope is empty and its parent
/// is the scope that was current.
pub proof fn lemma_push_preserves_lookup(
    m: ScopeManagerModel,
    kind: ScopeKind,
    scope_name: Seq<char>,
    name: Seq<char>,
)
    requires
        m.wf(),
        m.next < usize::MAX,
    ensures
        m.pushed(kind, scope_name).lookup(name) == m.lookup(name),
{
    let m2 = m.pushed(kind, scope_name);
    assert(m2.scopes[m.next as int].symbols =~= Seq::<SymbolModel>::empty());
    assert(find_named(m2.scopes[m.next as int].symbols, name) is None);
    assert(m2.scopes[m.next as int].parent == Some(m.current));
    lemma_lookup_agrees(m2, m, m.current as int, name);
}

/// Opening a scope and closing it again restores the current scope and
/// every lookup; only the closed scope remains as a child of the current one.
pub proof fn lemma_push_then_pop_restores(
    m: ScopeManagerModel,
    kind: ScopeKind,
    scope_name: Seq<char>,
    name: Seq<char>,
)
    requires
        m.wf(),
        m.next < usize::MAX,
    ensures
        m.pushed(kind, scope_name).scopes[m.pushed(kind, scope_name).current as int].parent == Some(
            m.current,
        ),
        (ScopeManagerModel { current: m.current, ..m.pushed(kind, scope_name) }).lookup(name)
            == m.lookup(name),
        (ScopeManagerModel { current: m.current, ..m.pushed(kind, scope_name) }).wf(),
{
    let m2 = m.pushed(kind, scope_name);
    let m3 = ScopeManagerModel { current: m.current, ..m2 };
    lemma_lookup_agrees(m3, m, m.current as int, name);
    lemma_pushed_wf(m, kind, scope_name);
    lemma_links_depend_on_tree(m2, m3);
}

/// Opening a scope keeps the manager well formed.
pub proof fn lemma_pushed_wf(m: ScopeManagerModel, kind: ScopeKind, scope_name: Seq<char>)
    requires
        m.wf(),
        m.next < usize::MAX,
    ensures
        m.pushed(kind, scope_name).wf(),
{
    let m2 = m.pushed(kind, scope_name);
    let cur = m.current as int;
    let n = m.next as int;
    assert forall|i: int, k: int|
        0 <= i < m2.scopes.len() && 0 <= k < m2.scopes[i].children.len() implies {
        let c = #[trigger] m2.scopes[i].children[k];
        &&& i < c < m2.scopes.len()
        &&& m2.scopes[c as int].parent == Some(i as usize)
    } by {
        if i != cur && i < m.scopes.len() {
            let c = m.scopes[i].children[k];
            assert(m2.scopes[c as int].parent == m.scopes[c as int].parent);
        } else if i == cur && k < m.scopes[i].children.len() {
            let c = m.scopes[i].children[k];
            assert(m2.scopes[c as int].parent == m.scopes[c as int].parent);
        }
    }
    lemma_pushed_links(m, kind, scope_name);
    assert forall|i: int| 0 <= i < m2.scopes.len() implies (
    #[trigger] m2.scopes[i]).children.no_duplicates() by {
        if i == cur {
            let old_children = m.scopes[cur].children;
            assert(!old_children.contains(n as usize)) by {
                if old_children.contains(n as usize) {
                    let k = choose|k: int| 0 <= k < old_children.len() && old_children[k] == n as usize;
                    assert(m.scopes[cur].children[k] < m.scopes.len());
                }
            }
            assert(old_children.no_duplicates());
        } else if i == n {
            assert(m2.scopes[i].children =~= Seq::<usize>::empty());
        } else {
            assert(m2.scopes[i] == m.scopes[i]);
        }
    }
    assert forall|i: int| 0 <= i < m2.scopes.len() implies keys_distinct(
        (#[trigger] m2.scopes[i]).symbols,
    ) by {
        if i < m.scopes.len() {
            assert(m2.scopes[i].symbols == m.scopes[i].symbols);
        } else {
            assert(m2.scopes[i].symbols =~= Seq::<SymbolModel>::empty());
        }
    }
}

/// Opening a scope keeps every scope listed among its parent's children.
proof fn lemma_pushed_links(m: ScopeManagerModel, kind: ScopeKind, scope_name: Seq<char>)
    requires
        m.wf(),
        m.next < usize::MAX,
    ensures
        m.pushed(kind, scope_name).parents_list_children(),
{
    let m2 = m.pushed(kind, scope_name);
    let cur = m.current as int;
    let n = m.next as int;
    reveal(ScopeManagerModel::parents_list_children);
    assert forall|i: int|
        #![trigger m2.scopes[i].parent]
        0 <= i < m2.scopes.len() implies (m2.scopes[i].parent matches Some(p)
        ==> m2.scopes[p as int].children.contains(i as usize)) by {
        if i == n {
            assert(m2.scopes[cur].children[m.scopes[cur].children.len() as int] == n as usize);
        } else {
            assert(m2.scopes[i].parent == m.scopes[i].parent);
            match m.scopes[i].parent {
                Some(p) => {
                    assert(m.scopes[p as int].children.contains(i as usize));
                    if p as int == cur {
                        let k = choose|k: int|
                            0 <= k < m.scopes[cur].children.len() && m.scopes[cur].children[k]
                                == i as usize;
                        assert(m2.scopes[cur].children[k] == i as usize);
                    }
                },
                None => {},
            }
        }
    }
}

/// Adding a symbol whose key is new to the current scope keeps the manager
/// well formed.
pub proof fn lemma_with_symbol_wf(m: ScopeManagerModel, symbol: SymbolModel)
    requires
        m.wf(),
        !has_keyed(m.scopes[m.current as int].symbols, symbol.name, symbol.kind),
    ensures
        m.with_symbol(symbol).wf(),
{
    let m2 = m.with_symbol(symbol);
    let cur = m.current as int;
    lemma_keys_distinct_push(m.scopes[cur].symbols, symbol);
    assert forall|i: int| 0 <= i < m2.scopes.len() implies keys_distinct(
        (#[trigger] m2.scopes[i]).symbols,
    ) by {
        if i != cur {
            assert(m2.scopes[i] == m.scopes[i]);
        }
    }
    assert forall|i: int| 0 <= i < m2.scopes.len() implies (#[trigger] m2.scopes[i]).children
        == m.scopes[i].children && m2.scopes[i].parent == m.scopes[i].parent && m2.scopes[i].id
        == m.scopes[i].id by {}
    assert forall|i: int, k: int|
        0 <= i < m2.scopes.len() && 0 <= k < m2.scopes[i].children.len() implies {
        let c = #[trigger] m2.scopes[i].children[k];
        &&& i < c < m2.scopes.len()
        &&& m2.scopes[c as int].parent == Some(i as usize)
    } by {
        let c = m.scopes[i].children[k];
        assert(m2.scopes[c as int].parent == m.scopes[c as int].parent);
    }
    lemma_links_depend_on_tree(m, m2);
}

/// Whether every scope's parent lists it depends only on the scopes' parents
/// and children.
proof fn lemma_links_depend_on_tree(a: ScopeManagerModel, b: ScopeManagerModel)
    requires
        a.parents_list_children(),
        a.scopes.len() == b.scopes.len(),
        forall|i: int|
            0 <= i < a.scopes.len() ==> ((#[trigger] a.scopes[i]).parent matches Some(p) ==> p
                < i),
        forall|i: int|
            0 <= i < a.scopes.len() ==> (#[trigger] b.scopes[i]).parent == a.scopes[i].parent
                && b.scopes[i].children == a.scopes[i].children,
    ensures
        b.parents_list_children(),
{
    reveal(ScopeManagerModel::parents_list_children);
    assert forall|i: int|
        #![trigger b.scopes[i].parent]
        0 <= i < b.scopes.len() implies (b.scopes[i].parent matches Some(p)
        ==> b.scopes[p as int].children.contains(i as usize)) by {
        assert(a.scopes[i].parent == b.scopes[i].parent);
        match a.scopes[i].parent {
            Some(p) => {
                assert(b.scopes[p as int].children == a.scopes[p as int].children);
            },
            None => {},
        }
    }
}

/// A symbol added to the current scope is what its key refers to there,
/// and what its name refers to from there unless the scope already held a
/// symbol of that name (of another kind); the lookup of every other name is
/// unchanged.
pub proof fn lemma_added_symbol_is_visible(m: ScopeManagerModel, symbol: SymbolModel, name: Seq<char>)
    requires
        m.wf(),
        !has_keyed(m.scopes[m.current as int].symbols, symbol.name, symbol.kind),
    ensures
        find_keyed(
            m.with_symbol(symbol).scopes[m.current as int].symbols,
            symbol.name,
            symbol.kind,
        ) == Some(symbol),
        !has_named(m.scopes[m.current as int].symbols, symbol.name) ==> m.with_symbol(
            symbol,
        ).lookup(symbol.name) == Some(symbol),
        name != symbol.name ==> m.with_symbol(symbol).lookup(name) == m.lookup(name),
        has_named(m.scopes[m.current as int].symbols, name) ==> m.with_symbol(symbol).lookup(name)
            == m.lookup(name),
{
    let m2 = m.with_symbol(symbol);
    let cur = m.current as int;
    let syms = m.scopes[cur].symbols;
    lemma_find_keyed_absent(syms, symbol.name, symbol.kind);
    lemma_find_keyed_push(syms, symbol, symbol.name, symbol.kind);
    lemma_find_named_push(syms, symbol, symbol.name);
    lemma_find_named_push(syms, symbol, name);
    lemma_find_named_absent(syms, name);
    lemma_find_named_absent(syms, symbol.name);
    match m.scopes[cur].parent {
        Some(p) => {
            if p < cur {
                lemma_lookup_agrees(m2, m, p as int, name);
                lemma_lookup_agrees(m2, m, p as int, symbol.name);
            }
        },
        None => {},
    }
}

/// Entering a procedure, property, block, type or enum scope changes no
/// symbol's accessibility (such a scope belongs to the module that encloses
/// it), except for a symbol that claims the id the new scope receives.
pub proof fn lemma_inner_scope_keeps_access(
    m: ScopeManagerModel,
    kind: ScopeKind,
    scope_name: Seq<char>,
    symbol: SymbolModel,
)
    requires
        m.wf(),
        m.next < usize::MAX,
        kind != ScopeKind::Global,
        kind != ScopeKind::Class,
        symbol.scope_id != m.next,
    ensures
        m.pushed(kind, scope_name).accessible(symbol) == m.accessible(symbol),
{
    let m2 = m.pushed(kind, scope_name);
    lemma_module_scope_agrees(m2, m, m.current as int);
    assert(m2.module_scope(m.next as int) == m2.module_scope(m.current as int));
    if symbol.scope_id < m.next {
        lemma_module_scope_agrees(m2, m, symbol.scope_id as int);
    }
}

/// A private symbol is accessible from the scope it belongs to, and public,
/// global and friend symbols are accessible from everywhere.
pub proof fn lemma_own_scope_access(m: ScopeManagerModel, symbol: SymbolModel)
    ensures
        symbol.scope_id == m.current ==> m.accessible(symbol),
        symbol.visibility != Visibility::Private ==> m.accessible(symbol),
{
}

/// The global scope has no parent, so it can never be popped.
pub proof fn lemma_global_scope_is_root(m: ScopeManagerModel)
    requires
        m.wf(),
    ensures
        m.scopes[m.global as int].parent is None,
        m.scopes[m.global as int].id == m.global,
{
}

/// The scopes form a tree rooted at the global scope: scope 0 is a global
/// scope and the only scope without a parent; every other scope's parent has
/// a smaller id and lists it among its children exactly once; every scope a
/// parent lists has that parent.
pub proof fn lemma_scope_tree(m: ScopeManagerModel)
    requires
        m.wf(),
    ensures
        m.global == 0,
        m.scopes[0].kind == ScopeKind::Global,
        m.scopes[0].parent is None,
        forall|i: int|
            0 < i < m.scopes.len() ==> ((#[trigger] m.scopes[i]).parent matches Some(p) && p < i
                && m.scopes[p as int].children.contains(i as usize)
                && m.scopes[p as int].children.no_duplicates()),
        forall|i: int, k: int|
            0 <= i < m.scopes.len() && 0 <= k < m.scopes[i].children.len() ==> m.scopes[(
            #[trigger] m.scopes[i].children[k]) as int].parent == Some(i as usize),
{
    reveal(ScopeManagerModel::parents_list_children);
    assert forall|i: int| 0 < i < m.scopes.len() implies ((#[trigger] m.scopes[i]).parent matches Some(p)
        && p < i && m.scopes[p as int].children.contains(i as usize)
        && m.scopes[p as int].children.no_duplicates()) by {
        assert(m.scopes[i].parent is Some);
        let p = m.scopes[i].parent->0;
        assert(m.scopes[p as int].children.no_duplicates());
    }
}

/// Adding symbols one after another to the current scope appends them, in
/// order, to its symbols and changes nothing else.
proof fn lemma_with_symbols_shape(p: ScopeManagerModel, syms: Seq<SymbolModel>)
    requires
        p.current < p.scopes.len(),
    ensures
        p.with_symbols(syms).scopes == p.scopes.update(
            p.current as int,
            ScopeModel { symbols: p.scopes[p.current as int].symbols + syms, ..p.scopes[p.current as int] },
        ),
        p.with_symbols(syms).current == p.current,
        p.with_symbols(syms).global == p.global,
        p.with_symbols(syms).next == p.next,
    decreases syms.len(),
{
    let cur = p.current as int;
    if syms.len() == 0 {
        assert(p.scopes[cur].symbols + syms =~= p.scopes[cur].symbols);
        assert(p.scopes.update(cur, ScopeModel { symbols: p.scopes[cur].symbols + syms, ..p.scopes[cur] }) =~= p.scopes);
    } else {
        lemma_with_symbols_shape(p, syms.drop_last());
        assert(p.scopes[cur].symbols + syms.drop_last() + seq![syms.last()] =~= p.scopes[cur].symbols
            + syms);
        assert((p.scopes[cur].symbols + syms.drop_last()).push(syms.last()) =~= p.scopes[cur].symbols
            + syms);
        assert(p.with_symbols(syms).scopes =~= p.scopes.update(
            cur,
            ScopeModel { symbols: p.scopes[cur].symbols + syms, ..p.scopes[cur] },
        ));
    }
}

/// Every global or class scope is its own module scope; so a private symbol
/// of one global or class scope is not accessible while a different global
/// or class scope is current.
pub proof fn lemma_modules_are_their_own_module_scope(m: ScopeManagerModel, symbol: SymbolModel)
    ensures
        forall|id: int|
            0 <= id < m.scopes.len() && (m.scopes[id].kind == ScopeKind::Global || m.scopes[id].kind
                == ScopeKind::Class) ==> #[trigger] m.module_scope(id) == id,
        ({
            let cur = m.current as int;
            let own = symbol.scope_id as int;
            0 <= cur < m.scopes.len() && 0 <= own < m.scopes.len() && own != cur && (
            m.scopes[cur].kind == ScopeKind::Global || m.scopes[cur].kind == ScopeKind::Class) && (
            m.scopes[own].kind == ScopeKind::Global || m.scopes[own].kind == ScopeKind::Class)
                && symbol.visibility == Visibility::Private ==> !m.accessible(symbol)
        }),
{
}

/// The scope found among `children` for `name` is one of them, exists, and
/// bears that name, and no child before it does; when none is found, no
/// existing child bears that name.
proof fn lemma_first_child_named(m: ScopeManagerModel, children: Seq<usize>, name: Seq<char>)
    ensures
        m.first_child_named(children, name) matches Some(s) ==> {
            &&& children.contains(s)
            &&& s < m.scopes.len()
            &&& m.scopes[s as int].name == name
            &&& exists|j: int|
                0 <= j < children.len() && children[j] == s && forall|k: int|
                    0 <= k < j ==> !(children[k] < m.scopes.len() && #[trigger] m.scopes[children[k] as int].name
                        == name)
        },
        m.first_child_named(children, name) is None ==> forall|k: int|
            0 <= k < children.len() && children[k] < m.scopes.len() ==> #[trigger] m.scopes[children[k] as int].name
                != name,
    decreases children.len(),
{
    if children.len() > 0 {
        let rest = children.drop_first();
        lemma_first_child_named(m, rest, name);
        if children[0] < m.scopes.len() && m.scopes[children[0] as int].name == name {
            assert(children[0] == children[0]);
        } else {
            match m.first_child_named(rest, name) {
                Some(s) => {
                    let j = choose|j: int|
                        0 <= j < rest.len() && rest[j] == s && forall|k: int|
                            0 <= k < j ==> !(rest[k] < m.scopes.len() && #[trigger] m.scopes[rest[k] as int].name
                                == name);
                    assert(children[j + 1] == s);
                    assert forall|k: int| 0 <= k < j + 1 implies !(children[k] < m.scopes.len()
                        && #[trigger] m.scopes[children[k] as int].name == name) by {
                        if k > 0 {
                            assert(children[k] == rest[k - 1]);
                        }
                    }
                },
                None => {
                    assert forall|k: int| 0 <= k < children.len() && children[k] < m.scopes.len()
                        implies #[trigger] m.scopes[children[k] as int].name != name by {
                        if k > 0 {
                            assert(children[k] == rest[k - 1]);
                        }
                    }
                },
            }
        }
    }
}

/// The scope a container opens is a child of the scope the container is
/// defined in and bears the container's name (the first such child); so a
/// member found through a container lies in a scope of that container's
/// name. When there is none, no child of that scope bears the name.
pub proof fn lemma_member_scope_is_named_child(
    m: ScopeManagerModel,
    container: SymbolModel,
    name: Seq<char>,
)
    ensures
        m.member_scope(container) matches Some(s) ==> {
            &&& container.scope_id < m.scopes.len()
            &&& m.scopes[container.scope_id as int].children.contains(s)
            &&& s < m.scopes.len()
            &&& m.scopes[s as int].name == container.name
        },
        m.member_scope(container) is None && container.scope_id < m.scopes.len() ==> forall|k: int|
            0 <= k < m.scopes[container.scope_id as int].children.len() && m.scopes[container.scope_id as int].children[k]
                < m.scopes.len() ==> #[trigger] m.scopes[m.scopes[container.scope_id as int].children[k] as int].name
                != container.name,
        m.member(container, name) matches Some(found) ==> (m.member_scope(container) matches Some(
            s,
        ) && m.scopes[s as int].name == container.name && m.scopes[s as int].symbols.contains(found)
            && found.name == name),
{
    if container.scope_id < m.scopes.len() {
        lemma_first_child_named(m, m.scopes[container.scope_id as int].children, container.name);
    }
    match m.member_scope(container) {
        Some(s) => lemma_find_named_absent(m.scopes[s as int].symbols, name),
        None => {},
    }
}

/// Opening a scope, adding symbols to it and closing it again returns to the
/// scope that was current and restores every lookup; the closed scope keeps
/// the symbols added to it, and the manager stays well formed when they have
/// distinct keys.
pub proof fn lemma_push_add_pop_restores(
    m: ScopeManagerModel,
    kind: ScopeKind,
    scope_name: Seq<char>,
    syms: Seq<SymbolModel>,
    name: Seq<char>,
)
    requires
        m.wf(),
        m.next < usize::MAX,
    ensures
        ({
            let inner = m.pushed(kind, scope_name).with_symbols(syms);
            let after = ScopeManagerModel { current: m.current, ..inner };
            &&& inner.current == m.next
            &&& inner.scopes[inner.current as int].parent == Some(m.current)
            &&& after.scopes[m.next as int].symbols == syms
            &&& after.lookup(name) == m.lookup(name)
            &&& keys_distinct(syms) ==> after.wf()
        }),
{
    let pushed = m.pushed(kind, scope_name);
    let inner = pushed.with_symbols(syms);
    let after = ScopeManagerModel { current: m.current, ..inner };
    let n = m.next as int;
    lemma_with_symbols_shape(pushed, syms);
    assert(pushed.scopes[n].symbols + syms =~= syms);
    lemma_lookup_agrees(after, m, m.current as int, name);
    if keys_distinct(syms) {
        let closed = ScopeManagerModel { current: m.current, ..pushed };
        lemma_push_then_pop_restores(m, kind, scope_name, name);
        assert forall|i: int|
            0 <= i < closed.scopes.len() implies (#[trigger] after.scopes[i]).parent
            == closed.scopes[i].parent && after.scopes[i].children == closed.scopes[i].children by {}
        lemma_links_depend_on_tree(closed, after);
        assert forall|i: int| 0 <= i < after.scopes.len() implies keys_distinct(
            (#[trigger] after.scopes[i]).symbols,
        ) by {
            if i != n {
                assert(after.scopes[i] == closed.scopes[i]);
            }
        }
        assert forall|i: int| 0 <= i < after.scopes.len() implies (
        #[trigger] after.scopes[i]).children.no_duplicates() by {
            assert(after.scopes[i].children == closed.scopes[i].children);
        }
        assert forall|i: int, k: int|
            0 <= i < after.scopes.len() && 0 <= k < after.scopes[i].children.len() implies {
            let c = #[trigger] after.scopes[i].children[k];
            &&& i < c < after.scopes.len()
            &&& after.scopes[c as int].parent == Some(i as usize)
        } by {
            assert(after.scopes[i].children == closed.scopes[i].children);
            let c = closed.scopes[i].children[k];
            assert(after.scopes[c as int].parent == closed.scopes[c as int].parent);
        }
        assert forall|i: int| 0 <= i < after.scopes.len() implies (#[trigger] after.scopes[i]).id
            == i by {
            assert(after.scopes[i].id == closed.scopes[i].id);
        }
        assert forall|i: int| 0 <= i < after.scopes.len() implies match (
        #[trigger] after.scopes[i]).parent {
            Some(p) => p < i,
            None => i == 0,
        } by {
            assert(after.scopes[i].parent == closed.scopes[i].parent);
        }
    }
}

impl Default for ScopeManager {
    fn default() -> (m: Self)
        ensures
            m.wf(),
            m@ == ScopeManagerModel::initial(),
    {
        Self::new()
    }
}

} // verus!
