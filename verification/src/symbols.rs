//! Symbols (variables, procedures, classes, ...) and a symbol table that
//! holds the symbols of each scope.

use std::collections::HashMap;
use vstd::prelude::*;
use vstd::string::*;

use crate::error::{Result, SemanticError, SourceLocation};
use crate::text::decimal_digits;
use crate::text::decimal_string;
use crate::types::{TypeInfo, TypeInfoModel};

verus! {

broadcast use vstd::std_specs::hash::group_hash_axioms;

/// A symbol in VB6 code
#[derive(Debug)]
pub struct Symbol {
    /// Name of the symbol
    pub name: String,
    /// Kind of symbol (variable, function, class, etc.)
    pub kind: SymbolKind,
    /// Type information
    pub type_info: TypeInfo,
    /// Visibility (Public, Private, Friend)
    pub visibility: Visibility,
    /// Location where defined
    pub location: SourceLocation,
    /// Scope ID where this symbol is defined
    pub scope_id: usize,
    /// Additional attributes
    pub attributes: HashMap<String, String>,
}

/// The kind of a symbol (variable, function, class, etc.)
#[derive(Debug, Clone, Copy, PartialEq, Eq, Structural)]
pub enum SymbolKind {
    /// Variable declaration
    Variable,
    /// Constant declaration
    Constant,
    /// Sub procedure
    SubProcedure,
    /// Function
    Function,
    /// Property Get
    PropertyGet,
    /// Property Let
    PropertyLet,
    /// Property Set
    PropertySet,
    /// Class
    Class,
    /// Module
    Module,
    /// Form
    Form,
    /// Control on a form
    Control,
    /// Enum
    Enum,
    /// Enum member
    EnumMember,
    /// Type (User-defined type)
    UserType,
    /// Type member
    TypeMember,
    /// Parameter
    Parameter,
    /// Label (for GoTo)
    Label,
}

/// Who may refer to a symbol
#[derive(Debug, Clone, Copy, PartialEq, Eq, Structural, Default)]
pub enum Visibility {
    /// Public symbol, accessible from anywhere
    #[default]
    Public,
    /// Private symbol, accessible only within the defining module/class
    Private,
    /// Friend symbol, accessible within the same project
    Friend,
    /// Global symbol, accessible from anywhere (legacy VB6 global scope)
    Global,
}

/// The mathematical model of a `Symbol`.
pub struct SymbolModel {
    pub name: Seq<char>,
    pub kind: SymbolKind,
    pub type_info: TypeInfoModel,
    pub visibility: Visibility,
    pub location: SourceLocation,
    pub scope_id: usize,
    pub attributes: Map<String, String>,
}

impl View for Symbol {
    type V = SymbolModel;

    open spec fn view(&self) -> SymbolModel {
        SymbolModel {
            name: self.name@,
            kind: self.kind,
            type_info: self.type_info@,
            visibility: self.visibility,
            location: self.location,
            scope_id: self.scope_id,
            attributes: self.attributes@,
        }
    }
}

impl Clone for Symbol {
    fn clone(&self) -> (r: Self)
        ensures
            r@ == self@,
    {
        Symbol {
            name: self.name.clone(),
            kind: self.kind,
            type_info: self.type_info.clone(),
            visibility: self.visibility,
            location: self.location.clone(),
            scope_id: self.scope_id,
            attributes: self.attributes.clone(),
        }
    }
}

/// The models of a sequence of symbols.
pub open spec fn symbol_models(s: Seq<Symbol>) -> Seq<SymbolModel> {
    s.map_values(|x: Symbol| x@)
}

/// The first symbol in `syms` whose name is `name`, if any.
pub open spec fn find_named(syms: Seq<SymbolModel>, name: Seq<char>) -> Option<SymbolModel>
    decreases syms.len(),
{
    if syms.len() == 0 {
        None
    } else if syms[0].name == name {
        Some(syms[0])
    } else {
        find_named(syms.drop_first(), name)
    }
}

/// Whether some symbol in `syms` is named `name`.
pub open spec fn has_named(syms: Seq<SymbolModel>, name: Seq<char>) -> bool {
    exists|i: int| 0 <= i < syms.len() && #[trigger] syms[i].name == name
}

/// The first symbol in `syms` whose name is `name` and whose kind is `kind`:
/// a symbol's key is its name together with its kind.
pub open spec fn find_keyed(syms: Seq<SymbolModel>, name: Seq<char>, kind: SymbolKind) -> Option<
    SymbolModel,
>
    decreases syms.len(),
{
    if syms.len() == 0 {
        None
    } else if syms[0].name == name && syms[0].kind == kind {
        Some(syms[0])
    } else {
        find_keyed(syms.drop_first(), name, kind)
    }
}

/// Whether some symbol in `syms` has the key (`name`, `kind`).
pub open spec fn has_keyed(syms: Seq<SymbolModel>, name: Seq<char>, kind: SymbolKind) -> bool {
    exists|i: int| 0 <= i < syms.len() && #[trigger] syms[i].name == name && syms[i].kind == kind
}

/// No two symbols in `syms` share both name and kind (symbols of different
/// kinds, such as a Property Get and a Property Let, may share a name).
pub open spec fn keys_distinct(syms: Seq<SymbolModel>) -> bool {
    forall|i: int, j: int|
        0 <= i < syms.len() && 0 <= j < syms.len() && i != j ==> !(#[trigger] syms[i].name
            == #[trigger] syms[j].name && syms[i].kind == syms[j].kind)
}

/// The symbol at the first index with the name is the one found.
pub proof fn lemma_find_named_first(syms: Seq<SymbolModel>, name: Seq<char>, i: int)
    requires
        0 <= i < syms.len(),
        syms[i].name == name,
        forall|j: int| 0 <= j < i ==> #[trigger] syms[j].name != name,
    ensures
        find_named(syms, name) == Some(syms[i]),
    decreases i,
{
    if i > 0 {
        lemma_find_named_first(syms.drop_first(), name, i - 1);
    }
}

/// Nothing is found where no symbol has the name, and what is found has it.
pub proof fn lemma_find_named_absent(syms: Seq<SymbolModel>, name: Seq<char>)
    ensures
        find_named(syms, name) is None <==> !has_named(syms, name),
        find_named(syms, name) matches Some(s) ==> s.name == name && syms.contains(s),
    decreases syms.len(),
{
    if syms.len() > 0 {
        lemma_find_named_absent(syms.drop_first(), name);
        if syms[0].name != name {
            if has_named(syms, name) {
                let i = choose|i: int| 0 <= i < syms.len() && #[trigger] syms[i].name == name;
                assert(syms.drop_first()[i - 1].name == name);
            }
            if has_named(syms.drop_first(), name) {
                let i = choose|i: int|
                    0 <= i < syms.drop_first().len() && #[trigger] syms.drop_first()[i].name
                        == name;
                assert(syms[i + 1].name == name);
            }
            if find_named(syms, name) is Some {
                let s = find_named(syms, name)->0;
                let k = choose|k: int| 0 <= k < syms.drop_first().len() && syms.drop_first()[k] == s;
                assert(syms[k + 1] == s);
            }
        } else {
            assert(syms[0].name == name);
            assert(syms.contains(syms[0]));
        }
    }
}

/// Appending a symbol changes what a name finds only where nothing had that
/// name before, and then it finds the appended symbol.
pub proof fn lemma_find_named_push(syms: Seq<SymbolModel>, s: SymbolModel, name: Seq<char>)
    ensures
        find_named(syms.push(s), name) == (match find_named(syms, name) {
            Some(x) => Some(x),
            None => if s.name == name {
                Some(s)
            } else {
                None
            },
        }),
    decreases syms.len(),
{
    if syms.len() == 0 {
        assert(syms.push(s).drop_first() =~= Seq::<SymbolModel>::empty());
    } else {
        assert(syms.push(s).drop_first() =~= syms.drop_first().push(s));
        lemma_find_named_push(syms.drop_first(), s, name);
    }
}

/// The symbol at the first index with the key is the one found.
pub proof fn lemma_find_keyed_first(syms: Seq<SymbolModel>, name: Seq<char>, kind: SymbolKind, i: int)
    requires
        0 <= i < syms.len(),
        syms[i].name == name && syms[i].kind == kind,
        forall|j: int| 0 <= j < i ==> !(#[trigger] syms[j].name == name && syms[j].kind == kind),
    ensures
        find_keyed(syms, name, kind) == Some(syms[i]),
    decreases i,
{
    if i > 0 {
        lemma_find_keyed_first(syms.drop_first(), name, kind, i - 1);
    }
}

/// Nothing is found where no symbol has the key, and what is found has it.
pub proof fn lemma_find_keyed_absent(syms: Seq<SymbolModel>, name: Seq<char>, kind: SymbolKind)
    ensures
        find_keyed(syms, name, kind) is None <==> !has_keyed(syms, name, kind),
        find_keyed(syms, name, kind) matches Some(s) ==> s.name == name && s.kind == kind
            && syms.contains(s),
    decreases syms.len(),
{
    if syms.len() > 0 {
        lemma_find_keyed_absent(syms.drop_first(), name, kind);
        if !(syms[0].name == name && syms[0].kind == kind) {
            if has_keyed(syms, name, kind) {
                let i = choose|i: int|
                    0 <= i < syms.len() && #[trigger] syms[i].name == name && syms[i].kind == kind;
                assert(syms.drop_first()[i - 1].name == name);
            }
            if has_keyed(syms.drop_first(), name, kind) {
                let i = choose|i: int|
                    0 <= i < syms.drop_first().len() && #[trigger] syms.drop_first()[i].name == name
                        && syms.drop_first()[i].kind == kind;
                assert(syms[i + 1].name == name);
            }
            if find_keyed(syms, name, kind) is Some {
                let s = find_keyed(syms, name, kind)->0;
                let k = choose|k: int| 0 <= k < syms.drop_first().len() && syms.drop_first()[k] == s;
                assert(syms[k + 1] == s);
            }
        } else {
            assert(syms[0].name == name);
            assert(syms.contains(syms[0]));
        }
    }
}

/// Appending a symbol changes what a key finds only where nothing had that
/// key before, and then it finds the appended symbol.
pub proof fn lemma_find_keyed_push(
    syms: Seq<SymbolModel>,
    s: SymbolModel,
    name: Seq<char>,
    kind: SymbolKind,
)
    ensures
        find_keyed(syms.push(s), name, kind) == (match find_keyed(syms, name, kind) {
            Some(x) => Some(x),
            None => if s.name == name && s.kind == kind {
                Some(s)
            } else {
                None
            },
        }),
    decreases syms.len(),
{
    if syms.len() == 0 {
        assert(syms.push(s).drop_first() =~= Seq::<SymbolModel>::empty());
    } else {
        assert(syms.push(s).drop_first() =~= syms.drop_first().push(s));
        lemma_find_keyed_push(syms.drop_first(), s, name, kind);
    }
}

/// Appending a symbol whose key is new keeps the keys distinct.
pub proof fn lemma_keys_distinct_push(syms: Seq<SymbolModel>, s: SymbolModel)
    requires
        keys_distinct(syms),
        !has_keyed(syms, s.name, s.kind),
    ensures
        keys_distinct(syms.push(s)),
{
    let p = syms.push(s);
    assert forall|i: int, j: int| 0 <= i < p.len() && 0 <= j < p.len() && i != j implies !(
    #[trigger] p[i].name == #[trigger] p[j].name && p[i].kind == p[j].kind) by {
        if i == syms.len() {
            assert(p[j] == syms[j]);
        } else if j == syms.len() {
            assert(p[i] == syms[i]);
        } else {
            assert(p[i] == syms[i] && p[j] == syms[j]);
        }
    }
}

/// Copies a list of symbols.
pub(crate) fn clone_symbols(v: &Vec<Symbol>) -> (r: Vec<Symbol>)
    ensures
        symbol_models(r@) == symbol_models(v@),
{
    let mut r: Vec<Symbol> = Vec::new();
    let mut i: usize = 0;
    while i < v.len()
        invariant
            i <= v.len(),
            r@.len() == i,
            forall|k: int| 0 <= k < i ==> (#[trigger] r@[k])@ == v@[k]@,
        decreases v.len() - i,
    {
        let c = v[i].clone();
        r.push(c);
        i = i + 1;
    }
    assert(symbol_models(r@) =~= symbol_models(v@));
    r
}

/// Finds the index of the first symbol in `syms` named `name`.
fn index_of_name(syms: &Vec<Symbol>, name: &String) -> (r: Option<usize>)
    ensures
        match r {
            Some(i) => i < syms@.len() && syms@[i as int].name@ == name@ && forall|j: int|
                0 <= j < i ==> #[trigger] syms@[j].name@ != name@,
            None => forall|j: int| 0 <= j < syms@.len() ==> #[trigger] syms@[j].name@ != name@,
        },
{
    let mut i: usize = 0;
    while i < syms.len()
        invariant
            i <= syms@.len(),
            forall|j: int| 0 <= j < i ==> #[trigger] syms@[j].name@ != name@,
        decreases syms.len() - i,
    {
        if syms[i].name.eq(name) {
            return Some(i);
        }
        i = i + 1;
    }
    None
}

/// Looks `name` up among `syms`: the first symbol with that name.
pub(crate) fn find_symbol<'a>(syms: &'a Vec<Symbol>, name: &String) -> (r: Option<&'a Symbol>)
    ensures
        match r {
            Some(s) => find_named(symbol_models(syms@), name@) == Some(s@),
            None => find_named(symbol_models(syms@), name@) is None,
        },
{
    let ghost models = symbol_models(syms@);
    match index_of_name(syms, name) {
        Some(i) => {
            proof {
                assert forall|j: int| 0 <= j < i implies #[trigger] models[j].name != name@ by {
                    assert(models[j] == syms@[j]@);
                }
                lemma_find_named_first(models, name@, i as int);
            }
            Some(&syms[i])
        },
        None => {
            proof {
                assert forall|j: int| 0 <= j < models.len() implies #[trigger] models[j].name
                    != name@ by {
                    assert(models[j] == syms@[j]@);
                }
                lemma_find_named_absent(models, name@);
            }
            None
        },
    }
}

/// Finds the index of the first symbol in `syms` with the key (`name`, `kind`).
fn index_of_key(syms: &Vec<Symbol>, name: &String, kind: SymbolKind) -> (r: Option<usize>)
    ensures
        match r {
            Some(i) => i < syms@.len() && syms@[i as int].name@ == name@ && syms@[i as int].kind
                == kind && forall|j: int|
                0 <= j < i ==> !(#[trigger] syms@[j].name@ == name@ && syms@[j].kind == kind),
            None => forall|j: int|
                0 <= j < syms@.len() ==> !(#[trigger] syms@[j].name@ == name@ && syms@[j].kind
                    == kind),
        },
{
    let mut i: usize = 0;
    while i < syms.len()
        invariant
            i <= syms@.len(),
            forall|j: int| 0 <= j < i ==> !(#[trigger] syms@[j].name@ == name@ && syms@[j].kind == kind),
        decreases syms.len() - i,
    {
        if syms[i].name.eq(name) && syms[i].kind == kind {
            return Some(i);
        }
        i = i + 1;
    }
    None
}

/// Looks the key (`name`, `kind`) up among `syms`: the first symbol with it.
pub(crate) fn find_keyed_symbol<'a>(syms: &'a Vec<Symbol>, name: &String, kind: SymbolKind) -> (r:
    Option<&'a Symbol>)
    ensures
        match r {
            Some(s) => find_keyed(symbol_models(syms@), name@, kind) == Some(s@),
            None => find_keyed(symbol_models(syms@), name@, kind) is None,
        },
{
    let ghost models = symbol_models(syms@);
    match index_of_key(syms, name, kind) {
        Some(i) => {
            proof {
                assert forall|j: int| 0 <= j < i implies !(#[trigger] models[j].name == name@
                    && models[j].kind == kind) by {
                    assert(models[j] == syms@[j]@);
                }
                lemma_find_keyed_first(models, name@, kind, i as int);
            }
            Some(&syms[i])
        },
        None => {
            proof {
                assert forall|j: int| 0 <= j < models.len() implies !(#[trigger] models[j].name
                    == name@ && models[j].kind == kind) by {
                    assert(models[j] == syms@[j]@);
                }
                lemma_find_keyed_absent(models, name@, kind);
            }
            None
        },
    }
}

/// The symbols of `syms` whose kind is `kind`, in order.
pub open spec fn of_kind(syms: Seq<SymbolModel>, kind: SymbolKind) -> Seq<SymbolModel>
    decreases syms.len(),
{
    if syms.len() == 0 {
        Seq::empty()
    } else if syms.last().kind == kind {
        of_kind(syms.drop_last(), kind).push(syms.last())
    } else {
        of_kind(syms.drop_last(), kind)
    }
}

/// The symbols of kind `kind` across all scopes, scope by scope in order of
/// their ids, each scope's in the order they were added.
pub open spec fn all_of_kind(scopes: Seq<Seq<SymbolModel>>, kind: SymbolKind) -> Seq<SymbolModel>
    decreases scopes.len(),
{
    if scopes.len() == 0 {
        Seq::empty()
    } else {
        all_of_kind(scopes.drop_last(), kind) + of_kind(scopes.last(), kind)
    }
}

/// Whether a symbol is of kind `kind`.
pub open spec fn is_of_kind(kind: SymbolKind) -> spec_fn(SymbolModel) -> bool {
    |s: SymbolModel| s.kind == kind
}

/// The symbols of kind `kind` in a scope are exactly the scope's symbols of
/// that kind, every one of them, in order.
pub proof fn lemma_of_kind_keeps_every_match(syms: Seq<SymbolModel>, kind: SymbolKind)
    ensures
        of_kind(syms, kind) == syms.filter(is_of_kind(kind)),
    decreases syms.len(),
{
    reveal(Seq::filter);
    if syms.len() > 0 {
        lemma_of_kind_keeps_every_match(syms.drop_last(), kind);
    }
}

/// The symbols of kind `kind` across scopes are exactly the symbols of that
/// kind of all the scopes taken one after another: every symbol of that kind
/// in any scope is among them, and each of them has that kind.
pub proof fn lemma_all_of_kind_keeps_every_match(scopes: Seq<Seq<SymbolModel>>, kind: SymbolKind)
    ensures
        all_of_kind(scopes, kind) == scopes.flatten().filter(is_of_kind(kind)),
        forall|i: int, j: int|
            0 <= i < scopes.len() && 0 <= j < scopes[i].len() && (#[trigger] scopes[i][j]).kind
                == kind ==> all_of_kind(scopes, kind).contains(scopes[i][j]),
        forall|k: int|
            0 <= k < all_of_kind(scopes, kind).len() ==> (#[trigger] all_of_kind(scopes, kind)[k]).kind
                == kind,
    decreases scopes.len(),
{
    broadcast use vstd::seq_lib::group_filter_ensures;

    if scopes.len() > 0 {
        let p = scopes.drop_last();
        let last = scopes.last();
        lemma_all_of_kind_keeps_every_match(p, kind);
        lemma_of_kind_keeps_every_match(last, kind);
        assert(p.push(last) =~= scopes);
        p.lemma_flatten_push(last);
        Seq::filter_distributes_over_add(p.flatten(), last, is_of_kind(kind));
        let all = all_of_kind(scopes, kind);
        assert forall|i: int, j: int|
            0 <= i < scopes.len() && 0 <= j < scopes[i].len() && (#[trigger] scopes[i][j]).kind
                == kind implies all.contains(scopes[i][j]) by {
            if i < p.len() {
                assert(p[i][j] == scopes[i][j]);
                let k = choose|k: int| 0 <= k < all_of_kind(p, kind).len() && all_of_kind(p, kind)[k]
                    == scopes[i][j];
                assert(all[k] == scopes[i][j]);
            } else {
                last.lemma_filter_contains(is_of_kind(kind), j);
                let k = choose|k: int| 0 <= k < of_kind(last, kind).len() && of_kind(last, kind)[k]
                    == scopes[i][j];
                assert(all[all_of_kind(p, kind).len() + k] == scopes[i][j]);
            }
        }
        assert forall|k: int| 0 <= k < all.len() implies (#[trigger] all[k]).kind == kind by {
            if k >= all_of_kind(p, kind).len() {
                last.lemma_filter_pred(is_of_kind(kind), k - all_of_kind(p, kind).len());
            }
        }
    }
}

/// The message of the error for a scope id that names no scope.
pub open spec fn missing_scope_message(scope_id: usize) -> Seq<char> {
    "Scope "@ + decimal_digits(scope_id as nat) + " does not exist"@
}

pub(crate) fn missing_scope_error(scope_id: usize) -> (e: SemanticError)
    ensures
        e matches SemanticError::InvalidScope { message } && message@ == missing_scope_message(
            scope_id,
        ),
{
    let mut message = "Scope ".to_owned();
    let id = decimal_string(scope_id);
    message.append(id.as_str());
    message.append(" does not exist");
    SemanticError::InvalidScope { message }
}

/// The symbols of `syms` whose kind is `kind`, as references in order.
fn collect_of_kind<'a>(syms: &'a Vec<Symbol>, kind: SymbolKind, out: &mut Vec<&'a Symbol>)
    ensures
        final(out)@.map_values(|x: &Symbol| x@) == old(out)@.map_values(|x: &Symbol| x@) + of_kind(
            symbol_models(syms@),
            kind,
        ),
{
    let ghost start = old(out)@.map_values(|x: &Symbol| x@);
    let ghost models = symbol_models(syms@);
    let mut i: usize = 0;
    while i < syms.len()
        invariant
            i <= syms@.len(),
            models == symbol_models(syms@),
            out@.map_values(|x: &Symbol| x@) == start + of_kind(models.take(i as int), kind),
        decreases syms.len() - i,
    {
        let ghost before = out@;
        assert(models.take(i + 1).drop_last() =~= models.take(i as int));
        assert(models.take(i + 1).last() == syms@[i as int]@);
        if syms[i].kind == kind {
            out.push(&syms[i]);
            assert(out@.map_values(|x: &Symbol| x@) =~= before.map_values(|x: &Symbol| x@).push(
                syms@[i as int]@,
            ));
        }
        i = i + 1;
    }
    assert(models.take(syms@.len() as int) =~= models);
}

/// The symbols of the scopes with ids `0..next` in `map`, by scope id.
pub open spec fn table_models(map: Map<usize, Vec<Symbol>>, next: usize) -> Seq<Seq<SymbolModel>> {
    Seq::new(next as nat, |i: int| symbol_models(map[i as usize]@))
}

/// Symbol table: the symbols of each scope, scopes numbered from 0 in the
/// order they were created.
#[derive(Debug)]
pub struct SymbolTable {
    symbols: HashMap<usize, Vec<Symbol>>,
    next_scope_id: usize,
}

impl View for SymbolTable {
    type V = Seq<Seq<SymbolModel>>;

    /// The symbols of each scope, indexed by scope id.
    closed spec fn view(&self) -> Seq<Seq<SymbolModel>> {
        table_models(self.symbols@, self.next_scope_id)
    }
}

impl SymbolTable {
    /// The table is well formed: its map is keyed by the scope ids
    /// `0..next`, allocated densely from 0, and no scope holds two symbols of
    /// one name and kind.
    pub closed spec fn wf(&self) -> bool {
        &&& forall|i: usize| #[trigger] self.symbols@.contains_key(i) <==> i < self.next_scope_id
        &&& forall|i: int| 0 <= i < self@.len() ==> keys_distinct(#[trigger] self@[i])
    }

    /// The symbols of scope `id`, which exists.
    fn scope_at(&self, id: usize) -> (v: &Vec<Symbol>)
        requires
            self.wf(),
            id < self@.len(),
        ensures
            symbol_models(v@) == self@[id as int],
    {
        assert(self.symbols@.contains_key(id));
        self.symbols.get(&id).unwrap()
    }

    /// Create a new symbol table
    pub fn new() -> (t: Self)
        ensures
            t.wf(),
            t@ == Seq::<Seq<SymbolModel>>::empty(),
    {
        let t = SymbolTable { symbols: HashMap::new(), next_scope_id: 0 };
        assert(t@ =~= Seq::<Seq<SymbolModel>>::empty());
        t
    }

    /// Create a new, empty scope and return its ID, which is the number of
    /// scopes created before it.
    pub fn create_scope(&mut self) -> (scope_id: usize)
        requires
            old(self).wf(),
            old(self)@.len() < usize::MAX,
        ensures
            final(self).wf(),
            scope_id == old(self)@.len(),
            final(self)@ == old(self)@.push(Seq::<SymbolModel>::empty()),
            final(self)@ == table_step(old(self)@, TableOp::Create),
    {
        let scope_id = self.next_scope_id;
        let fresh: Vec<Symbol> = Vec::new();
        assert(symbol_models(fresh@) =~= Seq::<SymbolModel>::empty());
        self.symbols.insert(scope_id, fresh);
        self.next_scope_id = self.next_scope_id + 1;
        proof {
            let o = old(self).symbols@;
            assert forall|i: int| 0 <= i < self.next_scope_id implies #[trigger] self@[i]
                == old(self)@.push(Seq::<SymbolModel>::empty())[i] by {
                if i != scope_id {
                    assert(self.symbols@[i as usize] == o[i as usize]);
                }
            }
            assert(self@ =~= old(self)@.push(Seq::<SymbolModel>::empty()));
            assert forall|i: usize| #[trigger] self.symbols@.contains_key(i) <==> i
                < self.next_scope_id by {
                assert(o.contains_key(i) <==> i < scope_id);
            }
        }
        scope_id
    }

    /// Add a symbol to a scope. Fails with `InvalidScope` when no scope has
    /// that id and with `DuplicateSymbol` when the scope already holds a
    /// symbol of that name and kind; the table is then unchanged. Symbols of
    /// different kinds may share a name.
    pub fn add_symbol(&mut self, scope_id: usize, symbol: Symbol) -> (r: Result<()>)
        requires
            old(self).wf(),
        ensures
            final(self).wf(),
            scope_id >= old(self)@.len() ==> (r matches Err(SemanticError::InvalidScope { message })
                && message@ == missing_scope_message(scope_id)) && final(self)@ == old(self)@,
            scope_id < old(self)@.len() && has_keyed(
                old(self)@[scope_id as int],
                symbol.name@,
                symbol.kind,
            ) ==> (r matches Err(
                SemanticError::DuplicateSymbol { name, location, previous_location },
            ) && name@ == symbol.name@ && location == symbol.location && previous_location
                == find_keyed(old(self)@[scope_id as int], symbol.name@, symbol.kind)->0.location)
                && final(self)@ == old(self)@,
            scope_id < old(self)@.len() && !has_keyed(
                old(self)@[scope_id as int],
                symbol.name@,
                symbol.kind,
            ) ==> r is Ok && final(self)@ == old(self)@.update(
                scope_id as int,
                old(self)@[scope_id as int].push(symbol@),
            ),
            final(self)@ == table_step(old(self)@, TableOp::Add(scope_id, symbol@)),
    {
        if scope_id >= self.next_scope_id {
            return Err(missing_scope_error(scope_id));
        }
        let ghost models = self@[scope_id as int];
        match find_keyed_symbol(self.scope_at(scope_id), &symbol.name, symbol.kind) {
            Some(existing) => {
                proof {
                    lemma_find_keyed_absent(models, symbol.name@, symbol.kind);
                }
                let previous_location = existing.location.clone();
                return Err(
                    SemanticError::DuplicateSymbol {
                        name: symbol.name,
                        location: symbol.location,
                        previous_location,
                    },
                );
            },
            None => {
                proof {
                    lemma_find_keyed_absent(models, symbol.name@, symbol.kind);
                }
            },
        }
        let ghost sym_model = symbol@;
        let ghost before = self.symbols@;
        assert(before.contains_key(scope_id));
        if let Some(mut v) = self.symbols.remove(&scope_id) {
            let ghost taken = v;
            v.push(symbol);
            assert(symbol_models(v@) =~= symbol_models(taken@).push(sym_model));
            self.symbols.insert(scope_id, v);
        }
        proof {
            let target = old(self)@.update(scope_id as int, models.push(sym_model));
            assert forall|i: int| 0 <= i < self.next_scope_id implies #[trigger] self@[i]
                == target[i] by {
                if i != scope_id {
                    assert(self.symbols@[i as usize] == before[i as usize]);
                }
            }
            assert(self@ =~= target);
            assert forall|i: usize| #[trigger] self.symbols@.contains_key(i) <==> i
                < self.next_scope_id by {
                assert(before.contains_key(i) <==> i < self.next_scope_id);
            }
            lemma_keys_distinct_push(models, sym_model);
        }
        Ok(())
    }

    /// Look up a symbol in a specific scope: the symbol of that name in the
    /// scope, or `None` when there is none or no scope has that id.
    pub fn lookup_in_scope(&self, scope_id: usize, name: &str) -> (r: Option<&Symbol>)
        requires
            self.wf(),
        ensures
            match r {
                Some(s) => scope_id < self@.len() && find_named(self@[scope_id as int], name@)
                    == Some(s@),
                None => scope_id >= self@.len() || find_named(self@[scope_id as int], name@) is None,
            },
    {
        if scope_id >= self.next_scope_id {
            return None;
        }
        let key = name.to_owned();
        find_symbol(self.scope_at(scope_id), &key)
    }

    /// Get all symbols in a scope, in the order they were added; `None` when
    /// no scope has that id.
    pub fn get_scope_symbols(&self, scope_id: usize) -> (r: Option<&Vec<Symbol>>)
        requires
            self.wf(),
        ensures
            match r {
                Some(v) => scope_id < self@.len() && symbol_models(v@) == self@[scope_id as int],
                None => scope_id >= self@.len(),
            },
    {
        assert(self.symbols@.contains_key(scope_id) <==> scope_id < self.next_scope_id);
        self.symbols.get(&scope_id)
    }

    /// Get all symbols of a specific kind across all scopes, scope by scope
    /// in order of their ids
    pub fn get_symbols_by_kind(&self, kind: SymbolKind) -> (r: Vec<&Symbol>)
        requires
            self.wf(),
        ensures
            r@.map_values(|x: &Symbol| x@) == all_of_kind(self@, kind),
            r@.map_values(|x: &Symbol| x@) == self@.flatten().filter(is_of_kind(kind)),
    {
        proof {
            lemma_all_of_kind_keeps_every_match(self@, kind);
        }
        let mut out: Vec<&Symbol> = Vec::new();
        let mut i: usize = 0;
        assert(out@.map_values(|x: &Symbol| x@) =~= all_of_kind(self@.take(0), kind));
        while i < self.next_scope_id
            invariant
                self.wf(),
                i <= self@.len(),
                out@.map_values(|x: &Symbol| x@) == all_of_kind(self@.take(i as int), kind),
            decreases self.next_scope_id - i,
        {
            let v = self.scope_at(i);
            collect_of_kind(v, kind, &mut out);
            assert(self@.take(i + 1).drop_last() =~= self@.take(i as int));
            assert(self@.take(i + 1).last() == symbol_models(v@));
            i = i + 1;
        }
        assert(self@.take(self@.len() as int) =~= self@);
        out
    }

    /// Check if a symbol of that name exists in any scope
    pub fn symbol_exists(&self, name: &str) -> (r: bool)
        requires
            self.wf(),
        ensures
            r == exists|i: int| 0 <= i < self@.len() && has_named(#[trigger] self@[i], name@),
    {
        let key = name.to_owned();
        let mut i: usize = 0;
        while i < self.next_scope_id
            invariant
                self.wf(),
                i <= self@.len(),
                key@ == name@,
                forall|k: int| 0 <= k < i ==> !has_named(#[trigger] self@[k], name@),
            decreases self.next_scope_id - i,
        {
            if find_symbol(self.scope_at(i), &key).is_some() {
                proof {
                    lemma_find_named_absent(self@[i as int], name@);
                }
                return true;
            }
            proof {
                lemma_find_named_absent(self@[i as int], name@);
            }
            i = i + 1;
        }
        false
    }
}

/// A symbol added to a scope of a table is what a lookup of its key (name
/// and kind) in that scope returns, so adding that key there again is
/// refused; a lookup by name finds it unless the scope already held a symbol
/// of that name; every other key, and every other scope, is unchanged.
pub proof fn lemma_table_read_after_write(
    table: Seq<Seq<SymbolModel>>,
    scope_id: int,
    symbol: SymbolModel,
    name: Seq<char>,
    kind: SymbolKind,
)
    requires
        0 <= scope_id < table.len(),
        !has_keyed(table[scope_id], symbol.name, symbol.kind),
    ensures
        ({
            let after = table.update(scope_id, table[scope_id].push(symbol));
            &&& find_keyed(after[scope_id], symbol.name, symbol.kind) == Some(symbol)
            &&& has_keyed(after[scope_id], symbol.name, symbol.kind)
            &&& !(name == symbol.name && kind == symbol.kind) ==> find_keyed(
                after[scope_id],
                name,
                kind,
            ) == find_keyed(table[scope_id], name, kind)
            &&& find_named(after[scope_id], name) == (if name == symbol.name && !has_named(
                table[scope_id],
                name,
            ) {
                Some(symbol)
            } else {
                find_named(table[scope_id], name)
            })
            &&& forall|other: int|
                0 <= other < table.len() && other != scope_id ==> #[trigger] after[other]
                    == table[other]
        }),
{
    let after = table.update(scope_id, table[scope_id].push(symbol));
    lemma_find_keyed_absent(table[scope_id], symbol.name, symbol.kind);
    lemma_find_keyed_push(table[scope_id], symbol, symbol.name, symbol.kind);
    lemma_find_keyed_push(table[scope_id], symbol, name, kind);
    lemma_find_named_push(table[scope_id], symbol, name);
    lemma_find_named_absent(table[scope_id], name);
    assert(after[scope_id][table[scope_id].len() as int].name == symbol.name);
}

/// One call on a symbol table: `create_scope`, or `add_symbol` of a symbol
/// to the scope with the given id.
pub enum TableOp {
    Create,
    Add(usize, SymbolModel),
}

/// The symbols of each scope after one call, as `create_scope` and
/// `add_symbol` leave them: a new empty scope, or the symbol appended to its
/// scope when the scope exists and holds no symbol of that name and kind.
pub open spec fn table_step(t: Seq<Seq<SymbolModel>>, op: TableOp) -> Seq<Seq<SymbolModel>> {
    match op {
        TableOp::Create => t.push(Seq::<SymbolModel>::empty()),
        TableOp::Add(sid, s) => if sid < t.len() && !has_keyed(t[sid as int], s.name, s.kind) {
            t.update(sid as int, t[sid as int].push(s))
        } else {
            t
        },
    }
}

/// The symbols of each scope of a new table after the calls `ops`.
pub open spec fn table_after(ops: Seq<TableOp>) -> Seq<Seq<SymbolModel>>
    decreases ops.len(),
{
    if ops.len() == 0 {
        Seq::empty()
    } else {
        table_step(table_after(ops.drop_last()), ops.last())
    }
}

/// The number of `create_scope` calls among `ops`.
pub open spec fn creations(ops: Seq<TableOp>) -> nat
    decreases ops.len(),
{
    if ops.len() == 0 {
        0
    } else {
        creations(ops.drop_last()) + if ops.last() is Create {
            1nat
        } else {
            0nat
        }
    }
}

/// Whether call `k` of `ops` is an `add_symbol` that succeeded.
pub open spec fn accepted(ops: Seq<TableOp>, k: int) -> bool {
    match ops[k] {
        TableOp::Add(sid, s) => {
            let t = table_after(ops.take(k));
            sid < t.len() && !has_keyed(t[sid as int], s.name, s.kind)
        },
        TableOp::Create => false,
    }
}

/// The symbols of the successful `add_symbol` calls on scope `sid` among
/// `ops`, in the order of the calls.
pub open spec fn accepted_into(ops: Seq<TableOp>, sid: usize) -> Seq<SymbolModel>
    decreases ops.len(),
{
    if ops.len() == 0 {
        Seq::empty()
    } else {
        let prev = accepted_into(ops.drop_last(), sid);
        match ops.last() {
            TableOp::Add(i, s) => if i == sid && accepted(ops, ops.len() - 1) {
                prev.push(s)
            } else {
                prev
            },
            TableOp::Create => prev,
        }
    }
}

/// Whatever calls a new table has seen, it holds one scope per call of
/// `create_scope`; each scope holds exactly the symbols of the calls of
/// `add_symbol` on it that succeeded, in the order they were made, and no
/// two of them share a name and kind.
pub proof fn lemma_table_holds_accepted_additions(ops: Seq<TableOp>)
    ensures
        table_after(ops).len() == creations(ops),
        forall|sid: usize|
            sid < table_after(ops).len() ==> #[trigger] accepted_into(ops, sid) == table_after(
                ops,
            )[sid as int],
        forall|sid: usize|
            sid >= table_after(ops).len() ==> #[trigger] accepted_into(ops, sid) == Seq::<
                SymbolModel,
            >::empty(),
        forall|sid: int|
            0 <= sid < table_after(ops).len() ==> keys_distinct(#[trigger] table_after(ops)[sid]),
    decreases ops.len(),
{
    if ops.len() > 0 {
        let p = ops.drop_last();
        let t = table_after(p);
        lemma_table_holds_accepted_additions(p);
        assert(ops.take(ops.len() - 1) =~= p);
        match ops.last() {
            TableOp::Create => {
                assert forall|sid: usize| sid < table_after(ops).len() implies #[trigger] accepted_into(
                    ops,
                    sid,
                ) == table_after(ops)[sid as int] by {
                    if sid < t.len() {
                        assert(accepted_into(p, sid) == t[sid as int]);
                    } else {
                        assert(accepted_into(p, sid) == Seq::<SymbolModel>::empty());
                    }
                }
                assert forall|sid: usize| sid >= table_after(ops).len() implies #[trigger] accepted_into(
                    ops,
                    sid,
                ) == Seq::<SymbolModel>::empty() by {
                    assert(accepted_into(p, sid) == Seq::<SymbolModel>::empty());
                }
                assert forall|sid: int| 0 <= sid < table_after(ops).len() implies keys_distinct(
                    #[trigger] table_after(ops)[sid],
                ) by {
                    if sid < t.len() {
                        assert(keys_distinct(t[sid]));
                    }
                }
            },
            TableOp::Add(i, s) => {
                let ok = i < t.len() && !has_keyed(t[i as int], s.name, s.kind);
                assert(accepted(ops, ops.len() - 1) == ok);
                if ok {
                    lemma_keys_distinct_push(t[i as int], s);
                }
                assert forall|sid: usize| sid < table_after(ops).len() implies #[trigger] accepted_into(
                    ops,
                    sid,
                ) == table_after(ops)[sid as int] by {
                    assert(accepted_into(p, sid) == t[sid as int]);
                }
                assert forall|sid: usize| sid >= table_after(ops).len() implies #[trigger] accepted_into(
                    ops,
                    sid,
                ) == Seq::<SymbolModel>::empty() by {
                    assert(accepted_into(p, sid) == Seq::<SymbolModel>::empty());
                }
                assert forall|sid: int| 0 <= sid < table_after(ops).len() implies keys_distinct(
                    #[trigger] table_after(ops)[sid],
                ) by {
                    assert(keys_distinct(t[sid]));
                }
            },
        }
    }
}

impl Clone for SymbolTable {
    fn clone(&self) -> (r: Self)
        ensures
            r@ == self@,
            r.wf() == self.wf(),
    {
        let r = SymbolTable { symbols: self.symbols.clone(), next_scope_id: self.next_scope_id };
        assert(r.symbols@ == self.symbols@);
        assert(r@ == self@);
        r
    }
}

impl Default for SymbolTable {
    fn default() -> (t: Self)
        ensures
            t.wf(),
            t@ == Seq::<Seq<SymbolModel>>::empty(),
    {
        Self::new()
    }
}

} // verus!
