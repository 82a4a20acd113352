//! Name resolution: resolving simple and qualified names from the current
//! scope, and checking whether symbols are accessible there.

use vstd::prelude::*;
use vstd::string::*;

use crate::error::{Result, SemanticError, SourceLocation};
use crate::scope::{ScopeManager, ScopeManagerModel};
use crate::symbols::Symbol;
use crate::text::string_views;

verus! {

/// The message for a qualified name with no parts.
pub open spec fn empty_qualified_message() -> Seq<char> {
    "Empty qualified name"@
}

/// Name resolver for resolving symbol references
pub struct NameResolver {
    scope_manager: ScopeManager,
}

impl View for NameResolver {
    type V = ScopeManagerModel;

    /// The model of the scope manager that names are resolved in.
    closed spec fn view(&self) -> ScopeManagerModel {
        self.scope_manager@
    }
}

impl NameResolver {
    /// The resolver's scope manager is well formed.
    pub closed spec fn wf(&self) -> bool {
        self.scope_manager.wf()
    }

    /// Create a new name resolver with the given scope manager
    pub fn new(scope_manager: ScopeManager) -> (r: Self)
        ensures
            r@ == scope_manager@,
            r.wf() == scope_manager.wf(),
    {
        NameResolver { scope_manager }
    }

    /// Resolve a simple name to the symbol it refers to from the current
    /// scope; `UndefinedSymbol` with the name and location when there is none.
    pub fn resolve_name(&self, name: &str, location: &SourceLocation) -> (r: Result<&Symbol>)
        requires
            self.wf(),
        ensures
            match self@.lookup(name@) {
                Some(s) => r matches Ok(found) && found@ == s,
                None => r matches Err(SemanticError::UndefinedSymbol { name: n, location: at })
                    && n@ == name@ && at == *location,
            },
    {
        match self.scope_manager.lookup(name) {
            Some(s) => Ok(s),
            None => Err(
                SemanticError::UndefinedSymbol { name: name.to_owned(), location: location.clone() },
            ),
        }
    }

    /// Resolve a qualified name (e.g. `Module.Function`). An empty name is an
    /// `AnalysisError`. The first part is resolved as a simple name, from the
    /// current scope outwards; each further part is looked up as a member of
    /// the symbol before it, in that container's own scope only. The first
    /// part that is not found is reported as `UndefinedSymbol`.
    pub fn resolve_qualified_name(&self, parts: &[String], location: &SourceLocation) -> (r: Result<&Symbol>)
        requires
            self.wf(),
        ensures
            parts@.len() == 0 ==> (r matches Err(SemanticError::AnalysisError(m)) && m@
                == empty_qualified_message()),
            parts@.len() > 0 ==> match self@.lookup(parts@[0]@) {
                None => r matches Err(SemanticError::UndefinedSymbol { name: n, location: at })
                    && n@ == parts@[0]@ && at == *location,
                Some(c) => match self@.resolve_members(c, string_views(parts@).drop_first()) {
                    Ok(s) => r matches Ok(found) && found@ == s,
                    Err(missing) => r matches Err(
                        SemanticError::UndefinedSymbol { name: n, location: at },
                    ) && n@ == missing && at == *location,
                },
            },
    {
        if parts.len() == 0 {
            return Err(SemanticError::AnalysisError("Empty qualified name".to_owned()));
        }
        let ghost views = string_views(parts@);
        let mut current = match self.resolve_name(parts[0].as_str(), location) {
            Ok(s) => s,
            Err(e) => {
                return Err(e);
            },
        };
        let ghost start = current@;
        assert(views.skip(1) =~= views.drop_first());
        assert(views[0] == parts@[0]@);
        let mut i: usize = 1;
        while i < parts.len()
            invariant
                self.wf(),
                1 <= i <= parts@.len(),
                views == string_views(parts@),
                self@.lookup(parts@[0]@) == Some(start),
                self@.resolve_members(current@, views.skip(i as int)) == self@.resolve_members(
                    start,
                    views.drop_first(),
                ),
            decreases parts.len() - i,
        {
            assert(views.skip(i as int)[0] == parts@[i as int]@);
            assert(views.skip(i as int).drop_first() =~= views.skip(i + 1));
            match self.scope_manager.lookup_member(current, parts[i].as_str()) {
                Some(member) => {
                    current = member;
                },
                None => {
                    return Err(
                        SemanticError::UndefinedSymbol {
                            name: parts[i].clone(),
                            location: location.clone(),
                        },
                    );
                },
            }
            i = i + 1;
        }
        assert(views.skip(i as int).len() == 0);
        Ok(current)
    }

    /// Check if a symbol is accessible from the current scope
    pub fn is_accessible(&self, symbol: &Symbol) -> (r: bool)
        requires
            self.wf(),
        ensures
            r == self@.accessible(symbol@),
    {
        self.scope_manager.can_access(symbol)
    }

    /// Get the scope manager
    pub fn scope_manager(&self) -> (m: &ScopeManager)
        ensures
            m@ == self@,
            m.wf() == self.wf(),
    {
        &self.scope_manager
    }
}

} // verus!
