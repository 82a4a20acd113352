//! The semantic analyzer: the entry point that walks parsed VB6 files,
//! opens a scope for each, records symbols and collects errors and warnings.

use vstd::prelude::*;

use crate::error::{Result, SemanticError, SourceLocation};
use crate::scope::{lemma_push_then_pop_restores, ScopeKind, ScopeManager, ScopeManagerModel};
use crate::symbols::{find_keyed, has_keyed, Symbol};
use crate::types::TypeChecker;

verus! {

/// A parsed VB6 project file (`.vbp`), as the `vb6parse` crate gives it.
#[verifier::external_type_specification]
#[verifier::external_body]
pub struct ExProjectFile<'a>(vb6parse::files::ProjectFile<'a>);

/// A parsed VB6 module file (`.bas`), as the `vb6parse` crate gives it.
#[verifier::external_type_specification]
#[verifier::external_body]
pub struct ExModuleFile(vb6parse::files::ModuleFile);

/// A parsed VB6 class file (`.cls`), as the `vb6parse` crate gives it.
#[verifier::external_type_specification]
#[verifier::external_body]
pub struct ExClassFile(vb6parse::files::ClassFile);

/// A parsed VB6 form file (`.frm`), as the `vb6parse` crate gives it.
#[verifier::external_type_specification]
#[verifier::external_body]
pub struct ExFormFile(vb6parse::files::FormFile);

/// The name that a parsed project file gives its project: the
/// `properties.name` field of a `vb6parse::files::ProjectFile`.
pub uninterp spec fn project_name_of(project: vb6parse::files::ProjectFile) -> Seq<char>;

/// The name that a parsed module file gives its module: the `name` field
/// (its `VB_Name` attribute) of a `vb6parse::files::ModuleFile`.
pub uninterp spec fn module_name_of(module: vb6parse::files::ModuleFile) -> Seq<char>;

/// The project's name: the `properties.name` field of a parsed
/// `vb6parse::files::ProjectFile`, copied into a `String`; the contract
/// claims it is `project_name_of` the project.
#[verifier::external_body]
fn project_name(project: &vb6parse::files::ProjectFile) -> (name: String)
    ensures
        name@ == project_name_of(*project),
{
    project.properties.name.to_string()
}

/// The module's name: the `name` field (its `VB_Name` attribute) of a parsed
/// `vb6parse::files::ModuleFile`, cloned; the contract claims it is
/// `module_name_of` the module.
#[verifier::external_body]
fn module_name(module: &vb6parse::files::ModuleFile) -> (name: String)
    ensures
        name@ == module_name_of(*module),
{
    module.name.clone()
}

fn clone_errors(v: &Vec<SemanticError>) -> (r: Vec<SemanticError>)
    ensures
        r@ == v@,
{
    let r = v.clone();
    assert(r@ =~= v@);
    r
}

fn clone_strings(v: &Vec<String>) -> (r: Vec<String>)
    ensures
        r@ == v@,
{
    let r = v.clone();
    assert(r@ =~= v@);
    r
}

/// The mathematical model of a `SemanticAnalyzer`.
pub struct AnalyzerModel {
    pub scopes: ScopeManagerModel,
    pub current_file: Option<Seq<char>>,
    pub errors: Seq<SemanticError>,
    pub warnings: Seq<Seq<char>>,
}

/// The mathematical model of an `AnalysisResult`.
pub struct AnalysisResultModel {
    pub scopes: ScopeManagerModel,
    pub errors: Seq<SemanticError>,
    pub warnings: Seq<Seq<char>>,
}

impl AnalyzerModel {
    /// The result that an analysis reports in this state: the scopes, errors
    /// and warnings as they stand.
    pub open spec fn report(self) -> AnalysisResultModel {
        AnalysisResultModel { scopes: self.scopes, errors: self.errors, warnings: self.warnings }
    }

    /// The state after a file named `file` is analysed: it becomes the current
    /// file, and a scope of kind `kind` named `name` is opened under the
    /// current scope and closed again, so that the current scope is unchanged.
    pub open spec fn after_file(self, file: Seq<char>, kind: ScopeKind, name: Seq<char>) -> AnalyzerModel {
        AnalyzerModel {
            scopes: ScopeManagerModel { current: self.scopes.current, ..self.scopes.pushed(kind, name) },
            current_file: Some(file),
            ..self
        }
    }
}

/// Main semantic analyzer that processes VB6 code
pub struct SemanticAnalyzer {
    scope_manager: ScopeManager,
    #[allow(dead_code)]
    type_checker: TypeChecker,
    current_file: Option<String>,
    errors: Vec<SemanticError>,
    warnings: Vec<String>,
}

/// Result of semantic analysis
#[derive(Debug)]
pub struct AnalysisResult {
    /// Final scope manager with all symbols
    pub scope_manager: ScopeManager,
    /// Errors found during analysis
    pub errors: Vec<SemanticError>,
    /// Warnings generated
    pub warnings: Vec<String>,
}

impl View for SemanticAnalyzer {
    type V = AnalyzerModel;

    closed spec fn view(&self) -> AnalyzerModel {
        AnalyzerModel {
            scopes: self.scope_manager@,
            current_file: match self.current_file {
                Some(f) => Some(f@),
                None => None,
            },
            errors: self.errors@,
            warnings: self.warnings@.map_values(|w: String| w@),
        }
    }
}

impl View for AnalysisResult {
    type V = AnalysisResultModel;

    open spec fn view(&self) -> AnalysisResultModel {
        AnalysisResultModel {
            scopes: self.scope_manager@,
            errors: self.errors@,
            warnings: self.warnings@.map_values(|w: String| w@),
        }
    }
}

impl Clone for AnalysisResult {
    fn clone(&self) -> (r: Self)
        ensures
            r@ == self@,
            r.scope_manager.wf() == self.scope_manager.wf(),
    {
        AnalysisResult {
            scope_manager: self.scope_manager.clone(),
            errors: clone_errors(&self.errors),
            warnings: clone_strings(&self.warnings),
        }
    }
}

impl SemanticAnalyzer {
    /// The analyzer's scope manager is well formed.
    pub closed spec fn wf(&self) -> bool {
        self.scope_manager.wf()
    }

    /// Create a new semantic analyzer instance: only the global scope, no
    /// current file, no errors and no warnings.
    pub fn new() -> (a: Self)
        ensures
            a.wf(),
            a@ == (AnalyzerModel {
                scopes: ScopeManagerModel::initial(),
                current_file: None,
                errors: Seq::empty(),
                warnings: Seq::empty(),
            }),
    {
        let a = SemanticAnalyzer {
            scope_manager: ScopeManager::new(),
            type_checker: TypeChecker::new(),
            current_file: None,
            errors: Vec::new(),
            warnings: Vec::new(),
        };
        assert(a@.warnings =~= Seq::<Seq<char>>::empty());
        a
    }

    fn report(&self) -> (r: AnalysisResult)
        ensures
            r@ == self@.report(),
            self.wf() ==> r.scope_manager.wf(),
    {
        AnalysisResult {
            scope_manager: self.scope_manager.clone(),
            errors: clone_errors(&self.errors),
            warnings: clone_strings(&self.warnings),
        }
    }

    /// Analyze a VB6 project file: open a global scope named after the
    /// project under the current scope (it stays open) and report the
    /// scopes, errors and warnings.
    pub fn analyze_project(&mut self, project: &vb6parse::files::ProjectFile) -> (r: Result<AnalysisResult>)
        requires
            old(self).wf(),
            old(self)@.scopes.next < usize::MAX,
        ensures
            final(self).wf(),
            final(self)@ == (AnalyzerModel {
                scopes: old(self)@.scopes.pushed(ScopeKind::Global, project_name_of(*project)),
                ..old(self)@
            }),
            r matches Ok(result) && result@ == final(self)@.report() && result.scope_manager.wf(),
    {
        let name = project_name(project);
        self.analyze_project_named(name)
    }

    /// Analyze a project whose name is `project_name`: open a global scope of
    /// that name under the current scope (it stays open) and report the
    /// scopes, errors and warnings.
    pub fn analyze_project_named(&mut self, project_name: String) -> (r: Result<AnalysisResult>)
        requires
            old(self).wf(),
            old(self)@.scopes.next < usize::MAX,
        ensures
            final(self).wf(),
            final(self)@ == (AnalyzerModel {
                scopes: old(self)@.scopes.pushed(ScopeKind::Global, project_name@),
                ..old(self)@
            }),
            r matches Ok(result) && result@ == final(self)@.report() && result.scope_manager.wf(),
    {
        let _project_scope = self.scope_manager.push_scope(ScopeKind::Global, project_name);
        Ok(self.report())
    }

    fn analyze_file(&mut self, file: String, kind: ScopeKind, scope_name: String) -> (r: Result<()>)
        requires
            old(self).wf(),
            old(self)@.scopes.next < usize::MAX,
        ensures
            final(self).wf(),
            final(self)@ == old(self)@.after_file(file@, kind, scope_name@),
            r is Ok,
    {
        self.current_file = Some(file);
        let _scope = self.scope_manager.push_scope(kind, scope_name);
        self.scope_manager.pop_scope()?;
        Ok(())
    }

    /// Analyze a module file: its name becomes the current file, and a global
    /// scope of that name is opened under the current scope and closed
    /// again.
    pub fn analyze_module(&mut self, module: &vb6parse::files::ModuleFile) -> (r: Result<()>)
        requires
            old(self).wf(),
            old(self)@.scopes.next < usize::MAX,
        ensures
            final(self).wf(),
            final(self)@ == old(self)@.after_file(
                module_name_of(*module),
                ScopeKind::Global,
                module_name_of(*module),
            ),
            r is Ok,
    {
        let name = module_name(module);
        self.analyze_module_named(name)
    }

    /// Analyze a module named `module_name`: it becomes the current file, and
    /// a global scope of that name is opened under the current scope and
    /// closed again.
    pub fn analyze_module_named(&mut self, module_name: String) -> (r: Result<()>)
        requires
            old(self).wf(),
            old(self)@.scopes.next < usize::MAX,
        ensures
            final(self).wf(),
            final(self)@ == old(self)@.after_file(module_name@, ScopeKind::Global, module_name@),
            r is Ok,
    {
        let file = module_name.clone();
        self.analyze_file(file, ScopeKind::Global, module_name)
    }

    /// Analyze a class file: the current file becomes `class`, and a class
    /// scope named `class` is opened under the current scope and closed
    /// again.
    pub fn analyze_class(&mut self, _class: &vb6parse::files::ClassFile) -> (r: Result<()>)
        requires
            old(self).wf(),
            old(self)@.scopes.next < usize::MAX,
        ensures
            final(self).wf(),
            final(self)@ == old(self)@.after_file("class"@, ScopeKind::Class, "class"@),
            r is Ok,
    {
        self.analyze_file("class".to_owned(), ScopeKind::Class, "class".to_owned())
    }

    /// Analyze a form file: the current file becomes `form`, and a class
    /// scope named `form` is opened under the current scope and closed again
    /// (forms are like classes).
    pub fn analyze_form(&mut self, _form: &vb6parse::files::FormFile) -> (r: Result<()>)
        requires
            old(self).wf(),
            old(self)@.scopes.next < usize::MAX,
        ensures
            final(self).wf(),
            final(self)@ == old(self)@.after_file("form"@, ScopeKind::Class, "form"@),
            r is Ok,
    {
        self.analyze_file("form".to_owned(), ScopeKind::Class, "form".to_owned())
    }

    /// Add a symbol to the current scope. When the scope manager refuses it
    /// (a symbol of that name and kind is already in the current scope), the
    /// error is recorded among the analyzer's errors and also returned.
    pub fn add_symbol(&mut self, symbol: Symbol) -> (r: Result<()>)
        requires
            old(self).wf(),
        ensures
            final(self).wf(),
            ({
                let cur = old(self)@.scopes.scopes[old(self)@.scopes.current as int].symbols;
                &&& has_keyed(cur, symbol.name@, symbol.kind) ==> (r matches Err(e) && (e matches SemanticError::DuplicateSymbol {
                    name,
                    location,
                    previous_location,
                } && name@ == symbol.name@ && location == symbol.location && previous_location
                    == find_keyed(cur, symbol.name@, symbol.kind)->0.location) && final(self)@
                    == (AnalyzerModel {
                    errors: old(self)@.errors.push(e),
                    ..old(self)@
                }))
                &&& !has_keyed(cur, symbol.name@, symbol.kind) ==> r is Ok && final(self)@ == (AnalyzerModel {
                    scopes: old(self)@.scopes.with_symbol(symbol@),
                    ..old(self)@
                })
            }),
    {
        match self.scope_manager.add_symbol(symbol) {
            Ok(()) => Ok(()),
            Err(e) => {
                self.errors.push(e.clone());
                Err(e)
            },
        }
    }

    /// Lookup a symbol from the current scope (see `ScopeManager::lookup`)
    pub fn lookup_symbol(&self, name: &str) -> (r: Option<&Symbol>)
        requires
            self.wf(),
        ensures
            match r {
                Some(s) => self@.scopes.lookup(name@) == Some(s@),
                None => self@.scopes.lookup(name@) is None,
            },
    {
        self.scope_manager.lookup(name)
    }

    /// Get the scope manager (for inspection)
    pub fn scope_manager(&self) -> (m: &ScopeManager)
        ensures
            m@ == self@.scopes,
            self.wf() ==> m.wf(),
    {
        &self.scope_manager
    }

    /// Get collected errors, oldest first
    pub fn errors(&self) -> (e: &[SemanticError])
        ensures
            e@ == self@.errors,
    {
        self.errors.as_slice()
    }

    /// Get collected warnings, oldest first
    pub fn warnings(&self) -> (w: &[String])
        ensures
            w@.map_values(|s: String| s@) == self@.warnings,
    {
        self.warnings.as_slice()
    }

    /// Add a warning after those already collected
    pub fn add_warning(&mut self, message: String)
        ensures
            final(self).wf() == old(self).wf(),
            final(self)@ == (AnalyzerModel {
                warnings: old(self)@.warnings.push(message@),
                ..old(self)@
            }),
    {
        let ghost m = message@;
        self.warnings.push(message);
        assert(self@.warnings =~= old(self)@.warnings.push(m));
    }

    /// A location in the current file, or in `<unknown>` when no file is
    /// being analysed.
    #[allow(dead_code)]
    fn make_location(&self, line: usize, column: usize) -> (loc: SourceLocation)
        ensures
            loc.file@ == match self@.current_file {
                Some(f) => f,
                None => "<unknown>"@,
            },
            loc.line == line,
            loc.column == column,
    {
        let file = match &self.current_file {
            Some(f) => f.clone(),
            None => "<unknown>".to_owned(),
        };
        SourceLocation { file, line, column }
    }
}

/// Analysing a module, class or form file leaves the analyzer well formed
/// and changes no lookup: the file's scope is opened and closed again.
pub proof fn lemma_file_analysis_preserves_lookup(
    a: AnalyzerModel,
    file: Seq<char>,
    kind: ScopeKind,
    scope_name: Seq<char>,
    name: Seq<char>,
)
    requires
        a.scopes.wf(),
        a.scopes.next < usize::MAX,
    ensures
        a.after_file(file, kind, scope_name).scopes.wf(),
        a.after_file(file, kind, scope_name).scopes.lookup(name) == a.scopes.lookup(name),
        a.after_file(file, kind, scope_name).scopes.current == a.scopes.current,
{
    lemma_push_then_pop_restores(a.scopes, kind, scope_name, name);
}

impl Default for SemanticAnalyzer {
    fn default() -> (a: Self)
        ensures
            a.wf(),
            a@ == (AnalyzerModel {
                scopes: ScopeManagerModel::initial(),
                current_file: None,
                errors: Seq::empty(),
                warnings: Seq::empty(),
            }),
    {
        Self::new()
    }
}

impl AnalysisResult {
    /// Check if analysis was successful: no errors were found
    pub fn is_successful(&self) -> (r: bool)
        ensures
            r == (self@.errors.len() == 0),
    {
        self.errors.len() == 0
    }

    /// Get error count
    pub fn error_count(&self) -> (n: usize)
        ensures
            n == self@.errors.len(),
    {
        self.errors.len()
    }

    /// Get warning count
    pub fn warning_count(&self) -> (n: usize)
        ensures
            n == self@.warnings.len(),
    {
        self.warnings.len()
    }
}

} // verus!
