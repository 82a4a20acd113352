//! Semantic analysis for VB6 code: symbol tables, lexical scopes, name
//! resolution and type-compatibility rules, each stated and proved with Verus.

pub mod analyzer;
pub mod error;
pub mod text;
pub mod types;
pub mod symbols;
pub mod scope;
pub mod resolution;

pub use analyzer::{AnalysisResult, SemanticAnalyzer};
pub use error::{Result, SemanticError, SourceLocation};
pub use types::{ArrayBound, TypeChecker, TypeInfo, TypeKind};
pub use symbols::{Symbol, SymbolKind, SymbolTable, Visibility};
pub use scope::{Scope, ScopeKind, ScopeManager};
pub use resolution::NameResolver;
