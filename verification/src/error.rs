//! Errors reported by semantic analysis, and source locations.

use vstd::prelude::*;
use vstd::string::*;

use crate::text::{decimal_digits, decimal_string};

verus! {

/// A position in a source file: file name, 1-based line and column.
#[derive(Debug, PartialEq, Eq)]
pub struct SourceLocation {
    /// Name of the source file
    pub file: String,
    /// Line number in the source file (1-based)
    pub line: usize,
    /// Column number in the source file (1-based)
    pub column: usize,
}

impl Clone for SourceLocation {
    fn clone(&self) -> (r: Self)
        ensures
            r == *self,
    {
        SourceLocation { file: self.file.clone(), line: self.line, column: self.column }
    }
}

/// The text `file:line:column` of a location.
pub open spec fn location_text(loc: SourceLocation) -> Seq<char> {
    loc.file@ + seq![':'] + decimal_digits(loc.line as nat) + seq![':'] + decimal_digits(
        loc.column as nat,
    )
}

impl SourceLocation {
    /// Renders the location as `file:line:column`.
    pub fn to_display_string(&self) -> (s: String)
        ensures
            s@ == location_text(*self),
    {
        proof {
            reveal_strlit(":");
        }
        let mut s = self.file.clone();
        s.append(":");
        let line = decimal_string(self.line);
        s.append(line.as_str());
        s.append(":");
        let column = decimal_string(self.column);
        s.append(column.as_str());
        s
    }
}

/// An error found during semantic analysis of VB6 code. Each variant carries
/// the names, types or messages that describe it and, where there is one,
/// the source location.
#[derive(Debug)]
pub enum SemanticError {
    /// A symbol is referenced but not defined
    UndefinedSymbol {
        /// Name of the undefined symbol
        name: String,
        /// Location where the undefined symbol is referenced
        location: SourceLocation,
    },
    /// A symbol is defined twice in one scope
    DuplicateSymbol {
        /// Name of the duplicate symbol
        name: String,
        /// Location where the duplicate symbol is defined
        location: SourceLocation,
        /// Location where the symbol was previously defined
        previous_location: SourceLocation,
    },
    /// The expected and found types do not match
    TypeMismatch {
        /// Expected type
        expected: String,
        /// Found type
        found: String,
        /// Location where the type mismatch occurs
        location: SourceLocation,
    },
    /// A scope is missing or may not be left
    InvalidScope {
        /// Message describing the invalid scope error
        message: String,
    },
    /// A type is not valid in the given context
    InvalidType {
        /// Message describing the invalid type error
        message: String,
        /// Location where the invalid type error occurs
        location: SourceLocation,
    },
    /// Symbols depend on each other in a cycle
    CircularDependency {
        /// Message describing the circular dependency error
        message: String,
    },
    /// An operation is not valid for the given types
    InvalidOperation {
        /// Message describing the invalid operation error
        message: String,
        /// Location where the invalid operation occurs
        location: SourceLocation,
    },
    /// A symbol is not accessible because of its visibility
    InaccessibleSymbol {
        /// Name of the inaccessible symbol
        name: String,
        /// Visibility of the inaccessible symbol (Public, Private, Friend)
        visibility: String,
        /// Location where the inaccessible symbol is referenced
        location: SourceLocation,
    },
    /// An assignment is not valid
    InvalidAssignment {
        /// Message describing the invalid assignment error
        message: String,
        /// Location where the invalid assignment occurs
        location: SourceLocation,
    },
    /// The provided parameters do not match the expected ones
    ParameterMismatch {
        /// Message describing the parameter mismatch error
        message: String,
        /// Location where the parameter mismatch occurs
        location: SourceLocation,
    },
    /// A general analysis error
    AnalysisError(String),
}

impl Clone for SemanticError {
    fn clone(&self) -> (r: Self)
        ensures
            r == *self,
    {
        match self {
            SemanticError::UndefinedSymbol { name, location } => SemanticError::UndefinedSymbol {
                name: name.clone(),
                location: location.clone(),
            },
            SemanticError::DuplicateSymbol { name, location, previous_location } => {
                SemanticError::DuplicateSymbol {
                    name: name.clone(),
                    location: location.clone(),
                    previous_location: previous_location.clone(),
                }
            },
            SemanticError::TypeMismatch { expected, found, location } => {
                SemanticError::TypeMismatch {
                    expected: expected.clone(),
                    found: found.clone(),
                    location: location.clone(),
                }
            },
            SemanticError::InvalidScope { message } => SemanticError::InvalidScope {
                message: message.clone(),
            },
            SemanticError::InvalidType { message, location } => SemanticError::InvalidType {
                message: message.clone(),
                location: location.clone(),
            },
            SemanticError::CircularDependency { message } => SemanticError::CircularDependency {
                message: message.clone(),
            },
            SemanticError::InvalidOperation { message, location } => {
                SemanticError::InvalidOperation {
                    message: message.clone(),
                    location: location.clone(),
                }
            },
            SemanticError::InaccessibleSymbol { name, visibility, location } => {
                SemanticError::InaccessibleSymbol {
                    name: name.clone(),
                    visibility: visibility.clone(),
                    location: location.clone(),
                }
            },
            SemanticError::InvalidAssignment { message, location } => {
                SemanticError::InvalidAssignment {
                    message: message.clone(),
                    location: location.clone(),
                }
            },
            SemanticError::ParameterMismatch { message, location } => {
                SemanticError::ParameterMismatch {
                    message: message.clone(),
                    location: location.clone(),
                }
            },
            SemanticError::AnalysisError(message) => SemanticError::AnalysisError(message.clone()),
        }
    }
}

/// The message of an error: a fixed prefix naming the kind of error, then
/// its names, types or message, and ` at ` and the location where it has one.
pub open spec fn error_text(e: SemanticError) -> Seq<char> {
    match e {
        SemanticError::UndefinedSymbol { name, location } => "Undefined symbol: "@ + name@
            + " at "@ + location_text(location),
        SemanticError::DuplicateSymbol { name, location, previous_location } =>
            "Symbol already defined: "@ + name@ + " at "@ + location_text(location)
                + ", previously defined at "@ + location_text(previous_location),
        SemanticError::TypeMismatch { expected, found, location } => "Type mismatch: expected "@
            + expected@ + ", found "@ + found@ + " at "@ + location_text(location),
        SemanticError::InvalidScope { message } => "Invalid scope: "@ + message@,
        SemanticError::InvalidType { message, location } => "Invalid type: "@ + message@
            + " at "@ + location_text(location),
        SemanticError::CircularDependency { message } => "Circular dependency detected: "@
            + message@,
        SemanticError::InvalidOperation { message, location } => "Invalid operation: "@
            + message@ + " at "@ + location_text(location),
        SemanticError::InaccessibleSymbol { name, visibility, location } =>
            "Inaccessible symbol: "@ + name@ + " is "@ + visibility@ + " at "@ + location_text(
                location,
            ),
        SemanticError::InvalidAssignment { message, location } => "Invalid assignment: "@
            + message@ + " at "@ + location_text(location),
        SemanticError::ParameterMismatch { message, location } => "Parameter mismatch: "@
            + message@ + " at "@ + location_text(location),
        SemanticError::AnalysisError(message) => "Analysis error: "@ + message@,
    }
}

/// `prefix`, the text, ` at ` and the location.
fn with_location(prefix: &str, text: &String, location: &SourceLocation) -> (s: String)
    ensures
        s@ == prefix@ + text@ + " at "@ + location_text(*location),
{
    let mut s = prefix.to_owned();
    s.append(text.as_str());
    s.append(" at ");
    let at = location.to_display_string();
    s.append(at.as_str());
    s
}

impl SemanticError {
    /// The error's message (see `error_text`).
    pub fn to_display_string(&self) -> (s: String)
        ensures
            s@ == error_text(*self),
    {
        match self {
            SemanticError::UndefinedSymbol { name, location } => with_location(
                "Undefined symbol: ",
                name,
                location,
            ),
            SemanticError::DuplicateSymbol { name, location, previous_location } => {
                let mut s = with_location("Symbol already defined: ", name, location);
                s.append(", previously defined at ");
                let prev = previous_location.to_display_string();
                s.append(prev.as_str());
                s
            },
            SemanticError::TypeMismatch { expected, found, location } => {
                let mut s = "Type mismatch: expected ".to_owned();
                s.append(expected.as_str());
                let rest = with_location(", found ", found, location);
                s.append(rest.as_str());
                assert(s@ =~= error_text(*self));
                s
            },
            SemanticError::InvalidScope { message } => {
                let mut s = "Invalid scope: ".to_owned();
                s.append(message.as_str());
                s
            },
            SemanticError::InvalidType { message, location } => with_location(
                "Invalid type: ",
                message,
                location,
            ),
            SemanticError::CircularDependency { message } => {
                let mut s = "Circular dependency detected: ".to_owned();
                s.append(message.as_str());
                s
            },
            SemanticError::InvalidOperation { message, location } => with_location(
                "Invalid operation: ",
                message,
                location,
            ),
            SemanticError::InaccessibleSymbol { name, visibility, location } => {
                let mut s = "Inaccessible symbol: ".to_owned();
                s.append(name.as_str());
                let rest = with_location(" is ", visibility, location);
                s.append(rest.as_str());
                assert(s@ =~= error_text(*self));
                s
            },
            SemanticError::InvalidAssignment { message, location } => with_location(
                "Invalid assignment: ",
                message,
                location,
            ),
            SemanticError::ParameterMismatch { message, location } => with_location(
                "Parameter mismatch: ",
                message,
                location,
            ),
            SemanticError::AnalysisError(message) => {
                let mut s = "Analysis error: ".to_owned();
                s.append(message.as_str());
                s
            },
        }
    }
}

/// Results of semantic analysis, with `SemanticError` as the error.
pub type Result<T> = std::result::Result<T, SemanticError>;

} // verus!
