use vb6semantic::{SemanticError, SourceLocation};

fn loc(file: &str, line: usize, column: usize) -> SourceLocation {
    SourceLocation { file: file.to_string(), line, column }
}

#[test]
fn location_display() {
    assert_eq!(loc("Module1.bas", 10, 5).to_display_string(), "Module1.bas:10:5");
    assert_eq!(loc("a", 0, 1234567).to_display_string(), "a:0:1234567");
}

#[test]
fn error_messages() {
    let e = SemanticError::UndefinedSymbol { name: "myVariable".to_string(), location: loc("Module1.bas", 10, 5) };
    assert_eq!(e.to_display_string(), "Undefined symbol: myVariable at Module1.bas:10:5");
    let e = SemanticError::DuplicateSymbol {
        name: "x".to_string(),
        location: loc("m.bas", 3, 1),
        previous_location: loc("m.bas", 1, 1),
    };
    assert_eq!(e.to_display_string(), "Symbol already defined: x at m.bas:3:1, previously defined at m.bas:1:1");
    let e = SemanticError::TypeMismatch {
        expected: "Integer".to_string(),
        found: "String".to_string(),
        location: loc("m.bas", 2, 7),
    };
    assert_eq!(e.to_display_string(), "Type mismatch: expected Integer, found String at m.bas:2:7");
    let e = SemanticError::InvalidScope { message: "Cannot pop global scope".to_string() };
    assert_eq!(e.to_display_string(), "Invalid scope: Cannot pop global scope");
    let e = SemanticError::InaccessibleSymbol {
        name: "p".to_string(),
        visibility: "Private".to_string(),
        location: loc("c.cls", 4, 2),
    };
    assert_eq!(e.to_display_string(), "Inaccessible symbol: p is Private at c.cls:4:2");
    let e = SemanticError::AnalysisError("boom".to_string());
    assert_eq!(e.to_display_string(), "Analysis error: boom");
    let e = SemanticError::CircularDependency { message: "A -> B -> A".to_string() };
    assert_eq!(e.to_display_string(), "Circular dependency detected: A -> B -> A");
    let e = SemanticError::ParameterMismatch { message: "m".to_string(), location: loc("f", 1, 2) };
    assert_eq!(e.to_display_string(), "Parameter mismatch: m at f:1:2");
    let e = SemanticError::InvalidType { message: "m".to_string(), location: loc("f", 1, 2) };
    assert_eq!(e.to_display_string(), "Invalid type: m at f:1:2");
    let e = SemanticError::InvalidOperation { message: "m".to_string(), location: loc("f", 1, 2) };
    assert_eq!(e.to_display_string(), "Invalid operation: m at f:1:2");
    let e = SemanticError::InvalidAssignment { message: "m".to_string(), location: loc("f", 1, 2) };
    assert_eq!(e.to_display_string(), "Invalid assignment: m at f:1:2");
}

#[test]
fn clone_keeps_everything() {
    let e = SemanticError::DuplicateSymbol {
        name: "x".to_string(),
        location: loc("m.bas", 3, 1),
        previous_location: loc("m.bas", 1, 1),
    };
    assert_eq!(e.clone().to_display_string(), e.to_display_string());
    assert_eq!(loc("q", 1, 2).clone(), loc("q", 1, 2));
}
