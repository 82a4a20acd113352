use std::collections::HashMap;
use vb6semantic::{SemanticError, SourceLocation, Symbol, SymbolKind, SymbolTable, TypeInfo, Visibility};

fn sym(name: &str, kind: SymbolKind, line: usize, scope_id: usize) -> Symbol {
    Symbol {
        name: name.to_string(),
        kind,
        type_info: TypeInfo::integer(),
        visibility: Visibility::Private,
        location: SourceLocation { file: "Module1.bas".to_string(), line, column: 5 },
        scope_id,
        attributes: HashMap::new(),
    }
}

#[test]
fn symbol_addition() {
    let mut table = SymbolTable::new();
    let scope_id = table.create_scope();
    assert_eq!(scope_id, 0);
    assert!(table.add_symbol(scope_id, sym("x", SymbolKind::Variable, 1, 0)).is_ok());
    let found = table.lookup_in_scope(scope_id, "x").expect("x was added");
    assert_eq!(found.name, "x");
    assert_eq!(found.location.line, 1);
    assert!(table.symbol_exists("x"));
    assert!(!table.symbol_exists("y"));
}

#[test]
fn duplicate_detection() {
    let mut table = SymbolTable::new();
    let scope_id = table.create_scope();
    table.add_symbol(scope_id, sym("x", SymbolKind::Variable, 1, 0)).unwrap();
    match table.add_symbol(scope_id, sym("x", SymbolKind::Variable, 7, 0)) {
        Err(SemanticError::DuplicateSymbol { name, location, previous_location }) => {
            assert_eq!(name, "x");
            assert_eq!(location.line, 7);
            assert_eq!(previous_location.line, 1);
        }
        other => panic!("expected a duplicate, got {:?}", other),
    }
    assert_eq!(table.get_scope_symbols(scope_id).unwrap().len(), 1);
    assert_eq!(table.lookup_in_scope(scope_id, "x").unwrap().kind, SymbolKind::Variable);
}

#[test]
fn missing_scope_is_refused() {
    let mut table = SymbolTable::new();
    match table.add_symbol(3, sym("x", SymbolKind::Variable, 1, 3)) {
        Err(SemanticError::InvalidScope { message }) => assert_eq!(message, "Scope 3 does not exist"),
        other => panic!("expected invalid scope, got {:?}", other),
    }
    assert!(table.lookup_in_scope(3, "x").is_none());
    assert!(table.get_scope_symbols(3).is_none());
}

#[test]
fn scopes_are_numbered_in_order_and_separate() {
    let mut table = SymbolTable::default();
    assert_eq!(table.create_scope(), 0);
    assert_eq!(table.create_scope(), 1);
    assert_eq!(table.create_scope(), 2);
    table.add_symbol(0, sym("a", SymbolKind::Function, 1, 0)).unwrap();
    table.add_symbol(1, sym("a", SymbolKind::Variable, 2, 1)).unwrap();
    table.add_symbol(1, sym("b", SymbolKind::Function, 3, 1)).unwrap();
    assert_eq!(table.lookup_in_scope(0, "a").unwrap().kind, SymbolKind::Function);
    assert_eq!(table.lookup_in_scope(1, "a").unwrap().kind, SymbolKind::Variable);
    assert!(table.lookup_in_scope(2, "a").is_none());
    assert!(table.get_scope_symbols(2).unwrap().is_empty());
    let functions: Vec<String> = table
        .get_symbols_by_kind(SymbolKind::Function)
        .iter()
        .map(|s| format!("{}@{}", s.name, s.scope_id))
        .collect();
    assert_eq!(functions, vec!["a@0".to_string(), "b@1".to_string()]);
    assert!(table.get_symbols_by_kind(SymbolKind::Label).is_empty());
    assert!(table.symbol_exists("b"));
}

#[test]
fn symbol_clone_keeps_fields() {
    let mut s = sym("x", SymbolKind::Variable, 4, 2);
    s.attributes.insert("doc".to_string(), "counter".to_string());
    let c = s.clone();
    assert_eq!(c.name, "x");
    assert_eq!(c.location, s.location);
    assert_eq!(c.type_info, s.type_info);
    assert_eq!(c.attributes.get("doc").map(|v| v.as_str()), Some("counter"));
    assert_eq!(Visibility::default(), Visibility::Public);
}

#[test]
fn symbols_of_different_kinds_share_a_name() {
    let mut table = SymbolTable::new();
    let scope_id = table.create_scope();
    table.add_symbol(scope_id, sym("Name", SymbolKind::PropertyGet, 1, 0)).unwrap();
    assert!(table.add_symbol(scope_id, sym("Name", SymbolKind::PropertySet, 2, 0)).is_ok());
    assert!(table.add_symbol(scope_id, sym("Name", SymbolKind::PropertyGet, 3, 0)).is_err());
    assert_eq!(table.get_scope_symbols(scope_id).unwrap().len(), 2);
    assert_eq!(table.lookup_in_scope(scope_id, "Name").unwrap().kind, SymbolKind::PropertyGet);
}

#[test]
fn scopes_hold_exactly_the_accepted_additions() {
    let mut table = SymbolTable::new();
    let first = table.create_scope();
    let second = table.create_scope();
    assert!(table.add_symbol(first, sym("x", SymbolKind::Variable, 1, 0)).is_ok());
    assert!(table.add_symbol(first, sym("x", SymbolKind::Variable, 2, 0)).is_err());
    assert!(table.add_symbol(5, sym("z", SymbolKind::Variable, 3, 5)).is_err());
    assert!(table.add_symbol(second, sym("y", SymbolKind::Constant, 4, 1)).is_ok());
    assert!(table.add_symbol(first, sym("x", SymbolKind::Function, 5, 0)).is_ok());
    let lines: Vec<(usize, SymbolKind)> = table
        .get_scope_symbols(first)
        .unwrap()
        .iter()
        .map(|s| (s.location.line, s.kind))
        .collect();
    assert_eq!(lines, vec![(1, SymbolKind::Variable), (5, SymbolKind::Function)]);
    let second_names: Vec<&str> =
        table.get_scope_symbols(second).unwrap().iter().map(|s| s.name.as_str()).collect();
    assert_eq!(second_names, vec!["y"]);
    assert!(table.get_scope_symbols(2).is_none());
    assert!(!table.symbol_exists("z"));
}
