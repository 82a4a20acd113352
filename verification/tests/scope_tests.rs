use std::collections::HashMap;
use vb6semantic::{
    NameResolver, ScopeKind, ScopeManager, SemanticError, SourceLocation, Symbol, SymbolKind, TypeInfo,
    Visibility,
};

fn sym(name: &str, visibility: Visibility, scope_id: usize, line: usize) -> Symbol {
    Symbol {
        name: name.to_string(),
        kind: SymbolKind::Variable,
        type_info: TypeInfo::integer(),
        visibility,
        location: SourceLocation { file: "MyClass.cls".to_string(), line, column: 1 },
        scope_id,
        attributes: HashMap::new(),
    }
}

fn loc() -> SourceLocation {
    SourceLocation { file: "Module1.bas".to_string(), line: 2, column: 3 }
}

#[test]
fn new_manager_has_global_scope() {
    let manager = ScopeManager::new();
    assert_eq!(manager.global_scope_id(), 0);
    assert_eq!(manager.current_scope_id(), 0);
    let global = manager.get_scope(0).unwrap();
    assert_eq!(global.kind, ScopeKind::Global);
    assert_eq!(global.parent, None);
    assert_eq!(global.name, "global");
    assert!(manager.get_scope(1).is_none());
}

#[test]
fn push_and_pop_class_scope() {
    let mut manager = ScopeManager::new();
    let class_scope_id = manager.push_scope(ScopeKind::Class, "MyClass".to_string());
    assert_eq!(class_scope_id, 1);
    assert_eq!(manager.current_scope_id(), 1);
    manager.add_symbol(sym("myVar", Visibility::Private, class_scope_id, 1)).expect("added");
    manager.pop_scope().expect("popped");
    assert_eq!(manager.current_scope_id(), 0);
    assert_eq!(manager.get_scope(0).unwrap().children, vec![1]);
    assert_eq!(manager.get_scope(1).unwrap().parent, Some(0));
    assert!(manager.lookup("myVar").is_none());
    assert!(manager.lookup_in_scope(1, "myVar").is_some());
}

#[test]
fn cannot_pop_global_scope() {
    let mut manager = ScopeManager::new();
    match manager.pop_scope() {
        Err(SemanticError::InvalidScope { message }) => assert_eq!(message, "Cannot pop global scope"),
        other => panic!("expected an error, got {:?}", other),
    }
    assert_eq!(manager.current_scope_id(), 0);
}

#[test]
fn scope_walking_and_shadowing() {
    let mut manager = ScopeManager::default();
    manager.add_symbol(sym("GlobalVar", Visibility::Public, 0, 1)).unwrap();
    manager.add_symbol(sym("x", Visibility::Public, 0, 2)).unwrap();
    let proc_id = manager.push_scope(ScopeKind::Procedure, "Test".to_string());
    manager.add_symbol(sym("x", Visibility::Private, proc_id, 3)).unwrap();
    let block_id = manager.push_scope(ScopeKind::Block, "For".to_string());
    assert_eq!(block_id, 2);
    assert_eq!(manager.lookup("x").unwrap().location.line, 3);
    assert_eq!(manager.lookup("GlobalVar").unwrap().location.line, 1);
    assert!(manager.lookup("nothing").is_none());
    manager.pop_scope().unwrap();
    manager.pop_scope().unwrap();
    assert_eq!(manager.lookup("x").unwrap().location.line, 2);
}

#[test]
fn duplicate_in_current_scope() {
    let mut manager = ScopeManager::new();
    manager.add_symbol(sym("x", Visibility::Public, 0, 1)).unwrap();
    match manager.add_symbol(sym("x", Visibility::Public, 0, 9)) {
        Err(SemanticError::DuplicateSymbol { name, location, previous_location }) => {
            assert_eq!(name, "x");
            assert_eq!(location.line, 9);
            assert_eq!(previous_location.line, 1);
        }
        other => panic!("expected duplicate, got {:?}", other),
    }
    manager.push_scope(ScopeKind::Procedure, "P".to_string());
    assert!(manager.add_symbol(sym("x", Visibility::Public, 1, 4)).is_ok());
}

#[test]
fn access_rules() {
    let mut manager = ScopeManager::new();
    let class_a = manager.push_scope(ScopeKind::Class, "A".to_string());
    let private_a = sym("secret", Visibility::Private, class_a, 1);
    let proc_a = manager.push_scope(ScopeKind::Procedure, "Method".to_string());
    assert!(manager.can_access(&private_a));
    let _ = proc_a;
    manager.pop_scope().unwrap();
    manager.pop_scope().unwrap();
    let _class_b = manager.push_scope(ScopeKind::Class, "B".to_string());
    assert!(!manager.can_access(&private_a));
    assert!(manager.can_access(&sym("p", Visibility::Public, class_a, 1)));
    assert!(manager.can_access(&sym("f", Visibility::Friend, class_a, 1)));
    assert!(manager.can_access(&sym("g", Visibility::Global, class_a, 1)));
    assert!(!manager.can_access(&sym("far", Visibility::Private, 99, 1)));
}

#[test]
fn scopes_by_kind_and_mutation() {
    let mut manager = ScopeManager::new();
    manager.push_scope(ScopeKind::Class, "A".to_string());
    manager.push_scope(ScopeKind::Procedure, "P".to_string());
    manager.pop_scope().unwrap();
    manager.pop_scope().unwrap();
    manager.push_scope(ScopeKind::Class, "B".to_string());
    let names: Vec<String> = manager.get_scopes_by_kind(ScopeKind::Class).iter().map(|s| s.name.clone()).collect();
    assert_eq!(names, vec!["A".to_string(), "B".to_string()]);
    assert_eq!(manager.get_scopes_by_kind(ScopeKind::Global).len(), 1);
    manager.get_scope_mut(2).unwrap().name = "Renamed".to_string();
    assert_eq!(manager.get_scope(2).unwrap().name, "Renamed");
    assert!(manager.get_scope_mut(10).is_none());
    let copy = manager.clone();
    assert_eq!(copy.current_scope_id(), manager.current_scope_id());
    assert_eq!(copy.get_scope(2).unwrap().name, "Renamed");
}

#[test]
fn resolver_resolves_names() {
    let mut manager = ScopeManager::new();
    manager.add_symbol(sym("Module1", Visibility::Public, 0, 1)).unwrap();
    let resolver = NameResolver::new(manager);
    assert_eq!(resolver.resolve_name("Module1", &loc()).unwrap().name, "Module1");
    match resolver.resolve_name("Missing", &loc()) {
        Err(SemanticError::UndefinedSymbol { name, location }) => {
            assert_eq!(name, "Missing");
            assert_eq!(location, loc());
        }
        other => panic!("expected undefined, got {:?}", other.map(|s| s.name.clone())),
    }
    assert!(resolver.is_accessible(resolver.scope_manager().lookup("Module1").unwrap()));
}

#[test]
fn resolver_qualified_names() {
    let mut manager = ScopeManager::new();
    let mut module = sym("Module1", Visibility::Public, 0, 1);
    module.kind = SymbolKind::Module;
    manager.add_symbol(module).unwrap();
    manager.add_symbol(sym("Outer", Visibility::Public, 0, 2)).unwrap();
    let module_scope = manager.push_scope(ScopeKind::Global, "Module1".to_string());
    manager.add_symbol(sym("Function", Visibility::Public, module_scope, 3)).unwrap();
    manager.pop_scope().unwrap();
    let resolver = NameResolver::new(manager);
    match resolver.resolve_qualified_name(&[], &loc()) {
        Err(SemanticError::AnalysisError(m)) => assert_eq!(m, "Empty qualified name"),
        other => panic!("unexpected {:?}", other.map(|s| s.name.clone())),
    }
    let one = vec!["Module1".to_string()];
    assert_eq!(resolver.resolve_qualified_name(&one, &loc()).unwrap().name, "Module1");
    let two = vec!["Module1".to_string(), "Function".to_string()];
    let member = resolver.resolve_qualified_name(&two, &loc()).unwrap();
    assert_eq!(member.name, "Function");
    assert_eq!(member.location.line, 3);
    // members are looked up in the container's scope only, not in enclosing scopes
    let outer = vec!["Module1".to_string(), "Outer".to_string()];
    match resolver.resolve_qualified_name(&outer, &loc()) {
        Err(SemanticError::UndefinedSymbol { name, location }) => {
            assert_eq!(name, "Outer");
            assert_eq!(location, loc());
        }
        other => panic!("unexpected {:?}", other.map(|s| s.name.clone())),
    }
    let missing = vec!["Nope".to_string(), "F".to_string()];
    match resolver.resolve_qualified_name(&missing, &loc()) {
        Err(SemanticError::UndefinedSymbol { name, .. }) => assert_eq!(name, "Nope"),
        other => panic!("unexpected {:?}", other.map(|s| s.name.clone())),
    }
    let too_deep = vec!["Module1".to_string(), "Function".to_string(), "X".to_string()];
    match resolver.resolve_qualified_name(&too_deep, &loc()) {
        Err(SemanticError::UndefinedSymbol { name, .. }) => assert_eq!(name, "X"),
        other => panic!("unexpected {:?}", other.map(|s| s.name.clone())),
    }
}

#[test]
fn property_accessors_share_a_name() {
    let mut manager = ScopeManager::new();
    let class_id = manager.push_scope(ScopeKind::Class, "Person".to_string());
    let mut get = sym("Name", Visibility::Public, class_id, 1);
    get.kind = SymbolKind::PropertyGet;
    let mut let_ = sym("Name", Visibility::Public, class_id, 5);
    let_.kind = SymbolKind::PropertyLet;
    let mut let_again = sym("Name", Visibility::Public, class_id, 9);
    let_again.kind = SymbolKind::PropertyLet;
    assert!(manager.add_symbol(get).is_ok());
    assert!(manager.add_symbol(let_).is_ok());
    match manager.add_symbol(let_again) {
        Err(SemanticError::DuplicateSymbol { previous_location, location, .. }) => {
            assert_eq!(previous_location.line, 5);
            assert_eq!(location.line, 9);
        }
        other => panic!("expected duplicate, got {:?}", other),
    }
    assert_eq!(manager.get_scope(class_id).unwrap().symbols.len(), 2);
    assert_eq!(manager.lookup("Name").unwrap().kind, SymbolKind::PropertyGet);
}

#[test]
fn scopes_form_a_tree() {
    let mut manager = ScopeManager::new();
    let class_id = manager.push_scope(ScopeKind::Class, "C".to_string());
    let first = manager.push_scope(ScopeKind::Procedure, "A".to_string());
    manager.pop_scope().unwrap();
    let second = manager.push_scope(ScopeKind::Procedure, "B".to_string());
    let block = manager.push_scope(ScopeKind::Block, "With".to_string());
    manager.pop_scope().unwrap();
    manager.pop_scope().unwrap();
    manager.pop_scope().unwrap();
    assert_eq!((class_id, first, second, block), (1, 2, 3, 4));
    let root = manager.get_scope(0).unwrap();
    assert_eq!(root.kind, ScopeKind::Global);
    assert_eq!(root.parent, None);
    assert_eq!(root.children, vec![1]);
    assert_eq!(manager.get_scope(1).unwrap().children, vec![2, 3]);
    assert_eq!(manager.get_scope(3).unwrap().children, vec![4]);
    for id in 1..5 {
        let scope = manager.get_scope(id).unwrap();
        assert_eq!(scope.id, id);
        let parent = scope.parent.expect("only the global scope has no parent");
        assert!(parent < id);
        let siblings = &manager.get_scope(parent).unwrap().children;
        assert_eq!(siblings.iter().filter(|c| **c == id).count(), 1);
    }
    assert_eq!(manager.current_scope_id(), 0);
}
