use std::collections::HashMap;
use vb6parse::files::{ClassFile, FormFile, ModuleFile, ProjectFile};
use vb6parse::SourceFile;
use vb6semantic::{
    ScopeKind, SemanticAnalyzer, SemanticError, SourceLocation, Symbol, SymbolKind, TypeInfo, Visibility,
};

fn sym(name: &str, line: usize) -> Symbol {
    Symbol {
        name: name.to_string(),
        kind: SymbolKind::Variable,
        type_info: TypeInfo::integer(),
        visibility: Visibility::Public,
        location: SourceLocation { file: "Module1.bas".to_string(), line, column: 1 },
        scope_id: 0,
        attributes: HashMap::new(),
    }
}

#[test]
fn new_analyzer_is_empty() {
    let analyzer = SemanticAnalyzer::new();
    assert!(analyzer.errors().is_empty());
    assert!(analyzer.warnings().is_empty());
    assert_eq!(analyzer.scope_manager().current_scope_id(), 0);
    assert!(analyzer.lookup_symbol("x").is_none());
}

#[test]
fn add_symbol_records_duplicates() {
    let mut analyzer = SemanticAnalyzer::default();
    assert!(analyzer.add_symbol(sym("x", 1)).is_ok());
    assert!(analyzer.errors().is_empty());
    let err = analyzer.add_symbol(sym("x", 2)).unwrap_err();
    assert_eq!(analyzer.errors().len(), 1);
    match (&err, &analyzer.errors()[0]) {
        (
            SemanticError::DuplicateSymbol { name, location, previous_location },
            SemanticError::DuplicateSymbol { name: n2, .. },
        ) => {
            assert_eq!(name, "x");
            assert_eq!(n2, "x");
            assert_eq!(location.line, 2);
            assert_eq!(previous_location.line, 1);
        }
        other => panic!("unexpected {:?}", other),
    }
    assert_eq!(analyzer.lookup_symbol("x").unwrap().location.line, 1);
}

#[test]
fn warnings_accumulate() {
    let mut analyzer = SemanticAnalyzer::new();
    analyzer.add_warning("first".to_string());
    analyzer.add_warning("second".to_string());
    assert_eq!(analyzer.warnings(), &["first".to_string(), "second".to_string()]);
}

#[test]
fn analyze_named_files() {
    let mut analyzer = SemanticAnalyzer::new();
    analyzer.add_symbol(sym("g", 1)).unwrap();
    analyzer.analyze_module_named("Module1".to_string()).unwrap();
    assert_eq!(analyzer.scope_manager().current_scope_id(), 0);
    let module_scope = analyzer.scope_manager().get_scope(1).unwrap();
    assert_eq!(module_scope.name, "Module1");
    assert_eq!(module_scope.kind, ScopeKind::Global);
    assert_eq!(module_scope.parent, Some(0));
    assert!(analyzer.lookup_symbol("g").is_some());
    let result = analyzer.analyze_project_named("Project1".to_string()).unwrap();
    assert!(result.is_successful());
    assert_eq!(result.error_count(), 0);
    assert_eq!(result.warning_count(), 0);
    assert_eq!(result.scope_manager.current_scope_id(), 2);
    assert_eq!(result.scope_manager.get_scope(2).unwrap().name, "Project1");
    assert_eq!(analyzer.scope_manager().current_scope_id(), 2);
    let copy = result.clone();
    assert_eq!(copy.scope_manager.get_scope(2).unwrap().name, "Project1");
}

#[test]
fn analysis_result_counts_errors() {
    let mut analyzer = SemanticAnalyzer::new();
    analyzer.add_symbol(sym("x", 1)).unwrap();
    let _ = analyzer.add_symbol(sym("x", 2));
    analyzer.add_warning("w".to_string());
    let result = analyzer.analyze_project_named("P".to_string()).unwrap();
    assert!(!result.is_successful());
    assert_eq!(result.error_count(), 1);
    assert_eq!(result.warning_count(), 1);
}

#[test]
fn analyze_parsed_module_and_project() {
    let module_src = b"Attribute VB_Name = \"Module1\"\r\nOption Explicit\r\n\r\nPrivate Sub Main()\r\nEnd Sub\r\n";
    let module_source = SourceFile::decode_with_replacement("Module1.bas", module_src).expect("decoded");
    let (module_opt, _failures) = ModuleFile::parse(&module_source).unpack();
    let module = module_opt.expect("module parsed");
    let mut analyzer = SemanticAnalyzer::new();
    analyzer.analyze_module(&module).unwrap();
    assert_eq!(analyzer.scope_manager().get_scope(1).unwrap().name, "Module1");
    assert_eq!(analyzer.scope_manager().current_scope_id(), 0);

    let project_src = "Type=Exe\r\nModule=Module1; Module1.bas\r\nName=\"Project1\"\r\n";
    let project_source = SourceFile::decode_with_replacement("project1.vbp", project_src.as_bytes()).expect("decoded");
    let (project_opt, _failures) = ProjectFile::parse(&project_source).unpack();
    let project = project_opt.expect("project parsed");
    let result = analyzer.analyze_project(&project).unwrap();
    assert_eq!(result.scope_manager.get_scope(2).unwrap().name, "Project1");
    assert_eq!(result.scope_manager.current_scope_id(), 2);
}

#[test]
fn analyze_parsed_class_and_form() {
    let class_src = "VERSION 1.0 CLASS\r\nBEGIN\r\n  MultiUse = -1  'True\r\nEND\r\nAttribute VB_Name = \"Something\"\r\nOption Explicit\r\n";
    let class_source = SourceFile::decode_with_replacement("test.cls", class_src.as_bytes()).expect("decoded");
    let (class_opt, _failures) = ClassFile::parse(&class_source).unpack();
    let class = class_opt.expect("class parsed");
    let mut analyzer = SemanticAnalyzer::new();
    analyzer.analyze_class(&class).unwrap();
    let scope = analyzer.scope_manager().get_scope(1).unwrap();
    assert_eq!(scope.name, "class");
    assert_eq!(scope.kind, ScopeKind::Class);

    let form_src = "VERSION 5.00\r\nBegin VB.Form frmExample\r\n   Caption         =   \"example\"\r\nEnd\r\nAttribute VB_Name = \"frmExample\"\r\n";
    let form_source = SourceFile::decode_with_replacement("f.frm", form_src.as_bytes()).expect("decoded");
    let (form_opt, _failures) = FormFile::parse(&form_source).unpack();
    let form = form_opt.expect("form parsed");
    analyzer.analyze_form(&form).unwrap();
    let scope = analyzer.scope_manager().get_scope(2).unwrap();
    assert_eq!(scope.name, "form");
    assert_eq!(scope.kind, ScopeKind::Class);
    assert_eq!(analyzer.scope_manager().current_scope_id(), 0);
    assert_eq!(analyzer.scope_manager().get_scope(0).unwrap().children, vec![1, 2]);
}
