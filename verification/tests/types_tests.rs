use vb6semantic::{ArrayBound, SemanticError, SourceLocation, TypeChecker, TypeInfo, TypeKind};

fn loc() -> SourceLocation {
    SourceLocation { file: "Module1.bas".to_string(), line: 10, column: 5 }
}

fn class_type(name: &str) -> TypeInfo {
    TypeInfo::new(TypeKind::Class(name.to_string()))
}

#[test]
fn integer_assigns_to_long_but_string_not_to_integer() {
    let int_type = TypeInfo::integer();
    let long_type = TypeInfo::long();
    let string_type = TypeInfo::string();
    assert!(int_type.can_assign_to(&long_type));
    assert!(!string_type.can_assign_to(&int_type));
}

#[test]
fn assignment_table() {
    let integer = TypeInfo::integer();
    let long = TypeInfo::long();
    let string = TypeInfo::string();
    let variant = TypeInfo::variant();
    let object = TypeInfo::object();
    let double = TypeInfo::new(TypeKind::Double);
    let single = TypeInfo::new(TypeKind::Single);
    let person = class_type("Person");
    assert!(integer.can_assign_to(&long));
    assert!(!long.can_assign_to(&integer));
    assert!(string.can_assign_to(&variant));
    assert!(variant.can_assign_to(&string));
    assert!(!variant.can_assign_to(&integer));
    assert!(integer.can_assign_to(&variant));
    assert!(!integer.can_assign_to(&string));
    assert!(person.can_assign_to(&object));
    assert!(!object.can_assign_to(&person));
    assert!(integer.can_assign_to(&double));
    assert!(long.can_assign_to(&double));
    assert!(single.can_assign_to(&double));
    assert!(!double.can_assign_to(&single));
    assert!(person.can_assign_to(&class_type("Person")));
    assert!(!person.can_assign_to(&class_type("Other")));
}

#[test]
fn compatibility_is_symmetric_on_examples() {
    let kinds = vec![
        TypeInfo::integer(),
        TypeInfo::long(),
        TypeInfo::string(),
        TypeInfo::variant(),
        TypeInfo::object(),
        TypeInfo::new(TypeKind::Single),
        TypeInfo::new(TypeKind::Double),
        TypeInfo::new(TypeKind::Byte),
        class_type("Person"),
    ];
    for a in &kinds {
        assert!(a.is_compatible_with(a));
        for b in &kinds {
            assert_eq!(a.is_compatible_with(b), b.is_compatible_with(a));
        }
    }
    assert!(TypeInfo::integer().is_compatible_with(&TypeInfo::long()));
    assert!(TypeInfo::object().is_compatible_with(&class_type("Person")));
    assert!(!TypeInfo::integer().is_compatible_with(&TypeInfo::new(TypeKind::Double)));
    assert!(!TypeInfo::string().is_compatible_with(&TypeInfo::integer()));
    assert!(TypeInfo::variant().is_compatible_with(&TypeInfo::string()));
}

#[test]
fn function_kinds_compare_their_return_types() {
    let f_int = TypeInfo::new(TypeKind::Function { return_type: Box::new(TypeInfo::integer()) });
    let f_int2 = TypeInfo::new(TypeKind::Function { return_type: Box::new(TypeInfo::integer()) });
    let f_long = TypeInfo::new(TypeKind::Function { return_type: Box::new(TypeInfo::long()) });
    assert!(f_int.is_compatible_with(&f_int2));
    assert!(!f_int.is_compatible_with(&f_long));
    let mut arr = TypeInfo::integer();
    arr.is_array = true;
    arr.array_dimensions = Some(vec![ArrayBound { lower: Some(0), upper: Some(10) }]);
    let f_arr = TypeInfo::new(TypeKind::Function { return_type: Box::new(arr.clone()) });
    assert!(!f_int.is_compatible_with(&f_arr));
    let f_arr2 = TypeInfo::new(TypeKind::Function { return_type: Box::new(arr) });
    assert!(f_arr.can_assign_to(&f_arr2));
}

#[test]
fn display_strings() {
    assert_eq!(TypeInfo::integer().to_display_string(), "Integer");
    assert_eq!(TypeInfo::unknown().to_display_string(), "Unknown");
    let mut arr = TypeInfo::string();
    arr.is_array = true;
    assert_eq!(arr.to_display_string(), "String()");
    let mut class_arr = class_type("Person");
    class_arr.is_array = true;
    assert_eq!(class_arr.to_display_string(), "Person");
    let f = TypeInfo::new(TypeKind::Function { return_type: Box::new(arr) });
    assert_eq!(f.to_display_string(), "Function -> String()");
    assert_eq!(TypeInfo::new(TypeKind::Enum("Colors".to_string())).to_display_string(), "Colors");
}

#[test]
fn constructors_give_plain_types() {
    let t = TypeInfo::boolean();
    assert_eq!(t.kind, TypeKind::Boolean);
    assert!(!t.is_reference);
    assert!(!t.is_array);
    assert_eq!(t.array_dimensions, None);
    assert_eq!(t.class_name, None);
    assert_eq!(TypeInfo::object().kind, TypeKind::Object);
    assert_eq!(TypeInfo::variant().kind, TypeKind::Variant);
}

#[test]
fn check_assignment_ok_and_mismatch() {
    let checker = TypeChecker::new();
    assert!(checker.check_assignment(&TypeInfo::long(), &TypeInfo::integer(), &loc()).is_ok());
    match checker.check_assignment(&TypeInfo::integer(), &TypeInfo::string(), &loc()) {
        Err(SemanticError::TypeMismatch { expected, found, location }) => {
            assert_eq!(expected, "Integer");
            assert_eq!(found, "String");
            assert_eq!(location, loc());
        }
        other => panic!("unexpected result {:?}", other),
    }
}

#[test]
fn check_operation_results() {
    let checker = TypeChecker::new();
    let op = |a: &TypeInfo, b: &TypeInfo| checker.check_operation(a, b, "+", &loc()).unwrap().kind;
    let byte = TypeInfo::new(TypeKind::Byte);
    let double = TypeInfo::new(TypeKind::Double);
    let currency = TypeInfo::new(TypeKind::Currency);
    assert_eq!(op(&byte, &TypeInfo::integer()), TypeKind::Integer);
    assert_eq!(op(&TypeInfo::integer(), &TypeInfo::long()), TypeKind::Long);
    assert_eq!(op(&TypeInfo::long(), &double), TypeKind::Double);
    assert_eq!(op(&byte, &byte), TypeKind::Byte);
    assert_eq!(op(&currency, &double), TypeKind::Double);
    assert_eq!(op(&currency, &TypeInfo::long()), TypeKind::Currency);
    assert_eq!(op(&TypeInfo::string(), &TypeInfo::integer()), TypeKind::String);
    assert_eq!(op(&TypeInfo::variant(), &TypeInfo::integer()), TypeKind::Variant);
    assert_eq!(op(&TypeInfo::boolean(), &TypeInfo::object()), TypeKind::Variant);
    assert_eq!(op(&TypeInfo::integer(), &byte), op(&byte, &TypeInfo::integer()));
}

#[test]
fn default_checker_behaves_like_new() {
    let checker = TypeChecker::default();
    assert!(checker.check_assignment(&TypeInfo::variant(), &TypeInfo::string(), &loc()).is_ok());
}
