//! Type information for VB6 symbols and the rules by which types may be
//! assigned to one another and combined in operations.

use vstd::prelude::*;
use vstd::string::*;

use crate::error::{Result, SemanticError, SourceLocation};

verus! {

/// Type information for VB6 symbols
#[derive(Debug, PartialEq)]
pub struct TypeInfo {
    /// The kind of type
    pub kind: TypeKind,
    /// Whether this is a reference type (ByRef)
    pub is_reference: bool,
    /// Whether this is an array
    pub is_array: bool,
    /// Array dimensions (if is_array is true)
    pub array_dimensions: Option<Vec<ArrayBound>>,
    /// For Object and Class types, the class name
    pub class_name: Option<String>,
}

/// The kind of a VB6 type
#[derive(Debug, PartialEq)]
pub enum TypeKind {
    /// Integer type
    Integer,
    /// Long type
    Long,
    /// Single type
    Single,
    /// Double type
    Double,
    /// Currency type
    Currency,
    /// String type
    String,
    /// Boolean type
    Boolean,
    /// Byte type
    Byte,
    /// Date type
    Date,
    /// Variant type that can hold any value
    Variant,
    /// Object type that can hold any object reference
    Object,
    /// Class type with a specific class name
    Class(String),
    /// User-defined type with a specific name
    UserType(String),
    /// Enum type with a specific name
    Enum(String),
    /// The absence of a value
    Nothing,
    /// An uninitialized variable
    Empty,
    /// A null value
    Null,
    /// A Sub procedure (no return value)
    Sub,
    /// A Function with a return type
    Function {
        /// The return type of the function
        return_type: Box<TypeInfo>,
    },
    /// An unknown or unresolved type
    Unknown,
}

/// The bounds of one array dimension
#[derive(Debug, Clone, Copy, PartialEq, Eq, Structural)]
pub struct ArrayBound {
    /// Lower bound of the array dimension
    pub lower: Option<i32>,
    /// Upper bound of the array dimension
    pub upper: Option<i32>,
}

/// The mathematical model of a `TypeKind`: names become character sequences.
pub enum TypeKindModel {
    Integer,
    Long,
    Single,
    Double,
    Currency,
    String,
    Boolean,
    Byte,
    Date,
    Variant,
    Object,
    Class(Seq<char>),
    UserType(Seq<char>),
    Enum(Seq<char>),
    Nothing,
    Empty,
    Null,
    Sub,
    Function { return_type: Box<TypeInfoModel> },
    Unknown,
}

/// The mathematical model of a `TypeInfo`.
pub struct TypeInfoModel {
    pub kind: TypeKindModel,
    pub is_reference: bool,
    pub is_array: bool,
    pub array_dimensions: Option<Seq<ArrayBound>>,
    pub class_name: Option<Seq<char>>,
}

/// The model of a type kind.
pub open spec fn kind_model(k: TypeKind) -> TypeKindModel
    decreases k,
{
    match k {
        TypeKind::Integer => TypeKindModel::Integer,
        TypeKind::Long => TypeKindModel::Long,
        TypeKind::Single => TypeKindModel::Single,
        TypeKind::Double => TypeKindModel::Double,
        TypeKind::Currency => TypeKindModel::Currency,
        TypeKind::String => TypeKindModel::String,
        TypeKind::Boolean => TypeKindModel::Boolean,
        TypeKind::Byte => TypeKindModel::Byte,
        TypeKind::Date => TypeKindModel::Date,
        TypeKind::Variant => TypeKindModel::Variant,
        TypeKind::Object => TypeKindModel::Object,
        TypeKind::Class(n) => TypeKindModel::Class(n@),
        TypeKind::UserType(n) => TypeKindModel::UserType(n@),
        TypeKind::Enum(n) => TypeKindModel::Enum(n@),
        TypeKind::Nothing => TypeKindModel::Nothing,
        TypeKind::Empty => TypeKindModel::Empty,
        TypeKind::Null => TypeKindModel::Null,
        TypeKind::Sub => TypeKindModel::Sub,
        TypeKind::Function { return_type } => TypeKindModel::Function {
            return_type: Box::new(info_model(*return_type)),
        },
        TypeKind::Unknown => TypeKindModel::Unknown,
    }
}

/// The model of a type.
pub open spec fn info_model(t: TypeInfo) -> TypeInfoModel
    decreases t,
{
    TypeInfoModel {
        kind: kind_model(t.kind),
        is_reference: t.is_reference,
        is_array: t.is_array,
        array_dimensions: match t.array_dimensions {
            Some(v) => Some(v@),
            None => None,
        },
        class_name: match t.class_name {
            Some(s) => Some(s@),
            None => None,
        },
    }
}

impl View for TypeKind {
    type V = TypeKindModel;

    open spec fn view(&self) -> TypeKindModel {
        kind_model(*self)
    }
}

impl View for TypeInfo {
    type V = TypeInfoModel;

    open spec fn view(&self) -> TypeInfoModel {
        info_model(*self)
    }
}

fn clone_bounds(v: &Vec<ArrayBound>) -> (r: Vec<ArrayBound>)
    ensures
        r@ == v@,
{
    let r = v.clone();
    assert(r@ =~= v@);
    r
}

fn clone_kind(k: &TypeKind) -> (r: TypeKind)
    ensures
        r@ == k@,
    decreases k,
{
    match k {
        TypeKind::Integer => TypeKind::Integer,
        TypeKind::Long => TypeKind::Long,
        TypeKind::Single => TypeKind::Single,
        TypeKind::Double => TypeKind::Double,
        TypeKind::Currency => TypeKind::Currency,
        TypeKind::String => TypeKind::String,
        TypeKind::Boolean => TypeKind::Boolean,
        TypeKind::Byte => TypeKind::Byte,
        TypeKind::Date => TypeKind::Date,
        TypeKind::Variant => TypeKind::Variant,
        TypeKind::Object => TypeKind::Object,
        TypeKind::Class(n) => TypeKind::Class(n.clone()),
        TypeKind::UserType(n) => TypeKind::UserType(n.clone()),
        TypeKind::Enum(n) => TypeKind::Enum(n.clone()),
        TypeKind::Nothing => TypeKind::Nothing,
        TypeKind::Empty => TypeKind::Empty,
        TypeKind::Null => TypeKind::Null,
        TypeKind::Sub => TypeKind::Sub,
        TypeKind::Function { return_type } => {
            let inner = clone_info(&**return_type);
            TypeKind::Function { return_type: Box::new(inner) }
        },
        TypeKind::Unknown => TypeKind::Unknown,
    }
}

fn clone_info(t: &TypeInfo) -> (r: TypeInfo)
    ensures
        r@ == t@,
    decreases t,
{
    let kind = clone_kind(&t.kind);
    let array_dimensions = match &t.array_dimensions {
        Some(v) => Some(clone_bounds(v)),
        None => None,
    };
    let class_name = match &t.class_name {
        Some(s) => Some(s.clone()),
        None => None,
    };
    TypeInfo {
        kind,
        is_reference: t.is_reference,
        is_array: t.is_array,
        array_dimensions,
        class_name,
    }
}

impl Clone for TypeKind {
    fn clone(&self) -> (r: Self)
        ensures
            r@ == self@,
    {
        clone_kind(self)
    }
}

impl Clone for TypeInfo {
    fn clone(&self) -> (r: Self)
        ensures
            r@ == self@,
    {
        clone_info(self)
    }
}

fn bounds_equal(a: &Vec<ArrayBound>, b: &Vec<ArrayBound>) -> (r: bool)
    ensures
        r == (a@ == b@),
{
    if a.len() != b.len() {
        return false;
    }
    let mut i: usize = 0;
    while i < a.len()
        invariant
            i <= a.len(),
            a.len() == b.len(),
            forall|j: int| 0 <= j < i ==> a@[j] == b@[j],
        decreases a.len() - i,
    {
        if a[i] != b[i] {
            return false;
        }
        i = i + 1;
    }
    assert(a@ =~= b@);
    true
}

fn kinds_equal(a: &TypeKind, b: &TypeKind) -> (r: bool)
    ensures
        r == (a@ == b@),
    decreases a,
{
    match (a, b) {
        (TypeKind::Integer, TypeKind::Integer) => true,
        (TypeKind::Long, TypeKind::Long) => true,
        (TypeKind::Single, TypeKind::Single) => true,
        (TypeKind::Double, TypeKind::Double) => true,
        (TypeKind::Currency, TypeKind::Currency) => true,
        (TypeKind::String, TypeKind::String) => true,
        (TypeKind::Boolean, TypeKind::Boolean) => true,
        (TypeKind::Byte, TypeKind::Byte) => true,
        (TypeKind::Date, TypeKind::Date) => true,
        (TypeKind::Variant, TypeKind::Variant) => true,
        (TypeKind::Object, TypeKind::Object) => true,
        (TypeKind::Class(x), TypeKind::Class(y)) => x.eq(y),
        (TypeKind::UserType(x), TypeKind::UserType(y)) => x.eq(y),
        (TypeKind::Enum(x), TypeKind::Enum(y)) => x.eq(y),
        (TypeKind::Nothing, TypeKind::Nothing) => true,
        (TypeKind::Empty, TypeKind::Empty) => true,
        (TypeKind::Null, TypeKind::Null) => true,
        (TypeKind::Sub, TypeKind::Sub) => true,
        (TypeKind::Function { return_type: x }, TypeKind::Function { return_type: y }) => {
            infos_equal(&**x, &**y)
        },
        (TypeKind::Unknown, TypeKind::Unknown) => true,
        _ => false,
    }
}

fn infos_equal(a: &TypeInfo, b: &TypeInfo) -> (r: bool)
    ensures
        r == (a@ == b@),
    decreases a,
{
    if !kinds_equal(&a.kind, &b.kind) {
        return false;
    }
    if a.is_reference != b.is_reference || a.is_array != b.is_array {
        return false;
    }
    let dims_equal = match (&a.array_dimensions, &b.array_dimensions) {
        (Some(x), Some(y)) => bounds_equal(x, y),
        (None, None) => true,
        _ => false,
    };
    if !dims_equal {
        return false;
    }
    match (&a.class_name, &b.class_name) {
        (Some(x), Some(y)) => x.eq(y),
        (None, None) => true,
        _ => false,
    }
}

/// The printed name of a kind that has a fixed name.
pub open spec fn fixed_kind_name(k: TypeKindModel) -> Seq<char> {
    match k {
        TypeKindModel::Integer => "Integer"@,
        TypeKindModel::Long => "Long"@,
        TypeKindModel::Single => "Single"@,
        TypeKindModel::Double => "Double"@,
        TypeKindModel::Currency => "Currency"@,
        TypeKindModel::String => "String"@,
        TypeKindModel::Boolean => "Boolean"@,
        TypeKindModel::Byte => "Byte"@,
        TypeKindModel::Date => "Date"@,
        TypeKindModel::Variant => "Variant"@,
        TypeKindModel::Object => "Object"@,
        TypeKindModel::Nothing => "Nothing"@,
        TypeKindModel::Empty => "Empty"@,
        TypeKindModel::Null => "Null"@,
        TypeKindModel::Sub => "Sub"@,
        TypeKindModel::Unknown => "Unknown"@,
        _ => Seq::empty(),
    }
}

/// How a type is printed: a class, user type or enum by its name, a function
/// as `Function -> ` and its return type, any other kind by its fixed name,
/// followed by `()` when the type is an array.
pub open spec fn type_text(t: TypeInfoModel) -> Seq<char>
    decreases t,
{
    match t.kind {
        TypeKindModel::Class(n) => n,
        TypeKindModel::UserType(n) => n,
        TypeKindModel::Enum(n) => n,
        TypeKindModel::Function { return_type } => "Function -> "@ + type_text(*return_type),
        _ => if t.is_array {
            fixed_kind_name(t.kind) + "()"@
        } else {
            fixed_kind_name(t.kind)
        },
    }
}

fn fixed_kind_text(k: &TypeKind) -> (s: &'static str)
    ensures
        s@ == fixed_kind_name(k@),
{
    match k {
        TypeKind::Integer => "Integer",
        TypeKind::Long => "Long",
        TypeKind::Single => "Single",
        TypeKind::Double => "Double",
        TypeKind::Currency => "Currency",
        TypeKind::String => "String",
        TypeKind::Boolean => "Boolean",
        TypeKind::Byte => "Byte",
        TypeKind::Date => "Date",
        TypeKind::Variant => "Variant",
        TypeKind::Object => "Object",
        TypeKind::Nothing => "Nothing",
        TypeKind::Empty => "Empty",
        TypeKind::Null => "Null",
        TypeKind::Sub => "Sub",
        TypeKind::Unknown => "Unknown",
        _ => {
            proof {
                reveal_strlit("");
            }
            ""
        },
    }
}

fn render_type(t: &TypeInfo) -> (s: String)
    ensures
        s@ == type_text(t@),
    decreases t,
{
    match &t.kind {
        TypeKind::Class(n) => n.clone(),
        TypeKind::UserType(n) => n.clone(),
        TypeKind::Enum(n) => n.clone(),
        TypeKind::Function { return_type } => {
            let mut s = "Function -> ".to_owned();
            let inner = render_type(&**return_type);
            s.append(inner.as_str());
            s
        },
        _ => {
            let mut s = fixed_kind_text(&t.kind).to_owned();
            if t.is_array {
                s.append("()");
            }
            s
        },
    }
}

/// The type whose kind is `k`, neither a reference nor an array, with no
/// dimensions and no class name.
pub open spec fn plain_type(k: TypeKindModel) -> TypeInfoModel {
    TypeInfoModel {
        kind: k,
        is_reference: false,
        is_array: false,
        array_dimensions: None,
        class_name: None,
    }
}

/// Whether values of kinds `a` and `b` may be used together: Variant with
/// anything, a kind with itself, Integer with Long, Single with Double, and
/// Object with any class.
pub open spec fn kinds_compatible(a: TypeKindModel, b: TypeKindModel) -> bool {
    ||| a is Variant
    ||| b is Variant
    ||| a == b
    ||| (a is Integer && b is Long)
    ||| (a is Long && b is Integer)
    ||| (a is Single && b is Double)
    ||| (a is Double && b is Single)
    ||| (a is Object && b is Class)
    ||| (a is Class && b is Object)
}

/// Whether a value of kind `source` may be assigned to a target of kind
/// `target`: any value to a Variant, a kind to itself, a Variant to a String
/// (converted at run time), a class instance to Object, and the widening
/// numeric conversions Integer to Long, Integer to Double, Long to Double and
/// Single to Double.
pub open spec fn kind_assignable(source: TypeKindModel, target: TypeKindModel) -> bool {
    ||| target is Variant
    ||| source == target
    ||| (source is Variant && target is String)
    ||| (source is Class && target is Object)
    ||| (source is Integer && target is Long)
    ||| (source is Integer && target is Double)
    ||| (source is Long && target is Double)
    ||| (source is Single && target is Double)
}

impl TypeInfo {
    /// Create a new TypeInfo with the given kind
    pub fn new(kind: TypeKind) -> (t: Self)
        ensures
            t@ == plain_type(kind@),
    {
        TypeInfo {
            kind,
            is_reference: false,
            is_array: false,
            array_dimensions: None,
            class_name: None,
        }
    }

    /// Helper constructor for integer type
    pub fn integer() -> (t: Self)
        ensures
            t@ == plain_type(TypeKindModel::Integer),
    {
        Self::new(TypeKind::Integer)
    }

    /// Helper constructor for long type
    pub fn long() -> (t: Self)
        ensures
            t@ == plain_type(TypeKindModel::Long),
    {
        Self::new(TypeKind::Long)
    }

    /// Helper constructor for string type
    pub fn string() -> (t: Self)
        ensures
            t@ == plain_type(TypeKindModel::String),
    {
        Self::new(TypeKind::String)
    }

    /// Helper constructor for boolean type
    pub fn boolean() -> (t: Self)
        ensures
            t@ == plain_type(TypeKindModel::Boolean),
    {
        Self::new(TypeKind::Boolean)
    }

    /// Helper constructor for variant type
    pub fn variant() -> (t: Self)
        ensures
            t@ == plain_type(TypeKindModel::Variant),
    {
        Self::new(TypeKind::Variant)
    }

    /// Helper constructor for object type
    pub fn object() -> (t: Self)
        ensures
            t@ == plain_type(TypeKindModel::Object),
    {
        Self::new(TypeKind::Object)
    }

    /// Helper constructor for unknown type
    pub fn unknown() -> (t: Self)
        ensures
            t@ == plain_type(TypeKindModel::Unknown),
    {
        Self::new(TypeKind::Unknown)
    }

    /// The printed form of the type (see `type_text`).
    pub fn to_display_string(&self) -> (s: String)
        ensures
            s@ == type_text(self@),
    {
        render_type(self)
    }

    /// Check if this type is compatible with another type
    pub fn is_compatible_with(&self, other: &TypeInfo) -> (r: bool)
        ensures
            r == kinds_compatible(self@.kind, other@.kind),
            (self@.kind is Class && other@.kind is Class && self@.kind->Class_0 != other@.kind->Class_0)
                ==> !r,
    {
        if matches!(self.kind, TypeKind::Variant) || matches!(other.kind, TypeKind::Variant) {
            return true;
        }
        if kinds_equal(&self.kind, &other.kind) {
            return true;
        }
        match (&self.kind, &other.kind) {
            (TypeKind::Integer, TypeKind::Long) => true,
            (TypeKind::Long, TypeKind::Integer) => true,
            (TypeKind::Single, TypeKind::Double) => true,
            (TypeKind::Double, TypeKind::Single) => true,
            (TypeKind::Object, TypeKind::Class(_)) => true,
            (TypeKind::Class(_), TypeKind::Object) => true,
            _ => false,
        }
    }

    /// Check if this type can be assigned to another type
    pub fn can_assign_to(&self, other: &TypeInfo) -> (r: bool)
        ensures
            r == kind_assignable(self@.kind, other@.kind),
    {
        if matches!(other.kind, TypeKind::Variant) {
            return true;
        }
        if kinds_equal(&self.kind, &other.kind) {
            return true;
        }
        match (&self.kind, &other.kind) {
            (TypeKind::Variant, TypeKind::String) => true,
            (TypeKind::Class(_), TypeKind::Object) => true,
            (TypeKind::Integer, TypeKind::Long) => true,
            (TypeKind::Integer, TypeKind::Double) => true,
            (TypeKind::Long, TypeKind::Double) => true,
            (TypeKind::Single, TypeKind::Double) => true,
            _ => false,
        }
    }
}

/// Whether a kind is numeric: Integer, Long, Single, Double, Currency or Byte.
pub open spec fn is_numeric_kind(k: TypeKindModel) -> bool {
    ||| k is Integer
    ||| k is Long
    ||| k is Single
    ||| k is Double
    ||| k is Currency
    ||| k is Byte
}

/// The kind to which two kinds are promoted in a numeric operation: the first
/// of Double, Currency, Single, Long, Integer that either operand has; Byte
/// when both are Byte; Variant otherwise.
pub open spec fn promoted_kind(a: TypeKindModel, b: TypeKindModel) -> TypeKindModel {
    if a is Double || b is Double {
        TypeKindModel::Double
    } else if a is Currency || b is Currency {
        TypeKindModel::Currency
    } else if a is Single || b is Single {
        TypeKindModel::Single
    } else if a is Long || b is Long {
        TypeKindModel::Long
    } else if a is Integer || b is Integer {
        TypeKindModel::Integer
    } else if a is Byte && b is Byte {
        TypeKindModel::Byte
    } else {
        TypeKindModel::Variant
    }
}

/// The kind of the result of an operation on operands of kinds `a` and `b`:
/// Variant if either is Variant; the promoted kind if both are numeric;
/// String if either is String; Variant otherwise.
pub open spec fn operation_kind(a: TypeKindModel, b: TypeKindModel) -> TypeKindModel {
    if a is Variant || b is Variant {
        TypeKindModel::Variant
    } else if is_numeric_kind(a) && is_numeric_kind(b) {
        promoted_kind(a, b)
    } else if a is String || b is String {
        TypeKindModel::String
    } else {
        TypeKindModel::Variant
    }
}

/// Type checker for VB6 code
pub struct TypeChecker {}

impl TypeChecker {
    /// Create a new type checker instance
    pub fn new() -> Self {
        TypeChecker {}
    }

    /// Check if an assignment is valid: `Ok` exactly when the source type may
    /// be assigned to the target type; otherwise a type mismatch that names
    /// both types and carries the location.
    pub fn check_assignment(
        &self,
        target_type: &TypeInfo,
        source_type: &TypeInfo,
        location: &SourceLocation,
    ) -> (r: Result<()>)
        ensures
            kind_assignable(source_type@.kind, target_type@.kind) ==> r is Ok,
            !kind_assignable(source_type@.kind, target_type@.kind) ==> (r matches Err(
                SemanticError::TypeMismatch { expected, found, location: at },
            ) && expected@ == type_text(target_type@) && found@ == type_text(source_type@) && at
                == *location),
    {
        if source_type.can_assign_to(target_type) {
            Ok(())
        } else {
            Err(
                SemanticError::TypeMismatch {
                    expected: target_type.to_display_string(),
                    found: source_type.to_display_string(),
                    location: location.clone(),
                },
            )
        }
    }

    /// Check if two types are compatible for an operation; always `Ok`, with
    /// a plain type of the kind that `operation_kind` gives.
    pub fn check_operation(
        &self,
        left_type: &TypeInfo,
        right_type: &TypeInfo,
        _operation: &str,
        _location: &SourceLocation,
    ) -> (r: Result<TypeInfo>)
        ensures
            r matches Ok(t) && t@ == plain_type(operation_kind(left_type@.kind, right_type@.kind)),
            is_numeric_kind(left_type@.kind) && is_numeric_kind(right_type@.kind) ==> (r matches Ok(
                t,
            ) && (t@.kind == left_type@.kind || t@.kind == right_type@.kind) && numeric_rank(t@.kind)
                >= numeric_rank(left_type@.kind) && numeric_rank(t@.kind) >= numeric_rank(
                right_type@.kind,
            )),
    {
        proof {
            if is_numeric_kind(left_type@.kind) && is_numeric_kind(right_type@.kind) {
                lemma_operation_takes_the_higher_rank(left_type@.kind, right_type@.kind);
            }
        }
        if matches!(left_type.kind, TypeKind::Variant) || matches!(
            right_type.kind,
            TypeKind::Variant
        ) {
            return Ok(TypeInfo::variant());
        }
        if self.is_numeric(&left_type.kind) && self.is_numeric(&right_type.kind) {
            return Ok(self.promote_numeric_types(left_type, right_type));
        }
        if matches!(left_type.kind, TypeKind::String) || matches!(right_type.kind, TypeKind::String) {
            return Ok(TypeInfo::string());
        }
        Ok(TypeInfo::variant())
    }

    fn is_numeric(&self, kind: &TypeKind) -> (r: bool)
        ensures
            r == is_numeric_kind(kind@),
    {
        matches!(
            kind,
            TypeKind::Integer | TypeKind::Long | TypeKind::Single | TypeKind::Double
                | TypeKind::Currency | TypeKind::Byte
        )
    }

    fn promote_numeric_types(&self, left: &TypeInfo, right: &TypeInfo) -> (t: TypeInfo)
        ensures
            t@ == plain_type(promoted_kind(left@.kind, right@.kind)),
    {
        let promoted = match (&left.kind, &right.kind) {
            (TypeKind::Double, _) | (_, TypeKind::Double) => TypeKind::Double,
            (TypeKind::Currency, _) | (_, TypeKind::Currency) => TypeKind::Currency,
            (TypeKind::Single, _) | (_, TypeKind::Single) => TypeKind::Single,
            (TypeKind::Long, _) | (_, TypeKind::Long) => TypeKind::Long,
            (TypeKind::Integer, _) | (_, TypeKind::Integer) => TypeKind::Integer,
            (TypeKind::Byte, TypeKind::Byte) => TypeKind::Byte,
            _ => TypeKind::Variant,
        };
        TypeInfo::new(promoted)
    }
}

impl Default for TypeChecker {
    fn default() -> Self {
        Self::new()
    }
}

/// Compatibility is symmetric: `a` may be used with `b` exactly when `b` may
/// be used with `a`.
pub proof fn lemma_compatibility_is_symmetric(a: TypeInfoModel, b: TypeInfoModel)
    ensures
        kinds_compatible(a.kind, b.kind) == kinds_compatible(b.kind, a.kind),
{
}

/// Every type is compatible with itself and may be assigned to itself.
pub proof fn lemma_type_relations_are_reflexive(a: TypeInfoModel)
    ensures
        kinds_compatible(a.kind, a.kind),
        kind_assignable(a.kind, a.kind),
{
}

/// Variant is compatible with every type and every type may be assigned to
/// a Variant.
pub proof fn lemma_variant_accepts_everything(t: TypeInfoModel)
    ensures
        kinds_compatible(TypeKindModel::Variant, t.kind),
        kinds_compatible(t.kind, TypeKindModel::Variant),
        kind_assignable(t.kind, TypeKindModel::Variant),
{
}

/// Every permitted assignment is between compatible types, except Integer to
/// Double and Long to Double, which compatibility does not list.
pub proof fn lemma_assignable_mostly_compatible(source: TypeKindModel, target: TypeKindModel)
    requires
        kind_assignable(source, target),
        !(source is Integer && target is Double),
        !(source is Long && target is Double),
    ensures
        kinds_compatible(source, target),
{
}

/// Assignment only widens numbers: a numeric value may be assigned to a
/// different numeric kind only from Integer to Long or Double, from Long to
/// Double, or from Single to Double.
pub proof fn lemma_numeric_assignment_only_widens(source: TypeKindModel, target: TypeKindModel)
    requires
        is_numeric_kind(source),
        is_numeric_kind(target),
        source != target,
        kind_assignable(source, target),
    ensures
        (source is Integer && (target is Long || target is Double)) || (source is Long
            && target is Double) || (source is Single && target is Double),
{
}

/// The result kind of an operation does not depend on the order of its
/// operands.
pub proof fn lemma_operation_kind_is_commutative(a: TypeKindModel, b: TypeKindModel)
    ensures
        operation_kind(a, b) == operation_kind(b, a),
{
}

/// Numeric operands give a numeric result, which is one of the two operand
/// kinds, and an operand promoted with itself keeps its kind.
pub proof fn lemma_numeric_promotion_stays_numeric(a: TypeKindModel, b: TypeKindModel)
    requires
        is_numeric_kind(a),
        is_numeric_kind(b),
    ensures
        is_numeric_kind(operation_kind(a, b)),
        operation_kind(a, b) == a || operation_kind(a, b) == b,
        operation_kind(a, a) == a,
{
}

/// The place of a numeric kind in the promotion order Byte < Integer < Long
/// < Single < Currency < Double; -1 for a kind that is not numeric.
pub open spec fn numeric_rank(k: TypeKindModel) -> int {
    match k {
        TypeKindModel::Byte => 0,
        TypeKindModel::Integer => 1,
        TypeKindModel::Long => 2,
        TypeKindModel::Single => 3,
        TypeKindModel::Currency => 4,
        TypeKindModel::Double => 5,
        _ => -1,
    }
}

/// An operation on two numeric operands gives the higher-ranked of the two
/// kinds in the order Byte < Integer < Long < Single < Currency < Double: the
/// result is one of the operand kinds and ranks at least as high as each.
pub proof fn lemma_operation_takes_the_higher_rank(a: TypeKindModel, b: TypeKindModel)
    requires
        is_numeric_kind(a),
        is_numeric_kind(b),
    ensures
        operation_kind(a, b) == a || operation_kind(a, b) == b,
        numeric_rank(operation_kind(a, b)) >= numeric_rank(a),
        numeric_rank(operation_kind(a, b)) >= numeric_rank(b),
        numeric_rank(a) >= numeric_rank(b) ==> operation_kind(a, b) == a,
        numeric_rank(b) >= numeric_rank(a) ==> operation_kind(a, b) == b,
{
}

/// Two kinds neither of which is Variant are compatible only when they are
/// equal, or are Integer and Long, Single and Double, or Object and a class,
/// in either order; in particular classes, user types or enums of different
/// names are never compatible with each other.
pub proof fn lemma_compatibility_only_for_listed_pairs(a: TypeKindModel, b: TypeKindModel)
    requires
        !(a is Variant),
        !(b is Variant),
    ensures
        kinds_compatible(a, b) ==> (a == b || (a is Integer && b is Long) || (a is Long
            && b is Integer) || (a is Single && b is Double) || (a is Double && b is Single) || (
        a is Object && b is Class) || (a is Class && b is Object)),
        (a is Class && b is Class && a->Class_0 != b->Class_0) ==> !kinds_compatible(a, b),
        (a is UserType && b is UserType && a->UserType_0 != b->UserType_0) ==> !kinds_compatible(
            a,
            b,
        ),
        (a is Enum && b is Enum && a->Enum_0 != b->Enum_0) ==> !kinds_compatible(a, b),
{
}

} // verus!
