//! What can prevent lowering.
use vstd::prelude::*;
use vstd::string::*;

use crate::text;
use crate::text::push_decimal;

verus! {

/// An error that prevented lowering.
#[derive(Debug, PartialEq, Eq)]
#[allow(inconsistent_fields)]
pub enum LowerError {
    /// A projection whose base type is not known.
    UnresolvedProjection { field: String },
    /// A field that the struct does not declare.
    UnknownField { ty: String, field: String },
    /// A contract clause that is no boolean predicate.
    ContractNotPredicate,
    /// A contract comparison whose operand is not atomic.
    ContractOperandNotAtomic,
    /// A contract names something that is neither a parameter nor `result`.
    UnknownContractVar { name: String },
    /// `result` in a precondition.
    ResultInRequires,
    /// A `match` whose arms name no constructor.
    MatchWithoutConstructor,
    /// A `match` whose arms mix constructors of different enums.
    MixedEnumPatterns { expected: String, found: String },
    /// A constructor that no enum in scope declares.
    UnknownConstructor { name: String },
    /// A struct literal of an unknown struct.
    UnknownStruct { name: String },
    /// A struct literal that leaves out a field.
    MissingStructField { ty: String, field: String },
    /// Assignment to a binding that is not a `var`.
    AssignToImmutable { name: String },
    /// Assignment to a name that is not in scope.
    AssignToUndeclared { name: String },
    /// An index store into something that is neither a slice nor an array.
    IndexAssignUnsupported,
    /// A constructor of an imported enum whose module is not part of the set.
    UnresolvedImportedEnum { name: String, module: String },
    /// A foreign function referred to outside an unsafe function.
    UnsafeFfiOutsideUnsafe { name: String },
    /// A collection literal without an allocator.
    CollectionLiteralMissingAlloc { kind: &'static str },
    /// A map literal with a different number of keys and values.
    MapLiteralLengthMismatch { keys: usize, values: usize },
    /// More generic instances than can be counted.
    InstanceLimit,
}

/// The mathematical counterpart of [`LowerError`].
#[allow(inconsistent_fields)]
pub enum LowerErrorView {
    UnresolvedProjection { field: Seq<char> },
    UnknownField { ty: Seq<char>, field: Seq<char> },
    ContractNotPredicate,
    ContractOperandNotAtomic,
    UnknownContractVar { name: Seq<char> },
    ResultInRequires,
    MatchWithoutConstructor,
    MixedEnumPatterns { expected: Seq<char>, found: Seq<char> },
    UnknownConstructor { name: Seq<char> },
    UnknownStruct { name: Seq<char> },
    MissingStructField { ty: Seq<char>, field: Seq<char> },
    AssignToImmutable { name: Seq<char> },
    AssignToUndeclared { name: Seq<char> },
    IndexAssignUnsupported,
    UnresolvedImportedEnum { name: Seq<char>, module: Seq<char> },
    UnsafeFfiOutsideUnsafe { name: Seq<char> },
    CollectionLiteralMissingAlloc { kind: Seq<char> },
    MapLiteralLengthMismatch { keys: nat, values: nat },
    InstanceLimit,
}

impl View for LowerError {
    type V = LowerErrorView;

    open spec fn view(&self) -> LowerErrorView {
        match self {
            LowerError::UnresolvedProjection { field } => LowerErrorView::UnresolvedProjection {
                field: field@,
            },
            LowerError::UnknownField { ty, field } => LowerErrorView::UnknownField {
                ty: ty@,
                field: field@,
            },
            LowerError::ContractNotPredicate => LowerErrorView::ContractNotPredicate,
            LowerError::ContractOperandNotAtomic => LowerErrorView::ContractOperandNotAtomic,
            LowerError::UnknownContractVar { name } => LowerErrorView::UnknownContractVar {
                name: name@,
            },
            LowerError::ResultInRequires => LowerErrorView::ResultInRequires,
            LowerError::MatchWithoutConstructor => LowerErrorView::MatchWithoutConstructor,
            LowerError::MixedEnumPatterns { expected, found } => LowerErrorView::MixedEnumPatterns {
                expected: expected@,
                found: found@,
            },
            LowerError::UnknownConstructor { name } => LowerErrorView::UnknownConstructor {
                name: name@,
            },
            LowerError::UnknownStruct { name } => LowerErrorView::UnknownStruct { name: name@ },
            LowerError::MissingStructField { ty, field } => LowerErrorView::MissingStructField {
                ty: ty@,
                field: field@,
            },
            LowerError::AssignToImmutable { name } => LowerErrorView::AssignToImmutable {
                name: name@,
            },
            LowerError::AssignToUndeclared { name } => LowerErrorView::AssignToUndeclared {
                name: name@,
            },
            LowerError::IndexAssignUnsupported => LowerErrorView::IndexAssignUnsupported,
            LowerError::UnresolvedImportedEnum { name, module } =>
                LowerErrorView::UnresolvedImportedEnum { name: name@, module: module@ },
            LowerError::UnsafeFfiOutsideUnsafe { name } =>
                LowerErrorView::UnsafeFfiOutsideUnsafe { name: name@ },
            LowerError::CollectionLiteralMissingAlloc { kind } =>
                LowerErrorView::CollectionLiteralMissingAlloc { kind: kind@ },
            LowerError::MapLiteralLengthMismatch { keys, values } =>
                LowerErrorView::MapLiteralLengthMismatch { keys: *keys as nat, values: *values as nat },
            LowerError::InstanceLimit => LowerErrorView::InstanceLimit,
        }
    }
}

/// The text of an error.
pub open spec fn error_text(e: LowerErrorView) -> Seq<char> {
    match e {
        LowerErrorView::UnresolvedProjection { field } =>
            "cannot resolve the type of the base of projection `."@ + field
                + "` (M1 has no type inference; annotate the binding or wait for the M2 checker)"@,
        LowerErrorView::UnknownField { ty, field } => "struct `"@ + ty + "` has no field `"@ + field
            + "`"@,
        LowerErrorView::ContractNotPredicate =>
            "a contract clause must be a boolean predicate (a comparison, `and`/`or`, or a boolean literal)"@,
        LowerErrorView::ContractOperandNotAtomic =>
            "a contract comparison operand must be atomic (a parameter, `result`, or a literal)"@,
        LowerErrorView::UnknownContractVar { name } => "contract refers to `"@ + name
            + "`, which is not a parameter or `result`"@,
        LowerErrorView::ResultInRequires =>
            "`result` may only appear in an `ensures` clause, not `requires`"@,
        LowerErrorView::MatchWithoutConstructor =>
            "a `match` must name at least one enum constructor so its variant set is known (M1 lowers tag-indexed matches over enums)"@,
        LowerErrorView::MixedEnumPatterns { expected, found } =>
            "`match` arms mix constructors of different enums (`"@ + expected + "` and `"@ + found
                + "`)"@,
        LowerErrorView::UnknownConstructor { name } =>
            "no enum in scope declares a constructor `"@ + name + "`"@,
        LowerErrorView::UnknownStruct { name } => "no struct `"@ + name
            + "` is declared in this module"@,
        LowerErrorView::MissingStructField { ty, field } => "struct literal for `"@ + ty
            + "` is missing field `"@ + field + "`"@,
        LowerErrorView::AssignToImmutable { name } => "cannot assign to `"@ + name
            + "`: it is immutable (only a `var` binding may be reassigned)"@,
        LowerErrorView::AssignToUndeclared { name } => "cannot assign to `"@ + name
            + "`: no such binding is in scope"@,
        LowerErrorView::IndexAssignUnsupported =>
            "index assignment `a[i] = e` needs a base that is known to be a slice or an array"@,
        LowerErrorView::UnresolvedImportedEnum { name, module } => "cannot resolve `"@ + name
            + "`: it is imported from `"@ + module + "`, which is not part of the lowered modules"@,
        LowerErrorView::UnsafeFfiOutsideUnsafe { name } => "foreign function `"@ + name
            + "` may only be used inside an `unsafe fn`"@,
        LowerErrorView::CollectionLiteralMissingAlloc { kind } => "a `"@ + kind
            + "` literal needs an explicit `alloc`"@,
        LowerErrorView::MapLiteralLengthMismatch { keys, values } => "a `Map` literal has "@
            + text::decimal(keys) + " keys and "@ + text::decimal(values) + " values"@,
        LowerErrorView::InstanceLimit => "too many generic instances"@,
    }
}

/// `a`, then `b`, then `c`.
fn around(a: &str, b: &str, c: &str) -> (r: String)
    ensures
        r@ == a@ + b@ + c@,
{
    let mut s = a.to_owned();
    s.append(b);
    s.append(c);
    s
}

impl LowerError {
    /// The text of this error.
    pub fn message(&self) -> (r: String)
        ensures
            r@ == error_text(self@),
    {
        match self {
            LowerError::UnresolvedProjection { field } => around(
                "cannot resolve the type of the base of projection `.",
                field.as_str(),
                "` (M1 has no type inference; annotate the binding or wait for the M2 checker)",
            ),
            LowerError::UnknownField { ty, field } => {
                let mut s = around("struct `", ty.as_str(), "` has no field `");
                s.append(field.as_str());
                s.append("`");
                s
            },
            LowerError::ContractNotPredicate => {
                "a contract clause must be a boolean predicate (a comparison, `and`/`or`, or a boolean literal)".to_owned()
            },
            LowerError::ContractOperandNotAtomic => {
                "a contract comparison operand must be atomic (a parameter, `result`, or a literal)".to_owned()
            },
            LowerError::UnknownContractVar { name } => around(
                "contract refers to `",
                name.as_str(),
                "`, which is not a parameter or `result`",
            ),
            LowerError::ResultInRequires => {
                "`result` may only appear in an `ensures` clause, not `requires`".to_owned()
            },
            LowerError::MatchWithoutConstructor => {
                "a `match` must name at least one enum constructor so its variant set is known (M1 lowers tag-indexed matches over enums)".to_owned()
            },
            LowerError::MixedEnumPatterns { expected, found } => {
                let mut s = around(
                    "`match` arms mix constructors of different enums (`",
                    expected.as_str(),
                    "` and `",
                );
                s.append(found.as_str());
                s.append("`)");
                s
            },
            LowerError::UnknownConstructor { name } => around(
                "no enum in scope declares a constructor `",
                name.as_str(),
                "`",
            ),
            LowerError::UnknownStruct { name } => around(
                "no struct `",
                name.as_str(),
                "` is declared in this module",
            ),
            LowerError::MissingStructField { ty, field } => {
                let mut s = around("struct literal for `", ty.as_str(), "` is missing field `");
                s.append(field.as_str());
                s.append("`");
                s
            },
            LowerError::AssignToImmutable { name } => around(
                "cannot assign to `",
                name.as_str(),
                "`: it is immutable (only a `var` binding may be reassigned)",
            ),
            LowerError::AssignToUndeclared { name } => around(
                "cannot assign to `",
                name.as_str(),
                "`: no such binding is in scope",
            ),
            LowerError::IndexAssignUnsupported => {
                "index assignment `a[i] = e` needs a base that is known to be a slice or an array".to_owned()
            },
            LowerError::UnresolvedImportedEnum { name, module } => {
                let mut s = around("cannot resolve `", name.as_str(), "`: it is imported from `");
                s.append(module.as_str());
                s.append("`, which is not part of the lowered modules");
                s
            },
            LowerError::UnsafeFfiOutsideUnsafe { name } => around(
                "foreign function `",
                name.as_str(),
                "` may only be used inside an `unsafe fn`",
            ),
            LowerError::CollectionLiteralMissingAlloc { kind } => around(
                "a `",
                kind,
                "` literal needs an explicit `alloc`",
            ),
            LowerError::MapLiteralLengthMismatch { keys, values } => {
                let mut s = "a `Map` literal has ".to_owned();
                push_decimal(&mut s, *keys as u64);
                s.append(" keys and ");
                push_decimal(&mut s, *values as u64);
                s.append(" values");
                s
            },
            LowerError::InstanceLimit => "too many generic instances".to_owned(),
        }
    }
}

} // verus!
