//! Type-checking diagnostics.

use vstd::prelude::*;
use crate::token::Span;

verus! {

/// Offset/length region attached to a diagnostic.
#[derive(Debug, Clone, Copy, PartialEq, Eq, Structural)]
pub struct DiagnosticSpan {
    /// Zero-based start offset.
    pub offset: usize,
    /// Length in characters.
    pub length: usize,
}

/// Diagnostic region of a source span: start offset, and the distance to the end
/// offset (zero when the end precedes the start).
pub open spec fn diagnostic_span_of(span: Span) -> DiagnosticSpan {
    DiagnosticSpan {
        offset: span.start.offset,
        length: if span.end.offset >= span.start.offset {
            (span.end.offset - span.start.offset) as usize
        } else {
            0
        },
    }
}

/// Errors produced by the verified type-system rules.
#[derive(Debug)]
pub enum TypeError {
    /// Type was not found in the current scope.
    TypeNotFound { type_label: String, span: DiagnosticSpan },
    /// Symbol was not found in the current scope.
    SymbolNotFound { name: String, suggestion: Option<String>, span: DiagnosticSpan },
    /// Two types were expected to agree.
    TypeMismatch {
        expected: String,
        found: String,
        found_span: DiagnosticSpan,
        expected_span: Option<DiagnosticSpan>,
    },
    /// Operation not supported by the operand type.
    InvalidOperation { operation: String, type_label: String, span: DiagnosticSpan },
    /// An `if` without `else` stands where a value of a non-unit type is required.
    MissingElseBranch { expected_type: String, span: DiagnosticSpan },
    /// `propagate` stands outside a function that declares error types.
    PropagateOutsideErrorFunction { span: DiagnosticSpan },
    /// Propagated error types are not covered by the function's declared errors.
    PropagateErrorMismatch { expected: String, found: String, span: DiagnosticSpan, callee_span: DiagnosticSpan },
    /// A match does not cover every variant of its scrutinee type.
    NonExhaustiveMatch { missing_variants: Vec<String>, span: DiagnosticSpan },
    /// A match arm's value type differs from the first arm's.
    MatchArmTypeMismatch { arm_index: usize, expected: String, found: String, span: DiagnosticSpan },
    /// Two types could not be unified.
    UnificationFailed { left: String, right: String, left_span: DiagnosticSpan, right_span: DiagnosticSpan },
    /// Binding a type variable would create an infinite type.
    OccursCheckFailed { var_name: String, type_label: String, span: DiagnosticSpan },
    /// A language feature the checker does not handle yet.
    NotImplementedYet { feature: String, span: DiagnosticSpan },
    /// A value of a non-function type is called.
    NotCallable { type_label: String, span: DiagnosticSpan },
    /// The program declares no `entry` function.
    MissingEntryPoint { span: DiagnosticSpan },
    /// The program declares more than one `entry` function.
    DuplicateEntryPoint { count: usize, span: DiagnosticSpan },
    /// Wrong number of values or arguments.
    ArityMismatch { expected: usize, found: usize, span: DiagnosticSpan },
    /// Division or modulo by a divisor that is the constant zero.
    DivisionByZero { operation: String, span: DiagnosticSpan },
    /// Constant shift count is negative or not smaller than the bit width.
    InvalidShiftCount {
        reason: String,
        count_value: i128,
        shift_count: i128,
        bit_width: u32,
        span: DiagnosticSpan,
    },
    /// A structural rule was violated.
    ConstraintSolvingFailed { reason: String, span: DiagnosticSpan },
    /// One local import name was bound from two different modules.
    ImportNameConflict {
        name: String,
        first_module: String,
        second_module: String,
        span: DiagnosticSpan,
    },
    /// Import path is not a registered module.
    UnresolvedImport { path: String, span: DiagnosticSpan },
    /// Imported symbol is private to its module.
    PrivateSymbolAccess { symbol: String, module: String, span: DiagnosticSpan },
    /// Module dependency cycle.
    CircularDependency { cycle: Vec<String>, span: DiagnosticSpan },
    /// Cast between types that cannot be converted.
    InvalidCast { from_type: String, to_type: String, span: DiagnosticSpan },
    /// Error type used in a signature but not declared in scope.
    UndeclaredErrorType { name: String, span: DiagnosticSpan },
    /// A return statement's labels do not fit the body's return shape.
    ReturnLabelMismatch { expected: String, found: String, span: DiagnosticSpan },
    /// A match pattern is incompatible with the scrutinee type.
    PatternTypeMismatch { expected: String, found: String, span: DiagnosticSpan },
    /// A named error set declared without members.
    EmptyErrorSet { set_name: String, span: DiagnosticSpan },
    /// A named error set that lists one member twice.
    DuplicateErrorSetMember { set_name: String, member_name: String, span: DiagnosticSpan },
    /// Named error sets that include each other.
    ErrorSetCycle { cycle: String, span: DiagnosticSpan },
    /// An error-set member that names a visible type which is not an error.
    NonErrorSetMember { set_name: String, member_name: String, span: DiagnosticSpan },
    /// An error-set member that names nothing known.
    UnknownErrorSetMember { set_name: String, member_name: String, span: DiagnosticSpan },
}

/// Non-fatal diagnostics.
#[derive(Debug)]
pub enum Warning {
    /// Compile-time constant integer arithmetic overflows the destination type.
    ArithmeticOverflow {
        operation: String,
        type_label: String,
        span: DiagnosticSpan,
        suppression_annotation: Option<String>,
    },
    /// Narrowing cast that may lose data or precision.
    UnsafeCast {
        from_type: String,
        to_type: String,
        span: DiagnosticSpan,
        suppression_annotation: Option<String>,
    },
    /// A list of leaf errors that a named set spells exactly.
    ReplaceableErrorList {
        family_name: String,
        replaceable_errors: String,
        span: DiagnosticSpan,
        suppression_annotation: Option<String>,
    },
    /// A leaf error listed beside a named set that already covers it.
    ErrorSetRedundantMember {
        redundant_member: String,
        covering_set: String,
        span: DiagnosticSpan,
        suppression_annotation: Option<String>,
    },
    /// A named set listed beside a broader one.
    ErrorSetOverlap {
        narrower_set: String,
        broader_set: String,
        span: DiagnosticSpan,
        suppression_annotation: Option<String>,
    },
    /// A named set of which the body can raise only some members.
    ErrorSetUnusedMembers {
        set_name: String,
        unused_members: String,
        suggested_errors: String,
        span: DiagnosticSpan,
        suppression_annotation: Option<String>,
    },
}

/// The suppression annotation carried by a warning.
pub open spec fn warning_annotation(w: Warning) -> Option<String> {
    match w {
        Warning::ArithmeticOverflow { suppression_annotation, .. } => suppression_annotation,
        Warning::UnsafeCast { suppression_annotation, .. } => suppression_annotation,
        Warning::ReplaceableErrorList { suppression_annotation, .. } => suppression_annotation,
        Warning::ErrorSetRedundantMember { suppression_annotation, .. } => suppression_annotation,
        Warning::ErrorSetOverlap { suppression_annotation, .. } => suppression_annotation,
        Warning::ErrorSetUnusedMembers { suppression_annotation, .. } => suppression_annotation,
    }
}

/// `e` is the structural-rule diagnostic with this reason and location.
pub open spec fn is_constraint_error(e: TypeError, reason: Seq<char>, span: Span) -> bool {
    e matches TypeError::ConstraintSolvingFailed { reason: r, span: s } && r@ == reason && s
        == diagnostic_span_of(span)
}

impl TypeError {
    /// Convert a source span to a diagnostic region.
    pub fn span_from_span(span: Span) -> (r: DiagnosticSpan)
        ensures
            r == diagnostic_span_of(span),
    {
        let start = span.start.offset;
        let length = if span.end.offset >= start { span.end.offset - start } else { 0 };
        DiagnosticSpan { offset: start, length }
    }

    /// Region used by diagnostics without location information.
    pub fn unknown_span() -> (r: DiagnosticSpan)
        ensures
            r == (DiagnosticSpan { offset: 0, length: 0 }),
    {
        DiagnosticSpan { offset: 0, length: 0 }
    }
}

impl Warning {
    /// The suppression annotation attached to this warning, if present.
    pub fn suppression_annotation(&self) -> (r: Option<&str>)
        ensures
            match warning_annotation(*self) {
                Some(a) => r matches Some(x) && x@ == a@,
                None => r is None,
            },
    {
        let annotation = match self {
            Warning::ArithmeticOverflow { suppression_annotation, .. } => suppression_annotation,
            Warning::UnsafeCast { suppression_annotation, .. } => suppression_annotation,
            Warning::ReplaceableErrorList { suppression_annotation, .. } => suppression_annotation,
            Warning::ErrorSetRedundantMember { suppression_annotation, .. } => suppression_annotation,
            Warning::ErrorSetOverlap { suppression_annotation, .. } => suppression_annotation,
            Warning::ErrorSetUnusedMembers { suppression_annotation, .. } => suppression_annotation,
        };
        match annotation {
            Some(a) => Some(a.as_str()),
            None => None,
        }
    }
}

} // verus!
