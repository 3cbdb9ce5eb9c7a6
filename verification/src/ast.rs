//! The expression and statement shapes read by the verified rules.

use vstd::prelude::*;
use crate::token::Span;

verus! {

/// Binary operators.
#[derive(Debug, Clone, Copy, PartialEq, Eq, Structural)]
pub enum BinaryOp {
    Add,
    Subtract,
    Multiply,
    Divide,
    Modulo,
    DivEuclid,
    ModEuclid,
    Power,
    Equal,
    NotEqual,
    Less,
    LessEqual,
    Greater,
    GreaterEqual,
    Is,
    IsNot,
    And,
    Or,
    Xor,
    BitAnd,
    BitOr,
    BitXor,
    BitShiftLeft,
    BitShiftRight,
    BitUnsignedShiftRight,
    Assign,
}

/// Unary operators.
#[derive(Debug, Clone, Copy, PartialEq, Eq, Structural)]
pub enum UnaryOp {
    Negate,
    Not,
    BitNot,
    Plus,
}

/// Parameter and argument borrow modes.
#[derive(Debug, Clone, Copy, PartialEq, Eq, Structural)]
pub enum BorrowKind {
    Owned,
    Ref,
    MutableRef,
}

/// Literal values. Float literals carry no value here: no rule reads it.
#[derive(Debug)]
pub enum LiteralValue {
    Integer(i64),
    Float,
    String(String),
    Boolean(bool),
    Void,
}

/// One named field of a constructor expression.
#[derive(Debug)]
pub struct ConstructorField {
    /// Field name.
    pub name: String,
    /// Field initializer.
    pub value: Expr,
}

/// Expressions.
#[derive(Debug)]
#[allow(inconsistent_fields)]
pub enum Expr {
    Literal { value: LiteralValue, span: Span },
    Identifier { name: String, span: Span },
    Member { object: Box<Expr>, member: String, span: Span },
    Call { callee: Box<Expr>, args: Vec<Expr>, span: Span },
    BorrowArgument { target: Box<Expr>, borrow_kind: BorrowKind, span: Span },
    Parenthesized { expr: Box<Expr>, span: Span },
    TypeOf { expr: Box<Expr>, span: Span },
    Cast { expr: Box<Expr>, span: Span },
    Unary { operator: UnaryOp, operand: Box<Expr>, span: Span },
    Binary { left: Box<Expr>, operator: BinaryOp, right: Box<Expr>, span: Span },
    Index { object: Box<Expr>, index: Box<Expr>, span: Span },
    Array { elements: Vec<Expr>, span: Span },
    Propagate { call: Box<Expr>, cause: Option<Box<Expr>>, span: Span },
    Constructor { callee: Box<Expr>, fields: Vec<ConstructorField>, span: Span },
    Constrain { value: Box<Expr>, span: Span },
    Refinement { value: Box<Expr>, variant: Box<Expr>, payload_binding: String, span: Span },
    StringInterpolation { parts: Vec<StringPart>, span: Span },
    If { condition: Box<Expr>, then_branch: Box<Stmt>, else_branch: Option<Box<Stmt>>, span: Span },
    Match { scrutinee: Box<Expr>, arms: Vec<MatchArm>, span: Span },
    Loop { body: Box<Stmt>, span: Span },
    Lambda { params: Vec<Parameter>, return_types: Vec<Type>, error_types: Vec<String>, body: LambdaBody, span: Span },
    Guard { expr: Box<Expr>, else_branch: Box<Stmt>, span: Span },
}

/// One piece of an interpolated string.
#[derive(Debug)]
pub enum StringPart {
    Text(String),
    Expression(Expr),
}

/// A function or lambda parameter.
#[derive(Debug)]
pub struct Parameter {
    /// Parameter name.
    pub name: String,
    /// Declared parameter type.
    pub param_type: Type,
    /// How the argument is passed.
    pub borrow_kind: BorrowKind,
    /// Parameter location.
    pub span: Span,
}

/// The body of a lambda.
#[derive(Debug)]
pub enum LambdaBody {
    Expression(Box<Expr>),
    Block(Vec<Stmt>),
}

/// One value of a `return`, `break` or `continue`, with its label if any.
#[derive(Debug)]
pub struct ReturnValue {
    /// Returned value.
    pub value: Expr,
    /// Return label.
    pub label: Option<String>,
}

/// One binding of a `let` destructure.
#[derive(Debug)]
pub struct LetBinding {
    /// Bound name.
    pub name: String,
    /// Returned label the binding states explicitly, if any.
    pub returned_label: Option<String>,
    /// Declared type of the binding, if any.
    pub type_annotation: Option<Type>,
    /// Whether the binding is mutable.
    pub is_mutable: bool,
    /// Binding location.
    pub span: Span,
}

/// Statements.
#[derive(Debug)]
pub enum Stmt {
    Let { name: String, initializer: Option<Expr>, span: Span },
    LetDestructure { bindings: Vec<LetBinding>, initializer: Expr, span: Span },
    Assignment { value: Expr, span: Span },
    Return { values: Vec<ReturnValue>, span: Span },
    Break { values: Vec<ReturnValue>, span: Span },
    Continue { values: Vec<ReturnValue>, span: Span },
    Expression { expr: Expr, span: Span },
    Block { statements: Vec<Stmt>, span: Span },
    If { condition: Expr, then_branch: Box<Stmt>, else_branch: Option<Box<Stmt>>, span: Span },
    For { iterable: Expr, body: Box<Stmt>, span: Span },
    While { condition: Expr, body: Box<Stmt>, span: Span },
    Guard { expression: Box<Expr>, else_body: Box<Stmt>, span: Span },
    Using { acquisition: Expr, body: Box<Stmt>, span: Span },
    Loop { body: Box<Stmt>, span: Span },
    PropagateGuardError { span: Span },
    Comment { span: Span },
}

/// Match-arm patterns.
#[derive(Debug)]
pub enum Pattern {
    /// `_`: matches anything.
    Wildcard { span: Span },
    /// A name bound to the scrutinee.
    Binding { name: String, span: Span },
    /// A literal value.
    Literal { value: LiteralValue, span: Span },
    /// A tuple or array of element patterns.
    Tuple { elements: Vec<Pattern>, span: Span },
    /// A sum-type variant, optionally qualified by its type, with field patterns.
    Variant { type_label: Option<String>, variant_name: String, fields: Vec<(String, Pattern)>, span: Span },
}

/// One arm of a match expression.
#[derive(Debug)]
pub struct MatchArm {
    /// Arm pattern.
    pub pattern: Pattern,
    /// Optional guard condition.
    pub guard: Option<Expr>,
    /// Arm value.
    pub body: Expr,
    /// Arm location.
    pub span: Span,
}

/// Annotations attached to a declaration.
#[derive(Debug)]
pub enum DeclarationAnnotation {
    /// Where the declaration may be imported from (`@availability(..)`).
    Availability { value: String, span: Span },
    /// Who may call the declared type's constructor.
    ConstructorVisibility { value: String, span: Span },
    /// ABI identity and evolution annotations; no verified rule looks inside them.
    Other { span: Span },
}

/// Source-level type annotations.
#[derive(Debug)]
#[allow(inconsistent_fields)]
pub enum Type {
    Basic { name: String, span: Span },
    Generic { name: String, type_args: Vec<Type>, span: Span },
    Array { element_type: Box<Type>, span: Span },
    Function { parameters: Vec<Type>, return_types: Vec<Type>, errors: Option<Vec<Type>>, span: Span },
}

impl Type {
    /// Source span of a type annotation.
    pub open spec fn span_of(self) -> Span {
        match self {
            Type::Basic { span, .. } => span,
            Type::Generic { span, .. } => span,
            Type::Array { span, .. } => span,
            Type::Function { span, .. } => span,
        }
    }

    /// Source span of a type annotation.
    pub fn span(&self) -> (r: Span)
        ensures
            r == self.span_of(),
    {
        match self {
            Type::Basic { span, .. } => *span,
            Type::Generic { span, .. } => *span,
            Type::Array { span, .. } => *span,
            Type::Function { span, .. } => *span,
        }
    }
}

/// A declared generic type parameter with its constraint types.
#[derive(Debug)]
pub struct TypeParameter {
    pub name: String,
    pub constraints: Vec<Type>,
}

/// A named field of a product type or of a sum-type variant.
#[derive(Debug)]
pub struct FieldDef {
    pub name: String,
    pub type_annotation: Type,
}

/// One variant of a sum type.
#[derive(Debug)]
pub struct VariantDef {
    pub name: String,
    pub fields: Vec<FieldDef>,
}

/// The definition part of a type declaration.
#[derive(Debug)]
pub enum TypeDef {
    Product { fields: Vec<FieldDef> },
    Sum { variants: Vec<VariantDef> },
    Alias { target_type: Type },
    Opaque,
}

/// A top-level declaration.
#[derive(Debug)]
pub enum Decl {
    /// A function; `is_entry` marks the program's entry function.
    Function {
        name: String,
        parameters: Vec<Parameter>,
        return_types: Option<Vec<Type>>,
        body: Vec<Stmt>,
        is_entry: bool,
        span: Span,
    },
    /// A module-level binding.
    Let { binding: LetBinding, initializer: Option<Expr>, span: Span },
    /// A type declaration.
    Type { name: String, type_def: TypeDef, span: Span },
    /// An import of names from another module.
    Import { items: Vec<String>, source: String, span: Span },
    /// A comment.
    Comment { span: Span },
}

/// A parsed program: its top-level declarations in source order.
#[derive(Debug)]
pub struct Program {
    pub declarations: Vec<Decl>,
}

impl Expr {
    /// Source span of an expression.
    pub open spec fn span_of(self) -> Span {
        match self {
            Expr::Literal { span, .. } => span,
            Expr::Identifier { span, .. } => span,
            Expr::Member { span, .. } => span,
            Expr::Call { span, .. } => span,
            Expr::BorrowArgument { span, .. } => span,
            Expr::Parenthesized { span, .. } => span,
            Expr::TypeOf { span, .. } => span,
            Expr::Cast { span, .. } => span,
            Expr::Unary { span, .. } => span,
            Expr::Binary { span, .. } => span,
            Expr::Index { span, .. } => span,
            Expr::Array { span, .. } => span,
            Expr::Propagate { span, .. } => span,
            Expr::Constructor { span, .. } => span,
            Expr::Constrain { span, .. } => span,
            Expr::Refinement { span, .. } => span,
            Expr::StringInterpolation { span, .. } => span,
            Expr::If { span, .. } => span,
            Expr::Match { span, .. } => span,
            Expr::Loop { span, .. } => span,
            Expr::Lambda { span, .. } => span,
            Expr::Guard { span, .. } => span,
        }
    }

    /// Source span of an expression.
    pub fn span(&self) -> (r: Span)
        ensures
            r == self.span_of(),
    {
        match self {
            Expr::Literal { span, .. } => *span,
            Expr::Identifier { span, .. } => *span,
            Expr::Member { span, .. } => *span,
            Expr::Call { span, .. } => *span,
            Expr::BorrowArgument { span, .. } => *span,
            Expr::Parenthesized { span, .. } => *span,
            Expr::TypeOf { span, .. } => *span,
            Expr::Cast { span, .. } => *span,
            Expr::Unary { span, .. } => *span,
            Expr::Binary { span, .. } => *span,
            Expr::Index { span, .. } => *span,
            Expr::Array { span, .. } => *span,
            Expr::Propagate { span, .. } => *span,
            Expr::Constructor { span, .. } => *span,
            Expr::Constrain { span, .. } => *span,
            Expr::Refinement { span, .. } => *span,
            Expr::StringInterpolation { span, .. } => *span,
            Expr::If { span, .. } => *span,
            Expr::Match { span, .. } => *span,
            Expr::Loop { span, .. } => *span,
            Expr::Lambda { span, .. } => *span,
            Expr::Guard { span, .. } => *span,
        }
    }
}

} // verus!
