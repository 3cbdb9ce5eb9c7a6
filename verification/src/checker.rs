//! The type checker's state: environment, symbols, pending constraints, warnings and
//! per-expression metadata, with the operations on them.

use vstd::prelude::*;
use crate::arithmetic::ArithmeticMode;
use crate::ast::{BinaryOp, Expr, Program};
use crate::builtins::{nominal_model, register_standard_builtins, standard_builtins, symbol_models, with_builtins};
use crate::constraints::{equalities_hold, is_has_field_error, is_solving_error, solve_constraints, TypeConstraint};
use crate::environment::{builtin_types, TypeEnvironment};
use crate::errors::{diagnostic_span_of, TypeError, Warning};
use crate::expression_metadata::{binary_metadata_recorded, ExprMetadata};
use crate::name_map::NameMap;
use crate::operators::{binary_verdict, realizes, BinaryTyping};
use crate::substitution::{apply, Substitution};
use crate::symbol_table::{symbol_model, SymbolInfo, SymbolModel};
use crate::text::owned;
use crate::token::Span;
use crate::type_rules::compatible;
use crate::types::{model_of, CoreType, TypeModel, TypeVar};

verus! {

/// Core type checker state.
#[derive(Debug)]
pub struct TypeChecker {
    /// Registered types.
    environment: TypeEnvironment,
    /// Symbols in scope, by name.
    symbol_table: NameMap<SymbolInfo>,
    /// Id of the next fresh type variable.
    next_var_id: usize,
    /// Constraints collected for inference.
    constraints: Vec<TypeConstraint>,
    /// Non-fatal warnings collected so far.
    warnings: Vec<Warning>,
    /// Per-expression arithmetic modes and folded constants.
    metadata: ExprMetadata,
}

impl TypeChecker {
    /// The checker's tables are well formed.
    pub closed spec fn wf(&self) -> bool {
        self.environment.wf() && self.symbol_table.wf()
    }

    /// Registered types, by name.
    pub closed spec fn types(&self) -> Map<Seq<char>, TypeModel> {
        self.environment.types()
    }

    /// Symbols, by name.
    pub closed spec fn symbols(&self) -> Map<Seq<char>, SymbolModel> {
        symbol_models(self.symbol_table@)
    }

    /// Id the next fresh type variable gets.
    pub closed spec fn next_var(&self) -> usize {
        self.next_var_id
    }

    /// Pending constraints, in the order they were added.
    pub closed spec fn pending(&self) -> Seq<TypeConstraint> {
        self.constraints@
    }

    /// Collected warnings, in order.
    pub closed spec fn warning_list(&self) -> Seq<Warning> {
        self.warnings@
    }

    /// Arithmetic mode recorded for each expression id.
    pub closed spec fn modes(&self) -> Map<usize, ArithmeticMode> {
        self.metadata.modes()
    }

    /// Folded constant recorded for each expression id.
    pub closed spec fn constants(&self) -> Map<usize, i128> {
        self.metadata.constants()
    }

    /// A checker over `environment` with the standard built-ins registered and nothing
    /// else recorded.
    pub fn with_environment(environment: TypeEnvironment) -> (r: Self)
        requires
            environment.wf(),
        ensures
            r.wf(),
            r.types() == environment.types().insert("Option"@, nominal_model("Option"@, seq![])),
            r.symbols() == with_builtins(Map::empty(), standard_builtins()),
            r.next_var() == 0,
            r.pending() == Seq::<TypeConstraint>::empty(),
            r.warning_list() == Seq::<Warning>::empty(),
            r.modes() == Map::<usize, ArithmeticMode>::empty(),
            r.constants() == Map::<usize, i128>::empty(),
    {
        let mut checker = TypeChecker {
            environment,
            symbol_table: NameMap::new(),
            next_var_id: 0,
            constraints: Vec::new(),
            warnings: Vec::new(),
            metadata: ExprMetadata::new(),
        };
        proof {
            assert(symbol_models(checker.symbol_table@) =~= Map::empty());
        }
        register_standard_builtins(&mut checker.environment, &mut checker.symbol_table);
        checker
    }

    /// A checker with the built-in types and functions registered.
    pub fn new() -> (r: Self)
        ensures
            r.wf(),
            r.types() == builtin_types().insert("Option"@, nominal_model("Option"@, seq![])),
            r.symbols() == with_builtins(Map::empty(), standard_builtins()),
            r.next_var() == 0,
            r.pending() == Seq::<TypeConstraint>::empty(),
            r.warning_list() == Seq::<Warning>::empty(),
            r.modes() == Map::<usize, ArithmeticMode>::empty(),
            r.constants() == Map::<usize, i128>::empty(),
    {
        Self::with_environment(TypeEnvironment::new())
    }

    /// The type environment.
    pub fn environment(&self) -> (r: &TypeEnvironment)
        ensures
            r.types() == self.types(),
            self.wf() ==> r.wf(),
    {
        &self.environment
    }

    /// The symbol table.
    pub fn symbol_table(&self) -> (r: &NameMap<SymbolInfo>)
        ensures
            symbol_models(r@) == self.symbols(),
            self.wf() ==> r.wf(),
    {
        &self.symbol_table
    }

    /// The warnings collected so far.
    pub fn warnings(&self) -> (r: &[Warning])
        ensures
            r@ == self.warning_list(),
    {
        self.warnings.as_slice()
    }

    /// Forget the collected warnings.
    pub fn clear_warnings(&mut self)
        ensures
            final(self).warning_list() == Seq::<Warning>::empty(),
            final(self).types() == old(self).types(),
            final(self).symbols() == old(self).symbols(),
            final(self).pending() == old(self).pending(),
            final(self).wf() == old(self).wf(),
    {
        self.warnings.clear();
    }

    /// Collect a warning.
    pub fn push_warning(&mut self, warning: Warning)
        ensures
            final(self).warning_list() == old(self).warning_list().push(warning),
            final(self).pending() == old(self).pending(),
            final(self).wf() == old(self).wf(),
    {
        self.warnings.push(warning);
    }

    /// Record the arithmetic mode of an expression.
    pub fn record_arithmetic_mode(&mut self, expr_id: usize, mode: ArithmeticMode)
        ensures
            final(self).modes() == old(self).modes().insert(expr_id, mode),
            final(self).constants() == old(self).constants(),
            final(self).wf() == old(self).wf(),
    {
        self.metadata.record_arithmetic_mode(expr_id, mode);
    }

    /// The arithmetic mode recorded for an expression.
    pub fn arithmetic_mode_for_expr(&self, expr_id: usize) -> (r: Option<ArithmeticMode>)
        ensures
            r == (if self.modes().contains_key(expr_id) { Some(self.modes()[expr_id]) } else { None }),
    {
        self.metadata.arithmetic_mode_for_expr(expr_id)
    }

    /// Record the folded constant of an expression.
    pub fn record_constant_integer_value(&mut self, expr_id: usize, value: i128)
        ensures
            final(self).constants() == old(self).constants().insert(expr_id, value),
            final(self).modes() == old(self).modes(),
            final(self).wf() == old(self).wf(),
    {
        self.metadata.record_constant_integer_value(expr_id, value);
    }

    /// The folded constant recorded for an expression.
    pub fn constant_integer_for_expr(&self, expr_id: usize) -> (r: Option<i128>)
        ensures
            r == (if self.constants().contains_key(expr_id) { Some(self.constants()[expr_id]) } else { None }),
    {
        self.metadata.constant_integer_for_expr(expr_id)
    }

    /// Forget the folded constant of an expression.
    pub fn clear_constant_integer_value(&mut self, expr_id: usize)
        ensures
            final(self).constants() == old(self).constants().remove(expr_id),
            final(self).modes() == old(self).modes(),
            final(self).wf() == old(self).wf(),
    {
        self.metadata.clear_constant_integer_value(expr_id);
    }

    /// Forget all per-expression metadata.
    pub fn clear_expression_metadata(&mut self)
        ensures
            final(self).modes() == Map::<usize, ArithmeticMode>::empty(),
            final(self).constants() == Map::<usize, i128>::empty(),
            final(self).wf() == old(self).wf(),
    {
        self.metadata = ExprMetadata::new();
    }

    /// Register a symbol under its name, replacing any symbol of that name.
    pub fn register_symbol(&mut self, symbol: SymbolInfo)
        requires
            old(self).wf(),
        ensures
            final(self).wf(),
            final(self).symbols() == old(self).symbols().insert(symbol.name@, symbol_model(symbol)),
            final(self).types() == old(self).types(),
    {
        let ghost before = self.symbol_table@;
        let ghost m = symbol_model(symbol);
        let name = symbol.name.clone();
        self.symbol_table.insert(name, symbol);
        proof {
            assert(symbol_models(self.symbol_table@) =~= symbol_models(before).insert(m.name, m));
        }
    }

    /// Add a constraint for inference.
    pub fn add_constraint(&mut self, constraint: TypeConstraint)
        ensures
            final(self).pending() == old(self).pending().push(constraint),
            final(self).wf() == old(self).wf(),
    {
        self.constraints.push(constraint);
    }

    /// The pending constraints.
    pub fn constraints(&self) -> (r: &[TypeConstraint])
        ensures
            r@ == self.pending(),
    {
        self.constraints.as_slice()
    }

    /// Drop the pending constraints.
    pub fn clear_constraints(&mut self)
        ensures
            final(self).pending() == Seq::<TypeConstraint>::empty(),
            final(self).wf() == old(self).wf(),
    {
        self.constraints.clear();
    }

    /// Solve the pending constraints, in order; they are all taken, whatever the outcome.
    pub fn solve_constraints(&mut self) -> (r: Result<Substitution, TypeError>)
        ensures
            final(self).pending().len() == 0,
            final(self).wf() == old(self).wf(),
            r matches Ok(s) ==> equalities_hold(s@, old(self).pending(), old(self).pending().len() as int),
            r matches Ok(s) ==> crate::constraints::calls_hold(s@, old(self).pending(), old(self).pending().len() as int),
            r is Ok ==> forall|j: int| 0 <= j < old(self).pending().len() ==> !(#[trigger] old(self).pending()[j] is HasField),
            old(self).pending().len() == 0 ==> (r matches Ok(s) && s@ == Map::<nat, TypeModel>::empty()),
            old(self).pending().len() > 0 && old(self).pending()[0] is HasField ==> (r matches Err(e) && is_has_field_error(
                e,
                old(self).pending()[0],
            )),
            r matches Err(e) ==> is_solving_error(e),
    {
        solve_constraints(&mut self.constraints)
    }

    /// A fresh type variable named `name`; the counter overflowing is reported at `span`.
    pub fn fresh_type_var(&mut self, name: String, span: Span) -> (r: Result<CoreType, TypeError>)
        ensures
            final(self).wf() == old(self).wf(),
            final(self).pending() == old(self).pending(),
            old(self).next_var() < usize::MAX ==> (r matches Ok(t) && model_of(t) == (TypeModel::Variable {
                id: old(self).next_var() as nat,
                name: name@,
            }) && final(self).next_var() == old(self).next_var() + 1),
            old(self).next_var() == usize::MAX ==> (r matches Err(TypeError::ConstraintSolvingFailed { reason, span: s })
                && reason@ == "type variable counter overflow"@ && s == diagnostic_span_of(span)),
    {
        let var = TypeVar::new(self.next_var_id, name);
        if self.next_var_id == usize::MAX {
            return Err(
                TypeError::ConstraintSolvingFailed {
                    reason: owned("type variable counter overflow"),
                    span: TypeError::span_from_span(span),
                },
            );
        }
        self.next_var_id = self.next_var_id + 1;
        Ok(CoreType::Variable(var))
    }

    /// Type a binary expression whose operands have the given types, recording the
    /// expression's arithmetic mode and folded constant.
    pub fn type_check_binary_expr(
        &mut self,
        left: &Expr,
        operator: &BinaryOp,
        right: &Expr,
        span: Span,
        expr_id: usize,
        left_type: &CoreType,
        right_type: &CoreType,
    ) -> (r: Result<BinaryTyping, TypeError>)
        ensures
            final(self).wf() == old(self).wf(),
            binary_metadata_recorded(
                old(self).modes(),
                old(self).constants(),
                final(self).modes(),
                final(self).constants(),
                expr_id,
                *operator,
                *left,
                *right,
            ),
            realizes(
                r,
                binary_verdict(*operator, *left, *right, model_of(*left_type), model_of(*right_type), span),
                *operator,
                *left,
                *right,
                span,
            ),
    {
        crate::operators::type_check_binary_expr(&mut self.metadata, expr_id, left, operator, right, span, left_type, right_type)
    }

    /// Unify two types; see `unification::unify`.
    pub fn unify(&self, left: &CoreType, right: &CoreType, left_span: Option<Span>, right_span: Option<Span>) -> (r: Result<
        Substitution,
        TypeError,
    >)
        ensures
            r matches Ok(s) ==> compatible(apply(s@, model_of(*left)), apply(s@, model_of(*right))),
            compatible(model_of(*left), model_of(*right)) ==> (r matches Ok(s) && s@ == Map::<nat, TypeModel>::empty()),
            !compatible(model_of(*left), model_of(*right)) ==> crate::unification::unify_step(
                r,
                model_of(*left),
                model_of(*right),
                left_span,
                right_span,
            ),
            r matches Err(e) ==> crate::unification::is_unification_error(e),
            forall|sigma: crate::substitution::SubstModel|
                #[trigger] crate::unifiers::unifies(sigma, model_of(*left), model_of(*right)) && crate::unifiers::depth(
                    apply(sigma, model_of(*left)),
                ) < u64::MAX ==> (r is Ok && crate::unifiers::absorbs(sigma, r->Ok_0@)),
    {
        crate::unification::unify(left, right, left_span, right_span)
    }

    /// Validate that the program has exactly one entry function; see
    /// `declarations::validate_entry_points`.
    pub fn validate_entry_points(program: &Program) -> (r: Result<(), TypeError>)
        ensures
            r == crate::declarations::entry_points_result(*program),
    {
        crate::declarations::validate_entry_points(program)
    }
}

} // verus!
