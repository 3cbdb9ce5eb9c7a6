//! Per-expression metadata recorded while typing: the arithmetic overflow mode of an
//! operator and the folded value of a constant integer expression, keyed by expression id.

use vstd::prelude::*;
use std::collections::BTreeMap;
use crate::arithmetic::{
    constant_value, fold_integer_binary_expr, fold_values, is_default_mode_operator, mode_for_binary_operator, opt_int,
    ArithmeticMode,
};
use crate::ast::{BinaryOp, Expr};

verus! {

broadcast use {vstd::std_specs::btree::group_btree_axioms, vstd::laws_cmp::group_laws_cmp};

/// Arithmetic modes and folded constants of typed expressions.
#[derive(Debug)]
pub struct ExprMetadata {
    arithmetic_modes: BTreeMap<usize, ArithmeticMode>,
    constant_integer_values: BTreeMap<usize, i128>,
}

impl ExprMetadata {
    /// Arithmetic mode recorded for each expression id.
    pub closed spec fn modes(&self) -> Map<usize, ArithmeticMode> {
        self.arithmetic_modes@
    }

    /// Folded constant recorded for each expression id.
    pub closed spec fn constants(&self) -> Map<usize, i128> {
        self.constant_integer_values@
    }

    /// No metadata recorded.
    pub fn new() -> (r: Self)
        ensures
            r.modes() == Map::<usize, ArithmeticMode>::empty(),
            r.constants() == Map::<usize, i128>::empty(),
    {
        ExprMetadata { arithmetic_modes: BTreeMap::new(), constant_integer_values: BTreeMap::new() }
    }

    /// Record the arithmetic mode of an expression.
    pub fn record_arithmetic_mode(&mut self, expr_id: usize, mode: ArithmeticMode)
        ensures
            final(self).modes() == old(self).modes().insert(expr_id, mode),
            final(self).constants() == old(self).constants(),
    {
        self.arithmetic_modes.insert(expr_id, mode);
    }

    /// The arithmetic mode recorded for an expression.
    pub fn arithmetic_mode_for_expr(&self, expr_id: usize) -> (r: Option<ArithmeticMode>)
        ensures
            r == (if self.modes().contains_key(expr_id) { Some(self.modes()[expr_id]) } else { None }),
    {
        match self.arithmetic_modes.get(&expr_id) {
            Some(m) => Some(*m),
            None => None,
        }
    }

    /// Record the folded constant of an expression.
    pub fn record_constant_integer_value(&mut self, expr_id: usize, value: i128)
        ensures
            final(self).constants() == old(self).constants().insert(expr_id, value),
            final(self).modes() == old(self).modes(),
    {
        self.constant_integer_values.insert(expr_id, value);
    }

    /// The folded constant recorded for an expression.
    pub fn constant_integer_for_expr(&self, expr_id: usize) -> (r: Option<i128>)
        ensures
            r == (if self.constants().contains_key(expr_id) { Some(self.constants()[expr_id]) } else { None }),
    {
        match self.constant_integer_values.get(&expr_id) {
            Some(v) => Some(*v),
            None => None,
        }
    }

    /// Forget the folded constant of an expression.
    pub fn clear_constant_integer_value(&mut self, expr_id: usize)
        ensures
            final(self).constants() == old(self).constants().remove(expr_id),
            final(self).modes() == old(self).modes(),
    {
        let _ = self.constant_integer_values.remove(&expr_id);
        assert(self.constant_integer_values@ =~= old(self).constant_integer_values@.remove(expr_id));
    }
}

/// Metadata after a binary expression `left op right` with id `expr_id` is recorded: its
/// operator's arithmetic mode, where it has one, and its folded value, where both
/// operands are integer constants and the operation is defined on them.
pub open spec fn binary_metadata_recorded(
    before_modes: Map<usize, ArithmeticMode>,
    before_constants: Map<usize, i128>,
    after_modes: Map<usize, ArithmeticMode>,
    after_constants: Map<usize, i128>,
    expr_id: usize,
    op: BinaryOp,
    left: Expr,
    right: Expr,
) -> bool {
    &&& after_modes == (if is_default_mode_operator(op) {
        before_modes.insert(expr_id, ArithmeticMode::Default)
    } else {
        before_modes
    })
    &&& match (constant_value(left), constant_value(right)) {
        (Some(l), Some(r)) => match fold_values(op, l, r) {
            Some(v) => after_constants.dom() == before_constants.dom().insert(expr_id) && after_constants[expr_id] == v
                && forall|k: usize| k != expr_id && before_constants.dom().contains(k) ==> #[trigger] after_constants[k]
                == before_constants[k],
            None => after_constants == before_constants,
        },
        _ => after_constants == before_constants,
    }
}

/// Record the metadata of a binary expression before it is typed.
pub fn record_binary_expr_metadata(
    metadata: &mut ExprMetadata,
    expr_id: usize,
    operator: &BinaryOp,
    left: &Expr,
    right: &Expr,
)
    ensures
        binary_metadata_recorded(
            old(metadata).modes(),
            old(metadata).constants(),
            final(metadata).modes(),
            final(metadata).constants(),
            expr_id,
            *operator,
            *left,
            *right,
        ),
{
    match mode_for_binary_operator(operator) {
        Some(mode) => metadata.record_arithmetic_mode(expr_id, mode),
        None => {},
    }
    match fold_integer_binary_expr(operator, left, right) {
        Some(value) => metadata.record_constant_integer_value(expr_id, value),
        None => {},
    }
}

} // verus!
