//! Whole-program checks on top-level declarations.

use vstd::prelude::*;
use crate::ast::{Decl, Program};
use crate::errors::{diagnostic_span_of, DiagnosticSpan, TypeError};
use crate::token::Span;

verus! {

/// The spans of the `entry` functions among `ds`, in order.
pub open spec fn entry_spans(ds: Seq<Decl>) -> Seq<Span>
    decreases ds.len(),
{
    if ds.len() == 0 {
        Seq::empty()
    } else {
        let before = entry_spans(ds.drop_last());
        match ds.last() {
            Decl::Function { is_entry, span, .. } => if is_entry {
                before.push(span)
            } else {
                before
            },
            _ => before,
        }
    }
}

/// Number of `entry` functions the program declares.
pub open spec fn entry_count(program: Program) -> nat {
    entry_spans(program.declarations@).len()
}

/// What entry-point validation gives for a program.
pub open spec fn entry_points_result(program: Program) -> Result<(), TypeError> {
    let n = entry_count(program);
    if n == 0 {
        Err(TypeError::MissingEntryPoint { span: DiagnosticSpan { offset: 0, length: 0 } })
    } else if n > 1 {
        Err(
            TypeError::DuplicateEntryPoint {
                count: n as usize,
                span: diagnostic_span_of(entry_spans(program.declarations@)[0]),
            },
        )
    } else {
        Ok(())
    }
}

/// Validate that the program contains exactly one `entry` function: none is reported
/// without a location, several at the first of them, with their number.
pub fn validate_entry_points(program: &Program) -> (r: Result<(), TypeError>)
    ensures
        r == entry_points_result(*program),
        r is Ok <==> entry_count(*program) == 1,
        entry_count(*program) == 0 ==> r == Err::<(), TypeError>(
            TypeError::MissingEntryPoint { span: DiagnosticSpan { offset: 0, length: 0 } },
        ),
        entry_count(*program) > 1 ==> r == Err::<(), TypeError>(
            TypeError::DuplicateEntryPoint {
                count: entry_count(*program) as usize,
                span: diagnostic_span_of(entry_spans(program.declarations@)[0]),
            },
        ),
{
    let ds = &program.declarations;
    let mut spans: Vec<Span> = Vec::new();
    let mut i: usize = 0;
    while i < ds.len()
        invariant
            i <= ds@.len(),
            spans@ == entry_spans(ds@.take(i as int)),
        decreases ds@.len() - i,
    {
        proof {
            assert(ds@.take(i + 1).drop_last() =~= ds@.take(i as int));
        }
        if let Decl::Function { is_entry, span, .. } = &ds[i] {
            if *is_entry {
                spans.push(*span);
            }
        }
        i = i + 1;
    }
    proof {
        assert(ds@.take(i as int) =~= ds@);
    }
    if spans.len() == 0 {
        return Err(TypeError::MissingEntryPoint { span: TypeError::unknown_span() });
    }
    if spans.len() > 1 {
        return Err(TypeError::DuplicateEntryPoint { count: spans.len(), span: TypeError::span_from_span(spans[0]) });
    }
    Ok(())
}

} // verus!
