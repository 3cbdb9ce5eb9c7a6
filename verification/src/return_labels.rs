//! Return-shape tracking: the return statements of one function or lambda body all
//! carry the same labels, in the same order, or none.

use vstd::prelude::*;
use crate::errors::{diagnostic_span_of, TypeError};
use crate::name_map::NameMap;
use crate::text::{comma, join3, join_names_slice, joined, names_equal, names_of, owned};
use crate::token::Span;

verus! {

/// Labeling mode tracked for the return statements of one body.
#[derive(Debug)]
pub enum ReturnLabelMode {
    /// No return statement has been checked yet.
    Unknown,
    /// Return statements are unlabeled.
    Unlabeled,
    /// Return statements use this ordered label list.
    Labeled(Vec<String>),
}

/// The label shape a mode stands for.
pub ghost enum LabelShape {
    Unknown,
    Unlabeled,
    Labeled(Seq<Seq<char>>),
}

/// The shape of a mode.
pub open spec fn shape_of(m: ReturnLabelMode) -> LabelShape {
    match m {
        ReturnLabelMode::Unknown => LabelShape::Unknown,
        ReturnLabelMode::Unlabeled => LabelShape::Unlabeled,
        ReturnLabelMode::Labeled(v) => LabelShape::Labeled(names_of(v@)),
    }
}

/// How a label list is shown in diagnostics.
pub open spec fn rendered_labels(labels: Seq<Seq<char>>) -> Seq<char> {
    if labels.len() == 0 {
        "unlabeled return"@
    } else {
        joined(labels, comma())
    }
}

/// Label `j` repeats an earlier label.
pub open spec fn repeats_label(labels: Seq<Seq<char>>, j: int) -> bool {
    exists|k: int| 0 <= k < j && #[trigger] labels[k] == labels[j]
}

/// Position of the first label that repeats an earlier one.
pub open spec fn first_repeated_label(labels: Seq<Seq<char>>) -> Option<int> {
    if exists|j: int| 0 <= j < labels.len() && repeats_label(labels, j) {
        Some(choose|j: int| 0 <= j < labels.len() && repeats_label(labels, j) && forall|k: int| 0 <= k < j ==> !repeats_label(labels, k))
    } else {
        None
    }
}

/// Checking a return with `labels` in a body of shape `shape`: the body's shape
/// afterwards, and the mismatch (expected, found) when the return does not fit.
pub open spec fn label_outcome(shape: LabelShape, labels: Seq<Seq<char>>) -> (LabelShape, Option<(Seq<char>, Seq<char>)>) {
    if labels.len() == 0 {
        match shape {
            LabelShape::Labeled(expected) => (shape, Some((rendered_labels(expected), "unlabeled return"@))),
            _ => (LabelShape::Unlabeled, None),
        }
    } else if first_repeated_label(labels) is Some {
        (shape, Some(("unique labels"@, "duplicate label '"@ + labels[first_repeated_label(labels)->0] + "'"@)))
    } else {
        match shape {
            LabelShape::Unknown => (LabelShape::Labeled(labels), None),
            LabelShape::Unlabeled => (shape, Some(("unlabeled return"@, rendered_labels(labels)))),
            LabelShape::Labeled(expected) => if expected == labels {
                (shape, None)
            } else {
                (shape, Some((rendered_labels(expected), rendered_labels(labels))))
            },
        }
    }
}

/// A return that fits a body fixes its shape: the same return fits again and changes
/// nothing more.
pub proof fn law_accepted_return_fits_again(shape: LabelShape, labels: Seq<Seq<char>>)
    requires
        label_outcome(shape, labels).1 is None,
    ensures
        label_outcome(label_outcome(shape, labels).0, labels) == (label_outcome(shape, labels).0, None::<(Seq<char>, Seq<char>)>),
{
}

/// Once a body's returns are labeled, a return fits exactly when it carries the same
/// labels in the same order.
pub proof fn law_labeled_body_accepts_only_its_labels(expected: Seq<Seq<char>>, labels: Seq<Seq<char>>)
    requires
        expected.len() > 0,
        first_repeated_label(expected) is None,
    ensures
        label_outcome(LabelShape::Labeled(expected), labels).1 is None <==> labels == expected,
{
    if labels == expected {
        assert(first_repeated_label(labels) is None);
    }
}

/// Render ordered return labels for diagnostics.
pub fn render_return_labels(labels: &[String]) -> (r: String)
    ensures
        r@ == rendered_labels(names_of(labels@)),
{
    if labels.len() == 0 {
        return owned("unlabeled return");
    }
    proof {
        reveal_strlit(", ");
        assert(", "@ =~= comma());
    }
    join_names_slice(labels, ", ")
}

/// Position of the first label that repeats an earlier one.
fn find_repeated_label(labels: &[String]) -> (r: Option<usize>)
    ensures
        r is None <==> first_repeated_label(names_of(labels@)) is None,
        r matches Some(j) ==> j < labels@.len() && first_repeated_label(names_of(labels@)) == Some(j as int),
{
    let ghost q = names_of(labels@);
    let mut seen: NameMap<()> = NameMap::new();
    let mut j: usize = 0;
    while j < labels.len()
        invariant
            j <= labels@.len(),
            q == names_of(labels@),
            seen.wf(),
            forall|k: Seq<char>| #[trigger] seen@.contains_key(k) <==> exists|a: int| 0 <= a < j && q[a] == k,
            forall|b: int| 0 <= b < j ==> !repeats_label(q, b),
        decreases labels@.len() - j,
    {
        proof {
            assert(q[j as int] == labels@[j as int]@);
        }
        if seen.contains_key(labels[j].as_str()) {
            proof {
                assert(repeats_label(q, j as int));
                let c = choose|c: int| 0 <= c < q.len() && repeats_label(q, c) && forall|d: int| 0 <= d < c ==> !repeats_label(q, d);
                assert(c == j) by {
                    if c < j {
                        assert(!repeats_label(q, c));
                    }
                    if c > j {
                        assert(!repeats_label(q, j as int));
                    }
                }
            }
            return Some(j);
        }
        proof {
            assert forall|a: int| 0 <= a < j implies q[a] != q[j as int] by {
                assert(seen@.contains_key(q[a]));
            }
        }
        seen.insert(owned(labels[j].as_str()), ());
        proof {
            assert forall|k: Seq<char>| #[trigger] seen@.contains_key(k) <==> exists|a: int| 0 <= a < j + 1 && q[a] == k by {
                if k == q[j as int] {
                    assert(q[j as int] == k);
                }
            }
        }
        j = j + 1;
    }
    None
}

/// A copy of a label list.
fn copy_labels(labels: &[String]) -> (r: Vec<String>)
    ensures
        names_of(r@) == names_of(labels@),
{
    let mut out: Vec<String> = Vec::new();
    let mut i: usize = 0;
    while i < labels.len()
        invariant
            i <= labels@.len(),
            out@.len() == i,
            forall|j: int| 0 <= j < i ==> #[trigger] out@[j]@ == labels@[j]@,
        decreases labels@.len() - i,
    {
        out.push(owned(labels[i].as_str()));
        i = i + 1;
    }
    assert(names_of(out@) =~= names_of(labels@));
    out
}

/// Return-shape modes of the function and lambda bodies being checked, innermost last.
#[derive(Debug)]
pub struct ReturnContexts {
    return_label_modes: Vec<ReturnLabelMode>,
}

impl ReturnContexts {
    /// The shapes of the open bodies, innermost last.
    pub closed spec fn shapes(&self) -> Seq<LabelShape> {
        self.return_label_modes@.map_values(|m: ReturnLabelMode| shape_of(m))
    }

    /// No open body.
    pub fn new() -> (r: Self)
        ensures
            r.shapes() == Seq::<LabelShape>::empty(),
    {
        let r = ReturnContexts { return_label_modes: Vec::new() };
        assert(r.shapes() =~= Seq::<LabelShape>::empty());
        r
    }

    /// Start return-shape tracking for a function or lambda body.
    pub fn begin_return_context(&mut self)
        ensures
            final(self).shapes() == old(self).shapes().push(LabelShape::Unknown),
    {
        self.return_label_modes.push(ReturnLabelMode::Unknown);
        assert(self.shapes() =~= old(self).shapes().push(LabelShape::Unknown));
    }

    /// Finish return-shape tracking for the innermost body.
    pub fn end_return_context(&mut self)
        requires
            old(self).shapes().len() > 0,
        ensures
            final(self).shapes() == old(self).shapes().drop_last(),
    {
        let _ = self.return_label_modes.pop();
        assert(self.shapes() =~= old(self).shapes().drop_last());
    }

    /// Validate a return statement's labels against the innermost body's shape, fixing
    /// the shape at its first return. Outside any body every return fits.
    pub fn ensure_return_label_mode(&mut self, labels: &[String], span: Span) -> (r: Result<(), TypeError>)
        ensures
            old(self).shapes().len() == 0 ==> r is Ok && final(self).shapes() == old(self).shapes(),
            old(self).shapes().len() > 0 ==> ({
                let out = label_outcome(old(self).shapes().last(), names_of(labels@));
                &&& final(self).shapes() == old(self).shapes().update(old(self).shapes().len() - 1, out.0)
                &&& match out.1 {
                    None => r is Ok,
                    Some((expected, found)) => r matches Err(TypeError::ReturnLabelMismatch { expected: e, found: f, span: s })
                        && e@ == expected && f@ == found && s == diagnostic_span_of(span),
                }
            }),
    {
        let n = self.return_label_modes.len();
        if n == 0 {
            return Ok(());
        }
        let ghost q = names_of(labels@);
        let ghost before = self.shapes();
        proof {
            assert(before.last() == shape_of(self.return_label_modes@[n - 1]));
        }
        if labels.len() == 0 {
            let result = match &self.return_label_modes[n - 1] {
                ReturnLabelMode::Labeled(expected_labels) => Err(TypeError::ReturnLabelMismatch {
                    expected: render_return_labels(expected_labels.as_slice()),
                    found: owned("unlabeled return"),
                    span: TypeError::span_from_span(span),
                }),
                _ => Ok(()),
            };
            if result.is_ok() {
                self.return_label_modes.set(n - 1, ReturnLabelMode::Unlabeled);
                assert(self.shapes() =~= before.update(n - 1, LabelShape::Unlabeled));
            } else {
                assert(self.shapes() =~= before.update(n - 1, before.last()));
            }
            return result;
        }
        match find_repeated_label(labels) {
            Some(j) => {
                assert(self.shapes() =~= before.update(n - 1, before.last()));
                return Err(TypeError::ReturnLabelMismatch {
                    expected: owned("unique labels"),
                    found: join3("duplicate label '", labels[j].as_str(), "'"),
                    span: TypeError::span_from_span(span),
                });
            },
            None => {},
        }
        let result = match &self.return_label_modes[n - 1] {
            ReturnLabelMode::Unknown => Ok(()),
            ReturnLabelMode::Unlabeled => Err(TypeError::ReturnLabelMismatch {
                expected: owned("unlabeled return"),
                found: render_return_labels(labels),
                span: TypeError::span_from_span(span),
            }),
            ReturnLabelMode::Labeled(expected_labels) => {
                if names_equal(expected_labels.as_slice(), labels) {
                    Ok(())
                } else {
                    Err(TypeError::ReturnLabelMismatch {
                        expected: render_return_labels(expected_labels.as_slice()),
                        found: render_return_labels(labels),
                        span: TypeError::span_from_span(span),
                    })
                }
            },
        };
        let fresh = match &self.return_label_modes[n - 1] {
            ReturnLabelMode::Unknown => true,
            _ => false,
        };
        if fresh {
            self.return_label_modes.set(n - 1, ReturnLabelMode::Labeled(copy_labels(labels)));
            assert(self.shapes() =~= before.update(n - 1, LabelShape::Labeled(q)));
        } else {
            assert(self.shapes() =~= before.update(n - 1, before.last()));
        }
        result
    }
}

} // verus!
