//! Comparisons and renderings of the error types handled by guard expressions.

use vstd::prelude::*;
use crate::text::{contains, ends_with, has_infix, has_suffix, owned, str_eq};
use crate::type_rules::{compatible, types_compatible};
use crate::types::{display, display_list, lemma_models_of, model_of, models_of, CoreType};

verus! {

/// Display names of a list of types, in order.
pub open spec fn display_names(s: Seq<CoreType>) -> Seq<Seq<char>> {
    s.map_values(|t: CoreType| display(model_of(t)))
}

/// How many times `x` occurs in `s`.
pub open spec fn count_of(s: Seq<Seq<char>>, x: Seq<char>) -> nat
    decreases s.len(),
{
    if s.len() == 0 {
        0
    } else {
        count_of(s.drop_last(), x) + if s.last() == x {
            1nat
        } else {
            0nat
        }
    }
}

/// `x` occurs in `s` exactly when its count is positive.
pub proof fn lemma_count_positive(s: Seq<Seq<char>>, x: Seq<char>)
    ensures
        count_of(s, x) > 0 <==> s.contains(x),
    decreases s.len(),
{
    if s.len() > 0 {
        let t = s.drop_last();
        lemma_count_positive(t, x);
        if t.contains(x) {
            let i = choose|i: int| 0 <= i < t.len() && t[i] == x;
            assert(s[i] == x);
        }
        if s.contains(x) && s.last() != x {
            let i = choose|i: int| 0 <= i < s.len() && s[i] == x;
            assert(i != s.len() - 1);
            assert(t[i] == x);
        }
        if s.last() == x {
            assert(s[s.len() - 1] == x);
        }
    }
}

/// Two error-type lists hold the same display names the same number of times.
pub open spec fn same_error_names(left: Seq<CoreType>, right: Seq<CoreType>) -> bool {
    left.len() == right.len() && forall|x: Seq<char>| #[trigger] count_of(display_names(left), x) == count_of(
        display_names(right),
        x,
    )
}

/// How many times `name` occurs in `names`.
fn count_name(names: &Vec<String>, name: &str) -> (r: usize)
    ensures
        r == count_of(crate::text::names_of(names@), name@),
{
    let ghost q = crate::text::names_of(names@);
    let mut n: usize = 0;
    let mut i: usize = 0;
    while i < names.len()
        invariant
            i <= names@.len(),
            q == crate::text::names_of(names@),
            n == count_of(q.take(i as int), name@),
            n <= i,
        decreases names@.len() - i,
    {
        proof {
            assert(q.take(i + 1).drop_last() =~= q.take(i as int));
            assert(q.take(i + 1).last() == names@[i as int]@);
        }
        if str_eq(names[i].as_str(), name) {
            n = n + 1;
        }
        i = i + 1;
    }
    proof {
        assert(q.take(names@.len() as int) =~= q);
    }
    n
}

/// Display names of a list of types.
fn display_name_list(types: &[CoreType]) -> (r: Vec<String>)
    ensures
        crate::text::names_of(r@) == display_names(types@),
{
    let mut out: Vec<String> = Vec::new();
    let mut i: usize = 0;
    while i < types.len()
        invariant
            i <= types@.len(),
            out@.len() == i,
            forall|j: int| 0 <= j < i ==> #[trigger] out@[j]@ == display(model_of(types@[j])),
        decreases types@.len() - i,
    {
        out.push(types[i].display_name());
        i = i + 1;
    }
    assert(crate::text::names_of(out@) =~= display_names(types@));
    out
}

/// Determine whether two error type lists are equivalent irrespective of order: the
/// same display names, each the same number of times.
pub fn guard_error_type_sets_match(left: &[CoreType], right: &[CoreType]) -> (r: bool)
    ensures
        r == same_error_names(left@, right@),
{
    if left.len() != right.len() {
        return false;
    }
    let left_names = display_name_list(left);
    let right_names = display_name_list(right);
    let ghost dl = display_names(left@);
    let ghost dr = display_names(right@);
    let mut i: usize = 0;
    while i < left_names.len()
        invariant
            i <= left_names@.len(),
            dl == crate::text::names_of(left_names@),
            dr == crate::text::names_of(right_names@),
            dl == display_names(left@),
            dr == display_names(right@),
            forall|j: int| 0 <= j < i ==> count_of(dl, #[trigger] dl[j]) == count_of(dr, dl[j]),
        decreases left_names@.len() - i,
    {
        if count_name(&left_names, left_names[i].as_str()) != count_name(&right_names, left_names[i].as_str()) {
            assert(dl[i as int] == left_names@[i as int]@);
            assert(count_of(display_names(left@), dl[i as int]) != count_of(display_names(right@), dl[i as int]));
            return false;
        }
        i = i + 1;
    }
    let mut j: usize = 0;
    while j < right_names.len()
        invariant
            j <= right_names@.len(),
            dl == crate::text::names_of(left_names@),
            dr == crate::text::names_of(right_names@),
            dl == display_names(left@),
            dr == display_names(right@),
            forall|k: int| 0 <= k < dl.len() ==> count_of(dl, #[trigger] dl[k]) == count_of(dr, dl[k]),
            forall|k: int| 0 <= k < j ==> count_of(dl, #[trigger] dr[k]) == count_of(dr, dr[k]),
        decreases right_names@.len() - j,
    {
        if count_name(&left_names, right_names[j].as_str()) != count_name(&right_names, right_names[j].as_str()) {
            assert(dr[j as int] == right_names@[j as int]@);
            assert(count_of(display_names(left@), dr[j as int]) != count_of(display_names(right@), dr[j as int]));
            return false;
        }
        j = j + 1;
    }
    proof {
        assert forall|x: Seq<char>| #[trigger] count_of(dl, x) == count_of(dr, x) by {
            lemma_count_positive(dl, x);
            lemma_count_positive(dr, x);
            if dl.contains(x) {
                let k = choose|k: int| 0 <= k < dl.len() && dl[k] == x;
            } else if dr.contains(x) {
                let k = choose|k: int| 0 <= k < dr.len() && dr[k] == x;
            }
        }
    }
    true
}

/// Render a comma-separated list of error type names for diagnostics, or `<none>`.
pub fn format_error_type_list(error_types: &[CoreType]) -> (r: String)
    ensures
        error_types@.len() == 0 ==> r@ == "<none>"@,
        error_types@.len() > 0 ==> r@ == display_list(models_of(error_types@)),
{
    if error_types.len() == 0 {
        return owned("<none>");
    }
    proof {
        lemma_models_of(error_types@);
    }
    let mut out = String::new();
    let mut i: usize = 0;
    while i < error_types.len()
        invariant
            i <= error_types@.len(),
            models_of(error_types@).len() == error_types@.len(),
            forall|j: int| 0 <= j < error_types@.len() ==> #[trigger] models_of(error_types@)[j] == model_of(error_types@[j]),
            out@ == display_list(models_of(error_types@).take(i as int)),
        decreases error_types@.len() - i,
    {
        let piece = error_types[i].display_name();
        let ghost ms = models_of(error_types@);
        proof {
            assert(ms.take(i + 1).drop_last() =~= ms.take(i as int));
            assert(ms.take(i + 1).last() == model_of(error_types@[i as int]));
        }
        if i > 0 {
            out.append(", ");
        } else {
            assert(ms.take(1) =~= seq![ms[0]]);
        }
        out.append(piece.as_str());
        i = i + 1;
    }
    proof {
        assert(models_of(error_types@).take(error_types@.len() as int) =~= models_of(error_types@));
    }
    out
}

/// Every listed error type is compatible, both ways, with the first.
pub open spec fn homogeneous(s: Seq<CoreType>) -> bool {
    s.len() == 0 || forall|i: int| 0 <= i < s.len() ==> compatible(model_of(s[0]), model_of(#[trigger] s[i]))
        && compatible(model_of(s[i]), model_of(s[0]))
}

/// Whether every error type of a guard is compatible, both ways, with the first.
pub fn guard_error_types_are_homogeneous(error_types: &[CoreType]) -> (r: bool)
    ensures
        r == homogeneous(error_types@),
{
    if error_types.len() == 0 {
        return true;
    }
    let reference = &error_types[0];
    let mut i: usize = 0;
    while i < error_types.len()
        invariant
            0 < error_types@.len(),
            *reference == error_types@[0],
            i <= error_types@.len(),
            forall|j: int| 0 <= j < i ==> compatible(model_of(error_types@[0]), model_of(#[trigger] error_types@[j]))
                && compatible(model_of(error_types@[j]), model_of(error_types@[0])),
        decreases error_types@.len() - i,
    {
        if !(types_compatible(reference, &error_types[i]) && types_compatible(&error_types[i], reference)) {
            return false;
        }
        i = i + 1;
    }
    true
}

/// A nominal type name that reads as an error: ends in `Error` or has an `Error.` part.
pub open spec fn error_like_name(name: Seq<char>) -> bool {
    has_suffix(name, "Error"@) || has_infix(name, "Error."@)
}

/// The type can be retained as an error cause value: a guard error context, or a
/// payload-free error-like nominal type.
pub open spec fn can_be_error_value(t: CoreType) -> bool {
    match t {
        CoreType::Generic { name, type_args } => (name@ == "GuardErrorContext"@ || name@ == "Error"@ || error_like_name(name@))
            && (name@ == "GuardErrorContext"@ || type_args@.len() == 0),
        _ => false,
    }
}

/// Return whether a nominal type name is error-like enough for cause retention.
pub fn type_name_can_be_error_value(name: &str) -> (r: bool)
    ensures
        r == error_like_name(name@),
{
    ends_with(name, "Error") || contains(name, "Error.")
}

/// Return whether a core type can be used as an immutable error cause value.
pub fn core_type_can_be_error_value(core_type: &CoreType) -> (r: bool)
    ensures
        r == can_be_error_value(*core_type),
{
    match core_type {
        CoreType::Generic { name, type_args } => {
            let context = str_eq(name.as_str(), "GuardErrorContext");
            (context || str_eq(name.as_str(), "Error") || type_name_can_be_error_value(name.as_str())) && (context
                || type_args.len() == 0)
        },
        _ => false,
    }
}

/// The nominal name a constrained target type carries, where it has no type arguments.
pub open spec fn constrained_name(t: CoreType) -> Option<Seq<char>> {
    match t {
        CoreType::Generic { name, type_args } => if type_args@.len() == 0 {
            Some(name@)
        } else {
            None
        },
        _ => None,
    }
}

/// Extract a non-generic nominal type name from a constrain target.
pub fn constrained_type_name(target_core_type: &CoreType) -> (r: Option<&str>)
    ensures
        match constrained_name(*target_core_type) {
            Some(n) => r matches Some(s) && s@ == n,
            None => r is None,
        },
{
    match target_core_type {
        CoreType::Generic { name, type_args } => if type_args.len() == 0 {
            Some(name.as_str())
        } else {
            None
        },
        _ => None,
    }
}

/// How a constructor callee is named in diagnostics.
pub open spec fn constructor_label(callee: crate::ast::Expr) -> Seq<char> {
    match callee {
        crate::ast::Expr::Identifier { name, .. } => name@,
        crate::ast::Expr::Member { object, member, .. } => match *object {
            crate::ast::Expr::Identifier { name, .. } => name@ + "."@ + member@,
            _ => member@,
        },
        _ => "<constructor>"@,
    }
}

/// Render a human-readable constructor name for diagnostics.
pub fn constructor_display_name(callee: &crate::ast::Expr) -> (r: String)
    ensures
        r@ == constructor_label(*callee),
{
    match callee {
        crate::ast::Expr::Identifier { name, .. } => owned(name.as_str()),
        crate::ast::Expr::Member { object, member, .. } => match &**object {
            crate::ast::Expr::Identifier { name, .. } => {
                proof {
                    reveal_strlit(".");
                }
                crate::text::join3(name.as_str(), ".", member.as_str())
            },
            _ => owned(member.as_str()),
        },
        _ => {
            proof {
                reveal_strlit("<constructor>");
            }
            owned("<constructor>")
        },
    }
}

} // verus!
