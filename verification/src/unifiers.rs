//! Facts about unifiers: substitutions under which two types become compatible.

use vstd::prelude::*;
use crate::substitution::{apply, apply_list, compose, lemma_apply_compose, lemma_apply_list, SubstModel};
use crate::type_rules::{compatible, law_compatible_reflexive, law_compatible_symmetric, list_compatible};
use crate::types::TypeModel;
use crate::unification::{occurs, occurs_in_any};

verus! {

/// Nesting depth of a type: primitives and variables have depth zero, and a compound
/// type is one deeper than its deepest component (generic parameters aside).
pub open spec fn depth(m: TypeModel) -> nat
    decreases m,
{
    match m {
        TypeModel::Array(e) => 1 + depth(*e),
        TypeModel::Function { parameters, return_types, error_types, .. } => 1 + max3(
            list_depth(parameters),
            list_depth(return_types),
            list_depth(error_types),
        ),
        TypeModel::Generic { type_args, .. } => 1 + list_depth(type_args),
        _ => 0,
    }
}

/// The largest of three numbers.
pub open spec fn max3(a: nat, b: nat, c: nat) -> nat {
    let ab = if a >= b { a } else { b };
    if ab >= c { ab } else { c }
}

/// Depth of the deepest type of a list (zero for none).
pub open spec fn list_depth(s: Seq<TypeModel>) -> nat
    decreases s,
{
    if s.len() == 0 {
        0
    } else {
        let d = list_depth(s.drop_last());
        let e = depth(s.last());
        if d >= e { d } else { e }
    }
}

/// `σ` unifies `l` and `r`: under it they are compatible.
pub open spec fn unifies(sigma: SubstModel, l: TypeModel, r: TypeModel) -> bool {
    compatible(apply(sigma, l), apply(sigma, r))
}

/// `σ` agrees with the bindings of `θ`: each variable `θ` binds is given by `σ` a type
/// compatible with what `σ` makes of its binding. Then `σ` does what `θ` then `σ` does.
pub open spec fn absorbs(sigma: SubstModel, theta: SubstModel) -> bool {
    forall|k: nat, n: Seq<char>|
        theta.contains_key(k) ==> #[trigger] compatible(
            apply(sigma, theta[k]),
            apply(sigma, TypeModel::Variable { id: k, name: n }),
        )
}

/// Every type of a list is at most as deep as the list.
pub proof fn lemma_list_depth_bound(s: Seq<TypeModel>)
    ensures
        forall|i: int| 0 <= i < s.len() ==> #[trigger] depth(s[i]) <= list_depth(s),
    decreases s.len(),
{
    if s.len() > 0 {
        lemma_list_depth_bound(s.drop_last());
        assert forall|i: int| 0 <= i < s.len() implies #[trigger] depth(s[i]) <= list_depth(s) by {
            if i < s.len() - 1 {
                assert(s.drop_last()[i] == s[i]);
            }
        }
    }
}

/// List compatibility is compatibility position by position.
pub proof fn lemma_list_compatible_pointwise(xs: Seq<TypeModel>, ys: Seq<TypeModel>)
    ensures
        list_compatible(xs, ys) <==> (xs.len() == ys.len() && forall|i: int| 0 <= i < xs.len() ==> #[trigger] compatible(xs[i], ys[i])),
    decreases xs.len(),
{
    if xs.len() == ys.len() && xs.len() > 0 {
        let (xp, yp) = (xs.drop_last(), ys.drop_last());
        lemma_list_compatible_pointwise(xp, yp);
        if forall|i: int| 0 <= i < xs.len() ==> #[trigger] compatible(xs[i], ys[i]) {
            assert forall|i: int| 0 <= i < xp.len() implies #[trigger] compatible(xp[i], yp[i]) by {
                assert(xp[i] == xs[i] && yp[i] == ys[i]);
            }
            assert(compatible(xs[xs.len() - 1], ys[ys.len() - 1]));
        }
        if list_compatible(xs, ys) {
            assert forall|i: int| 0 <= i < xs.len() implies #[trigger] compatible(xs[i], ys[i]) by {
                if i < xs.len() - 1 {
                    assert(xp[i] == xs[i] && yp[i] == ys[i]);
                    assert(compatible(xp[i], yp[i]));
                }
            }
        }
    }
}

/// Compatibility is transitive.
pub proof fn law_compatible_transitive(a: TypeModel, b: TypeModel, c: TypeModel)
    requires
        compatible(a, b),
        compatible(b, c),
    ensures
        compatible(a, c),
    decreases a,
{
    match (a, b, c) {
        (TypeModel::Array(x), TypeModel::Array(y), TypeModel::Array(z)) => law_compatible_transitive(*x, *y, *z),
        (
            TypeModel::Function { parameters: p1, return_types: r1, error_types: e1, .. },
            TypeModel::Function { parameters: p2, return_types: r2, error_types: e2, .. },
            TypeModel::Function { parameters: p3, return_types: r3, error_types: e3, .. },
        ) => {
            lemma_list_compatible_transitive(p1, p2, p3);
            lemma_list_compatible_transitive(r1, r2, r3);
            lemma_list_compatible_transitive(e1, e2, e3);
        },
        (TypeModel::Generic { type_args: a1, .. }, TypeModel::Generic { type_args: a2, .. }, TypeModel::Generic {
            type_args: a3,
            ..
        }) => lemma_list_compatible_transitive(a1, a2, a3),
        _ => {},
    }
}

/// List compatibility is transitive.
proof fn lemma_list_compatible_transitive(s: Seq<TypeModel>, t: Seq<TypeModel>, u: Seq<TypeModel>)
    requires
        list_compatible(s, t),
        list_compatible(t, u),
    ensures
        list_compatible(s, u),
    decreases s,
{
    if s.len() > 0 {
        lemma_list_compatible_transitive(s.drop_last(), t.drop_last(), u.drop_last());
        law_compatible_transitive(s.last(), t.last(), u.last());
    }
}

/// Compatible types are equally deep.
pub proof fn lemma_compatible_depth(a: TypeModel, b: TypeModel)
    requires
        compatible(a, b),
    ensures
        depth(a) == depth(b),
    decreases a,
{
    match (a, b) {
        (TypeModel::Array(x), TypeModel::Array(y)) => lemma_compatible_depth(*x, *y),
        (
            TypeModel::Function { parameters: p1, return_types: r1, error_types: e1, .. },
            TypeModel::Function { parameters: p2, return_types: r2, error_types: e2, .. },
        ) => {
            lemma_list_compatible_depth(p1, p2);
            lemma_list_compatible_depth(r1, r2);
            lemma_list_compatible_depth(e1, e2);
        },
        (TypeModel::Generic { type_args: a1, .. }, TypeModel::Generic { type_args: a2, .. }) =>
            lemma_list_compatible_depth(a1, a2),
        _ => {},
    }
}

/// Compatible lists are equally deep.
proof fn lemma_list_compatible_depth(s: Seq<TypeModel>, t: Seq<TypeModel>)
    requires
        list_compatible(s, t),
    ensures
        list_depth(s) == list_depth(t),
    decreases s,
{
    if s.len() > 0 {
        lemma_list_compatible_depth(s.drop_last(), t.drop_last());
        lemma_compatible_depth(s.last(), t.last());
    }
}

/// What `σ` makes of a variable does not depend on the variable's name.
pub proof fn lemma_variable_names(sigma: SubstModel, k: nat, n1: Seq<char>, n2: Seq<char>)
    ensures
        compatible(apply(sigma, TypeModel::Variable { id: k, name: n1 }), apply(sigma, TypeModel::Variable { id: k, name: n2 })),
        depth(apply(sigma, TypeModel::Variable { id: k, name: n1 })) == depth(apply(sigma, TypeModel::Variable { id: k, name: n2 })),
{
    if sigma.contains_key(k) {
        law_compatible_reflexive(sigma[k]);
    }
}

/// If `σ` absorbs `θ`, then applying `θ` before `σ` changes nothing up to compatibility.
pub proof fn lemma_absorbs_apply(sigma: SubstModel, theta: SubstModel, m: TypeModel)
    requires
        absorbs(sigma, theta),
    ensures
        compatible(apply(sigma, apply(theta, m)), apply(sigma, m)),
    decreases m,
{
    match m {
        TypeModel::Variable { id, name } => {
            if theta.contains_key(id) {
                assert(compatible(apply(sigma, theta[id]), apply(sigma, TypeModel::Variable { id, name })));
            } else {
                law_compatible_reflexive(apply(sigma, m));
            }
        },
        TypeModel::Array(e) => lemma_absorbs_apply(sigma, theta, *e),
        TypeModel::Function { parameters, return_types, error_types, .. } => {
            lemma_absorbs_apply_list(sigma, theta, parameters);
            lemma_absorbs_apply_list(sigma, theta, return_types);
            lemma_absorbs_apply_list(sigma, theta, error_types);
        },
        TypeModel::Generic { type_args, .. } => lemma_absorbs_apply_list(sigma, theta, type_args),
        _ => law_compatible_reflexive(m),
    }
}

/// List version of `lemma_absorbs_apply`.
pub proof fn lemma_absorbs_apply_list(sigma: SubstModel, theta: SubstModel, ms: Seq<TypeModel>)
    requires
        absorbs(sigma, theta),
    ensures
        list_compatible(apply_list(sigma, apply_list(theta, ms)), apply_list(sigma, ms)),
    decreases ms,
{
    lemma_apply_list(theta, ms);
    lemma_apply_list(sigma, apply_list(theta, ms));
    lemma_apply_list(sigma, ms);
    let (a, b) = (apply_list(sigma, apply_list(theta, ms)), apply_list(sigma, ms));
    assert forall|i: int| 0 <= i < a.len() implies #[trigger] compatible(a[i], b[i]) by {
        lemma_absorbs_apply(sigma, theta, ms[i]);
    }
    lemma_list_compatible_pointwise(a, b);
}

/// A unifier that absorbs two substitutions absorbs their composition.
pub proof fn lemma_absorbs_compose(sigma: SubstModel, theta: SubstModel, t: SubstModel)
    requires
        absorbs(sigma, theta),
        absorbs(sigma, t),
    ensures
        absorbs(sigma, compose(theta, t)),
{
    assert forall|k: nat, n: Seq<char>| compose(theta, t).contains_key(k) implies #[trigger] compatible(
        apply(sigma, compose(theta, t)[k]),
        apply(sigma, TypeModel::Variable { id: k, name: n }),
    ) by {
        if theta.contains_key(k) {
            lemma_absorbs_apply(sigma, t, theta[k]);
            assert(compatible(apply(sigma, theta[k]), apply(sigma, TypeModel::Variable { id: k, name: n })));
            law_compatible_transitive(
                apply(sigma, apply(t, theta[k])),
                apply(sigma, theta[k]),
                apply(sigma, TypeModel::Variable { id: k, name: n }),
            );
        } else {
            assert(compatible(apply(sigma, t[k]), apply(sigma, TypeModel::Variable { id: k, name: n })));
        }
    }
}

/// A type in which a variable occurs is at least as deep, once substituted, as the
/// variable is; strictly deeper when the type is not itself a variable.
pub proof fn lemma_occurs_depth(sigma: SubstModel, v: nat, n: Seq<char>, m: TypeModel)
    requires
        occurs(v, m),
    ensures
        depth(apply(sigma, m)) >= depth(apply(sigma, TypeModel::Variable { id: v, name: n })),
        !(m is Variable) ==> depth(apply(sigma, m)) > depth(apply(sigma, TypeModel::Variable { id: v, name: n })),
    decreases m,
{
    match m {
        TypeModel::Variable { id, name } => lemma_variable_names(sigma, v, name, n),
        TypeModel::Array(e) => lemma_occurs_depth(sigma, v, n, *e),
        TypeModel::Function { parameters, return_types, error_types, .. } => {
            if occurs_in_any(v, return_types) {
                lemma_occurs_list_depth(sigma, v, n, return_types);
            } else if occurs_in_any(v, parameters) {
                lemma_occurs_list_depth(sigma, v, n, parameters);
            } else {
                lemma_occurs_list_depth(sigma, v, n, error_types);
            }
        },
        TypeModel::Generic { type_args, .. } => lemma_occurs_list_depth(sigma, v, n, type_args),
        _ => {},
    }
}

/// List version of `lemma_occurs_depth`.
proof fn lemma_occurs_list_depth(sigma: SubstModel, v: nat, n: Seq<char>, s: Seq<TypeModel>)
    requires
        occurs_in_any(v, s),
    ensures
        list_depth(apply_list(sigma, s)) >= depth(apply(sigma, TypeModel::Variable { id: v, name: n })),
    decreases s,
{
    let a = apply_list(sigma, s);
    assert(a.drop_last() == apply_list(sigma, s.drop_last()));
    if occurs_in_any(v, s.drop_last()) {
        lemma_occurs_list_depth(sigma, v, n, s.drop_last());
    } else {
        lemma_occurs_depth(sigma, v, n, s.last());
    }
}


/// `σ` unifies `xs[i]` with `ys[i]` for every position, each of its results being less
/// deep than `bound`.
pub open spec fn unifies_all(sigma: SubstModel, xs: Seq<TypeModel>, ys: Seq<TypeModel>, bound: int) -> bool {
    xs.len() == ys.len() && forall|i: int|
        0 <= i < xs.len() ==> #[trigger] unifies(sigma, xs[i], ys[i]) && depth(apply(sigma, xs[i])) < bound
}

/// A unifier of two lists of the same length unifies them position by position, each
/// result less deep than the list.
pub proof fn lemma_unifies_lists(sigma: SubstModel, xs: Seq<TypeModel>, ys: Seq<TypeModel>, bound: int)
    requires
        list_compatible(apply_list(sigma, xs), apply_list(sigma, ys)),
        list_depth(apply_list(sigma, xs)) < bound,
    ensures
        unifies_all(sigma, xs, ys, bound),
{
    lemma_apply_list(sigma, xs);
    lemma_apply_list(sigma, ys);
    lemma_list_compatible_pointwise(apply_list(sigma, xs), apply_list(sigma, ys));
    lemma_list_depth_bound(apply_list(sigma, xs));
    assert forall|i: int| 0 <= i < xs.len() implies #[trigger] unifies(sigma, xs[i], ys[i]) && depth(apply(sigma, xs[i])) < bound by {
        assert(apply_list(sigma, xs)[i] == apply(sigma, xs[i]));
        assert(apply_list(sigma, ys)[i] == apply(sigma, ys[i]));
    }
}

/// Lists of different lengths have no unifier.
pub proof fn lemma_lengths_differ(sigma: SubstModel, xs: Seq<TypeModel>, ys: Seq<TypeModel>)
    requires
        xs.len() != ys.len(),
    ensures
        !list_compatible(apply_list(sigma, xs), apply_list(sigma, ys)),
{
    lemma_apply_list(sigma, xs);
    lemma_apply_list(sigma, ys);
}

/// A unifier of a variable and a type binds the variable consistently with that type,
/// and the type cannot strictly contain the variable.
pub proof fn lemma_variable_unifier(sigma: SubstModel, v: nat, name: Seq<char>, other: TypeModel)
    requires
        compatible(apply(sigma, TypeModel::Variable { id: v, name }), apply(sigma, other)),
    ensures
        absorbs(sigma, Map::<nat, TypeModel>::empty().insert(v, other)),
        occurs(v, other) ==> other is Variable,
{
    let theta = Map::<nat, TypeModel>::empty().insert(v, other);
    law_compatible_symmetric(apply(sigma, TypeModel::Variable { id: v, name }), apply(sigma, other));
    assert forall|k: nat, n: Seq<char>| theta.contains_key(k) implies #[trigger] compatible(
        apply(sigma, theta[k]),
        apply(sigma, TypeModel::Variable { id: k, name: n }),
    ) by {
        lemma_variable_names(sigma, v, name, n);
        law_compatible_transitive(
            apply(sigma, other),
            apply(sigma, TypeModel::Variable { id: v, name }),
            apply(sigma, TypeModel::Variable { id: v, name: n }),
        );
    }
    if occurs(v, other) && !(other is Variable) {
        lemma_occurs_depth(sigma, v, name, other);
        lemma_compatible_depth(apply(sigma, TypeModel::Variable { id: v, name }), apply(sigma, other));
    }
}


/// A unifier that absorbs `c` still unifies a pair once `c` is applied to it, at the same
/// depth.
pub proof fn lemma_unifier_after(sigma: SubstModel, c: SubstModel, x: TypeModel, y: TypeModel, bound: int)
    requires
        absorbs(sigma, c),
        unifies(sigma, x, y),
        depth(apply(sigma, x)) < bound,
    ensures
        unifies(sigma, apply(c, x), apply(c, y)),
        depth(apply(sigma, apply(c, x))) < bound,
{
    lemma_absorbs_apply(sigma, c, x);
    lemma_absorbs_apply(sigma, c, y);
    law_compatible_symmetric(apply(sigma, apply(c, y)), apply(sigma, y));
    law_compatible_transitive(apply(sigma, apply(c, x)), apply(sigma, x), apply(sigma, y));
    law_compatible_transitive(apply(sigma, apply(c, x)), apply(sigma, y), apply(sigma, apply(c, y)));
    lemma_compatible_depth(apply(sigma, apply(c, x)), apply(sigma, x));
}

} // verus!
