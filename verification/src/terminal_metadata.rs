//! Constructor metadata of declared proposal types.

use vstd::prelude::*;
use crate::ast::DeclarationAnnotation;

verus! {

/// Value of the first constructor-visibility annotation.
pub open spec fn first_constructor_visibility(annotations: Seq<DeclarationAnnotation>) -> Option<Seq<char>>
    decreases annotations.len(),
{
    if annotations.len() == 0 {
        None
    } else {
        match annotations[0] {
            DeclarationAnnotation::ConstructorVisibility { value, .. } => Some(value@),
            _ => first_constructor_visibility(annotations.drop_first()),
        }
    }
}

/// Extract constructor visibility metadata from declaration annotations: the value of
/// the first constructor-visibility annotation.
pub fn constructor_visibility(annotations: &[DeclarationAnnotation]) -> (r: Option<String>)
    ensures
        r is None <==> first_constructor_visibility(annotations@) is None,
        r matches Some(v) ==> first_constructor_visibility(annotations@) == Some(v@),
{
    let mut i: usize = 0;
    assert(annotations@.skip(0) =~= annotations@);
    while i < annotations.len()
        invariant
            i <= annotations@.len(),
            first_constructor_visibility(annotations@) == first_constructor_visibility(annotations@.skip(i as int)),
        decreases annotations@.len() - i,
    {
        proof {
            assert(annotations@.skip(i as int).drop_first() =~= annotations@.skip(i + 1));
            assert(annotations@.skip(i as int)[0] == annotations@[i as int]);
        }
        match &annotations[i] {
            DeclarationAnnotation::ConstructorVisibility { value, .. } => {
                return Some(value.clone());
            },
            _ => {},
        }
        i = i + 1;
    }
    None
}

/// Reduce a variant-qualified constructor owner to its nominal type name: the part
/// before the first `.`, or the whole name when it has none.
pub fn constructor_type_name(owner_name: &str) -> (r: &str)
    ensures
        r@.len() <= owner_name@.len(),
        r@ == owner_name@.take(r@.len() as int),
        forall|i: int| 0 <= i < r@.len() ==> #[trigger] r@[i] != '.',
        r@.len() < owner_name@.len() ==> owner_name@[r@.len() as int] == '.',
{
    let n = owner_name.unicode_len();
    let mut i: usize = 0;
    while i < n
        invariant
            n == owner_name@.len(),
            i <= n,
            forall|j: int| 0 <= j < i ==> #[trigger] owner_name@[j] != '.',
        decreases n - i,
    {
        if owner_name.get_char(i) == '.' {
            let r = owner_name.substring_char(0, i);
            assert(r@ =~= owner_name@.take(i as int));
            return r;
        }
        i = i + 1;
    }
    assert(owner_name@.take(n as int) =~= owner_name@);
    owner_name
}

} // verus!
