//! Declaration-only families of standard-library error leaf types.

use vstd::prelude::*;
use crate::environment::TypeEnvironment;
use crate::text::{owned, str_eq};
use crate::types::{lemma_models_of, model_of, models_of, CoreType, TypeModel};

verus! {

/// A named collection of stdlib error leaves available in an `errors` declaration.
#[derive(Debug)]
pub struct StdlibErrorFamily {
    /// Declaration-only family name.
    pub name: String,
    /// Ordered leaf names covered by the family.
    pub members: Vec<String>,
    /// Whether a complete leaf declaration may be shortened to this family.
    pub warning_eligible: bool,
    /// Lower ranks are preferred when warning selection has overlapping families.
    pub specificity_rank: usize,
}

/// Index of the first family named `name`, in taxonomy order.
pub open spec fn family_index(families: Seq<StdlibErrorFamily>, name: Seq<char>) -> Option<int>
    decreases families.len(),
{
    if families.len() == 0 {
        None
    } else {
        match family_index(families.drop_last(), name) {
            Some(i) => Some(i),
            None => if families.last().name@ == name { Some(families.len() - 1) } else { None },
        }
    }
}

/// `family_index` finds the least index with that name.
pub proof fn lemma_family_index(families: Seq<StdlibErrorFamily>, name: Seq<char>)
    ensures
        family_index(families, name) is None <==> forall|j: int| 0 <= j < families.len() ==> #[trigger] families[j].name@ != name,
        family_index(families, name) matches Some(i) ==> 0 <= i < families.len() && families[i].name@ == name
            && forall|j: int| 0 <= j < i ==> #[trigger] families[j].name@ != name,
    decreases families.len(),
{
    if families.len() > 0 {
        let t = families.drop_last();
        lemma_family_index(t, name);
        assert forall|j: int| 0 <= j < t.len() implies t[j] == families[j] by {}
    }
}

/// The nominal model of a stdlib error leaf or family.
pub open spec fn error_leaf_model(name: Seq<char>) -> TypeModel {
    TypeModel::Generic { name, type_args: Seq::empty() }
}

/// `emitted` is covered by `declared`: the same name, or a member of the first family
/// named `declared`.
pub open spec fn covered_by(families: Seq<StdlibErrorFamily>, emitted: Seq<char>, declared: Seq<char>) -> bool {
    emitted == declared || match family_index(families, declared) {
        Some(i) => exists|j: int| 0 <= j < families[i].members@.len() && #[trigger] families[i].members@[j]@ == emitted,
        None => false,
    }
}

/// Look up a declaration-only stdlib error family by name.
pub fn stdlib_error_family<'a>(families: &'a [StdlibErrorFamily], name: &str) -> (r: Option<&'a StdlibErrorFamily>)
    ensures
        r is None <==> family_index(families@, name@) is None,
        r matches Some(f) ==> *f == families@[family_index(families@, name@)->0],
{
    proof {
        lemma_family_index(families@, name@);
    }
    let mut i: usize = 0;
    while i < families.len()
        invariant
            i <= families@.len(),
            forall|j: int| 0 <= j < i ==> #[trigger] families@[j].name@ != name@,
        decreases families@.len() - i,
    {
        if str_eq(families[i].name.as_str(), name) {
            proof {
                lemma_family_index(families@, name@);
                let k = family_index(families@, name@)->0;
                if k < i {
                    assert(families@[k].name@ != name@);
                }
                if k > i {
                    assert(families@[i as int].name@ != name@);
                }
            }
            return Some(&families[i]);
        }
        i = i + 1;
    }
    None
}

/// Return whether an emitted leaf error is covered by a declared leaf or family.
pub fn error_type_is_covered_by_declared_type(families: &[StdlibErrorFamily], emitted_leaf: &str, declared_type: &str) -> (r: bool)
    ensures
        r == covered_by(families@, emitted_leaf@, declared_type@),
{
    if str_eq(emitted_leaf, declared_type) {
        return true;
    }
    match stdlib_error_family(families, declared_type) {
        Some(family) => {
            let mut j: usize = 0;
            while j < family.members.len()
                invariant
                    j <= family.members@.len(),
                    family_index(families@, declared_type@) is Some,
                    *family == families@[family_index(families@, declared_type@)->0],
                    forall|k: int| 0 <= k < j ==> #[trigger] family.members@[k]@ != emitted_leaf@,
                decreases family.members@.len() - j,
            {
                if str_eq(family.members[j].as_str(), emitted_leaf) {
                    proof {
                        let idx = family_index(families@, declared_type@)->0;
                        assert(families@[idx].members@[j as int]@ == emitted_leaf@);
                    }
                    return true;
                }
                j = j + 1;
            }
            false
        },
        None => false,
    }
}

/// Construct the payload-free nominal type used by every stdlib error leaf and family.
pub fn stdlib_error_core_type(name: &str) -> (r: CoreType)
    ensures
        model_of(r) == error_leaf_model(name@),
{
    let type_args: Vec<CoreType> = Vec::new();
    proof {
        lemma_models_of(type_args@);
        assert(models_of(type_args@) =~= Seq::<TypeModel>::empty());
    }
    CoreType::Generic { name: owned(name), type_args }
}

/// The names a family introduces: its own and its members'.
pub open spec fn family_names(f: StdlibErrorFamily) -> Set<Seq<char>> {
    f.members@.map_values(|m: String| m@).to_set().insert(f.name@)
}

/// The names all families introduce.
pub open spec fn all_family_names(families: Seq<StdlibErrorFamily>) -> Set<Seq<char>>
    decreases families.len(),
{
    if families.len() == 0 {
        Set::empty()
    } else {
        all_family_names(families.drop_last()).union(family_names(families.last()))
    }
}

/// Register every family name and every member name as its nominal type, without
/// changing any other registered type.
pub fn register_stdlib_error_family_types(environment: &mut TypeEnvironment, families: &[StdlibErrorFamily])
    requires
        old(environment).wf(),
    ensures
        final(environment).wf(),
        forall|k: Seq<char>| #[trigger] final(environment).types().contains_key(k) <==> (old(environment).types().contains_key(k)
            || all_family_names(families@).contains(k)),
        forall|k: Seq<char>| all_family_names(families@).contains(k) ==> #[trigger] final(environment).types()[k] == error_leaf_model(k),
        forall|k: Seq<char>| !all_family_names(families@).contains(k) ==> #[trigger] final(environment).types()[k] == old(environment).types()[k],
{
    let ghost base = environment.types();
    let mut i: usize = 0;
    while i < families.len()
        invariant
            i <= families@.len(),
            environment.wf(),
            forall|k: Seq<char>| #[trigger] environment.types().contains_key(k) <==> (base.contains_key(k)
                || all_family_names(families@.take(i as int)).contains(k)),
            forall|k: Seq<char>| all_family_names(families@.take(i as int)).contains(k) ==> #[trigger] environment.types()[k] == error_leaf_model(k),
            forall|k: Seq<char>| !all_family_names(families@.take(i as int)).contains(k) ==> #[trigger] environment.types()[k] == base[k],
        decreases families@.len() - i,
    {
        let family = &families[i];
        let ghost done = all_family_names(families@.take(i as int));
        let ghost mems = family.members@.map_values(|m: String| m@);
        proof {
            assert(families@.take(i + 1).drop_last() =~= families@.take(i as int));
            assert(families@.take(i + 1).last() == *family);
        }
        environment.register_type(owned(family.name.as_str()), stdlib_error_core_type(family.name.as_str()));
        let mut j: usize = 0;
        while j < family.members.len()
            invariant
                j <= family.members@.len(),
                environment.wf(),
                mems == family.members@.map_values(|m: String| m@),
                forall|k: Seq<char>| #[trigger] environment.types().contains_key(k) <==> (base.contains_key(k)
                    || done.contains(k) || k == family.name@ || mems.take(j as int).contains(k)),
                forall|k: Seq<char>| (done.contains(k) || k == family.name@ || mems.take(j as int).contains(k))
                    ==> #[trigger] environment.types()[k] == error_leaf_model(k),
                forall|k: Seq<char>| !(done.contains(k) || k == family.name@ || mems.take(j as int).contains(k))
                    ==> #[trigger] environment.types()[k] == base[k],
            decreases family.members@.len() - j,
        {
            let member = family.members[j].as_str();
            environment.register_type(owned(member), stdlib_error_core_type(member));
            proof {
                assert(mems[j as int] == member@);
                assert(mems.take(j + 1) =~= mems.take(j as int).push(member@));
                let before = mems.take(j as int);
                let after = mems.take(j + 1);
                assert forall|k: Seq<char>| after.contains(k) <==> (before.contains(k) || k == member@) by {
                    if after.contains(k) && k != member@ {
                        let t = choose|t: int| 0 <= t < after.len() && #[trigger] after[t] == k;
                        assert(before[t] == k);
                    }
                    if before.contains(k) {
                        let t = choose|t: int| 0 <= t < before.len() && #[trigger] before[t] == k;
                        assert(after[t] == k);
                    }
                    if k == member@ {
                        assert(after[j as int] == k);
                    }
                }
            }
            j = j + 1;
        }
        proof {
            assert(mems.take(family.members@.len() as int) =~= mems);
            assert(all_family_names(families@.take(i + 1)) =~= done.union(mems.to_set().insert(family.name@)));
        }
        i = i + 1;
    }
    proof {
        assert(families@.take(families@.len() as int) =~= families@);
    }
}

} // verus!
