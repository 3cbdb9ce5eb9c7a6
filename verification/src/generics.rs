//! Declared generic parameters of nominal types and the concrete instantiations met
//! while checking.

use vstd::prelude::*;
use crate::name_map::NameMap;
use crate::text::owned;
use crate::types::{lemma_models_of, model_of, models_of, types_equal, CoreType, GenericTypeParameter, TypeModel};

verus! {

/// Models of the recorded instantiations of one generic name.
pub open spec fn instantiation_models(v: Vec<Vec<CoreType>>) -> Seq<Seq<TypeModel>> {
    v@.map_values(|a: Vec<CoreType>| models_of(a@))
}

/// Generic parameters of nominal types, and the distinct instantiations recorded per name.
#[derive(Debug)]
pub struct GenericRegistry {
    adt_generic_params: NameMap<Vec<GenericTypeParameter>>,
    generic_instantiations: NameMap<Vec<Vec<CoreType>>>,
}

impl GenericRegistry {
    /// Declared generic parameters by owner name.
    pub closed spec fn adt_params(&self) -> Map<Seq<char>, Vec<GenericTypeParameter>> {
        self.adt_generic_params@
    }

    /// Recorded instantiations by generic name, in recording order.
    pub closed spec fn instantiations(&self) -> Map<Seq<char>, Seq<Seq<TypeModel>>> {
        self.generic_instantiations@.map_values(|v: Vec<Vec<CoreType>>| instantiation_models(v))
    }

    /// Well-formedness: ordered tables, and no instantiation is recorded twice for a name.
    pub closed spec fn wf(&self) -> bool {
        &&& self.adt_generic_params.wf()
        &&& self.generic_instantiations.wf()
        &&& forall|k: Seq<char>| #[trigger] self.generic_instantiations@.contains_key(k)
            ==> instantiation_models(self.generic_instantiations@[k]).no_duplicates()
    }

    /// No instantiation is recorded twice for one name.
    pub proof fn law_instantiations_are_distinct(&self)
        requires
            self.wf(),
        ensures
            forall|k: Seq<char>| #[trigger] self.instantiations().contains_key(k) ==> self.instantiations()[k].no_duplicates(),
    {
    }

    /// An empty registry.
    pub fn new() -> (r: Self)
        ensures
            r.wf(),
            r.adt_params() == Map::<Seq<char>, Vec<GenericTypeParameter>>::empty(),
            r.instantiations() == Map::<Seq<char>, Seq<Seq<TypeModel>>>::empty(),
    {
        let r = GenericRegistry { adt_generic_params: NameMap::new(), generic_instantiations: NameMap::new() };
        assert(r.instantiations() =~= Map::<Seq<char>, Seq<Seq<TypeModel>>>::empty());
        r
    }

    /// Register the declared generic parameters of a nominal type.
    pub fn register_adt_generic_params(&mut self, owner: String, params: Vec<GenericTypeParameter>)
        requires
            old(self).wf(),
        ensures
            final(self).wf(),
            final(self).adt_params() == old(self).adt_params().insert(owner@, params),
            final(self).instantiations() == old(self).instantiations(),
    {
        self.adt_generic_params.insert(owner, params);
    }

    /// The declared generic parameters of a nominal type.
    pub fn adt_generic_params_for(&self, owner: &str) -> (r: Option<&Vec<GenericTypeParameter>>)
        requires
            self.wf(),
        ensures
            r is Some <==> self.adt_params().contains_key(owner@),
            r matches Some(p) ==> *p == self.adt_params()[owner@],
    {
        self.adt_generic_params.get(owner)
    }

    /// Record one concrete instantiation of `name` unless an equal one is recorded.
    pub fn record_generic_instantiation(&mut self, name: &str, type_args: &[CoreType])
        requires
            old(self).wf(),
        ensures
            final(self).wf(),
            final(self).adt_params() == old(self).adt_params(),
            final(self).instantiations() == old(self).instantiations().insert(name@, {
                let recorded = if old(self).instantiations().contains_key(name@) {
                    old(self).instantiations()[name@]
                } else {
                    Seq::<Seq<TypeModel>>::empty()
                };
                if recorded.contains(models_of(type_args@)) {
                    recorded
                } else {
                    recorded.push(models_of(type_args@))
                }
            }),
    {
        let ghost before = self.generic_instantiations@;
        let mut args: Vec<CoreType> = Vec::new();
        let mut i: usize = 0;
        while i < type_args.len()
            invariant
                i <= type_args@.len(),
                args@.len() == i,
                forall|j: int| 0 <= j < i ==> model_of(#[trigger] args@[j]) == model_of(type_args@[j]),
            decreases type_args@.len() - i,
        {
            args.push(type_args[i].duplicate());
            i = i + 1;
        }
        proof {
            lemma_models_of(args@);
            lemma_models_of(type_args@);
            assert(models_of(args@) =~= models_of(type_args@));
        }
        let mut entry = match self.generic_instantiations.take(name) {
            Some(e) => e,
            None => Vec::new(),
        };
        let ghost recorded = instantiation_models(entry);
        proof {
            if before.contains_key(name@) {
                assert(old(self).instantiations()[name@] == recorded);
            } else {
                assert(recorded =~= Seq::<Seq<TypeModel>>::empty());
            }
        }
        let mut found = false;
        let mut k: usize = 0;
        while k < entry.len()
            invariant
                k <= entry@.len(),
                recorded == instantiation_models(entry),
                found == exists|j: int| 0 <= j < k && models_of(entry@[j]@) == models_of(args@),
            decreases entry@.len() - k,
        {
            if types_equal(&entry[k], &args) {
                found = true;
            }
            k = k + 1;
        }
        proof {
            if found {
                let j = choose|j: int| 0 <= j < k && models_of(entry@[j]@) == models_of(args@);
                assert(recorded[j] == models_of(type_args@));
            } else {
                assert forall|j: int| 0 <= j < recorded.len() implies recorded[j] != models_of(type_args@) by {
                    assert(recorded[j] == models_of(entry@[j]@));
                }
            }
        }
        if !found {
            entry.push(args);
        }
        let ghost expected = if found { recorded } else { recorded.push(models_of(type_args@)) };
        proof {
            assert(instantiation_models(entry) =~= expected);
        }
        self.generic_instantiations.insert(owned(name), entry);
        proof {
            assert(self.instantiations() =~= before.map_values(|v: Vec<Vec<CoreType>>| instantiation_models(v)).insert(
                name@,
                expected,
            ));
        }
    }

    /// The recorded instantiations, by generic name.
    pub fn generic_instantiations(&self) -> (r: &NameMap<Vec<Vec<CoreType>>>)
        ensures
            r@.map_values(|v: Vec<Vec<CoreType>>| instantiation_models(v)) == self.instantiations(),
    {
        &self.generic_instantiations
    }
}

} // verus!
