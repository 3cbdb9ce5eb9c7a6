//! Substitutions of types for type variables: applying them and composing them.

use vstd::prelude::*;
use crate::type_rules::{compatible, law_compatible_reflexive, list_compatible};
use crate::types::{lemma_models_of, model_of, models_of, CoreType, TypeModel};

verus! {

/// A substitution's meaning: the type each bound variable id stands for.
pub type SubstModel = Map<nat, TypeModel>;

/// Apply a substitution once: each bound variable is replaced by its type; the result is
/// not substituted again.
pub open spec fn apply(s: SubstModel, m: TypeModel) -> TypeModel
    decreases m,
{
    match m {
        TypeModel::Variable { id, .. } => if s.contains_key(id) {
            s[id]
        } else {
            m
        },
        TypeModel::Array(e) => TypeModel::Array(Box::new(apply(s, *e))),
        TypeModel::Function { generic_params, parameters, return_types, error_types } => TypeModel::Function {
            generic_params,
            parameters: apply_list(s, parameters),
            return_types: apply_list(s, return_types),
            error_types: apply_list(s, error_types),
        },
        TypeModel::Generic { name, type_args } => TypeModel::Generic { name, type_args: apply_list(s, type_args) },
        _ => m,
    }
}

/// `apply` to each type of a list.
pub open spec fn apply_list(s: SubstModel, ms: Seq<TypeModel>) -> Seq<TypeModel>
    decreases ms,
{
    if ms.len() == 0 {
        Seq::empty()
    } else {
        apply_list(s, ms.drop_last()).push(apply(s, ms.last()))
    }
}

/// The substitution that applies `first`, then `second`.
pub open spec fn compose(first: SubstModel, second: SubstModel) -> SubstModel {
    Map::new(
        |k: nat| first.contains_key(k) || second.contains_key(k),
        |k: nat| if first.contains_key(k) {
            apply(second, first[k])
        } else {
            second[k]
        },
    )
}

/// Length and elements of an applied list.
pub proof fn lemma_apply_list(s: SubstModel, ms: Seq<TypeModel>)
    ensures
        apply_list(s, ms).len() == ms.len(),
        forall|i: int| 0 <= i < ms.len() ==> #[trigger] apply_list(s, ms)[i] == apply(s, ms[i]),
    decreases ms.len(),
{
    if ms.len() > 0 {
        lemma_apply_list(s, ms.drop_last());
    }
}

/// Applying a composition is applying its parts in turn.
pub proof fn lemma_apply_compose(first: SubstModel, second: SubstModel, m: TypeModel)
    ensures
        apply(compose(first, second), m) == apply(second, apply(first, m)),
    decreases m,
{
    match m {
        TypeModel::Array(e) => lemma_apply_compose(first, second, *e),
        TypeModel::Function { parameters, return_types, error_types, .. } => {
            lemma_apply_list_compose(first, second, parameters);
            lemma_apply_list_compose(first, second, return_types);
            lemma_apply_list_compose(first, second, error_types);
        },
        TypeModel::Generic { type_args, .. } => lemma_apply_list_compose(first, second, type_args),
        _ => {},
    }
}

/// List version of `lemma_apply_compose`.
pub proof fn lemma_apply_list_compose(first: SubstModel, second: SubstModel, ms: Seq<TypeModel>)
    ensures
        apply_list(compose(first, second), ms) == apply_list(second, apply_list(first, ms)),
    decreases ms,
{
    if ms.len() > 0 {
        lemma_apply_list_compose(first, second, ms.drop_last());
        lemma_apply_compose(first, second, ms.last());
        let a = apply_list(first, ms);
        assert(a.drop_last() =~= apply_list(first, ms.drop_last()));
        assert(a.last() == apply(first, ms.last()));
        assert(a.len() > 0);
    }
}

/// Compatible types stay compatible under any substitution.
pub proof fn lemma_apply_keeps_compatible(s: SubstModel, a: TypeModel, b: TypeModel)
    requires
        compatible(a, b),
    ensures
        compatible(apply(s, a), apply(s, b)),
    decreases a,
{
    match (a, b) {
        (TypeModel::Variable { id: i, .. }, TypeModel::Variable { id: j, .. }) => {
            if s.contains_key(i) {
                law_compatible_reflexive(s[i]);
            }
        },
        (TypeModel::Array(x), TypeModel::Array(y)) => lemma_apply_keeps_compatible(s, *x, *y),
        (
            TypeModel::Function { parameters: p1, return_types: r1, error_types: e1, .. },
            TypeModel::Function { parameters: p2, return_types: r2, error_types: e2, .. },
        ) => {
            lemma_apply_list_keeps_compatible(s, p1, p2);
            lemma_apply_list_keeps_compatible(s, r1, r2);
            lemma_apply_list_keeps_compatible(s, e1, e2);
        },
        (TypeModel::Generic { type_args: a1, .. }, TypeModel::Generic { type_args: a2, .. }) => {
            lemma_apply_list_keeps_compatible(s, a1, a2);
        },
        _ => {},
    }
}

/// List version of `lemma_apply_keeps_compatible`.
pub proof fn lemma_apply_list_keeps_compatible(s: SubstModel, xs: Seq<TypeModel>, ys: Seq<TypeModel>)
    requires
        list_compatible(xs, ys),
    ensures
        list_compatible(apply_list(s, xs), apply_list(s, ys)),
    decreases xs,
{
    lemma_apply_list(s, xs);
    lemma_apply_list(s, ys);
    if xs.len() > 0 {
        lemma_apply_list_keeps_compatible(s, xs.drop_last(), ys.drop_last());
        lemma_apply_keeps_compatible(s, xs.last(), ys.last());
        let a = apply_list(s, xs);
        let b = apply_list(s, ys);
        assert(a.drop_last() =~= apply_list(s, xs.drop_last()));
        assert(b.drop_last() =~= apply_list(s, ys.drop_last()));
        assert(a.last() == apply(s, xs.last()));
        assert(b.last() == apply(s, ys.last()));
    }
}

/// A substitution that binds none of the variables occurring in `m` leaves it unchanged.
pub proof fn lemma_apply_unbound(s: SubstModel, m: TypeModel)
    requires
        forall|id: nat| #[trigger] s.contains_key(id) ==> !crate::unification::occurs(id, m),
    ensures
        apply(s, m) == m,
    decreases m,
{
    match m {
        TypeModel::Array(e) => lemma_apply_unbound(s, *e),
        TypeModel::Function { parameters, return_types, error_types, .. } => {
            lemma_apply_list_unbound(s, parameters);
            lemma_apply_list_unbound(s, return_types);
            lemma_apply_list_unbound(s, error_types);
        },
        TypeModel::Generic { type_args, .. } => lemma_apply_list_unbound(s, type_args),
        _ => {},
    }
}

/// List version of `lemma_apply_unbound`.
pub proof fn lemma_apply_list_unbound(s: SubstModel, ms: Seq<TypeModel>)
    requires
        forall|id: nat| #[trigger] s.contains_key(id) ==> !crate::unification::occurs_in_any(id, ms),
    ensures
        apply_list(s, ms) == ms,
    decreases ms,
{
    if ms.len() > 0 {
        lemma_apply_list_unbound(s, ms.drop_last());
        lemma_apply_unbound(s, ms.last());
        assert(apply_list(s, ms) =~= ms);
    }
}

/// Composition is associative.
pub proof fn lemma_compose_assoc(a: SubstModel, b: SubstModel, c: SubstModel)
    ensures
        compose(compose(a, b), c) == compose(a, compose(b, c)),
{
    let l = compose(compose(a, b), c);
    let r = compose(a, compose(b, c));
    assert forall|k: nat| #[trigger] l.contains_key(k) implies r.contains_key(k) && l[k] == r[k] by {
        if a.contains_key(k) {
            lemma_apply_compose(b, c, a[k]);
        }
    }
    assert(l =~= r);
}

/// Composing with the empty substitution changes nothing.
pub proof fn lemma_compose_empty(a: SubstModel)
    ensures
        compose(a, Map::<nat, TypeModel>::empty()) == a,
{
    assert forall|k: nat| #[trigger] a.contains_key(k) implies apply(Map::<nat, TypeModel>::empty(), a[k]) == a[k] by {
        lemma_apply_unbound(Map::<nat, TypeModel>::empty(), a[k]);
    }
    assert(compose(a, Map::<nat, TypeModel>::empty()) =~= a);
}

/// The map an entry list stands for: each entry binds its variable, and a later entry
/// for the same variable overrides an earlier one.
pub open spec fn entries_map(es: Seq<(usize, CoreType)>) -> SubstModel
    decreases es.len(),
{
    if es.len() == 0 {
        Map::empty()
    } else {
        entries_map(es.drop_last()).insert(es.last().0 as nat, model_of(es.last().1))
    }
}

/// `m` with each bound type substituted by `s`.
pub open spec fn map_apply(s: SubstModel, m: SubstModel) -> SubstModel {
    Map::new(|k: nat| m.contains_key(k), |k: nat| apply(s, m[k]))
}

/// The bindings of `part` whose variable `first` does not bind.
pub open spec fn unbound_in(part: SubstModel, first: SubstModel) -> SubstModel {
    Map::new(|k: nat| part.contains_key(k) && !first.contains_key(k), |k: nat| part[k])
}

/// What an entry list binds: a variable is bound iff some entry names it, and to the
/// type of its last entry.
pub proof fn lemma_entries_map(es: Seq<(usize, CoreType)>)
    ensures
        forall|k: nat| #[trigger] entries_map(es).contains_key(k) <==> exists|i: int| 0 <= i < es.len() && es[i].0 as nat == k,
        forall|j: int|
            0 <= j < es.len() && (forall|i: int| j < i < es.len() ==> es[i].0 != es[j].0) ==> #[trigger] entries_map(es)[es[j].0 as nat]
                == model_of(es[j].1),
    decreases es.len(),
{
    if es.len() > 0 {
        let p = es.drop_last();
        lemma_entries_map(p);
        assert forall|k: nat| #[trigger] entries_map(es).contains_key(k) <==> exists|i: int| 0 <= i < es.len() && es[i].0 as nat == k by {
            if entries_map(es).contains_key(k) && k != es.last().0 as nat {
                let i = choose|i: int| 0 <= i < p.len() && p[i].0 as nat == k;
                assert(es[i].0 as nat == k);
            }
            if k == es.last().0 as nat {
                assert(es[es.len() - 1].0 as nat == k);
            }
            if exists|i: int| 0 <= i < es.len() && es[i].0 as nat == k {
                let i = choose|i: int| 0 <= i < es.len() && es[i].0 as nat == k;
                if i < es.len() - 1 {
                    assert(p[i] == es[i]);
                }
            }
        }
        assert forall|j: int|
            0 <= j < es.len() && (forall|i: int| j < i < es.len() ==> es[i].0 != es[j].0) implies #[trigger] entries_map(
            es,
        )[es[j].0 as nat] == model_of(es[j].1) by {
            if j < es.len() - 1 {
                assert(es[es.len() - 1].0 != es[j].0);
                assert(p[j] == es[j]);
                assert forall|i: int| j < i < p.len() implies p[i].0 != p[j].0 by {
                    assert(p[i] == es[i]);
                }
            }
        }
    }
}

/// Taking one more entry inserts its binding.
proof fn lemma_entries_map_take(es: Seq<(usize, CoreType)>, i: int)
    requires
        0 <= i < es.len(),
    ensures
        entries_map(es.take(i + 1)) == entries_map(es.take(i)).insert(es[i].0 as nat, model_of(es[i].1)),
{
    assert(es.take(i + 1).drop_last() =~= es.take(i));
    assert(es.take(i + 1).last() == es[i]);
}

/// A substitution of types for type variable ids.
#[derive(Debug)]
pub struct Substitution {
    entries: Vec<(usize, CoreType)>,
}

impl View for Substitution {
    type V = SubstModel;

    closed spec fn view(&self) -> SubstModel {
        entries_map(self.entries@)
    }
}

impl Substitution {
    /// The empty substitution.
    pub fn empty() -> (r: Self)
        ensures
            r@ == Map::<nat, TypeModel>::empty(),
    {
        Substitution { entries: Vec::new() }
    }

    /// The substitution binding one variable.
    pub fn single(var_id: usize, core_type: CoreType) -> (r: Self)
        ensures
            r@ == Map::<nat, TypeModel>::empty().insert(var_id as nat, model_of(core_type)),
    {
        let mut entries: Vec<(usize, CoreType)> = Vec::new();
        entries.push((var_id, core_type));
        let r = Substitution { entries };
        proof {
            assert(entries_map(Seq::<(usize, CoreType)>::empty()) == Map::<nat, TypeModel>::empty());
            assert(r.entries@.drop_last() =~= Seq::<(usize, CoreType)>::empty());
        }
        r
    }

    /// The type bound to `var_id`, if any.
    pub fn lookup(&self, var_id: usize) -> (r: Option<&CoreType>)
        ensures
            r is Some <==> self@.contains_key(var_id as nat),
            r matches Some(t) ==> model_of(*t) == self@[var_id as nat],
    {
        proof {
            lemma_entries_map(self.entries@);
        }
        let mut i: usize = self.entries.len();
        while i > 0
            invariant
                i <= self.entries@.len(),
                forall|j: int| i <= j < self.entries@.len() ==> self.entries@[j].0 != var_id,
            decreases i,
        {
            i = i - 1;
            if self.entries[i].0 == var_id {
                proof {
                    lemma_entries_map(self.entries@);
                    assert(self.entries@[i as int].0 as nat == var_id as nat);
                }
                return Some(&self.entries[i].1);
            }
        }
        None
    }

    /// Apply the substitution to a type.
    pub fn apply(&self, core_type: &CoreType) -> (r: CoreType)
        ensures
            model_of(r) == apply(self@, model_of(*core_type)),
        decreases core_type,
    {
        match core_type {
            CoreType::Variable(v) => match self.lookup(v.id) {
                Some(t) => t.duplicate(),
                None => core_type.duplicate(),
            },
            CoreType::Array(e) => CoreType::Array(Box::new(self.apply(&**e))),
            CoreType::Function { generic_params, parameters, return_types, error_types } => {
                let g = crate::types::clone_params(generic_params);
                CoreType::Function {
                    generic_params: g,
                    parameters: self.apply_all(parameters),
                    return_types: self.apply_all(return_types),
                    error_types: self.apply_all(error_types),
                }
            },
            CoreType::Generic { name, type_args } => CoreType::Generic {
                name: name.clone(),
                type_args: self.apply_all(type_args),
            },
            _ => core_type.duplicate(),
        }
    }

    /// Apply the substitution to each type of a list.
    pub fn apply_all(&self, types: &Vec<CoreType>) -> (r: Vec<CoreType>)
        ensures
            models_of(r@) == apply_list(self@, models_of(types@)),
        decreases types,
    {
        proof {
            lemma_models_of(types@);
            lemma_apply_list(self@, models_of(types@));
        }
        let ghost target = apply_list(self@, models_of(types@));
        let mut out: Vec<CoreType> = Vec::new();
        let mut i: usize = 0;
        while i < types.len()
            invariant
                i <= types@.len(),
                out@.len() == i,
                target == apply_list(self@, models_of(types@)),
                target.len() == types@.len(),
                forall|j: int| 0 <= j < types@.len() ==> #[trigger] target[j] == apply(self@, model_of(types@[j])),
                forall|j: int| 0 <= j < i ==> #[trigger] model_of(out@[j]) == target[j],
            decreases types@.len() - i,
        {
            proof {
                vstd::std_specs::vec::axiom_vec_index_decreases(*types, i as int);
            }
            let t = self.apply(&types[i]);
            out.push(t);
            i = i + 1;
        }
        proof {
            lemma_models_of(out@);
            assert(models_of(out@) =~= target);
        }
        out
    }

    /// The substitution that applies `self`, then `other`.
    pub fn compose(&self, other: &Substitution) -> (r: Substitution)
        ensures
            r@ == compose(self@, other@),
    {
        let mut out: Vec<(usize, CoreType)> = Vec::new();
        let mut j: usize = 0;
        proof {
            assert(other.entries@.take(0) =~= Seq::<(usize, CoreType)>::empty());
            assert(unbound_in(entries_map(Seq::<(usize, CoreType)>::empty()), self@) =~= entries_map(out@));
        }
        while j < other.entries.len()
            invariant
                j <= other.entries@.len(),
                entries_map(out@) == unbound_in(entries_map(other.entries@.take(j as int)), self@),
            decreases other.entries@.len() - j,
        {
            proof {
                lemma_entries_map_take(other.entries@, j as int);
            }
            let (k, v) = &other.entries[j];
            if self.lookup(*k).is_none() {
                let ghost before = out@;
                out.push((*k, v.duplicate()));
                proof {
                    assert(out@.drop_last() =~= before);
                }
            }
            proof {
                assert(entries_map(out@) =~= unbound_in(entries_map(other.entries@.take(j + 1)), self@));
            }
            j = j + 1;
        }
        proof {
            assert(other.entries@.take(j as int) =~= other.entries@);
        }
        let ghost rest = unbound_in(other@, self@);
        let mut i: usize = 0;
        proof {
            assert(self.entries@.take(0) =~= Seq::<(usize, CoreType)>::empty());
            assert(rest.union_prefer_right(map_apply(other@, entries_map(Seq::<(usize, CoreType)>::empty())))
                =~= entries_map(out@));
        }
        while i < self.entries.len()
            invariant
                i <= self.entries@.len(),
                rest == unbound_in(other@, self@),
                entries_map(out@) == rest.union_prefer_right(map_apply(other@, entries_map(self.entries@.take(i as int)))),
            decreases self.entries@.len() - i,
        {
            proof {
                lemma_entries_map_take(self.entries@, i as int);
            }
            let (k, v) = &self.entries[i];
            let ghost before = out@;
            out.push((*k, other.apply(v)));
            proof {
                assert(out@.drop_last() =~= before);
                assert(entries_map(out@) =~= rest.union_prefer_right(
                    map_apply(other@, entries_map(self.entries@.take(i + 1))),
                ));
            }
            i = i + 1;
        }
        let r = Substitution { entries: out };
        proof {
            assert(self.entries@.take(i as int) =~= self.entries@);
            assert(r@ =~= compose(self@, other@));
        }
        r
    }
}

} // verus!
