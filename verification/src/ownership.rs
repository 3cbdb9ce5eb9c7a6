//! Affine owner and second-class borrow metadata, scoped lexically: a change made
//! inside a scope after remembering the previous value is undone when the scope exits.

use vstd::prelude::*;
use crate::ast::BorrowKind;
use crate::name_map::{entry_keys, keys_ascending, lemma_map_of, map_of, NameMap};
use crate::text::{owned, seq_less};
use crate::token::Span;

verus! {

/// Stored state for an affine owner binding.
#[derive(Debug)]
pub struct OwnerBinding {
    /// Nominal display name for the affine owner type.
    pub type_label: String,
    /// Source span where this binding was introduced.
    pub source_location: Span,
    /// Source span of the consuming move, once the owner has been moved.
    pub moved_at: Option<Span>,
}

impl OwnerBinding {
    /// An identical copy.
    pub fn duplicate(&self) -> (r: OwnerBinding)
        ensures
            r == *self,
    {
        OwnerBinding { type_label: self.type_label.clone(), source_location: self.source_location, moved_at: self.moved_at }
    }
}

/// Stored state for a second-class borrow binding.
#[derive(Debug, Clone, Copy, PartialEq, Eq, Structural)]
pub struct BorrowBinding {
    /// Borrow mode carried by this binding.
    pub borrow_kind: BorrowKind,
    /// Source span where this borrow binding was introduced.
    pub source_location: Span,
}

/// Human-readable borrow kind for diagnostics.
pub fn borrow_kind_label(kind: BorrowKind) -> (r: &'static str)
    ensures
        r@ == (match kind {
            BorrowKind::Owned => "owned"@,
            BorrowKind::Ref => "ref"@,
            BorrowKind::MutableRef => "mutable ref"@,
        }),
{
    match kind {
        BorrowKind::Owned => "owned",
        BorrowKind::Ref => "ref",
        BorrowKind::MutableRef => "mutable ref",
    }
}

/// Values a scope saved before changing them (`None`: the name was absent).
pub ghost struct ScopeModel {
    pub owners: Map<Seq<char>, Option<OwnerBinding>>,
    pub borrows: Map<Seq<char>, Option<BorrowBinding>>,
    pub function_borrows: Map<Seq<char>, Option<Seq<BorrowKind>>>,
}

/// The ownership metadata.
pub ghost struct OwnershipModel {
    pub affine_resource_types: Set<Seq<char>>,
    pub owners: Map<Seq<char>, OwnerBinding>,
    pub borrows: Map<Seq<char>, BorrowBinding>,
    pub function_borrows: Map<Seq<char>, Seq<BorrowKind>>,
    pub scopes: Seq<ScopeModel>,
}

/// The value of `n` in `live`, as a scope saves it.
pub open spec fn saved_value<V>(live: Map<Seq<char>, V>, n: Seq<char>) -> Option<V> {
    if live.contains_key(n) {
        Some(live[n])
    } else {
        None
    }
}

/// Save the live value of `n` unless a value for `n` is already saved.
pub open spec fn remember_in<V>(saved: Map<Seq<char>, Option<V>>, live: Map<Seq<char>, V>, n: Seq<char>) -> Map<
    Seq<char>,
    Option<V>,
> {
    if saved.contains_key(n) {
        saved
    } else {
        saved.insert(n, saved_value(live, n))
    }
}

/// Put back every saved value: a saved value is re-inserted, a saved absence removes the name.
pub open spec fn restore_map<V>(live: Map<Seq<char>, V>, saved: Map<Seq<char>, Option<V>>) -> Map<Seq<char>, V> {
    Map::new(
        |k: Seq<char>| if saved.contains_key(k) { saved[k] is Some } else { live.contains_key(k) },
        |k: Seq<char>| if saved.contains_key(k) { saved[k]->0 } else { live[k] },
    )
}

/// A scope that has saved nothing.
pub open spec fn empty_scope() -> ScopeModel {
    ScopeModel { owners: Map::empty(), borrows: Map::empty(), function_borrows: Map::empty() }
}

impl OwnershipModel {
    /// Replace the innermost scope.
    pub open spec fn with_top(self, s: ScopeModel) -> Self {
        OwnershipModel { scopes: self.scopes.update(self.scopes.len() - 1, s), ..self }
    }

    /// A new innermost scope.
    pub open spec fn entered(self) -> Self {
        OwnershipModel { scopes: self.scopes.push(empty_scope()), ..self }
    }

    /// The innermost scope closed, its saved values put back.
    pub open spec fn exited(self) -> Self {
        if self.scopes.len() == 0 {
            self
        } else {
            let s = self.scopes.last();
            OwnershipModel {
                owners: restore_map(self.owners, s.owners),
                borrows: restore_map(self.borrows, s.borrows),
                function_borrows: restore_map(self.function_borrows, s.function_borrows),
                scopes: self.scopes.drop_last(),
                ..self
            }
        }
    }

    /// The innermost scope saves the owner entry of `n`.
    pub open spec fn owner_remembered(self, n: Seq<char>) -> Self {
        if self.scopes.len() == 0 {
            self
        } else {
            let s = self.scopes.last();
            self.with_top(ScopeModel { owners: remember_in(s.owners, self.owners, n), ..s })
        }
    }

    /// The innermost scope saves the borrow entry of `n`.
    pub open spec fn borrow_remembered(self, n: Seq<char>) -> Self {
        if self.scopes.len() == 0 {
            self
        } else {
            let s = self.scopes.last();
            self.with_top(ScopeModel { borrows: remember_in(s.borrows, self.borrows, n), ..s })
        }
    }

    /// The innermost scope saves the function borrow entry of `n`.
    pub open spec fn function_borrow_remembered(self, n: Seq<char>) -> Self {
        if self.scopes.len() == 0 {
            self
        } else {
            let s = self.scopes.last();
            self.with_top(ScopeModel { function_borrows: remember_in(s.function_borrows, self.function_borrows, n), ..s })
        }
    }

    /// `n` becomes an owner binding (and stops being a borrow binding).
    pub open spec fn owner_registered(self, n: Seq<char>, b: OwnerBinding) -> Self {
        let m = self.owner_remembered(n).borrow_remembered(n);
        OwnershipModel { borrows: m.borrows.remove(n), owners: m.owners.insert(n, b), ..m }
    }

    /// `n` carries no owner, borrow or function borrow metadata.
    pub open spec fn binding_cleared(self, n: Seq<char>) -> Self {
        let m = self.owner_remembered(n).borrow_remembered(n).function_borrow_remembered(n);
        OwnershipModel {
            owners: m.owners.remove(n),
            borrows: m.borrows.remove(n),
            function_borrows: m.function_borrows.remove(n),
            ..m
        }
    }

    /// `n` becomes a borrow binding (and stops being an owner binding).
    pub open spec fn borrow_registered(self, n: Seq<char>, b: BorrowBinding) -> Self {
        let m = self.borrow_remembered(n).owner_remembered(n);
        OwnershipModel { owners: m.owners.remove(n), borrows: m.borrows.insert(n, b), ..m }
    }

    /// `n` is a function with these parameter borrow modes.
    pub open spec fn function_borrows_registered(self, n: Seq<char>, kinds: Seq<BorrowKind>) -> Self {
        let m = self.function_borrow_remembered(n);
        OwnershipModel { function_borrows: m.function_borrows.insert(n, kinds), ..m }
    }

    /// The owner `n`, if any, is marked moved at `span` (not undone by scope exit).
    pub open spec fn owner_moved(self, n: Seq<char>, span: Span) -> Self {
        if self.owners.contains_key(n) {
            let o = self.owners[n];
            OwnershipModel {
                owners: self.owners.insert(
                    n,
                    OwnerBinding { type_label: o.type_label, source_location: o.source_location, moved_at: Some(span) },
                ),
                ..self
            }
        } else {
            self
        }
    }
}

/// Closing a scope right after opening it changes nothing.
pub proof fn law_exit_undoes_enter(m: OwnershipModel)
    ensures
        m.entered().exited() == m,
{
    assert(restore_map(m.owners, empty_scope().owners) =~= m.owners);
    assert(restore_map(m.borrows, empty_scope().borrows) =~= m.borrows);
    assert(restore_map(m.function_borrows, empty_scope().function_borrows) =~= m.function_borrows);
    assert(m.entered().scopes.drop_last() =~= m.scopes);
}

/// Remembering then changing an entry inside a scope is undone by closing the scope.
proof fn lemma_remember_then_change<V>(live: Map<Seq<char>, V>, saved: Map<Seq<char>, Option<V>>, n: Seq<char>, after: Map<Seq<char>, V>)
    requires
        forall|k: Seq<char>| k != n ==> (#[trigger] after.contains_key(k) <==> live.contains_key(k)),
        forall|k: Seq<char>| k != n && #[trigger] after.contains_key(k) ==> after[k] == live[k],
    ensures
        restore_map(after, remember_in(saved, live, n)) == restore_map(live, saved),
{
    assert(restore_map(after, remember_in(saved, live, n)) =~= restore_map(live, saved));
}

/// Inside an open scope, registering an owner binding is undone by closing the scope.
pub proof fn law_scope_undoes_owner_registration(m: OwnershipModel, n: Seq<char>, b: OwnerBinding)
    requires
        m.scopes.len() > 0,
    ensures
        m.owner_registered(n, b).exited() == m.exited(),
{
    let s = m.scopes.last();
    let r = m.owner_registered(n, b);
    assert(r.scopes.last().owners == remember_in(s.owners, m.owners, n));
    assert(r.scopes.last().borrows == remember_in(s.borrows, m.borrows, n));
    assert(r.scopes.last().function_borrows == s.function_borrows);
    lemma_remember_then_change(m.owners, s.owners, n, r.owners);
    lemma_remember_then_change(m.borrows, s.borrows, n, r.borrows);
    assert(r.scopes.drop_last() =~= m.scopes.drop_last());
}

/// Inside an open scope, clearing a binding's metadata is undone by closing the scope.
pub proof fn law_scope_undoes_clearing(m: OwnershipModel, n: Seq<char>)
    requires
        m.scopes.len() > 0,
    ensures
        m.binding_cleared(n).exited() == m.exited(),
{
    let s = m.scopes.last();
    let r = m.binding_cleared(n);
    assert(r.scopes.last().owners == remember_in(s.owners, m.owners, n));
    assert(r.scopes.last().borrows == remember_in(s.borrows, m.borrows, n));
    assert(r.scopes.last().function_borrows == remember_in(s.function_borrows, m.function_borrows, n));
    lemma_remember_then_change(m.owners, s.owners, n, r.owners);
    lemma_remember_then_change(m.borrows, s.borrows, n, r.borrows);
    lemma_remember_then_change(m.function_borrows, s.function_borrows, n, r.function_borrows);
    assert(r.scopes.drop_last() =~= m.scopes.drop_last());
}

/// Inside an open scope, registering a borrow binding is undone by closing the scope.
pub proof fn law_scope_undoes_borrow_registration(m: OwnershipModel, n: Seq<char>, b: BorrowBinding)
    requires
        m.scopes.len() > 0,
    ensures
        m.borrow_registered(n, b).exited() == m.exited(),
{
    let s = m.scopes.last();
    let r = m.borrow_registered(n, b);
    assert(r.scopes.last().owners == remember_in(s.owners, m.owners, n));
    assert(r.scopes.last().borrows == remember_in(s.borrows, m.borrows, n));
    assert(r.scopes.last().function_borrows == s.function_borrows);
    lemma_remember_then_change(m.owners, s.owners, n, r.owners);
    lemma_remember_then_change(m.borrows, s.borrows, n, r.borrows);
    assert(r.scopes.drop_last() =~= m.scopes.drop_last());
}

/// Inside an open scope, registering function borrow modes is undone by closing the scope.
pub proof fn law_scope_undoes_function_borrows(m: OwnershipModel, n: Seq<char>, kinds: Seq<BorrowKind>)
    requires
        m.scopes.len() > 0,
    ensures
        m.function_borrows_registered(n, kinds).exited() == m.exited(),
{
    let s = m.scopes.last();
    let r = m.function_borrows_registered(n, kinds);
    assert(r.scopes.last().function_borrows == remember_in(s.function_borrows, m.function_borrows, n));
    assert(r.scopes.last().owners == s.owners);
    assert(r.scopes.last().borrows == s.borrows);
    lemma_remember_then_change(m.function_borrows, s.function_borrows, n, r.function_borrows);
    assert(r.scopes.drop_last() =~= m.scopes.drop_last());
}

/// Views of the values of a borrow-mode table.
pub open spec fn kinds_view(m: Map<Seq<char>, Vec<BorrowKind>>) -> Map<Seq<char>, Seq<BorrowKind>> {
    m.map_values(|v: Vec<BorrowKind>| v@)
}

/// Views of the saved values of a borrow-mode table.
pub open spec fn saved_kinds_view(m: Map<Seq<char>, Option<Vec<BorrowKind>>>) -> Map<Seq<char>, Option<Seq<BorrowKind>>> {
    m.map_values(|v: Option<Vec<BorrowKind>>| match v {
        Some(k) => Some(k@),
        None => None,
    })
}

/// Prior ownership metadata shadowed by one lexical scope.
#[derive(Debug)]
pub struct OwnershipScope {
    owners: NameMap<Option<OwnerBinding>>,
    borrows: NameMap<Option<BorrowBinding>>,
    function_borrows: NameMap<Option<Vec<BorrowKind>>>,
}

impl OwnershipScope {
    /// What the scope saved.
    pub closed spec fn model(&self) -> ScopeModel {
        ScopeModel {
            owners: self.owners@,
            borrows: self.borrows@,
            function_borrows: saved_kinds_view(self.function_borrows@),
        }
    }

    /// Well-formedness of the tables.
    pub closed spec fn wf(&self) -> bool {
        self.owners.wf() && self.borrows.wf() && self.function_borrows.wf()
    }
}

/// A copy of a list of borrow modes.
fn copy_kinds(v: &Vec<BorrowKind>) -> (r: Vec<BorrowKind>)
    ensures
        r@ == v@,
{
    let mut out: Vec<BorrowKind> = Vec::new();
    let mut i: usize = 0;
    while i < v.len()
        invariant
            i <= v@.len(),
            out@ == v@.take(i as int),
        decreases v@.len() - i,
    {
        out.push(v[i]);
        proof {
            assert(out@ =~= v@.take(i + 1));
        }
        i = i + 1;
    }
    proof {
        assert(v@.take(v@.len() as int) =~= v@);
    }
    out
}

/// Restore a scope-shadowed metadata entry.
pub fn restore_entry<T>(entries: &mut NameMap<T>, name: String, previous: Option<T>)
    requires
        old(entries).wf(),
    ensures
        final(entries).wf(),
        final(entries)@ == match previous {
            Some(v) => old(entries)@.insert(name@, v),
            None => old(entries)@.remove(name@),
        },
{
    match previous {
        Some(value) => entries.insert(name, value),
        None => {
            let _ = entries.take(name.as_str());
        },
    }
}

/// Put back every value a scope saved in one table.
fn restore_all<T>(live: &mut NameMap<T>, saved: NameMap<Option<T>>)
    requires
        old(live).wf(),
        saved.wf(),
    ensures
        final(live).wf(),
        final(live)@ == restore_map(old(live)@, saved@),
{
    let ghost orig = live@;
    let ghost full = saved@;
    proof {
        saved.lemma_view();
    }
    let mut entries = saved.into_entries();
    let ghost all = entries@;
    proof {
        assert(full == map_of(all));
        assert(all.skip(all.len() as int) =~= Seq::<(String, Option<T>)>::empty());
        assert(restore_map(orig, map_of(all.skip(all.len() as int))) =~= orig);
    }
    while entries.len() > 0
        invariant
            live.wf(),
            keys_ascending(entry_keys(all)),
            entries@.len() <= all.len(),
            entries@ == all.take(entries@.len() as int),
            live@ == restore_map(orig, map_of(all.skip(entries@.len() as int))),
        decreases entries@.len(),
    {
        let ghost k = entries@.len() as int;
        let entry = entries.pop();
        match entry {
            Some((name, previous)) => {
                let ghost before = live@;
                let ghost nm = name@;
                restore_entry(live, name, previous);
                proof {
                    let tail = all.skip(k);
                    let tail2 = all.skip(k - 1);
                    assert(all[k - 1].0@ == nm);
                    assert(all[k - 1].1 == previous);
                    assert forall|a: int, b: int| 0 <= a < b < entry_keys(tail).len() implies seq_less(
                        #[trigger] entry_keys(tail)[a], #[trigger] entry_keys(tail)[b]) by {
                        assert(entry_keys(tail)[a] == entry_keys(all)[k + a]);
                        assert(entry_keys(tail)[b] == entry_keys(all)[k + b]);
                    }
                    assert forall|a: int, b: int| 0 <= a < b < entry_keys(tail2).len() implies seq_less(
                        #[trigger] entry_keys(tail2)[a], #[trigger] entry_keys(tail2)[b]) by {
                        assert(entry_keys(tail2)[a] == entry_keys(all)[k - 1 + a]);
                        assert(entry_keys(tail2)[b] == entry_keys(all)[k - 1 + b]);
                    }
                    lemma_map_of(tail);
                    lemma_map_of(tail2);
                    assert forall|j: int| 0 <= j < tail.len() implies #[trigger] tail[j] == tail2[j + 1] by {}
                    assert(tail2[0] == all[k - 1]);
                    assert forall|j: int| 0 <= j < tail.len() implies tail[j].0@ != nm by {
                        assert(entry_keys(tail2)[0] == nm);
                        assert(entry_keys(tail2)[j + 1] == tail[j].0@);
                        crate::name_map::lemma_ascending_distinct(entry_keys(tail2), 0, j + 1);
                    }
                    let expected = restore_map(orig, map_of(tail2));
                    assert forall|x: Seq<char>| #[trigger] map_of(tail2).contains_key(x) <==> (map_of(tail).contains_key(x) || x == nm) by {
                        if map_of(tail2).contains_key(x) && x != nm {
                            let j = choose|j: int| 0 <= j < tail2.len() && tail2[j].0@ == x;
                            assert(j != 0);
                            assert(tail[j - 1] == tail2[j]);
                        }
                        if map_of(tail).contains_key(x) {
                            let j = choose|j: int| 0 <= j < tail.len() && tail[j].0@ == x;
                            assert(tail2[j + 1] == tail[j]);
                        }
                        if x == nm {
                            assert(tail2[0].0@ == nm);
                        }
                    }
                    assert forall|x: Seq<char>| #[trigger] map_of(tail).contains_key(x) implies map_of(tail2)[x] == map_of(tail)[x] by {
                        let j = choose|j: int| 0 <= j < tail.len() && tail[j].0@ == x;
                        assert(tail2[j + 1] == tail[j]);
                    }
                    assert(map_of(tail2)[nm] == previous);
                    assert(!map_of(tail).contains_key(nm)) by {
                        if map_of(tail).contains_key(nm) {
                            let j = choose|j: int| 0 <= j < tail.len() && tail[j].0@ == nm;
                        }
                    }
                    assert(live@ =~= expected);
                    assert(entries@ =~= all.take(k - 1));
                }
            },
            None => {},
        }
    }
    proof {
        assert(all.skip(0) =~= all);
    }
}

/// Checker-owned affine resource and borrow metadata.
#[derive(Debug)]
pub struct OwnershipState {
    affine_resource_types: NameMap<()>,
    owners: NameMap<OwnerBinding>,
    borrows: NameMap<BorrowBinding>,
    function_borrows: NameMap<Vec<BorrowKind>>,
    scopes: Vec<OwnershipScope>,
}

impl OwnershipState {
    /// The metadata this state holds.
    pub closed spec fn model(&self) -> OwnershipModel {
        OwnershipModel {
            affine_resource_types: self.affine_resource_types@.dom(),
            owners: self.owners@,
            borrows: self.borrows@,
            function_borrows: kinds_view(self.function_borrows@),
            scopes: self.scopes@.map_values(|s: OwnershipScope| s.model()),
        }
    }

    /// Well-formedness of every table.
    pub closed spec fn wf(&self) -> bool {
        &&& self.affine_resource_types.wf()
        &&& self.owners.wf()
        &&& self.borrows.wf()
        &&& self.function_borrows.wf()
        &&& forall|i: int| 0 <= i < self.scopes@.len() ==> (#[trigger] self.scopes@[i]).wf()
    }

    /// No metadata and no open scope.
    pub fn new() -> (r: Self)
        ensures
            r.wf(),
            r.model() == (OwnershipModel {
                affine_resource_types: Set::empty(),
                owners: Map::empty(),
                borrows: Map::empty(),
                function_borrows: Map::empty(),
                scopes: Seq::empty(),
            }),
    {
        let r = OwnershipState {
            affine_resource_types: NameMap::new(),
            owners: NameMap::new(),
            borrows: NameMap::new(),
            function_borrows: NameMap::new(),
            scopes: Vec::new(),
        };
        proof {
            assert(r.affine_resource_types@.dom() =~= Set::<Seq<char>>::empty());
            assert(kinds_view(r.function_borrows@) =~= Map::<Seq<char>, Seq<BorrowKind>>::empty());
            assert(r.scopes@.map_values(|s: OwnershipScope| s.model()) =~= Seq::<ScopeModel>::empty());
        }
        r
    }

    /// Enter a lexical scope for ownership metadata.
    pub fn enter_scope(&mut self)
        requires
            old(self).wf(),
        ensures
            final(self).wf(),
            final(self).model() == old(self).model().entered(),
    {
        let scope = OwnershipScope { owners: NameMap::new(), borrows: NameMap::new(), function_borrows: NameMap::new() };
        proof {
            assert(saved_kinds_view(scope.function_borrows@) =~= Map::<Seq<char>, Option<Seq<BorrowKind>>>::empty());
        }
        let ghost before = self.scopes@;
        self.scopes.push(scope);
        proof {
            assert(self.scopes@.map_values(|s: OwnershipScope| s.model()) =~= before.map_values(
                |s: OwnershipScope| s.model()).push(empty_scope()));
        }
    }

    /// Exit a lexical scope and put back the metadata it saved; without an open scope,
    /// nothing happens.
    pub fn exit_scope(&mut self)
        requires
            old(self).wf(),
        ensures
            final(self).wf(),
            final(self).model() == old(self).model().exited(),
    {
        let ghost before = self.scopes@;
        let scope = match self.scopes.pop() {
            Some(s) => s,
            None => return,
        };
        proof {
            assert(before.last() == scope);
            assert(self.scopes@.map_values(|s: OwnershipScope| s.model()) =~= before.map_values(
                |s: OwnershipScope| s.model()).drop_last());
        }
        let ghost fb_before = self.function_borrows@;
        let OwnershipScope { owners, borrows, function_borrows } = scope;
        restore_all(&mut self.owners, owners);
        restore_all(&mut self.borrows, borrows);
        let ghost saved_fb = function_borrows@;
        restore_all_kinds(&mut self.function_borrows, function_borrows);
        proof {
            assert(kinds_view(self.function_borrows@) =~= restore_map(kinds_view(fb_before), saved_kinds_view(saved_fb)));
        }
    }

    /// Save the current owner entry of `name` in the innermost scope, unless saved already.
    pub fn remember_owner(&mut self, name: &str)
        requires
            old(self).wf(),
        ensures
            final(self).wf(),
            final(self).model() == old(self).model().owner_remembered(name@),
    {
        let ghost before = self.scopes@;
        match self.scopes.pop() {
            Some(mut scope) => {
                if !scope.owners.contains_key(name) {
                    let previous = match self.owners.get(name) {
                        Some(b) => Some(b.duplicate()),
                        None => None,
                    };
                    scope.owners.insert(owned(name), previous);
                }
                self.scopes.push(scope);
                proof {
                    let m = old(self).model();
                    let s = before.last().model();
                    assert(scope.model() == ScopeModel { owners: remember_in(s.owners, m.owners, name@), ..s });
                    assert(self.scopes@.map_values(|x: OwnershipScope| x.model()) =~= m.scopes.update(
                        m.scopes.len() - 1, scope.model()));
                }
            },
            None => {},
        }
    }

    /// Save the current borrow entry of `name` in the innermost scope, unless saved already.
    pub fn remember_borrow(&mut self, name: &str)
        requires
            old(self).wf(),
        ensures
            final(self).wf(),
            final(self).model() == old(self).model().borrow_remembered(name@),
    {
        let ghost before = self.scopes@;
        match self.scopes.pop() {
            Some(mut scope) => {
                if !scope.borrows.contains_key(name) {
                    let previous = match self.borrows.get(name) {
                        Some(b) => Some(*b),
                        None => None,
                    };
                    scope.borrows.insert(owned(name), previous);
                }
                self.scopes.push(scope);
                proof {
                    let m = old(self).model();
                    let s = before.last().model();
                    assert(scope.model() == ScopeModel { borrows: remember_in(s.borrows, m.borrows, name@), ..s });
                    assert(self.scopes@.map_values(|x: OwnershipScope| x.model()) =~= m.scopes.update(
                        m.scopes.len() - 1, scope.model()));
                }
            },
            None => {},
        }
    }

    /// Save the current function borrow entry of `name` in the innermost scope, unless
    /// saved already.
    pub fn remember_function_borrow(&mut self, name: &str)
        requires
            old(self).wf(),
        ensures
            final(self).wf(),
            final(self).model() == old(self).model().function_borrow_remembered(name@),
    {
        let ghost before = self.scopes@;
        match self.scopes.pop() {
            Some(mut scope) => {
                if !scope.function_borrows.contains_key(name) {
                    let previous = match self.function_borrows.get(name) {
                        Some(k) => Some(copy_kinds(k)),
                        None => None,
                    };
                    let ghost saved_before = scope.function_borrows@;
                    let ghost pv = previous;
                    scope.function_borrows.insert(owned(name), previous);
                    proof {
                        assert(saved_kinds_view(scope.function_borrows@) =~= saved_kinds_view(saved_before).insert(
                            name@, saved_value(kinds_view(self.function_borrows@), name@)));
                    }
                }
                self.scopes.push(scope);
                proof {
                    let m = old(self).model();
                    let s = before.last().model();
                    assert(scope.model() == ScopeModel {
                        function_borrows: remember_in(s.function_borrows, m.function_borrows, name@),
                        ..s
                    });
                    assert(self.scopes@.map_values(|x: OwnershipScope| x.model()) =~= m.scopes.update(
                        m.scopes.len() - 1, scope.model()));
                }
            },
            None => {},
        }
    }
}

impl OwnershipState {
    /// Register one compiler-declared affine resource type by its visible name.
    pub fn register_affine_resource_type(&mut self, type_label: String)
        requires
            old(self).wf(),
        ensures
            final(self).wf(),
            final(self).model() == (OwnershipModel {
                affine_resource_types: old(self).model().affine_resource_types.insert(type_label@),
                ..old(self).model()
            }),
    {
        let ghost before = self.affine_resource_types@;
        self.affine_resource_types.insert(type_label, ());
        proof {
            assert(self.affine_resource_types@.dom() =~= before.dom().insert(type_label@));
        }
    }

    /// Return whether `name` is an affine resource type.
    pub fn is_affine_resource_type_name(&self, name: &str) -> (r: bool)
        requires
            self.wf(),
        ensures
            r == self.model().affine_resource_types.contains(name@),
    {
        self.affine_resource_types.contains_key(name)
    }

    /// Make `name` an owner binding of an affine type, introduced at `span`.
    pub fn register_owner_binding(&mut self, name: String, type_label: String, span: Span)
        requires
            old(self).wf(),
        ensures
            final(self).wf(),
            final(self).model() == old(self).model().owner_registered(
                name@,
                OwnerBinding { type_label, source_location: span, moved_at: None },
            ),
    {
        self.remember_owner(name.as_str());
        self.remember_borrow(name.as_str());
        let _ = self.borrows.take(name.as_str());
        self.owners.insert(name, OwnerBinding { type_label, source_location: span, moved_at: None });
    }

    /// Clear owner, borrow and function metadata for a newly shadowed binding.
    pub fn clear_binding_ownership(&mut self, name: &str)
        requires
            old(self).wf(),
        ensures
            final(self).wf(),
            final(self).model() == old(self).model().binding_cleared(name@),
    {
        self.remember_owner(name);
        self.remember_borrow(name);
        self.remember_function_borrow(name);
        let ghost fb = self.function_borrows@;
        let _ = self.owners.take(name);
        let _ = self.borrows.take(name);
        let _ = self.function_borrows.take(name);
        proof {
            assert(kinds_view(self.function_borrows@) =~= kinds_view(fb).remove(name@));
        }
    }

    /// Make `name` a second-class borrow binding.
    pub fn register_borrow_binding(&mut self, name: String, borrow_kind: BorrowKind, span: Span)
        requires
            old(self).wf(),
        ensures
            final(self).wf(),
            final(self).model() == old(self).model().borrow_registered(
                name@,
                BorrowBinding { borrow_kind, source_location: span },
            ),
    {
        self.remember_borrow(name.as_str());
        self.remember_owner(name.as_str());
        let _ = self.owners.take(name.as_str());
        self.borrows.insert(name, BorrowBinding { borrow_kind, source_location: span });
    }

    /// Record the parameter borrow modes of a visible function.
    pub fn register_function_borrow_kinds(&mut self, name: String, borrow_kinds: &[BorrowKind])
        requires
            old(self).wf(),
        ensures
            final(self).wf(),
            final(self).model() == old(self).model().function_borrows_registered(name@, borrow_kinds@),
    {
        self.remember_function_borrow(name.as_str());
        let mut kinds: Vec<BorrowKind> = Vec::new();
        let mut i: usize = 0;
        while i < borrow_kinds.len()
            invariant
                i <= borrow_kinds@.len(),
                kinds@ == borrow_kinds@.take(i as int),
            decreases borrow_kinds@.len() - i,
        {
            kinds.push(borrow_kinds[i]);
            proof {
                assert(kinds@ =~= borrow_kinds@.take(i + 1));
            }
            i = i + 1;
        }
        proof {
            assert(kinds@ =~= borrow_kinds@);
        }
        let ghost fb = self.function_borrows@;
        let ghost k = name@;
        self.function_borrows.insert(name, kinds);
        proof {
            assert(kinds_view(self.function_borrows@) =~= kinds_view(fb).insert(k, borrow_kinds@));
        }
    }

    /// The parameter borrow modes of a visible function.
    pub fn function_borrow_kinds_for_symbol(&self, name: &str) -> (r: Option<&[BorrowKind]>)
        requires
            self.wf(),
        ensures
            r is None <==> !self.model().function_borrows.contains_key(name@),
            r matches Some(k) ==> k@ == self.model().function_borrows[name@],
    {
        match self.function_borrows.get(name) {
            Some(k) => Some(k.as_slice()),
            None => None,
        }
    }

    /// Return whether `name` is currently a second-class borrow binding.
    pub fn is_ref_param(&self, name: &str) -> (r: bool)
        requires
            self.wf(),
        ensures
            r == self.model().borrows.contains_key(name@),
    {
        self.borrows.contains_key(name)
    }

    /// The borrow binding `name`, if any.
    pub fn borrow(&self, name: &str) -> (r: Option<&BorrowBinding>)
        requires
            self.wf(),
        ensures
            r is None <==> !self.model().borrows.contains_key(name@),
            r matches Some(b) ==> *b == self.model().borrows[name@],
    {
        self.borrows.get(name)
    }

    /// The owner binding `name`, if any.
    pub fn owner(&self, name: &str) -> (r: Option<&OwnerBinding>)
        requires
            self.wf(),
        ensures
            r is None <==> !self.model().owners.contains_key(name@),
            r matches Some(o) ==> *o == self.model().owners[name@],
    {
        self.owners.get(name)
    }

    /// Mark the owner `name`, if any, as moved at `span`.
    pub fn mark_owner_moved(&mut self, name: &str, span: Span)
        requires
            old(self).wf(),
        ensures
            final(self).wf(),
            final(self).model() == old(self).model().owner_moved(name@, span),
    {
        let ghost before = self.owners@;
        match self.owners.take(name) {
            Some(o) => {
                self.owners.insert(
                    owned(name),
                    OwnerBinding { type_label: o.type_label, source_location: o.source_location, moved_at: Some(span) },
                );
                proof {
                    assert(self.owners@ =~= before.insert(
                        name@,
                        OwnerBinding { type_label: o.type_label, source_location: o.source_location, moved_at: Some(span) },
                    ));
                }
            },
            None => {
                proof {
                    assert(self.owners@ =~= before);
                }
            },
        }
    }
}

/// Put back every value a scope saved in the borrow-mode table.
fn restore_all_kinds(live: &mut NameMap<Vec<BorrowKind>>, saved: NameMap<Option<Vec<BorrowKind>>>)
    requires
        old(live).wf(),
        saved.wf(),
    ensures
        final(live).wf(),
        kinds_view(final(live)@) == restore_map(kinds_view(old(live)@), saved_kinds_view(saved@)),
{
    let ghost orig = live@;
    let ghost full = saved@;
    restore_all(live, saved);
    assert(kinds_view(live@) =~= restore_map(kinds_view(orig), saved_kinds_view(full)));
}


/// One step of a scoped sequence of changes to the ownership metadata.
pub ghost enum ScopeStep {
    Enter,
    Exit,
    RegisterOwner(Seq<char>, OwnerBinding),
    Clear(Seq<char>),
    RegisterBorrow(Seq<char>, BorrowBinding),
    RegisterFunctionBorrows(Seq<char>, Seq<BorrowKind>),
}

impl OwnershipModel {
    /// The model after one step.
    pub open spec fn step(self, s: ScopeStep) -> Self {
        match s {
            ScopeStep::Enter => self.entered(),
            ScopeStep::Exit => self.exited(),
            ScopeStep::RegisterOwner(n, b) => self.owner_registered(n, b),
            ScopeStep::Clear(n) => self.binding_cleared(n),
            ScopeStep::RegisterBorrow(n, b) => self.borrow_registered(n, b),
            ScopeStep::RegisterFunctionBorrows(n, kinds) => self.function_borrows_registered(n, kinds),
        }
    }

    /// The model after the steps, in order.
    pub open spec fn run(self, steps: Seq<ScopeStep>) -> Self
        decreases steps.len(),
    {
        if steps.len() == 0 {
            self
        } else {
            self.run(steps.drop_last()).step(steps.last())
        }
    }

    /// The model after closing `k` scopes.
    pub open spec fn exit_times(self, k: nat) -> Self
        decreases k,
    {
        if k == 0 {
            self
        } else {
            self.exited().exit_times((k - 1) as nat)
        }
    }
}

/// Scopes opened minus scopes closed by the steps.
pub open spec fn scope_depth(steps: Seq<ScopeStep>) -> int
    decreases steps.len(),
{
    if steps.len() == 0 {
        0
    } else {
        scope_depth(steps.drop_last()) + match steps.last() {
            ScopeStep::Enter => 1int,
            ScopeStep::Exit => -1int,
            _ => 0int,
        }
    }
}

/// No prefix of the steps closes more scopes than it opened.
pub open spec fn never_below_start(steps: Seq<ScopeStep>) -> bool
    decreases steps.len(),
{
    steps.len() == 0 || (never_below_start(steps.drop_last()) && scope_depth(steps) >= 0)
}

/// Closing scopes after steps that stay within an open scope gives what closing that
/// scope right away gives.
proof fn lemma_run_within_scope(m: OwnershipModel, steps: Seq<ScopeStep>)
    requires
        m.scopes.len() > 0,
        never_below_start(steps),
    ensures
        m.run(steps).scopes.len() == m.scopes.len() + scope_depth(steps),
        m.run(steps).exit_times((scope_depth(steps) + 1) as nat) == m.exited(),
    decreases steps.len(),
{
    if steps.len() > 0 {
        let pre = steps.drop_last();
        lemma_run_within_scope(m, pre);
        let x = m.run(pre);
        let d = scope_depth(pre);
        assert(m.run(steps) == x.step(steps.last()));
        assert(d >= 0) by {
            if pre.len() == 0 {
                assert(scope_depth(pre) == 0);
            } else {
                assert(never_below_start(pre));
            }
        }
        match steps.last() {
            ScopeStep::Enter => {
                law_exit_undoes_enter(x);
                assert(x.entered().exit_times((d + 2) as nat) == x.entered().exited().exit_times((d + 1) as nat));
            },
            ScopeStep::Exit => {
                assert(x.exit_times((d + 1) as nat) == x.exited().exit_times(d as nat));
            },
            ScopeStep::RegisterOwner(n, b) => {
                law_scope_undoes_owner_registration(x, n, b);
                assert(x.owner_registered(n, b).exit_times((d + 1) as nat) == x.owner_registered(n, b).exited().exit_times(d as nat));
                assert(x.exit_times((d + 1) as nat) == x.exited().exit_times(d as nat));
            },
            ScopeStep::Clear(n) => {
                law_scope_undoes_clearing(x, n);
                assert(x.binding_cleared(n).exit_times((d + 1) as nat) == x.binding_cleared(n).exited().exit_times(d as nat));
                assert(x.exit_times((d + 1) as nat) == x.exited().exit_times(d as nat));
            },
            ScopeStep::RegisterBorrow(n, b) => {
                law_scope_undoes_borrow_registration(x, n, b);
                assert(x.borrow_registered(n, b).exit_times((d + 1) as nat) == x.borrow_registered(n, b).exited().exit_times(d as nat));
                assert(x.exit_times((d + 1) as nat) == x.exited().exit_times(d as nat));
            },
            ScopeStep::RegisterFunctionBorrows(n, kinds) => {
                law_scope_undoes_function_borrows(x, n, kinds);
                assert(x.function_borrows_registered(n, kinds).exit_times((d + 1) as nat)
                    == x.function_borrows_registered(n, kinds).exited().exit_times(d as nat));
                assert(x.exit_times((d + 1) as nat) == x.exited().exit_times(d as nat));
            },
        }
    } else {
        assert(m.exit_times(1) == m.exited().exit_times(0));
    }
}

/// Opening a scope, running any sequence of registrations, clearings and properly
/// nested scopes inside it, then closing it, gives back the metadata as it was before.
pub proof fn law_balanced_scope_restores(m: OwnershipModel, steps: Seq<ScopeStep>)
    requires
        never_below_start(steps),
        scope_depth(steps) == 0,
    ensures
        m.entered().run(steps).exited() == m,
{
    lemma_run_within_scope(m.entered(), steps);
    law_exit_undoes_enter(m);
    let x = m.entered().run(steps);
    assert(x.exit_times(1) == x.exited().exit_times(0));
}

/// Closing a scope when none is open changes nothing.
pub proof fn law_exit_without_scope_is_identity(m: OwnershipModel)
    requires
        m.scopes.len() == 0,
    ensures
        m.exited() == m,
{
}

} // verus!
