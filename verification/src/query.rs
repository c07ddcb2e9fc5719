use crate::archetype::{
    holds_ty, insertion_point, position_of, sorted_by_ty, splits_at, Archetype,
    ArchetypeInfo, ArchetypeState,
};
use crate::archetype::{entry_bytes, lemma_entry_within, lemma_position_of, sum_sizes};
use crate::entity::Entity;
use crate::storage::lemma_row_bounds;
use crate::{ComponentId, Registry};
use std::collections::HashSet;
use vstd::prelude::*;

verus! {

/// One term of a query: a component read or written, an optional component,
/// a component that must be absent, a resource read or written, an optional
/// resource, the entity itself, or the command queue.
#[derive(Clone, Copy, Debug)]
pub enum QueryTerm {
    Component { info: ArchetypeInfo, mutable: bool },
    OptionalComponent { info: ArchetypeInfo, mutable: bool },
    Without { info: ArchetypeInfo },
    Resource { info: ArchetypeInfo, mutable: bool },
    OptionalResource { info: ArchetypeInfo, mutable: bool },
    Entity,
    Commands,
}

/// The entry a term puts into the query's archetype, if any.
pub open spec fn term_entry(t: QueryTerm) -> Option<ArchetypeInfo> {
    match t {
        QueryTerm::Component { info, .. } => Some(ArchetypeInfo { state: ArchetypeState::Component, ..info }),
        QueryTerm::OptionalComponent { info, .. } => Some(ArchetypeInfo { state: ArchetypeState::Optional, ..info }),
        QueryTerm::Without { info } => Some(ArchetypeInfo { state: ArchetypeState::Without, ..info }),
        QueryTerm::Resource { info, .. } => Some(ArchetypeInfo { state: ArchetypeState::Resource, ..info }),
        QueryTerm::OptionalResource { info, .. } => Some(ArchetypeInfo { state: ArchetypeState::Optional, ..info }),
        QueryTerm::Entity => None,
        QueryTerm::Commands => None,
    }
}

/// The type a term reads, and whether it writes it too: a component or a
/// resource, required or optional. The entity, the command queue and an
/// excluded component read nothing.
pub open spec fn term_access(t: QueryTerm) -> Option<(ComponentId, bool)> {
    match t {
        QueryTerm::Component { info, mutable } => Some((info.ty, mutable)),
        QueryTerm::OptionalComponent { info, mutable } => Some((info.ty, mutable)),
        QueryTerm::Resource { info, mutable } => Some((info.ty, mutable)),
        QueryTerm::OptionalResource { info, mutable } => Some((info.ty, mutable)),
        _ => None,
    }
}

/// The types a term reads (a term that writes a type reads it too).
pub open spec fn term_refs(t: QueryTerm) -> Set<ComponentId> {
    match term_access(t) {
        Some((ty, _)) => set![ty],
        None => Set::empty(),
    }
}

/// The types a term writes.
pub open spec fn term_muts(t: QueryTerm) -> Set<ComponentId> {
    match term_access(t) {
        Some((ty, true)) => set![ty],
        _ => Set::empty(),
    }
}

/// The types the terms read.
pub open spec fn refs_of(terms: Seq<QueryTerm>) -> Set<ComponentId>
    decreases terms.len(),
{
    if terms.len() == 0 {
        Set::empty()
    } else {
        refs_of(terms.drop_last()).union(term_refs(terms.last()))
    }
}

/// The types the terms write.
pub open spec fn muts_of(terms: Seq<QueryTerm>) -> Set<ComponentId>
    decreases terms.len(),
{
    if terms.len() == 0 {
        Set::empty()
    } else {
        muts_of(terms.drop_last()).union(term_muts(terms.last()))
    }
}

/// The entries the terms put into the query's archetype, in order.
pub open spec fn term_entries(terms: Seq<QueryTerm>) -> Seq<ArchetypeInfo>
    decreases terms.len(),
{
    if terms.len() == 0 {
        Seq::empty()
    } else {
        let rest = term_entries(terms.drop_last());
        match term_entry(terms.last()) {
            Some(e) => rest.push(e),
            None => rest,
        }
    }
}

/// The entries `s` with each of `xs` put in at its sorted place, one after
/// the other.
pub open spec fn insert_infos(s: Seq<ArchetypeInfo>, xs: Seq<ArchetypeInfo>) -> Seq<ArchetypeInfo>
    decreases xs.len(),
{
    if xs.len() == 0 {
        s
    } else {
        let t = insert_infos(s, xs.drop_last());
        t.insert(insertion_point(t, xs.last().ty), xs.last())
    }
}

/// The entries are of distinct types.
pub open spec fn distinct_tys(xs: Seq<ArchetypeInfo>) -> bool {
    forall|i: int, j: int| 0 <= i < j < xs.len() ==> #[trigger] xs[i].ty != #[trigger] xs[j].ty
}

/// An archetype holding the entries `infos` matches the terms: each excluded
/// type is absent, and each required component is present.
pub open spec fn terms_admit(terms: Seq<QueryTerm>, infos: Seq<ArchetypeInfo>) -> bool {
    forall|j: int|
        0 <= j < terms.len() ==> match term_entry(#[trigger] terms[j]) {
            Some(e) => (e.state == ArchetypeState::Without ==> !holds_ty(infos, e.ty)) && (e.state
                == ArchetypeState::Component ==> holds_ty(infos, e.ty)),
            None => true,
        }
}

/// Sorted entries without `ty` have a place for it.
pub proof fn lemma_split_exists(t: Seq<ArchetypeInfo>, ty: ComponentId)
    requires
        sorted_by_ty(t),
        !holds_ty(t, ty),
    ensures
        splits_at(t, ty, insertion_point(t, ty)),
    decreases t.len(),
{
    if t.len() == 0 {
        assert(splits_at(t, ty, 0));
    } else {
        let f = t.drop_last();
        assert(sorted_by_ty(f));
        assert(!holds_ty(f, ty)) by {
            if holds_ty(f, ty) {
                let i = choose|i: int| 0 <= i < f.len() && #[trigger] f[i].ty == ty;
                assert(t[i].ty == ty);
            }
        }
        lemma_split_exists(f, ty);
        let q = insertion_point(f, ty);
        let n = t.len() - 1;
        assert(t[n].ty != ty);
        if t[n].ty < ty {
            assert(splits_at(t, ty, t.len() as int)) by {
                assert forall|j: int| 0 <= j < t.len() implies #[trigger] t[j].ty < ty by {
                    if j < n {
                        assert(t[j].ty < t[n].ty);
                    }
                }
            }
        } else {
            assert(splits_at(t, ty, q)) by {
                assert forall|j: int| 0 <= j < q implies #[trigger] t[j].ty < ty by {
                    assert(f[j].ty < ty);
                }
                assert forall|j: int| q <= j < t.len() implies #[trigger] t[j].ty > ty by {
                    if j < n {
                        assert(f[j].ty > ty);
                    }
                }
            }
        }
    }
}

/// Putting entries of new types in keeps the entries sorted, and keeps
/// exactly the old ones and the new ones.
pub proof fn lemma_insert_infos(s: Seq<ArchetypeInfo>, xs: Seq<ArchetypeInfo>)
    requires
        sorted_by_ty(s),
        distinct_tys(xs),
        forall|i: int| 0 <= i < xs.len() ==> !holds_ty(s, #[trigger] xs[i].ty),
    ensures
        insert_infos(s, xs).len() == s.len() + xs.len(),
        sorted_by_ty(insert_infos(s, xs)),
        forall|v: ArchetypeInfo| #[trigger] insert_infos(s, xs).contains(v) <==> (s.contains(v) || xs.contains(v)),
        forall|ty: ComponentId| #[trigger] holds_ty(insert_infos(s, xs), ty) <==> (holds_ty(s, ty) || holds_ty(xs, ty)),
    decreases xs.len(),
{
    if xs.len() > 0 {
        let ys = xs.drop_last();
        let x = xs.last();
        assert(distinct_tys(ys));
        lemma_insert_infos(s, ys);
        let t = insert_infos(s, ys);
        assert(!holds_ty(t, x.ty)) by {
            assert(!holds_ty(s, x.ty));
            if holds_ty(ys, x.ty) {
                let k = choose|k: int| 0 <= k < ys.len() && #[trigger] ys[k].ty == x.ty;
                assert(xs[k].ty != xs[xs.len() - 1].ty);
            }
        }
        lemma_split_exists(t, x.ty);
        let p = insertion_point(t, x.ty);
        let r = insert_infos(s, xs);
        assert(r == t.insert(p, x));
        crate::archetype::lemma_insert_sorted(t, x, p);
        lemma_insert_contains(s, xs, t, p);
        lemma_holds_from_contains(r, s, xs);
    } else {
        assert forall|ty: ComponentId| #[trigger] holds_ty(insert_infos(s, xs), ty) <==> (holds_ty(s, ty) || holds_ty(xs, ty)) by {
            if holds_ty(xs, ty) {
                let j = choose|j: int| 0 <= j < xs.len() && #[trigger] xs[j].ty == ty;
            }
        }
    }
}

/// One step of `lemma_insert_infos`: what the entries hold after the last of
/// `xs` goes in at `p`.
proof fn lemma_insert_contains(s: Seq<ArchetypeInfo>, xs: Seq<ArchetypeInfo>, t: Seq<ArchetypeInfo>, p: int)
    requires
        xs.len() > 0,
        0 <= p <= t.len(),
        forall|v: ArchetypeInfo| #[trigger] t.contains(v) <==> (s.contains(v) || xs.drop_last().contains(v)),
    ensures
        forall|v: ArchetypeInfo| #[trigger] t.insert(p, xs.last()).contains(v) <==> (s.contains(v) || xs.contains(v)),
{
    let r = t.insert(p, xs.last());
    let ys = xs.drop_last();
    assert forall|v: ArchetypeInfo| #[trigger] r.contains(v) <==> (s.contains(v) || xs.contains(v)) by {
        if r.contains(v) {
            let i = choose|i: int| 0 <= i < r.len() && r[i] == v;
            if i < p {
                assert(t[i] == v);
                assert(t.contains(v));
            } else if i > p {
                assert(t[i - 1] == v);
                assert(t.contains(v));
            } else {
                assert(xs[xs.len() - 1] == v);
            }
            if t.contains(v) && ys.contains(v) {
                let k = choose|k: int| 0 <= k < ys.len() && ys[k] == v;
                assert(xs[k] == v);
            }
        }
        if xs.contains(v) {
            let k = choose|k: int| 0 <= k < xs.len() && xs[k] == v;
            if k == xs.len() - 1 {
                assert(r[p] == v);
            } else {
                assert(ys[k] == v);
                assert(t.contains(v));
                let i = choose|i: int| 0 <= i < t.len() && t[i] == v;
                if i < p {
                    assert(r[i] == v);
                } else {
                    assert(r[i + 1] == v);
                }
            }
        }
        if s.contains(v) {
            assert(t.contains(v));
            let i = choose|i: int| 0 <= i < t.len() && t[i] == v;
            if i < p {
                assert(r[i] == v);
            } else {
                assert(r[i + 1] == v);
            }
        }
    }
}

/// Entries that hold exactly those of `s` and of `xs` hold exactly their
/// types.
proof fn lemma_holds_from_contains(r: Seq<ArchetypeInfo>, s: Seq<ArchetypeInfo>, xs: Seq<ArchetypeInfo>)
    requires
        forall|v: ArchetypeInfo| #[trigger] r.contains(v) <==> (s.contains(v) || xs.contains(v)),
    ensures
        forall|ty: ComponentId| #[trigger] holds_ty(r, ty) <==> (holds_ty(s, ty) || holds_ty(xs, ty)),
{
    assert forall|ty: ComponentId| #[trigger] holds_ty(r, ty) <==> (holds_ty(s, ty) || holds_ty(xs, ty)) by {
        {
            if holds_ty(r, ty) {
                let i = choose|i: int| 0 <= i < r.len() && #[trigger] r[i].ty == ty;
                assert(r.contains(r[i]));
                if s.contains(r[i]) {
                    let j = choose|j: int| 0 <= j < s.len() && s[j] == r[i];
                    assert(s[j].ty == ty);
                } else {
                    let j = choose|j: int| 0 <= j < xs.len() && xs[j] == r[i];
                    assert(xs[j].ty == ty);
                }
            }
            if holds_ty(s, ty) {
                let j = choose|j: int| 0 <= j < s.len() && #[trigger] s[j].ty == ty;
                assert(s.contains(s[j]));
                assert(r.contains(s[j]));
                let i = choose|i: int| 0 <= i < r.len() && r[i] == s[j];
                assert(r[i].ty == ty);
            }
            if holds_ty(xs, ty) {
                let j = choose|j: int| 0 <= j < xs.len() && #[trigger] xs[j].ty == ty;
                assert(xs.contains(xs[j]));
                assert(r.contains(xs[j]));
                let i = choose|i: int| 0 <= i < r.len() && r[i] == xs[j];
                assert(r[i].ty == ty);
            }
        }
    }
}

/// The entries of a prefix of the terms are a prefix of their entries.
pub proof fn lemma_term_entries_prefix(terms: Seq<QueryTerm>, i: int)
    requires
        0 <= i <= terms.len(),
    ensures
        term_entries(terms.take(i)).len() <= term_entries(terms).len(),
        forall|j: int| 0 <= j < term_entries(terms.take(i)).len() ==> #[trigger] term_entries(terms.take(i))[j] == term_entries(terms)[j],
        i < terms.len() ==> term_entries(terms.take(i + 1)) == match term_entry(terms[i]) {
            Some(e) => term_entries(terms.take(i)).push(e),
            None => term_entries(terms.take(i)),
        },
    decreases terms.len() - i,
{
    if i < terms.len() {
        assert(terms.take(i + 1).drop_last() =~= terms.take(i));
        assert(terms.take(i + 1).last() == terms[i]);
        lemma_term_entries_prefix(terms, i + 1);
        let a = term_entries(terms.take(i));
        let b = term_entries(terms.take(i + 1));
        assert forall|j: int| 0 <= j < a.len() implies #[trigger] a[j] == term_entries(terms)[j] by {
            assert(a[j] == b[j]);
        }
    } else {
        assert(terms.take(i) =~= terms);
    }
}

impl QueryTerm {
    /// Puts this term's entry, if it has one, into a query's archetype at its
    /// sorted place.
    pub fn add(&self, archetype: &mut Archetype)
        requires
            old(archetype).valid(),
            sorted_by_ty(old(archetype).infos()),
            term_entry(*self) matches Some(e) ==> !holds_ty(old(archetype).infos(), e.ty) && old(archetype).len < 32,
        ensures
            final(archetype).valid(),
            sorted_by_ty(final(archetype).infos()),
            final(archetype).infos() == match term_entry(*self) {
                Some(e) => old(archetype).infos().insert(insertion_point(old(archetype).infos(), e.ty), e),
                None => old(archetype).infos(),
            },
    {
        match self {
            QueryTerm::Component { info, .. } => {
                archetype.add(ArchetypeInfo { ty: info.ty, size: info.size, name: info.name, state: ArchetypeState::Component });
            },
            QueryTerm::OptionalComponent { info, .. } => {
                archetype.add(ArchetypeInfo { ty: info.ty, size: info.size, name: info.name, state: ArchetypeState::Optional });
            },
            QueryTerm::Without { info } => {
                archetype.add(ArchetypeInfo { ty: info.ty, size: info.size, name: info.name, state: ArchetypeState::Without });
            },
            QueryTerm::Resource { info, .. } => {
                archetype.add(ArchetypeInfo { ty: info.ty, size: info.size, name: info.name, state: ArchetypeState::Resource });
            },
            QueryTerm::OptionalResource { info, .. } => {
                archetype.add(ArchetypeInfo { ty: info.ty, size: info.size, name: info.name, state: ArchetypeState::Optional });
            },
            QueryTerm::Entity => {},
            QueryTerm::Commands => {},
        }
    }
}

impl QueryTerm {
    /// The type this term reads, and whether it writes it too.
    pub fn access(&self) -> (r: Option<(ComponentId, bool)>)
        ensures
            r == term_access(*self),
    {
        match self {
            QueryTerm::Component { info, mutable } => Some((info.ty, *mutable)),
            QueryTerm::OptionalComponent { info, mutable } => Some((info.ty, *mutable)),
            QueryTerm::Resource { info, mutable } => Some((info.ty, *mutable)),
            QueryTerm::OptionalResource { info, mutable } => Some((info.ty, *mutable)),
            _ => None,
        }
    }

    /// Adds the type this term reads to `deps`.
    pub fn refs(&self, deps: &mut HashSet<ComponentId>)
        ensures
            final(deps)@ == old(deps)@.union(term_refs(*self)),
    {
        broadcast use vstd::std_specs::hash::group_hash_axioms;

        if let Some((ty, _)) = self.access() {
            deps.insert(ty);
        }
        proof {
            assert(deps@ =~= old(deps)@.union(term_refs(*self)));
        }
    }

    /// Adds the type this term writes to `deps`.
    pub fn muts(&self, deps: &mut HashSet<ComponentId>)
        ensures
            final(deps)@ == old(deps)@.union(term_muts(*self)),
    {
        broadcast use vstd::std_specs::hash::group_hash_axioms;

        if let Some((ty, true)) = self.access() {
            deps.insert(ty);
        }
        proof {
            assert(deps@ =~= old(deps)@.union(term_muts(*self)));
        }
    }
}

/// The types that terms read.
pub fn ref_deps(terms: &Vec<QueryTerm>) -> (r: HashSet<ComponentId>)
    ensures
        r@ == refs_of(terms@),
{
    broadcast use vstd::std_specs::hash::group_hash_axioms;

    let mut deps: HashSet<ComponentId> = HashSet::new();
    let mut i: usize = 0;
    proof {
        assert(terms@.take(0) =~= Seq::<QueryTerm>::empty());
    }
    while i < terms.len()
        invariant
            i <= terms@.len(),
            deps@ == refs_of(terms@.take(i as int)),
        decreases terms@.len() - i,
    {
        proof {
            assert(terms@.take(i + 1).drop_last() =~= terms@.take(i as int));
        }
        terms[i].refs(&mut deps);
        i = i + 1;
    }
    proof {
        assert(terms@.take(terms@.len() as int) =~= terms@);
    }
    deps
}

/// The types that terms write.
pub fn mut_deps(terms: &Vec<QueryTerm>) -> (r: HashSet<ComponentId>)
    ensures
        r@ == muts_of(terms@),
{
    broadcast use vstd::std_specs::hash::group_hash_axioms;

    let mut deps: HashSet<ComponentId> = HashSet::new();
    let mut i: usize = 0;
    proof {
        assert(terms@.take(0) =~= Seq::<QueryTerm>::empty());
    }
    while i < terms.len()
        invariant
            i <= terms@.len(),
            deps@ == muts_of(terms@.take(i as int)),
        decreases terms@.len() - i,
    {
        proof {
            assert(terms@.take(i + 1).drop_last() =~= terms@.take(i as int));
        }
        terms[i].muts(&mut deps);
        i = i + 1;
    }
    proof {
        assert(terms@.take(terms@.len() as int) =~= terms@);
    }
    deps
}

/// A term writes only what it reads, so the terms do too.
pub proof fn lemma_muts_within_refs(terms: Seq<QueryTerm>)
    ensures
        muts_of(terms).subset_of(refs_of(terms)),
    decreases terms.len(),
{
    if terms.len() > 0 {
        lemma_muts_within_refs(terms.drop_last());
    }
}

impl QueryTerm {
    /// The entry this term puts into the query's archetype, if any.
    pub fn entry(&self) -> (r: Option<ArchetypeInfo>)
        ensures
            r == term_entry(*self),
    {
        match self {
            QueryTerm::Component { info, .. } => Some(
                ArchetypeInfo { ty: info.ty, size: info.size, name: info.name, state: ArchetypeState::Component },
            ),
            QueryTerm::OptionalComponent { info, .. } => Some(
                ArchetypeInfo { ty: info.ty, size: info.size, name: info.name, state: ArchetypeState::Optional },
            ),
            QueryTerm::Without { info } => Some(
                ArchetypeInfo { ty: info.ty, size: info.size, name: info.name, state: ArchetypeState::Without },
            ),
            QueryTerm::Resource { info, .. } => Some(
                ArchetypeInfo { ty: info.ty, size: info.size, name: info.name, state: ArchetypeState::Resource },
            ),
            QueryTerm::OptionalResource { info, .. } => Some(
                ArchetypeInfo { ty: info.ty, size: info.size, name: info.name, state: ArchetypeState::Optional },
            ),
            QueryTerm::Entity => None,
            QueryTerm::Commands => None,
        }
    }
}

/// The entries the terms put into the query's archetype, in order.
pub fn entries_of(terms: &Vec<QueryTerm>) -> (r: Vec<ArchetypeInfo>)
    ensures
        r@ == term_entries(terms@),
{
    let mut r: Vec<ArchetypeInfo> = Vec::new();
    let mut i: usize = 0;
    proof {
        assert(terms@.take(0) =~= Seq::<QueryTerm>::empty());
    }
    while i < terms.len()
        invariant
            i <= terms@.len(),
            r@ == term_entries(terms@.take(i as int)),
        decreases terms@.len() - i,
    {
        proof {
            assert(terms@.take(i + 1).drop_last() =~= terms@.take(i as int));
            assert(terms@.take(i + 1).last() == terms@[i as int]);
        }
        if let Some(e) = terms[i].entry() {
            r.push(e);
        }
        i = i + 1;
    }
    proof {
        assert(terms@.take(terms@.len() as int) =~= terms@);
    }
    r
}

/// Whether the terms can make a query: their entries are of distinct types,
/// and there are at most 32 of them.
pub fn terms_fit(terms: &Vec<QueryTerm>) -> (r: bool)
    ensures
        r == (distinct_tys(term_entries(terms@)) && term_entries(terms@).len() <= 32),
{
    let es = entries_of(terms);
    if es.len() > 32 {
        return false;
    }
    let mut j: usize = 0;
    while j < es.len()
        invariant
            j <= es@.len(),
            es@ == term_entries(terms@),
            es@.len() <= 32,
            forall|a: int, b: int| 0 <= a < b < j ==> #[trigger] es@[a].ty != #[trigger] es@[b].ty,
        decreases es@.len() - j,
    {
        let mut i: usize = 0;
        while i < j
            invariant
                i <= j,
                j < es@.len(),
                es@ == term_entries(terms@),
                forall|a: int| 0 <= a < i ==> #[trigger] es@[a].ty != es@[j as int].ty,
            decreases j - i,
        {
            if es[i].ty == es[j].ty {
                proof {
                    assert(es@[i as int].ty == es@[j as int].ty);
                }
                return false;
            }
            i = i + 1;
        }
        j = j + 1;
    }
    true
}

/// The archetype of a query: the entries of its terms, sorted.
pub fn query_archetype(terms: &Vec<QueryTerm>) -> (r: Archetype)
    requires
        distinct_tys(term_entries(terms@)),
        term_entries(terms@).len() <= 32,
    ensures
        r.valid(),
        sorted_by_ty(r.infos()),
        r.infos() == insert_infos(Seq::empty(), term_entries(terms@)),
{
    let mut archetype = Archetype::new();
    let mut i: usize = 0;
    proof {
        assert(terms@.take(0) =~= Seq::<QueryTerm>::empty());
        assert(term_entries(terms@.take(0)) == Seq::<ArchetypeInfo>::empty());
    }
    while i < terms.len()
        invariant
            i <= terms@.len(),
            distinct_tys(term_entries(terms@)),
            term_entries(terms@).len() <= 32,
            archetype.valid(),
            sorted_by_ty(archetype.infos()),
            archetype.infos() == insert_infos(Seq::empty(), term_entries(terms@.take(i as int))),
        decreases terms@.len() - i,
    {
        let ghost pre = term_entries(terms@.take(i as int));
        proof {
            lemma_term_entries_prefix(terms@, i as int);
            lemma_term_entries_prefix(terms@, i + 1);
            assert(distinct_tys(pre));
            lemma_insert_infos(Seq::empty(), pre);
            if let Some(e) = term_entry(terms@[i as int]) {
                let post = term_entries(terms@.take(i + 1));
                assert(post == pre.push(e));
                assert(post[pre.len() as int] == e);
                assert(term_entries(terms@)[pre.len() as int] == e);
                assert(!holds_ty(pre, e.ty)) by {
                    if holds_ty(pre, e.ty) {
                        let j = choose|j: int| 0 <= j < pre.len() && #[trigger] pre[j].ty == e.ty;
                        assert(term_entries(terms@)[j].ty != term_entries(terms@)[pre.len() as int].ty);
                    }
                }
                assert(!holds_ty(Seq::<ArchetypeInfo>::empty(), e.ty));
                assert(post.drop_last() =~= pre);
            }
        }
        terms[i].add(&mut archetype);
        i = i + 1;
    }
    proof {
        assert(terms@.take(terms@.len() as int) =~= terms@);
    }
    archetype
}

/// The entries of the terms are exactly the entries of the terms that have
/// one.
pub proof fn lemma_term_entries_members(terms: Seq<QueryTerm>)
    ensures
        forall|j: int| 0 <= j < terms.len() && term_entry(#[trigger] terms[j]) is Some ==> term_entries(terms).contains(term_entry(terms[j])->0),
        forall|v: ArchetypeInfo| #[trigger] term_entries(terms).contains(v) ==> exists|j: int| 0 <= j < terms.len() && term_entry(#[trigger] terms[j]) == Some(v),
    decreases terms.len(),
{
    if terms.len() > 0 {
        let f = terms.drop_last();
        lemma_term_entries_members(f);
        let rest = term_entries(f);
        let all = term_entries(terms);
        assert forall|j: int| 0 <= j < terms.len() && term_entry(#[trigger] terms[j]) is Some implies all.contains(term_entry(terms[j])->0) by {
            if j < terms.len() - 1 {
                assert(f[j] == terms[j]);
                assert(rest.contains(term_entry(terms[j])->0));
                let i = choose|i: int| 0 <= i < rest.len() && rest[i] == term_entry(terms[j])->0;
                assert(all[i] == rest[i]);
            } else {
                assert(all[all.len() - 1] == term_entry(terms[j])->0);
            }
        }
        assert forall|v: ArchetypeInfo| #[trigger] all.contains(v) implies exists|j: int| 0 <= j < terms.len() && term_entry(#[trigger] terms[j]) == Some(v) by {
            let i = choose|i: int| 0 <= i < all.len() && all[i] == v;
            if i < rest.len() {
                assert(rest[i] == v);
                assert(rest.contains(v));
                let j = choose|j: int| 0 <= j < f.len() && term_entry(#[trigger] f[j]) == Some(v);
                assert(terms[j] == f[j]);
            } else {
                assert(term_entry(terms[terms.len() - 1]) == Some(v));
            }
        }
    }
}

/// An archetype passes `is_subset_of` against the query's archetype exactly
/// when the terms admit it.
pub proof fn lemma_admitted(a: Archetype, q: Archetype, terms: Seq<QueryTerm>)
    requires
        q.infos() == insert_infos(Seq::empty(), term_entries(terms)),
        distinct_tys(term_entries(terms)),
    ensures
        a.admitted_by(&q) <==> terms_admit(terms, a.infos()),
{
    lemma_insert_infos(Seq::empty(), term_entries(terms));
    lemma_term_entries_members(terms);
    let es = term_entries(terms);
    assert(forall|v: ArchetypeInfo| #[trigger] q.infos().contains(v) <==> es.contains(v)) by {
        assert forall|v: ArchetypeInfo| #[trigger] q.infos().contains(v) <==> es.contains(v) by {
            assert(!Seq::<ArchetypeInfo>::empty().contains(v));
        }
    }
    if a.admitted_by(&q) {
        assert forall|j: int| 0 <= j < terms.len() implies match term_entry(#[trigger] terms[j]) {
            Some(e) => (e.state == ArchetypeState::Without ==> !holds_ty(a.infos(), e.ty)) && (e.state
                == ArchetypeState::Component ==> holds_ty(a.infos(), e.ty)),
            None => true,
        } by {
            if let Some(e) = term_entry(terms[j]) {
                assert(es.contains(e));
                assert(q.infos().contains(e));
                let i = choose|i: int| 0 <= i < q.infos().len() && q.infos()[i] == e;
                assert(q.infos()[i] == e);
            }
        }
    }
    if terms_admit(terms, a.infos()) {
        assert forall|i: int| 0 <= i < q.len implies {
            let info = #[trigger] q.infos()[i];
            if info.state == ArchetypeState::Without {
                !holds_ty(a.infos(), info.ty)
            } else {
                holds_ty(a.infos(), info.ty) || info.state != ArchetypeState::Component
            }
        } by {
            let info = q.infos()[i];
            assert(q.infos().contains(info));
            assert(es.contains(info));
            let j = choose|j: int| 0 <= j < terms.len() && term_entry(#[trigger] terms[j]) == Some(info);
            assert(term_entry(terms[j]) == Some(info));
        }
    }
}

/// The translations a storage of archetype `a` gives the terms: the offset
/// of each required component, and of each optional component present.
pub open spec fn term_translations(terms: Seq<QueryTerm>, a: Archetype) -> Seq<usize>
    decreases terms.len(),
{
    if terms.len() == 0 {
        Seq::empty()
    } else {
        let rest = term_translations(terms.drop_last(), a);
        match terms.last() {
            QueryTerm::Component { info, .. } => rest.push(a.spec_translation(info.ty)->0),
            QueryTerm::OptionalComponent { info, .. } => match a.spec_translation(info.ty) {
                Some(t) => rest.push(t),
                None => rest,
            },
            _ => rest,
        }
    }
}

/// The offsets of the terms' components within a row of a storage of
/// archetype `storage_archetype`, in the order of the terms.
pub fn translations(terms: &Vec<QueryTerm>, storage_archetype: &Archetype) -> (r: Vec<usize>)
    requires
        storage_archetype.wf(),
        terms_admit(terms@, storage_archetype.infos()),
    ensures
        r@ == term_translations(terms@, *storage_archetype),
{
    let mut r: Vec<usize> = Vec::new();
    let mut i: usize = 0;
    proof {
        storage_archetype.lemma_prefix_fits();
        assert(terms@.take(0) =~= Seq::<QueryTerm>::empty());
    }
    while i < terms.len()
        invariant
            i <= terms@.len(),
            storage_archetype.wf(),
            terms_admit(terms@, storage_archetype.infos()),
            forall|k: int| 0 <= k <= storage_archetype.len ==> #[trigger] crate::archetype::sum_sizes(storage_archetype.infos().take(k)) <= storage_archetype.spec_total_size(),
            storage_archetype.spec_total_size() <= usize::MAX,
            r@ == term_translations(terms@.take(i as int), *storage_archetype),
        decreases terms@.len() - i,
    {
        proof {
            assert(terms@.take(i + 1).drop_last() =~= terms@.take(i as int));
            assert(terms@.take(i + 1).last() == terms@[i as int]);
        }
        match &terms[i] {
            QueryTerm::Component { info, .. } => {
                proof {
                    crate::archetype::lemma_position_of(storage_archetype.infos(), info.ty);
                    assert(term_entry(terms@[i as int]) is Some);
                }
                let t = storage_archetype.translation(info.ty);
                r.push(t.unwrap());
            },
            QueryTerm::OptionalComponent { info, .. } => {
                proof {
                    crate::archetype::lemma_position_of(storage_archetype.infos(), info.ty);
                }
                if let Some(t) = storage_archetype.translation(info.ty) {
                    r.push(t);
                }
            },
            _ => {},
        }
        i = i + 1;
    }
    proof {
        assert(terms@.take(terms@.len() as int) =~= terms@);
    }
    r
}

/// What a query yields for one term of one entity: a copy of the
/// component's bytes, of the optional component's bytes if any, the marker of
/// an absent component, a copy of the resource's bytes, of the optional
/// resource's bytes if any, the entity, or the marker of the command queue.
#[derive(Debug, PartialEq, Eq)]
pub enum QueryValue {
    Component(Vec<u8>),
    OptionalComponent(Option<Vec<u8>>),
    Without,
    Resource(Vec<u8>),
    OptionalResource(Option<Vec<u8>>),
    Entity(Entity),
    Commands,
}

/// `v` is what the term `t` yields for the entity `x` of `registry`.
pub open spec fn value_ok(registry: Registry, t: QueryTerm, x: u64, v: QueryValue) -> bool {
    match t {
        QueryTerm::Component { info, .. } => v matches QueryValue::Component(b) && registry.component(x, info.ty) == Some(b@),
        QueryTerm::OptionalComponent { info, .. } => v matches QueryValue::OptionalComponent(o) && match o {
            Some(b) => registry.component(x, info.ty) == Some(b@),
            None => registry.component(x, info.ty) is None,
        },
        QueryTerm::Without { .. } => v is Without,
        QueryTerm::Resource { info, .. } => v matches QueryValue::Resource(b) && registry.resource_bytes().contains_key(info.ty) && registry.resource_bytes()[info.ty] == b@,
        QueryTerm::OptionalResource { info, .. } => v matches QueryValue::OptionalResource(o) && match o {
            Some(b) => registry.resource_bytes().contains_key(info.ty) && registry.resource_bytes()[info.ty] == b@,
            None => !registry.resource_bytes().contains_key(info.ty),
        },
        QueryTerm::Entity => v == QueryValue::Entity(Entity { id: x }),
        QueryTerm::Commands => v is Commands,
    }
}

/// Every resource that a term requires is there.
pub open spec fn resources_present(registry: Registry, terms: Seq<QueryTerm>) -> bool {
    forall|j: int| 0 <= j < terms.len() ==> match #[trigger] terms[j] {
        QueryTerm::Resource { info, .. } => registry.resource_bytes().contains_key(info.ty),
        _ => true,
    }
}

/// One storage a query goes through: its index, its number of rows, the
/// width of a row, and the offsets of the terms' components in a row.
pub struct QueryMatch {
    pub storage: usize,
    pub len: usize,
    pub total_size: usize,
    pub translations: Vec<usize>,
}

/// A query over a registry: the storages it goes through, and a cursor of
/// storage (`outer`) and row (`inner`).
pub struct Query {
    pub terms: Vec<QueryTerm>,
    pub mapping: Vec<QueryMatch>,
    pub inner: usize,
    pub outer: usize,
}

impl Query {
    /// The storages of the query are storages of `registry` that have rows
    /// and whose archetype the terms admit, in increasing order, with their
    /// row counts, widths and offsets; the cursor is within them.
    pub open spec fn matches_registry(&self, registry: &Registry) -> bool {
        &&& forall|i: int| 0 <= i < self.mapping@.len() ==> {
            let m = #[trigger] self.mapping@[i];
            let st = registry.storage@[m.storage as int];
            &&& m.storage < registry.storage@.len()
            &&& m.len == st.rows()
            &&& m.len > 0
            &&& m.total_size == st.row_size()
            &&& m.translations@ == term_translations(self.terms@, st.archetype)
            &&& terms_admit(self.terms@, st.archetype.infos())
        }
        &&& forall|i: int, j: int| 0 <= i < j < self.mapping@.len() ==> #[trigger] self.mapping@[i].storage < #[trigger] self.mapping@[j].storage
        &&& self.outer <= self.mapping@.len()
        &&& self.outer < self.mapping@.len() ==> self.inner <= self.mapping@[self.outer as int].len
    }

    /// The query goes through every storage of `registry` that has rows and
    /// whose archetype the terms admit.
    pub open spec fn complete_for(&self, registry: &Registry) -> bool {
        forall|k: int|
            0 <= k < registry.storage@.len() ==> ((exists|i: int| 0 <= i < self.mapping@.len() && #[trigger] self.mapping@[i].storage == k) <==> (
            registry.storage@[k].data@.len() != 0 && terms_admit(self.terms@, registry.storage@[k].archetype.infos())))
    }

    /// The storage and row the next call of `next` yields, if any.
    pub open spec fn next_pos(&self) -> Option<(int, int)> {
        if self.outer >= self.mapping@.len() {
            None
        } else if self.inner >= self.mapping@[self.outer as int].len {
            if self.outer + 1 >= self.mapping@.len() {
                None
            } else {
                Some((self.outer + 1, 0))
            }
        } else {
            Some((self.outer as int, self.inner as int))
        }
    }

    /// A query made over `registry` goes through the row of every entity
    /// whose archetype the terms admit and that has a row: one of its
    /// storages is that entity's, and holds that row.
    pub proof fn lemma_covers(&self, registry: &Registry, id: u64)
        requires
            registry.wf(),
            self.matches_registry(registry),
            self.complete_for(registry),
            registry.archetypes().contains_key(id),
            registry.archetypes()[id].len != 0,
            terms_admit(self.terms@, registry.archetypes()[id].infos()),
            registry.storage@[registry.storage_for(registry.archetypes()[id])].contains(id),
        ensures
            exists|o: int|
                0 <= o < self.mapping@.len() && #[trigger] self.mapping@[o].storage == registry.storage_for(
                    registry.archetypes()[id],
                ) && registry.storage@[self.mapping@[o].storage as int].index_of(id) < self.mapping@[o].len,
    {
        let a = registry.archetypes()[id];
        assert(registry.has_storage_for(a));
        let k = registry.storage_for(a);
        let st = registry.storage@[k];
        assert(st.wf());
        assert(a.wf());
        crate::archetype::lemma_same_equiv(st.archetype, a, a);
        crate::archetype::lemma_same_shape(a, st.archetype);
        assert(forall|ty: ComponentId| #[trigger] holds_ty(a.infos(), ty) == holds_ty(st.archetype.infos(), ty));
        assert(terms_admit(self.terms@, st.archetype.infos())) by {
            assert forall|j: int| 0 <= j < self.terms@.len() implies match term_entry(#[trigger] self.terms@[j]) {
                Some(e) => (e.state == ArchetypeState::Without ==> !holds_ty(st.archetype.infos(), e.ty)) && (e.state
                    == ArchetypeState::Component ==> holds_ty(st.archetype.infos(), e.ty)),
                None => true,
            } by {
                if let Some(e) = term_entry(self.terms@[j]) {
                    assert(holds_ty(a.infos(), e.ty) == holds_ty(st.archetype.infos(), e.ty));
                }
            }
        }
        let r = st.index_of(id);
        assert(r < st.rows());
        lemma_row_bounds(r, st.rows() as int, st.row_size() as int);
        assert(st.row_size() != 0);
        assert(st.data@.len() != 0) by (nonlinear_arith)
            requires
                st.data@.len() == st.rows() * st.row_size(),
                st.row_size() != 0,
                r < st.rows(),
                0 <= r,
        ;
        let o = choose|o: int| 0 <= o < self.mapping@.len() && #[trigger] self.mapping@[o].storage == k;
        assert(self.mapping@[o].len == st.rows());
    }

    /// What the query yields for row `r` of the storage at `k`: for each
    /// term, what it yields for the entity of that row.
    pub open spec fn item_ok(&self, registry: &Registry, k: int, r: int, vals: Seq<QueryValue>) -> bool {
        &&& vals.len() == self.terms@.len()
        &&& forall|j: int| 0 <= j < vals.len() ==> value_ok(*registry, self.terms@[j], registry.storage@[k].mapping@[r].id, #[trigger] vals[j])
    }
}

/// The rows of the storages of `mapping` before the one at `o`.
pub open spec fn rows_before(mapping: Seq<QueryMatch>, o: int) -> int
    decreases o,
{
    if o <= 0 {
        0
    } else {
        rows_before(mapping, o - 1) + mapping[o - 1].len
    }
}

/// Where the item of row `r` of the storage at `o` comes among all items of a
/// query.
pub open spec fn item_index(mapping: Seq<QueryMatch>, o: int, r: int) -> int {
    rows_before(mapping, o) + r
}

/// One more storage adds its rows.
pub proof fn lemma_rows_before_grows(mapping: Seq<QueryMatch>, o: int)
    requires
        0 <= o,
    ensures
        rows_before(mapping, o + 1) == rows_before(mapping, o) + mapping[o].len,
        rows_before(mapping, o) >= 0,
    decreases o,
{
    if o > 0 {
        lemma_rows_before_grows(mapping, o - 1);
    }
}

/// Later storages come after more rows.
pub proof fn lemma_rows_before_mono(mapping: Seq<QueryMatch>, a: int, b: int)
    requires
        0 <= a <= b,
    ensures
        rows_before(mapping, a) <= rows_before(mapping, b),
    decreases b - a,
{
    if a < b {
        lemma_rows_before_mono(mapping, a, b - 1);
        lemma_rows_before_grows(mapping, b - 1);
    }
}

/// The translations of a prefix of the terms are a prefix of their
/// translations.
pub proof fn lemma_term_translations_prefix(terms: Seq<QueryTerm>, a: Archetype, i: int)
    requires
        0 <= i <= terms.len(),
    ensures
        term_translations(terms.take(i), a).len() <= term_translations(terms, a).len(),
        forall|j: int| 0 <= j < term_translations(terms.take(i), a).len() ==> #[trigger] term_translations(terms.take(i), a)[j] == term_translations(terms, a)[j],
    decreases terms.len() - i,
{
    if i < terms.len() {
        assert(terms.take(i + 1).drop_last() =~= terms.take(i));
        assert(terms.take(i + 1).last() == terms[i]);
        lemma_term_translations_prefix(terms, a, i + 1);
        let x = term_translations(terms.take(i), a);
        let y = term_translations(terms.take(i + 1), a);
        assert forall|j: int| 0 <= j < x.len() implies #[trigger] x[j] == term_translations(terms, a)[j] by {
            assert(x[j] == y[j]);
        }
    } else {
        assert(terms.take(i) =~= terms);
    }
}

/// A copy of `len` bytes of `v` from `start` on.
pub fn copy_bytes(v: &Vec<u8>, start: usize, len: usize) -> (r: Vec<u8>)
    requires
        start + len <= v@.len(),
    ensures
        r@ == v@.subrange(start as int, start + len),
{
    let mut r: Vec<u8> = Vec::new();
    let mut q: usize = 0;
    let n = v.len();
    while q < len
        invariant
            q <= len,
            n == v@.len(),
            start + len <= v@.len(),
            r@ == v@.subrange(start as int, start + q),
        decreases len - q,
    {
        r.push(v[start + q]);
        proof {
            assert(v@.subrange(start as int, start + q + 1) =~= v@.subrange(start as int, start + q).push(v@[start + q]));
        }
        q = q + 1;
    }
    r
}

/// The query of `terms` over `registry`: the storages that have rows and
/// whose archetype the terms admit, with the cursor at the start.
#[verifier::spinoff_prover]
pub fn query(registry: &Registry, terms: Vec<QueryTerm>) -> (r: Query)
    requires
        registry.wf(),
        distinct_tys(term_entries(terms@)),
        term_entries(terms@).len() <= 32,
    ensures
        r.terms@ == terms@,
        r.inner == 0,
        r.outer == 0,
        r.matches_registry(registry),
        r.complete_for(registry),
{
    let query_archetype = query_archetype(&terms);
    let mut mapping: Vec<QueryMatch> = Vec::new();
    let mut k: usize = 0;
    while k < registry.storage.len()
        invariant
            registry.wf(),
            k <= registry.storage@.len(),
            query_archetype.valid(),
            query_archetype.infos() == insert_infos(Seq::empty(), term_entries(terms@)),
            distinct_tys(term_entries(terms@)),
            forall|i: int| 0 <= i < mapping@.len() ==> {
                let m = #[trigger] mapping@[i];
                let st = registry.storage@[m.storage as int];
                &&& m.storage < k
                &&& m.len == st.rows()
                &&& m.len > 0
                &&& m.total_size == st.row_size()
                &&& m.translations@ == term_translations(terms@, st.archetype)
                &&& terms_admit(terms@, st.archetype.infos())
            },
            forall|i: int, j: int| 0 <= i < j < mapping@.len() ==> #[trigger] mapping@[i].storage < #[trigger] mapping@[j].storage,
            forall|kk: int|
                0 <= kk < k ==> ((exists|i: int| 0 <= i < mapping@.len() && #[trigger] mapping@[i].storage == kk) <==> (
                registry.storage@[kk].data@.len() != 0 && terms_admit(terms@, registry.storage@[kk].archetype.infos()))),
        decreases registry.storage@.len() - k,
    {
        let st = &registry.storage[k];
        proof {
            assert(st.wf());
            lemma_admitted(st.archetype, query_archetype, terms@);
        }
        let ghost before = mapping@;
        if st.data.len() != 0 && st.archetype.is_subset_of(query_archetype) {
            proof {
                if st.rows() == 0 {
                    assert(st.data@.len() == 0) by (nonlinear_arith)
                        requires
                            st.data@.len() == st.rows() * st.row_size(),
                            st.rows() == 0,
                    ;
                }
                registry.lemma_storage_sorted(k as int);
            }
            let translations = translations(&terms, &st.archetype);
            let total_size = st.archetype.total_size();
            proof {
                let n = st.rows() as int;
                let t = st.row_size() as int;
                if t == 0 {
                    assert(n == 0);
                    assert(st.data@.len() == 0) by (nonlinear_arith)
                        requires
                            st.data@.len() == n * t,
                            t == 0,
                    ;
                }
                assert((n * t) / t == n) by (nonlinear_arith)
                    requires
                        t > 0,
                ;
                assert(n > 0) by (nonlinear_arith)
                    requires
                        st.data@.len() == n * t,
                        st.data@.len() != 0,
                        n >= 0,
                ;
            }
            let len = st.data.len() / total_size;
            mapping.push(QueryMatch { storage: k, len, total_size, translations });
            proof {
                assert forall|kk: int|
                    0 <= kk < k + 1 implies ((exists|i: int| 0 <= i < mapping@.len() && #[trigger] mapping@[i].storage == kk) <==> (
                    registry.storage@[kk].data@.len() != 0 && terms_admit(terms@, registry.storage@[kk].archetype.infos()))) by {
                    if kk == k {
                        assert(mapping@[mapping@.len() - 1].storage == kk);
                    } else {
                        if exists|i: int| 0 <= i < mapping@.len() && #[trigger] mapping@[i].storage == kk {
                            let i = choose|i: int| 0 <= i < mapping@.len() && #[trigger] mapping@[i].storage == kk;
                            assert(i < before.len());
                            assert(before[i].storage == kk);
                        }
                        if registry.storage@[kk].data@.len() != 0 && terms_admit(terms@, registry.storage@[kk].archetype.infos()) {
                            let i = choose|i: int| 0 <= i < before.len() && #[trigger] before[i].storage == kk;
                            assert(mapping@[i].storage == kk);
                        }
                    }
                }
            }
        } else {
            proof {
                assert forall|kk: int|
                    0 <= kk < k + 1 implies ((exists|i: int| 0 <= i < mapping@.len() && #[trigger] mapping@[i].storage == kk) <==> (
                    registry.storage@[kk].data@.len() != 0 && terms_admit(terms@, registry.storage@[kk].archetype.infos()))) by {
                    if kk == k {
                        if exists|i: int| 0 <= i < mapping@.len() && #[trigger] mapping@[i].storage == kk {
                            let i = choose|i: int| 0 <= i < mapping@.len() && #[trigger] mapping@[i].storage == kk;
                            assert(mapping@[i].storage < k);
                        }
                    }
                }
            }
        }
        k = k + 1;
    }
    let r = Query { terms, mapping, inner: 0, outer: 0 };
    proof {
        assert(k == registry.storage@.len());
        assert(r.terms@ == terms@);
        assert(r.mapping@ == mapping@);
    }
    r
}

impl Query {
    /// What the query yields for row `row` of its storage number `o`.
    #[verifier::spinoff_prover]
    fn item(&self, registry: &Registry, o: usize, row: usize) -> (vals: Vec<QueryValue>)
        requires
            registry.wf(),
            self.matches_registry(registry),
            o < self.mapping@.len(),
            row < self.mapping@[o as int].len,
            resources_present(*registry, self.terms@),
        ensures
            self.item_ok(registry, self.mapping@[o as int].storage as int, row as int, vals@),
    {
        let m = &self.mapping[o];
        let k = m.storage;
        let st = &registry.storage[k];
        let x = st.mapping[row];
        let ghost a = st.archetype;
        let ghost tt = st.row_size() as int;
        proof {
            registry.lemma_row_component(k as int, row as int);
            assert(st.wf());
            registry.lemma_storage_sorted(k as int);
            lemma_row_bounds(row as int, st.rows() as int, tt);
            a.lemma_prefix_fits();
            assert(self.terms@.take(0) =~= Seq::<QueryTerm>::empty());
        }
        let data_len = st.data.len();
        let base = row * m.total_size;
        let mut idx: usize = 0;
        let mut vals: Vec<QueryValue> = Vec::new();
        let mut j: usize = 0;
        while j < self.terms.len()
            invariant
                registry.wf(),
                self.matches_registry(registry),
                o < self.mapping@.len(),
                m == &self.mapping@[o as int],
                k == m.storage,
                st == &registry.storage@[k as int],
                a == st.archetype,
                a.wf(),
                tt == st.row_size(),
                x == st.mapping@[row as int],
                row < st.rows(),
                base == row * tt,
                base + tt <= st.data@.len(),
                data_len == st.data@.len(),
                forall|p: int| 0 <= p <= a.len ==> #[trigger] sum_sizes(a.infos().take(p)) <= a.spec_total_size(),
                a.spec_total_size() == tt,
                resources_present(*registry, self.terms@),
                j <= self.terms@.len(),
                idx == term_translations(self.terms@.take(j as int), a).len(),
                vals@.len() == j,
                forall|jj: int| 0 <= jj < j ==> value_ok(*registry, self.terms@[jj], x.id, #[trigger] vals@[jj]),
                forall|ty: ComponentId| #[trigger] registry.component(x.id, ty) == match position_of(a.infos(), ty) {
                    Some(p) => Some(entry_bytes(a.infos(), st.row(row as int), p)),
                    None => None,
                },
            decreases self.terms@.len() - j,
        {
            let ghost tj = self.terms@[j as int];
            proof {
                assert(self.terms@.take(j + 1).drop_last() =~= self.terms@.take(j as int));
                assert(self.terms@.take(j + 1).last() == tj);
                lemma_term_translations_prefix(self.terms@, a, j + 1);
            }
            let v = match &self.terms[j] {
                QueryTerm::Component { info, .. } => {
                    proof {
                        assert(term_entry(self.terms@[j as int]) is Some);
                        lemma_position_of(a.infos(), info.ty);
                    }
                    let p = st.archetype.position(info.ty).unwrap();
                    proof {
                        let nxt = term_translations(self.terms@.take(j + 1), a);
                        assert(nxt.len() == idx + 1);
                        assert(m.translations@ == term_translations(self.terms@, a));
                        assert(nxt[idx as int] == m.translations@[idx as int]);
                    }
                    let t = m.translations[idx];
                    let ntr = m.translations.len();
                    idx = idx + 1;
                    let size = st.archetype.info[p].unwrap().size;
                    proof {
                        lemma_entry_within(a.infos(), p as int);
                        let off = sum_sizes(a.infos().take(p as int)) as int;
                        assert(t == off);
                        assert(st.data@.subrange(base + t, base + t + size) =~= entry_bytes(a.infos(), st.row(row as int), p as int));
                    }
                    QueryValue::Component(copy_bytes(&st.data, base + t, size))
                },
                QueryTerm::OptionalComponent { info, .. } => {
                    proof {
                        lemma_position_of(a.infos(), info.ty);
                    }
                    match st.archetype.position(info.ty) {
                        Some(p) => {
                            proof {
                                let nxt = term_translations(self.terms@.take(j + 1), a);
                                assert(nxt.len() == idx + 1);
                                assert(m.translations@ == term_translations(self.terms@, a));
                                assert(nxt[idx as int] == m.translations@[idx as int]);
                            }
                            let t = m.translations[idx];
                            let ntr = m.translations.len();
                            idx = idx + 1;
                            let size = st.archetype.info[p].unwrap().size;
                            proof {
                                lemma_entry_within(a.infos(), p as int);
                                let off = sum_sizes(a.infos().take(p as int)) as int;
                                assert(t == off);
                                assert(st.data@.subrange(base + t, base + t + size) =~= entry_bytes(a.infos(), st.row(row as int), p as int));
                            }
                            QueryValue::OptionalComponent(Some(copy_bytes(&st.data, base + t, size)))
                        },
                        None => QueryValue::OptionalComponent(None),
                    }
                },
                QueryTerm::Without { .. } => QueryValue::Without,
                QueryTerm::Resource { info, .. } => {
                    proof {
                        assert(registry.resource_bytes().contains_key(info.ty));
                    }
                    let b = registry.resource(info.ty).unwrap();
                    let c = copy_bytes(b, 0, b.len());
                    proof {
                        assert(b@.subrange(0, b@.len() as int) =~= b@);
                    }
                    QueryValue::Resource(c)
                },
                QueryTerm::OptionalResource { info, .. } => {
                    match registry.resource(info.ty) {
                        Some(b) => {
                            let c = copy_bytes(b, 0, b.len());
                            proof {
                                assert(b@.subrange(0, b@.len() as int) =~= b@);
                            }
                            QueryValue::OptionalResource(Some(c))
                        },
                        None => QueryValue::OptionalResource(None),
                    }
                },
                QueryTerm::Entity => QueryValue::Entity(x),
                QueryTerm::Commands => QueryValue::Commands,
            };
            vals.push(v);
            j = j + 1;
        }
        proof {
            assert(self.terms@.take(self.terms@.len() as int) =~= self.terms@);
        }
        vals
    }

    /// How many items the query has yielded so far: the rows of the storages
    /// before the cursor's, and those of the cursor's storage it has passed.
    pub open spec fn yielded(&self) -> int {
        if self.outer >= self.mapping@.len() {
            rows_before(self.mapping@, self.mapping@.len() as int)
        } else {
            rows_before(self.mapping@, self.outer as int) + self.inner
        }
    }

    /// The next item a query yields is the one at the position of the items
    /// yielded so far, and it yields none once it has yielded them all: so
    /// from its start, the calls of `next` yield the items of `items` in
    /// order, and then `None` for good.
    pub proof fn lemma_cursor(&self, registry: &Registry)
        requires
            self.matches_registry(registry),
        ensures
            self.next_pos() is None <==> self.yielded() == rows_before(self.mapping@, self.mapping@.len() as int),
            self.next_pos() matches Some((o, i)) ==> item_index(self.mapping@, o, i) == self.yielded(),
            self.yielded() <= rows_before(self.mapping@, self.mapping@.len() as int),
            self.outer == 0 && self.inner == 0 ==> self.yielded() == 0,
    {
        let len = self.mapping@.len() as int;
        let o = self.outer as int;
        if o < len {
            lemma_rows_before_grows(self.mapping@, o);
            lemma_rows_before_mono(self.mapping@, o + 1, len);
            if self.inner >= self.mapping@[o].len && o + 1 < len {
                lemma_rows_before_grows(self.mapping@, o + 1);
                lemma_rows_before_mono(self.mapping@, o + 2, len);
            }
        }
        if self.outer == 0 && self.inner == 0 && len == 0 {
            assert(rows_before(self.mapping@, 0) == 0);
        }
    }

    /// Every item of the query, storage after storage and row after row:
    /// the item of row `r` of the storage at `o` comes at
    /// `item_index(mapping, o, r)`.
    pub fn items(&self, registry: &Registry) -> (vals: Vec<Vec<QueryValue>>)
        requires
            registry.wf(),
            self.matches_registry(registry),
            self.mapping@.len() > 0 ==> resources_present(*registry, self.terms@),
        ensures
            vals@.len() == rows_before(self.mapping@, self.mapping@.len() as int),
            forall|o: int, r: int|
                0 <= o < self.mapping@.len() && 0 <= r < self.mapping@[o].len ==> self.item_ok(
                    registry,
                    self.mapping@[o].storage as int,
                    r,
                    (#[trigger] vals@[item_index(self.mapping@, o, r)])@,
                ),
    {
        let mut vals: Vec<Vec<QueryValue>> = Vec::new();
        let mut o: usize = 0;
        while o < self.mapping.len()
            invariant
                registry.wf(),
                self.matches_registry(registry),
                self.mapping@.len() > 0 ==> resources_present(*registry, self.terms@),
                o <= self.mapping@.len(),
                vals@.len() == rows_before(self.mapping@, o as int),
                forall|p: int, r: int|
                    0 <= p < o && 0 <= r < self.mapping@[p].len ==> self.item_ok(
                        registry,
                        self.mapping@[p].storage as int,
                        r,
                        (#[trigger] vals@[item_index(self.mapping@, p, r)])@,
                    ),
                forall|p: int, q: int|
                    0 <= p < o && 0 <= q < self.mapping@[p].len ==> item_index(self.mapping@, p, q)
                        < rows_before(self.mapping@, o as int),
            decreases self.mapping@.len() - o,
        {
            proof {
                lemma_rows_before_grows(self.mapping@, o as int);
            }
            let mut r: usize = 0;
            while r < self.mapping[o].len
                invariant
                    registry.wf(),
                    self.matches_registry(registry),
                    resources_present(*registry, self.terms@),
                    o < self.mapping@.len(),
                    r <= self.mapping@[o as int].len,
                    vals@.len() == rows_before(self.mapping@, o as int) + r,
                    forall|p: int, q: int|
                        0 <= p < o && 0 <= q < self.mapping@[p].len ==> self.item_ok(
                            registry,
                            self.mapping@[p].storage as int,
                            q,
                            (#[trigger] vals@[item_index(self.mapping@, p, q)])@,
                        ),
                    forall|q: int|
                        0 <= q < r ==> self.item_ok(
                            registry,
                            self.mapping@[o as int].storage as int,
                            q,
                            (#[trigger] vals@[item_index(self.mapping@, o as int, q)])@,
                        ),
                    forall|p: int, q: int|
                        0 <= p < o && 0 <= q < self.mapping@[p].len ==> item_index(self.mapping@, p, q)
                            < rows_before(self.mapping@, o as int),
                decreases self.mapping@[o as int].len - r,
            {
                let item = self.item(registry, o, r);
                let ghost before = vals@;
                vals.push(item);
                proof {
                    assert(vals@[item_index(self.mapping@, o as int, r as int)] == item);
                    assert forall|p: int, q: int|
                        0 <= p < o && 0 <= q < self.mapping@[p].len implies self.item_ok(
                            registry,
                            self.mapping@[p].storage as int,
                            q,
                            (#[trigger] vals@[item_index(self.mapping@, p, q)])@,
                        ) by {
                        lemma_rows_before_grows(self.mapping@, p);
                        assert(vals@[item_index(self.mapping@, p, q)] == before[item_index(self.mapping@, p, q)]);
                    }
                    assert forall|q: int| 0 <= q < r + 1 implies self.item_ok(
                        registry,
                        self.mapping@[o as int].storage as int,
                        q,
                        (#[trigger] vals@[item_index(self.mapping@, o as int, q)])@,
                    ) by {
                        if q < r {
                            lemma_rows_before_grows(self.mapping@, o as int);
                            assert(vals@[item_index(self.mapping@, o as int, q)] == before[item_index(self.mapping@, o as int, q)]);
                        }
                    }
                }
                r = r + 1;
            }
            proof {
                assert forall|p: int, q: int|
                    0 <= p < o + 1 && 0 <= q < self.mapping@[p].len implies item_index(self.mapping@, p, q)
                        < rows_before(self.mapping@, o + 1) by {
                    lemma_rows_before_grows(self.mapping@, p);
                    lemma_rows_before_mono(self.mapping@, p + 1, o + 1);
                }
            }
            o = o + 1;
        }
        vals
    }

    /// Yields what the query has for the next row, and moves past it; `None`
    /// once every row of every storage has been yielded.
    pub fn next(&mut self, registry: &Registry) -> (r: Option<Vec<QueryValue>>)
        requires
            registry.wf(),
            old(self).matches_registry(registry),
            old(self).next_pos() is Some ==> resources_present(*registry, old(self).terms@),
        ensures
            final(self).terms == old(self).terms,
            final(self).mapping == old(self).mapping,
            final(self).matches_registry(registry),
            match old(self).next_pos() {
                None => r is None && final(self).next_pos() is None,
                Some((o, i)) => {
                    &&& r is Some
                    &&& old(self).item_ok(registry, old(self).mapping@[o].storage as int, i, r->0@)
                    &&& final(self).outer == o
                    &&& final(self).inner == i + 1
                },
            },
            final(self).yielded() == if r is Some {
                old(self).yielded() + 1
            } else {
                old(self).yielded()
            },
    {
        proof {
            self.lemma_cursor(registry);
        }
        if self.mapping.len() == 0 {
            return None;
        }
        if self.outer >= self.mapping.len() {
            return None;
        }
        if self.inner >= self.mapping[self.outer].len {
            self.outer = self.outer + 1;
            self.inner = 0;
        }
        if self.outer >= self.mapping.len() {
            return None;
        }
        let row = self.inner;
        self.inner = self.inner + 1;
        let vals = self.item(registry, self.outer, row);
        Some(vals)
    }
}

/// What a term and the value handed back for it write: to a resource
/// (`true`) or a component (`false`) of a type, the value's bytes. Only a
/// mutable term writes, and an optional one only where it holds a value.
pub open spec fn write_of(t: QueryTerm, v: QueryValue) -> Option<(bool, ComponentId, Seq<u8>)> {
    match t {
        QueryTerm::Component { info, mutable } => match v {
            QueryValue::Component(b) => if mutable { Some((false, info.ty, b@)) } else { None },
            _ => None,
        },
        QueryTerm::OptionalComponent { info, mutable } => match v {
            QueryValue::OptionalComponent(Some(b)) => if mutable { Some((false, info.ty, b@)) } else { None },
            _ => None,
        },
        QueryTerm::Resource { info, mutable } => match v {
            QueryValue::Resource(b) => if mutable { Some((true, info.ty, b@)) } else { None },
            _ => None,
        },
        QueryTerm::OptionalResource { info, mutable } => match v {
            QueryValue::OptionalResource(Some(b)) => if mutable { Some((true, info.ty, b@)) } else { None },
            _ => None,
        },
        _ => None,
    }
}

/// The writes of terms and values taken pairwise, up to the shorter of the
/// two, in order.
pub open spec fn writes(terms: Seq<QueryTerm>, values: Seq<QueryValue>) -> Seq<Option<(bool, ComponentId, Seq<u8>)>> {
    let n = if terms.len() < values.len() {
        terms.len()
    } else {
        values.len()
    };
    Seq::new(n, |i: int| write_of(terms[i], values[i]))
}

/// The bytes that a resource (`res`) or a component of type `ty` holding
/// `start` holds after the writes `ws`: every write to it takes effect, one
/// to a component only where it brings as many bytes as the component has.
pub open spec fn after_writes(
    ws: Seq<Option<(bool, ComponentId, Seq<u8>)>>,
    res: bool,
    ty: ComponentId,
    start: Seq<u8>,
) -> Seq<u8>
    decreases ws.len(),
{
    if ws.len() == 0 {
        start
    } else {
        let prev = after_writes(ws.drop_last(), res, ty, start);
        match ws.last() {
            Some(w) => if w.0 == res && w.1 == ty && (res || w.2.len() == prev.len()) {
                w.2
            } else {
                prev
            },
            None => prev,
        }
    }
}

/// Writes to a component keep its length.
pub proof fn lemma_after_writes_len(ws: Seq<Option<(bool, ComponentId, Seq<u8>)>>, ty: ComponentId, start: Seq<u8>)
    ensures
        after_writes(ws, false, ty, start).len() == start.len(),
    decreases ws.len(),
{
    if ws.len() > 0 {
        lemma_after_writes_len(ws.drop_last(), ty, start);
    }
}

/// What the term `t` and the value `v` write, with a copy of the bytes.
fn write_target(t: &QueryTerm, v: &QueryValue) -> (r: Option<(bool, ComponentId, Vec<u8>)>)
    ensures
        match r {
            Some(w) => write_of(*t, *v) == Some((w.0, w.1, w.2@)),
            None => write_of(*t, *v) is None,
        },
{
    let (res, ty, b) = match (t, v) {
        (QueryTerm::Component { info, mutable }, QueryValue::Component(b)) => (false, info.ty, if *mutable { Some(b) } else { None }),
        (QueryTerm::OptionalComponent { info, mutable }, QueryValue::OptionalComponent(Some(b))) => (false, info.ty, if *mutable { Some(b) } else { None }),
        (QueryTerm::Resource { info, mutable }, QueryValue::Resource(b)) => (true, info.ty, if *mutable { Some(b) } else { None }),
        (QueryTerm::OptionalResource { info, mutable }, QueryValue::OptionalResource(Some(b))) => (true, info.ty, if *mutable { Some(b) } else { None }),
        _ => (false, 0, None),
    };
    match b {
        Some(b) => {
            let copy = copy_bytes(b, 0, b.len());
            assert(copy@ =~= b@);
            Some((res, ty, copy))
        },
        None => None,
    }
}

/// Replaces the bytes of the resource of type `id` with `b`, where there is
/// one.
fn set_resource(registry: &mut Registry, id: ComponentId, b: Vec<u8>)
    requires
        old(registry).wf(),
    ensures
        final(registry).wf(),
        final(registry).entities == old(registry).entities,
        final(registry).archetypes() == old(registry).archetypes(),
        final(registry).storage@ == old(registry).storage@,
        final(registry).resource_bytes() == if old(registry).resource_bytes().contains_key(id) {
            old(registry).resource_bytes().insert(id, b@)
        } else {
            old(registry).resource_bytes()
        },
{
    match registry.resource_mut(id) {
        Some(slot) => {
            *slot = b;
        },
        None => {},
    }
}

/// Writes back what a system handed back for the entity `entity`: for each
/// mutable term, in order, the bytes of its value go to that component of
/// the entity, where it has one of as many bytes, or to that resource,
/// where there is one. Terms and values are taken pairwise, up to the
/// shorter of the two.
pub fn write_back(registry: &mut Registry, entity: Entity, terms: &Vec<QueryTerm>, values: &Vec<QueryValue>)
    requires
        old(registry).wf(),
    ensures
        final(registry).wf(),
        final(registry).entities == old(registry).entities,
        final(registry).archetypes() == old(registry).archetypes(),
        forall|x: u64, t: ComponentId| #[trigger]
            final(registry).component(x, t) == if x == entity.id && old(registry).component(x, t) is Some {
                Some(after_writes(writes(terms@, values@), false, t, old(registry).component(x, t)->0))
            } else {
                old(registry).component(x, t)
            },
        final(registry).resource_bytes().dom() == old(registry).resource_bytes().dom(),
        forall|id: ComponentId| #[trigger]
            final(registry).resource_bytes().contains_key(id) ==> final(registry).resource_bytes()[id]
                == after_writes(writes(terms@, values@), true, id, old(registry).resource_bytes()[id]),
{
    let n = if terms.len() < values.len() {
        terms.len()
    } else {
        values.len()
    };
    let ghost r0 = *registry;
    let ghost ws = writes(terms@, values@);
    let mut i: usize = 0;
    proof {
        assert forall|t: ComponentId, start: Seq<u8>| #[trigger] after_writes(ws.take(0), false, t, start) == start by {
            assert(ws.take(0).len() == 0);
        }
        assert forall|t: ComponentId, start: Seq<u8>| #[trigger] after_writes(ws.take(0), true, t, start) == start by {
            assert(ws.take(0).len() == 0);
        }
    }
    while i < n
        invariant
            i <= n,
            n == ws.len(),
            n <= terms@.len(),
            n <= values@.len(),
            ws == writes(terms@, values@),
            registry.wf(),
            registry.entities == r0.entities,
            registry.archetypes() == r0.archetypes(),
            forall|x: u64, t: ComponentId| #[trigger]
                registry.component(x, t) == if x == entity.id && r0.component(x, t) is Some {
                    Some(after_writes(ws.take(i as int), false, t, r0.component(x, t)->0))
                } else {
                    r0.component(x, t)
                },
            registry.resource_bytes().dom() == r0.resource_bytes().dom(),
            forall|id: ComponentId| #[trigger]
                registry.resource_bytes().contains_key(id) ==> registry.resource_bytes()[id] == after_writes(
                    ws.take(i as int),
                    true,
                    id,
                    r0.resource_bytes()[id],
                ),
        decreases n - i,
    {
        let ghost before = *registry;
        let ghost prefix = ws.take(i as int);
        let ghost next = ws.take(i + 1);
        proof {
            assert(next.drop_last() =~= prefix);
            assert(next.last() == write_of(terms@[i as int], values@[i as int]));
        }
        match write_target(&terms[i], &values[i]) {
            Some((res, ty, b)) => {
                if res {
                    set_resource(registry, ty, b);
                    proof {
                        assert forall|x: u64, t: ComponentId| #[trigger] registry.component(x, t) == before.component(x, t) by {}
                        assert forall|x: u64, t: ComponentId| #[trigger] after_writes(next, false, t, r0.component(x, t)->0)
                            == after_writes(prefix, false, t, r0.component(x, t)->0) by {}
                        assert forall|id: ComponentId| #[trigger] registry.resource_bytes().contains_key(id) implies registry.resource_bytes()[id]
                            == after_writes(next, true, id, r0.resource_bytes()[id]) by {}
                        assert(registry.resource_bytes().dom() =~= r0.resource_bytes().dom());
                    }
                } else {
                    registry.set_component(entity, ty, &b);
                    proof {
                        assert forall|x: u64, t: ComponentId| #[trigger] registry.component(x, t) == if x == entity.id && r0.component(x, t) is Some {
                            Some(after_writes(next, false, t, r0.component(x, t)->0))
                        } else {
                            r0.component(x, t)
                        } by {
                            if x == entity.id && r0.component(x, t) is Some {
                                lemma_after_writes_len(prefix, t, r0.component(x, t)->0);
                            }
                        }
                    }
                }
            },
            None => {
                proof {
                    assert forall|x: u64, t: ComponentId| #[trigger] after_writes(next, false, t, r0.component(x, t)->0)
                        == after_writes(prefix, false, t, r0.component(x, t)->0) by {}
                    assert forall|id: ComponentId| #[trigger] after_writes(next, true, id, r0.resource_bytes()[id])
                        == after_writes(prefix, true, id, r0.resource_bytes()[id]) by {}
                }
            },
        }
        i = i + 1;
    }
    proof {
        assert(ws.take(n as int) =~= ws);
    }
}

} // verus!
