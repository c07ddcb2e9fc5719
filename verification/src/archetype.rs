use crate::ComponentId;
use vstd::prelude::*;
use vstd::string::StrSliceExecFns;

verus! {

/// How a type takes part in an archetype: stored component, optional query
/// term, excluded query term, or resource.
#[derive(Clone, Copy, PartialEq, Eq, Structural, Debug, Hash)]
pub enum ArchetypeState {
    Component,
    Optional,
    Without,
    Resource,
}

/// One entry of an archetype: a type's identity, its size in bytes, its
/// name and its role.
#[derive(Clone, Copy, Debug)]
pub struct ArchetypeInfo {
    pub ty: ComponentId,
    pub size: usize,
    pub name: &'static str,
    pub state: ArchetypeState,
}

/// A sorted set of at most 32 component types. Only the first `len` slots of
/// `info` count; slots past `len` may still hold entries left there by an
/// earlier removal, and take part in equality as in the derived `==`.
#[derive(Clone, Copy, Debug)]
pub struct Archetype {
    pub len: usize,
    pub info: [Option<ArchetypeInfo>; 32],
}

/// The sum of the sizes of a sequence of entries.
pub open spec fn sum_sizes(s: Seq<ArchetypeInfo>) -> nat
    decreases s.len(),
{
    if s.len() == 0 {
        0
    } else {
        sum_sizes(s.drop_last()) + (s.last().size as nat)
    }
}

/// The first position of `ty` in `s`, if any.
pub open spec fn position_of(s: Seq<ArchetypeInfo>, ty: ComponentId) -> Option<int> {
    if exists|i: int| 0 <= i < s.len() && #[trigger] s[i].ty == ty {
        Some(
            choose|i: int|
                0 <= i < s.len() && #[trigger] s[i].ty == ty && forall|j: int|
                    0 <= j < i ==> s[j].ty != ty,
        )
    } else {
        None
    }
}

/// `s` holds `ty`.
pub open spec fn holds_ty(s: Seq<ArchetypeInfo>, ty: ComponentId) -> bool {
    exists|i: int| 0 <= i < s.len() && #[trigger] s[i].ty == ty
}

/// The entries sorted strictly by type identity.
pub open spec fn sorted_by_ty(s: Seq<ArchetypeInfo>) -> bool {
    forall|i: int, j: int| 0 <= i < j < s.len() ==> #[trigger] s[i].ty < #[trigger] s[j].ty
}

/// `p` splits the sorted entries `s` into those below `ty` and those above.
pub open spec fn splits_at(s: Seq<ArchetypeInfo>, ty: ComponentId, p: int) -> bool {
    &&& 0 <= p <= s.len()
    &&& forall|j: int| 0 <= j < p ==> #[trigger] s[j].ty < ty
    &&& forall|j: int| p <= j < s.len() ==> #[trigger] s[j].ty > ty
}

/// The position at which `ty` goes into the sorted entries `s`.
pub open spec fn insertion_point(s: Seq<ArchetypeInfo>, ty: ComponentId) -> int {
    choose|p: int| splits_at(s, ty, p)
}

/// Two entries are equal, names compared by their characters.
pub open spec fn same_info(a: ArchetypeInfo, b: ArchetypeInfo) -> bool {
    &&& a.ty == b.ty
    &&& a.size == b.size
    &&& a.name@ == b.name@
    &&& a.state == b.state
}

/// Two slots are equal.
pub open spec fn same_slot(a: Option<ArchetypeInfo>, b: Option<ArchetypeInfo>) -> bool {
    match (a, b) {
        (None, None) => true,
        (Some(x), Some(y)) => same_info(x, y),
        _ => false,
    }
}

pub proof fn lemma_position_of(s: Seq<ArchetypeInfo>, ty: ComponentId)
    ensures
        position_of(s, ty) is Some <==> holds_ty(s, ty),
        position_of(s, ty) matches Some(i) ==> 0 <= i < s.len() && s[i].ty == ty && forall|j: int|
            0 <= j < i ==> s[j].ty != ty,
{
    if exists|i: int| 0 <= i < s.len() && #[trigger] s[i].ty == ty {
        let k = choose|i: int| 0 <= i < s.len() && #[trigger] s[i].ty == ty;
        lemma_first_exists(s, ty, k);
    }
}

proof fn lemma_first_exists(s: Seq<ArchetypeInfo>, ty: ComponentId, k: int)
    requires
        0 <= k < s.len(),
        s[k].ty == ty,
    ensures
        exists|i: int|
            0 <= i < s.len() && #[trigger] s[i].ty == ty && forall|j: int| 0 <= j < i ==> s[j].ty != ty,
    decreases k,
{
    if exists|j: int| 0 <= j < k && #[trigger] s[j].ty == ty {
        let j = choose|j: int| 0 <= j < k && #[trigger] s[j].ty == ty;
        lemma_first_exists(s, ty, j);
    } else {
        assert(forall|j: int| 0 <= j < k ==> s[j].ty != ty);
    }
}

pub proof fn lemma_sum_sizes_push(s: Seq<ArchetypeInfo>, x: ArchetypeInfo)
    ensures
        sum_sizes(s.push(x)) == sum_sizes(s) + x.size,
{
    assert(s.push(x).drop_last() =~= s);
}

/// Sums of prefixes grow with the prefix.
pub proof fn lemma_sum_sizes_prefix(s: Seq<ArchetypeInfo>, i: int, j: int)
    requires
        0 <= i <= j <= s.len(),
    ensures
        sum_sizes(s.take(i)) <= sum_sizes(s.take(j)),
    decreases j - i,
{
    if i < j {
        lemma_sum_sizes_prefix(s, i, j - 1);
        assert(s.take(j).drop_last() =~= s.take(j - 1));
    }
}

/// The sum of the sizes of a concatenation.
pub proof fn lemma_sum_sizes_add(a: Seq<ArchetypeInfo>, b: Seq<ArchetypeInfo>)
    ensures
        sum_sizes(a + b) == sum_sizes(a) + sum_sizes(b),
    decreases b.len(),
{
    if b.len() == 0 {
        assert(a + b =~= a);
    } else {
        lemma_sum_sizes_add(a, b.drop_last());
        assert((a + b).drop_last() =~= a + b.drop_last());
    }
}

/// Inserting an entry adds its size to the sum.
pub proof fn lemma_sum_sizes_insert(s: Seq<ArchetypeInfo>, p: int, x: ArchetypeInfo)
    requires
        0 <= p <= s.len(),
    ensures
        sum_sizes(s.insert(p, x)) == sum_sizes(s) + x.size,
{
    assert(s.insert(p, x) =~= s.take(p) + seq![x] + s.skip(p));
    assert(s =~= s.take(p) + s.skip(p));
    lemma_sum_sizes_add(s.take(p) + seq![x], s.skip(p));
    lemma_sum_sizes_add(s.take(p), seq![x]);
    lemma_sum_sizes_add(s.take(p), s.skip(p));
    assert(seq![x].drop_last() =~= Seq::<ArchetypeInfo>::empty());
    assert(seq![x].last() == x);
    assert(sum_sizes(Seq::<ArchetypeInfo>::empty()) == 0);
    assert(sum_sizes(seq![x]) == x.size);
}

/// Removing an entry takes its size from the sum.
pub proof fn lemma_sum_sizes_remove(s: Seq<ArchetypeInfo>, p: int)
    requires
        0 <= p < s.len(),
    ensures
        sum_sizes(s.remove(p)) + s[p].size == sum_sizes(s),
{
    assert(s.remove(p).insert(p, s[p]) =~= s);
    lemma_sum_sizes_insert(s.remove(p), p, s[p]);
}

/// In sorted entries without `ty`, the insertion point exists.
pub proof fn lemma_insertion_point(s: Seq<ArchetypeInfo>, ty: ComponentId, p: int)
    requires
        sorted_by_ty(s),
        !holds_ty(s, ty),
        0 <= p <= s.len(),
        forall|j: int| 0 <= j < p ==> #[trigger] s[j].ty < ty,
        p < s.len() ==> s[p].ty > ty,
    ensures
        splits_at(s, ty, p),
        insertion_point(s, ty) == p,
{
    assert(splits_at(s, ty, p));
    let q = insertion_point(s, ty);
    assert(splits_at(s, ty, q));
    if q < p {
        assert(s[q].ty > ty);
    } else if q > p {
        assert(s[p].ty < ty);
    }
}

/// Inserting at the insertion point keeps the entries sorted.
pub proof fn lemma_insert_sorted(s: Seq<ArchetypeInfo>, x: ArchetypeInfo, p: int)
    requires
        sorted_by_ty(s),
        splits_at(s, x.ty, p),
    ensures
        sorted_by_ty(s.insert(p, x)),
{
    let t = s.insert(p, x);
    assert forall|i: int, j: int| 0 <= i < j < t.len() implies #[trigger] t[i].ty < #[trigger] t[j].ty by {
        if j < p {
        } else if j == p {
        } else if i < p {
            assert(t[j] == s[j - 1]);
        } else if i == p {
            assert(t[j] == s[j - 1]);
        } else {
            assert(t[i] == s[i - 1]);
            assert(t[j] == s[j - 1]);
        }
    }
}

/// Removing an entry keeps the entries sorted.
pub proof fn lemma_remove_sorted(s: Seq<ArchetypeInfo>, p: int)
    requires
        sorted_by_ty(s),
        0 <= p < s.len(),
    ensures
        sorted_by_ty(s.remove(p)),
{
    let t = s.remove(p);
    assert forall|i: int, j: int| 0 <= i < j < t.len() implies #[trigger] t[i].ty < #[trigger] t[j].ty by {
        if i < p && j >= p {
            assert(t[j] == s[j + 1]);
        } else if i >= p {
            assert(t[i] == s[i + 1]);
            assert(t[j] == s[j + 1]);
        }
    }
}

/// How many slots the first `idx` slots are: all 32 where `idx` is larger.
pub open spec fn slots_up_to(idx: int) -> int {
    if idx < 32 {
        idx
    } else {
        32
    }
}

/// The entries in the first `n` slots.
pub open spec fn slot_entries(info: Seq<Option<ArchetypeInfo>>, n: int) -> Seq<ArchetypeInfo> {
    Seq::new(n as nat, |i: int| info[i]->0)
}

impl Archetype {
    /// The entries that count: the first `len` slots.
    pub open spec fn infos(&self) -> Seq<ArchetypeInfo> {
        Seq::new(self.len as nat, |i: int| self.info@[i]->0)
    }

    /// The first `len` slots are filled, and `len` is at most 32.
    pub open spec fn valid(&self) -> bool {
        &&& self.len <= 32
        &&& forall|i: int| 0 <= i < self.len ==> (#[trigger] self.info@[i]) is Some
    }

    /// The invariant that every archetype of a registry keeps: valid, sorted
    /// by type identity, and its total size fits in a `usize`.
    pub open spec fn wf(&self) -> bool {
        &&& self.valid()
        &&& sorted_by_ty(self.infos())
        &&& sum_sizes(self.infos()) <= usize::MAX
    }

    /// The total size of one entity's components in bytes.
    pub open spec fn spec_total_size(&self) -> nat {
        sum_sizes(self.infos())
    }

    /// Equality of all 32 slots and of `len`, as the derived `==` has it.
    pub open spec fn same(&self, other: &Archetype) -> bool {
        &&& self.len == other.len
        &&& forall|i: int| 0 <= i < 32 ==> same_slot(#[trigger] self.info@[i], other.info@[i])
    }

    /// The archetype of no component.
    pub fn new() -> (r: Archetype)
        ensures
            r.len == 0,
            forall|i: int| 0 <= i < 32 ==> r.info@[i] is None,
            r.wf(),
            r.infos() == Seq::<ArchetypeInfo>::empty(),
    {
        let r = Archetype { len: 0, info: [None; 32] };
        assert(r.infos() =~= Seq::<ArchetypeInfo>::empty());
        r
    }

    /// The number of entries.
    pub fn len(&self) -> (r: usize)
        ensures
            r == self.len,
    {
        self.len
    }

    /// The sum of the sizes of the entries in the first `idx` slots (in all
    /// 32 where `idx` is larger), whatever `len` is; those slots must be
    /// filled.
    pub fn size_up_to(&self, idx: usize) -> (r: usize)
        requires
            forall|j: int| 0 <= j < slots_up_to(idx as int) ==> (#[trigger] self.info@[j]) is Some,
            sum_sizes(slot_entries(self.info@, slots_up_to(idx as int))) <= usize::MAX,
        ensures
            r == sum_sizes(slot_entries(self.info@, slots_up_to(idx as int))),
            self.valid() && idx <= self.len ==> r == sum_sizes(self.infos().take(idx as int)),
    {
        let bound: usize = if idx < 32 {
            idx
        } else {
            32
        };
        let ghost full = slot_entries(self.info@, bound as int);
        let mut sum: usize = 0;
        let mut i: usize = 0;
        proof {
            assert(slot_entries(self.info@, 0) =~= Seq::<ArchetypeInfo>::empty());
        }
        while i < bound
            invariant
                bound == slots_up_to(idx as int),
                bound <= 32,
                full == slot_entries(self.info@, bound as int),
                forall|j: int| 0 <= j < bound ==> (#[trigger] self.info@[j]) is Some,
                sum_sizes(full) <= usize::MAX,
                i <= bound,
                sum == sum_sizes(slot_entries(self.info@, i as int)),
            decreases bound - i,
        {
            let info = self.info[i].unwrap();
            proof {
                assert(slot_entries(self.info@, i + 1) =~= slot_entries(self.info@, i as int).push(info));
                lemma_sum_sizes_push(slot_entries(self.info@, i as int), info);
                assert(full.take(i + 1) =~= slot_entries(self.info@, i + 1));
                assert(full.take(bound as int) =~= full);
                lemma_sum_sizes_prefix(full, i + 1, bound as int);
            }
            sum = sum + info.size;
            i = i + 1;
        }
        proof {
            if self.valid() && idx <= self.len {
                self.lemma_slot_entries(idx as int);
            }
        }
        sum
    }

    /// In a valid archetype, the first `idx` slots up to `len` are filled and
    /// hold the first `idx` entries.
    pub proof fn lemma_slot_entries(&self, idx: int)
        requires
            self.valid(),
            0 <= idx <= self.len,
        ensures
            slots_up_to(idx) == idx,
            forall|j: int| 0 <= j < idx ==> (#[trigger] self.info@[j]) is Some,
            slot_entries(self.info@, idx) == self.infos().take(idx),
    {
        assert(slot_entries(self.info@, idx) =~= self.infos().take(idx));
    }

    /// The size of all entries together.
    pub fn total_size(&self) -> (r: usize)
        requires
            self.valid(),
            sum_sizes(self.infos()) <= usize::MAX,
        ensures
            r == self.spec_total_size(),
    {
        proof {
            assert(self.infos().take(self.len as int) =~= self.infos());
            self.lemma_slot_entries(self.len as int);
        }
        self.size_up_to(self.len)
    }
}

impl Archetype {
    /// `superset` admits an archetype holding these entries: every excluded
    /// type is absent, and every required component is present.
    pub open spec fn admitted_by(&self, superset: &Archetype) -> bool {
        forall|i: int|
            0 <= i < superset.len ==> {
                let info = #[trigger] superset.infos()[i];
                if info.state == ArchetypeState::Without {
                    !holds_ty(self.infos(), info.ty)
                } else {
                    holds_ty(self.infos(), info.ty) || info.state != ArchetypeState::Component
                }
            }
    }

    /// The byte offset of `ty` within one entity's data: the sizes of the
    /// entries before it; `None` where `ty` is not an entry.
    pub open spec fn spec_translation(&self, ty: ComponentId) -> Option<usize> {
        match position_of(self.infos(), ty) {
            Some(i) => Some(sum_sizes(self.infos().take(i)) as usize),
            None => None,
        }
    }

    /// Where `ty` is an entry, the offset of its bytes within an entity's
    /// data.
    pub fn translation(&self, ty: ComponentId) -> (r: Option<usize>)
        requires
            self.valid(),
            position_of(self.infos(), ty) matches Some(i) ==> sum_sizes(self.infos().take(i))
                <= usize::MAX,
        ensures
            r == self.spec_translation(ty),
    {
        proof {
            lemma_position_of(self.infos(), ty);
        }
        let mut i: usize = 0;
        while i < self.len
            invariant
                self.valid(),
                i <= self.len,
                forall|j: int| 0 <= j < i ==> self.infos()[j].ty != ty,
                position_of(self.infos(), ty) is Some <==> holds_ty(self.infos(), ty),
                position_of(self.infos(), ty) matches Some(p) ==> 0 <= p < self.len
                    && self.infos()[p].ty == ty && (forall|j: int|
                    0 <= j < p ==> self.infos()[j].ty != ty) && sum_sizes(self.infos().take(p))
                    <= usize::MAX,
            decreases self.len - i,
        {
            if self.info[i].unwrap().ty == ty {
                assert(self.infos()[i as int].ty == ty);
                assert(holds_ty(self.infos(), ty));
                let ghost p = position_of(self.infos(), ty)->0;
                assert(p == i) by {
                    if p < i {
                    } else if p > i {
                        assert(self.infos()[i as int].ty != ty);
                    }
                }
                proof {
                    self.lemma_slot_entries(i as int);
                }
                return Some(self.size_up_to(i));
            }
            i = i + 1;
        }
        proof {
            if holds_ty(self.infos(), ty) {
                let k = choose|k: int| 0 <= k < self.infos().len() && #[trigger] self.infos()[k].ty == ty;
                assert(self.infos()[k].ty != ty);
            }
        }
        None
    }

    /// Whether an entity of this archetype matches the query archetype
    /// `superset`: each `Without` entry of it is absent here, and each
    /// `Component` entry of it is present here.
    pub fn is_subset_of(&self, superset: Archetype) -> (r: bool)
        requires
            self.valid(),
            superset.valid(),
        ensures
            r == self.admitted_by(&superset),
    {
        let mut ids: Vec<ComponentId> = Vec::new();
        let mut i: usize = 0;
        while i < self.len
            invariant
                self.valid(),
                i <= self.len,
                ids@.len() == i,
                forall|j: int| 0 <= j < i ==> ids@[j] == self.infos()[j].ty,
            decreases self.len - i,
        {
            ids.push(self.info[i].unwrap().ty);
            i = i + 1;
        }
        let mut k: usize = 0;
        while k < superset.len
            invariant
                self.valid(),
                superset.valid(),
                ids@.len() == self.len,
                forall|j: int| 0 <= j < self.len ==> ids@[j] == self.infos()[j].ty,
                k <= superset.len,
                forall|m: int|
                    0 <= m < k ==> {
                        let info = #[trigger] superset.infos()[m];
                        if info.state == ArchetypeState::Without {
                            !holds_ty(self.infos(), info.ty)
                        } else {
                            holds_ty(self.infos(), info.ty) || info.state
                                != ArchetypeState::Component
                        }
                    },
            decreases superset.len - k,
        {
            let info = superset.info[k].unwrap();
            assert(info == superset.infos()[k as int]);
            let present = contains_id(&ids, info.ty);
            assert(present == holds_ty(self.infos(), info.ty)) by {
                if present {
                    let j = choose|j: int| 0 <= j < ids@.len() && ids@[j] == info.ty;
                    assert(self.infos()[j].ty == info.ty);
                }
                if holds_ty(self.infos(), info.ty) {
                    let j = choose|j: int| 0 <= j < self.infos().len() && #[trigger] self.infos()[j].ty == info.ty;
                    assert(ids@[j] == info.ty);
                }
            }
            let ok = if info.state == ArchetypeState::Without {
                !present
            } else {
                present || !(info.state == ArchetypeState::Component)
            };
            if !ok {
                return false;
            }
            k = k + 1;
        }
        true
    }
}

impl Archetype {
    /// Puts `info` at the place its type identity sorts to, as a query term
    /// or a newly inserted component is added. Slots past the new length keep
    /// what they held.
    pub fn add(&mut self, info: ArchetypeInfo) -> (p: usize)
        requires
            old(self).valid(),
            sorted_by_ty(old(self).infos()),
            !holds_ty(old(self).infos(), info.ty),
            old(self).len < 32,
        ensures
            final(self).valid(),
            final(self).len == old(self).len + 1,
            splits_at(old(self).infos(), info.ty, insertion_point(old(self).infos(), info.ty)),
            final(self).infos() == old(self).infos().insert(
                insertion_point(old(self).infos(), info.ty),
                info,
            ),
            sorted_by_ty(final(self).infos()),
            sum_sizes(final(self).infos()) == sum_sizes(old(self).infos()) + info.size,
            forall|j: int| final(self).len <= j < 32 ==> final(self).info@[j] == old(self).info@[j],
            p == insertion_point(old(self).infos(), info.ty),
    {
        let ghost old_self = *self;
        let ghost old_infos = self.infos();
        let mut p: usize = 0;
        while p < self.len && self.info[p].unwrap().ty < info.ty
            invariant
                self.valid(),
                *self == old_self,
                p <= self.len,
                forall|j: int| 0 <= j < p ==> #[trigger] self.infos()[j].ty < info.ty,
            decreases self.len - p,
        {
            p = p + 1;
        }
        proof {
            if p < self.len {
                assert(self.infos()[p as int].ty >= info.ty);
                assert(self.infos()[p as int].ty != info.ty);
            }
            lemma_insertion_point(old_infos, info.ty, p as int);
        }
        let n = self.len;
        let mut j: usize = n;
        while j > p
            invariant
                p <= j <= n,
                n == old_self.len,
                n < 32,
                self.len == n,
                forall|k: int| 0 <= k <= j ==> self.info@[k] == old_self.info@[k],
                forall|k: int| j < k <= n ==> self.info@[k] == old_self.info@[k - 1],
                forall|k: int| n < k < 32 ==> self.info@[k] == old_self.info@[k],
            decreases j,
        {
            self.info[j] = self.info[j - 1];
            j = j - 1;
        }
        self.info[p] = Some(info);
        self.len = n + 1;
        proof {
            assert forall|k: int| 0 <= k < self.len implies (#[trigger] self.info@[k]) is Some by {
                if k < p {
                    assert(old_self.info@[k] is Some);
                } else if k > p {
                    assert(old_self.info@[k - 1] is Some);
                }
            }
            assert(self.infos() =~= old_infos.insert(p as int, info));
            lemma_insert_sorted(old_infos, info, p as int);
            lemma_sum_sizes_insert(old_infos, p as int, info);
        }
        p
    }

    /// Takes out the entry at `idx`, moving later entries down. The slot at
    /// the old last position keeps its entry, past the new length.
    pub fn remove_at(&mut self, idx: usize)
        requires
            old(self).valid(),
            idx < old(self).len,
        ensures
            final(self).valid(),
            final(self).len == old(self).len - 1,
            final(self).infos() == old(self).infos().remove(idx as int),
            forall|j: int| final(self).len <= j < 32 ==> final(self).info@[j] == old(self).info@[j],
    {
        let ghost old_self = *self;
        let n = self.len;
        let mut j: usize = idx;
        while j + 1 < n
            invariant
                idx <= j < n,
                n == old_self.len,
                n <= 32,
                self.len == n,
                forall|k: int| 0 <= k < idx ==> self.info@[k] == old_self.info@[k],
                forall|k: int| idx <= k < j ==> self.info@[k] == old_self.info@[k + 1],
                forall|k: int| j <= k < 32 ==> self.info@[k] == old_self.info@[k],
            decreases n - j,
        {
            self.info[j] = self.info[j + 1];
            j = j + 1;
        }
        self.len = n - 1;
        proof {
            assert forall|k: int| 0 <= k < self.len implies (#[trigger] self.info@[k]) is Some by {
                if k < idx {
                    assert(old_self.info@[k] is Some);
                } else {
                    assert(old_self.info@[k + 1] is Some);
                }
            }
            assert(self.infos() =~= old_self.infos().remove(idx as int));
        }
    }

    /// Whether both archetypes agree in `len` and in all 32 slots.
    pub fn equals(&self, other: &Archetype) -> (r: bool)
        ensures
            r == self.same(other),
    {
        if self.len != other.len {
            return false;
        }
        let mut i: usize = 0;
        while i < 32
            invariant
                i <= 32,
                forall|j: int| 0 <= j < i ==> same_slot(#[trigger] self.info@[j], other.info@[j]),
            decreases 32 - i,
        {
            let same = match (&self.info[i], &other.info[i]) {
                (None, None) => true,
                (Some(x), Some(y)) => x.ty == y.ty && x.size == y.size && x.state == y.state
                    && str_eq(x.name, y.name),
                _ => false,
            };
            if !same {
                return false;
            }
            i = i + 1;
        }
        true
    }
}

/// Whether both strings hold the same characters.
fn str_eq(a: &str, b: &str) -> (r: bool)
    ensures
        r == (a@ == b@),
{
    let n = a.unicode_len();
    if n != b.unicode_len() {
        return false;
    }
    let mut i: usize = 0;
    while i < n
        invariant
            i <= n,
            n == a@.len(),
            n == b@.len(),
            forall|j: int| 0 <= j < i ==> a@[j] == b@[j],
        decreases n - i,
    {
        if a.get_char(i) != b.get_char(i) {
            return false;
        }
        i = i + 1;
    }
    assert(a@ =~= b@);
    true
}

/// Two sequences of entries agree in every field, names compared by their
/// characters.
pub open spec fn same_shape(s: Seq<ArchetypeInfo>, t: Seq<ArchetypeInfo>) -> bool {
    &&& s.len() == t.len()
    &&& forall|i: int| 0 <= i < s.len() ==> same_info(#[trigger] s[i], t[i])
}

/// `same` is an equivalence.
pub proof fn lemma_same_equiv(a: Archetype, b: Archetype, c: Archetype)
    ensures
        a.same(&a),
        a.same(&b) ==> b.same(&a),
        a.same(&b) && b.same(&c) ==> a.same(&c),
{
    assert forall|i: int| 0 <= i < 32 implies same_slot(#[trigger] a.info@[i], a.info@[i]) by {}
    if a.same(&b) {
        assert forall|i: int| 0 <= i < 32 implies same_slot(#[trigger] b.info@[i], a.info@[i]) by {
            assert(same_slot(a.info@[i], b.info@[i]));
        }
    }
    if a.same(&b) && b.same(&c) {
        assert forall|i: int| 0 <= i < 32 implies same_slot(#[trigger] a.info@[i], c.info@[i]) by {
            assert(same_slot(a.info@[i], b.info@[i]));
            assert(same_slot(b.info@[i], c.info@[i]));
        }
    }
}

/// Equal archetypes have entries of the same shape, and one is well formed
/// when the other is.
pub proof fn lemma_same_shape(a: Archetype, b: Archetype)
    requires
        a.same(&b),
        a.valid(),
    ensures
        b.valid(),
        same_shape(a.infos(), b.infos()),
        a.wf() ==> b.wf(),
        a.spec_total_size() == b.spec_total_size(),
        forall|i: int| 0 <= i <= a.len ==> sum_sizes(#[trigger] a.infos().take(i)) == sum_sizes(b.infos().take(i)),
        forall|ty: ComponentId| #[trigger] position_of(a.infos(), ty) == position_of(b.infos(), ty),
        forall|ty: ComponentId| #[trigger] holds_ty(a.infos(), ty) == holds_ty(b.infos(), ty),
{
    assert forall|i: int| 0 <= i < b.len implies (#[trigger] b.info@[i]) is Some by {
        assert(same_slot(a.info@[i], b.info@[i]));
    }
    assert forall|i: int| 0 <= i < a.infos().len() implies same_info(#[trigger] a.infos()[i], b.infos()[i]) by {
        assert(same_slot(a.info@[i], b.info@[i]));
    }
    assert forall|i: int| 0 <= i <= a.len implies sum_sizes(#[trigger] a.infos().take(i)) == sum_sizes(b.infos().take(i)) by {
        lemma_shape_sum(a.infos().take(i), b.infos().take(i));
    }
    assert(a.infos().take(a.len as int) =~= a.infos());
    assert(b.infos().take(b.len as int) =~= b.infos());
    assert forall|ty: ComponentId| #[trigger] holds_ty(a.infos(), ty) == holds_ty(b.infos(), ty) by {
        if holds_ty(a.infos(), ty) {
            let i = choose|i: int| 0 <= i < a.infos().len() && #[trigger] a.infos()[i].ty == ty;
            assert(b.infos()[i].ty == ty);
        }
        if holds_ty(b.infos(), ty) {
            let i = choose|i: int| 0 <= i < b.infos().len() && #[trigger] b.infos()[i].ty == ty;
            assert(same_info(a.infos()[i], b.infos()[i]));
        }
    }
    assert forall|ty: ComponentId| #[trigger] position_of(a.infos(), ty) == position_of(b.infos(), ty) by {
        lemma_position_of(a.infos(), ty);
        lemma_position_of(b.infos(), ty);
        if holds_ty(a.infos(), ty) {
            let p = position_of(a.infos(), ty)->0;
            let q = position_of(b.infos(), ty)->0;
            if p < q {
                assert(same_info(a.infos()[p], b.infos()[p]));
            } else if q < p {
                assert(same_info(a.infos()[q], b.infos()[q]));
            }
        }
    }
    if a.wf() {
        assert forall|i: int, j: int| 0 <= i < j < b.infos().len() implies #[trigger] b.infos()[i].ty < #[trigger] b.infos()[j].ty by {
            assert(same_info(a.infos()[i], b.infos()[i]));
            assert(same_info(a.infos()[j], b.infos()[j]));
        }
    }
}

/// Sequences of the same shape have the same sum of sizes.
pub proof fn lemma_shape_sum(s: Seq<ArchetypeInfo>, t: Seq<ArchetypeInfo>)
    requires
        s.len() == t.len(),
        forall|i: int| 0 <= i < s.len() ==> (#[trigger] s[i]).size == t[i].size,
    ensures
        sum_sizes(s) == sum_sizes(t),
    decreases s.len(),
{
    if s.len() > 0 {
        lemma_shape_sum(s.drop_last(), t.drop_last());
    }
}

/// An entry ends by the total size.
pub proof fn lemma_entry_within(s: Seq<ArchetypeInfo>, p: int)
    requires
        0 <= p < s.len(),
    ensures
        sum_sizes(s.take(p + 1)) == sum_sizes(s.take(p)) + s[p].size,
        sum_sizes(s.take(p)) + s[p].size <= sum_sizes(s),
{
    assert(s.take(p + 1) =~= s.take(p).push(s[p]));
    lemma_sum_sizes_push(s.take(p), s[p]);
    lemma_sum_sizes_prefix(s, p + 1, s.len() as int);
    assert(s.take(s.len() as int) =~= s);
}

impl Archetype {
    /// Every prefix of a well formed archetype has a sum of sizes that fits.
    pub proof fn lemma_prefix_fits(&self)
        requires
            self.wf(),
        ensures
            forall|i: int| 0 <= i <= self.len ==> #[trigger] sum_sizes(self.infos().take(i)) <= self.spec_total_size(),
            self.spec_total_size() <= usize::MAX,
    {
        assert forall|i: int| 0 <= i <= self.len implies #[trigger] sum_sizes(self.infos().take(i)) <= self.spec_total_size() by {
            lemma_sum_sizes_prefix(self.infos(), i, self.len as int);
            assert(self.infos().take(self.len as int) =~= self.infos());
        }
    }

    /// The position of `ty` among the entries.
    pub fn position(&self, ty: ComponentId) -> (r: Option<usize>)
        requires
            self.valid(),
        ensures
            r == (match position_of(self.infos(), ty) {
                Some(i) => Some(i as usize),
                None => None::<usize>,
            }),
    {
        proof {
            lemma_position_of(self.infos(), ty);
        }
        let mut i: usize = 0;
        while i < self.len
            invariant
                self.valid(),
                i <= self.len,
                forall|j: int| 0 <= j < i ==> self.infos()[j].ty != ty,
                position_of(self.infos(), ty) is Some <==> holds_ty(self.infos(), ty),
                position_of(self.infos(), ty) matches Some(p) ==> 0 <= p < self.len
                    && self.infos()[p].ty == ty && (forall|j: int|
                    0 <= j < p ==> self.infos()[j].ty != ty),
            decreases self.len - i,
        {
            if self.info[i].unwrap().ty == ty {
                assert(self.infos()[i as int].ty == ty);
                assert(holds_ty(self.infos(), ty));
                let ghost p = position_of(self.infos(), ty)->0;
                assert(p == i) by {
                    if p > i {
                        assert(self.infos()[i as int].ty != ty);
                    }
                }
                return Some(i);
            }
            i = i + 1;
        }
        proof {
            if holds_ty(self.infos(), ty) {
                let k = choose|k: int| 0 <= k < self.infos().len() && #[trigger] self.infos()[k].ty == ty;
                assert(self.infos()[k].ty != ty);
            }
        }
        None
    }
}

/// The parts laid one after the other.
pub open spec fn concat_parts(parts: Seq<Seq<u8>>) -> Seq<u8>
    decreases parts.len(),
{
    if parts.len() == 0 {
        Seq::empty()
    } else {
        concat_parts(parts.drop_last()) + parts.last()
    }
}

/// Each part is as long as the entry beside it.
pub open spec fn aligned(infos: Seq<ArchetypeInfo>, parts: Seq<Seq<u8>>) -> bool {
    &&& infos.len() == parts.len()
    &&& forall|j: int| 0 <= j < parts.len() ==> (#[trigger] parts[j]).len() == infos[j].size
}

/// The bytes of entry `p` within a row laid out by `infos`.
pub open spec fn entry_bytes(infos: Seq<ArchetypeInfo>, row: Seq<u8>, p: int) -> Seq<u8> {
    let o = sum_sizes(infos.take(p)) as int;
    row.subrange(o, o + infos[p].size)
}

/// The bytes of each entry of a row laid out by `infos`.
pub open spec fn entry_parts(infos: Seq<ArchetypeInfo>, row: Seq<u8>) -> Seq<Seq<u8>> {
    Seq::new(infos.len(), |j: int| entry_bytes(infos, row, j))
}

pub proof fn lemma_concat_add(a: Seq<Seq<u8>>, b: Seq<Seq<u8>>)
    ensures
        concat_parts(a + b) == concat_parts(a) + concat_parts(b),
    decreases b.len(),
{
    if b.len() == 0 {
        assert(a + b =~= a);
        assert(concat_parts(a) + concat_parts(b) =~= concat_parts(a));
    } else {
        lemma_concat_add(a, b.drop_last());
        assert((a + b).drop_last() =~= a + b.drop_last());
        assert(concat_parts(a + b) =~= concat_parts(a) + concat_parts(b));
    }
}

/// Aligned parts are as long as the sizes sum to.
pub proof fn lemma_concat_len(infos: Seq<ArchetypeInfo>, parts: Seq<Seq<u8>>)
    requires
        aligned(infos, parts),
    ensures
        concat_parts(parts).len() == sum_sizes(infos),
    decreases parts.len(),
{
    if parts.len() > 0 {
        lemma_concat_len(infos.drop_last(), parts.drop_last());
    }
}

/// Within aligned parts laid one after the other, entry `j` is part `j`.
pub proof fn lemma_concat_entry(infos: Seq<ArchetypeInfo>, parts: Seq<Seq<u8>>, j: int)
    requires
        aligned(infos, parts),
        0 <= j < parts.len(),
    ensures
        entry_bytes(infos, concat_parts(parts), j) == parts[j],
{
    let a = parts.take(j);
    let b = parts.skip(j + 1);
    assert(parts =~= a + seq![parts[j]] + b);
    lemma_concat_add(a + seq![parts[j]], b);
    lemma_concat_add(a, seq![parts[j]]);
    assert(seq![parts[j]].drop_last() =~= Seq::<Seq<u8>>::empty());
    assert(seq![parts[j]].last() == parts[j]);
    assert(concat_parts(Seq::<Seq<u8>>::empty()) == Seq::<u8>::empty());
    assert(concat_parts(seq![parts[j]]) == concat_parts(Seq::<Seq<u8>>::empty()) + parts[j]);
    assert(concat_parts(seq![parts[j]]) =~= parts[j]);
    lemma_concat_len(infos.take(j), a);
    assert(concat_parts(parts).subrange(
        sum_sizes(infos.take(j)) as int,
        sum_sizes(infos.take(j)) + infos[j].size,
    ) =~= parts[j]);
}

/// A row as long as the sizes sum to is its entries laid one after the
/// other.
pub proof fn lemma_entry_parts(infos: Seq<ArchetypeInfo>, row: Seq<u8>)
    requires
        row.len() == sum_sizes(infos),
    ensures
        aligned(infos, entry_parts(infos, row)),
        concat_parts(entry_parts(infos, row)) == row,
    decreases infos.len(),
{
    let parts = entry_parts(infos, row);
    assert forall|j: int| 0 <= j < parts.len() implies (#[trigger] parts[j]).len() == infos[j].size by {
        lemma_entry_within(infos, j);
        lemma_sum_sizes_prefix(infos, j, infos.len() as int);
        assert(infos.take(infos.len() as int) =~= infos);
    }
    if infos.len() > 0 {
        let n = infos.len() - 1;
        let front = infos.drop_last();
        let m = sum_sizes(front);
        assert(infos.take(n) =~= front);
        lemma_entry_within(infos, n as int);
        let rowf = row.take(m as int);
        lemma_entry_parts(front, rowf);
        assert forall|j: int| 0 <= j < n implies #[trigger] entry_parts(front, rowf)[j] == parts.drop_last()[j] by {
            assert(front.take(j) =~= infos.take(j));
            lemma_entry_within(front, j);
            lemma_sum_sizes_prefix(front, j + 1, n as int);
            assert(front.take(n as int) =~= front);
            assert(front.take(j + 1) =~= infos.take(j + 1));
            lemma_entry_within(infos, j);
            assert(entry_parts(front, rowf)[j] =~= parts.drop_last()[j]);
        }
        assert(entry_parts(front, rowf) =~= parts.drop_last());
        assert(parts.last() =~= row.subrange(m as int, row.len() as int));
        assert(concat_parts(parts) =~= row);
    } else {
        assert(concat_parts(parts) =~= row);
    }
}

/// Inserting a part keeps the parts aligned, and lays its bytes at the
/// entry's offset.
pub proof fn lemma_insert_part(
    infos: Seq<ArchetypeInfo>,
    parts: Seq<Seq<u8>>,
    p: int,
    x: ArchetypeInfo,
    b: Seq<u8>,
)
    requires
        aligned(infos, parts),
        0 <= p <= parts.len(),
        b.len() == x.size,
    ensures
        aligned(infos.insert(p, x), parts.insert(p, b)),
        concat_parts(parts.insert(p, b)) == concat_parts(parts).take(sum_sizes(infos.take(p)) as int)
            + b + concat_parts(parts).skip(sum_sizes(infos.take(p)) as int),
{
    let a = parts.take(p);
    let c = parts.skip(p);
    assert(parts =~= a + c);
    assert(parts.insert(p, b) =~= a + seq![b] + c);
    lemma_concat_add(a, c);
    lemma_concat_add(a + seq![b], c);
    lemma_concat_add(a, seq![b]);
    assert(seq![b].drop_last() =~= Seq::<Seq<u8>>::empty());
    assert(seq![b].last() == b);
    assert(concat_parts(Seq::<Seq<u8>>::empty()) == Seq::<u8>::empty());
    assert(concat_parts(seq![b]) == concat_parts(Seq::<Seq<u8>>::empty()) + b);
    assert(concat_parts(seq![b]) =~= b);
    assert(aligned(infos.take(p), a));
    lemma_concat_len(infos.take(p), a);
    let o = sum_sizes(infos.take(p)) as int;
    assert(concat_parts(parts).take(o) =~= concat_parts(a));
    assert(concat_parts(parts).skip(o) =~= concat_parts(c));
    let t = infos.insert(p, x);
    let u = parts.insert(p, b);
    assert forall|j: int| 0 <= j < u.len() implies (#[trigger] u[j]).len() == t[j].size by {
        if j < p {
        } else if j == p {
        } else {
            assert(u[j] == parts[j - 1]);
            assert(t[j] == infos[j - 1]);
        }
    }
}

/// Removing a part keeps the parts aligned, and cuts its bytes out at the
/// entry's offset.
pub proof fn lemma_remove_part(infos: Seq<ArchetypeInfo>, parts: Seq<Seq<u8>>, p: int)
    requires
        aligned(infos, parts),
        0 <= p < parts.len(),
    ensures
        aligned(infos.remove(p), parts.remove(p)),
        concat_parts(parts.remove(p)) == concat_parts(parts).take(sum_sizes(infos.take(p)) as int)
            + concat_parts(parts).skip(sum_sizes(infos.take(p)) + infos[p].size),
        entry_bytes(infos, concat_parts(parts), p) == parts[p],
{
    lemma_concat_entry(infos, parts, p);
    let b = parts[p];
    assert(parts.remove(p).insert(p, b) =~= parts);
    assert(infos.remove(p).insert(p, infos[p]) =~= infos);
    let infos2 = infos.remove(p);
    let parts2 = parts.remove(p);
    assert(aligned(infos2, parts2)) by {
        assert forall|j: int| 0 <= j < parts2.len() implies (#[trigger] parts2[j]).len() == infos2[j].size by {
            if j >= p {
                assert(parts2[j] == parts[j + 1]);
            }
        }
    }
    lemma_insert_part(infos2, parts2, p, infos[p], b);
    assert(infos2.take(p) =~= infos.take(p));
    let o = sum_sizes(infos.take(p)) as int;
    let whole = concat_parts(parts);
    assert(whole == concat_parts(parts2).take(o) + b + concat_parts(parts2).skip(o));
    lemma_concat_len(infos2, parts2);
    lemma_sum_sizes_prefix(infos2, p, infos2.len() as int);
    assert(infos2.take(infos2.len() as int) =~= infos2);
    assert(concat_parts(parts2) =~= whole.take(o) + whole.skip(o + infos[p].size));
}

/// In sorted entries, the position of an entry's type is that entry's.
pub proof fn lemma_sorted_position(s: Seq<ArchetypeInfo>, j: int)
    requires
        sorted_by_ty(s),
        0 <= j < s.len(),
    ensures
        position_of(s, s[j].ty) == Some(j),
{
    lemma_position_of(s, s[j].ty);
    let p = position_of(s, s[j].ty)->0;
    if p < j {
        assert(s[p].ty < s[j].ty);
    } else if p > j {
        assert(s[j].ty != s[j].ty);
    }
}

/// Whether `ids` holds `id`.
fn contains_id(ids: &Vec<ComponentId>, id: ComponentId) -> (r: bool)
    ensures
        r == exists|j: int| 0 <= j < ids@.len() && ids@[j] == id,
{
    let mut i: usize = 0;
    while i < ids.len()
        invariant
            i <= ids@.len(),
            forall|j: int| 0 <= j < i ==> ids@[j] != id,
        decreases ids@.len() - i,
    {
        if ids[i] == id {
            return true;
        }
        i = i + 1;
    }
    false
}

} // verus!
