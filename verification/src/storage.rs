use crate::archetype::Archetype;
use crate::entity::Entity;
use crate::ComponentData;
use std::collections::HashMap;
use vstd::prelude::*;

verus! {

broadcast use vstd::std_specs::hash::group_hash_axioms;

/// `s` with its element `i` replaced by its last element, and the last
/// element dropped: what `Vec::swap_remove` leaves.
pub open spec fn swap_removed<A>(s: Seq<A>, i: int) -> Seq<A> {
    s.update(i, s.last()).drop_last()
}

/// The rows of one archetype: the bytes of each entity's components side by
/// side, one row after the other, with the entity of each row, the row of
/// each entity, and the components each row was made from.
pub struct Storage {
    pub archetype: Archetype,
    pub data: Vec<u8>,
    pub mapping: Vec<Entity>,
    pub secondary_mapping: HashMap<u64, usize>,
    pub table: Vec<Vec<ComponentData>>,
}

/// Row `i` of width `t` starts at `i * t` and ends by `n * t` when `i < n`.
pub proof fn lemma_row_bounds(i: int, n: int, t: int)
    requires
        0 <= i < n,
        0 <= t,
    ensures
        0 <= i * t,
        i * t + t <= n * t,
{
    assert(0 <= i * t) by (nonlinear_arith)
        requires
            0 <= i,
            0 <= t,
    ;
    assert(i * t + t <= n * t) by (nonlinear_arith)
        requires
            0 <= i < n,
            0 <= t,
    ;
}

impl Storage {
    /// The number of rows.
    pub open spec fn rows(&self) -> nat {
        self.mapping@.len()
    }

    /// The width of a row in bytes.
    pub open spec fn row_size(&self) -> nat {
        self.archetype.spec_total_size()
    }

    /// Row `i`'s bytes.
    pub open spec fn row(&self, i: int) -> Seq<u8> {
        self.data@.subrange(i * self.row_size(), i * self.row_size() + self.row_size())
    }

    /// Whether the entity with identity `id` has a row here.
    pub open spec fn contains(&self, id: u64) -> bool {
        self.secondary_mapping@.contains_key(id)
    }

    /// The row of the entity with identity `id`.
    pub open spec fn index_of(&self, id: u64) -> int {
        self.secondary_mapping@[id] as int
    }

    /// The bytes of the entity with identity `id`.
    pub open spec fn entity_row(&self, id: u64) -> Seq<u8> {
        self.row(self.index_of(id))
    }

    /// The table entry of the entity with identity `id`.
    pub open spec fn entity_table(&self, id: u64) -> Vec<ComponentData> {
        self.table@[self.index_of(id)]
    }

    /// The invariant: the archetype's first `len` slots are filled and its
    /// total size fits in a `usize` (its order is no concern here), there is one row of
    /// `row_size` bytes and one table entry per entity, the entity of each
    /// row maps back to that row and to no other, and an archetype of width
    /// zero keeps no rows.
    pub open spec fn wf(&self) -> bool {
        &&& self.archetype.valid()
        &&& self.archetype.spec_total_size() <= usize::MAX
        &&& self.data@.len() == self.rows() * self.row_size()
        &&& self.table@.len() == self.rows()
        &&& (self.row_size() == 0 ==> self.rows() == 0)
        &&& forall|i: int|
            0 <= i < self.rows() ==> #[trigger] self.secondary_mapping@.contains_key(
                self.mapping@[i].id,
            ) && self.secondary_mapping@[self.mapping@[i].id] == i
        &&& forall|k: u64| #[trigger]
            self.secondary_mapping@.contains_key(k) ==> self.secondary_mapping@[k] < self.rows()
                && self.mapping@[self.secondary_mapping@[k] as int].id == k
    }

    /// `new` is this storage after a push of the row `data` with the
    /// record `repr` for `entity`: appended as the last row where rows take
    /// bytes, nothing otherwise.
    pub open spec fn pushed(&self, new: Storage, entity: Entity, data: Seq<u8>, repr: Vec<ComponentData>) -> bool {
        &&& new.wf()
        &&& new.archetype == self.archetype
        &&& self.row_size() == 0 ==> new == *self
        &&& self.row_size() != 0 ==> {
            &&& new.mapping@ == self.mapping@.push(entity)
            &&& new.data@ == self.data@ + data
            &&& new.table@ == self.table@.push(repr)
            &&& new.secondary_mapping@ == self.secondary_mapping@.insert(entity.id, self.rows() as usize)
            &&& forall|x: u64| #[trigger] new.contains(x) <==> (self.contains(x) || x == entity.id)
            &&& new.entity_row(entity.id) == data
            &&& new.entity_table(entity.id) == repr
            &&& forall|x: u64| #[trigger]
                self.contains(x) ==> new.entity_row(x) == self.entity_row(x) && new.entity_table(x)
                    == self.entity_table(x)
        }
    }

    /// `new` is this storage after the row of `entity` was taken out and
    /// returned as `r`: the last row moves into its place; where rows take
    /// no bytes, nothing changes and nothing is returned.
    pub open spec fn removed_row(&self, new: Storage, entity: Entity, r: (Seq<u8>, Vec<ComponentData>)) -> bool {
        &&& new.wf()
        &&& new.archetype == self.archetype
        &&& self.row_size() == 0 ==> new == *self && r.0 == Seq::<u8>::empty() && r.1@ == Seq::<ComponentData>::empty()
        &&& self.row_size() != 0 ==> {
            let i = self.index_of(entity.id);
            let n = self.rows() as int;
            &&& r.0 == self.row(i)
            &&& r.1 == self.table@[i]
            &&& new.mapping@ == swap_removed(self.mapping@, i)
            &&& new.table@ == swap_removed(self.table@, i)
            &&& new.rows() == n - 1
            &&& forall|j: int|
                0 <= j < n - 1 ==> #[trigger] new.row(j) == self.row(
                    if j == i {
                        n - 1
                    } else {
                        j
                    },
                )
            &&& new.secondary_mapping@ == if i == n - 1 {
                self.secondary_mapping@.remove(entity.id)
            } else {
                self.secondary_mapping@.remove(entity.id).insert(self.mapping@[n - 1].id, i as usize)
            }
            &&& forall|x: u64| #[trigger] new.contains(x) <==> (self.contains(x) && x != entity.id)
            &&& forall|x: u64| #[trigger]
                new.contains(x) ==> new.entity_row(x) == self.entity_row(x) && new.entity_table(x)
                    == self.entity_table(x)
        }
    }

    /// An empty storage for `archetype`.
    pub fn new(archetype: Archetype) -> (r: Storage)
        ensures
            archetype.valid() && archetype.spec_total_size() <= usize::MAX ==> r.wf(),
            r.archetype == archetype,
            r.rows() == 0,
            r.data@ == Seq::<u8>::empty(),
            r.table@ == Seq::<Vec<ComponentData>>::empty(),
            r.secondary_mapping@.dom() == Set::<u64>::empty(),
    {
        let r = Storage {
            archetype,
            data: Vec::new(),
            mapping: Vec::new(),
            secondary_mapping: HashMap::new(),
            table: Vec::new(),
        };
        assert(r.rows() * r.row_size() == 0) by (nonlinear_arith)
            requires
                r.rows() == 0,
        ;
        r
    }

    /// Appends a row for `entity` made of `data` and `repr`. An archetype of
    /// width zero keeps no rows, and is left as it was.
    #[verifier::spinoff_prover]
    pub fn push(&mut self, entity: Entity, data: Vec<u8>, repr: Vec<ComponentData>)
        requires
            old(self).wf(),
            old(self).row_size() != 0 ==> data@.len() == old(self).row_size(),
            old(self).row_size() != 0 ==> !old(self).contains(entity.id),
        ensures
            old(self).pushed(*final(self), entity, data@, repr),
    {
        let individual_size = self.archetype.total_size();
        if individual_size == 0 {
            return;
        }
        let ghost old_self = *self;
        let ghost n = self.rows();
        let ghost t = self.row_size();
        proof {
            assert((n * t) / t == n) by (nonlinear_arith)
                requires
                    t > 0,
            ;
            assert(n * t + t == (n + 1) * t) by (nonlinear_arith);
            assert(n <= n * t) by (nonlinear_arith)
                requires
                    t > 0,
            ;
        }
        let idx = self.data.len() / individual_size;
        let ghost pushed = data@;
        let mut bytes = data;
        self.data.append(&mut bytes);
        self.mapping.push(entity);
        self.secondary_mapping.insert(entity.id, idx);
        self.table.push(repr);
        proof {
            assert(self.row_size() == t);
            assert(self.data@.len() == self.rows() * self.row_size());
            assert forall|i: int| 0 <= i < self.rows() implies #[trigger] self.secondary_mapping@.contains_key(
                self.mapping@[i].id,
            ) && self.secondary_mapping@[self.mapping@[i].id] == i by {
                if i < n {
                    assert(self.mapping@[i] == old_self.mapping@[i]);
                    assert(old_self.secondary_mapping@.contains_key(old_self.mapping@[i].id));
                }
            }
            assert forall|k: u64| #[trigger] self.secondary_mapping@.contains_key(k) implies self.secondary_mapping@[k]
                < self.rows() && self.mapping@[self.secondary_mapping@[k] as int].id == k by {
                if k != entity.id {
                    assert(old_self.secondary_mapping@.contains_key(k));
                }
            }
            assert(self.row(n as int) =~= pushed);
            assert forall|x: u64| #[trigger] old_self.contains(x) implies self.entity_row(x)
                == old_self.entity_row(x) by {
                let q = old_self.index_of(x);
                assert(old_self.mapping@[q].id == x);
                lemma_row_bounds(q, n as int, t as int);
                assert(self.row(q) =~= old_self.row(q));
            }
        }
    }

    /// Takes out the row of `entity`, moving the last row into its place;
    /// returns its bytes and its table entry. An archetype of width zero keeps
    /// no rows: it returns nothing and is left as it was.
    #[verifier::spinoff_prover]
    pub fn remove(&mut self, entity: Entity) -> (r: (Vec<u8>, Vec<ComponentData>))
        requires
            old(self).wf(),
            old(self).row_size() != 0 ==> old(self).contains(entity.id),
        ensures
            old(self).removed_row(*final(self), entity, (r.0@, r.1)),
    {
        let individual_size = self.archetype.total_size();
        if individual_size == 0 {
            return (Vec::new(), Vec::new());
        }
        let ghost old_self = *self;
        let ghost t = self.row_size() as int;
        let ghost nn = self.rows() as int;
        proof {
            assert((nn * t) / t == nn) by (nonlinear_arith)
                requires
                    t > 0,
            ;
        }
        let row_count = self.data.len() / individual_size;
        let idx = self.secondary_mapping.remove(&entity.id).unwrap();
        proof {
            lemma_row_bounds(idx as int, nn, t);
            lemma_row_bounds(nn - 1, nn, t);
            assert((nn - 1) * t + t == nn * t) by (nonlinear_arith);
            if idx < nn - 1 {
                lemma_row_bounds(idx as int, nn - 1, t);
            }
        }
        let data_len = self.data.len();
        self.mapping.swap_remove(idx);
        let table = self.table.swap_remove(idx);
        if idx != row_count - 1 {
            let moved = self.mapping[idx].id;
            self.secondary_mapping.insert(moved, idx);
        }
        let ghost mid = *self;
        let start = idx * individual_size;
        let last_start = (row_count - 1) * individual_size;
        let mut removed: Vec<u8> = Vec::new();
        let mut k: usize = 0;
        while k < individual_size
            invariant
                k <= individual_size,
                individual_size == t,
                start + t <= self.data@.len(),
                self.data@.len() == data_len,
                self.data@ == old_self.data@,
                self.archetype == mid.archetype,
                self.mapping == mid.mapping,
                self.secondary_mapping == mid.secondary_mapping,
                self.table == mid.table,
                removed@ == self.data@.subrange(start as int, start + k),
            decreases individual_size - k,
        {
            removed.push(self.data[start + k]);
            k = k + 1;
        }
        if idx != row_count - 1 {
            let mut k: usize = 0;
            while k < individual_size
                invariant
                    k <= individual_size,
                    individual_size == t,
                    start + t <= last_start,
                    last_start + t == old_self.data@.len(),
                    old_self.data@.len() == data_len,
                    self.archetype == mid.archetype,
                    self.mapping == mid.mapping,
                    self.secondary_mapping == mid.secondary_mapping,
                    self.table == mid.table,
                    self.data@.len() == old_self.data@.len(),
                    forall|p: int|
                        0 <= p < self.data@.len() ==> #[trigger] self.data@[p] == if start <= p
                            < start + k {
                            old_self.data@[p - start + last_start]
                        } else {
                            old_self.data@[p]
                        },
                decreases individual_size - k,
            {
                let b = self.data[last_start + k];
                self.data.set(start + k, b);
                k = k + 1;
            }
        }
        let ghost before_truncate = self.data@;
        proof {
            assert(before_truncate.len() == old_self.data@.len());
            assert forall|p: int| 0 <= p < before_truncate.len() implies #[trigger] before_truncate[p]
                == if idx != nn - 1 && start <= p < start + t {
                old_self.data@[p - start + last_start]
            } else {
                old_self.data@[p]
            } by {}
        }
        self.data.truncate(last_start);
        proof {
            let n = nn;
            assert(self.archetype == old_self.archetype);
            assert(self.mapping@ == swap_removed(old_self.mapping@, idx as int));
            assert(self.mapping@.len() == n - 1);
            assert(self.row_size() == t);
            assert forall|j: int| 0 <= j < n - 1 implies #[trigger] self.row(j) == old_self.row(
                if j == idx {
                    n - 1
                } else {
                    j
                },
            ) by {
                lemma_row_bounds(j, n - 1, t);
                if j == idx {
                    assert forall|q: int| 0 <= q < t implies self.row(j)[q] == old_self.row(n - 1)[q] by {
                        assert(self.row(j)[q] == before_truncate[start + q]);
                    }
                    assert(self.row(j) =~= old_self.row(n - 1));
                } else if j < idx {
                    lemma_row_bounds(j, idx as int, t);
                    assert forall|q: int| 0 <= q < t implies self.row(j)[q] == old_self.row(j)[q] by {
                        assert(self.row(j)[q] == before_truncate[j * t + q]);
                    }
                    assert(self.row(j) =~= old_self.row(j));
                } else {
                    lemma_row_bounds(idx as int, j, t);
                    assert forall|q: int| 0 <= q < t implies self.row(j)[q] == old_self.row(j)[q] by {
                        assert(self.row(j)[q] == before_truncate[j * t + q]);
                    }
                    assert(self.row(j) =~= old_self.row(j));
                }
            }
            assert(self.data@.len() == (n - 1) * t) by (nonlinear_arith)
                requires
                    self.data@.len() == last_start,
                    last_start == (n - 1) * t,
            ;
            assert forall|i: int|
                0 <= i < self.rows() implies #[trigger] self.secondary_mapping@.contains_key(
                self.mapping@[i].id,
            ) && self.secondary_mapping@[self.mapping@[i].id] == i by {
                if i == idx {
                } else {
                    assert(self.mapping@[i] == old_self.mapping@[i]);
                    assert(old_self.secondary_mapping@.contains_key(old_self.mapping@[i].id));
                    assert(old_self.secondary_mapping@[old_self.mapping@[i].id] == i);
                    assert(old_self.mapping@[i].id != entity.id);
                    assert(old_self.mapping@[i].id != old_self.mapping@[n - 1].id);
                }
            }
            assert forall|key: u64| #[trigger]
                self.secondary_mapping@.contains_key(key) implies self.secondary_mapping@[key]
                < self.rows() && self.mapping@[self.secondary_mapping@[key] as int].id == key by {
                assert(old_self.secondary_mapping@.contains_key(key));
                if key == old_self.mapping@[n - 1].id && idx != n - 1 {
                } else {
                    let q = old_self.secondary_mapping@[key] as int;
                    assert(old_self.mapping@[q].id == key);
                    assert(q != idx);
                    assert(q != n - 1);
                }
            }
        }
        proof {
            let n = nn;
            assert forall|x: u64| #[trigger] self.contains(x) implies self.entity_row(x)
                == old_self.entity_row(x) && self.entity_table(x) == old_self.entity_table(x) by {
                assert(old_self.secondary_mapping@.contains_key(x));
                let q = old_self.secondary_mapping@[x] as int;
                assert(old_self.mapping@[q].id == x);
                if q == n - 1 && idx != n - 1 {
                    assert(self.index_of(x) == idx);
                } else {
                    assert(q != idx);
                    assert(self.index_of(x) == q);
                }
            }
        }
        (removed, table)
    }

    /// A mutable borrow of the `size` bytes of the data from `start` on; what
    /// is written through it takes their place.
    pub fn bytes_mut(&mut self, start: usize, size: usize) -> (r: &mut [u8])
        requires
            start + size <= old(self).data@.len(),
        ensures
            r@ == old(self).data@.subrange(start as int, start + size),
            final(self).archetype == old(self).archetype,
            final(self).mapping == old(self).mapping,
            final(self).secondary_mapping == old(self).secondary_mapping,
            final(self).table == old(self).table,
            final(self).data@ == old(self).data@.take(start as int) + final(r)@ + old(self).data@.skip(
                start + size,
            ),
    {
        let slice = self.data.as_mut_slice();
        let (head, tail) = slice.split_at_mut(start);
        let (mid, rest) = tail.split_at_mut(size);
        mid
    }
}

/// Two sequences of `n` rows of `t` bytes that agree row by row are equal.
pub proof fn lemma_rows_determine(a: Seq<u8>, b: Seq<u8>, n: int, t: int)
    requires
        t > 0,
        n >= 0,
        a.len() == n * t,
        b.len() == n * t,
        forall|j: int| 0 <= j < n ==> #[trigger] a.subrange(j * t, j * t + t) == b.subrange(j * t, j * t + t),
    ensures
        a == b,
{
    assert forall|k: int| 0 <= k < a.len() implies a[k] == b[k] by {
        let j = k / t;
        let o = k % t;
        assert(k == j * t + o && 0 <= o < t) by (nonlinear_arith)
            requires
                t > 0,
                k >= 0,
                j == k / t,
                o == k % t,
        ;
        assert(0 <= j < n) by (nonlinear_arith)
            requires
                k == j * t + o,
                0 <= o < t,
                0 <= k < n * t,
                t > 0,
        ;
        lemma_row_bounds(j, n, t);
        assert(a.subrange(j * t, j * t + t)[o] == a[k]);
        assert(b.subrange(j * t, j * t + t)[o] == b[k]);
    }
    assert(a =~= b);
}

/// Pushing a row for an entity and taking it out again gives back the row
/// and its record, and leaves the storage as it was.
pub proof fn lemma_push_then_remove(
    s0: Storage,
    s1: Storage,
    s2: Storage,
    e: Entity,
    d: Seq<u8>,
    repr: Vec<ComponentData>,
    out: (Seq<u8>, Vec<ComponentData>),
)
    requires
        s0.wf(),
        s0.row_size() != 0,
        !s0.contains(e.id),
        d.len() == s0.row_size(),
        s0.pushed(s1, e, d, repr),
        s1.removed_row(s2, e, out),
    ensures
        out.0 == d,
        out.1 == repr,
        s2.archetype == s0.archetype,
        s2.data@ == s0.data@,
        s2.mapping@ == s0.mapping@,
        s2.table@ == s0.table@,
        s2.secondary_mapping@ == s0.secondary_mapping@,
{
    let n = s0.rows() as int;
    let t = s0.row_size() as int;
    assert(s1.row_size() == t);
    assert(s1.mapping.len() == s1.mapping@.len());
    assert(s1.index_of(e.id) == n);
    assert(s1.rows() == n + 1);
    assert(s0.data@.len() == n * t);
    assert(s1.row(n) =~= d);
    assert(s2.mapping@ =~= s0.mapping@);
    assert(s2.table@ =~= s0.table@);
    assert(s2.secondary_mapping@ =~= s0.secondary_mapping@);
    assert(s2.row_size() == t);
    assert forall|j: int| 0 <= j < n implies #[trigger] s2.data@.subrange(j * t, j * t + t) == s0.data@.subrange(
        j * t,
        j * t + t,
    ) by {
        lemma_row_bounds(j, n, t);
        assert(s2.row(j) == s1.row(j));
        assert(s1.row(j) =~= s0.row(j));
    }
    lemma_rows_determine(s2.data@, s0.data@, n, t);
}

} // verus!
