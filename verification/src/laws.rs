use crate::archetype::{
    concat_parts, entry_bytes, holds_ty, insertion_point, position_of, sorted_by_ty, sum_sizes, ArchetypeInfo,
};
use crate::commands::{command_done, command_fits};
use crate::entity::Entity;
use crate::query::lemma_split_exists;
use crate::{
    bundle_bytes, bundle_holds, bundle_size, distinct_ids, info_of, insert_all, ComponentBundle, ComponentData,
    ComponentId, Registry,
};
use crate::query::{after_writes, muts_of, refs_of, term_muts, term_refs, write_of, writes, QueryTerm, QueryValue};
use crate::scheduler::{depends_on, neighbour_list, rounds, shares};
use vstd::prelude::*;

verus! {

/// An entity whose archetype takes no bytes holds no component bytes.
pub proof fn lemma_zero_width_holds_nothing(r: Registry, id: u64, ty: ComponentId)
    requires
        r.wf(),
        r.archetypes().contains_key(id),
        r.archetypes()[id].spec_total_size() == 0,
    ensures
        r.component(id, ty) is None,
{
    let a = r.archetypes()[id];
    if a.len != 0 {
        assert(r.has_storage_for(a));
        let k = r.storage_for(a);
        let st = r.storage@[k];
        assert(st.wf());
        assert(a.wf());
        crate::archetype::lemma_same_equiv(st.archetype, a, a);
        crate::archetype::lemma_same_shape(a, st.archetype);
        assert(st.row_size() == 0);
        if st.contains(id) {
            assert(st.secondary_mapping@[id] < st.rows());
        }
    }
}

/// After an insert that takes effect, the entity holds the bytes of each
/// inserted component, and still those of every other type it held (no
/// bytes, for a type it held in an archetype that took none), as long as its
/// archetype takes bytes.
pub proof fn lemma_insert_then_get(r0: Registry, r1: Registry, id: u64, cs: Seq<ComponentData>)
    requires
        r0.wf(),
        r0.insert_applies(id, cs),
        r0.insert_fits(id, cs),
        r0.inserted(r1, id, cs),
        r1.archetypes()[id].spec_total_size() != 0,
    ensures
        forall|i: int| 0 <= i < cs.len() ==> r1.component(id, #[trigger] cs[i].id) == Some(cs[i].bytes@),
        forall|ty: ComponentId| !bundle_holds(cs, ty) ==> #[trigger] r1.component(id, ty) == if holds_ty(
            r0.archetypes()[id].infos(),
            ty,
        ) && r0.archetypes()[id].spec_total_size() == 0 {
            Some(Seq::<u8>::empty())
        } else {
            r0.component(id, ty)
        },
{
    assert forall|i: int| 0 <= i < cs.len() implies r1.component(id, #[trigger] cs[i].id) == Some(cs[i].bytes@) by {
        crate::lemma_bundle_bytes(cs, i);
    }
}

/// Removing a component just inserted gives back its bytes and leaves the
/// registry's components as they were; the entity's archetype has its old
/// entries again, and the other entities theirs.
pub proof fn lemma_insert_then_remove(
    r0: Registry,
    r1: Registry,
    r2: Registry,
    id: u64,
    c: ComponentData,
    out: Option<Seq<u8>>,
)
    requires
        r0.wf(),
        r0.insert_applies(id, seq![c]),
        r0.inserted(r1, id, seq![c]),
        r1.archetypes()[id].spec_total_size() != 0,
        r1.removed(r2, id, c.id, out),
    ensures
        out == Some(c.bytes@),
        r2.archetypes()[id].infos() == r0.archetypes()[id].infos(),
        r2.archetypes().remove(id) == r0.archetypes().remove(id),
        forall|x: u64, ty: ComponentId| #[trigger] r2.component(x, ty) == r0.component(x, ty),
{
    let cs = seq![c];
    let a = r0.archetypes()[id];
    let s = a.infos();
    assert(a.wf());
    assert(cs.drop_last() =~= Seq::<ComponentData>::empty());
    assert(insert_all(s, cs.drop_last()) == s);
    assert(!holds_ty(s, c.id)) by {
        assert(!holds_ty(s, cs[0].id));
    }
    lemma_split_exists(s, c.id);
    let p = insertion_point(s, c.id);
    let x = info_of(c);
    let b = r1.archetypes()[id];
    assert(b.infos() == s.insert(p, x));
    assert(b.infos()[p].ty == c.id);
    assert(holds_ty(b.infos(), c.id));
    assert(r1.remove_applies(id, c.id));
    crate::archetype::lemma_position_of(b.infos(), c.id);
    assert(position_of(b.infos(), c.id) == Some(p)) by {
        let q = position_of(b.infos(), c.id)->0;
        if q < p {
            assert(b.infos()[q] == s[q]);
        } else if q > p {
            assert(b.infos()[p].ty == c.id);
        }
    }
    assert(b.infos().remove(p) =~= s);
    assert(bundle_holds(cs, c.id)) by {
        assert(cs[0].id == c.id);
    }
    crate::lemma_bundle_bytes(cs, 0);
    assert(r1.component(id, c.id) == Some(c.bytes@));
    let a2 = r2.archetypes()[id];
    assert(a2.infos() == s);
    assert forall|x: u64, ty: ComponentId| #[trigger] r2.component(x, ty) == r0.component(x, ty) by {
        if x == id {
            if ty == c.id {
                crate::archetype::lemma_position_of(s, ty);
            } else if a2.spec_total_size() == 0 {
                assert(a.spec_total_size() == 0);
                lemma_zero_width_holds_nothing(r0, id, ty);
            } else {
                assert(!bundle_holds(cs, ty));
            }
        }
    }
}

/// Creating a resource and then destroying it hands its bytes back and
/// leaves the other resources as they were.
pub proof fn lemma_create_then_destroy(r0: Registry, r1: Registry, r2: Registry, id: ComponentId, bytes: Seq<u8>)
    requires
        r1.resource_bytes() == r0.resource_bytes().insert(id, bytes),
        r2.resource_bytes() == r1.resource_bytes().remove(id),
    ensures
        r1.resource_bytes().contains_key(id),
        r1.resource_bytes()[id] == bytes,
        r2.resource_bytes() == r0.resource_bytes().remove(id),
        !r0.resource_bytes().contains_key(id) ==> r2.resource_bytes() == r0.resource_bytes(),
{
    assert(r2.resource_bytes() =~= r0.resource_bytes().remove(id));
    if !r0.resource_bytes().contains_key(id) {
        assert(r0.resource_bytes().remove(id) =~= r0.resource_bytes());
    }
}

/// A spawn hands out an entity that was not alive, and no later spawn hands
/// it out again: every operation in between leaves the next identity where
/// it was or moves it up.
pub proof fn lemma_spawns_distinct(
    r0: Registry,
    r1: Registry,
    r2: Registry,
    r3: Registry,
    e1: Entity,
    e2: Entity,
)
    requires
        r0.spawned(r1, e1),
        r1.entities.next_id() <= r2.entities.next_id(),
        r2.spawned(r3, e2),
    ensures
        !r0.archetypes().contains_key(e1.id),
        r1.archetypes().contains_key(e1.id),
        e1 != e2,
{
}

/// Putting the components of `cs` into sorted entries without their types
/// keeps the entries sorted, adds their sizes, and adds exactly their types.
pub proof fn lemma_insert_all(s: Seq<ArchetypeInfo>, cs: Seq<ComponentData>)
    requires
        sorted_by_ty(s),
        distinct_ids(cs),
        forall|i: int| 0 <= i < cs.len() ==> !holds_ty(s, #[trigger] cs[i].id),
        forall|i: int| 0 <= i < cs.len() ==> (#[trigger] cs[i]).bytes@.len() <= usize::MAX,
    ensures
        sorted_by_ty(insert_all(s, cs)),
        sum_sizes(insert_all(s, cs)) == sum_sizes(s) + bundle_size(cs),
        forall|ty: ComponentId| #[trigger] holds_ty(insert_all(s, cs), ty) <==> (holds_ty(s, ty) || bundle_holds(cs, ty)),
    decreases cs.len(),
{
    if cs.len() > 0 {
        let f = cs.drop_last();
        let c = cs.last();
        assert(distinct_ids(f));
        lemma_insert_all(s, f);
        let t = insert_all(s, f);
        assert(!holds_ty(t, c.id)) by {
            assert(!holds_ty(s, cs[cs.len() - 1].id));
            if bundle_holds(f, c.id) {
                let k = choose|k: int| 0 <= k < f.len() && #[trigger] f[k].id == c.id;
                assert(cs[k].id != cs[cs.len() - 1].id);
            }
        }
        lemma_split_exists(t, c.id);
        let p = insertion_point(t, c.id);
        let x = info_of(c);
        crate::archetype::lemma_insert_sorted(t, x, p);
        crate::archetype::lemma_sum_sizes_insert(t, p, x);
        assert(cs[cs.len() - 1].bytes@.len() <= usize::MAX);
        let r = t.insert(p, x);
        assert forall|ty: ComponentId| #[trigger] holds_ty(r, ty) <==> (holds_ty(s, ty) || bundle_holds(cs, ty)) by {
            if holds_ty(r, ty) {
                let i = choose|i: int| 0 <= i < r.len() && #[trigger] r[i].ty == ty;
                if i < p {
                    assert(t[i].ty == ty);
                } else if i > p {
                    assert(t[i - 1].ty == ty);
                } else {
                    assert(cs[cs.len() - 1].id == ty);
                }
            }
            if holds_ty(t, ty) {
                let i = choose|i: int| 0 <= i < t.len() && #[trigger] t[i].ty == ty;
                if i < p {
                    assert(r[i].ty == ty);
                } else {
                    assert(r[i + 1].ty == ty);
                }
            }
            if bundle_holds(cs, ty) {
                let k = choose|k: int| 0 <= k < cs.len() && #[trigger] cs[k].id == ty;
                if k < cs.len() - 1 {
                    assert(f[k].id == ty);
                } else {
                    assert(r[p].ty == ty);
                }
            }
            if bundle_holds(f, ty) {
                let k = choose|k: int| 0 <= k < f.len() && #[trigger] f[k].id == ty;
                assert(cs[k].id == ty);
            }
        }
    }
}

/// Each component of a bundle takes at most the bundle's bytes.
pub proof fn lemma_bundle_part_size(cs: Seq<ComponentData>, i: int)
    requires
        0 <= i < cs.len(),
    ensures
        cs[i].bytes@.len() <= bundle_size(cs),
    decreases cs.len(),
{
    if i < cs.len() - 1 {
        lemma_bundle_part_size(cs.drop_last(), i);
    }
}

/// Inserting a bundle gives the same entries and the same bytes as
/// inserting all of its components but the last, and then the last.
pub proof fn lemma_bundle_as_steps(r0: Registry, r1: Registry, r1b: Registry, r2: Registry, id: u64, cs: Seq<ComponentData>)
    requires
        r0.wf(),
        cs.len() > 0,
        r0.insert_applies(id, cs),
        r0.insert_fits(id, cs),
        r0.inserted(r1, id, cs),
        r0.inserted(r1b, id, cs.drop_last()),
        r1b.inserted(r2, id, seq![cs.last()]),
    ensures
        r2.archetypes()[id].infos() == r1.archetypes()[id].infos(),
        r2.archetypes().remove(id) == r1.archetypes().remove(id),
        forall|x: u64, ty: ComponentId| #[trigger] r2.component(x, ty) == r1.component(x, ty),
{
    let f = cs.drop_last();
    let c = cs.last();
    let a = r0.archetypes()[id];
    assert(a.wf());
    assert forall|i: int| 0 <= i < cs.len() implies (#[trigger] cs[i]).bytes@.len() <= usize::MAX by {
        lemma_bundle_part_size(cs, i);
    }
    assert(distinct_ids(f));
    assert(r0.insert_applies(id, f)) by {
        assert forall|i: int| 0 <= i < f.len() implies !holds_ty(a.infos(), #[trigger] f[i].id) by {
            assert(f[i] == cs[i]);
        }
    }
    lemma_insert_all(a.infos(), f);
    lemma_insert_all(a.infos(), cs);
    let tb = r1b.archetypes()[id];
    assert(tb.infos() == insert_all(a.infos(), f));
    assert(!holds_ty(tb.infos(), c.id)) by {
        assert(!holds_ty(a.infos(), cs[cs.len() - 1].id));
        if bundle_holds(f, c.id) {
            let k = choose|k: int| 0 <= k < f.len() && #[trigger] f[k].id == c.id;
            assert(cs[k].id != cs[cs.len() - 1].id);
        }
    }
    assert(r1b.insert_applies(id, seq![c])) by {
        assert forall|i: int| 0 <= i < 1 implies !holds_ty(tb.infos(), #[trigger] seq![c][i].id) by {}
    }
    assert(seq![c].drop_last() =~= Seq::<ComponentData>::empty());
    assert(seq![c].last() == c);
    assert(insert_all(tb.infos(), seq![c].drop_last()) == tb.infos());
    assert(f.push(c) =~= cs);
    let b1 = r1.archetypes()[id];
    let b2 = r2.archetypes()[id];
    assert(b2.infos() == b1.infos());
    assert(r2.archetypes().remove(id) =~= r1.archetypes().remove(id));
    assert(bundle_size(cs) == bundle_size(f) + c.bytes@.len());
    assert forall|x: u64, ty: ComponentId| #[trigger] r2.component(x, ty) == r1.component(x, ty) by {
        if x == id {
            let single = seq![c];
            if b1.spec_total_size() != 0 {
                if ty == c.id {
                    crate::lemma_bundle_bytes(cs, cs.len() - 1);
                    assert(bundle_holds(single, ty)) by {
                        assert(single[0].id == ty);
                    }
                    crate::lemma_bundle_bytes(single, 0);
                } else {
                    assert(!bundle_holds(single, ty)) by {
                        if bundle_holds(single, ty) {
                            let k = choose|k: int| 0 <= k < single.len() && #[trigger] single[k].id == ty;
                            assert(k == 0);
                        }
                    }
                    if bundle_holds(f, ty) {
                        let k = choose|k: int| 0 <= k < f.len() && #[trigger] f[k].id == ty;
                        assert(cs[k].id == ty);
                        crate::lemma_bundle_bytes(f, k);
                        crate::lemma_bundle_bytes(cs, k);
                        assert(bundle_bytes(cs, ty) == bundle_bytes(f, ty));
                        if tb.spec_total_size() == 0 {
                            lemma_bundle_part_size(f, k);
                            assert(bundle_bytes(f, ty) =~= Seq::<u8>::empty());
                        }
                    } else {
                        assert(!bundle_holds(cs, ty)) by {
                            if bundle_holds(cs, ty) {
                                let k = choose|k: int| 0 <= k < cs.len() && #[trigger] cs[k].id == ty;
                                if k < f.len() {
                                    assert(f[k].id == ty);
                                }
                            }
                        }
                        if tb.spec_total_size() == 0 {
                            assert(a.spec_total_size() == 0);
                            if !holds_ty(a.infos(), ty) {
                                crate::archetype::lemma_position_of(a.infos(), ty);
                            }
                        }
                    }
                }
            }
        }
    }
}

/// Every alive entity whose components take bytes has a row in exactly one
/// storage, the one for its archetype; the row is as long as the archetype's
/// total size, and is the bytes of the entity's components laid one after
/// the other in the archetype's order.
pub proof fn lemma_entity_layout(r: Registry, id: u64)
    requires
        r.wf(),
        r.archetypes().contains_key(id),
        r.archetypes()[id].spec_total_size() != 0,
    ensures
        r.archetypes()[id].wf(),
        0 <= r.storage_for(r.archetypes()[id]) < r.storage@.len(),
        r.storage@[r.storage_for(r.archetypes()[id])].archetype.same(&r.archetypes()[id]),
        forall|k: int|
            0 <= k < r.storage@.len() ==> (#[trigger] r.storage@[k].contains(id) <==> k == r.storage_for(
                r.archetypes()[id],
            )),
        r.storage@[r.storage_for(r.archetypes()[id])].entity_row(id).len() == r.archetypes()[id].spec_total_size(),
        forall|p: int|
            0 <= p < r.archetypes()[id].len ==> #[trigger] r.component(id, r.archetypes()[id].infos()[p].ty) == Some(
                entry_bytes(
                    r.archetypes()[id].infos(),
                    r.storage@[r.storage_for(r.archetypes()[id])].entity_row(id),
                    p,
                ),
            ),
        concat_parts(
            Seq::new(
                r.archetypes()[id].len as nat,
                |p: int| r.component(id, r.archetypes()[id].infos()[p].ty)->0,
            ),
        ) == r.storage@[r.storage_for(r.archetypes()[id])].entity_row(id),
{
    let a = r.archetypes()[id];
    assert(a.wf());
    assert(a.len != 0) by {
        if a.len == 0 {
            assert(a.infos() =~= Seq::<ArchetypeInfo>::empty());
        }
    }
    assert(r.has_storage_for(a));
    let k = r.storage_for(a);
    let st = r.storage@[k];
    assert(st.contains(id));
    assert(st.wf());
    crate::archetype::lemma_same_equiv(st.archetype, a, a);
    crate::archetype::lemma_same_shape(a, st.archetype);
    assert forall|j: int| 0 <= j < r.storage@.len() implies (#[trigger] r.storage@[j].contains(id) <==> j == k) by {
        if r.storage@[j].contains(id) && j != k {
            let sj = r.storage@[j].archetype;
            assert(a.same(&sj));
            crate::archetype::lemma_same_equiv(a, sj, a);
            crate::archetype::lemma_same_equiv(sj, a, st.archetype);
            assert(!sj.same(&st.archetype));
        }
    }
    let i = st.index_of(id);
    let t = st.row_size() as int;
    crate::storage::lemma_row_bounds(i, st.rows() as int, t);
    let row = st.entity_row(id);
    assert(row.len() == a.spec_total_size());
    assert forall|p: int| 0 <= p < a.len implies #[trigger] r.component(id, a.infos()[p].ty) == Some(
        entry_bytes(a.infos(), row, p),
    ) by {
        crate::archetype::lemma_sorted_position(a.infos(), p);
    }
    crate::archetype::lemma_entry_parts(a.infos(), row);
    assert(Seq::new(a.len as nat, |p: int| r.component(id, a.infos()[p].ty)->0) =~= crate::archetype::entry_parts(
        a.infos(),
        row,
    ));
}

/// A round is closed only by a dependency: every round holds a node, and
/// the first node of each round after the first has a node of the round
/// before among its neighbours. A node that depends on none of the current
/// round joins it.
pub proof fn lemma_rounds_closed_by_dependency(ids: Seq<usize>, neighbours: Seq<Seq<usize>>)
    ensures
        forall|p: int| 0 <= p < rounds(ids, neighbours).len() ==> #[trigger] rounds(ids, neighbours)[p].len() > 0,
        forall|p: int|
            0 <= p && p + 1 < rounds(ids, neighbours).len() ==> shares(
                #[trigger] rounds(ids, neighbours)[p],
                neighbour_list(neighbours, rounds(ids, neighbours)[p + 1][0]),
            ),
    decreases ids.len(),
{
    if ids.len() > 0 {
        let f = ids.drop_last();
        lemma_rounds_closed_by_dependency(f, neighbours);
        let prev = rounds(f, neighbours);
        let x = ids.last();
        let r = rounds(ids, neighbours);
        if prev.len() > 0 && !shares(prev.last(), neighbour_list(neighbours, x)) {
            let l = prev.len() - 1;
            assert(prev[l].len() > 0);
            assert forall|p: int| 0 <= p < r.len() implies #[trigger] r[p].len() > 0 by {
                if p != l {
                    assert(r[p] == prev[p]);
                }
            }
            assert forall|p: int| 0 <= p && p + 1 < r.len() implies shares(
                #[trigger] r[p],
                neighbour_list(neighbours, r[p + 1][0]),
            ) by {
                assert(r[p] == prev[p]);
                assert(prev[p + 1].len() > 0);
                assert(r[p + 1][0] == prev[p + 1][0]);
                assert(shares(prev[p], neighbour_list(neighbours, prev[p + 1][0])));
            }
        } else {
            let l = prev.len() as int;
            assert forall|p: int| 0 <= p < r.len() implies #[trigger] r[p].len() > 0 by {
                if p < l {
                    assert(r[p] == prev[p]);
                }
            }
            assert forall|p: int| 0 <= p && p + 1 < r.len() implies shares(
                #[trigger] r[p],
                neighbour_list(neighbours, r[p + 1][0]),
            ) by {
                assert(r[p] == prev[p]);
                if p + 1 < l {
                    assert(r[p + 1] == prev[p + 1]);
                    assert(shares(prev[p], neighbour_list(neighbours, prev[p + 1][0])));
                } else {
                    assert(r[p + 1] == seq![x]);
                    assert(p == l - 1);
                }
            }
        }
    }
}

/// A vector of components yields them all, in its order.
pub proof fn lemma_vec_components(v: Vec<ComponentData>)
    ensures
        v.components().len() == v@.len(),
        forall|i: int| 0 <= i < v@.len() ==> #[trigger] v.components()[i] == v@[i],
{
}

/// One component yields itself.
pub proof fn lemma_single_component(c: ComponentData)
    ensures
        c.components().len() == 1,
        c.components()[0] == c,
{
}

/// A tuple of 2 components yields all 2 of them, in the tuple's order.
pub proof fn lemma_tuple2_components(t: (ComponentData, ComponentData))
    ensures
        t.components().len() == 2,
        t.components()[0] == t.0,
        t.components()[1] == t.1,
{
}

/// A tuple of 3 components yields all 3 of them, in the tuple's order.
pub proof fn lemma_tuple3_components(t: (ComponentData, ComponentData, ComponentData))
    ensures
        t.components().len() == 3,
        t.components()[0] == t.0,
        t.components()[1] == t.1,
        t.components()[2] == t.2,
{
}

/// A tuple of 4 components yields all 4 of them, in the tuple's order.
pub proof fn lemma_tuple4_components(t: (ComponentData, ComponentData, ComponentData, ComponentData))
    ensures
        t.components().len() == 4,
        t.components()[0] == t.0,
        t.components()[1] == t.1,
        t.components()[2] == t.2,
        t.components()[3] == t.3,
{
}

/// A tuple of 5 components yields all 5 of them, in the tuple's order.
pub proof fn lemma_tuple5_components(t: (ComponentData, ComponentData, ComponentData, ComponentData, ComponentData))
    ensures
        t.components().len() == 5,
        t.components()[0] == t.0,
        t.components()[1] == t.1,
        t.components()[2] == t.2,
        t.components()[3] == t.3,
        t.components()[4] == t.4,
{
}

/// A tuple of 6 components yields all 6 of them, in the tuple's order.
pub proof fn lemma_tuple6_components(t: (ComponentData, ComponentData, ComponentData, ComponentData, ComponentData, ComponentData))
    ensures
        t.components().len() == 6,
        t.components()[0] == t.0,
        t.components()[1] == t.1,
        t.components()[2] == t.2,
        t.components()[3] == t.3,
        t.components()[4] == t.4,
        t.components()[5] == t.5,
{
}

/// A tuple of 7 components yields all 7 of them, in the tuple's order.
pub proof fn lemma_tuple7_components(t: (ComponentData, ComponentData, ComponentData, ComponentData, ComponentData, ComponentData, ComponentData))
    ensures
        t.components().len() == 7,
        t.components()[0] == t.0,
        t.components()[1] == t.1,
        t.components()[2] == t.2,
        t.components()[3] == t.3,
        t.components()[4] == t.4,
        t.components()[5] == t.5,
        t.components()[6] == t.6,
{
}

/// A tuple of 8 components yields all 8 of them, in the tuple's order.
pub proof fn lemma_tuple8_components(t: (ComponentData, ComponentData, ComponentData, ComponentData, ComponentData, ComponentData, ComponentData, ComponentData))
    ensures
        t.components().len() == 8,
        t.components()[0] == t.0,
        t.components()[1] == t.1,
        t.components()[2] == t.2,
        t.components()[3] == t.3,
        t.components()[4] == t.4,
        t.components()[5] == t.5,
        t.components()[6] == t.6,
        t.components()[7] == t.7,
{
}

/// A tuple of 9 components yields all 9 of them, in the tuple's order.
pub proof fn lemma_tuple9_components(t: (ComponentData, ComponentData, ComponentData, ComponentData, ComponentData, ComponentData, ComponentData, ComponentData, ComponentData))
    ensures
        t.components().len() == 9,
        t.components()[0] == t.0,
        t.components()[1] == t.1,
        t.components()[2] == t.2,
        t.components()[3] == t.3,
        t.components()[4] == t.4,
        t.components()[5] == t.5,
        t.components()[6] == t.6,
        t.components()[7] == t.7,
        t.components()[8] == t.8,
{
}

/// A tuple of 10 components yields all 10 of them, in the tuple's order.
pub proof fn lemma_tuple10_components(t: (ComponentData, ComponentData, ComponentData, ComponentData, ComponentData, ComponentData, ComponentData, ComponentData, ComponentData, ComponentData))
    ensures
        t.components().len() == 10,
        t.components()[0] == t.0,
        t.components()[1] == t.1,
        t.components()[2] == t.2,
        t.components()[3] == t.3,
        t.components()[4] == t.4,
        t.components()[5] == t.5,
        t.components()[6] == t.6,
        t.components()[7] == t.7,
        t.components()[8] == t.8,
        t.components()[9] == t.9,
{
}

/// A tuple of 11 components yields all 11 of them, in the tuple's order.
pub proof fn lemma_tuple11_components(t: (ComponentData, ComponentData, ComponentData, ComponentData, ComponentData, ComponentData, ComponentData, ComponentData, ComponentData, ComponentData, ComponentData))
    ensures
        t.components().len() == 11,
        t.components()[0] == t.0,
        t.components()[1] == t.1,
        t.components()[2] == t.2,
        t.components()[3] == t.3,
        t.components()[4] == t.4,
        t.components()[5] == t.5,
        t.components()[6] == t.6,
        t.components()[7] == t.7,
        t.components()[8] == t.8,
        t.components()[9] == t.9,
        t.components()[10] == t.10,
{
}

/// A tuple of 12 components yields all 12 of them, in the tuple's order.
pub proof fn lemma_tuple12_components(t: (ComponentData, ComponentData, ComponentData, ComponentData, ComponentData, ComponentData, ComponentData, ComponentData, ComponentData, ComponentData, ComponentData, ComponentData))
    ensures
        t.components().len() == 12,
        t.components()[0] == t.0,
        t.components()[1] == t.1,
        t.components()[2] == t.2,
        t.components()[3] == t.3,
        t.components()[4] == t.4,
        t.components()[5] == t.5,
        t.components()[6] == t.6,
        t.components()[7] == t.7,
        t.components()[8] == t.8,
        t.components()[9] == t.9,
        t.components()[10] == t.10,
        t.components()[11] == t.11,
{
}

/// A tuple of 13 components yields all 13 of them, in the tuple's order.
pub proof fn lemma_tuple13_components(t: (ComponentData, ComponentData, ComponentData, ComponentData, ComponentData, ComponentData, ComponentData, ComponentData, ComponentData, ComponentData, ComponentData, ComponentData, ComponentData))
    ensures
        t.components().len() == 13,
        t.components()[0] == t.0,
        t.components()[1] == t.1,
        t.components()[2] == t.2,
        t.components()[3] == t.3,
        t.components()[4] == t.4,
        t.components()[5] == t.5,
        t.components()[6] == t.6,
        t.components()[7] == t.7,
        t.components()[8] == t.8,
        t.components()[9] == t.9,
        t.components()[10] == t.10,
        t.components()[11] == t.11,
        t.components()[12] == t.12,
{
}

/// A tuple of 14 components yields all 14 of them, in the tuple's order.
pub proof fn lemma_tuple14_components(t: (ComponentData, ComponentData, ComponentData, ComponentData, ComponentData, ComponentData, ComponentData, ComponentData, ComponentData, ComponentData, ComponentData, ComponentData, ComponentData, ComponentData))
    ensures
        t.components().len() == 14,
        t.components()[0] == t.0,
        t.components()[1] == t.1,
        t.components()[2] == t.2,
        t.components()[3] == t.3,
        t.components()[4] == t.4,
        t.components()[5] == t.5,
        t.components()[6] == t.6,
        t.components()[7] == t.7,
        t.components()[8] == t.8,
        t.components()[9] == t.9,
        t.components()[10] == t.10,
        t.components()[11] == t.11,
        t.components()[12] == t.12,
        t.components()[13] == t.13,
{
}

/// A tuple of 15 components yields all 15 of them, in the tuple's order.
pub proof fn lemma_tuple15_components(t: (ComponentData, ComponentData, ComponentData, ComponentData, ComponentData, ComponentData, ComponentData, ComponentData, ComponentData, ComponentData, ComponentData, ComponentData, ComponentData, ComponentData, ComponentData))
    ensures
        t.components().len() == 15,
        t.components()[0] == t.0,
        t.components()[1] == t.1,
        t.components()[2] == t.2,
        t.components()[3] == t.3,
        t.components()[4] == t.4,
        t.components()[5] == t.5,
        t.components()[6] == t.6,
        t.components()[7] == t.7,
        t.components()[8] == t.8,
        t.components()[9] == t.9,
        t.components()[10] == t.10,
        t.components()[11] == t.11,
        t.components()[12] == t.12,
        t.components()[13] == t.13,
        t.components()[14] == t.14,
{
}

/// A tuple of 16 components yields all 16 of them, in the tuple's order.
pub proof fn lemma_tuple16_components(t: (ComponentData, ComponentData, ComponentData, ComponentData, ComponentData, ComponentData, ComponentData, ComponentData, ComponentData, ComponentData, ComponentData, ComponentData, ComponentData, ComponentData, ComponentData, ComponentData))
    ensures
        t.components().len() == 16,
        t.components()[0] == t.0,
        t.components()[1] == t.1,
        t.components()[2] == t.2,
        t.components()[3] == t.3,
        t.components()[4] == t.4,
        t.components()[5] == t.5,
        t.components()[6] == t.6,
        t.components()[7] == t.7,
        t.components()[8] == t.8,
        t.components()[9] == t.9,
        t.components()[10] == t.10,
        t.components()[11] == t.11,
        t.components()[12] == t.12,
        t.components()[13] == t.13,
        t.components()[14] == t.14,
        t.components()[15] == t.15,
{
}

/// A tuple of 17 components yields all 17 of them, in the tuple's order.
pub proof fn lemma_tuple17_components(t: (ComponentData, ComponentData, ComponentData, ComponentData, ComponentData, ComponentData, ComponentData, ComponentData, ComponentData, ComponentData, ComponentData, ComponentData, ComponentData, ComponentData, ComponentData, ComponentData, ComponentData))
    ensures
        t.components().len() == 17,
        t.components()[0] == t.0,
        t.components()[1] == t.1,
        t.components()[2] == t.2,
        t.components()[3] == t.3,
        t.components()[4] == t.4,
        t.components()[5] == t.5,
        t.components()[6] == t.6,
        t.components()[7] == t.7,
        t.components()[8] == t.8,
        t.components()[9] == t.9,
        t.components()[10] == t.10,
        t.components()[11] == t.11,
        t.components()[12] == t.12,
        t.components()[13] == t.13,
        t.components()[14] == t.14,
        t.components()[15] == t.15,
        t.components()[16] == t.16,
{
}

/// A tuple of 18 components yields all 18 of them, in the tuple's order.
pub proof fn lemma_tuple18_components(t: (ComponentData, ComponentData, ComponentData, ComponentData, ComponentData, ComponentData, ComponentData, ComponentData, ComponentData, ComponentData, ComponentData, ComponentData, ComponentData, ComponentData, ComponentData, ComponentData, ComponentData, ComponentData))
    ensures
        t.components().len() == 18,
        t.components()[0] == t.0,
        t.components()[1] == t.1,
        t.components()[2] == t.2,
        t.components()[3] == t.3,
        t.components()[4] == t.4,
        t.components()[5] == t.5,
        t.components()[6] == t.6,
        t.components()[7] == t.7,
        t.components()[8] == t.8,
        t.components()[9] == t.9,
        t.components()[10] == t.10,
        t.components()[11] == t.11,
        t.components()[12] == t.12,
        t.components()[13] == t.13,
        t.components()[14] == t.14,
        t.components()[15] == t.15,
        t.components()[16] == t.16,
        t.components()[17] == t.17,
{
}

/// A tuple of 19 components yields all 19 of them, in the tuple's order.
pub proof fn lemma_tuple19_components(t: (ComponentData, ComponentData, ComponentData, ComponentData, ComponentData, ComponentData, ComponentData, ComponentData, ComponentData, ComponentData, ComponentData, ComponentData, ComponentData, ComponentData, ComponentData, ComponentData, ComponentData, ComponentData, ComponentData))
    ensures
        t.components().len() == 19,
        t.components()[0] == t.0,
        t.components()[1] == t.1,
        t.components()[2] == t.2,
        t.components()[3] == t.3,
        t.components()[4] == t.4,
        t.components()[5] == t.5,
        t.components()[6] == t.6,
        t.components()[7] == t.7,
        t.components()[8] == t.8,
        t.components()[9] == t.9,
        t.components()[10] == t.10,
        t.components()[11] == t.11,
        t.components()[12] == t.12,
        t.components()[13] == t.13,
        t.components()[14] == t.14,
        t.components()[15] == t.15,
        t.components()[16] == t.16,
        t.components()[17] == t.17,
        t.components()[18] == t.18,
{
}

/// A tuple of 20 components yields all 20 of them, in the tuple's order.
pub proof fn lemma_tuple20_components(t: (ComponentData, ComponentData, ComponentData, ComponentData, ComponentData, ComponentData, ComponentData, ComponentData, ComponentData, ComponentData, ComponentData, ComponentData, ComponentData, ComponentData, ComponentData, ComponentData, ComponentData, ComponentData, ComponentData, ComponentData))
    ensures
        t.components().len() == 20,
        t.components()[0] == t.0,
        t.components()[1] == t.1,
        t.components()[2] == t.2,
        t.components()[3] == t.3,
        t.components()[4] == t.4,
        t.components()[5] == t.5,
        t.components()[6] == t.6,
        t.components()[7] == t.7,
        t.components()[8] == t.8,
        t.components()[9] == t.9,
        t.components()[10] == t.10,
        t.components()[11] == t.11,
        t.components()[12] == t.12,
        t.components()[13] == t.13,
        t.components()[14] == t.14,
        t.components()[15] == t.15,
        t.components()[16] == t.16,
        t.components()[17] == t.17,
        t.components()[18] == t.18,
        t.components()[19] == t.19,
{
}

/// A tuple of 21 components yields all 21 of them, in the tuple's order.
pub proof fn lemma_tuple21_components(t: (ComponentData, ComponentData, ComponentData, ComponentData, ComponentData, ComponentData, ComponentData, ComponentData, ComponentData, ComponentData, ComponentData, ComponentData, ComponentData, ComponentData, ComponentData, ComponentData, ComponentData, ComponentData, ComponentData, ComponentData, ComponentData))
    ensures
        t.components().len() == 21,
        t.components()[0] == t.0,
        t.components()[1] == t.1,
        t.components()[2] == t.2,
        t.components()[3] == t.3,
        t.components()[4] == t.4,
        t.components()[5] == t.5,
        t.components()[6] == t.6,
        t.components()[7] == t.7,
        t.components()[8] == t.8,
        t.components()[9] == t.9,
        t.components()[10] == t.10,
        t.components()[11] == t.11,
        t.components()[12] == t.12,
        t.components()[13] == t.13,
        t.components()[14] == t.14,
        t.components()[15] == t.15,
        t.components()[16] == t.16,
        t.components()[17] == t.17,
        t.components()[18] == t.18,
        t.components()[19] == t.19,
        t.components()[20] == t.20,
{
}

/// A tuple of 22 components yields all 22 of them, in the tuple's order.
pub proof fn lemma_tuple22_components(t: (ComponentData, ComponentData, ComponentData, ComponentData, ComponentData, ComponentData, ComponentData, ComponentData, ComponentData, ComponentData, ComponentData, ComponentData, ComponentData, ComponentData, ComponentData, ComponentData, ComponentData, ComponentData, ComponentData, ComponentData, ComponentData, ComponentData))
    ensures
        t.components().len() == 22,
        t.components()[0] == t.0,
        t.components()[1] == t.1,
        t.components()[2] == t.2,
        t.components()[3] == t.3,
        t.components()[4] == t.4,
        t.components()[5] == t.5,
        t.components()[6] == t.6,
        t.components()[7] == t.7,
        t.components()[8] == t.8,
        t.components()[9] == t.9,
        t.components()[10] == t.10,
        t.components()[11] == t.11,
        t.components()[12] == t.12,
        t.components()[13] == t.13,
        t.components()[14] == t.14,
        t.components()[15] == t.15,
        t.components()[16] == t.16,
        t.components()[17] == t.17,
        t.components()[18] == t.18,
        t.components()[19] == t.19,
        t.components()[20] == t.20,
        t.components()[21] == t.21,
{
}

/// A tuple of 23 components yields all 23 of them, in the tuple's order.
pub proof fn lemma_tuple23_components(t: (ComponentData, ComponentData, ComponentData, ComponentData, ComponentData, ComponentData, ComponentData, ComponentData, ComponentData, ComponentData, ComponentData, ComponentData, ComponentData, ComponentData, ComponentData, ComponentData, ComponentData, ComponentData, ComponentData, ComponentData, ComponentData, ComponentData, ComponentData))
    ensures
        t.components().len() == 23,
        t.components()[0] == t.0,
        t.components()[1] == t.1,
        t.components()[2] == t.2,
        t.components()[3] == t.3,
        t.components()[4] == t.4,
        t.components()[5] == t.5,
        t.components()[6] == t.6,
        t.components()[7] == t.7,
        t.components()[8] == t.8,
        t.components()[9] == t.9,
        t.components()[10] == t.10,
        t.components()[11] == t.11,
        t.components()[12] == t.12,
        t.components()[13] == t.13,
        t.components()[14] == t.14,
        t.components()[15] == t.15,
        t.components()[16] == t.16,
        t.components()[17] == t.17,
        t.components()[18] == t.18,
        t.components()[19] == t.19,
        t.components()[20] == t.20,
        t.components()[21] == t.21,
        t.components()[22] == t.22,
{
}

/// A tuple of 24 components yields all 24 of them, in the tuple's order.
pub proof fn lemma_tuple24_components(t: (ComponentData, ComponentData, ComponentData, ComponentData, ComponentData, ComponentData, ComponentData, ComponentData, ComponentData, ComponentData, ComponentData, ComponentData, ComponentData, ComponentData, ComponentData, ComponentData, ComponentData, ComponentData, ComponentData, ComponentData, ComponentData, ComponentData, ComponentData, ComponentData))
    ensures
        t.components().len() == 24,
        t.components()[0] == t.0,
        t.components()[1] == t.1,
        t.components()[2] == t.2,
        t.components()[3] == t.3,
        t.components()[4] == t.4,
        t.components()[5] == t.5,
        t.components()[6] == t.6,
        t.components()[7] == t.7,
        t.components()[8] == t.8,
        t.components()[9] == t.9,
        t.components()[10] == t.10,
        t.components()[11] == t.11,
        t.components()[12] == t.12,
        t.components()[13] == t.13,
        t.components()[14] == t.14,
        t.components()[15] == t.15,
        t.components()[16] == t.16,
        t.components()[17] == t.17,
        t.components()[18] == t.18,
        t.components()[19] == t.19,
        t.components()[20] == t.20,
        t.components()[21] == t.21,
        t.components()[22] == t.22,
        t.components()[23] == t.23,
{
}

/// A tuple of 25 components yields all 25 of them, in the tuple's order.
pub proof fn lemma_tuple25_components(t: (ComponentData, ComponentData, ComponentData, ComponentData, ComponentData, ComponentData, ComponentData, ComponentData, ComponentData, ComponentData, ComponentData, ComponentData, ComponentData, ComponentData, ComponentData, ComponentData, ComponentData, ComponentData, ComponentData, ComponentData, ComponentData, ComponentData, ComponentData, ComponentData, ComponentData))
    ensures
        t.components().len() == 25,
        t.components()[0] == t.0,
        t.components()[1] == t.1,
        t.components()[2] == t.2,
        t.components()[3] == t.3,
        t.components()[4] == t.4,
        t.components()[5] == t.5,
        t.components()[6] == t.6,
        t.components()[7] == t.7,
        t.components()[8] == t.8,
        t.components()[9] == t.9,
        t.components()[10] == t.10,
        t.components()[11] == t.11,
        t.components()[12] == t.12,
        t.components()[13] == t.13,
        t.components()[14] == t.14,
        t.components()[15] == t.15,
        t.components()[16] == t.16,
        t.components()[17] == t.17,
        t.components()[18] == t.18,
        t.components()[19] == t.19,
        t.components()[20] == t.20,
        t.components()[21] == t.21,
        t.components()[22] == t.22,
        t.components()[23] == t.23,
        t.components()[24] == t.24,
{
}

/// A tuple of 26 components yields all 26 of them, in the tuple's order.
pub proof fn lemma_tuple26_components(t: (ComponentData, ComponentData, ComponentData, ComponentData, ComponentData, ComponentData, ComponentData, ComponentData, ComponentData, ComponentData, ComponentData, ComponentData, ComponentData, ComponentData, ComponentData, ComponentData, ComponentData, ComponentData, ComponentData, ComponentData, ComponentData, ComponentData, ComponentData, ComponentData, ComponentData, ComponentData))
    ensures
        t.components().len() == 26,
        t.components()[0] == t.0,
        t.components()[1] == t.1,
        t.components()[2] == t.2,
        t.components()[3] == t.3,
        t.components()[4] == t.4,
        t.components()[5] == t.5,
        t.components()[6] == t.6,
        t.components()[7] == t.7,
        t.components()[8] == t.8,
        t.components()[9] == t.9,
        t.components()[10] == t.10,
        t.components()[11] == t.11,
        t.components()[12] == t.12,
        t.components()[13] == t.13,
        t.components()[14] == t.14,
        t.components()[15] == t.15,
        t.components()[16] == t.16,
        t.components()[17] == t.17,
        t.components()[18] == t.18,
        t.components()[19] == t.19,
        t.components()[20] == t.20,
        t.components()[21] == t.21,
        t.components()[22] == t.22,
        t.components()[23] == t.23,
        t.components()[24] == t.24,
        t.components()[25] == t.25,
{
}

/// A tuple of 27 components yields all 27 of them, in the tuple's order.
pub proof fn lemma_tuple27_components(t: (ComponentData, ComponentData, ComponentData, ComponentData, ComponentData, ComponentData, ComponentData, ComponentData, ComponentData, ComponentData, ComponentData, ComponentData, ComponentData, ComponentData, ComponentData, ComponentData, ComponentData, ComponentData, ComponentData, ComponentData, ComponentData, ComponentData, ComponentData, ComponentData, ComponentData, ComponentData, ComponentData))
    ensures
        t.components().len() == 27,
        t.components()[0] == t.0,
        t.components()[1] == t.1,
        t.components()[2] == t.2,
        t.components()[3] == t.3,
        t.components()[4] == t.4,
        t.components()[5] == t.5,
        t.components()[6] == t.6,
        t.components()[7] == t.7,
        t.components()[8] == t.8,
        t.components()[9] == t.9,
        t.components()[10] == t.10,
        t.components()[11] == t.11,
        t.components()[12] == t.12,
        t.components()[13] == t.13,
        t.components()[14] == t.14,
        t.components()[15] == t.15,
        t.components()[16] == t.16,
        t.components()[17] == t.17,
        t.components()[18] == t.18,
        t.components()[19] == t.19,
        t.components()[20] == t.20,
        t.components()[21] == t.21,
        t.components()[22] == t.22,
        t.components()[23] == t.23,
        t.components()[24] == t.24,
        t.components()[25] == t.25,
        t.components()[26] == t.26,
{
}

/// A tuple of 28 components yields all 28 of them, in the tuple's order.
pub proof fn lemma_tuple28_components(t: (ComponentData, ComponentData, ComponentData, ComponentData, ComponentData, ComponentData, ComponentData, ComponentData, ComponentData, ComponentData, ComponentData, ComponentData, ComponentData, ComponentData, ComponentData, ComponentData, ComponentData, ComponentData, ComponentData, ComponentData, ComponentData, ComponentData, ComponentData, ComponentData, ComponentData, ComponentData, ComponentData, ComponentData))
    ensures
        t.components().len() == 28,
        t.components()[0] == t.0,
        t.components()[1] == t.1,
        t.components()[2] == t.2,
        t.components()[3] == t.3,
        t.components()[4] == t.4,
        t.components()[5] == t.5,
        t.components()[6] == t.6,
        t.components()[7] == t.7,
        t.components()[8] == t.8,
        t.components()[9] == t.9,
        t.components()[10] == t.10,
        t.components()[11] == t.11,
        t.components()[12] == t.12,
        t.components()[13] == t.13,
        t.components()[14] == t.14,
        t.components()[15] == t.15,
        t.components()[16] == t.16,
        t.components()[17] == t.17,
        t.components()[18] == t.18,
        t.components()[19] == t.19,
        t.components()[20] == t.20,
        t.components()[21] == t.21,
        t.components()[22] == t.22,
        t.components()[23] == t.23,
        t.components()[24] == t.24,
        t.components()[25] == t.25,
        t.components()[26] == t.26,
        t.components()[27] == t.27,
{
}

/// A tuple of 29 components yields all 29 of them, in the tuple's order.
pub proof fn lemma_tuple29_components(t: (ComponentData, ComponentData, ComponentData, ComponentData, ComponentData, ComponentData, ComponentData, ComponentData, ComponentData, ComponentData, ComponentData, ComponentData, ComponentData, ComponentData, ComponentData, ComponentData, ComponentData, ComponentData, ComponentData, ComponentData, ComponentData, ComponentData, ComponentData, ComponentData, ComponentData, ComponentData, ComponentData, ComponentData, ComponentData))
    ensures
        t.components().len() == 29,
        t.components()[0] == t.0,
        t.components()[1] == t.1,
        t.components()[2] == t.2,
        t.components()[3] == t.3,
        t.components()[4] == t.4,
        t.components()[5] == t.5,
        t.components()[6] == t.6,
        t.components()[7] == t.7,
        t.components()[8] == t.8,
        t.components()[9] == t.9,
        t.components()[10] == t.10,
        t.components()[11] == t.11,
        t.components()[12] == t.12,
        t.components()[13] == t.13,
        t.components()[14] == t.14,
        t.components()[15] == t.15,
        t.components()[16] == t.16,
        t.components()[17] == t.17,
        t.components()[18] == t.18,
        t.components()[19] == t.19,
        t.components()[20] == t.20,
        t.components()[21] == t.21,
        t.components()[22] == t.22,
        t.components()[23] == t.23,
        t.components()[24] == t.24,
        t.components()[25] == t.25,
        t.components()[26] == t.26,
        t.components()[27] == t.27,
        t.components()[28] == t.28,
{
}

/// A tuple of 30 components yields all 30 of them, in the tuple's order.
pub proof fn lemma_tuple30_components(t: (ComponentData, ComponentData, ComponentData, ComponentData, ComponentData, ComponentData, ComponentData, ComponentData, ComponentData, ComponentData, ComponentData, ComponentData, ComponentData, ComponentData, ComponentData, ComponentData, ComponentData, ComponentData, ComponentData, ComponentData, ComponentData, ComponentData, ComponentData, ComponentData, ComponentData, ComponentData, ComponentData, ComponentData, ComponentData, ComponentData))
    ensures
        t.components().len() == 30,
        t.components()[0] == t.0,
        t.components()[1] == t.1,
        t.components()[2] == t.2,
        t.components()[3] == t.3,
        t.components()[4] == t.4,
        t.components()[5] == t.5,
        t.components()[6] == t.6,
        t.components()[7] == t.7,
        t.components()[8] == t.8,
        t.components()[9] == t.9,
        t.components()[10] == t.10,
        t.components()[11] == t.11,
        t.components()[12] == t.12,
        t.components()[13] == t.13,
        t.components()[14] == t.14,
        t.components()[15] == t.15,
        t.components()[16] == t.16,
        t.components()[17] == t.17,
        t.components()[18] == t.18,
        t.components()[19] == t.19,
        t.components()[20] == t.20,
        t.components()[21] == t.21,
        t.components()[22] == t.22,
        t.components()[23] == t.23,
        t.components()[24] == t.24,
        t.components()[25] == t.25,
        t.components()[26] == t.26,
        t.components()[27] == t.27,
        t.components()[28] == t.28,
        t.components()[29] == t.29,
{
}

/// A tuple of 31 components yields all 31 of them, in the tuple's order.
pub proof fn lemma_tuple31_components(t: (ComponentData, ComponentData, ComponentData, ComponentData, ComponentData, ComponentData, ComponentData, ComponentData, ComponentData, ComponentData, ComponentData, ComponentData, ComponentData, ComponentData, ComponentData, ComponentData, ComponentData, ComponentData, ComponentData, ComponentData, ComponentData, ComponentData, ComponentData, ComponentData, ComponentData, ComponentData, ComponentData, ComponentData, ComponentData, ComponentData, ComponentData))
    ensures
        t.components().len() == 31,
        t.components()[0] == t.0,
        t.components()[1] == t.1,
        t.components()[2] == t.2,
        t.components()[3] == t.3,
        t.components()[4] == t.4,
        t.components()[5] == t.5,
        t.components()[6] == t.6,
        t.components()[7] == t.7,
        t.components()[8] == t.8,
        t.components()[9] == t.9,
        t.components()[10] == t.10,
        t.components()[11] == t.11,
        t.components()[12] == t.12,
        t.components()[13] == t.13,
        t.components()[14] == t.14,
        t.components()[15] == t.15,
        t.components()[16] == t.16,
        t.components()[17] == t.17,
        t.components()[18] == t.18,
        t.components()[19] == t.19,
        t.components()[20] == t.20,
        t.components()[21] == t.21,
        t.components()[22] == t.22,
        t.components()[23] == t.23,
        t.components()[24] == t.24,
        t.components()[25] == t.25,
        t.components()[26] == t.26,
        t.components()[27] == t.27,
        t.components()[28] == t.28,
        t.components()[29] == t.29,
        t.components()[30] == t.30,
{
}

/// A tuple of 32 components yields all 32 of them, in the tuple's order.
pub proof fn lemma_tuple32_components(t: (ComponentData, ComponentData, ComponentData, ComponentData, ComponentData, ComponentData, ComponentData, ComponentData, ComponentData, ComponentData, ComponentData, ComponentData, ComponentData, ComponentData, ComponentData, ComponentData, ComponentData, ComponentData, ComponentData, ComponentData, ComponentData, ComponentData, ComponentData, ComponentData, ComponentData, ComponentData, ComponentData, ComponentData, ComponentData, ComponentData, ComponentData, ComponentData))
    ensures
        t.components().len() == 32,
        t.components()[0] == t.0,
        t.components()[1] == t.1,
        t.components()[2] == t.2,
        t.components()[3] == t.3,
        t.components()[4] == t.4,
        t.components()[5] == t.5,
        t.components()[6] == t.6,
        t.components()[7] == t.7,
        t.components()[8] == t.8,
        t.components()[9] == t.9,
        t.components()[10] == t.10,
        t.components()[11] == t.11,
        t.components()[12] == t.12,
        t.components()[13] == t.13,
        t.components()[14] == t.14,
        t.components()[15] == t.15,
        t.components()[16] == t.16,
        t.components()[17] == t.17,
        t.components()[18] == t.18,
        t.components()[19] == t.19,
        t.components()[20] == t.20,
        t.components()[21] == t.21,
        t.components()[22] == t.22,
        t.components()[23] == t.23,
        t.components()[24] == t.24,
        t.components()[25] == t.25,
        t.components()[26] == t.26,
        t.components()[27] == t.27,
        t.components()[28] == t.28,
        t.components()[29] == t.29,
        t.components()[30] == t.30,
        t.components()[31] == t.31,
{
}

/// The term `t` names the type `ty`: a component or a resource of that
/// type, required or optional, read or written.
pub open spec fn names_type(t: QueryTerm, ty: ComponentId) -> bool {
    ||| t matches QueryTerm::Component { info, .. } && info.ty == ty
    ||| t matches QueryTerm::OptionalComponent { info, .. } && info.ty == ty
    ||| t matches QueryTerm::Resource { info, .. } && info.ty == ty
    ||| t matches QueryTerm::OptionalResource { info, .. } && info.ty == ty
}

/// The term `t` names the type `ty` and is marked mutable.
pub open spec fn names_type_mutably(t: QueryTerm, ty: ComponentId) -> bool {
    ||| t matches QueryTerm::Component { info, mutable } && mutable && info.ty == ty
    ||| t matches QueryTerm::OptionalComponent { info, mutable } && mutable && info.ty == ty
    ||| t matches QueryTerm::Resource { info, mutable } && mutable && info.ty == ty
    ||| t matches QueryTerm::OptionalResource { info, mutable } && mutable && info.ty == ty
}

/// One term reads the type it names, and writes it where it is mutable.
proof fn lemma_term_access(t: QueryTerm, ty: ComponentId)
    ensures
        term_refs(t).contains(ty) <==> names_type(t, ty),
        term_muts(t).contains(ty) <==> names_type_mutably(t, ty),
{
    match t {
        QueryTerm::Component { info, mutable } => {},
        QueryTerm::OptionalComponent { info, mutable } => {},
        QueryTerm::Resource { info, mutable } => {},
        QueryTerm::OptionalResource { info, mutable } => {},
        _ => {},
    }
}

/// The terms read exactly the types some term names (a component or a
/// resource, required or optional), and write exactly those that a term
/// marked mutable names.
pub proof fn lemma_terms_access(terms: Seq<QueryTerm>)
    ensures
        forall|ty: ComponentId| #[trigger] refs_of(terms).contains(ty) <==> exists|i: int|
            0 <= i < terms.len() && #[trigger] names_type(terms[i], ty),
        forall|ty: ComponentId| #[trigger] muts_of(terms).contains(ty) <==> exists|i: int|
            0 <= i < terms.len() && #[trigger] names_type_mutably(terms[i], ty),
    decreases terms.len(),
{
    if terms.len() > 0 {
        let f = terms.drop_last();
        lemma_terms_access(f);
        let n = terms.len() - 1;
        assert(terms.last() == terms[n]);
        assert forall|ty: ComponentId| #[trigger] refs_of(terms).contains(ty) <==> exists|i: int|
            0 <= i < terms.len() && #[trigger] names_type(terms[i], ty) by {
            lemma_term_access(terms[n], ty);
            assert(refs_of(terms) == refs_of(f).union(term_refs(terms[n])));
            if refs_of(terms).contains(ty) {
                if refs_of(f).contains(ty) {
                    let i = choose|i: int| 0 <= i < f.len() && #[trigger] names_type(f[i], ty);
                    assert(terms[i] == f[i]);
                    assert(names_type(terms[i], ty));
                } else {
                    assert(names_type(terms[n], ty));
                }
            }
            if exists|i: int| 0 <= i < terms.len() && #[trigger] names_type(terms[i], ty) {
                let i = choose|i: int| 0 <= i < terms.len() && #[trigger] names_type(terms[i], ty);
                if i < n {
                    assert(f[i] == terms[i]);
                    assert(names_type(f[i], ty));
                }
            }
        }
        assert forall|ty: ComponentId| #[trigger] muts_of(terms).contains(ty) <==> exists|i: int|
            0 <= i < terms.len() && #[trigger] names_type_mutably(terms[i], ty) by {
            lemma_term_access(terms[n], ty);
            assert(muts_of(terms) == muts_of(f).union(term_muts(terms[n])));
            if muts_of(terms).contains(ty) {
                if muts_of(f).contains(ty) {
                    let i = choose|i: int| 0 <= i < f.len() && #[trigger] names_type_mutably(f[i], ty);
                    assert(terms[i] == f[i]);
                    assert(names_type_mutably(terms[i], ty));
                } else {
                    assert(names_type_mutably(terms[n], ty));
                }
            }
            if exists|i: int| 0 <= i < terms.len() && #[trigger] names_type_mutably(terms[i], ty) {
                let i = choose|i: int| 0 <= i < terms.len() && #[trigger] names_type_mutably(terms[i], ty);
                if i < n {
                    assert(f[i] == terms[i]);
                    assert(names_type_mutably(f[i], ty));
                }
            }
        }
    }
}

/// A system whose term `a[i]` writes a type conflicts, both ways, with one
/// whose term `b[j]` reads or writes that type.
pub proof fn lemma_write_conflicts(a: Seq<QueryTerm>, b: Seq<QueryTerm>, i: int, j: int, ty: ComponentId)
    requires
        0 <= i < a.len(),
        0 <= j < b.len(),
        names_type_mutably(a[i], ty),
        names_type(b[j], ty),
    ensures
        depends_on(a, b),
        depends_on(b, a),
{
    lemma_terms_access(a);
    lemma_terms_access(b);
    assert(muts_of(a).contains(ty));
    assert(refs_of(b).contains(ty));
    assert(refs_of(b).contains(ty) && muts_of(a).contains(ty));
}

/// The bytes that the term `t` with the value `v` hands back for the
/// component type `ty`: those of a mutable component term of that type, or
/// of a mutable optional one that holds a value.
pub open spec fn component_written(t: QueryTerm, v: QueryValue, ty: ComponentId) -> Option<Seq<u8>> {
    match t {
        QueryTerm::Component { info, mutable } => match v {
            QueryValue::Component(b) => if mutable && info.ty == ty {
                Some(b@)
            } else {
                None
            },
            _ => None,
        },
        QueryTerm::OptionalComponent { info, mutable } => match v {
            QueryValue::OptionalComponent(Some(b)) => if mutable && info.ty == ty {
                Some(b@)
            } else {
                None
            },
            _ => None,
        },
        _ => None,
    }
}

/// The bytes that the term `t` with the value `v` hands back for the
/// resource type `ty`: those of a mutable resource term of that type, or of
/// a mutable optional one that holds a value.
pub open spec fn resource_written(t: QueryTerm, v: QueryValue, ty: ComponentId) -> Option<Seq<u8>> {
    match t {
        QueryTerm::Resource { info, mutable } => match v {
            QueryValue::Resource(b) => if mutable && info.ty == ty {
                Some(b@)
            } else {
                None
            },
            _ => None,
        },
        QueryTerm::OptionalResource { info, mutable } => match v {
            QueryValue::OptionalResource(Some(b)) => if mutable && info.ty == ty {
                Some(b@)
            } else {
                None
            },
            _ => None,
        },
        _ => None,
    }
}

/// Writing back one term and its value: a component of the term's type
/// that held `start` holds the value's bytes where the term is mutable and
/// the bytes are as many as before, and `start` otherwise; a resource of the
/// term's type holds the value's bytes where the term is mutable.
pub proof fn lemma_write_back_one(t: QueryTerm, v: QueryValue, ty: ComponentId, start: Seq<u8>)
    ensures
        after_writes(writes(seq![t], seq![v]), false, ty, start) == match component_written(t, v, ty) {
            Some(b) => if b.len() == start.len() {
                b
            } else {
                start
            },
            None => start,
        },
        after_writes(writes(seq![t], seq![v]), true, ty, start) == match resource_written(t, v, ty) {
            Some(b) => b,
            None => start,
        },
{
    let ws = writes(seq![t], seq![v]);
    assert(ws.len() == 1);
    assert(ws.drop_last() =~= Seq::<Option<(bool, ComponentId, Seq<u8>)>>::empty());
    assert(ws.last() == write_of(t, v));
    assert(after_writes(ws.drop_last(), false, ty, start) == start);
    assert(after_writes(ws.drop_last(), true, ty, start) == start);
}

/// Writes one after the other: the writes of `ws1` and then those of `ws2`
/// leave what the writes of `ws2` leave from what those of `ws1` left.
pub proof fn lemma_after_writes_add(
    ws1: Seq<Option<(bool, ComponentId, Seq<u8>)>>,
    ws2: Seq<Option<(bool, ComponentId, Seq<u8>)>>,
    res: bool,
    ty: ComponentId,
    start: Seq<u8>,
)
    ensures
        after_writes(ws1 + ws2, res, ty, start) == after_writes(ws2, res, ty, after_writes(ws1, res, ty, start)),
    decreases ws2.len(),
{
    if ws2.len() == 0 {
        assert(ws1 + ws2 =~= ws1);
    } else {
        lemma_after_writes_add(ws1, ws2.drop_last(), res, ty, start);
        assert((ws1 + ws2).drop_last() =~= ws1 + ws2.drop_last());
        assert((ws1 + ws2).last() == ws2.last());
    }
}

/// Writing back terms and values in two parts, the first of equal lengths,
/// is writing back the first part and then the second.
pub proof fn lemma_write_back_parts(
    t1: Seq<QueryTerm>,
    v1: Seq<QueryValue>,
    t2: Seq<QueryTerm>,
    v2: Seq<QueryValue>,
    res: bool,
    ty: ComponentId,
    start: Seq<u8>,
)
    requires
        t1.len() == v1.len(),
    ensures
        after_writes(writes(t1 + t2, v1 + v2), res, ty, start) == after_writes(
            writes(t2, v2),
            res,
            ty,
            after_writes(writes(t1, v1), res, ty, start),
        ),
{
    assert(writes(t1 + t2, v1 + v2) =~= writes(t1, v1) + writes(t2, v2));
    lemma_after_writes_add(writes(t1, v1), writes(t2, v2), res, ty, start);
}

/// A queued spawn of `cs` is carried out in full exactly when the insert of
/// `cs` into the entity that the spawn hands out runs to its end: the new
/// entity has no components, so that insert always takes effect.
pub proof fn lemma_spawn_fits_as_insert(old: Registry, mid: Registry, e: Entity, cs: Seq<ComponentData>)
    requires
        old.spawned(mid, e),
    ensures
        mid.insert_applies(e.id, cs),
        command_fits(old, (None, cs)) == mid.insert_fits(e.id, cs),
{
    let a = mid.archetypes()[e.id];
    assert(a.infos() =~= Seq::<ArchetypeInfo>::empty());
    assert(a.spec_total_size() == 0);
    assert forall|i: int| 0 <= i < cs.len() implies !holds_ty(a.infos(), #[trigger] cs[i].id) by {}
}

/// After a queued spawn of components that take bytes is carried out in
/// full, the entity with the identity that was next holds the bytes of
/// every one of them.
pub proof fn lemma_spawn_command_holds(old: Registry, cs: Seq<ComponentData>, new: Registry)
    requires
        old.wf(),
        command_fits(old, (None, cs)),
        command_done(old, (None, cs), new),
        bundle_size(cs) != 0,
    ensures
        new.archetypes().contains_key(old.entities.next_id()),
        forall|i: int| 0 <= i < cs.len() ==> #[trigger] new.component(old.entities.next_id(), cs[i].id) == Some(cs[i].bytes@),
{
    reveal(command_done);
    let (mid, e) = choose|mid: Registry, e: Entity| #[trigger] old.spawned(mid, e) && if command_fits(old, (None, cs)) {
        mid.inserted(new, e.id, cs)
    } else {
        new == mid
    };
    lemma_spawn_fits_as_insert(old, mid, e, cs);
    let a = mid.archetypes()[e.id];
    assert(a.infos() =~= Seq::<ArchetypeInfo>::empty());
    assert forall|i: int| 0 <= i < cs.len() implies (#[trigger] cs[i]).bytes@.len() <= usize::MAX by {
        lemma_bundle_part_size(cs, i);
    }
    lemma_insert_all(a.infos(), cs);
    lemma_insert_then_get(mid, new, e.id, cs);
}

/// A queued insert into an entity, where the insert takes effect and runs
/// to its end or does not take effect, leaves the registry as the insert
/// itself does.
pub proof fn lemma_insert_command(old: Registry, e: Entity, cs: Seq<ComponentData>, new: Registry)
    requires
        old.wf(),
        old.insert_applies(e.id, cs) ==> old.insert_fits(e.id, cs),
        command_done(old, (Some(e), cs), new),
    ensures
        old.inserted(new, e.id, cs),
{
    reveal(command_done);
}

} // verus!
