pub mod archetype;
pub mod bundle;
pub mod commands;
pub mod entity;
pub mod laws;
pub mod maps;
pub mod query;
pub mod scheduler;
pub mod storage;

use crate::archetype::{
    aligned, concat_parts, entry_parts, holds_ty, insertion_point, lemma_concat_entry,
    lemma_concat_len, lemma_entry_parts, lemma_sorted_position, lemma_remove_part,
    lemma_remove_sorted, lemma_sum_sizes_remove, lemma_insert_part, lemma_sum_sizes_prefix, sorted_by_ty,
    ArchetypeState, entry_bytes, lemma_entry_within, lemma_position_of, lemma_same_equiv, lemma_same_shape, position_of,
    sum_sizes, Archetype, ArchetypeInfo,
};
use crate::entity::{Entities, Entity};
use crate::maps::{entity_map_contents, resource_map_contents, EntityMap, ResourceMap};
use crate::storage::{lemma_row_bounds, Storage};
use vstd::prelude::*;

verus! {

/// The identity of a component type (or of a resource type).
pub type ComponentId = u64;

/// A component as the registry holds it: the identity and name of its type,
/// and its bytes.
pub struct ComponentData {
    pub id: ComponentId,
    pub name: &'static str,
    pub bytes: Vec<u8>,
}

/// What a component tells about itself.
pub trait Component {
    fn id(&self) -> ComponentId;

    fn name(&self) -> &'static str;

    fn size(&self) -> usize;
}

impl Component for ComponentData {
    fn id(&self) -> (r: ComponentId)
        ensures
            r == self.id,
    {
        self.id
    }

    fn name(&self) -> (r: &'static str)
        ensures
            r == self.name,
    {
        self.name
    }

    fn size(&self) -> (r: usize)
        ensures
            r == self.bytes@.len(),
    {
        self.bytes.len()
    }
}

/// A resource as the registry holds it: the identity of its type and its
/// bytes.
pub struct ResourceData {
    pub id: ComponentId,
    pub bytes: Vec<u8>,
}

/// What a resource tells about itself.
pub trait Resource {
    fn id(&self) -> ComponentId;

    fn size(&self) -> usize;
}

impl Resource for ResourceData {
    fn id(&self) -> (r: ComponentId)
        ensures
            r == self.id,
    {
        self.id
    }

    fn size(&self) -> (r: usize)
        ensures
            r == self.bytes@.len(),
    {
        self.bytes.len()
    }
}

/// A group of components inserted together.
pub trait ComponentBundle: Sized {
    /// The components, in order.
    spec fn components(&self) -> Seq<ComponentData>;

    /// The components, in order.
    fn into_component_iter(self) -> (r: Vec<ComponentData>)
        ensures
            r@ == self.components(),
    ;
}

impl ComponentBundle for Vec<ComponentData> {
    open spec fn components(&self) -> Seq<ComponentData> {
        self@
    }

    fn into_component_iter(self) -> (r: Vec<ComponentData>) {
        self
    }
}

impl ComponentBundle for ComponentData {
    open spec fn components(&self) -> Seq<ComponentData> {
        seq![*self]
    }

    fn into_component_iter(self) -> (r: Vec<ComponentData>) {
        let mut v = Vec::new();
        v.push(self);
        proof {
            assert(v@ =~= seq![self]);
        }
        v
    }
}


/// The names in the filled slots, in order.
pub open spec fn slot_names(slots: Seq<Option<ArchetypeInfo>>) -> Seq<&'static str>
    decreases slots.len(),
{
    if slots.len() == 0 {
        Seq::empty()
    } else {
        let rest = slot_names(slots.drop_last());
        match slots.last() {
            Some(info) => rest.push(info.name),
            None => rest,
        }
    }
}

/// The archetype entry of a component.
pub open spec fn info_of(c: ComponentData) -> ArchetypeInfo {
    ArchetypeInfo {
        ty: c.id,
        size: c.bytes@.len() as usize,
        name: c.name,
        state: ArchetypeState::Component,
    }
}

/// The entries `s` with the entry of each component of `cs` put in at its
/// sorted place, one after the other.
pub open spec fn insert_all(s: Seq<ArchetypeInfo>, cs: Seq<ComponentData>) -> Seq<ArchetypeInfo>
    decreases cs.len(),
{
    if cs.len() == 0 {
        s
    } else {
        let t = insert_all(s, cs.drop_last());
        t.insert(insertion_point(t, cs.last().id), info_of(cs.last()))
    }
}

/// No two components are of the same type.
pub open spec fn distinct_ids(cs: Seq<ComponentData>) -> bool {
    forall|i: int, j: int| 0 <= i < j < cs.len() ==> #[trigger] cs[i].id != #[trigger] cs[j].id
}

/// Some component of `cs` is of type `ty`.
pub open spec fn bundle_holds(cs: Seq<ComponentData>, ty: ComponentId) -> bool {
    exists|i: int| 0 <= i < cs.len() && #[trigger] cs[i].id == ty
}

/// The bytes of the component of type `ty` in `cs`.
pub open spec fn bundle_bytes(cs: Seq<ComponentData>, ty: ComponentId) -> Seq<u8> {
    cs[choose|i: int| 0 <= i < cs.len() && #[trigger] cs[i].id == ty].bytes@
}

/// The sizes of the components of `cs` together.
pub open spec fn bundle_size(cs: Seq<ComponentData>) -> nat
    decreases cs.len(),
{
    if cs.len() == 0 {
        0
    } else {
        bundle_size(cs.drop_last()) + cs.last().bytes@.len()
    }
}

/// Where the ids are distinct, the bytes of type `ty` are those of the one
/// component of that type.
pub proof fn lemma_bundle_bytes(cs: Seq<ComponentData>, i: int)
    requires
        distinct_ids(cs),
        0 <= i < cs.len(),
    ensures
        bundle_holds(cs, cs[i].id),
        bundle_bytes(cs, cs[i].id) == cs[i].bytes@,
{
    let j = choose|j: int| 0 <= j < cs.len() && #[trigger] cs[j].id == cs[i].id;
    if j < i {
        assert(cs[j].id != cs[i].id);
    } else if i < j {
        assert(cs[i].id != cs[j].id);
    }
}

/// The sizes of a prefix of the components are at most those of all.
pub proof fn lemma_bundle_size_prefix(cs: Seq<ComponentData>, i: int)
    requires
        0 <= i <= cs.len(),
    ensures
        bundle_size(cs.take(i)) <= bundle_size(cs),
        i < cs.len() ==> bundle_size(cs.take(i + 1)) == bundle_size(cs.take(i)) + cs[i].bytes@.len(),
    decreases cs.len() - i,
{
    if i < cs.len() {
        assert(cs.take(i + 1).drop_last() =~= cs.take(i));
        lemma_bundle_size_prefix(cs, i + 1);
    } else {
        assert(cs.take(i) =~= cs);
    }
}

/// `b` laid into `data` at `at`.
fn splice_bytes(data: &Vec<u8>, at: usize, b: &Vec<u8>) -> (r: Vec<u8>)
    requires
        at <= data@.len(),
    ensures
        r@ == data@.take(at as int) + b@ + data@.skip(at as int),
{
    let mut r: Vec<u8> = Vec::new();
    let mut i: usize = 0;
    while i < at
        invariant
            i <= at,
            at <= data@.len(),
            r@ == data@.take(i as int),
        decreases at - i,
    {
        r.push(data[i]);
        proof {
            assert(data@.take(i + 1) =~= data@.take(i as int).push(data@[i as int]));
        }
        i = i + 1;
    }
    let mut j: usize = 0;
    while j < b.len()
        invariant
            j <= b@.len(),
            r@ == data@.take(at as int) + b@.take(j as int),
        decreases b@.len() - j,
    {
        r.push(b[j]);
        proof {
            assert(b@.take(j + 1) =~= b@.take(j as int).push(b@[j as int]));
        }
        j = j + 1;
    }
    let mut i: usize = at;
    while i < data.len()
        invariant
            at <= i <= data@.len(),
            r@ == data@.take(at as int) + b@ + data@.subrange(at as int, i as int),
        decreases data@.len() - i,
    {
        r.push(data[i]);
        proof {
            assert(data@.subrange(at as int, i + 1) =~= data@.subrange(at as int, i as int).push(data@[i as int]));
        }
        i = i + 1;
    }
    proof {
        assert(b@.take(b@.len() as int) =~= b@);
        assert(data@.subrange(at as int, data@.len() as int) =~= data@.skip(at as int));
    }
    r
}

/// What the entry of type `ty` holds once the components `cs` are added to a
/// row `row` laid out by `infos`: the bytes of the component of that type, or
/// else the entry's bytes in `row`.
pub open spec fn added_bytes(
    infos: Seq<ArchetypeInfo>,
    row: Seq<u8>,
    cs: Seq<ComponentData>,
    ty: ComponentId,
) -> Seq<u8> {
    if bundle_holds(cs, ty) {
        bundle_bytes(cs, ty)
    } else {
        entry_bytes(infos, row, position_of(infos, ty)->0)
    }
}

/// One step of `add_components`: after the component `cs[done]` goes in at
/// position `p`, the entries hold what they should for the first `done + 1`
/// components.
proof fn lemma_add_step(
    infos0: Seq<ArchetypeInfo>,
    row0: Seq<u8>,
    cs: Seq<ComponentData>,
    done: int,
    infos_before: Seq<ArchetypeInfo>,
    parts: Seq<Seq<u8>>,
    p: int,
)
    requires
        0 <= done < cs.len(),
        distinct_ids(cs),
        !holds_ty(infos_before, cs[done].id),
        0 <= p <= infos_before.len(),
        infos_before.len() == parts.len(),
        forall|ty: ComponentId| #[trigger] holds_ty(infos_before, ty) <==> (holds_ty(infos0, ty) || bundle_holds(cs.take(done), ty)),
        forall|j: int| 0 <= j < infos_before.len() ==> #[trigger] parts[j] == added_bytes(infos0, row0, cs.take(done), infos_before[j].ty),
        forall|j: int| 0 <= j < infos_before.len() && !bundle_holds(cs.take(done), infos_before[j].ty) ==> holds_ty(infos0, #[trigger] infos_before[j].ty),
    ensures
        ({
            let infos = infos_before.insert(p, info_of(cs[done]));
            let new_parts = parts.insert(p, cs[done].bytes@);
            let post = cs.take(done + 1);
            &&& forall|ty: ComponentId| #[trigger] holds_ty(infos, ty) <==> (holds_ty(infos0, ty) || bundle_holds(post, ty))
            &&& forall|j: int| 0 <= j < infos.len() ==> #[trigger] new_parts[j] == added_bytes(infos0, row0, post, infos[j].ty)
            &&& forall|j: int| 0 <= j < infos.len() && !bundle_holds(post, infos[j].ty) ==> holds_ty(infos0, #[trigger] infos[j].ty)
        }),
{
    let c = cs[done];
    let infos = infos_before.insert(p, info_of(c));
    let new_parts = parts.insert(p, c.bytes@);
    let pre = cs.take(done);
    let post = cs.take(done + 1);
    assert(post =~= pre.push(c));
    assert(distinct_ids(post));
    assert(distinct_ids(pre));
    lemma_bundle_bytes(post, done);
    assert forall|j: int| 0 <= j < infos.len() implies #[trigger] new_parts[j] == added_bytes(infos0, row0, post, infos[j].ty) by {
        if j != p {
            let q = if j < p { j } else { j - 1 };
            assert(infos[j] == infos_before[q]);
            assert(new_parts[j] == parts[q]);
            let ty = infos_before[q].ty;
            assert(holds_ty(infos_before, ty));
            assert(ty != c.id);
            if bundle_holds(pre, ty) {
                let m = choose|m: int| 0 <= m < pre.len() && #[trigger] pre[m].id == ty;
                lemma_bundle_bytes(post, m);
                lemma_bundle_bytes(pre, m);
                assert(post[m] == pre[m]);
            }
            if bundle_holds(post, ty) {
                let m = choose|m: int| 0 <= m < post.len() && #[trigger] post[m].id == ty;
                assert(m != done);
                assert(pre[m].id == ty);
            }
        } else {
            assert(infos[j].ty == c.id);
        }
    }
    assert forall|j: int| 0 <= j < infos.len() && !bundle_holds(post, infos[j].ty) implies holds_ty(infos0, #[trigger] infos[j].ty) by {
        if j == p {
            assert(post[done].id == c.id);
        } else {
            let q = if j < p { j } else { j - 1 };
            assert(infos[j] == infos_before[q]);
            if bundle_holds(pre, infos_before[q].ty) {
                let m = choose|m: int| 0 <= m < pre.len() && #[trigger] pre[m].id == infos_before[q].ty;
                assert(post[m].id == infos_before[q].ty);
            }
        }
    }
    assert forall|ty: ComponentId| #[trigger] holds_ty(infos, ty) <==> (holds_ty(infos0, ty) || bundle_holds(post, ty)) by {
        if holds_ty(infos, ty) {
            let j = choose|j: int| 0 <= j < infos.len() && #[trigger] infos[j].ty == ty;
            if j != p {
                let q = if j < p { j } else { j - 1 };
                assert(infos_before[q].ty == ty);
                if bundle_holds(pre, ty) {
                    let m = choose|m: int| 0 <= m < pre.len() && #[trigger] pre[m].id == ty;
                    assert(post[m].id == ty);
                }
            } else {
                assert(post[done].id == ty);
            }
        }
        if bundle_holds(post, ty) {
            let m = choose|m: int| 0 <= m < post.len() && #[trigger] post[m].id == ty;
            if m == done {
                assert(infos[p].ty == ty);
            } else {
                assert(pre[m].id == ty);
                assert(holds_ty(infos_before, ty));
                let j = choose|j: int| 0 <= j < infos_before.len() && #[trigger] infos_before[j].ty == ty;
                let j2 = if j < p { j } else { j + 1 };
                assert(infos[j2].ty == ty);
            }
        }
        if holds_ty(infos0, ty) {
            assert(holds_ty(infos_before, ty));
            let j = choose|j: int| 0 <= j < infos_before.len() && #[trigger] infos_before[j].ty == ty;
            let j2 = if j < p { j } else { j + 1 };
            assert(infos[j2].ty == ty);
        }
    }
}

/// Adds the components `comps` one after the other to the archetype, each at
/// its sorted place, laying its bytes into the row `data` at its entry's
/// offset and itself into `table` at its entry's position (at the end of a
/// table shorter than that).
#[verifier::spinoff_prover]
#[verifier::rlimit(40)]
fn add_components(
    archetype: &mut Archetype,
    data: &mut Vec<u8>,
    table: &mut Vec<ComponentData>,
    comps: Vec<ComponentData>,
)
    requires
        old(archetype).valid(),
        sorted_by_ty(old(archetype).infos()),
        old(data)@.len() == sum_sizes(old(archetype).infos()),
        old(table)@.len() <= old(archetype).len,
        distinct_ids(comps@),
        forall|i: int| 0 <= i < comps@.len() ==> !holds_ty(old(archetype).infos(), #[trigger] comps@[i].id),
        old(archetype).len + comps@.len() < 32,
        sum_sizes(old(archetype).infos()) + bundle_size(comps@) <= usize::MAX,
    ensures
        final(archetype).valid(),
        sorted_by_ty(final(archetype).infos()),
        final(archetype).infos() == insert_all(old(archetype).infos(), comps@),
        final(archetype).len == old(archetype).len + comps@.len(),
        forall|j: int| final(archetype).len <= j < 32 ==> #[trigger] final(archetype).info@[j] == old(archetype).info@[j],
        sum_sizes(final(archetype).infos()) == sum_sizes(old(archetype).infos()) + bundle_size(comps@),
        final(data)@.len() == sum_sizes(final(archetype).infos()),
        final(table)@.len() == old(table)@.len() + comps@.len(),
        forall|ty: ComponentId| #[trigger] holds_ty(final(archetype).infos(), ty) <==> (holds_ty(old(archetype).infos(), ty) || bundle_holds(comps@, ty)),
        forall|j: int| 0 <= j < final(archetype).len ==> #[trigger] entry_bytes(final(archetype).infos(), final(data)@, j)
            == added_bytes(old(archetype).infos(), old(data)@, comps@, final(archetype).infos()[j].ty),
        forall|j: int| 0 <= j < final(archetype).len && !bundle_holds(comps@, final(archetype).infos()[j].ty) ==> holds_ty(old(archetype).infos(), #[trigger] final(archetype).infos()[j].ty),
{
    let ghost cs = comps@;
    let ghost a0 = *archetype;
    let ghost infos0 = a0.infos();
    let ghost row0 = data@;
    let ghost t0 = table@.len();
    proof {
        lemma_entry_parts(infos0, row0);
        assert forall|j: int| 0 <= j < infos0.len() implies position_of(infos0, #[trigger] infos0[j].ty) == Some(j) by {
            lemma_sorted_position(infos0, j);
        }
        assert(cs.take(0) =~= Seq::<ComponentData>::empty());
        assert(cs.skip(0) =~= cs);
        assert(insert_all(infos0, cs.take(0)) == infos0);
        assert(bundle_size(cs.take(0)) == 0);
    }
    let mut comps = comps;
    let ghost mut parts = entry_parts(infos0, row0);
    let ghost mut done: int = 0;
    while comps.len() > 0
        invariant
            0 <= done <= cs.len(),
            comps@ == cs.skip(done),
            distinct_ids(cs),
            forall|i: int| 0 <= i < cs.len() ==> !holds_ty(infos0, #[trigger] cs[i].id),
            a0.len + cs.len() < 32,
            sum_sizes(infos0) + bundle_size(cs) <= usize::MAX,
            infos0 == a0.infos(),
            archetype.valid(),
            sorted_by_ty(archetype.infos()),
            archetype.infos() == insert_all(infos0, cs.take(done)),
            archetype.len == a0.len + done,
            forall|j: int| archetype.len <= j < 32 ==> #[trigger] archetype.info@[j] == a0.info@[j],
            sum_sizes(archetype.infos()) == sum_sizes(infos0) + bundle_size(cs.take(done)),
            forall|ty: ComponentId| #[trigger] holds_ty(archetype.infos(), ty) <==> (holds_ty(infos0, ty) || bundle_holds(cs.take(done), ty)),
            aligned(archetype.infos(), parts),
            data@ == concat_parts(parts),
            table@.len() == t0 + done,
            t0 <= a0.len,
            forall|j: int| 0 <= j < archetype.len ==> #[trigger] parts[j] == added_bytes(infos0, row0, cs.take(done), archetype.infos()[j].ty),
            forall|j: int| 0 <= j < archetype.len && !bundle_holds(cs.take(done), archetype.infos()[j].ty) ==> holds_ty(infos0, #[trigger] archetype.infos()[j].ty),
        decreases comps@.len(),
    {
        let c = comps.remove(0);
        let ghost pre = cs.take(done);
        let ghost post = cs.take(done + 1);
        proof {
            assert(c == cs[done]);
            assert(post =~= pre.push(c));
            assert(post.drop_last() =~= pre);
            assert(!holds_ty(infos0, c.id));
            assert(!bundle_holds(pre, c.id)) by {
                if bundle_holds(pre, c.id) {
                    let m = choose|m: int| 0 <= m < pre.len() && #[trigger] pre[m].id == c.id;
                    assert(cs[m].id != cs[done].id);
                }
            }
            assert(!holds_ty(archetype.infos(), c.id));
            lemma_bundle_size_prefix(cs, done);
            lemma_bundle_size_prefix(cs, done + 1);
            lemma_concat_len(archetype.infos(), parts);
        }
        let ghost infos_before = archetype.infos();
        let info = ArchetypeInfo {
            ty: c.id,
            size: c.bytes.len(),
            name: c.name,
            state: ArchetypeState::Component,
        };
        let p = archetype.add(info);
        proof {
            assert(info == info_of(c));
            assert(archetype.infos().take(p as int) =~= infos_before.take(p as int));
            lemma_sum_sizes_prefix(archetype.infos(), p as int, archetype.len as int);
            assert(archetype.infos().take(archetype.len as int) =~= archetype.infos());
            lemma_sum_sizes_prefix(infos_before, p as int, infos_before.len() as int);
            assert(infos_before.take(infos_before.len() as int) =~= infos_before);
            lemma_insert_part(infos_before, parts, p as int, info, c.bytes@);
        }
        proof {
            archetype.lemma_slot_entries(p as int);
        }
        let offset = archetype.size_up_to(p);
        let spliced = splice_bytes(data, offset, &c.bytes);
        *data = spliced;
        let at = if p < table.len() {
            p
        } else {
            table.len()
        };
        table.insert(at, c);
        proof {
            let new_parts = parts.insert(p as int, c.bytes@);
            lemma_add_step(infos0, row0, cs, done, infos_before, parts, p as int);
            parts = new_parts;
            done = done + 1;
            assert(cs.skip(done) =~= cs.skip(done - 1).drop_first());
        }
    }
    proof {
        assert(done == cs.len());
        assert(cs.take(done) =~= cs);
        lemma_concat_len(archetype.infos(), parts);
        assert forall|j: int| 0 <= j < archetype.len implies #[trigger] entry_bytes(archetype.infos(), data@, j)
            == added_bytes(infos0, row0, cs, archetype.infos()[j].ty) by {
            lemma_concat_entry(archetype.infos(), parts, j);
        }
    }
}

/// Writes `src` over `dst`, byte by byte.
fn copy_into(dst: &mut [u8], src: &Vec<u8>)
    requires
        old(dst)@.len() == src@.len(),
    ensures
        final(dst)@ == src@,
{
    let n = src.len();
    let mut i: usize = 0;
    while i < n
        invariant
            i <= n,
            n == src@.len(),
            dst@.len() == n,
            forall|j: int| 0 <= j < i ==> dst@[j] == src@[j],
        decreases n - i,
    {
        dst[i] = src[i];
        i = i + 1;
    }
    assert(dst@ =~= src@);
}

/// The bytes of `data` from `at` on for `n` bytes, and the rest.
fn cut_bytes(data: &Vec<u8>, at: usize, n: usize) -> (r: (Vec<u8>, Vec<u8>))
    requires
        at + n <= data@.len(),
    ensures
        r.0@ == data@.subrange(at as int, at + n),
        r.1@ == data@.take(at as int) + data@.skip(at + n),
{
    let mut cut: Vec<u8> = Vec::new();
    let mut rest: Vec<u8> = Vec::new();
    let mut i: usize = 0;
    while i < data.len()
        invariant
            i <= data@.len(),
            at + n <= data@.len(),
            i <= at ==> cut@ == Seq::<u8>::empty() && rest@ == data@.take(i as int),
            at < i <= at + n ==> cut@ == data@.subrange(at as int, i as int) && rest@ == data@.take(at as int),
            at + n < i ==> cut@ == data@.subrange(at as int, at + n) && rest@ == data@.take(at as int) + data@.subrange(at + n, i as int),
        decreases data@.len() - i,
    {
        if at <= i && i < at + n {
            cut.push(data[i]);
            proof {
                assert(data@.subrange(at as int, i + 1) =~= data@.subrange(at as int, i as int).push(data@[i as int]));
                if i == at {
                    assert(data@.subrange(at as int, i + 1) =~= seq![data@[i as int]]);
                }
            }
        } else {
            rest.push(data[i]);
            proof {
                if i < at {
                    assert(data@.take(i + 1) =~= data@.take(i as int).push(data@[i as int]));
                } else {
                    assert(data@.subrange(at + n, i + 1) =~= data@.subrange(at + n, i as int).push(data@[i as int]));
                    if i == at + n {
                        assert(data@.subrange(at + n, i as int) =~= Seq::<u8>::empty());
                    }
                }
            }
        }
        i = i + 1;
    }
    proof {
        if n == 0 {
            assert(data@.subrange(at as int, at as int) =~= Seq::<u8>::empty());
        }
        assert(data@.subrange(at + n, data@.len() as int) =~= data@.skip(at + n));
        if at + n == data@.len() {
            assert(data@.skip(at + n) =~= Seq::<u8>::empty());
            assert(rest@ =~= data@.take(at as int) + data@.skip(at + n));
        }
    }
    (cut, rest)
}

/// The entities, their components and the resources: each entity has an
/// archetype, and the entities of one archetype keep their components in
/// the rows of that archetype's storage.
pub struct Registry {
    pub entities: Entities,
    pub mapping: EntityMap,
    pub storage: Vec<Storage>,
    pub resources: ResourceMap,
}

impl Registry {
    /// An insert of `cs` into the entity `id` takes effect: the entity is
    /// alive and has none of the components' types yet.
    pub open spec fn insert_applies(&self, id: u64, cs: Seq<ComponentData>) -> bool {
        &&& self.archetypes().contains_key(id)
        &&& forall|i: int| 0 <= i < cs.len() ==> !holds_ty(self.archetypes()[id].infos(), #[trigger] cs[i].id)
    }

    /// An insert of `cs` into the entity `id` runs to its end: the components
    /// are of distinct types, the archetype stays below 31 entries, and its
    /// size fits in a `usize`.
    pub open spec fn insert_fits(&self, id: u64, cs: Seq<ComponentData>) -> bool {
        let a = self.archetypes()[id];
        &&& distinct_ids(cs)
        &&& a.len + cs.len() + 1 < 32
        &&& a.spec_total_size() + bundle_size(cs) <= usize::MAX
    }

    /// What the entity `id` holds of type `ty` after an insert of `cs` into it
    /// that takes effect and leaves its archetype as `b`: nothing where `b`
    /// takes no bytes; else the inserted bytes, or no bytes for a type it held
    /// in an archetype that took none, or what it held.
    pub open spec fn inserted_component(&self, id: u64, cs: Seq<ComponentData>, b: Archetype, ty: ComponentId) -> Option<Seq<u8>> {
        if b.spec_total_size() == 0 {
            None
        } else if bundle_holds(cs, ty) {
            Some(bundle_bytes(cs, ty))
        } else if holds_ty(self.archetypes()[id].infos(), ty) && self.archetypes()[id].spec_total_size() == 0 {
            Some(Seq::empty())
        } else {
            self.component(id, ty)
        }
    }

    /// `new` is this registry after a spawn that handed out `e`: the entity
    /// is fresh, alive, and of the archetype of no component; nothing else
    /// changes.
    pub open spec fn spawned(&self, new: Registry, e: Entity) -> bool {
        &&& new.wf()
        &&& e.id == self.entities.next_id()
        &&& !self.archetypes().contains_key(e.id)
        &&& new.archetypes().contains_key(e.id)
        &&& new.archetypes()[e.id].len == 0
        &&& forall|i: int| 0 <= i < 32 ==> (#[trigger] new.archetypes()[e.id].info@[i]) is None
        &&& new.archetypes().remove(e.id) == self.archetypes()
        &&& new.entities.next_id() == self.entities.next_id() + 1
        &&& new.storage@ == self.storage@
        &&& new.resource_bytes() == self.resource_bytes()
        &&& forall|x: u64, ty: ComponentId| #[trigger]
            new.component(x, ty) == if x == e.id {
                None
            } else {
                self.component(x, ty)
            }
    }

    /// `new` is this registry after an insert of `cs` into the entity `id`:
    /// where the insert takes effect, the entity's archetype gains the
    /// components' entries and the entity their bytes; otherwise nothing
    /// changes.
    pub open spec fn inserted(&self, new: Registry, id: u64, cs: Seq<ComponentData>) -> bool {
        &&& new.wf()
        &&& new.entities == self.entities
        &&& new.resource_bytes() == self.resource_bytes()
        &&& !self.insert_applies(id, cs) ==> {
            &&& new.archetypes() == self.archetypes()
            &&& forall|x: u64, ty: ComponentId| #[trigger] new.component(x, ty) == self.component(x, ty)
        }
        &&& self.insert_applies(id, cs) ==> {
            let a = self.archetypes()[id];
            let b = new.archetypes()[id];
            &&& new.archetypes().contains_key(id)
            &&& new.archetypes().remove(id) == self.archetypes().remove(id)
            &&& b.len == a.len + cs.len()
            &&& b.infos() == insert_all(a.infos(), cs)
            &&& forall|j: int| b.len <= j < 32 ==> #[trigger] b.info@[j] == a.info@[j]
            &&& forall|x: u64, ty: ComponentId| x != id ==> #[trigger] new.component(x, ty) == self.component(x, ty)
            &&& forall|ty: ComponentId| #[trigger] new.component(id, ty) == self.inserted_component(id, cs, b, ty)
        }
    }

    /// A removal of component `ty` from the entity `id` takes effect: the
    /// entity is alive and has a component of that type.
    pub open spec fn remove_applies(&self, id: u64, ty: ComponentId) -> bool {
        &&& self.archetypes().contains_key(id)
        &&& holds_ty(self.archetypes()[id].infos(), ty)
    }

    /// `new` is this registry after a removal of component `ty` from the
    /// entity `id` that returned `r`: where the removal takes effect, the
    /// entity's archetype loses that entry, the entity those bytes, and `r`
    /// is the bytes it had; otherwise nothing changes and `r` is `None`.
    pub open spec fn removed(&self, new: Registry, id: u64, ty: ComponentId, r: Option<Seq<u8>>) -> bool {
        &&& new.wf()
        &&& new.entities == self.entities
        &&& new.resource_bytes() == self.resource_bytes()
        &&& !self.remove_applies(id, ty) ==> {
            &&& r is None
            &&& new.archetypes() == self.archetypes()
            &&& forall|x: u64, t: ComponentId| #[trigger] new.component(x, t) == self.component(x, t)
        }
        &&& self.remove_applies(id, ty) ==> {
            let a = self.archetypes()[id];
            let b = new.archetypes()[id];
            &&& r is Some
            &&& self.component(id, ty) == r
            &&& new.archetypes().contains_key(id)
            &&& new.archetypes().remove(id) == self.archetypes().remove(id)
            &&& b.len == a.len - 1
            &&& b.infos() == a.infos().remove(position_of(a.infos(), ty)->0)
            &&& forall|j: int| b.len <= j < 32 ==> #[trigger] b.info@[j] == a.info@[j]
            &&& forall|x: u64, t: ComponentId| x != id ==> #[trigger] new.component(x, t) == self.component(x, t)
            &&& forall|t: ComponentId| #[trigger] new.component(id, t) == if t == ty || b.spec_total_size() == 0 {
                None
            } else {
                self.component(id, t)
            }
        }
    }

    /// `new` is this registry with the bytes of component `ty` of the entity
    /// `id` replaced by `m`, in place.
    pub open spec fn with_component_bytes(&self, new: Registry, id: u64, ty: ComponentId, m: Seq<u8>) -> bool {
        let a = self.archetypes()[id];
        let k = self.storage_for(a);
        let st = self.storage@[k];
        let p = position_of(a.infos(), ty)->0;
        let start = st.index_of(id) * st.row_size() + sum_sizes(a.infos().take(p));
        let size = a.infos()[p].size;
        &&& new.entities == self.entities
        &&& new.mapping == self.mapping
        &&& new.resources == self.resources
        &&& new.storage@.len() == self.storage@.len()
        &&& forall|j: int| 0 <= j < self.storage@.len() && j != k ==> #[trigger] new.storage@[j] == self.storage@[j]
        &&& new.storage@[k].archetype == st.archetype
        &&& new.storage@[k].mapping == st.mapping
        &&& new.storage@[k].secondary_mapping == st.secondary_mapping
        &&& new.storage@[k].table == st.table
        &&& new.storage@[k].data@ == st.data@.take(start) + m + st.data@.skip(start + size)
    }

    /// The archetype of each alive entity, by identity.
    pub open spec fn archetypes(&self) -> Map<u64, Archetype> {
        entity_map_contents(self.mapping)
    }

    /// The bytes of each resource, by type identity.
    pub open spec fn resource_bytes(&self) -> Map<u64, Seq<u8>> {
        resource_map_contents(self.resources)
    }

    /// Some storage is for an archetype equal to `a`.
    pub open spec fn has_storage_for(&self, a: Archetype) -> bool {
        exists|k: int| 0 <= k < self.storage@.len() && (#[trigger] self.storage@[k]).archetype.same(&a)
    }

    /// The storage for an archetype equal to `a`.
    pub open spec fn storage_for(&self, a: Archetype) -> int {
        choose|k: int| 0 <= k < self.storage@.len() && (#[trigger] self.storage@[k]).archetype.same(&a)
    }

    /// The bytes of component `ty` of the entity with identity `id`, where it
    /// has one: its archetype holds `ty`, and the entity has a row.
    pub open spec fn component(&self, id: u64, ty: ComponentId) -> Option<Seq<u8>> {
        if !self.archetypes().contains_key(id) {
            None
        } else {
            let a = self.archetypes()[id];
            let s = self.storage@[self.storage_for(a)];
            if a.len == 0 || !s.contains(id) {
                None
            } else {
                match position_of(a.infos(), ty) {
                    None => None,
                    Some(p) => Some(entry_bytes(a.infos(), s.entity_row(id), p)),
                }
            }
        }
    }

    /// No two storages are for equal archetypes.
    pub open spec fn distinct_storages(&self) -> bool {
        forall|k1: int, k2: int|
            0 <= k1 < self.storage@.len() && 0 <= k2 < self.storage@.len() && k1 != k2
                ==> !(#[trigger] self.storage@[k1]).archetype.same(
                &(#[trigger] self.storage@[k2]).archetype,
            )
    }

    /// The invariant of a registry.
    pub open spec fn wf(&self) -> bool {
        &&& self.entities.wf()
        &&& self.archetypes().dom() == self.entities.alive_ids()
        &&& self.consistent()
    }

    /// The archetypes and storages agree: every archetype is well formed,
    /// every storage is well formed with at most one table entry per archetype entry
    /// in each row, no two storages are for equal archetypes, every entity of
    /// a non-empty archetype has a storage for it and, where its components
    /// take bytes, a row there, and every row belongs to an entity of that
    /// storage's archetype.
    pub open spec fn consistent(&self) -> bool {
        &&& forall|id: u64| #[trigger]
            self.archetypes().contains_key(id) ==> self.archetypes()[id].wf()
        &&& forall|k: int| 0 <= k < self.storage@.len() ==> (#[trigger] self.storage@[k]).wf()
        &&& forall|k: int, i: int|
            0 <= k < self.storage@.len() && 0 <= i < self.storage@[k].rows() ==> (
            #[trigger] self.storage@[k].table@[i])@.len() <= self.storage@[k].archetype.len
        &&& self.distinct_storages()
        &&& forall|id: u64| #[trigger]
            self.archetypes().contains_key(id) && self.archetypes()[id].len != 0
                ==> self.has_storage_for(self.archetypes()[id]) && (
            self.archetypes()[id].spec_total_size() != 0 ==> self.storage@[self.storage_for(
                self.archetypes()[id],
            )].contains(id))
        &&& forall|k: int, id: u64|
            0 <= k < self.storage@.len() && #[trigger] self.storage@[k].contains(id)
                ==> self.archetypes().contains_key(id) && self.archetypes()[id].same(
                &self.storage@[k].archetype,
            )
    }

    /// The storage for an archetype equal to `a` is the one at `k`.
    pub proof fn lemma_storage_for(&self, a: Archetype, k: int)
        requires
            self.distinct_storages(),
            0 <= k < self.storage@.len(),
            self.storage@[k].archetype.same(&a),
        ensures
            self.has_storage_for(a),
            self.storage_for(a) == k,
    {
        let j = self.storage_for(a);
        assert(self.storage@[j].archetype.same(&a));
        lemma_same_equiv(self.storage@[j].archetype, a, self.storage@[k].archetype);
        lemma_same_equiv(self.storage@[k].archetype, a, self.storage@[j].archetype);
        lemma_same_equiv(a, self.storage@[k].archetype, a);
        if j != k {
            assert(!self.storage@[j].archetype.same(&self.storage@[k].archetype));
        }
    }

    /// After the entity `id` of archetype length zero is unmapped, the
    /// invariant holds and only its components are gone.
    proof fn lemma_after_unmap(&self, old_self: Registry, id: u64)
        requires
            old_self.consistent(),
            old_self.archetypes().contains_key(id),
            old_self.archetypes()[id].len == 0 || old_self.archetypes()[id].spec_total_size() == 0,
            self.archetypes() == old_self.archetypes().remove(id),
            self.storage@ == old_self.storage@,
        ensures
            self.consistent(),
            forall|x: u64, ty: ComponentId| #[trigger]
                self.component(x, ty) == if x == id {
                    None
                } else {
                    old_self.component(x, ty)
                },
    {
        assert forall|k: int, x: u64|
            0 <= k < self.storage@.len() && #[trigger] self.storage@[k].contains(x)
            implies self.archetypes().contains_key(x) && self.archetypes()[x].same(
            &self.storage@[k].archetype,
        ) by {
            assert(old_self.storage@[k].contains(x));
            if x == id {
                let a = old_self.archetypes()[id];
                assert(a.same(&old_self.storage@[k].archetype));
                lemma_same_equiv(a, old_self.storage@[k].archetype, a);
                assert(a.wf());
                lemma_same_shape(a, old_self.storage@[k].archetype);
                assert(old_self.storage@[k].wf());
                assert(old_self.storage@[k].secondary_mapping@[x] < old_self.storage@[k].rows());
            }
        }
        assert forall|x: u64| #[trigger]
            self.archetypes().contains_key(x) && self.archetypes()[x].len != 0
            implies self.has_storage_for(self.archetypes()[x]) && (
            self.archetypes()[x].spec_total_size() != 0 ==> self.storage@[self.storage_for(
                self.archetypes()[x],
            )].contains(x)) by {
            assert(old_self.archetypes().contains_key(x));
        }
        assert forall|x: u64, ty: ComponentId| #[trigger]
            self.component(x, ty) == if x == id {
                None
            } else {
                old_self.component(x, ty)
            } by {
            if x != id && old_self.archetypes().contains_key(x) {
                assert(self.archetypes()[x] == old_self.archetypes()[x]);
            }
        }
    }

    /// After the entity `id` is unmapped and its row taken out of the storage
    /// at `k`, the invariant holds and only its components are gone.
    proof fn lemma_after_storage_remove(&self, old_self: Registry, id: u64, k: int)
        requires
            old_self.consistent(),
            old_self.archetypes().contains_key(id),
            old_self.archetypes()[id].len != 0,
            0 <= k < old_self.storage@.len(),
            old_self.storage@[k].archetype.same(&old_self.archetypes()[id]),
            self.archetypes() == old_self.archetypes().remove(id),
            self.storage@.len() == old_self.storage@.len(),
            forall|j: int| 0 <= j < self.storage@.len() && j != k ==> #[trigger] self.storage@[j] == old_self.storage@[j],
            self.storage@[k].wf(),
            self.storage@[k].archetype == old_self.storage@[k].archetype,
            forall|x: u64| #[trigger] self.storage@[k].contains(x) <==> (old_self.storage@[k].contains(x) && x != id),
            forall|x: u64| #[trigger] self.storage@[k].contains(x) ==> self.storage@[k].entity_row(x) == old_self.storage@[k].entity_row(x) && self.storage@[k].entity_table(x) == old_self.storage@[k].entity_table(x),
            forall|i: int|
                0 <= i < self.storage@[k].rows() ==> exists|j: int|
                    0 <= j < old_self.storage@[k].rows() && #[trigger] self.storage@[k].table@[i]
                        == old_self.storage@[k].table@[j],
        ensures
            self.consistent(),
            forall|x: u64, ty: ComponentId| #[trigger]
                self.component(x, ty) == if x == id {
                    None
                } else {
                    old_self.component(x, ty)
                },
    {
        let a_id = old_self.archetypes()[id];
        assert(self.distinct_storages()) by {
            assert forall|k1: int, k2: int|
                0 <= k1 < self.storage@.len() && 0 <= k2 < self.storage@.len() && k1 != k2
                implies !(#[trigger] self.storage@[k1]).archetype.same(
                &(#[trigger] self.storage@[k2]).archetype,
            ) by {
                assert(!old_self.storage@[k1].archetype.same(&old_self.storage@[k2].archetype));
            }
        }
        assert forall|j: int, i: int|
            0 <= j < self.storage@.len() && 0 <= i < self.storage@[j].rows() implies (
            #[trigger] self.storage@[j].table@[i])@.len() <= self.storage@[j].archetype.len by {
            if j == k {
                let m = choose|m: int|
                    0 <= m < old_self.storage@[k].rows() && #[trigger] self.storage@[k].table@[i]
                        == old_self.storage@[k].table@[m];
                assert(old_self.storage@[k].table@[m]@.len() <= old_self.storage@[k].archetype.len);
            } else {
                assert(old_self.storage@[j].table@[i]@.len() <= old_self.storage@[j].archetype.len);
            }
        }
        assert forall|j: int| 0 <= j < self.storage@.len() implies (#[trigger] self.storage@[j]).wf() by {
            if j != k {
                assert(old_self.storage@[j].wf());
            }
        }
        // The storage of each other entity keeps its index.
        assert forall|x: u64| #[trigger]
            self.archetypes().contains_key(x) && self.archetypes()[x].len != 0 implies
                self.has_storage_for(self.archetypes()[x]) && self.storage_for(self.archetypes()[x])
                == old_self.storage_for(old_self.archetypes()[x]) by {
            let a = self.archetypes()[x];
            assert(old_self.archetypes().contains_key(x));
            assert(old_self.archetypes()[x] == a);
            let j0 = old_self.storage_for(a);
            assert(old_self.has_storage_for(a));
            assert(old_self.storage@[j0].archetype.same(&a));
            assert(self.storage@[j0].archetype == old_self.storage@[j0].archetype);
            self.lemma_storage_for(a, j0);
        }
        assert forall|x: u64| #[trigger]
            self.archetypes().contains_key(x) && self.archetypes()[x].len != 0
            implies self.has_storage_for(self.archetypes()[x]) && (
            self.archetypes()[x].spec_total_size() != 0 ==> self.storage@[self.storage_for(
                self.archetypes()[x],
            )].contains(x)) by {
            assert(old_self.archetypes().contains_key(x));
            let j0 = old_self.storage_for(old_self.archetypes()[x]);
            if self.archetypes()[x].spec_total_size() != 0 {
                assert(old_self.storage@[j0].contains(x));
                if j0 == k {
                    assert(x != id);
                }
            }
        }
        assert forall|j: int, x: u64|
            0 <= j < self.storage@.len() && #[trigger] self.storage@[j].contains(x)
            implies self.archetypes().contains_key(x) && self.archetypes()[x].same(
            &self.storage@[j].archetype,
        ) by {
            if j == k {
                assert(old_self.storage@[k].contains(x));
            } else {
                assert(old_self.storage@[j].contains(x));
                if x == id {
                    assert(a_id.same(&old_self.storage@[j].archetype));
                    lemma_same_equiv(old_self.storage@[j].archetype, a_id, old_self.storage@[k].archetype);
                    lemma_same_equiv(a_id, old_self.storage@[j].archetype, a_id);
                    lemma_same_equiv(old_self.storage@[k].archetype, a_id, old_self.storage@[k].archetype);
                    assert(!old_self.storage@[j].archetype.same(&old_self.storage@[k].archetype));
                }
            }
        }
        assert forall|x: u64, ty: ComponentId| #[trigger]
            self.component(x, ty) == if x == id {
                None
            } else {
                old_self.component(x, ty)
            } by {
            if x != id && old_self.archetypes().contains_key(x) {
                let a = old_self.archetypes()[x];
                assert(self.archetypes().contains_key(x));
                assert(self.archetypes()[x] == a);
                if a.len != 0 {
                    let j0 = old_self.storage_for(a);
                    assert(self.storage_for(a) == j0);
                    if j0 == k {
                        assert(self.storage@[k].contains(x) == old_self.storage@[k].contains(x));
                    }
                }
            }
        }
    }

    /// Appending an empty storage for an archetype that no storage is for
    /// keeps the registry consistent, with the same components.
    proof fn lemma_add_storage(&self, old_self: Registry, a: Archetype)
        requires
            old_self.consistent(),
            a.wf(),
            forall|k: int|
                0 <= k < old_self.storage@.len() ==> !(#[trigger] old_self.storage@[k]).archetype.same(&a),
            self.archetypes() == old_self.archetypes(),
            self.storage@ == old_self.storage@.push(self.storage@.last()),
            self.storage@.last().wf(),
            self.storage@.last().archetype == a,
            self.storage@.last().rows() == 0,
            self.storage@.last().secondary_mapping@.dom() == Set::<u64>::empty(),
        ensures
            self.consistent(),
            forall|x: u64, ty: ComponentId| #[trigger] self.component(x, ty) == old_self.component(x, ty),
    {
        let n = old_self.storage@.len() as int;
        assert forall|j: int| 0 <= j < n implies #[trigger] self.storage@[j] == old_self.storage@[j] by {}
        assert(self.distinct_storages()) by {
            assert forall|k1: int, k2: int|
                0 <= k1 < self.storage@.len() && 0 <= k2 < self.storage@.len() && k1 != k2
                implies !(#[trigger] self.storage@[k1]).archetype.same(
                &(#[trigger] self.storage@[k2]).archetype,
            ) by {
                if k1 == n {
                    assert(!old_self.storage@[k2].archetype.same(&a));
                    lemma_same_equiv(a, old_self.storage@[k2].archetype, a);
                } else if k2 == n {
                    assert(!old_self.storage@[k1].archetype.same(&a));
                } else {
                    assert(!old_self.storage@[k1].archetype.same(&old_self.storage@[k2].archetype));
                }
            }
        }
        assert forall|x: u64| #[trigger]
            self.archetypes().contains_key(x) && self.archetypes()[x].len != 0 implies
                self.has_storage_for(self.archetypes()[x]) && self.storage_for(self.archetypes()[x])
                == old_self.storage_for(old_self.archetypes()[x]) by {
            let b = self.archetypes()[x];
            let j0 = old_self.storage_for(b);
            assert(old_self.storage@[j0].archetype.same(&b));
            self.lemma_storage_for(b, j0);
        }
        assert forall|k: int, x: u64|
            0 <= k < self.storage@.len() && #[trigger] self.storage@[k].contains(x)
            implies self.archetypes().contains_key(x) && self.archetypes()[x].same(
            &self.storage@[k].archetype,
        ) by {
            if k < n {
                assert(old_self.storage@[k].contains(x));
            } else {
                assert(!self.storage@.last().secondary_mapping@.dom().contains(x));
            }
        }
        assert forall|k: int, i: int|
            0 <= k < self.storage@.len() && 0 <= i < self.storage@[k].rows() implies (
            #[trigger] self.storage@[k].table@[i])@.len() <= self.storage@[k].archetype.len by {
            if k < n {
                assert(old_self.storage@[k].table@[i]@.len() <= old_self.storage@[k].archetype.len);
            }
        }
        assert forall|k: int| 0 <= k < self.storage@.len() implies (#[trigger] self.storage@[k]).wf() by {
            if k < n {
                assert(old_self.storage@[k].wf());
            }
        }
        assert forall|x: u64, ty: ComponentId| #[trigger] self.component(x, ty) == old_self.component(x, ty) by {
            if self.archetypes().contains_key(x) && self.archetypes()[x].len != 0 {
                assert(self.storage_for(self.archetypes()[x]) == old_self.storage_for(old_self.archetypes()[x]));
            }
        }
    }

    /// Mapping the entity `id` to `a`, and giving it the row `row` in the
    /// storage at `k` for `a`, keeps the registry consistent; the other
    /// entities keep their components, and `id` has those of `row`.
    proof fn lemma_attach(&self, old_self: Registry, id: u64, a: Archetype, k: int, row: Seq<u8>)
        requires
            old_self.consistent(),
            !old_self.archetypes().contains_key(id),
            a.wf(),
            0 <= k < old_self.storage@.len(),
            old_self.storage@[k].archetype.same(&a),
            self.archetypes() == old_self.archetypes().insert(id, a),
            self.storage@.len() == old_self.storage@.len(),
            forall|j: int| 0 <= j < self.storage@.len() && j != k ==> #[trigger] self.storage@[j] == old_self.storage@[j],
            self.storage@[k].wf(),
            self.storage@[k].archetype == old_self.storage@[k].archetype,
            forall|i: int| 0 <= i < self.storage@[k].rows() ==> (#[trigger] self.storage@[k].table@[i])@.len() <= a.len,
            old_self.storage@[k].row_size() == 0 ==> self.storage@[k] == old_self.storage@[k],
            old_self.storage@[k].row_size() != 0 ==> {
                &&& forall|x: u64| #[trigger] self.storage@[k].contains(x) <==> (old_self.storage@[k].contains(x) || x == id)
                &&& self.storage@[k].entity_row(id) == row
                &&& forall|x: u64| #[trigger] old_self.storage@[k].contains(x) ==> self.storage@[k].entity_row(x) == old_self.storage@[k].entity_row(x)
            },
        ensures
            self.consistent(),
            forall|x: u64, ty: ComponentId| x != id ==> #[trigger] self.component(x, ty) == old_self.component(x, ty),
            forall|ty: ComponentId| #[trigger] self.component(id, ty) == if a.len == 0 || a.spec_total_size() == 0 {
                None
            } else {
                match position_of(a.infos(), ty) {
                    None => None,
                    Some(p) => Some(entry_bytes(a.infos(), row, p)),
                }
            },
    {
        let sk = old_self.storage@[k].archetype;
        lemma_same_shape(sk, a);
        lemma_same_equiv(sk, a, sk);
        assert(self.distinct_storages()) by {
            assert forall|k1: int, k2: int|
                0 <= k1 < self.storage@.len() && 0 <= k2 < self.storage@.len() && k1 != k2
                implies !(#[trigger] self.storage@[k1]).archetype.same(
                &(#[trigger] self.storage@[k2]).archetype,
            ) by {
                assert(!old_self.storage@[k1].archetype.same(&old_self.storage@[k2].archetype));
            }
        }
        self.lemma_storage_for(a, k);
        assert forall|x: u64| #[trigger]
            self.archetypes().contains_key(x) && self.archetypes()[x].len != 0 && x != id implies
                self.has_storage_for(self.archetypes()[x]) && self.storage_for(self.archetypes()[x])
                == old_self.storage_for(old_self.archetypes()[x]) by {
            let b = self.archetypes()[x];
            let j0 = old_self.storage_for(b);
            assert(old_self.storage@[j0].archetype.same(&b));
            self.lemma_storage_for(b, j0);
        }
        assert forall|x: u64| #[trigger]
            self.archetypes().contains_key(x) && self.archetypes()[x].len != 0
            implies self.has_storage_for(self.archetypes()[x]) && (
            self.archetypes()[x].spec_total_size() != 0 ==> self.storage@[self.storage_for(
                self.archetypes()[x],
            )].contains(x)) by {
            if x != id {
                let j0 = old_self.storage_for(old_self.archetypes()[x]);
                if self.archetypes()[x].spec_total_size() != 0 {
                    assert(old_self.storage@[j0].contains(x));
                    if j0 == k {
                        lemma_same_shape(old_self.archetypes()[x], sk);
                    }
                }
            }
        }
        assert forall|j: int, x: u64|
            0 <= j < self.storage@.len() && #[trigger] self.storage@[j].contains(x)
            implies self.archetypes().contains_key(x) && self.archetypes()[x].same(
            &self.storage@[j].archetype,
        ) by {
            if j == k && x == id {
                lemma_same_equiv(a, sk, a);
            } else if j == k {
                if old_self.storage@[k].row_size() != 0 {
                    assert(old_self.storage@[k].contains(x));
                } else {
                    assert(old_self.storage@[k].contains(x));
                }
            } else {
                assert(old_self.storage@[j].contains(x));
            }
        }
        assert forall|j: int, i: int|
            0 <= j < self.storage@.len() && 0 <= i < self.storage@[j].rows() implies (
            #[trigger] self.storage@[j].table@[i])@.len() <= self.storage@[j].archetype.len by {
            if j != k {
                assert(old_self.storage@[j].table@[i]@.len() <= old_self.storage@[j].archetype.len);
            }
        }
        assert forall|j: int| 0 <= j < self.storage@.len() implies (#[trigger] self.storage@[j]).wf() by {
            if j != k {
                assert(old_self.storage@[j].wf());
            }
        }
        assert forall|x: u64, ty: ComponentId| x != id implies #[trigger] self.component(x, ty) == old_self.component(x, ty) by {
            if self.archetypes().contains_key(x) && self.archetypes()[x].len != 0 {
                let j0 = old_self.storage_for(old_self.archetypes()[x]);
                assert(self.storage_for(self.archetypes()[x]) == j0);
                if j0 == k && old_self.storage@[k].row_size() != 0 {
                    if old_self.storage@[k].contains(x) {
                        assert(self.storage@[k].contains(x));
                    } else {
                        assert(!self.storage@[k].contains(x));
                    }
                }
            }
        }
        assert forall|ty: ComponentId| #[trigger] self.component(id, ty) == if a.len == 0 || a.spec_total_size() == 0 {
            None
        } else {
            match position_of(a.infos(), ty) {
                None => None,
                Some(p) => Some(entry_bytes(a.infos(), row, p)),
            }
        } by {
            if a.len != 0 && a.spec_total_size() != 0 {
                assert(self.storage@[k].contains(id));
            } else if a.len != 0 {
                assert(old_self.storage@[k].row_size() == 0);
                if self.storage@[k].contains(id) {
                    assert(old_self.storage@[k].contains(id));
                }
            }
        }
    }

    /// A registry whose component `ty` of the entity `id` had its bytes
    /// replaced in place by as many bytes is well formed, with each storage
    /// where it was.
    proof fn lemma_write_wf(&self, new: Registry, id: u64, ty: ComponentId, m: Seq<u8>)
        requires
            self.wf(),
            self.component(id, ty) is Some,
            self.component(id, ty)->0.len() == m.len(),
            self.with_component_bytes(new, id, ty, m),
        ensures
            new.wf(),
            new.archetypes() == self.archetypes(),
            forall|x: u64| #[trigger]
                new.archetypes().contains_key(x) && new.archetypes()[x].len != 0 ==> new.storage_for(
                    new.archetypes()[x],
                ) == self.storage_for(self.archetypes()[x]),
    {
        let a = self.archetypes()[id];
        let k = self.storage_for(a);
        let st = self.storage@[k];
        let nt = new.storage@[k];
        let p = position_of(a.infos(), ty)->0;
        lemma_position_of(a.infos(), ty);
        assert(new.archetypes() == self.archetypes());
        assert(nt.data@.len() == st.data@.len()) by {
            assert(st.archetype.same(&a));
            lemma_same_shape(st.archetype, a);
            a.lemma_prefix_fits();
            lemma_entry_within(a.infos(), p);
            assert(st.contains(id));
            lemma_row_bounds(st.index_of(id), st.rows() as int, st.row_size() as int);
        }
        assert(nt.wf()) by {
            assert(nt.rows() == st.rows());
            assert(nt.row_size() == st.row_size());
        }
        assert(new.distinct_storages()) by {
            assert forall|k1: int, k2: int|
                0 <= k1 < new.storage@.len() && 0 <= k2 < new.storage@.len() && k1 != k2
                implies !(#[trigger] new.storage@[k1]).archetype.same(
                &(#[trigger] new.storage@[k2]).archetype,
            ) by {
                assert(!self.storage@[k1].archetype.same(&self.storage@[k2].archetype));
            }
        }
        assert forall|x: u64| #[trigger]
            new.archetypes().contains_key(x) && new.archetypes()[x].len != 0 implies
                new.has_storage_for(new.archetypes()[x]) && new.storage_for(new.archetypes()[x])
                == self.storage_for(self.archetypes()[x]) by {
            let b = self.archetypes()[x];
            let j0 = self.storage_for(b);
            assert(self.storage@[j0].archetype.same(&b));
            new.lemma_storage_for(b, j0);
        }
        assert forall|j: int| 0 <= j < new.storage@.len() implies (#[trigger] new.storage@[j]).wf() by {
            if j != k {
                assert(self.storage@[j].wf());
            }
        }
        assert forall|j: int, r: int|
            0 <= j < new.storage@.len() && 0 <= r < new.storage@[j].rows() implies (
            #[trigger] new.storage@[j].table@[r])@.len() <= new.storage@[j].archetype.len by {
            assert(self.storage@[j].table@[r]@.len() <= self.storage@[j].archetype.len);
        }
        assert forall|j: int, x: u64|
            0 <= j < new.storage@.len() && #[trigger] new.storage@[j].contains(x)
            implies new.archetypes().contains_key(x) && new.archetypes()[x].same(
            &new.storage@[j].archetype,
        ) by {
            assert(self.storage@[j].contains(x));
        }
        assert forall|x: u64| #[trigger]
            new.archetypes().contains_key(x) && new.archetypes()[x].len != 0
            implies new.has_storage_for(new.archetypes()[x]) && (
            new.archetypes()[x].spec_total_size() != 0 ==> new.storage@[new.storage_for(
                new.archetypes()[x],
            )].contains(x)) by {
            let j0 = self.storage_for(self.archetypes()[x]);
            if new.archetypes()[x].spec_total_size() != 0 {
                assert(self.storage@[j0].contains(x));
            }
        }
    }

    /// What is written through `get_mut` is read back by `get`: a registry
    /// whose component `ty` of the entity `id` had its bytes replaced in place
    /// by as many bytes `m` is well formed, has `m` there, and every other
    /// component as before.
    pub proof fn lemma_write_then_read(&self, new: Registry, id: u64, ty: ComponentId, m: Seq<u8>)
        requires
            self.wf(),
            self.component(id, ty) is Some,
            self.component(id, ty)->0.len() == m.len(),
            self.with_component_bytes(new, id, ty, m),
        ensures
            new.wf(),
            forall|x: u64, t: ComponentId| #[trigger] new.component(x, t) == if x == id && t == ty {
                Some(m)
            } else {
                self.component(x, t)
            },
    {
        self.lemma_write_wf(new, id, ty, m);
        let a = self.archetypes()[id];
        let k = self.storage_for(a);
        let st = self.storage@[k];
        let nt = new.storage@[k];
        let p = position_of(a.infos(), ty)->0;
        let t = st.row_size() as int;
        let i = st.index_of(id);
        let off = sum_sizes(a.infos().take(p)) as int;
        let size = a.infos()[p].size as int;
        let start = i * t + off;
        lemma_position_of(a.infos(), ty);
        a.lemma_prefix_fits();
        lemma_entry_within(a.infos(), p);
        assert(st.archetype.same(&a));
        lemma_same_shape(st.archetype, a);
        assert(st.contains(id));
        lemma_row_bounds(i, st.rows() as int, t);
        assert forall|q: int| 0 <= q < st.data@.len() implies #[trigger] nt.data@[q] == if start <= q < start + size {
            m[q - start]
        } else {
            st.data@[q]
        } by {}
        assert forall|x: u64, tt: ComponentId| x != id implies #[trigger] new.component(x, tt) == self.component(x, tt) by {
            if self.archetypes().contains_key(x) && self.archetypes()[x].len != 0 {
                let b = self.archetypes()[x];
                let j0 = self.storage_for(b);
                if j0 == k && st.contains(x) {
                    let ix = st.index_of(x);
                    assert(st.mapping@[ix].id == x);
                    lemma_row_bounds(ix, st.rows() as int, t);
                    assert(ix != i);
                    if ix < i {
                        lemma_row_bounds(ix, i, t);
                    } else {
                        lemma_row_bounds(i, ix, t);
                    }
                    assert(nt.entity_row(x) =~= st.entity_row(x));
                }
            }
        }
        assert forall|tt: ComponentId| #[trigger] new.component(id, tt) == if tt == ty {
            Some(m)
        } else {
            self.component(id, tt)
        } by {
            lemma_position_of(a.infos(), tt);
            if holds_ty(a.infos(), tt) {
                let p2 = position_of(a.infos(), tt)->0;
                lemma_entry_within(a.infos(), p2);
                if tt == ty {
                    assert(entry_bytes(a.infos(), nt.entity_row(id), p) =~= m);
                } else {
                    assert(p2 != p);
                    if p2 < p {
                        lemma_sum_sizes_prefix(a.infos(), p2 + 1, p);
                    } else {
                        lemma_sum_sizes_prefix(a.infos(), p + 1, p2);
                    }
                    assert(entry_bytes(a.infos(), nt.entity_row(id), p2) =~= entry_bytes(a.infos(), st.entity_row(id), p2));
                }
            }
        }
    }

    /// The entity of row `r` of the storage at `k` is alive, and its
    /// components are the entries of that row.
    pub proof fn lemma_row_component(&self, k: int, r: int)
        requires
            self.wf(),
            0 <= k < self.storage@.len(),
            0 <= r < self.storage@[k].rows(),
        ensures
            self.archetypes().contains_key(self.storage@[k].mapping@[r].id),
            forall|ty: ComponentId| #[trigger] self.component(self.storage@[k].mapping@[r].id, ty) == match position_of(self.storage@[k].archetype.infos(), ty) {
                Some(p) => Some(entry_bytes(self.storage@[k].archetype.infos(), self.storage@[k].row(r), p)),
                None => None,
            },
    {
        let st = self.storage@[k];
        let x = st.mapping@[r].id;
        assert(st.wf());
        assert(st.secondary_mapping@.contains_key(x));
        assert(st.contains(x));
        let a = self.archetypes()[x];
        assert(a.same(&st.archetype));
        lemma_same_shape(a, st.archetype);
        lemma_same_equiv(a, st.archetype, a);
        self.lemma_storage_for(a, k);
        assert(st.row_size() != 0) by {
            if st.row_size() == 0 {
                assert(st.rows() == 0);
            }
        }
        assert(a.len != 0) by {
            if a.len == 0 {
                assert(a.infos() =~= Seq::<ArchetypeInfo>::empty());
            }
        }
        assert forall|ty: ComponentId| #[trigger] self.component(x, ty) == match position_of(st.archetype.infos(), ty) {
            Some(p) => Some(entry_bytes(st.archetype.infos(), st.row(r), p)),
            None => None,
        } by {
            if let Some(p) = position_of(a.infos(), ty) {
                lemma_position_of(a.infos(), ty);
                assert(entry_bytes(a.infos(), st.row(r), p) == entry_bytes(st.archetype.infos(), st.row(r), p));
            }
        }
    }

    /// The archetype of a storage that has a row is well formed: it is that
    /// of the row's entity.
    pub proof fn lemma_storage_sorted(&self, k: int)
        requires
            self.wf(),
            0 <= k < self.storage@.len(),
            self.storage@[k].rows() > 0,
        ensures
            self.storage@[k].archetype.wf(),
    {
        let st = self.storage@[k];
        assert(st.wf());
        let x = st.mapping@[0].id;
        assert(st.secondary_mapping@.contains_key(x));
        assert(st.contains(x));
        let a = self.archetypes()[x];
        assert(a.wf());
        lemma_same_shape(a, st.archetype);
    }

    /// A registry that differs from a well formed one in its resources alone
    /// is well formed, with the same components.
    pub proof fn lemma_same_core(&self, other: Registry)
        requires
            self.wf(),
            other.entities == self.entities,
            other.archetypes() == self.archetypes(),
            other.storage == self.storage,
        ensures
            other.wf(),
            forall|x: u64, ty: ComponentId| #[trigger] other.component(x, ty) == self.component(x, ty),
    {
    }

    /// Every registry that differs from a well formed one in its resources
    /// alone is well formed.
    pub proof fn lemma_same_core_all(&self)
        requires
            self.wf(),
        ensures
            forall|other: Registry|
                other.entities == self.entities && other.archetypes() == self.archetypes()
                    && other.storage == self.storage ==> #[trigger] other.wf(),
    {
        assert forall|other: Registry|
            other.entities == self.entities && other.archetypes() == self.archetypes()
                && other.storage == self.storage implies #[trigger] other.wf() by {
            self.lemma_same_core(other);
        }
    }

    /// What a debug print shows of `entity`: the number of entries of its
    /// archetype, and the names in its filled slots in order (a slot past
    /// the entries may still hold the name of an entry that left); `None`
    /// where the entity has no archetype.
    pub fn dbg_info(&self, entity: Entity) -> (r: Option<(usize, Vec<&'static str>)>)
        ensures
            match r {
                None => !self.archetypes().contains_key(entity.id),
                Some((n, names)) => {
                    &&& self.archetypes().contains_key(entity.id)
                    &&& n == self.archetypes()[entity.id].len
                    &&& names@ == slot_names(self.archetypes()[entity.id].info@)
                },
            },
    {
        let a = match self.mapping.get(entity.id) {
            None => return None,
            Some(a) => a,
        };
        let mut names: Vec<&'static str> = Vec::new();
        let mut i: usize = 0;
        proof {
            assert(a.info@.take(0) =~= Seq::<Option<ArchetypeInfo>>::empty());
        }
        while i < 32
            invariant
                i <= 32,
                names@ == slot_names(a.info@.take(i as int)),
            decreases 32 - i,
        {
            proof {
                assert(a.info@.take(i + 1).drop_last() =~= a.info@.take(i as int));
            }
            if let Some(info) = a.info[i] {
                names.push(info.name);
            }
            i = i + 1;
        }
        proof {
            assert(a.info@.take(32) =~= a.info@);
        }
        Some((a.len, names))
    }

    /// A registry with no entity, no storage and no resource.
    pub fn new() -> (r: Registry)
        ensures
            r.wf(),
            r.archetypes().dom() == Set::<u64>::empty(),
            r.entities.alive_ids() == Set::<u64>::empty(),
            r.storage@.len() == 0,
            r.resource_bytes().dom() == Set::<u64>::empty(),
            r.entities.next_id() == 0,
    {
        let r = Registry {
            entities: Entities::new(),
            mapping: EntityMap::new(),
            storage: Vec::new(),
            resources: ResourceMap::new(),
        };
        assert(r.archetypes() =~= Map::<u64, Archetype>::empty());
        r
    }

    /// The index of the storage for an archetype equal to `a`.
    fn find_storage(&self, a: &Archetype) -> (r: Option<usize>)
        ensures
            match r {
                Some(k) => k < self.storage@.len() && self.storage@[k as int].archetype.same(a),
                None => forall|k: int|
                    0 <= k < self.storage@.len() ==> !(#[trigger] self.storage@[k]).archetype.same(a),
            },
    {
        let mut k: usize = 0;
        while k < self.storage.len()
            invariant
                k <= self.storage@.len(),
                forall|j: int| 0 <= j < k ==> !(#[trigger] self.storage@[j]).archetype.same(a),
            decreases self.storage@.len() - k,
        {
            if self.storage[k].archetype.equals(a) {
                return Some(k);
            }
            k = k + 1;
        }
        None
    }

    /// Creates an entity with no component.
    pub fn spawn(&mut self) -> (e: Entity)
        requires
            old(self).wf(),
            old(self).entities.next_id() < u64::MAX,
        ensures
            old(self).spawned(*final(self), e),
    {
        let ghost old_self = *self;
        let e = self.entities.spawn();
        let a = Archetype::new();
        self.mapping.insert(e.id, a);
        proof {
            assert(self.archetypes() == old_self.archetypes().insert(e.id, a));
            assert(self.archetypes().remove(e.id) =~= old_self.archetypes());
            assert(self.archetypes().dom() =~= self.entities.alive_ids());
            assert forall|k: int, id: u64|
                0 <= k < self.storage@.len() && #[trigger] self.storage@[k].contains(id)
                implies self.archetypes().contains_key(id) && self.archetypes()[id].same(
                &self.storage@[k].archetype,
            ) by {
                assert(old_self.storage@[k].contains(id));
            }
            assert forall|id: u64| #[trigger]
                self.archetypes().contains_key(id) && self.archetypes()[id].len != 0
                implies self.has_storage_for(self.archetypes()[id]) && (
                self.archetypes()[id].spec_total_size() != 0 ==> self.storage@[self.storage_for(
                    self.archetypes()[id],
                )].contains(id)) by {
                assert(old_self.archetypes().contains_key(id));
            }
            assert forall|x: u64, ty: ComponentId| #[trigger]
                self.component(x, ty) == if x == e.id {
                    None
                } else {
                    old_self.component(x, ty)
                } by {
                if x != e.id && old_self.archetypes().contains_key(x) {
                    assert(self.archetypes()[x] == old_self.archetypes()[x]);
                }
            }
        }
        e
    }

    /// Destroys `entity` with its components, where it is alive.
    #[verifier::spinoff_prover]
    pub fn despawn(&mut self, entity: Entity)
        requires
            old(self).wf(),
        ensures
            final(self).wf(),
            final(self).archetypes() == old(self).archetypes().remove(entity.id),
            final(self).entities.next_id() == old(self).entities.next_id(),
            final(self).resource_bytes() == old(self).resource_bytes(),
            forall|x: u64, ty: ComponentId| #[trigger]
                final(self).component(x, ty) == if x == entity.id {
                    None
                } else {
                    old(self).component(x, ty)
                },
    {
        let ghost old_self = *self;
        if self.entities.despawn(entity) {
            assert(self.archetypes().dom() == old_self.archetypes().dom());
            let archetype = match self.mapping.remove(entity.id) {
                None => return ,
                Some(a) => a,
            };
            if archetype.len != 0 {
                assert(old_self.archetypes().contains_key(entity.id));
                assert(old_self.has_storage_for(archetype));
                assert(self.storage@ == old_self.storage@);
                let found = self.find_storage(&archetype);
                proof {
                    if found is None {
                        let j = choose|j: int| 0 <= j < old_self.storage@.len() && (#[trigger] old_self.storage@[j]).archetype.same(&archetype);
                        assert(!self.storage@[j].archetype.same(&archetype));
                    }
                }
                let k = found.unwrap();
                proof {
                    old_self.lemma_storage_for(archetype, k as int);
                    lemma_same_shape(archetype, self.storage@[k as int].archetype);
                }
                let _ = self.storage[k].remove(entity);
                proof {
                    let st = self.storage@[k as int];
                    let os = old_self.storage@[k as int];
                    assert forall|i: int| 0 <= i < st.rows() implies exists|j: int|
                        0 <= j < os.rows() && #[trigger] st.table@[i] == os.table@[j] by {
                        if os.row_size() != 0 {
                            let ix = os.index_of(entity.id);
                            if i == ix {
                                assert(st.table@[i] == os.table@[os.rows() - 1]);
                            } else {
                                assert(st.table@[i] == os.table@[i]);
                            }
                        } else {
                            assert(st.table@[i] == os.table@[i]);
                        }
                    }
                    self.lemma_after_storage_remove(old_self, entity.id, k as int);
                }
            } else {
                proof {
                    self.lemma_after_unmap(old_self, entity.id);
                    assert(self.archetypes().dom() =~= self.entities.alive_ids());
                }
            }
        } else {
            proof {
                assert(old_self.archetypes().remove(entity.id) =~= old_self.archetypes());
            }
        }
    }

    /// Stores `resource`, in place of any resource of its type.
    pub fn create(&mut self, resource: ResourceData)
        requires
            old(self).wf(),
        ensures
            final(self).wf(),
            final(self).resource_bytes() == old(self).resource_bytes().insert(
                resource.id,
                resource.bytes@,
            ),
            final(self).entities == old(self).entities,
            final(self).archetypes() == old(self).archetypes(),
            final(self).storage@ == old(self).storage@,
    {
        let ghost old_self = *self;
        let id = resource.id();
        let _ = self.resources.insert(id, resource.bytes);
        proof {
            old_self.lemma_same_core(*self);
        }
    }

    /// The bytes of the resource of type `id`, where there is one.
    pub fn resource(&self, id: ComponentId) -> (r: Option<&Vec<u8>>)
        ensures
            match r {
                Some(b) => self.resource_bytes().contains_key(id) && b@ == self.resource_bytes()[id],
                None => !self.resource_bytes().contains_key(id),
            },
    {
        self.resources.get(id)
    }

    /// A mutable borrow of the bytes of the resource of type `id`, where there
    /// is one; what is written through it is the resource's bytes afterwards.
    pub fn resource_mut(&mut self, id: ComponentId) -> (r: Option<&mut Vec<u8>>)
        requires
            old(self).wf(),
        ensures
            final(self).wf(),
            final(self).entities == old(self).entities,
            final(self).archetypes() == old(self).archetypes(),
            final(self).storage@ == old(self).storage@,
            match r {
                Some(b) => {
                    &&& old(self).resource_bytes().contains_key(id)
                    &&& b@ == old(self).resource_bytes()[id]
                    &&& final(self).resource_bytes() == old(self).resource_bytes().insert(
                        id,
                        final(b)@,
                    )
                },
                None => {
                    &&& !old(self).resource_bytes().contains_key(id)
                    &&& final(self).resource_bytes() == old(self).resource_bytes()
                },
            },
    {
        proof {
            self.lemma_same_core_all();
        }
        self.resources.get_mut(id)
    }

    /// Takes out the resource of type `id`, where there is one, and returns
    /// its bytes.
    pub fn destroy(&mut self, id: ComponentId) -> (r: Option<Vec<u8>>)
        requires
            old(self).wf(),
        ensures
            final(self).wf(),
            final(self).resource_bytes() == old(self).resource_bytes().remove(id),
            final(self).entities == old(self).entities,
            final(self).archetypes() == old(self).archetypes(),
            final(self).storage@ == old(self).storage@,
            match r {
                Some(b) => old(self).resource_bytes().contains_key(id) && b@ == old(
                    self,
                ).resource_bytes()[id],
                None => !old(self).resource_bytes().contains_key(id),
            },
    {
        let ghost old_self = *self;
        let r = self.resources.remove(id);
        proof {
            old_self.lemma_same_core(*self);
        }
        r
    }

    /// Takes the row of `entity`, just unmapped from its archetype `a`, out of
    /// the storage for `a`; returns its bytes and table entry (nothing where
    /// `a` takes no bytes, and so has no rows).
    #[verifier::spinoff_prover]
    fn take_row(&mut self, entity: Entity, a: Archetype, Ghost(old_self): Ghost<Registry>) -> (r: (
        Vec<u8>,
        Vec<ComponentData>,
    ))
        requires
            old_self.wf(),
            old_self.archetypes().contains_key(entity.id),
            a == old_self.archetypes()[entity.id],
            old(self).archetypes() == old_self.archetypes().remove(entity.id),
            old(self).entities == old_self.entities,
            old(self).storage == old_self.storage,
            old(self).resources == old_self.resources,
        ensures
            final(self).consistent(),
            final(self).entities == old(self).entities,
            final(self).resources == old(self).resources,
            final(self).archetypes() == old(self).archetypes(),
            forall|x: u64, ty: ComponentId| x != entity.id ==> #[trigger] final(self).component(x, ty) == old_self.component(x, ty),
            r.0@.len() == a.spec_total_size(),
            r.1@.len() <= a.len,
            a.len != 0 && a.spec_total_size() != 0 ==> old_self.storage@[old_self.storage_for(a)].contains(entity.id) && r.0@ == old_self.storage@[old_self.storage_for(a)].entity_row(entity.id),
            a.len == 0 || a.spec_total_size() == 0 ==> r.0@ == Seq::<u8>::empty(),
    {
        proof {
            assert(a.wf());
        }
        if a.len != 0 && a.total_size() != 0 {
            assert(old_self.has_storage_for(a));
            let found = self.find_storage(&a);
            proof {
                if found is None {
                    let j = choose|j: int| 0 <= j < old_self.storage@.len() && (#[trigger] old_self.storage@[j]).archetype.same(&a);
                    assert(!self.storage@[j].archetype.same(&a));
                }
            }
            let k0 = found.unwrap();
            let ghost os = self.storage@[k0 as int];
            proof {
                old_self.lemma_storage_for(a, k0 as int);
                lemma_same_equiv(a, os.archetype, a);
                lemma_same_shape(os.archetype, a);
                assert(os.contains(entity.id));
                lemma_row_bounds(os.index_of(entity.id), os.rows() as int, os.row_size() as int);
                assert(os.table@[os.index_of(entity.id)]@.len() <= os.archetype.len);
            }
            let removed = self.storage[k0].remove(entity);
            proof {
                let st = self.storage@[k0 as int];
                assert forall|i: int| 0 <= i < st.rows() implies exists|j: int|
                    0 <= j < os.rows() && #[trigger] st.table@[i] == os.table@[j] by {
                    let ix = os.index_of(entity.id);
                    if i == ix {
                        assert(st.table@[i] == os.table@[os.rows() - 1]);
                    } else {
                        assert(st.table@[i] == os.table@[i]);
                    }
                }
                self.lemma_after_storage_remove(old_self, entity.id, k0 as int);
            }
            removed
        } else {
            proof {
                self.lemma_after_unmap(old_self, entity.id);
                if a.len == 0 {
                    assert(a.infos() =~= Seq::<ArchetypeInfo>::empty());
                }
            }
            (Vec::new(), Vec::new())
        }
    }

    /// Maps `entity`, unmapped, to the archetype `a`, and gives it the row
    /// `data` with table entry `table` in the storage for `a`, which it
    /// creates where there is none.
    #[verifier::spinoff_prover]
    fn place_row(&mut self, entity: Entity, a: Archetype, data: Vec<u8>, table: Vec<ComponentData>)
        requires
            old(self).consistent(),
            !old(self).archetypes().contains_key(entity.id),
            a.wf(),
            data@.len() == a.spec_total_size(),
            table@.len() <= a.len,
        ensures
            final(self).consistent(),
            final(self).archetypes() == old(self).archetypes().insert(entity.id, a),
            final(self).entities == old(self).entities,
            final(self).resources == old(self).resources,
            forall|x: u64, ty: ComponentId| x != entity.id ==> #[trigger] final(self).component(x, ty) == old(self).component(x, ty),
            forall|ty: ComponentId| #[trigger] final(self).component(entity.id, ty) == if a.len == 0 || a.spec_total_size() == 0 {
                None
            } else {
                match position_of(a.infos(), ty) {
                    None => None,
                    Some(p) => Some(entry_bytes(a.infos(), data@, p)),
                }
            },
    {
        let ghost start = *self;
        let k = match self.find_storage(&a) {
            Some(k) => k,
            None => {
                let st = Storage::new(a);
                self.storage.push(st);
                proof {
                    self.lemma_add_storage(start, a);
                }
                self.storage.len() - 1
            },
        };
        let ghost mid = *self;
        proof {
            lemma_same_shape(a, self.storage@[k as int].archetype);
            lemma_same_equiv(a, self.storage@[k as int].archetype, a);
            lemma_same_shape(self.storage@[k as int].archetype, a);
            let sk = self.storage@[k as int];
            if sk.contains(entity.id) {
                assert(mid.archetypes().contains_key(entity.id));
            }
            assert forall|i: int| 0 <= i < sk.rows() implies (#[trigger] sk.table@[i])@.len() <= a.len by {
                assert(sk.table@[i]@.len() <= sk.archetype.len);
            }
        }
        let ghost pushed = data@;
        self.storage[k].push(entity, data, table);
        self.mapping.insert(entity.id, a);
        proof {
            let sk = mid.storage@[k as int];
            let nk = self.storage@[k as int];
            assert forall|i: int| 0 <= i < nk.rows() implies (#[trigger] nk.table@[i])@.len() <= a.len by {
                if i < sk.rows() {
                    assert(nk.table@[i] == sk.table@[i]);
                    assert(sk.table@[i]@.len() <= sk.archetype.len);
                }
            }
            self.lemma_attach(mid, entity.id, a, k as int, pushed);
        }
    }

    /// Adds the components of `bundle` to `entity`: the entity moves to the
    /// archetype with their entries added, and its row to the storage for
    /// that archetype. Nothing changes where the entity is not alive or
    /// already has a component of one of their types.
    #[verifier::spinoff_prover]
    pub fn insert<C: ComponentBundle>(&mut self, entity: Entity, bundle: C)
        requires
            old(self).wf(),
            old(self).insert_applies(entity.id, bundle.components()) ==> old(self).insert_fits(
                entity.id,
                bundle.components(),
            ),
        ensures
            old(self).inserted(*final(self), entity.id, bundle.components()),
    {
        let ghost cs = bundle.components();
        let ghost old_self = *self;
        let components = bundle.into_component_iter();
        let mut archetype = match self.mapping.remove(entity.id) {
            None => {
                proof {
                    assert(self.archetypes() =~= old_self.archetypes());
                    old_self.lemma_same_core(*self);
                }
                return ;
            },
            Some(a) => a,
        };
        let ghost a0 = archetype;
        let mut i: usize = 0;
        while i < components.len()
            invariant
                archetype == a0,
                old_self == *old(self),
                cs == bundle.components(),
                a0.wf(),
                a0 == old_self.archetypes()[entity.id],
                old_self.archetypes().contains_key(entity.id),
                old_self.wf(),
                i <= components@.len(),
                components@ == cs,
                self.archetypes() == old_self.archetypes().remove(entity.id),
                self.entities == old_self.entities,
                self.storage == old_self.storage,
                self.resources == old_self.resources,
                forall|j: int| 0 <= j < i ==> !holds_ty(a0.infos(), #[trigger] cs[j].id),
            decreases components@.len() - i,
        {
            proof {
                a0.lemma_prefix_fits();
                lemma_position_of(a0.infos(), components@[i as int].id);
            }
            if archetype.translation(components[i].id).is_some() {
                self.mapping.insert(entity.id, archetype);
                proof {
                    assert(self.archetypes() =~= old_self.archetypes());
                    old_self.lemma_same_core(*self);
                    assert(!old_self.insert_applies(entity.id, cs));
                }
                return ;
            }
            i = i + 1;
        }
        assert(old_self.insert_applies(entity.id, cs));
        let (mut data, mut table) = self.take_row(entity, archetype, Ghost(old_self));
        let ghost row0 = data@;
        proof {
            lemma_bundle_size_prefix(cs, 0);
        }
        add_components(&mut archetype, &mut data, &mut table, components);
        proof {
            assert(archetype.wf());
        }
        self.place_row(entity, archetype, data, table);
        proof {
            let b = archetype;
            assert(self.archetypes().dom() =~= self.entities.alive_ids());
            assert(self.archetypes().remove(entity.id) =~= old_self.archetypes().remove(entity.id));
            assert forall|ty: ComponentId| #[trigger] self.component(entity.id, ty) == old_self.inserted_component(entity.id, cs, b, ty) by {
                lemma_position_of(b.infos(), ty);
                lemma_position_of(a0.infos(), ty);
                if b.len != 0 && b.spec_total_size() != 0 {
                    if holds_ty(b.infos(), ty) {
                        let p = position_of(b.infos(), ty)->0;
                        assert(b.infos()[p].ty == ty);
                        if !bundle_holds(cs, ty) {
                            assert(holds_ty(a0.infos(), ty));
                            assert(a0.len != 0);
                            if a0.spec_total_size() == 0 {
                                let q = position_of(a0.infos(), ty)->0;
                                lemma_entry_within(a0.infos(), q);
                                assert(row0 =~= Seq::<u8>::empty());
                                assert(entry_bytes(a0.infos(), row0, q) =~= Seq::<u8>::empty());
                            }
                        }
                    } else {
                        assert(!bundle_holds(cs, ty));
                    }
                }
            }
        }
    }

    /// Takes component `ty` out of `entity` and returns its bytes: the entity
    /// moves to the archetype without that entry, and its row to the storage
    /// for that archetype. Nothing changes, and `None` is returned, where the
    /// entity is not alive or has no component of that type.
    #[verifier::spinoff_prover]
    pub fn remove(&mut self, entity: Entity, ty: ComponentId) -> (r: Option<Vec<u8>>)
        requires
            old(self).wf(),
            old(self).remove_applies(entity.id, ty) ==> old(self).archetypes()[entity.id].spec_total_size() != 0,
        ensures
            old(self).removed(*final(self), entity.id, ty, match r {
                Some(b) => Some(b@),
                None => None,
            }),
    {
        let ghost old_self = *self;
        let mut archetype = match self.mapping.remove(entity.id) {
            None => {
                proof {
                    assert(self.archetypes() =~= old_self.archetypes());
                    old_self.lemma_same_core(*self);
                }
                return None;
            },
            Some(a) => a,
        };
        let ghost a0 = archetype;
        proof {
            a0.lemma_prefix_fits();
            lemma_position_of(a0.infos(), ty);
        }
        if archetype.len == 0 {
            self.mapping.insert(entity.id, archetype);
            proof {
                assert(self.archetypes() =~= old_self.archetypes());
                old_self.lemma_same_core(*self);
            }
            return None;
        }
        if archetype.translation(ty).is_none() {
            self.mapping.insert(entity.id, archetype);
            proof {
                assert(self.archetypes() =~= old_self.archetypes());
                old_self.lemma_same_core(*self);
            }
            return None;
        }
        let idx = match archetype.position(ty) {
            Some(i) => i,
            None => {
                self.mapping.insert(entity.id, archetype);
                proof {
                    assert(self.archetypes() =~= old_self.archetypes());
                    old_self.lemma_same_core(*self);
                }
                return None;
            },
        };
        let (data, mut table) = self.take_row(entity, archetype, Ghost(old_self));
        let ghost row0 = data@;
        proof {
            archetype.lemma_slot_entries(idx as int);
        }
        let size_up_to = archetype.size_up_to(idx);
        let size = archetype.info[idx].unwrap().size;
        proof {
            lemma_entry_within(a0.infos(), idx as int);
            lemma_entry_parts(a0.infos(), row0);
            lemma_remove_part(a0.infos(), entry_parts(a0.infos(), row0), idx as int);
        }
        let (ret, rest) = cut_bytes(&data, size_up_to, size);
        if idx < table.len() {
            let _ = table.remove(idx);
        }
        archetype.remove_at(idx);
        proof {
            lemma_remove_sorted(a0.infos(), idx as int);
            lemma_sum_sizes_remove(a0.infos(), idx as int);
            let parts = entry_parts(a0.infos(), row0).remove(idx as int);
            lemma_concat_len(archetype.infos(), parts);
            assert(rest@ == concat_parts(parts));
        }
        self.place_row(entity, archetype, rest, table);
        proof {
            let b = archetype;
            let parts = entry_parts(a0.infos(), row0).remove(idx as int);
            assert(self.archetypes().dom() =~= self.entities.alive_ids());
            assert(self.archetypes().remove(entity.id) =~= old_self.archetypes().remove(entity.id));
            assert(ret@ == entry_bytes(a0.infos(), row0, idx as int));
            assert forall|t: ComponentId| #[trigger] self.component(entity.id, t) == if t == ty || b.spec_total_size() == 0 {
                None
            } else {
                old_self.component(entity.id, t)
            } by {
                lemma_position_of(b.infos(), t);
                lemma_position_of(a0.infos(), t);
                if b.len != 0 && b.spec_total_size() != 0 {
                    if holds_ty(b.infos(), t) {
                        let p = position_of(b.infos(), t)->0;
                        let q = if p < idx { p } else { p + 1 };
                        assert(b.infos()[p] == a0.infos()[q]);
                        lemma_sorted_position(a0.infos(), q);
                        lemma_sorted_position(a0.infos(), idx as int);
                        lemma_concat_entry(b.infos(), parts, p);
                        if t == ty {
                            assert(q != idx);
                        }
                    } else if t != ty {
                        if holds_ty(a0.infos(), t) {
                            let q = position_of(a0.infos(), t)->0;
                            let p = if q < idx { q } else { q - 1 };
                            assert(q != idx);
                            assert(b.infos()[p].ty == t);
                        }
                    }
                } else if b.len == 0 {
                    assert(b.spec_total_size() == 0);
                }
            }
        }
        Some(ret)
    }

    /// A mutable borrow of the bytes of component `ty` of `entity`, where it
    /// has one. What is written through it is the component's bytes
    /// afterwards, in place of the old bytes (see `lemma_write_then_read`
    /// for what that gives).
    #[verifier::spinoff_prover]
    pub fn get_mut(&mut self, entity: Entity, ty: ComponentId) -> (r: Option<&mut [u8]>)
        requires
            old(self).wf(),
        ensures
            r is None ==> old(self).component(entity.id, ty) is None,
            r is None ==> *final(self) == *old(self),
            r matches Some(b) ==> old(self).component(entity.id, ty) == Some(b@),
            r is Some ==> final(self).entities == old(self).entities,
            r is Some ==> final(self).resources == old(self).resources,
            r is Some ==> final(self).archetypes() == old(self).archetypes(),
            r matches Some(b) ==> old(self).with_component_bytes(*final(self), entity.id, ty, final(b)@),
    {
        let ghost old_self = *self;
        let archetype = match self.mapping.get(entity.id) {
            None => return None,
            Some(a) => *a,
        };
        if archetype.len == 0 {
            return None;
        }
        assert(self.archetypes().contains_key(entity.id));
        let k = self.find_storage(&archetype).unwrap();
        proof {
            self.lemma_storage_for(archetype, k as int);
        }
        let index = match self.storage[k].secondary_mapping.get(&entity.id) {
            None => return None,
            Some(i) => *i,
        };
        proof {
            lemma_same_shape(archetype, self.storage@[k as int].archetype);
            lemma_position_of(archetype.infos(), ty);
            archetype.lemma_prefix_fits();
        }
        let total_size = self.storage[k].archetype.total_size();
        let translation = match archetype.translation(ty) {
            None => return None,
            Some(t) => t,
        };
        let p = archetype.position(ty).unwrap();
        let size = archetype.info[p].unwrap().size;
        let ghost st = self.storage@[k as int];
        proof {
            lemma_entry_within(archetype.infos(), p as int);
            lemma_row_bounds(index as int, st.rows() as int, total_size as int);
        }
        let data_len = self.storage[k].data.len();
        let start = index * total_size + translation;
        let mid = self.storage[k].bytes_mut(start, size);
        Some(mid)
    }

    /// Replaces the bytes of component `ty` of `entity` with `bytes`, where
    /// it has such a component of that size; whether it did.
    pub fn set_component(&mut self, entity: Entity, ty: ComponentId, bytes: &Vec<u8>) -> (done: bool)
        requires
            old(self).wf(),
        ensures
            final(self).wf(),
            final(self).entities == old(self).entities,
            final(self).archetypes() == old(self).archetypes(),
            final(self).resource_bytes() == old(self).resource_bytes(),
            done == (old(self).component(entity.id, ty) is Some && old(self).component(entity.id, ty)->0.len()
                == bytes@.len()),
            forall|x: u64, t: ComponentId| #[trigger]
                final(self).component(x, t) == if done && x == entity.id && t == ty {
                    Some(bytes@)
                } else {
                    old(self).component(x, t)
                },
    {
        let ghost old_self = *self;
        match self.get_mut(entity, ty) {
            None => false,
            Some(slot) => {
                if slot.len() == bytes.len() {
                    copy_into(slot, bytes);
                    proof {
                        old_self.lemma_write_then_read(*self, entity.id, ty, bytes@);
                    }
                    true
                } else {
                    proof {
                        old_self.lemma_write_then_read(*self, entity.id, ty, old_self.component(entity.id, ty)->0);
                    }
                    false
                }
            },
        }
    }

    /// The bytes of component `ty` of `entity`, where it has one.
    #[verifier::spinoff_prover]
    pub fn get(&self, entity: Entity, ty: ComponentId) -> (r: Option<Vec<u8>>)
        requires
            self.wf(),
        ensures
            match r {
                Some(v) => self.component(entity.id, ty) == Some(v@),
                None => self.component(entity.id, ty) is None,
            },
    {
        let archetype = match self.mapping.get(entity.id) {
            None => return None,
            Some(a) => *a,
        };
        if archetype.len == 0 {
            return None;
        }
        assert(self.archetypes().contains_key(entity.id));
        let k = self.find_storage(&archetype).unwrap();
        proof {
            self.lemma_storage_for(archetype, k as int);
        }
        let storage = &self.storage[k];
        let index = match storage.secondary_mapping.get(&entity.id) {
            None => return None,
            Some(i) => *i,
        };
        proof {
            lemma_same_shape(archetype, storage.archetype);
            lemma_position_of(archetype.infos(), ty);
            archetype.lemma_prefix_fits();
        }
        let data_len = storage.data.len();
        let total_size = storage.archetype.total_size();
        let translation = match archetype.translation(ty) {
            None => return None,
            Some(t) => t,
        };
        let p = archetype.position(ty).unwrap();
        let size = archetype.info[p].unwrap().size;
        proof {
            lemma_entry_within(archetype.infos(), p as int);
            lemma_row_bounds(index as int, storage.rows() as int, total_size as int);
        }
        let start = index * total_size + translation;
        let mut bytes: Vec<u8> = Vec::new();
        let mut q: usize = 0;
        while q < size
            invariant
                q <= size,
                start + size <= storage.data@.len(),
                storage.data@.len() == data_len,
                bytes@ == storage.data@.subrange(start as int, start + q),
            decreases size - q,
        {
            bytes.push(storage.data[start + q]);
            q = q + 1;
        }
        proof {
            let row = storage.entity_row(entity.id);
            assert(bytes@ =~= entry_bytes(archetype.infos(), row, p as int));
        }
        Some(bytes)
    }
}

} // verus!
