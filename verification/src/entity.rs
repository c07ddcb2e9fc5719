use vstd::prelude::*;

verus! {

/// A handle to an entity of a registry.
#[derive(Clone, Copy, PartialEq, Eq, Structural, Hash, Debug)]
pub struct Entity {
    pub id: u64,
}

/// The allocator of entity handles: each spawn hands out a handle never
/// handed out before, and a handle stays alive until it is despawned.
pub struct Entities {
    pub(crate) next: u64,
    pub(crate) alive: std::collections::HashSet<u64>,
}

impl Entities {
    /// The handles alive now.
    pub closed spec fn alive_ids(&self) -> Set<u64> {
        self.alive@
    }

    /// The identity the next spawn hands out.
    pub closed spec fn next_id(&self) -> u64 {
        self.next
    }

    /// Every alive handle was handed out before.
    pub closed spec fn wf(&self) -> bool {
        forall|id: u64| self.alive@.contains(id) ==> id < self.next
    }

    /// No handle alive, none handed out yet.
    pub fn new() -> (r: Entities)
        ensures
            r.wf(),
            r.alive_ids() == Set::<u64>::empty(),
            r.next_id() == 0,
    {
        Entities { next: 0, alive: std::collections::HashSet::new() }
    }

    /// The identity the next spawn hands out.
    pub fn peek_next(&self) -> (r: u64)
        ensures
            r == self.next_id(),
    {
        self.next
    }

    /// Hands out a fresh handle and marks it alive.
    pub fn spawn(&mut self) -> (e: Entity)
        requires
            old(self).wf(),
            old(self).next_id() < u64::MAX,
        ensures
            final(self).wf(),
            e.id == old(self).next_id(),
            !old(self).alive_ids().contains(e.id),
            final(self).alive_ids() == old(self).alive_ids().insert(e.id),
            final(self).next_id() == old(self).next_id() + 1,
    {
        broadcast use vstd::std_specs::hash::group_hash_axioms;

        let id = self.next;
        self.next = self.next + 1;
        self.alive.insert(id);
        Entity { id }
    }

    /// Marks `entity` dead; whether it was alive.
    pub fn despawn(&mut self, entity: Entity) -> (was_alive: bool)
        requires
            old(self).wf(),
        ensures
            final(self).wf(),
            was_alive == old(self).alive_ids().contains(entity.id),
            final(self).alive_ids() == old(self).alive_ids().remove(entity.id),
            final(self).next_id() == old(self).next_id(),
    {
        broadcast use vstd::std_specs::hash::group_hash_axioms;

        self.alive.remove(&entity.id)
    }
}

} // verus!
