use crate::archetype::Archetype;
use vstd::prelude::*;

verus! {

/// The archetype of each entity, kept in a `hashbrown::HashMap` keyed by the
/// entity's identity.
#[verifier::external_body]
pub struct EntityMap {
    inner: hashbrown::HashMap<u64, Archetype>,
}

/// What an `EntityMap` holds.
pub uninterp spec fn entity_map_contents(m: EntityMap) -> Map<u64, Archetype>;

impl EntityMap {
    /// `hashbrown::HashMap::new`: a map that holds nothing.
    #[verifier::external_body]
    pub(crate) fn new() -> (r: EntityMap)
        ensures
            entity_map_contents(r).dom() == Set::<u64>::empty(),
    {
        EntityMap { inner: hashbrown::HashMap::new() }
    }

    /// `hashbrown::HashMap::insert`: maps `k` to `v`, and returns what `k`
    /// mapped to before.
    #[verifier::external_body]
    pub(crate) fn insert(&mut self, k: u64, v: Archetype) -> (r: Option<Archetype>)
        ensures
            entity_map_contents(*final(self)) == entity_map_contents(*old(self)).insert(k, v),
            r == (if entity_map_contents(*old(self)).contains_key(k) {
                Some(entity_map_contents(*old(self))[k])
            } else {
                None
            }),
    {
        self.inner.insert(k, v)
    }

    /// `hashbrown::HashMap::remove`: unmaps `k`, and returns what it mapped
    /// to.
    #[verifier::external_body]
    pub(crate) fn remove(&mut self, k: u64) -> (r: Option<Archetype>)
        ensures
            entity_map_contents(*final(self)) == entity_map_contents(*old(self)).remove(k),
            r == (if entity_map_contents(*old(self)).contains_key(k) {
                Some(entity_map_contents(*old(self))[k])
            } else {
                None
            }),
    {
        self.inner.remove(&k)
    }

    /// `hashbrown::HashMap::get`: what `k` maps to.
    #[verifier::external_body]
    pub(crate) fn get(&self, k: u64) -> (r: Option<&Archetype>)
        ensures
            r == (if entity_map_contents(*self).contains_key(k) {
                Some(&entity_map_contents(*self)[k])
            } else {
                None
            }),
    {
        self.inner.get(&k)
    }
}

/// The bytes of each resource, kept in a `hashbrown::HashMap` keyed by the
/// resource's type identity.
#[verifier::external_body]
pub struct ResourceMap {
    inner: hashbrown::HashMap<u64, Vec<u8>>,
}

/// What a `ResourceMap` holds.
pub uninterp spec fn resource_map_contents(m: ResourceMap) -> Map<u64, Seq<u8>>;

impl ResourceMap {
    /// `hashbrown::HashMap::new`: a map that holds nothing.
    #[verifier::external_body]
    pub(crate) fn new() -> (r: ResourceMap)
        ensures
            resource_map_contents(r).dom() == Set::<u64>::empty(),
    {
        ResourceMap { inner: hashbrown::HashMap::new() }
    }

    /// `hashbrown::HashMap::insert`: maps `k` to `v`, and returns what `k`
    /// mapped to before.
    #[verifier::external_body]
    pub(crate) fn insert(&mut self, k: u64, v: Vec<u8>) -> (r: Option<Vec<u8>>)
        ensures
            resource_map_contents(*final(self)) == resource_map_contents(*old(self)).insert(k, v@),
            match r {
                Some(b) => resource_map_contents(*old(self)).contains_key(k) && b@
                    == resource_map_contents(*old(self))[k],
                None => !resource_map_contents(*old(self)).contains_key(k),
            },
    {
        self.inner.insert(k, v)
    }

    /// `hashbrown::HashMap::remove`: unmaps `k`, and returns what it mapped
    /// to.
    #[verifier::external_body]
    pub(crate) fn remove(&mut self, k: u64) -> (r: Option<Vec<u8>>)
        ensures
            resource_map_contents(*final(self)) == resource_map_contents(*old(self)).remove(k),
            match r {
                Some(b) => resource_map_contents(*old(self)).contains_key(k) && b@
                    == resource_map_contents(*old(self))[k],
                None => !resource_map_contents(*old(self)).contains_key(k),
            },
    {
        self.inner.remove(&k)
    }

    /// `hashbrown::HashMap::get`: what `k` maps to.
    #[verifier::external_body]
    pub(crate) fn get(&self, k: u64) -> (r: Option<&Vec<u8>>)
        ensures
            match r {
                Some(b) => resource_map_contents(*self).contains_key(k) && b@
                    == resource_map_contents(*self)[k],
                None => !resource_map_contents(*self).contains_key(k),
            },
    {
        self.inner.get(&k)
    }

    /// `hashbrown::HashMap::get_mut`: a mutable borrow of what `k` maps to;
    /// what is written through it is what `k` maps to afterwards.
    #[verifier::external_body]
    pub(crate) fn get_mut(&mut self, k: u64) -> (r: Option<&mut Vec<u8>>)
        ensures
            match r {
                Some(b) => {
                    &&& resource_map_contents(*old(self)).contains_key(k)
                    &&& b@ == resource_map_contents(*old(self))[k]
                    &&& resource_map_contents(*final(self)) == resource_map_contents(
                        *old(self),
                    ).insert(k, final(b)@)
                },
                None => {
                    &&& !resource_map_contents(*old(self)).contains_key(k)
                    &&& resource_map_contents(*final(self)) == resource_map_contents(*old(self))
                },
            },
    {
        self.inner.get_mut(&k)
    }
}

} // verus!
