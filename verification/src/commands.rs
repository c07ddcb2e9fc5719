use crate::archetype::{holds_ty, sum_sizes};
use crate::entity::Entity;
use crate::{bundle_size, distinct_ids, ComponentBundle, ComponentData, Registry};
use vstd::prelude::*;

verus! {

/// A change queued while a query runs: a new entity with components, or
/// components added to an entity.
pub enum Command {
    Spawn(Vec<ComponentData>),
    Insert(Entity, Vec<ComponentData>),
}

/// What a command asks for: the entity it adds to (none for a new one), and
/// the components.
pub open spec fn command_view(c: Command) -> (Option<Entity>, Seq<ComponentData>) {
    match c {
        Command::Spawn(cs) => (None, cs@),
        Command::Insert(e, cs) => (Some(e), cs@),
    }
}

/// The commands queued by a query, in order.
pub struct Commands {
    pub queue: Vec<Command>,
}

impl Commands {
    /// A queue without commands.
    pub fn new() -> (r: Commands)
        ensures
            r.queue@.len() == 0,
    {
        Commands { queue: Vec::new() }
    }

    /// Queues the spawn of an entity with the components of `bundle`.
    pub fn spawn<C: ComponentBundle>(&mut self, bundle: C)
        ensures
            final(self).queue@.len() == old(self).queue@.len() + 1,
            final(self).queue@.drop_last() == old(self).queue@,
            command_view(final(self).queue@.last()) == (None::<Entity>, bundle.components()),
    {
        let ghost cs = bundle.components();
        let components = bundle.into_component_iter();
        self.queue.push(Command::Spawn(components));
        proof {
            assert(self.queue@.drop_last() =~= old(self).queue@);
        }
    }

    /// Queues the insert of the components of `bundle` into `entity`.
    pub fn insert<C: ComponentBundle>(&mut self, entity: Entity, bundle: C)
        ensures
            final(self).queue@.len() == old(self).queue@.len() + 1,
            final(self).queue@.drop_last() == old(self).queue@,
            command_view(final(self).queue@.last()) == (Some(entity), bundle.components()),
    {
        let components = bundle.into_component_iter();
        self.queue.push(Command::Insert(entity, components));
        proof {
            assert(self.queue@.drop_last() =~= old(self).queue@);
        }
    }
}

/// The command `c` can be carried out on `r`: a spawn has an identity left
/// to hand out, and an insert that takes effect runs to its end.
pub open spec fn command_fits(r: Registry, c: (Option<Entity>, Seq<ComponentData>)) -> bool {
    match c.0 {
        Some(e) => r.insert_applies(e.id, c.1) ==> r.insert_fits(e.id, c.1),
        None => {
            &&& r.entities.next_id() < u64::MAX
            &&& distinct_ids(c.1)
            &&& c.1.len() + 1 < 32
            &&& bundle_size(c.1) <= usize::MAX
        },
    }
}

/// `new` is `old` with the command `c` carried out as far as it can be: an
/// insert where it fits, nothing otherwise; a spawn wherever an identity is
/// left, followed by the insert into the new entity where it fits.
#[verifier::opaque]
pub open spec fn command_done(old: Registry, c: (Option<Entity>, Seq<ComponentData>), new: Registry) -> bool {
    match c.0 {
        Some(e) => if command_fits(old, c) {
            old.inserted(new, e.id, c.1)
        } else {
            new == old
        },
        None => if old.entities.next_id() == u64::MAX {
            new == old
        } else {
            exists|mid: Registry, e: Entity|
                #[trigger] old.spawned(mid, e) && if command_fits(old, c) {
                    mid.inserted(new, e.id, c.1)
                } else {
                    new == mid
                }
        },
    }
}

/// `states` runs from `old` to `new` through the first `n` commands of
/// `cmds`, each carried out as far as it can be on the state before it;
/// those that could not be carried out in full are listed in `skipped`.
#[verifier::opaque]
pub open spec fn commands_chain(
    old: Registry,
    cmds: Seq<(Option<Entity>, Seq<ComponentData>)>,
    states: Seq<Registry>,
    new: Registry,
    skipped: Seq<usize>,
    n: nat,
) -> bool {
    &&& n <= cmds.len()
    &&& states.len() == n + 1
    &&& states[0] == old
    &&& states[n as int] == new
    &&& forall|j: int| 0 <= j < n ==> command_done(#[trigger] states[j], cmds[j], states[j + 1])
    &&& forall|j: int| 0 <= j < n ==> (skipped.contains(j as usize) <==> !command_fits(#[trigger] states[j], cmds[j]))
    &&& forall|q: int| 0 <= q < skipped.len() ==> #[trigger] skipped[q] < n
}

/// No command yet: a chain through none.
pub proof fn lemma_chain_start(old: Registry, cmds: Seq<(Option<Entity>, Seq<ComponentData>)>)
    ensures
        commands_chain(old, cmds, seq![old], old, Seq::empty(), 0),
{
    reveal(commands_chain);
}

/// A chain through `i` commands, followed by the next one, is a chain
/// through `i + 1`.
pub proof fn lemma_chain_step(
    old: Registry,
    cmds: Seq<(Option<Entity>, Seq<ComponentData>)>,
    states: Seq<Registry>,
    skipped: Seq<usize>,
    mid: Registry,
    new: Registry,
    i: nat,
)
    requires
        commands_chain(old, cmds, states, mid, skipped, i),
        i < cmds.len(),
        i < usize::MAX,
        command_done(mid, cmds[i as int], new),
    ensures
        commands_chain(
            old,
            cmds,
            states.push(new),
            new,
            if command_fits(mid, cmds[i as int]) {
                skipped
            } else {
                skipped.push(i as usize)
            },
            i + 1,
        ),
{
    reveal(commands_chain);
    let next = states.push(new);
    let sk = if command_fits(mid, cmds[i as int]) {
        skipped
    } else {
        skipped.push(i as usize)
    };
    assert forall|j: int| 0 <= j < i + 1 implies command_done(#[trigger] next[j], cmds[j], next[j + 1]) by {
        if j < i {
            assert(next[j] == states[j]);
            assert(next[j + 1] == states[j + 1]);
        } else {
            assert(next[j] == mid);
        }
    }
    assert forall|j: int| 0 <= j < i + 1 implies (sk.contains(j as usize) <==> !command_fits(#[trigger] next[j], cmds[j])) by {
        if j < i {
            assert(next[j] == states[j]);
            if !command_fits(mid, cmds[i as int]) {
                if sk.contains(j as usize) && !skipped.contains(j as usize) {
                    let q = choose|q: int| 0 <= q < sk.len() && sk[q] == j as usize;
                    assert(q == skipped.len());
                }
                if skipped.contains(j as usize) {
                    let q = choose|q: int| 0 <= q < skipped.len() && skipped[q] == j as usize;
                    assert(sk[q] == j as usize);
                }
            }
        } else {
            assert(next[j] == mid);
            if !command_fits(mid, cmds[i as int]) {
                assert(sk[skipped.len() as int] == i as usize);
            } else if skipped.contains(i as usize) {
                let q = choose|q: int| 0 <= q < skipped.len() && skipped[q] == i as usize;
                assert(skipped[q] < i);
            }
        }
    }
    assert forall|q: int| 0 <= q < sk.len() implies #[trigger] sk[q] < i + 1 by {
        if q < skipped.len() {
            assert(sk[q] == skipped[q]);
        }
    }
}

/// The commands, as what they ask for.
pub open spec fn command_views(cmds: Seq<Command>) -> Seq<(Option<Entity>, Seq<ComponentData>)> {
    Seq::new(cmds.len(), |i: int| command_view(cmds[i]))
}

/// No two components are of the same type.
pub fn distinct_component_ids(cs: &Vec<ComponentData>) -> (r: bool)
    ensures
        r == distinct_ids(cs@),
{
    let mut j: usize = 0;
    while j < cs.len()
        invariant
            j <= cs@.len(),
            forall|a: int, b: int| 0 <= a < b < j ==> #[trigger] cs@[a].id != #[trigger] cs@[b].id,
        decreases cs@.len() - j,
    {
        let mut i: usize = 0;
        while i < j
            invariant
                i <= j,
                j < cs@.len(),
                forall|a: int| 0 <= a < i ==> #[trigger] cs@[a].id != cs@[j as int].id,
            decreases j - i,
        {
            if cs[i].id == cs[j].id {
                return false;
            }
            i = i + 1;
        }
        j = j + 1;
    }
    true
}

/// `base` bytes and those of the components together fit in a `usize`.
pub fn size_fits(cs: &Vec<ComponentData>, base: usize) -> (r: bool)
    ensures
        r == (base + bundle_size(cs@) <= usize::MAX),
{
    let mut sum: usize = base;
    let mut i: usize = 0;
    proof {
        crate::lemma_bundle_size_prefix(cs@, 0);
        assert(cs@.take(0) =~= Seq::<ComponentData>::empty());
    }
    while i < cs.len()
        invariant
            i <= cs@.len(),
            sum == base + bundle_size(cs@.take(i as int)),
        decreases cs@.len() - i,
    {
        proof {
            crate::lemma_bundle_size_prefix(cs@, i as int);
            crate::lemma_bundle_size_prefix(cs@, i + 1);
        }
        let n = cs[i].bytes.len();
        if n > usize::MAX - sum {
            return false;
        }
        sum = sum + n;
        i = i + 1;
    }
    proof {
        assert(cs@.take(cs@.len() as int) =~= cs@);
    }
    true
}

impl Registry {
    /// Whether an insert of `cs` into `entity` runs to its end where it
    /// takes effect.
    pub fn insert_fits_now(&self, entity: Entity, cs: &Vec<ComponentData>) -> (r: bool)
        requires
            self.wf(),
        ensures
            r == (self.insert_applies(entity.id, cs@) ==> self.insert_fits(entity.id, cs@)),
    {
        let a = match self.mapping.get(entity.id) {
            None => {
                return true;
            },
            Some(a) => a,
        };
        assert(a.wf());
        let mut i: usize = 0;
        while i < cs.len()
            invariant
                i <= cs@.len(),
                a.wf(),
                self.archetypes().contains_key(entity.id),
                *a == self.archetypes()[entity.id],
                forall|j: int| 0 <= j < i ==> !holds_ty(a.infos(), #[trigger] cs@[j].id),
            decreases cs@.len() - i,
        {
            proof {
                crate::archetype::lemma_position_of(a.infos(), cs@[i as int].id);
            }
            if a.position(cs[i].id).is_some() {
                return true;
            }
            i = i + 1;
        }
        if cs.len() >= 31 || a.len + cs.len() + 1 >= 32 {
            return false;
        }
        let total = a.total_size();
        distinct_component_ids(cs) && size_fits(cs, total)
    }

    /// Carries out one queued command as far as it can be: the insert, or the
    /// spawn of an entity followed by the insert into it. Whether it could be
    /// carried out in full.
    pub fn apply_command(&mut self, c: Command) -> (done: bool)
        requires
            old(self).wf(),
        ensures
            final(self).wf(),
            done == command_fits(*old(self), command_view(c)),
            command_done(*old(self), command_view(c), *final(self)),
    {
        match c {
            Command::Insert(e, cs) => {
                if !self.insert_fits_now(e, &cs) {
                    proof {
                        reveal(command_done);
                    }
                    return false;
                }
                self.insert(e, cs);
                proof {
                    reveal(command_done);
                }
                true
            },
            Command::Spawn(cs) => {
                if self.entities.peek_next() == u64::MAX {
                    proof {
                        reveal(command_done);
                    }
                    return false;
                }
                let fits = cs.len() < 31 && distinct_component_ids(&cs) && size_fits(&cs, 0);
                let ghost old_self = *self;
                let e = self.spawn();
                let ghost mid = *self;
                if !fits {
                    proof {
                        assert(old_self.spawned(mid, e) && *self == mid);
                        reveal(command_done);
                    }
                    return false;
                }
                proof {
                    let a = mid.archetypes()[e.id];
                    assert(a.infos() =~= Seq::<crate::archetype::ArchetypeInfo>::empty());
                    assert(sum_sizes(a.infos()) == 0);
                    assert forall|j: int| 0 <= j < cs@.len() implies !holds_ty(a.infos(), #[trigger] cs@[j].id) by {}
                }
                self.insert(e, cs);
                proof {
                    assert(old_self.spawned(mid, e) && mid.inserted(*self, e.id, cs@));
                    reveal(command_done);
                }
                true
            },
        }
    }

    /// Carries out the queued commands in order, each as far as it can be on
    /// the state the earlier ones left; returns the indices of those that
    /// could not be carried out in full.
    #[verifier::spinoff_prover]
    pub fn apply_commands(&mut self, commands: Commands) -> (skipped: Vec<usize>)
        requires
            old(self).wf(),
        ensures
            final(self).wf(),
            exists|states: Seq<Registry>|
                #[trigger] commands_chain(
                    *old(self),
                    command_views(commands.queue@),
                    states,
                    *final(self),
                    skipped@,
                    commands.queue@.len(),
                ),
    {
        let ghost cmds = command_views(commands.queue@);
        let ghost start = *self;
        let n = commands.queue.len();
        let mut queue = commands.queue;
        let ghost mut states: Seq<Registry> = seq![*self];
        let mut skipped: Vec<usize> = Vec::new();
        let mut i: usize = 0;
        proof {
            lemma_chain_start(start, cmds);
            assert(skipped@ =~= Seq::<usize>::empty());
        }
        while queue.len() > 0
            invariant
                self.wf(),
                i <= cmds.len(),
                cmds.len() == n,
                queue@.len() == cmds.len() - i,
                forall|j: int| 0 <= j < queue@.len() ==> command_view(#[trigger] queue@[j]) == cmds[i + j],
                commands_chain(start, cmds, states, *self, skipped@, i as nat),
            decreases queue@.len(),
        {
            let c = queue.remove(0);
            proof {
                assert(command_view(c) == cmds[i as int]);
            }
            let ghost before = *self;
            let ghost before_skipped = skipped@;
            let done = self.apply_command(c);
            if !done {
                skipped.push(i);
            }
            proof {
                lemma_chain_step(start, cmds, states, before_skipped, before, *self, i as nat);
                states = states.push(*self);
                assert forall|j: int| 0 <= j < queue@.len() implies command_view(#[trigger] queue@[j]) == cmds[i
                    + 1 + j] by {}
            }
            i = i + 1;
        }
        proof {
            assert(cmds == command_views(commands.queue@));
        }
        skipped
    }
}

} // verus!
