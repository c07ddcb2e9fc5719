use crate::query::{
    lemma_muts_within_refs, mut_deps, muts_of, ref_deps, refs_of, term_muts, term_refs, QueryTerm,
};
use crate::ComponentId;
use std::collections::HashSet;
use vstd::prelude::*;

verus! {

/// How a system runs over what its query yields: one item after the other,
/// items in parallel, or each item as a task of its own.
#[derive(Clone, Copy, PartialEq, Eq, Structural, Debug)]
pub enum Execution {
    Sequential,
    Parallel,
    Async,
}

/// What the scheduler knows of a system: the terms of its query, and how it
/// runs.
pub struct SystemInfo {
    pub terms: Vec<QueryTerm>,
    pub execution: Execution,
}

/// A system with the terms `me` must not run beside one with the terms
/// `them`: it reads what they write, or writes what they read or write.
pub open spec fn depends_on(me: Seq<QueryTerm>, them: Seq<QueryTerm>) -> bool {
    ||| exists|t: ComponentId| #[trigger] refs_of(me).contains(t) && muts_of(them).contains(t)
    ||| exists|t: ComponentId|
        #[trigger] muts_of(me).contains(t) && (refs_of(them).contains(t) || muts_of(them).contains(t))
}

/// Two systems conflict the same way whichever of them is asked.
pub proof fn lemma_depends_symmetric(a: Seq<QueryTerm>, b: Seq<QueryTerm>)
    ensures
        depends_on(a, b) == depends_on(b, a),
{
    lemma_muts_within_refs(a);
    lemma_muts_within_refs(b);
    if depends_on(a, b) {
        if exists|t: ComponentId| #[trigger] refs_of(a).contains(t) && muts_of(b).contains(t) {
            let t = choose|t: ComponentId| #[trigger] refs_of(a).contains(t) && muts_of(b).contains(t);
            assert(muts_of(b).contains(t) && refs_of(a).contains(t));
        } else {
            let t = choose|t: ComponentId|
                #[trigger] muts_of(a).contains(t) && (refs_of(b).contains(t) || muts_of(b).contains(t));
            assert(refs_of(b).contains(t) && muts_of(a).contains(t));
        }
    }
    if depends_on(b, a) {
        if exists|t: ComponentId| #[trigger] refs_of(b).contains(t) && muts_of(a).contains(t) {
            let t = choose|t: ComponentId| #[trigger] refs_of(b).contains(t) && muts_of(a).contains(t);
            assert(muts_of(a).contains(t) && refs_of(b).contains(t));
        } else {
            let t = choose|t: ComponentId|
                #[trigger] muts_of(b).contains(t) && (refs_of(a).contains(t) || muts_of(a).contains(t));
            assert(refs_of(a).contains(t) && muts_of(b).contains(t));
        }
    }
}

/// Whether a system with the terms of `me` must wait for one with the terms
/// of `them`.
pub fn depends(me: &SystemInfo, them: &SystemInfo) -> (r: bool)
    ensures
        r == depends_on(me.terms@, them.terms@),
{
    broadcast use vstd::std_specs::hash::group_hash_axioms;

    let their_refs = ref_deps(&them.terms);
    let their_muts = mut_deps(&them.terms);
    let ghost rs = refs_of(them.terms@);
    let ghost ms = muts_of(them.terms@);
    let mut i: usize = 0;
    proof {
        assert(me.terms@.take(0) =~= Seq::<QueryTerm>::empty());
    }
    while i < me.terms.len()
        invariant
            i <= me.terms@.len(),
            their_refs@ == rs,
            their_muts@ == ms,
            rs == refs_of(them.terms@),
            ms == muts_of(them.terms@),
            forall|t: ComponentId| #[trigger] refs_of(me.terms@.take(i as int)).contains(t) ==> !ms.contains(t),
            forall|t: ComponentId| #[trigger] muts_of(me.terms@.take(i as int)).contains(t) ==> !rs.contains(t) && !ms.contains(t),
        decreases me.terms@.len() - i,
    {
        let ghost pre = me.terms@.take(i as int);
        let ghost nxt = me.terms@.take(i + 1);
        proof {
            assert(nxt.drop_last() =~= pre);
            assert(nxt.last() == me.terms@[i as int]);
        }
        if let Some((ty, mutable)) = me.terms[i].access() {
            if their_muts.contains(&ty) {
                proof {
                    lemma_refs_grow(me.terms@, i as int + 1);
                    assert(refs_of(me.terms@).contains(ty));
                }
                return true;
            }
            if mutable && (their_refs.contains(&ty) || their_muts.contains(&ty)) {
                proof {
                    lemma_refs_grow(me.terms@, i as int + 1);
                    assert(muts_of(me.terms@).contains(ty));
                }
                return true;
            }
        }
        proof {
            assert(refs_of(nxt) == refs_of(pre).union(term_refs(me.terms@[i as int])));
            assert(muts_of(nxt) == muts_of(pre).union(term_muts(me.terms@[i as int])));
        }
        i = i + 1;
    }
    proof {
        assert(me.terms@.take(me.terms@.len() as int) =~= me.terms@);
    }
    false
}

/// What a prefix of the terms reads or writes, the terms read or write too.
pub proof fn lemma_refs_grow(terms: Seq<QueryTerm>, i: int)
    requires
        0 <= i <= terms.len(),
    ensures
        refs_of(terms.take(i)).subset_of(refs_of(terms)),
        muts_of(terms.take(i)).subset_of(muts_of(terms)),
    decreases terms.len() - i,
{
    if i < terms.len() {
        lemma_refs_grow(terms, i + 1);
        assert(terms.take(i + 1).drop_last() =~= terms.take(i));
    } else {
        assert(terms.take(i) =~= terms);
    }
}

/// The terms of each node.
pub open spec fn node_terms(nodes: Seq<SystemInfo>) -> Seq<Seq<QueryTerm>> {
    Seq::new(nodes.len(), |i: int| nodes[i].terms@)
}

/// The nodes among `lo..hi` that a system with the terms `me` depends on,
/// from the highest down.
pub open spec fn dependencies_between(nodes: Seq<Seq<QueryTerm>>, me: Seq<QueryTerm>, lo: int, hi: int) -> Seq<usize>
    decreases hi - lo,
{
    if lo >= hi {
        Seq::empty()
    } else {
        let rest = dependencies_between(nodes, me, lo + 1, hi);
        if depends_on(me, nodes[lo]) {
            rest.push(lo as usize)
        } else {
            rest
        }
    }
}

/// The nodes listed by `dependencies_between` are exactly those of
/// `lo..hi` that the system depends on, each once.
pub proof fn lemma_dependencies_between(nodes: Seq<Seq<QueryTerm>>, me: Seq<QueryTerm>, lo: int, hi: int)
    requires
        0 <= lo,
        hi <= usize::MAX + 1,
    ensures
        forall|x: usize| #[trigger] dependencies_between(nodes, me, lo, hi).contains(x) <==> (lo <= x < hi
            && depends_on(me, nodes[x as int])),
        dependencies_between(nodes, me, lo, hi).no_duplicates(),
    decreases hi - lo,
{
    if lo < hi {
        lemma_dependencies_between(nodes, me, lo + 1, hi);
        let rest = dependencies_between(nodes, me, lo + 1, hi);
        let all = dependencies_between(nodes, me, lo, hi);
        if depends_on(me, nodes[lo]) {
            assert(!rest.contains(lo as usize));
            assert forall|i: int, j: int| 0 <= i < all.len() && 0 <= j < all.len() && i != j implies all[i] != all[j] by {
                if i < rest.len() && j < rest.len() {
                } else if i < rest.len() {
                    assert(rest.contains(all[i]));
                } else {
                    assert(rest.contains(all[j]));
                }
            }
        }
        assert forall|x: usize| #[trigger] all.contains(x) <==> (lo <= x < hi && depends_on(me, nodes[x as int])) by {
            if depends_on(me, nodes[lo]) {
                if all.contains(x) && x != lo {
                    let i = choose|i: int| 0 <= i < all.len() && all[i] == x;
                    assert(rest[i] == x);
                }
                if rest.contains(x) {
                    let i = choose|i: int| 0 <= i < rest.len() && rest[i] == x;
                    assert(all[i] == x);
                }
                if x == lo {
                    assert(all[all.len() - 1] == x);
                }
            }
        }
    }
}

/// The lists of nodes, as sequences.
pub open spec fn list_views(v: Seq<Vec<usize>>) -> Seq<Seq<usize>> {
    Seq::new(v.len(), |i: int| v[i]@)
}

/// The nodes `n - 1` down to `0`.
pub open spec fn all_nodes(n: nat) -> Seq<usize> {
    Seq::new(n, |i: int| (n - 1 - i) as usize)
}

/// The neighbours of the node `id`: its list, where it has one.
pub open spec fn neighbour_list(neighbours: Seq<Seq<usize>>, id: usize) -> Seq<usize> {
    if id < neighbours.len() {
        neighbours[id as int]
    } else {
        Seq::empty()
    }
}

/// The sets, as sets.
pub open spec fn set_views(v: Seq<HashSet<usize>>) -> Seq<Set<usize>> {
    Seq::new(v.len(), |i: int| v[i]@)
}

/// `x` is the start `s` or one of its neighbours.
pub open spec fn in_group(neighbours: Seq<Seq<usize>>, s: usize, x: usize) -> bool {
    x == s || neighbour_list(neighbours, s).contains(x)
}

/// The group of the start `s` (itself and its neighbours) meets `part` and
/// meets the rest of `whole`.
pub open spec fn group_splits(neighbours: Seq<Seq<usize>>, s: usize, part: Set<usize>, whole: Set<usize>) -> bool {
    &&& exists|x: usize| #[trigger] in_group(neighbours, s, x) && part.contains(x)
    &&& exists|y: usize| #[trigger] in_group(neighbours, s, y) && whole.contains(y) && !part.contains(y)
}

/// Each start lies in a set together with its neighbours, every member of a
/// set is a start or a neighbour of one, and the sets are disjoint.
pub open spec fn components_cover(sets: Seq<Set<usize>>, starts: Seq<usize>, neighbours: Seq<Seq<usize>>) -> bool {
    &&& forall|i: int|
        #![trigger starts[i]]
        0 <= i < starts.len() ==> exists|k: int|
            0 <= k < sets.len() && #[trigger] sets[k].contains(starts[i]) && forall|x: usize|
                #[trigger] neighbour_list(neighbours, starts[i]).contains(x) ==> sets[k].contains(x)
    &&& forall|k: int, x: usize|
        0 <= k < sets.len() && #[trigger] sets[k].contains(x) ==> exists|i: int|
            0 <= i < starts.len() && #[trigger] in_group(neighbours, starts[i], x)
    &&& forall|k1: int, k2: int, x: usize|
        0 <= k1 < sets.len() && 0 <= k2 < sets.len() && k1 != k2 && #[trigger] sets[k1].contains(x)
            ==> !#[trigger] sets[k2].contains(x)
}

/// Each set holds a node, and no set splits into two parts that no group
/// (a start with its neighbours) joins.
#[verifier::opaque]
pub open spec fn components_connected(sets: Seq<Set<usize>>, starts: Seq<usize>, neighbours: Seq<Seq<usize>>) -> bool {
    &&& forall|k: int| #![trigger sets[k]] 0 <= k < sets.len() ==> exists|x: usize| #[trigger] sets[k].contains(x)
    &&& forall|k: int, part: Set<usize>|
        0 <= k < sets.len() && #[trigger] part.subset_of(sets[k]) && (exists|x: usize| #[trigger] part.contains(x))
            && (exists|y: usize| #[trigger] sets[k].contains(y) && !part.contains(y)) ==> exists|i: int|
            0 <= i < starts.len() && #[trigger] group_splits(neighbours, starts[i], part, sets[k])
}

/// A connected set holds a node.
pub proof fn lemma_component_nonempty(sets: Seq<Set<usize>>, starts: Seq<usize>, neighbours: Seq<Seq<usize>>, k: int)
    requires
        components_connected(sets, starts, neighbours),
        0 <= k < sets.len(),
    ensures
        exists|x: usize| #[trigger] sets[k].contains(x),
{
    reveal(components_connected);
    let s = sets[k];
    assert(exists|x: usize| #[trigger] s.contains(x));
}

/// Where a connected set is split into `part` (holding `x`) and the rest
/// (holding `y`), some group meets both.
pub proof fn lemma_component_split(
    sets: Seq<Set<usize>>,
    starts: Seq<usize>,
    neighbours: Seq<Seq<usize>>,
    k: int,
    part: Set<usize>,
    x: usize,
    y: usize,
)
    requires
        components_connected(sets, starts, neighbours),
        0 <= k < sets.len(),
        part.subset_of(sets[k]),
        part.contains(x),
        sets[k].contains(y),
        !part.contains(y),
    ensures
        exists|i: int| 0 <= i < starts.len() && #[trigger] group_splits(neighbours, starts[i], part, sets[k]),
{
    reveal(components_connected);
}

/// The sets are the connected sets of the groups of the starts (each start
/// with its neighbours): they cover the groups, are disjoint, and each is
/// non-empty and connected.
pub open spec fn components_partition(sets: Seq<Set<usize>>, starts: Seq<usize>, neighbours: Seq<Seq<usize>>) -> bool {
    &&& components_cover(sets, starts, neighbours)
    &&& components_connected(sets, starts, neighbours)
}

/// The list of the node `id` in `neighbours`, or none where it has none.
pub fn neighbours_of(neighbours: &Vec<Vec<usize>>, id: usize) -> (r: Vec<usize>)
    ensures
        r@ == neighbour_list(list_views(neighbours@), id),
{
    let mut r: Vec<usize> = Vec::new();
    if id < neighbours.len() {
        let list = &neighbours[id];
        let mut i: usize = 0;
        while i < list.len()
            invariant
                i <= list@.len(),
                r@ == list@.take(i as int),
            decreases list@.len() - i,
        {
            r.push(list[i]);
            proof {
                assert(list@.take(i + 1) =~= list@.take(i as int).push(list@[i as int]));
            }
            i = i + 1;
        }
        proof {
            assert(list@.take(list@.len() as int) =~= list@);
        }
    }
    r
}

/// `pathfinding::prelude::connected_components` on the nodes `starts`, the
/// neighbours of a node being its list in `neighbours`. The crate's source
/// groups each start with its neighbours, merges the groups that share a
/// node, and returns one non-empty set per merged group; its documentation
/// calls them "disjoint connected sets". In which order the sets come
/// follows the crate's hash map walk, which differs between machines, and is
/// left unsaid.
#[verifier::external_body]
fn connected_components(starts: &Vec<usize>, neighbours: &Vec<Vec<usize>>) -> (r: Vec<HashSet<usize>>)
    ensures
        components_partition(set_views(r@), starts@, list_views(neighbours@)),
{
    pathfinding::prelude::connected_components(starts, |id: &usize| neighbours_of(neighbours, *id))
}

/// Some node of `a` is in `b`.
pub open spec fn shares(a: Seq<usize>, b: Seq<usize>) -> bool {
    exists|i: int| 0 <= i < a.len() && b.contains(#[trigger] a[i])
}

/// Whether `list` holds `x`.
pub fn contains_node(list: &Vec<usize>, x: usize) -> (r: bool)
    ensures
        r == list@.contains(x),
{
    let mut i: usize = 0;
    while i < list.len()
        invariant
            i <= list@.len(),
            forall|j: int| 0 <= j < i ==> list@[j] != x,
        decreases list@.len() - i,
    {
        if list[i] == x {
            assert(list@[i as int] == x);
            return true;
        }
        i = i + 1;
    }
    false
}

/// Whether some node of `a` is in `b`.
pub fn shares_node(a: &Vec<usize>, b: &Vec<usize>) -> (r: bool)
    ensures
        r == shares(a@, b@),
{
    let mut i: usize = 0;
    while i < a.len()
        invariant
            i <= a@.len(),
            forall|j: int| 0 <= j < i ==> !b@.contains(#[trigger] a@[j]),
        decreases a@.len() - i,
    {
        if contains_node(b, a[i]) {
            return true;
        }
        i = i + 1;
    }
    false
}

/// The nodes of `0..n` that `set` holds, in increasing order.
pub open spec fn members(set: Set<usize>, n: nat) -> Seq<usize>
    decreases n,
{
    if n == 0 {
        Seq::empty()
    } else {
        let m = members(set, (n - 1) as nat);
        if set.contains((n - 1) as usize) {
            m.push((n - 1) as usize)
        } else {
            m
        }
    }
}

/// The rounds in which the nodes `ids` run, taken in their order: a node
/// joins the round being formed, unless one of the nodes of that round is
/// among its neighbours, in which case it opens the next round.
pub open spec fn rounds(ids: Seq<usize>, neighbours: Seq<Seq<usize>>) -> Seq<Seq<usize>>
    decreases ids.len(),
{
    if ids.len() == 0 {
        Seq::empty()
    } else {
        let prev = rounds(ids.drop_last(), neighbours);
        let x = ids.last();
        if prev.len() > 0 && !shares(prev.last(), neighbour_list(neighbours, x)) {
            prev.update(prev.len() - 1, prev.last().push(x))
        } else {
            prev.push(seq![x])
        }
    }
}

/// The rounds one after the other.
pub open spec fn concat(rs: Seq<Seq<usize>>) -> Seq<usize>
    decreases rs.len(),
{
    if rs.len() == 0 {
        Seq::empty()
    } else {
        concat(rs.drop_last()) + rs.last()
    }
}

/// The nodes of `0..n` that `set` holds, in increasing order.
pub fn members_of(set: &HashSet<usize>, n: usize) -> (r: Vec<usize>)
    ensures
        r@ == members(set@, n as nat),
{
    broadcast use vstd::std_specs::hash::group_hash_axioms;

    let mut r: Vec<usize> = Vec::new();
    let mut id: usize = 0;
    while id < n
        invariant
            id <= n,
            r@ == members(set@, id as nat),
        decreases n - id,
    {
        if set.contains(&id) {
            r.push(id);
        }
        id = id + 1;
    }
    r
}

/// The rounds in which the nodes `ids` run, each node's dependencies being
/// its list in `dependencies`.
pub fn rounds_of(ids: &Vec<usize>, dependencies: &Vec<Vec<usize>>) -> (r: Vec<Vec<usize>>)
    ensures
        list_views(r@) == rounds(ids@, list_views(dependencies@)),
{
    let ghost ns = list_views(dependencies@);
    let mut done: Vec<Vec<usize>> = Vec::new();
    let mut current: Vec<usize> = Vec::new();
    let mut i: usize = 0;
    proof {
        assert(ids@.take(0) =~= Seq::<usize>::empty());
    }
    while i < ids.len()
        invariant
            i <= ids@.len(),
            ns == list_views(dependencies@),
            i == 0 ==> done@.len() == 0,
            rounds(ids@.take(i as int), ns) == if i == 0 {
                Seq::<Seq<usize>>::empty()
            } else {
                list_views(done@).push(current@)
            },
        decreases ids@.len() - i,
    {
        let ghost prev = rounds(ids@.take(i as int), ns);
        let x = ids[i];
        proof {
            assert(ids@.take(i + 1).drop_last() =~= ids@.take(i as int));
            assert(ids@.take(i + 1).last() == x);
        }
        let deps = neighbours_of(dependencies, x);
        if i > 0 && !shares_node(&current, &deps) {
            current.push(x);
            proof {
                assert(list_views(done@).push(current@) =~= prev.update(prev.len() - 1, prev.last().push(x)));
            }
        } else {
            let ghost old_done = done@;
            let ghost old_current = current@;
            if i > 0 {
                done.push(current);
                proof {
                    assert(list_views(done@) =~= list_views(old_done).push(old_current));
                }
            }
            current = Vec::new();
            current.push(x);
            proof {
                assert(current@ =~= seq![x]);
                if i == 0 {
                    assert(list_views(done@) =~= Seq::<Seq<usize>>::empty());
                }
                assert(list_views(done@).push(current@) =~= prev.push(seq![x]));
            }
        }
        i = i + 1;
    }
    if i > 0 {
        let ghost old_done = done@;
        done.push(current);
        proof {
            assert(list_views(done@) =~= list_views(old_done).push(current@));
        }
    }
    proof {
        assert(ids@.take(ids@.len() as int) =~= ids@);
        if i == 0 {
            assert(list_views(done@) =~= Seq::<Seq<usize>>::empty());
        }
    }
    done
}

/// The dependency graph of the systems: for each one, the earlier systems it
/// must not run beside, and the sets of systems that depend on each other.
pub struct Graph {
    pub nodes: Vec<SystemInfo>,
    pub dependencies: Vec<Vec<usize>>,
    pub connected_sets: Vec<HashSet<usize>>,
}

impl Graph {
    /// Each node lists the earlier nodes it depends on, from the highest
    /// down, and the connected sets are the connected sets of the nodes
    /// joined to their dependencies, in some order.
    pub open spec fn wf(&self) -> bool {
        &&& self.nodes@.len() <= usize::MAX
        &&& self.dependencies@.len() == self.nodes@.len()
        &&& forall|i: int|
            0 <= i < self.nodes@.len() ==> (#[trigger] self.dependencies@[i])@ == dependencies_between(
                node_terms(self.nodes@),
                self.nodes@[i].terms@,
                0,
                i,
            )
        &&& components_partition(set_views(self.connected_sets@), all_nodes(self.nodes@.len()), list_views(self.dependencies@))
    }

    /// A graph without nodes, dependencies or connected sets.
    pub fn new() -> (r: Graph)
        ensures
            r.wf(),
            r.nodes@.len() == 0,
            r.dependencies@.len() == 0,
            r.connected_sets@.len() == 0,
    {
        let r = Graph { nodes: Vec::new(), dependencies: Vec::new(), connected_sets: Vec::new() };
        proof {
            assert(set_views(r.connected_sets@) =~= Seq::<Set<usize>>::empty());
            reveal(components_connected);
        }
        r
    }

    /// Each node depends only on earlier nodes.
    pub proof fn lemma_points_below(&self)
        requires
            self.wf(),
        ensures
            forall|i: int, x: usize| 0 <= i < self.nodes@.len() && #[trigger] self.dependencies@[i]@.contains(x) ==> x < i,
    {
        assert forall|i: int, x: usize| 0 <= i < self.nodes@.len() && #[trigger] self.dependencies@[i]@.contains(x) implies x < i by {
            lemma_dependencies_between(node_terms(self.nodes@), self.nodes@[i].terms@, 0, i);
        }
    }

    /// Splits the nodes into connected sets: the starts are the nodes from
    /// the last one down, as long as none depends on a start already taken;
    /// the sets join each start with the nodes it depends on.
    fn connected_sets(&mut self)
        requires
            old(self).dependencies@.len() == old(self).nodes@.len(),
            forall|i: int, x: usize| 0 <= i < old(self).nodes@.len() && #[trigger] old(self).dependencies@[i]@.contains(x) ==> x < i,
        ensures
            final(self).nodes == old(self).nodes,
            final(self).dependencies == old(self).dependencies,
            components_partition(
                set_views(final(self).connected_sets@),
                all_nodes(old(self).nodes@.len()),
                list_views(old(self).dependencies@),
            ),
    {
        let n = self.nodes.len();
        let mut starts: Vec<usize> = Vec::new();
        let mut node: usize = n;
        proof {
            assert(all_nodes(n as nat).take(0) =~= Seq::<usize>::empty());
        }
        while node > 0
            invariant
                node <= n,
                n == self.nodes@.len(),
                self.dependencies@.len() == n,
                forall|i: int, x: usize| 0 <= i < n && #[trigger] self.dependencies@[i]@.contains(x) ==> x < i,
                starts@ == all_nodes(n as nat).take(n - node),
            ensures
                starts@ == all_nodes(n as nat),
            decreases node,
        {
            node = node - 1;
            proof {
                assert forall|j: int| 0 <= j < self.dependencies@[node as int]@.len() implies !starts@.contains(
                    #[trigger] self.dependencies@[node as int]@[j],
                ) by {
                    let x = self.dependencies@[node as int]@[j];
                    assert(self.dependencies@[node as int]@.contains(x));
                    if starts@.contains(x) {
                        let q = choose|q: int| 0 <= q < starts@.len() && starts@[q] == x;
                        assert(starts@[q] == all_nodes(n as nat)[q]);
                    }
                }
            }
            if shares_node(&self.dependencies[node], &starts) {
                break;
            }
            starts.push(node);
            proof {
                assert(starts@ =~= all_nodes(n as nat).take(n - node));
            }
        }
        proof {
            assert(all_nodes(n as nat).take(n as int) =~= all_nodes(n as nat));
        }
        self.connected_sets = connected_components(&starts, &self.dependencies);
    }

    /// The rounds in which the nodes of the connected set `k` run, taken in
    /// increasing order.
    pub open spec fn set_rounds(&self, k: int) -> Seq<Seq<usize>> {
        rounds(members(self.connected_sets@[k]@, self.nodes@.len()), list_views(self.dependencies@))
    }

    /// The connected set that holds the node `id`.
    pub open spec fn set_index(&self, id: usize) -> int {
        choose|k: int| 0 <= k < self.connected_sets@.len() && self.connected_sets@[k]@.contains(id)
    }

    /// Each node lies in exactly one connected set, and so does every node
    /// it depends on.
    pub proof fn lemma_sets_partition(&self)
        requires
            self.wf(),
        ensures
            forall|id: usize|
                id < self.nodes@.len() ==> {
                    let k = #[trigger] self.set_index(id);
                    0 <= k < self.connected_sets@.len() && self.connected_sets@[k]@.contains(id)
                },
            forall|id: usize, k: int|
                0 <= k < self.connected_sets@.len() && id < self.nodes@.len() && #[trigger] self.connected_sets@[k]@.contains(id)
                    ==> k == self.set_index(id),
            forall|i: usize, x: usize|
                i < self.nodes@.len() && #[trigger] self.dependencies@[i as int]@.contains(x) ==> x < i
                    && self.set_index(x) == self.set_index(i),
    {
        let n = self.nodes@.len();
        let sets = set_views(self.connected_sets@);
        let starts = all_nodes(n);
        let ns = list_views(self.dependencies@);
        self.lemma_points_below();
        assert forall|id: usize| id < n implies {
            let k = #[trigger] self.set_index(id);
            0 <= k < self.connected_sets@.len() && self.connected_sets@[k]@.contains(id)
        } by {
            let i = n - 1 - id;
            assert(starts[i] == id);
            let k = choose|k: int| 0 <= k < sets.len() && #[trigger] sets[k].contains(starts[i]) && forall|x: usize|
                #[trigger] neighbour_list(ns, starts[i]).contains(x) ==> sets[k].contains(x);
            assert(self.connected_sets@[k]@.contains(id));
        }
        assert forall|id: usize, k: int|
            0 <= k < self.connected_sets@.len() && id < n && #[trigger] self.connected_sets@[k]@.contains(id) implies k
                == self.set_index(id) by {
            let j = self.set_index(id);
            assert(sets[j].contains(id));
            assert(sets[k].contains(id));
        }
        assert forall|i: usize, x: usize| i < n && #[trigger] self.dependencies@[i as int]@.contains(x) implies x < i
            && self.set_index(x) == self.set_index(i) by {
            let q = n - 1 - i;
            assert(starts[q] == i);
            let k = choose|k: int| 0 <= k < sets.len() && #[trigger] sets[k].contains(starts[q]) && forall|y: usize|
                #[trigger] neighbour_list(ns, starts[q]).contains(y) ==> sets[k].contains(y);
            assert(neighbour_list(ns, i) == self.dependencies@[i as int]@);
            assert(neighbour_list(ns, i).contains(x));
            assert(sets[k].contains(x));
            let ki = self.set_index(i);
            let kx = self.set_index(x);
            assert(sets[ki].contains(i));
            assert(sets[kx].contains(x));
        }
    }

    /// The connected set `k` holds a node.
    pub open spec fn holds_node(&self, k: int) -> bool {
        exists|x: usize| #[trigger] self.connected_sets@[k]@.contains(x)
    }

    /// Every connected set holds a node, and only nodes of the graph.
    #[verifier::spinoff_prover]
    pub proof fn lemma_sets_hold_nodes(&self)
        requires
            self.wf(),
        ensures
            forall|k: int|
                0 <= k < self.connected_sets@.len() ==> #[trigger] self.holds_node(k),
            forall|k: int, x: usize|
                0 <= k < self.connected_sets@.len() && #[trigger] self.connected_sets@[k]@.contains(x) ==> x
                    < self.nodes@.len(),
    {
        let n = self.nodes@.len();
        let sets = set_views(self.connected_sets@);
        let starts = all_nodes(n);
        let ns = list_views(self.dependencies@);
        self.lemma_points_below();
        assert forall|k: int| 0 <= k < self.connected_sets@.len() implies #[trigger] self.holds_node(k) by {
            assert(sets[k] == self.connected_sets@[k]@);
            lemma_component_nonempty(sets, starts, ns, k);
            let x = choose|x: usize| #[trigger] sets[k].contains(x);
            assert(self.connected_sets@[k]@.contains(x));
        }
        assert forall|k: int, x: usize|
            0 <= k < self.connected_sets@.len() && #[trigger] self.connected_sets@[k]@.contains(x) implies x < n by {
            assert(sets[k].contains(x));
            let i = choose|i: int| 0 <= i < starts.len() && #[trigger] in_group(ns, starts[i], x);
            let s = starts[i];
            if x != s {
                assert(ns[s as int] == self.dependencies@[s as int]@);
                assert(self.dependencies@[s as int]@.contains(x));
            }
        }
    }

    /// A node that depends on no node, and that no node depends on, has a
    /// connected set to itself.
    #[verifier::spinoff_prover]
    pub proof fn lemma_isolated_alone(&self, id: usize)
        requires
            self.wf(),
            id < self.nodes@.len(),
            self.dependencies@[id as int]@.len() == 0,
            forall|i: int| 0 <= i < self.nodes@.len() ==> !(#[trigger] self.dependencies@[i])@.contains(id),
        ensures
            0 <= self.set_index(id) < self.connected_sets@.len(),
            self.connected_sets@[self.set_index(id)]@ == set![id],
    {
        let n = self.nodes@.len();
        let sets = set_views(self.connected_sets@);
        let starts = all_nodes(n);
        let ns = list_views(self.dependencies@);
        self.lemma_sets_partition();
        let k = self.set_index(id);
        assert(sets[k] == self.connected_sets@[k]@);
        assert forall|y: usize| #[trigger] sets[k].contains(y) implies y == id by {
            if y != id {
                let part = set![id];
                assert(part.subset_of(sets[k]));
                assert(part.contains(id));
                assert(sets[k].contains(y) && !part.contains(y));
                lemma_component_split(sets, starts, ns, k, part, id, y);
                let i = choose|i: int| 0 <= i < starts.len() && #[trigger] group_splits(ns, starts[i], part, sets[k]);
                let s = starts[i];
                assert(s < n);
                assert(ns[s as int] == self.dependencies@[s as int]@);
                let x = choose|x: usize| #[trigger] in_group(ns, s, x) && part.contains(x);
                assert(x == id);
                if s == id {
                    let z = choose|z: usize| #[trigger] in_group(ns, s, z) && sets[k].contains(z) && !part.contains(z);
                    assert(self.dependencies@[id as int]@.contains(z));
                } else {
                    assert(self.dependencies@[s as int]@.contains(id));
                }
            }
        }
        assert(sets[k] =~= set![id]);
    }

    /// In the plan of a run, the rounds of a connected set hold each of its
    /// nodes once, in increasing order, and a node runs in a later round
    /// than every node of its set that it depends on.
    pub proof fn lemma_plan_order(&self)
        requires
            self.wf(),
        ensures
            forall|k: int|
                0 <= k < self.connected_sets@.len() ==> concat(#[trigger] self.set_rounds(k)) == members(
                    self.connected_sets@[k]@,
                    self.nodes@.len(),
                ),
            forall|k: int, p: int, a: int, q: int, b: int|
                0 <= k < self.connected_sets@.len() && 0 <= p < self.set_rounds(k).len() && 0 <= a
                    < self.set_rounds(k)[p].len() && 0 <= q < self.set_rounds(k).len() && 0 <= b
                    < self.set_rounds(k)[q].len() && (#[trigger] self.dependencies@[self.set_rounds(
                    k,
                )[q][b] as int])@.contains(#[trigger] self.set_rounds(k)[p][a]) ==> p < q,
    {
        let n = self.nodes@.len();
        let ns = list_views(self.dependencies@);
        self.lemma_points_below();
        assert(points_below(ns)) by {
            assert forall|x: usize, y: usize| #[trigger] neighbour_list(ns, x).contains(y) implies y < x by {
                if x < n {
                    assert(ns[x as int] == self.dependencies@[x as int]@);
                }
            }
        }
        assert forall|k: int| 0 <= k < self.connected_sets@.len() implies concat(#[trigger] self.set_rounds(k)) == members(
            self.connected_sets@[k]@,
            n,
        ) by {
            lemma_rounds_concat(members(self.connected_sets@[k]@, n), ns);
        }
        assert forall|k: int, p: int, a: int, q: int, b: int|
            0 <= k < self.connected_sets@.len() && 0 <= p < self.set_rounds(k).len() && 0 <= a
                < self.set_rounds(k)[p].len() && 0 <= q < self.set_rounds(k).len() && 0 <= b
                < self.set_rounds(k)[q].len() && (#[trigger] self.dependencies@[self.set_rounds(
                k,
            )[q][b] as int])@.contains(#[trigger] self.set_rounds(k)[p][a]) implies p < q by {
            let ids = members(self.connected_sets@[k]@, n);
            lemma_members(self.connected_sets@[k]@, n);
            lemma_rounds_shape(ids, ns);
            lemma_rounds_after_dependencies(ids, ns);
            let r = self.set_rounds(k);
            assert(ids.contains(r[q][b]));
            assert(r[q][b] < n);
            assert(neighbour_list(ns, r[q][b]) == self.dependencies@[r[q][b] as int]@);
            assert(neighbour_list(ns, r[q][b]).contains(r[p][a]));
        }
    }

    /// The plan of a run: for each connected set, in order, the rounds in
    /// which its nodes run, taken in increasing order.
    pub fn plan(&self) -> (r: Vec<Vec<Vec<usize>>>)
        requires
            self.wf(),
        ensures
            r@.len() == self.connected_sets@.len(),
            forall|k: int| 0 <= k < r@.len() ==> list_views(#[trigger] r@[k]@) == self.set_rounds(k),
    {
        let n = self.nodes.len();
        let mut r: Vec<Vec<Vec<usize>>> = Vec::new();
        let mut k: usize = 0;
        while k < self.connected_sets.len()
            invariant
                k <= self.connected_sets@.len(),
                n == self.nodes@.len(),
                r@.len() == k,
                forall|j: int| 0 <= j < k ==> list_views(#[trigger] r@[j]@) == self.set_rounds(j),
            decreases self.connected_sets@.len() - k,
        {
            let ids = members_of(&self.connected_sets[k], n);
            let rs = rounds_of(&ids, &self.dependencies);
            r.push(rs);
            k = k + 1;
        }
        r
    }

    /// Adds a system: it depends on each earlier system that writes what it
    /// reads or reads or writes what it writes.
    #[verifier::spinoff_prover]
    pub fn add(&mut self, node: SystemInfo)
        requires
            old(self).wf(),
            old(self).nodes@.len() < usize::MAX,
        ensures
            final(self).wf(),
            final(self).nodes@ == old(self).nodes@.push(node),
            final(self).dependencies@.drop_last() == old(self).dependencies@,
    {
        let ghost old_self = *self;
        let my_id = self.nodes.len();
        self.nodes.push(node);
        let ghost terms = node_terms(self.nodes@);
        proof {
            assert forall|i: int| 0 <= i < my_id implies #[trigger] terms[i] == node_terms(old_self.nodes@)[i] by {}
            assert forall|i: int| 0 <= i < my_id implies
                dependencies_between(terms, self.nodes@[i].terms@, 0, i) == dependencies_between(node_terms(old_self.nodes@), self.nodes@[i].terms@, 0, i) by {
                lemma_dependencies_between_frame(terms, node_terms(old_self.nodes@), self.nodes@[i].terms@, 0, i);
            }
        }
        let mut dependencies: Vec<usize> = Vec::new();
        let mut their_id: usize = my_id;
        while their_id > 0
            invariant
                their_id <= my_id,
                my_id < self.nodes@.len(),
                terms == node_terms(self.nodes@),
                dependencies@ == dependencies_between(terms, self.nodes@[my_id as int].terms@, their_id as int, my_id as int),
            decreases their_id,
        {
            their_id = their_id - 1;
            if depends(&self.nodes[my_id], &self.nodes[their_id]) {
                dependencies.push(their_id);
            }
        }
        self.dependencies.push(dependencies);
        proof {
            assert(self.dependencies@.drop_last() =~= old_self.dependencies@);
            assert forall|i: int| 0 <= i < self.nodes@.len() implies (#[trigger] self.dependencies@[i])@
                == dependencies_between(node_terms(self.nodes@), self.nodes@[i].terms@, 0, i) by {
                if i < my_id {
                    assert(self.dependencies@[i] == old_self.dependencies@[i]);
                }
            }
            assert forall|i: int, x: usize| 0 <= i < self.nodes@.len() && #[trigger] self.dependencies@[i]@.contains(x) implies x < i by {
                lemma_dependencies_between(node_terms(self.nodes@), self.nodes@[i].terms@, 0, i);
            }
        }
        self.connected_sets();
    }
}

/// Runs systems: each one joins the dependency graph as it is added, and a
/// run follows the graph's plan.
pub struct Scheduler {
    pub graph: Graph,
}

impl Scheduler {
    /// A scheduler without systems.
    pub fn new() -> (r: Scheduler)
        ensures
            r.graph.wf(),
            r.graph.nodes@.len() == 0,
    {
        Scheduler { graph: Graph::new() }
    }

    /// Adds a system whose query has the terms `terms` and that runs over
    /// its items one after the other.
    pub fn add_seq(&mut self, terms: Vec<QueryTerm>)
        requires
            old(self).graph.wf(),
            old(self).graph.nodes@.len() < usize::MAX,
        ensures
            final(self).graph.wf(),
            final(self).graph.nodes@ == old(self).graph.nodes@.push((SystemInfo { terms, execution: Execution::Sequential })),
            final(self).graph.dependencies@.drop_last() == old(self).graph.dependencies@,
    {
        self.graph.add(SystemInfo { terms, execution: Execution::Sequential });
    }

    /// Adds a system whose query has the terms `terms` and that runs over
    /// its items in parallel.
    pub fn add_par(&mut self, terms: Vec<QueryTerm>)
        requires
            old(self).graph.wf(),
            old(self).graph.nodes@.len() < usize::MAX,
        ensures
            final(self).graph.wf(),
            final(self).graph.nodes@ == old(self).graph.nodes@.push((SystemInfo { terms, execution: Execution::Parallel })),
            final(self).graph.dependencies@.drop_last() == old(self).graph.dependencies@,
    {
        self.graph.add(SystemInfo { terms, execution: Execution::Parallel });
    }

    /// Adds a system whose query has the terms `terms` and that runs each of
    /// its items as a task of its own.
    pub fn add_async(&mut self, terms: Vec<QueryTerm>)
        requires
            old(self).graph.wf(),
            old(self).graph.nodes@.len() < usize::MAX,
        ensures
            final(self).graph.wf(),
            final(self).graph.nodes@ == old(self).graph.nodes@.push((SystemInfo { terms, execution: Execution::Async })),
            final(self).graph.dependencies@.drop_last() == old(self).graph.dependencies@,
    {
        self.graph.add(SystemInfo { terms, execution: Execution::Async });
    }
}

/// `dependencies_between` reads only the nodes of `lo..hi`.
pub proof fn lemma_dependencies_between_frame(a: Seq<Seq<QueryTerm>>, b: Seq<Seq<QueryTerm>>, me: Seq<QueryTerm>, lo: int, hi: int)
    requires
        forall|i: int| lo <= i < hi ==> a[i] == b[i],
    ensures
        dependencies_between(a, me, lo, hi) == dependencies_between(b, me, lo, hi),
    decreases hi - lo,
{
    if lo < hi {
        lemma_dependencies_between_frame(a, b, me, lo + 1, hi);
    }
}

/// The nodes are in increasing order.
pub open spec fn increasing(ids: Seq<usize>) -> bool {
    forall|i: int, j: int| 0 <= i < j < ids.len() ==> #[trigger] ids[i] < #[trigger] ids[j]
}

/// Each node's neighbours come before it.
pub open spec fn points_below(neighbours: Seq<Seq<usize>>) -> bool {
    forall|x: usize, y: usize| #[trigger] neighbour_list(neighbours, x).contains(y) ==> y < x
}

/// The members of a set among `0..n` are in increasing order, and are the
/// nodes below `n` that the set holds.
pub proof fn lemma_members(set: Set<usize>, n: nat)
    requires
        n <= usize::MAX + 1,
    ensures
        increasing(members(set, n)),
        forall|x: usize| #[trigger] members(set, n).contains(x) <==> (x < n && set.contains(x)),
    decreases n,
{
    if n > 0 {
        lemma_members(set, (n - 1) as nat);
        let m = members(set, (n - 1) as nat);
        let x = (n - 1) as usize;
        if set.contains(x) {
            let r = m.push(x);
            assert forall|i: int, j: int| 0 <= i < j < r.len() implies #[trigger] r[i] < #[trigger] r[j] by {
                if j == r.len() - 1 {
                    assert(m.contains(r[i]));
                }
            }
            assert forall|y: usize| #[trigger] r.contains(y) <==> (y < n && set.contains(y)) by {
                if r.contains(y) && y != x {
                    let i = choose|i: int| 0 <= i < r.len() && r[i] == y;
                    assert(m[i] == y);
                    assert(m.contains(y));
                }
                if y < n && set.contains(y) && y != x {
                    assert(m.contains(y));
                    let i = choose|i: int| 0 <= i < m.len() && m[i] == y;
                    assert(r[i] == y);
                }
                if y == x {
                    assert(r[r.len() - 1] == y);
                }
            }
        }
    }
}

/// Taken one after the other, the rounds are the nodes in their order.
pub proof fn lemma_rounds_concat(ids: Seq<usize>, neighbours: Seq<Seq<usize>>)
    ensures
        concat(rounds(ids, neighbours)) == ids,
    decreases ids.len(),
{
    if ids.len() > 0 {
        let f = ids.drop_last();
        lemma_rounds_concat(f, neighbours);
        let prev = rounds(f, neighbours);
        let x = ids.last();
        let r = rounds(ids, neighbours);
        if prev.len() > 0 && !shares(prev.last(), neighbour_list(neighbours, x)) {
            assert(r.drop_last() =~= prev.drop_last());
            assert(concat(r) =~= concat(prev.drop_last()) + prev.last().push(x));
            assert(concat(prev) =~= concat(prev.drop_last()) + prev.last());
            assert(concat(r) =~= concat(prev).push(x));
        } else {
            assert(r.drop_last() =~= prev);
            assert(concat(r) =~= concat(prev) + seq![x]);
        }
        assert(f.push(x) =~= ids);
    }
}

/// Every round holds a node; the nodes go up within a round and from one
/// round to the next; no node of a round is among the neighbours of a later
/// node of that round; and every node is one of `ids`.
pub open spec fn rounds_shape(r: Seq<Seq<usize>>, ids: Seq<usize>, neighbours: Seq<Seq<usize>>) -> bool {
    &&& forall|p: int| 0 <= p < r.len() ==> #[trigger] r[p].len() > 0
    &&& forall|p: int, a: int, b: int|
        0 <= p < r.len() && 0 <= a < b < r[p].len() ==> #[trigger] r[p][a] < #[trigger] r[p][b]
    &&& forall|p: int, q: int, a: int, b: int|
        0 <= p < q < r.len() && 0 <= a < r[p].len() && 0 <= b < r[q].len() ==> #[trigger] r[p][a]
            < #[trigger] r[q][b]
    &&& forall|p: int, a: int, b: int|
        0 <= p < r.len() && 0 <= a < b < r[p].len() ==> !neighbour_list(neighbours, #[trigger] r[p][b]).contains(
            #[trigger] r[p][a],
        )
    &&& forall|p: int, a: int| 0 <= p < r.len() && 0 <= a < r[p].len() ==> ids.contains(#[trigger] r[p][a])
}

/// The rounds of nodes in increasing order have that shape.
pub proof fn lemma_rounds_shape(ids: Seq<usize>, neighbours: Seq<Seq<usize>>)
    requires
        increasing(ids),
    ensures
        rounds_shape(rounds(ids, neighbours), ids, neighbours),
    decreases ids.len(),
{
    if ids.len() > 0 {
        let f = ids.drop_last();
        assert(increasing(f));
        lemma_rounds_shape(f, neighbours);
        let prev = rounds(f, neighbours);
        let x = ids.last();
        let r = rounds(ids, neighbours);
        assert forall|p: int, a: int| 0 <= p < prev.len() && 0 <= a < prev[p].len() implies #[trigger] prev[p][a] < x by {
            assert(f.contains(prev[p][a]));
            let i = choose|i: int| 0 <= i < f.len() && f[i] == prev[p][a];
            assert(ids[i] < ids[ids.len() - 1]);
        }
        assert forall|p: int, a: int| 0 <= p < prev.len() && 0 <= a < prev[p].len() implies ids.contains(#[trigger] prev[p][a]) by {
            assert(f.contains(prev[p][a]));
            let i = choose|i: int| 0 <= i < f.len() && f[i] == prev[p][a];
            assert(ids[i] == prev[p][a]);
        }
        assert(ids[ids.len() - 1] == x);
        if prev.len() > 0 && !shares(prev.last(), neighbour_list(neighbours, x)) {
            let l = prev.len() - 1;
            assert forall|p: int, a: int, b: int|
                0 <= p < r.len() && 0 <= a < b < r[p].len() implies !neighbour_list(neighbours, #[trigger] r[p][b]).contains(
                #[trigger] r[p][a],
            ) by {
                if p == l && b == r[p].len() - 1 {
                    assert(r[p][a] == prev.last()[a]);
                    if neighbour_list(neighbours, x).contains(prev.last()[a]) {
                        assert(shares(prev.last(), neighbour_list(neighbours, x)));
                    }
                } else {
                    assert(r[p][a] == prev[p][a]);
                    assert(r[p][b] == prev[p][b]);
                }
            }
            assert forall|p: int, a: int, b: int|
                0 <= p < r.len() && 0 <= a < b < r[p].len() implies #[trigger] r[p][a] < #[trigger] r[p][b] by {
                if p == l && b == r[p].len() - 1 {
                    assert(r[p][a] == prev[p][a]);
                } else {
                    assert(r[p][a] == prev[p][a]);
                    assert(r[p][b] == prev[p][b]);
                }
            }
            assert forall|p: int, q: int, a: int, b: int|
                0 <= p < q < r.len() && 0 <= a < r[p].len() && 0 <= b < r[q].len() implies #[trigger] r[p][a]
                < #[trigger] r[q][b] by {
                assert(r[p][a] == prev[p][a]);
                if q == l && b == r[q].len() - 1 {
                } else {
                    assert(r[q][b] == prev[q][b]);
                }
            }
            assert forall|p: int, a: int| 0 <= p < r.len() && 0 <= a < r[p].len() implies ids.contains(#[trigger] r[p][a]) by {
                if p == l && a == r[p].len() - 1 {
                    assert(r[p][a] == x);
                } else {
                    assert(r[p][a] == prev[p][a]);
                }
            }
        } else {
            let l = prev.len() as int;
            assert forall|p: int, a: int, b: int|
                0 <= p < r.len() && 0 <= a < b < r[p].len() implies !neighbour_list(neighbours, #[trigger] r[p][b]).contains(
                #[trigger] r[p][a],
            ) by {
                assert(p < l);
                assert(r[p] == prev[p]);
            }
            assert forall|p: int, a: int, b: int|
                0 <= p < r.len() && 0 <= a < b < r[p].len() implies #[trigger] r[p][a] < #[trigger] r[p][b] by {
                assert(p < l);
                assert(r[p] == prev[p]);
            }
            assert forall|p: int, q: int, a: int, b: int|
                0 <= p < q < r.len() && 0 <= a < r[p].len() && 0 <= b < r[q].len() implies #[trigger] r[p][a]
                < #[trigger] r[q][b] by {
                assert(r[p] == prev[p]);
                if q < l {
                    assert(r[q] == prev[q]);
                } else {
                    assert(r[q][b] == x);
                }
            }
            assert forall|p: int, a: int| 0 <= p < r.len() && 0 <= a < r[p].len() implies ids.contains(#[trigger] r[p][a]) by {
                if p == l {
                    assert(r[p][a] == x);
                } else {
                    assert(r[p] == prev[p]);
                }
            }
        }
    }
}

/// A node runs in a later round than each node of its rounds among its
/// neighbours: where the neighbours are earlier nodes, no node shares a
/// round with one it depends on, nor comes before it.
pub proof fn lemma_rounds_after_dependencies(ids: Seq<usize>, neighbours: Seq<Seq<usize>>)
    requires
        increasing(ids),
        points_below(neighbours),
    ensures
        forall|p: int, a: int, q: int, b: int|
            0 <= p < rounds(ids, neighbours).len() && 0 <= a < rounds(ids, neighbours)[p].len() && 0 <= q
                < rounds(ids, neighbours).len() && 0 <= b < rounds(ids, neighbours)[q].len()
                && neighbour_list(neighbours, #[trigger] rounds(ids, neighbours)[q][b]).contains(
                #[trigger] rounds(ids, neighbours)[p][a],
            ) ==> p < q,
{
    lemma_rounds_shape(ids, neighbours);
    let r = rounds(ids, neighbours);
    assert forall|p: int, a: int, q: int, b: int|
        0 <= p < r.len() && 0 <= a < r[p].len() && 0 <= q < r.len() && 0 <= b < r[q].len()
            && neighbour_list(neighbours, #[trigger] r[q][b]).contains(#[trigger] r[p][a]) implies p < q by {
        assert(r[p][a] < r[q][b]);
        if p == q {
            if a > b {
                assert(r[q][b] < r[p][a]);
            }
        } else if p > q {
            assert(r[q][b] < r[p][a]);
        }
    }
}

} // verus!
