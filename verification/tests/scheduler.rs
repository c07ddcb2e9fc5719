use band::archetype::{ArchetypeInfo, ArchetypeState};
use band::query::{mut_deps, ref_deps, QueryTerm};
use band::scheduler::{depends, rounds_of, Execution, Graph, Scheduler, SystemInfo};
use std::collections::HashSet;

fn info(id: u64) -> ArchetypeInfo {
    ArchetypeInfo { ty: id, size: 4, name: "C", state: ArchetypeState::Component }
}

fn reads(id: u64) -> QueryTerm {
    QueryTerm::Component { info: info(id), mutable: false }
}

fn writes(id: u64) -> QueryTerm {
    QueryTerm::Component { info: info(id), mutable: true }
}

fn system(terms: Vec<QueryTerm>) -> SystemInfo {
    SystemInfo { terms, execution: Execution::Parallel }
}

fn set_of(ids: &[usize]) -> HashSet<usize> {
    ids.iter().copied().collect()
}

/// Three systems over swapped component pairs: the first swaps
/// two components, the second and third each swap one of a shared pair.
fn three_systems() -> Scheduler {
    let mut s = Scheduler::new();
    s.add_par(vec![QueryTerm::Entity, writes(1), writes(2)]);
    s.add_par(vec![QueryTerm::Entity, writes(3), writes(4)]);
    s.add_par(vec![QueryTerm::Entity, writes(3), writes(5)]);
    s
}

#[test]
fn deps_of_terms() {
    let terms = vec![
        reads(1),
        writes(2),
        QueryTerm::Entity,
        QueryTerm::Without { info: info(3) },
        QueryTerm::OptionalComponent { info: info(4), mutable: true },
        QueryTerm::Resource { info: info(5), mutable: false },
        QueryTerm::OptionalResource { info: info(6), mutable: true },
        QueryTerm::Commands,
    ];
    let mut expected_refs = HashSet::new();
    for id in [1u64, 2, 4, 5, 6] {
        expected_refs.insert(id);
    }
    let mut expected_muts = HashSet::new();
    for id in [2u64, 4, 6] {
        expected_muts.insert(id);
    }
    assert_eq!(ref_deps(&terms), expected_refs);
    assert_eq!(mut_deps(&terms), expected_muts);
}

#[test]
fn readers_do_not_depend_on_each_other() {
    let a = system(vec![reads(1)]);
    let b = system(vec![reads(1), reads(2)]);
    assert!(!depends(&a, &b));
    assert!(!depends(&b, &a));
}

#[test]
fn reader_and_writer_depend_both_ways() {
    let a = system(vec![reads(1)]);
    let b = system(vec![writes(1)]);
    assert!(depends(&a, &b));
    assert!(depends(&b, &a));
    let c = system(vec![writes(1)]);
    assert!(depends(&b, &c));
    let d = system(vec![writes(2), QueryTerm::Entity]);
    assert!(!depends(&b, &d));
}

#[test]
fn graph_lists_dependencies_from_the_highest_down() {
    let mut g = Graph::new();
    g.add(system(vec![writes(1)]));
    g.add(system(vec![reads(2)]));
    g.add(system(vec![reads(1), writes(2)]));
    assert_eq!(g.dependencies, vec![vec![], vec![], vec![1, 0]]);
}

#[test]
fn scheduler_groups_dependent_systems() {
    let s = three_systems();
    assert_eq!(s.graph.nodes.len(), 3);
    assert_eq!(s.graph.dependencies, vec![vec![], vec![], vec![1]]);
    let sets = &s.graph.connected_sets;
    assert_eq!(sets.len(), 2);
    assert!(sets.contains(&set_of(&[0])));
    assert!(sets.contains(&set_of(&[1, 2])));
}

#[test]
fn plan_runs_dependent_systems_in_later_rounds() {
    let s = three_systems();
    let plan = s.graph.plan();
    assert_eq!(plan.len(), 2);
    for (k, rounds) in plan.iter().enumerate() {
        if s.graph.connected_sets[k].contains(&0) {
            assert_eq!(rounds, &vec![vec![0]]);
        } else {
            assert_eq!(rounds, &vec![vec![1], vec![2]]);
        }
    }
}

#[test]
fn independent_systems_form_separate_sets() {
    let mut s = Scheduler::new();
    s.add_seq(vec![writes(1)]);
    s.add_async(vec![writes(2)]);
    s.add_par(vec![reads(3)]);
    assert_eq!(s.graph.connected_sets.len(), 3);
    assert_eq!(s.graph.nodes[0].execution, Execution::Sequential);
    assert_eq!(s.graph.nodes[1].execution, Execution::Async);
    assert_eq!(s.graph.nodes[2].execution, Execution::Parallel);
    let plan = s.graph.plan();
    let mut runs: Vec<Vec<Vec<usize>>> = plan.clone();
    runs.sort();
    assert_eq!(runs, vec![vec![vec![0]], vec![vec![1]], vec![vec![2]]]);
}

#[test]
fn rounds_split_where_a_node_waits() {
    let deps = vec![vec![], vec![0], vec![], vec![2]];
    assert_eq!(rounds_of(&vec![0, 1, 2], &deps), vec![vec![0], vec![1, 2]]);
    assert_eq!(rounds_of(&vec![0, 2, 3], &deps), vec![vec![0, 2], vec![3]]);
    assert_eq!(rounds_of(&vec![], &deps), Vec::<Vec<usize>>::new());
}

#[test]
fn connected_sets_join_chains() {
    let mut g = Graph::new();
    g.add(system(vec![writes(1)]));
    g.add(system(vec![writes(1), writes(2)]));
    g.add(system(vec![writes(2)]));
    g.add(system(vec![writes(9)]));
    assert_eq!(g.dependencies, vec![vec![], vec![0], vec![1], vec![]]);
    assert_eq!(g.connected_sets.len(), 2);
    assert!(g.connected_sets.contains(&set_of(&[0, 1, 2])));
    assert!(g.connected_sets.contains(&set_of(&[3])));
}

#[test]
fn isolated_system_has_a_set_of_its_own() {
    let mut g = Graph::new();
    g.add(system(vec![writes(1)]));
    g.add(system(vec![reads(1)]));
    g.add(system(vec![writes(7)]));
    assert!(g.connected_sets.contains(&set_of(&[2])));
    assert!(g.connected_sets.contains(&set_of(&[0, 1])));
    assert_eq!(g.connected_sets.len(), 2);
}
