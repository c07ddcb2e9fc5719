use band::archetype::{ArchetypeInfo, ArchetypeState};
use band::query::QueryTerm;
use band::scheduler::{depends, Execution, Scheduler, SystemInfo};
use band::{ComponentData, Registry, ResourceData};

fn comp(id: u64, value: u32) -> ComponentData {
    ComponentData { id, name: "C", bytes: value.to_le_bytes().to_vec() }
}

fn bytes(value: u32) -> Vec<u8> {
    value.to_le_bytes().to_vec()
}

fn term(id: u64, mutable: bool) -> QueryTerm {
    QueryTerm::Component { info: ArchetypeInfo { ty: id, size: 4, name: "C", state: ArchetypeState::Component }, mutable }
}

#[test]
fn law_insert_then_get() {
    let mut r = Registry::new();
    let e = r.spawn();
    r.insert(e, comp(4, 40));
    r.insert(e, (comp(1, 10), comp(7, 70)));
    assert_eq!(r.get(e, 1), Some(bytes(10)));
    assert_eq!(r.get(e, 7), Some(bytes(70)));
    assert_eq!(r.get(e, 4), Some(bytes(40)));
}

#[test]
fn law_insert_then_remove_restores() {
    let mut r = Registry::new();
    let e = r.spawn();
    r.insert(e, (comp(2, 20), comp(6, 60)));
    let before = r.dbg_info(e).unwrap();
    r.insert(e, comp(4, 40));
    assert_eq!(r.remove(e, 4), Some(bytes(40)));
    let after = r.dbg_info(e).unwrap();
    assert_eq!(after.0, before.0);
    assert_eq!(&after.1[..after.0], &before.1[..before.0]);
    assert_eq!(r.get(e, 2), Some(bytes(20)));
    assert_eq!(r.get(e, 6), Some(bytes(60)));
    assert_eq!(r.get(e, 4), None);
}

#[test]
fn law_create_then_destroy() {
    let mut r = Registry::new();
    r.create(ResourceData { id: 1, bytes: vec![1] });
    r.create(ResourceData { id: 2, bytes: vec![2, 2] });
    assert_eq!(r.destroy(2), Some(vec![2, 2]));
    assert_eq!(r.resource(2), None);
    assert_eq!(r.resource(1), Some(&vec![1]));
}

#[test]
fn law_spawns_distinct() {
    let mut r = Registry::new();
    let a = r.spawn();
    r.despawn(a);
    let b = r.spawn();
    assert_ne!(a, b);
}

#[test]
fn law_depends_symmetric() {
    let systems = [
        SystemInfo { terms: vec![term(1, false)], execution: Execution::Sequential },
        SystemInfo { terms: vec![term(1, true)], execution: Execution::Sequential },
        SystemInfo { terms: vec![term(2, true), term(1, false)], execution: Execution::Sequential },
        SystemInfo { terms: vec![QueryTerm::Entity], execution: Execution::Sequential },
    ];
    for a in systems.iter() {
        for b in systems.iter() {
            assert_eq!(depends(a, b), depends(b, a));
        }
    }
}

#[test]
fn law_plan_orders_dependencies() {
    let mut s = Scheduler::new();
    s.add_seq(vec![term(1, true)]);
    s.add_seq(vec![term(1, false), term(2, false)]);
    s.add_seq(vec![term(1, false)]);
    s.add_seq(vec![term(2, true)]);
    let plan = s.graph.plan();
    assert_eq!(plan.len(), 1);
    // every system once, each after those it depends on
    assert_eq!(plan[0], vec![vec![0], vec![1, 2], vec![3]]);
}

#[test]
fn law_bundle_as_steps() {
    let mut r = Registry::new();
    let a = r.spawn();
    let b = r.spawn();
    r.insert(a, comp(5, 50));
    r.insert(b, comp(5, 50));
    r.insert(a, (comp(9, 90), comp(2, 20), comp(7, 70)));
    r.insert(b, (comp(9, 90), comp(2, 20)));
    r.insert(b, comp(7, 70));
    assert_eq!(r.dbg_info(a), r.dbg_info(b));
    for id in [2u64, 5, 7, 9] {
        assert_eq!(r.get(a, id), r.get(b, id));
    }
    // both entities share one storage
    let q = band::query::query(&r, vec![QueryTerm::Entity]);
    assert_eq!(q.items(&r).len(), 2);
    assert_eq!(q.mapping.len(), 1);
}

#[test]
fn law_entity_layout() {
    let mut r = Registry::new();
    let e = r.spawn();
    let other = r.spawn();
    r.insert(other, comp(3, 30));
    r.insert(e, comp(7, 70));
    r.insert(e, (comp(9, 90), comp(2, 20)));
    let holding: Vec<usize> =
        (0..r.storage.len()).filter(|&k| r.storage[k].secondary_mapping.contains_key(&e.id)).collect();
    assert_eq!(holding.len(), 1);
    let st = &r.storage[holding[0]];
    assert_eq!(st.archetype.total_size(), 12);
    let row = st.secondary_mapping[&e.id];
    let mut expected = bytes(20);
    expected.extend(bytes(70));
    expected.extend(bytes(90));
    assert_eq!(&st.data[row * 12..row * 12 + 12], &expected[..]);
}
