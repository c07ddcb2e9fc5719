use band::entity::{Entities, Entity};
use band::{ComponentData, Registry, ResourceData};

fn comp(id: u64, name: &'static str, value: u32) -> ComponentData {
    ComponentData { id, name, bytes: value.to_le_bytes().to_vec() }
}

fn bytes(value: u32) -> Vec<u8> {
    value.to_le_bytes().to_vec()
}

#[test]
fn entities_hand_out_fresh_ids() {
    let mut es = Entities::new();
    let a = es.spawn();
    let b = es.spawn();
    assert_eq!(a, Entity { id: 0 });
    assert_eq!(b, Entity { id: 1 });
    assert_eq!(es.peek_next(), 2);
    assert!(es.despawn(a));
    assert!(!es.despawn(a));
    assert_eq!(es.spawn(), Entity { id: 2 });
}

#[test]
fn spawn_gives_entity_without_components() {
    let mut r = Registry::new();
    let e = r.spawn();
    assert_eq!(e.id, 0);
    assert_eq!(r.get(e, 1), None);
    assert_eq!(r.dbg_info(e), Some((0, vec![])));
    assert_eq!(r.spawn().id, 1);
}

#[test]
fn insert_then_get_reads_bytes() {
    let mut r = Registry::new();
    let e = r.spawn();
    r.insert(e, comp(1, "DropTest", 5));
    assert_eq!(r.get(e, 1), Some(bytes(5)));
    assert_eq!(r.get(e, 2), None);
    r.insert(e, comp(2, "DropTest2", 15));
    assert_eq!(r.get(e, 1), Some(bytes(5)));
    assert_eq!(r.get(e, 2), Some(bytes(15)));
    assert_eq!(r.dbg_info(e), Some((2, vec!["DropTest", "DropTest2"])));
}

#[test]
fn insert_keeps_entries_sorted_by_type() {
    let mut r = Registry::new();
    let e = r.spawn();
    r.insert(e, comp(9, "Nine", 9));
    r.insert(e, (comp(3, "Three", 3), comp(5, "Five", 5)));
    assert_eq!(r.dbg_info(e), Some((3, vec!["Three", "Five", "Nine"])));
    assert_eq!(r.get(e, 3), Some(bytes(3)));
    assert_eq!(r.get(e, 5), Some(bytes(5)));
    assert_eq!(r.get(e, 9), Some(bytes(9)));
}

#[test]
fn insert_of_held_type_changes_nothing() {
    let mut r = Registry::new();
    let e = r.spawn();
    r.insert(e, comp(1, "A", 5));
    r.insert(e, (comp(2, "B", 6), comp(1, "A", 7)));
    assert_eq!(r.get(e, 1), Some(bytes(5)));
    assert_eq!(r.get(e, 2), None);
    assert_eq!(r.dbg_info(e), Some((1, vec!["A"])));
}

#[test]
fn insert_into_dead_entity_changes_nothing() {
    let mut r = Registry::new();
    let e = r.spawn();
    r.despawn(e);
    r.insert(e, comp(1, "A", 5));
    assert_eq!(r.get(e, 1), None);
    assert_eq!(r.dbg_info(e), None);
}

#[test]
fn entities_keep_their_own_bytes() {
    let mut r = Registry::new();
    let a = r.spawn();
    let b = r.spawn();
    r.insert(a, comp(1, "A", 10));
    r.insert(b, comp(1, "A", 20));
    r.insert(a, comp(2, "B", 30));
    assert_eq!(r.get(a, 1), Some(bytes(10)));
    assert_eq!(r.get(b, 1), Some(bytes(20)));
    assert_eq!(r.get(a, 2), Some(bytes(30)));
    assert_eq!(r.get(b, 2), None);
}

#[test]
fn remove_returns_bytes_and_drops_component() {
    let mut r = Registry::new();
    let e = r.spawn();
    r.insert(e, (comp(1, "A", 5), comp(2, "B", 6)));
    assert_eq!(r.remove(e, 1), Some(bytes(5)));
    assert_eq!(r.get(e, 1), None);
    assert_eq!(r.get(e, 2), Some(bytes(6)));
    assert_eq!(r.remove(e, 1), None);
    // the slot past the entries still holds the name that moved down
    assert_eq!(r.dbg_info(e), Some((1, vec!["B", "B"])));
}

#[test]
fn remove_from_entity_without_components_is_none() {
    let mut r = Registry::new();
    let e = r.spawn();
    assert_eq!(r.remove(e, 1), None);
    assert_eq!(r.remove(Entity { id: 42 }, 1), None);
}

#[test]
fn despawn_drops_components_of_that_entity_only() {
    let mut r = Registry::new();
    let a = r.spawn();
    let b = r.spawn();
    r.insert(a, comp(1, "A", 1));
    r.insert(b, comp(1, "A", 2));
    r.despawn(a);
    assert_eq!(r.get(a, 1), None);
    assert_eq!(r.get(b, 1), Some(bytes(2)));
    r.despawn(a);
    assert_eq!(r.get(b, 1), Some(bytes(2)));
}

#[test]
fn get_mut_writes_in_place() {
    let mut r = Registry::new();
    let e = r.spawn();
    r.insert(e, (comp(1, "A", 1), comp(2, "B", 2)));
    {
        let b = r.get_mut(e, 2).unwrap();
        b.copy_from_slice(&bytes(99));
    }
    assert_eq!(r.get(e, 2), Some(bytes(99)));
    assert_eq!(r.get(e, 1), Some(bytes(1)));
    assert!(r.get_mut(e, 3).is_none());
}

#[test]
fn resources_are_created_read_written_and_destroyed() {
    let mut r = Registry::new();
    assert_eq!(r.resource(7), None);
    r.create(ResourceData { id: 7, bytes: vec![1, 2, 3] });
    assert_eq!(r.resource(7), Some(&vec![1, 2, 3]));
    r.resource_mut(7).unwrap().push(4);
    assert_eq!(r.resource(7), Some(&vec![1, 2, 3, 4]));
    assert!(r.resource_mut(8).is_none());
    assert_eq!(r.destroy(7), Some(vec![1, 2, 3, 4]));
    assert_eq!(r.destroy(7), None);
    assert_eq!(r.resource(7), None);
}

#[test]
fn create_replaces_resource_of_same_type() {
    let mut r = Registry::new();
    r.create(ResourceData { id: 1, bytes: vec![1] });
    r.create(ResourceData { id: 1, bytes: vec![2, 2] });
    assert_eq!(r.resource(1), Some(&vec![2, 2]));
}

#[test]
fn zero_sized_component_alongside_others() {
    let mut r = Registry::new();
    let e = r.spawn();
    r.insert(e, comp(1, "A", 1));
    r.insert(e, ComponentData { id: 2, name: "Marker", bytes: vec![] });
    assert_eq!(r.get(e, 2), Some(vec![]));
    assert_eq!(r.get(e, 1), Some(bytes(1)));
}

#[test]
fn set_component_replaces_bytes_of_same_size() {
    let mut r = Registry::new();
    let e = r.spawn();
    r.insert(e, (comp(1, "A", 1), comp(2, "B", 2)));
    assert!(r.set_component(e, 2, &bytes(77)));
    assert_eq!(r.get(e, 2), Some(bytes(77)));
    assert_eq!(r.get(e, 1), Some(bytes(1)));
    assert!(!r.set_component(e, 2, &vec![1, 2]));
    assert_eq!(r.get(e, 2), Some(bytes(77)));
    assert!(!r.set_component(e, 3, &bytes(5)));
    assert!(!r.set_component(Entity { id: 99 }, 1, &bytes(5)));
}

#[test]
fn larger_tuple_bundles_insert_every_component() {
    let mut r = Registry::new();
    let e = r.spawn();
    r.insert(e, (comp(8, "H", 8), comp(7, "G", 7), comp(6, "F", 6), comp(5, "E", 5), comp(4, "D", 4), comp(3, "C", 3), comp(2, "B", 2), comp(1, "A", 1)));
    for id in 1..=8u64 {
        assert_eq!(r.get(e, id), Some(bytes(id as u32)));
    }
    assert_eq!(r.dbg_info(e).unwrap().0, 8);
}

#[test]
fn insert_into_entity_of_zero_sized_components_and_back() {
    let mut r = Registry::new();
    let e = r.spawn();
    r.insert(e, ComponentData { id: 5, name: "Marker", bytes: vec![] });
    assert_eq!(r.get(e, 5), None);
    r.insert(e, comp(1, "A", 7));
    assert_eq!(r.get(e, 1), Some(bytes(7)));
    assert_eq!(r.get(e, 5), Some(vec![]));
    assert_eq!(r.remove(e, 1), Some(bytes(7)));
    assert_eq!(r.get(e, 1), None);
    assert_eq!(r.get(e, 5), None);
    assert_eq!(r.dbg_info(e).unwrap().0, 1);
}
