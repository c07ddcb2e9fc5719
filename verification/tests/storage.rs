use band::archetype::{Archetype, ArchetypeInfo, ArchetypeState};
use band::entity::Entity;
use band::storage::Storage;
use band::ComponentData;

fn archetype_of_width(width: usize) -> Archetype {
    let mut a = Archetype::new();
    a.add(ArchetypeInfo { ty: 1, size: width, name: "Row", state: ArchetypeState::Component });
    a
}

fn part(id: u64, bytes: Vec<u8>) -> Vec<ComponentData> {
    vec![ComponentData { id, name: "Row", bytes }]
}

#[test]
fn new_storage_is_empty() {
    let s = Storage::new(archetype_of_width(4));
    assert!(s.data.is_empty());
    assert!(s.mapping.is_empty());
    assert!(s.secondary_mapping.is_empty());
    assert!(s.table.is_empty());
}

#[test]
fn push_appends_rows() {
    let mut s = Storage::new(archetype_of_width(2));
    s.push(Entity { id: 7 }, vec![1, 1], part(1, vec![1, 1]));
    s.push(Entity { id: 9 }, vec![2, 2], part(1, vec![2, 2]));
    assert_eq!(s.data, vec![1, 1, 2, 2]);
    assert_eq!(s.mapping, vec![Entity { id: 7 }, Entity { id: 9 }]);
    assert_eq!(s.secondary_mapping.get(&7), Some(&0));
    assert_eq!(s.secondary_mapping.get(&9), Some(&1));
    assert_eq!(s.table.len(), 2);
}

#[test]
fn remove_moves_last_row_into_place() {
    let mut s = Storage::new(archetype_of_width(4));
    s.push(Entity { id: 1 }, vec![1, 1, 1, 1], part(1, vec![1, 1, 1, 1]));
    s.push(Entity { id: 2 }, vec![2, 2, 2, 2], part(1, vec![2, 2, 2, 2]));
    s.push(Entity { id: 3 }, vec![3, 3, 3, 3], part(1, vec![3, 3, 3, 3]));
    let (bytes, table) = s.remove(Entity { id: 1 });
    assert_eq!(bytes, vec![1, 1, 1, 1]);
    assert_eq!(table.len(), 1);
    assert_eq!(table[0].bytes, vec![1, 1, 1, 1]);
    assert_eq!(s.data, vec![3, 3, 3, 3, 2, 2, 2, 2]);
    assert_eq!(s.mapping, vec![Entity { id: 3 }, Entity { id: 2 }]);
    assert_eq!(s.secondary_mapping.get(&3), Some(&0));
    assert_eq!(s.secondary_mapping.get(&2), Some(&1));
    assert_eq!(s.secondary_mapping.get(&1), None);
    assert_eq!(s.table[0][0].bytes, vec![3, 3, 3, 3]);
}

#[test]
fn remove_last_row_drops_it() {
    let mut s = Storage::new(archetype_of_width(1));
    s.push(Entity { id: 1 }, vec![5], part(1, vec![5]));
    s.push(Entity { id: 2 }, vec![6], part(1, vec![6]));
    let (bytes, _) = s.remove(Entity { id: 2 });
    assert_eq!(bytes, vec![6]);
    assert_eq!(s.data, vec![5]);
    assert_eq!(s.mapping, vec![Entity { id: 1 }]);
}

#[test]
fn zero_width_storage_keeps_no_rows() {
    let mut s = Storage::new(archetype_of_width(0));
    s.push(Entity { id: 1 }, vec![], part(1, vec![]));
    assert!(s.mapping.is_empty());
    let (bytes, table) = s.remove(Entity { id: 1 });
    assert!(bytes.is_empty());
    assert!(table.is_empty());
}

#[test]
fn push_then_remove_restores_storage() {
    let mut s = Storage::new(archetype_of_width(2));
    s.push(Entity { id: 1 }, vec![1, 1], part(1, vec![1, 1]));
    let (data, mapping) = (s.data.clone(), s.mapping.clone());
    s.push(Entity { id: 2 }, vec![2, 2], part(1, vec![2, 2]));
    let (bytes, table) = s.remove(Entity { id: 2 });
    assert_eq!(bytes, vec![2, 2]);
    assert_eq!(table[0].bytes, vec![2, 2]);
    assert_eq!(s.data, data);
    assert_eq!(s.mapping, mapping);
    assert_eq!(s.secondary_mapping.len(), 1);
    assert_eq!(s.secondary_mapping.get(&1), Some(&0));
}

#[test]
fn storage_keeps_rows_of_an_unsorted_archetype() {
    let mut a = Archetype::new();
    a.info[0] = Some(ArchetypeInfo { ty: 9, size: 1, name: "Nine", state: ArchetypeState::Component });
    a.info[1] = Some(ArchetypeInfo { ty: 2, size: 2, name: "Two", state: ArchetypeState::Component });
    a.len = 2;
    let mut s = Storage::new(a);
    s.push(Entity { id: 1 }, vec![1, 1, 1], part(9, vec![1]));
    s.push(Entity { id: 2 }, vec![2, 2, 2], part(9, vec![2]));
    let (bytes, _) = s.remove(Entity { id: 1 });
    assert_eq!(bytes, vec![1, 1, 1]);
    assert_eq!(s.data, vec![2, 2, 2]);
    assert_eq!(s.secondary_mapping.get(&2), Some(&0));
}
