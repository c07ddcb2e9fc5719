use band::archetype::{Archetype, ArchetypeInfo, ArchetypeState};

fn info(ty: u64, size: usize, name: &'static str, state: ArchetypeState) -> ArchetypeInfo {
    ArchetypeInfo { ty, size, name, state }
}

fn two_components() -> Archetype {
    let mut a = Archetype::new();
    a.add(info(5, 4, "Five", ArchetypeState::Component));
    a.add(info(2, 8, "Two", ArchetypeState::Component));
    a
}

#[test]
fn empty_archetype_has_nothing() {
    let a = Archetype::new();
    assert_eq!(a.len(), 0);
    assert_eq!(a.total_size(), 0);
    assert_eq!(a.translation(1), None);
    assert_eq!(a.position(1), None);
}

#[test]
fn add_keeps_entries_sorted() {
    let mut a = Archetype::new();
    assert_eq!(a.add(info(5, 4, "Five", ArchetypeState::Component)), 0);
    assert_eq!(a.add(info(2, 8, "Two", ArchetypeState::Component)), 0);
    assert_eq!(a.add(info(9, 1, "Nine", ArchetypeState::Component)), 2);
    assert_eq!(a.len(), 3);
    assert_eq!(a.info[0].unwrap().ty, 2);
    assert_eq!(a.info[1].unwrap().ty, 5);
    assert_eq!(a.info[2].unwrap().ty, 9);
    assert!(a.info[3].is_none());
}

#[test]
fn translation_is_offset_of_entry() {
    let a = two_components();
    assert_eq!(a.translation(2), Some(0));
    assert_eq!(a.translation(5), Some(8));
    assert_eq!(a.translation(7), None);
    assert_eq!(a.position(5), Some(1));
}

#[test]
fn sizes_add_up() {
    let a = two_components();
    assert_eq!(a.total_size(), 12);
    assert_eq!(a.size_up_to(0), 0);
    assert_eq!(a.size_up_to(1), 8);
    assert_eq!(a.size_up_to(2), 12);
}

#[test]
fn subset_follows_query_states() {
    let a = two_components();
    let mut q = Archetype::new();
    q.add(info(5, 4, "Five", ArchetypeState::Component));
    assert!(a.is_subset_of(q));

    let mut without = Archetype::new();
    without.add(info(2, 8, "Two", ArchetypeState::Without));
    assert!(!a.is_subset_of(without));

    let mut without_other = Archetype::new();
    without_other.add(info(3, 8, "Three", ArchetypeState::Without));
    assert!(a.is_subset_of(without_other));

    let mut optional = Archetype::new();
    optional.add(info(7, 1, "Seven", ArchetypeState::Optional));
    assert!(a.is_subset_of(optional));

    let mut missing = Archetype::new();
    missing.add(info(7, 1, "Seven", ArchetypeState::Component));
    assert!(!a.is_subset_of(missing));

    let mut resource = Archetype::new();
    resource.add(info(7, 1, "Seven", ArchetypeState::Resource));
    assert!(a.is_subset_of(resource));
}

#[test]
fn remove_at_shifts_entries_down() {
    let mut a = two_components();
    a.remove_at(0);
    assert_eq!(a.len(), 1);
    assert_eq!(a.translation(5), Some(0));
    assert_eq!(a.translation(2), None);
    assert_eq!(a.total_size(), 4);
    // the slot past the entries keeps what it held
    assert_eq!(a.info[1].unwrap().ty, 5);
    // and counts in a sum of filled slots past the entries
    assert_eq!(a.size_up_to(2), 8);
}

#[test]
fn equals_compares_slots_and_names() {
    let a = two_components();
    let b = two_components();
    assert!(a.equals(&b));
    let mut c = Archetype::new();
    c.add(info(5, 4, "Other", ArchetypeState::Component));
    c.add(info(2, 8, "Two", ArchetypeState::Component));
    assert!(!a.equals(&c));
    let mut d = a;
    d.remove_at(1);
    assert!(!a.equals(&d));
}
