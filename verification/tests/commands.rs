use band::commands::{Command, Commands};
use band::entity::Entity;
use band::{ComponentData, Registry};

fn comp(id: u64, value: u32) -> ComponentData {
    ComponentData { id, name: "C", bytes: value.to_le_bytes().to_vec() }
}

fn bytes(value: u32) -> Vec<u8> {
    value.to_le_bytes().to_vec()
}

#[test]
fn commands_queue_in_order() {
    let mut c = Commands::new();
    c.spawn(comp(1, 1));
    c.insert(Entity { id: 4 }, (comp(2, 2), comp(3, 3)));
    assert_eq!(c.queue.len(), 2);
    match &c.queue[0] {
        Command::Spawn(cs) => {
            assert_eq!(cs.len(), 1);
            assert_eq!(cs[0].id, 1);
        },
        _ => panic!("expected a spawn"),
    }
    match &c.queue[1] {
        Command::Insert(e, cs) => {
            assert_eq!(*e, Entity { id: 4 });
            assert_eq!(cs.len(), 2);
            assert_eq!(cs[1].id, 3);
        },
        _ => panic!("expected an insert"),
    }
}

#[test]
fn applied_commands_spawn_and_insert() {
    let mut r = Registry::new();
    let e = r.spawn();
    let mut c = Commands::new();
    c.insert(e, comp(1, 10));
    c.spawn((comp(1, 20), comp(2, 30)));
    assert_eq!(r.apply_commands(c), Vec::<usize>::new());
    assert_eq!(r.get(e, 1), Some(bytes(10)));
    let spawned = Entity { id: 1 };
    assert_eq!(r.get(spawned, 1), Some(bytes(20)));
    assert_eq!(r.get(spawned, 2), Some(bytes(30)));
}

#[test]
fn commands_skip_those_that_cannot_be_done() {
    let mut r = Registry::new();
    let e = r.spawn();
    let mut c = Commands::new();
    c.insert(e, comp(1, 10));
    c.insert(e, vec![comp(2, 1), comp(2, 2)]);
    c.insert(e, comp(3, 3));
    c.spawn(vec![comp(4, 1), comp(4, 2)]);
    assert_eq!(r.apply_commands(c), vec![1, 3]);
    assert_eq!(r.get(e, 1), Some(bytes(10)));
    assert_eq!(r.get(e, 2), None);
    assert_eq!(r.get(e, 3), Some(bytes(3)));
    // the spawn of the last command happened, its insert did not
    assert_eq!(r.dbg_info(Entity { id: 1 }), Some((0, vec![])));
    assert_eq!(r.get(Entity { id: 1 }, 4), None);
    assert_eq!(r.spawn(), Entity { id: 2 });
}

#[test]
fn insert_of_held_type_is_carried_out_as_no_change() {
    let mut r = Registry::new();
    let e = r.spawn();
    r.insert(e, comp(1, 10));
    let mut c = Commands::new();
    c.insert(e, comp(1, 99));
    c.insert(Entity { id: 77 }, comp(1, 5));
    assert_eq!(r.apply_commands(c), Vec::<usize>::new());
    assert_eq!(r.get(e, 1), Some(bytes(10)));
}

#[test]
fn fits_check_follows_insert_rules() {
    let mut r = Registry::new();
    let e = r.spawn();
    assert!(r.insert_fits_now(e, &vec![comp(1, 1), comp(2, 2)]));
    assert!(!r.insert_fits_now(e, &vec![comp(1, 1), comp(1, 2)]));
    r.insert(e, comp(1, 1));
    // an insert that does not take effect always fits
    assert!(r.insert_fits_now(e, &vec![comp(1, 1), comp(1, 2)]));
    assert!(r.insert_fits_now(Entity { id: 9 }, &vec![comp(5, 1), comp(5, 2)]));
}
