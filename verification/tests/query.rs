use band::archetype::{ArchetypeInfo, ArchetypeState};
use band::entity::Entity;
use band::query::{query, write_back, QueryTerm, QueryValue};
use band::{ComponentData, Registry, ResourceData};

fn comp(id: u64, value: u32) -> ComponentData {
    ComponentData { id, name: "C", bytes: value.to_le_bytes().to_vec() }
}

fn bytes(value: u32) -> Vec<u8> {
    value.to_le_bytes().to_vec()
}

fn info(id: u64) -> ArchetypeInfo {
    ArchetypeInfo { ty: id, size: 4, name: "C", state: ArchetypeState::Component }
}

/// e0 holds A and B, e1 holds A, e2 holds B; the storages come in the order
/// {A}, {A, B}, {B}.
fn three_entities() -> (Registry, Entity, Entity, Entity) {
    let mut r = Registry::new();
    let e0 = r.spawn();
    r.insert(e0, comp(1, 100));
    r.insert(e0, comp(2, 200));
    let e1 = r.spawn();
    r.insert(e1, comp(1, 101));
    let e2 = r.spawn();
    r.insert(e2, comp(2, 202));
    (r, e0, e1, e2)
}

fn collect(r: &Registry, terms: Vec<QueryTerm>) -> Vec<Vec<QueryValue>> {
    let mut q = query(r, terms);
    let mut out = Vec::new();
    while let Some(item) = q.next(r) {
        out.push(item);
    }
    out
}

#[test]
fn query_yields_entities_with_component() {
    let (r, e0, e1, _) = three_entities();
    let items = collect(&r, vec![QueryTerm::Entity, QueryTerm::Component { info: info(1), mutable: false }]);
    assert_eq!(
        items,
        vec![
            vec![QueryValue::Entity(e1), QueryValue::Component(bytes(101))],
            vec![QueryValue::Entity(e0), QueryValue::Component(bytes(100))],
        ]
    );
}

#[test]
fn query_with_two_components() {
    let (r, e0, _, _) = three_entities();
    let items = collect(
        &r,
        vec![
            QueryTerm::Component { info: info(2), mutable: true },
            QueryTerm::Entity,
            QueryTerm::Component { info: info(1), mutable: false },
        ],
    );
    assert_eq!(
        items,
        vec![vec![QueryValue::Component(bytes(200)), QueryValue::Entity(e0), QueryValue::Component(bytes(100))]]
    );
}

#[test]
fn query_without_excludes() {
    let (r, _, e1, _) = three_entities();
    let items = collect(&r, vec![QueryTerm::Entity, QueryTerm::Without { info: info(2) }]);
    assert_eq!(items, vec![vec![QueryValue::Entity(e1), QueryValue::Without]]);
}

#[test]
fn query_optional_component() {
    let (r, e0, e1, e2) = three_entities();
    let items = collect(&r, vec![QueryTerm::Entity, QueryTerm::OptionalComponent { info: info(2), mutable: false }]);
    assert_eq!(
        items,
        vec![
            vec![QueryValue::Entity(e1), QueryValue::OptionalComponent(None)],
            vec![QueryValue::Entity(e0), QueryValue::OptionalComponent(Some(bytes(200)))],
            vec![QueryValue::Entity(e2), QueryValue::OptionalComponent(Some(bytes(202)))],
        ]
    );
}

#[test]
fn query_reads_resources() {
    let (mut r, _, e1, _) = three_entities();
    r.create(ResourceData { id: 50, bytes: vec![9, 9] });
    let items = collect(
        &r,
        vec![
            QueryTerm::Entity,
            QueryTerm::Without { info: info(2) },
            QueryTerm::Resource { info: info(50), mutable: false },
            QueryTerm::OptionalResource { info: info(51), mutable: false },
            QueryTerm::Commands,
        ],
    );
    assert_eq!(
        items,
        vec![vec![
            QueryValue::Entity(e1),
            QueryValue::Without,
            QueryValue::Resource(vec![9, 9]),
            QueryValue::OptionalResource(None),
            QueryValue::Commands,
        ]]
    );
}

#[test]
fn query_of_missing_component_is_empty() {
    let (r, _, _, _) = three_entities();
    let items = collect(&r, vec![QueryTerm::Component { info: info(3), mutable: false }]);
    assert!(items.is_empty());
    let empty = Registry::new();
    assert!(collect(&empty, vec![QueryTerm::Entity]).is_empty());
}

#[test]
fn query_skips_storages_without_rows() {
    let (r, _, _, _) = three_entities();
    let q = query(&r, vec![QueryTerm::Component { info: info(1), mutable: false }]);
    // the storage {A} holds e1 only, the storage {A, B} holds e0
    assert_eq!(q.mapping.len(), 2);
    assert_eq!(q.mapping[0].storage, 0);
    assert_eq!(q.mapping[0].len, 1);
    assert_eq!(q.mapping[0].total_size, 4);
    assert_eq!(q.mapping[1].storage, 1);
    assert_eq!(q.mapping[1].translations, vec![0]);
    let q2 = query(&r, vec![QueryTerm::Component { info: info(2), mutable: false }]);
    assert_eq!(q2.mapping[0].translations, vec![4]);
}

#[test]
fn next_after_end_stays_none() {
    let (r, _, _, _) = three_entities();
    let mut q = query(&r, vec![QueryTerm::Without { info: info(2) }]);
    assert!(q.next(&r).is_some());
    assert!(q.next(&r).is_none());
    assert!(q.next(&r).is_none());
}

#[test]
fn items_go_storage_after_storage() {
    let (r, e0, e1, e2) = three_entities();
    let q = query(&r, vec![QueryTerm::Entity]);
    let all = q.items(&r);
    assert_eq!(
        all,
        vec![vec![QueryValue::Entity(e1)], vec![QueryValue::Entity(e0)], vec![QueryValue::Entity(e2)]]
    );
    let mut again = query(&r, vec![QueryTerm::Entity]);
    let mut stepped = Vec::new();
    while let Some(item) = again.next(&r) {
        stepped.push(item);
    }
    assert_eq!(stepped, all);
}

#[test]
fn write_back_writes_mutable_terms_only() {
    let (mut r, e0, e1, _) = three_entities();
    r.create(ResourceData { id: 9, bytes: vec![1, 2] });
    let terms = vec![
        QueryTerm::Component { info: info(1), mutable: true },
        QueryTerm::Component { info: info(2), mutable: false },
        QueryTerm::Resource { info: info(9), mutable: true },
    ];
    let values = vec![
        QueryValue::Component(bytes(111)),
        QueryValue::Component(bytes(222)),
        QueryValue::Resource(vec![7, 7, 7]),
    ];
    write_back(&mut r, e0, &terms, &values);
    assert_eq!(r.get(e0, 1), Some(bytes(111)));
    assert_eq!(r.get(e0, 2), Some(bytes(200)));
    assert_eq!(r.get(e1, 1), Some(bytes(101)));
    assert_eq!(r.resource(9), Some(&vec![7, 7, 7]));
}

#[test]
fn write_back_skips_bytes_of_another_size() {
    let (mut r, e0, _, _) = three_entities();
    let terms = vec![
        QueryTerm::OptionalComponent { info: info(1), mutable: true },
        QueryTerm::Component { info: info(2), mutable: true },
        QueryTerm::Resource { info: info(9), mutable: true },
    ];
    let values = vec![
        QueryValue::OptionalComponent(Some(vec![1, 2])),
        QueryValue::Component(bytes(5)),
        QueryValue::Resource(vec![3]),
    ];
    write_back(&mut r, e0, &terms, &values);
    assert_eq!(r.get(e0, 1), Some(bytes(100)));
    assert_eq!(r.get(e0, 2), Some(bytes(5)));
    assert_eq!(r.resource(9), None);
}
