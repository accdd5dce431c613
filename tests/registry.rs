use azusa::{Error, Item, Progress, ProgressMap};

const URL: &str = "url";
const NAME: &str = "name";
const EXT: &str = "jpg";

fn record() -> Progress {
    Progress::new(URL.to_string(), NAME.to_string(), EXT.to_string())
}

fn id_text(id: u128) -> String {
    uuid::Uuid::from_u128(id).hyphenated().to_string()
}

#[test]
fn test_insert_and_remove() {
    let id = uuid::Uuid::now_v7().as_u128();
    let pg = record();
    let mut map = ProgressMap::new();

    assert_eq!(map.to_items(), vec![]);

    map.insert(id, pg).unwrap();
    assert_eq!(
        map.to_items(),
        vec![Item {
            id: id_text(id),
            url: URL.to_string(),
            name: NAME.to_string(),
            ext: EXT.to_string(),
            total: 0,
            transferred: 0,
            canceled: false,
        }]
    );

    map.remove(id);
    assert_eq!(map.to_items(), vec![]);
}

#[test]
fn test_to_items() {
    let mut map = ProgressMap::new();
    for _ in 0..10 {
        let id = uuid::Uuid::now_v7().as_u128();
        map.insert(id, record()).unwrap();
    }

    assert_eq!(map.to_items().len(), 10);
}

#[test]
fn register_then_deregister_leaves_snapshot_empty() {
    let mut map = ProgressMap::new();
    let id = map.add(record()).unwrap();
    assert!(map.contains(id));
    map.remove(id);
    assert!(!map.contains(id));
    assert!(map.to_items().is_empty());
}

#[test]
fn deregister_twice_is_no_error() {
    let mut map = ProgressMap::new();
    let id = map.add(record()).unwrap();
    map.remove(id);
    map.remove(id);
    assert!(map.to_items().is_empty());
}

#[test]
fn cancel_unknown_id_is_noop() {
    let mut map = ProgressMap::new();
    let id = map.add(record()).unwrap();
    let before = map.to_items();
    map.cancel(id.wrapping_add(1));
    assert_eq!(map.to_items(), before);
    assert!(!map.get(id).unwrap().is_canceled());
}

#[test]
fn cancel_sets_flag_and_keeps_entry() {
    let mut map = ProgressMap::new();
    let id = map.add(record()).unwrap();
    map.cancel(id);
    map.cancel(id);
    let items = map.to_items();
    assert_eq!(items.len(), 1);
    assert!(items[0].canceled);
    assert!(map.get(id).unwrap().is_canceled());
}

#[test]
fn duplicate_registration_is_refused() {
    let mut map = ProgressMap::new();
    map.insert(7, record()).unwrap();
    let other = Progress::new("u2".to_string(), "n2".to_string(), "e2".to_string());
    assert_eq!(map.insert(7, other), Err(Error::RegistryMisuse));
    let items = map.to_items();
    assert_eq!(items.len(), 1);
    assert_eq!(items[0].url, URL.to_string());
}

#[test]
fn snapshot_follows_updates() {
    let mut map = ProgressMap::new();
    let id = map.add(Progress::new("u".to_string(), "test".to_string(), "bin".to_string())).unwrap();
    {
        let pg = map.get_mut(id).unwrap();
        pg.set_total(1000);
        pg.progress(100);
        pg.cancel();
    }
    assert_eq!(
        map.to_items(),
        vec![Item {
            id: id_text(id),
            url: "u".to_string(),
            name: "test".to_string(),
            ext: "bin".to_string(),
            total: 1000,
            transferred: 100,
            canceled: true,
        }]
    );
}

#[test]
fn snapshot_keeps_registration_order() {
    let mut map = ProgressMap::new();
    for id in [30u128, 10, 20] {
        map.insert(id, record()).unwrap();
    }
    map.remove(10);
    map.insert(5, record()).unwrap();
    let ids: Vec<String> = map.to_items().into_iter().map(|i| i.id).collect();
    assert_eq!(ids, vec![id_text(30), id_text(20), id_text(5)]);
}

#[test]
fn ten_transfers_have_isolated_counters() {
    let mut map = ProgressMap::new();
    let mut ids = vec![];
    for _ in 0..10 {
        ids.push(map.add(record()).unwrap());
    }
    for (k, id) in ids.iter().enumerate() {
        let pg = map.get_mut(*id).unwrap();
        pg.set_total(1000 + k as u64);
        pg.progress(k as u64 * 3);
    }
    map.cancel(ids[4]);
    let items = map.to_items();
    assert_eq!(items.len(), 10);
    for (k, item) in items.iter().enumerate() {
        assert_eq!(item.id, id_text(ids[k]));
        assert_eq!(item.total, 1000 + k as u64);
        assert_eq!(item.transferred, k as u64 * 3);
        assert_eq!(item.canceled, k == 4);
    }
    for a in 0..items.len() {
        for b in 0..items.len() {
            if a != b {
                assert_ne!(items[a].id, items[b].id);
            }
        }
    }
}

#[test]
fn item_id_is_hyphenated_lower_hex() {
    let pg = record();
    let item = pg.to_item(0x0123456789abcdef_fedcba9876543210);
    assert_eq!(item.id, "01234567-89ab-cdef-fedc-ba9876543210");
    let item = pg.to_item(0);
    assert_eq!(item.id, "00000000-0000-0000-0000-000000000000");
}

#[test]
fn added_ids_increase_and_are_never_reused() {
    let mut map = ProgressMap::new();
    let mut last = None;
    for _ in 0..20 {
        let id = map.add(record()).unwrap();
        if let Some(prev) = last {
            assert!(id > prev);
        }
        map.remove(id);
        last = Some(id);
    }
    assert!(map.to_items().is_empty());
}

#[test]
fn current_matches_size() {
    let mut pg = record();
    pg.progress(12);
    assert_eq!(pg.current(), 12);
    assert_eq!(pg.size(), 12);
}
