use spaced_review::errors::{check_schema_version, StorageError, SCHEMA_VERSION};
use spaced_review::scheduling::SchedulingState;
use spaced_review::store::Store;
use spaced_review::types::{AppConfig, Item};

fn default_state() -> SchedulingState {
    SchedulingState {
        interval: 1,
        difficulty: 300,
        memory_strength: 500,
        adjusting_factor: 1300,
        times_reviewed: 0,
        times_recalled: 0,
    }
}

#[test]
fn add_and_get_one_new_items() {
    let url: String = "https://open.kattis.com/problems/hello".into();
    let urls = vec![url.clone()];
    let mut store = Store::new();
    let res_add = store.add_urls_to_inbox(urls);
    // could we successfully add the item?
    assert!(res_add.is_ok());
    // now can we retrieve that same item?
    let res = store.get_n_urls_from_inbox(1);
    assert!(res.len() == 1);
    assert!(res[0].url == url);
}

#[test]
fn add_and_get_several_new_items() {
    let urls: Vec<String> = vec![
        "https://open.kattis.com/problems/hello".into(),
        "https://open.kattis.com/problems/faktor".into(),
        "https://open.kattis.com/problems/autori".into(),
    ];
    let mut store = Store::new();
    let res_add = store.add_urls_to_inbox(urls.clone());
    // could we successfully add the items?
    assert!(res_add.is_ok());
    // now can we retrieve the same items in queue order?
    let res = store.get_n_urls_from_inbox(urls.len());
    let res_inner_strings: Vec<String> = res.into_iter().map(|item| item.url).collect();
    assert!(res_inner_strings.len() == urls.len());
    assert!(urls == res_inner_strings);
}

#[test]
fn add_several_and_remove_some_new_items() {
    // add some urls
    let urls: Vec<String> = vec![
        "https://open.kattis.com/problems/hello".into(),
        "https://open.kattis.com/problems/faktor".into(),
        "https://open.kattis.com/problems/autori".into(),
    ];
    let mut store = Store::new();
    store.add_urls_to_inbox(urls.clone()).unwrap();

    // now we remove some, readd them and see that the order has been changed
    let res_get = store.get_n_urls_from_inbox(urls.len());
    let res_inner_strings: Vec<String> = res_get.into_iter().map(|item| item.url).collect();
    assert!(urls == res_inner_strings);

    // can we remove items?
    assert!(store.remove_new_item(1).is_ok());
    // can we insert them again and get the items in the expected order?
    assert!(
        store
            .add_urls_to_inbox(vec!["https://open.kattis.com/problems/hello".into()])
            .is_ok()
    );
    let second_res = store.get_n_urls_from_inbox(urls.len());
    let second_inner_strings: Vec<String> =
        second_res.into_iter().map(|item| item.url).collect();
    let expected: Vec<String> = vec![
        "https://open.kattis.com/problems/faktor".into(),
        "https://open.kattis.com/problems/autori".into(),
        "https://open.kattis.com/problems/hello".into(),
    ];
    assert!(second_inner_strings == expected);
}

#[test]
fn fifo_enqueue_then_dequeue_in_submission_order() {
    let mut store = Store::new();
    store
        .add_urls_to_inbox(vec!["a".into(), "b".into(), "c".into()])
        .unwrap();
    let got = store.get_n_urls_from_inbox(3);
    let urls: Vec<String> = got.into_iter().map(|e| e.url).collect();
    assert_eq!(urls, vec!["a".to_string(), "b".to_string(), "c".to_string()]);
}

#[test]
fn dequeue_more_than_queued_returns_all() {
    let mut store = Store::new();
    store.add_urls_to_inbox(vec!["a".into()]).unwrap();
    let got = store.get_n_urls_from_inbox(10);
    assert_eq!(got.len(), 1);
    let got_none = Store::new().get_n_urls_from_inbox(4);
    assert_eq!(got_none.len(), 0);
}

#[test]
fn insert_then_get_round_trip() {
    let mut store = Store::new();
    let item = Item {
        id: 0,
        url: "https://example.org/p1".to_string(),
        tags: vec!["graph".to_string(), "dp".to_string()],
        notes: "tricky indices".to_string(),
        scheduling_state: default_state(),
    };
    let id = store.insert_item(item, 42).unwrap();
    let got = store.get_item(id).unwrap();
    assert_eq!(got.id, id);
    assert_eq!(got.url, "https://example.org/p1".to_string());
    assert_eq!(got.tags, vec!["graph".to_string(), "dp".to_string()]);
    assert_eq!(got.notes, "tricky indices".to_string());
    assert_eq!(got.scheduling_state, default_state());
    let due = store.get_due(42);
    assert_eq!(due.len(), 1);
    assert_eq!(due[0].1, 42);
    assert_eq!(due[0].0.id, id);
}

#[test]
fn get_item_not_found() {
    let store = Store::new();
    assert!(matches!(store.get_item(7), Err(StorageError::NotFound)));
}

#[test]
fn remove_inbox_entry_not_found() {
    let mut store = Store::new();
    assert_eq!(store.remove_new_item(5), Err(StorageError::NotFound));
}

#[test]
fn update_item_not_found_changes_nothing() {
    let mut store = Store::new();
    let id = store
        .insert_item(
            Item {
                id: 0,
                url: "u".to_string(),
                tags: vec![],
                notes: String::new(),
                scheduling_state: default_state(),
            },
            10,
        )
        .unwrap();
    let r = store.update_item(id + 100, default_state(), 99);
    assert_eq!(r, Err(StorageError::NotFound));
    let due = store.get_due(10);
    assert_eq!(due.len(), 1);
    assert_eq!(due[0].1, 10);
}

#[test]
fn get_due_returns_exactly_the_due_items_sorted() {
    let mut store = Store::new();
    let mk = |url: &str| Item {
        id: 0,
        url: url.to_string(),
        tags: vec![],
        notes: String::new(),
        scheduling_state: default_state(),
    };
    let a = store.insert_item(mk("a"), 50).unwrap();
    let b = store.insert_item(mk("b"), 20).unwrap();
    let c = store.insert_item(mk("c"), 80).unwrap();
    let d = store.insert_item(mk("d"), 20).unwrap();
    // due at 50: b (20), d (20), a (50); c (80) is out.
    let due = store.get_due(50);
    assert_eq!(due.len(), 3);
    // due ascending; the tie at 20 is broken by item id ascending.
    assert!(b < d);
    assert_eq!(due[0].0.id, b);
    assert_eq!(due[0].1, 20);
    assert_eq!(due[1].0.id, d);
    assert_eq!(due[1].1, 20);
    assert_eq!(due[2].0.id, a);
    assert_eq!(due[2].1, 50);
    for (_, when) in &due {
        assert!(*when <= 50);
    }
    assert!(!due.iter().any(|(item, _)| item.id == c));
    // no item is due before any timestamp earlier than all rows
    assert_eq!(store.get_due(19).len(), 0);
    assert_eq!(store.due_count(50), 3);
    assert_eq!(store.due_count(u64::MAX), 4);
}

#[test]
fn promote_moves_entry_to_item_with_schedule_row() {
    let mut store = Store::new();
    store
        .add_urls_to_inbox(vec!["x".into(), "y".into()])
        .unwrap();
    assert_eq!(store.new_count(), 2);
    assert_eq!(store.total_count(), 0);
    let entries = store.get_n_urls_from_inbox(1);
    let inbox_id = entries[0].id;
    let item_id = store.promote(inbox_id, default_state(), 7).unwrap();
    // the entry is gone, the item stands with its schedule row
    assert_eq!(store.new_count(), 1);
    assert_eq!(store.total_count(), 1);
    let item = store.get_item(item_id).unwrap();
    assert_eq!(item.url, "x".to_string());
    assert_eq!(item.scheduling_state, default_state());
    let due = store.get_due(7);
    assert_eq!(due.len(), 1);
    assert_eq!(due[0].0.id, item_id);
    assert_eq!(due[0].1, 7);
    // removing the promoted entry again reports NotFound
    assert_eq!(store.remove_new_item(inbox_id), Err(StorageError::NotFound));
}

#[test]
fn promote_missing_entry_changes_nothing() {
    let mut store = Store::new();
    store.add_urls_to_inbox(vec!["x".into()]).unwrap();
    let r = store.promote(999, default_state(), 7);
    assert_eq!(r, Err(StorageError::NotFound));
    // both well-defined states rule out a torn store: here, the pre-state
    assert_eq!(store.new_count(), 1);
    assert_eq!(store.total_count(), 0);
    assert_eq!(store.get_due(u64::MAX).len(), 0);
}

#[test]
fn promote_next_takes_the_oldest_entry() {
    let mut store = Store::new();
    store
        .add_urls_to_inbox(vec!["first".into(), "second".into()])
        .unwrap();
    let id = store.promote_next(default_state(), 3).unwrap().unwrap();
    assert_eq!(store.get_item(id).unwrap().url, "first".to_string());
    let left = store.get_n_urls_from_inbox(5);
    assert_eq!(left.len(), 1);
    assert_eq!(left[0].url, "second".to_string());
    // empty inbox: promotion reports None and changes nothing
    let mut empty = Store::new();
    assert_eq!(empty.promote_next(default_state(), 3).unwrap(), None);
    assert_eq!(empty.total_count(), 0);
}

#[test]
fn schema_version_gate() {
    assert_eq!(check_schema_version(SCHEMA_VERSION), Ok(()));
    assert_eq!(
        check_schema_version(2),
        Err(StorageError::SchemaMismatch(2))
    );
    assert_eq!(
        check_schema_version(0),
        Err(StorageError::SchemaMismatch(0))
    );
}

#[test]
fn app_config_default_path() {
    let conf = AppConfig::default();
    assert_eq!(conf.db_path, "./database/test.db".to_string());
}
