use quickclipboard_core::tombstone_store::TombstoneStore;
use quickclipboard_core::sync::{CloudGroup, CloudRecordMeta, SyncTombstone, TimestampMap};
use quickclipboard_core::tombstones::{
    accept_tombstone, filter_groups_not_deleted_by_states, filter_record_metas_not_deleted_by_states,
    list_sync_tombstones_since, restored_record_updated_at, restored_updated_at_as_of, tombstone_deletes, tombstone_state_key, COLLECTION_FAVORITES,
    COLLECTION_GROUPS, COLLECTION_HISTORY,
};

fn tomb(collection: &str, item: &str, deleted_at: i64) -> SyncTombstone {
    SyncTombstone {
        collection: collection.to_string(),
        item_id: item.to_string(),
        source_device_id: "dev-x".to_string(),
        deleted_at,
        created_at: deleted_at,
    }
}

#[test]
fn restored_time_is_latest_of_own_now_and_after_deletion() {
    assert_eq!(restored_updated_at_as_of(1000, None, 5000), 5000);
    assert_eq!(restored_updated_at_as_of(1000, Some(2000), 1500), 2001);
    assert_eq!(restored_updated_at_as_of(9000, Some(1), 5000), 9000);
    assert_eq!(restored_updated_at_as_of(1000, Some(i64::MAX), 0), i64::MAX);
}

#[test]
fn restored_record_updated_at_semantics() {
    let before = chrono::Utc::now().timestamp();
    let r1 = restored_record_updated_at(1000, None);
    let r2 = restored_record_updated_at(1000, Some(2000));
    let after = chrono::Utc::now().timestamp();
    assert!(r1 >= before && r1 <= after, "无 tombstone: max(updated_at, now)");
    assert!(r2 >= before && r2 <= after);
    assert!(r2 >= 2001, "有 tombstone: 必须 >= deleted_at + 1");
    let far_future = after + 100_000_000;
    let r3 = restored_record_updated_at(far_future, Some(1));
    assert_eq!(r3, far_future, "updated_at 主导时精确返回");
}

#[test]
fn state_keys_join_collection_and_item() {
    assert_eq!(tombstone_state_key(COLLECTION_HISTORY, "u1"), "history:u1");
    assert_eq!(tombstone_state_key(COLLECTION_GROUPS, "g1"), "groups:g1");
}

#[test]
fn tombstones_only_move_forward() {
    assert!(accept_tombstone(COLLECTION_HISTORY, "u1", None, 100));
    assert!(accept_tombstone(COLLECTION_HISTORY, "u1", Some(100), 200));
    assert!(!accept_tombstone(COLLECTION_HISTORY, "u1", Some(200), 150));
    assert!(!accept_tombstone(COLLECTION_HISTORY, "u1", Some(200), 200));
    assert!(!accept_tombstone("  ", "u1", None, 999));
    assert!(!accept_tombstone(COLLECTION_HISTORY, "", None, 999));
}

#[test]
fn tombstones_delete_only_older_items_and_never_the_default_group() {
    assert!(!tombstone_deletes(COLLECTION_HISTORY, "u1", 5000, 4000));
    assert!(tombstone_deletes(COLLECTION_HISTORY, "u2", 3000, 4000));
    assert!(tombstone_deletes(COLLECTION_FAVORITES, "f1", 4000, 4000));
    assert!(!tombstone_deletes(COLLECTION_GROUPS, "全部", 1, 999999));
    assert!(tombstone_deletes(COLLECTION_GROUPS, "work", 1, 5000));
    assert!(!tombstone_deletes("unknown", "x", 1, 5000));
}

#[test]
fn sync_filter_pure_functions() {
    let mut states = TimestampMap::new();
    states.insert("history:u1".to_string(), 100);
    states.insert("groups:g1".to_string(), 200);
    let meta = |uuid: &str, updated_at: i64| CloudRecordMeta { uuid: uuid.to_string(), updated_at, image_id: None };
    let metas = vec![meta("u1", 50), meta("u1", 100), meta("u1", 101), meta("u2", 50)];
    let kept: Vec<i64> = filter_record_metas_not_deleted_by_states(COLLECTION_HISTORY, metas, &states)
        .iter()
        .map(|m| m.updated_at)
        .collect();
    assert_eq!(kept, vec![101, 50]);

    let group = |name: &str, updated_at: i64| CloudGroup {
        name: name.to_string(),
        icon: String::new(),
        color: String::new(),
        order: 1,
        source_device_id: "d".to_string(),
        created_at: 1,
        updated_at,
    };
    let groups = vec![group("g1", 199), group("g1", 200), group("g1", 201), group("g2", 50)];
    let kept: Vec<i64> = filter_groups_not_deleted_by_states(groups, &states).iter().map(|g| g.updated_at).collect();
    assert_eq!(kept, vec![201, 50]);
}

#[test]
fn list_sync_tombstones_since_is_filtered_and_ordered() {
    let mut store = TombstoneStore::new();
    store.record_sync_tombstone(COLLECTION_HISTORY, "u1", "dev-x", 100);
    store.record_sync_tombstone(COLLECTION_FAVORITES, "f1", "dev-x", 300);
    store.record_sync_tombstone(COLLECTION_GROUPS, "g1", "dev-x", 200);

    let all = list_sync_tombstones_since(store.tombstones(), None);
    let dels: Vec<i64> = all.iter().map(|t| t.deleted_at).collect();
    assert_eq!(dels, vec![100, 200, 300], "按 deleted_at ASC");

    let since = list_sync_tombstones_since(store.tombstones(), Some(150));
    let dels: Vec<i64> = since.iter().map(|t| t.deleted_at).collect();
    assert_eq!(dels, vec![200, 300], "只返回 deleted_at > since");
    assert_eq!(since[0].collection, COLLECTION_GROUPS);

    let states = store.sync_tombstone_states();
    assert_eq!(states.get(&tombstone_state_key(COLLECTION_HISTORY, "u1")), Some(100));
    assert_eq!(states.get("history:u1"), Some(100));
    assert_eq!(states.len(), 3);
}

#[test]
fn tombstone_record_is_monotonic() {
    let mut store = TombstoneStore::new();
    store.record_sync_tombstone(COLLECTION_HISTORY, "u1", "dev-x", 100);
    assert_eq!(store.tombstone_deleted_at(COLLECTION_HISTORY, "u1"), Some(100));
    store.record_sync_tombstone(COLLECTION_HISTORY, "u1", "dev-y", 200);
    assert_eq!(store.tombstone_deleted_at(COLLECTION_HISTORY, "u1"), Some(200));
    let kept = store.tombstone(COLLECTION_HISTORY, "u1").unwrap();
    assert_eq!(kept.source_device_id, "dev-y");
    assert_eq!(kept.created_at, 200, "created_at 与 deleted_at 同步更新");
    store.record_sync_tombstone(COLLECTION_HISTORY, "u1", "dev-z", 150);
    assert_eq!(store.tombstone_deleted_at(COLLECTION_HISTORY, "u1"), Some(200));
    store.record_sync_tombstone("  ", "u1", "dev-z", 999);
    store.record_sync_tombstone(COLLECTION_HISTORY, "", "dev-z", 999);
    assert_eq!(store.tombstone_deleted_at(COLLECTION_HISTORY, "u1"), Some(200));
}

#[test]
fn upsert_sync_tombstones_is_monotonic() {
    let mut store = TombstoneStore::new();
    let changed = store.upsert_sync_tombstones(&[]);
    assert!(changed.is_empty());

    let changed = store.upsert_sync_tombstones(&[tomb(COLLECTION_HISTORY, "u1", 100)]);
    assert_eq!(changed.len(), 1);
    assert_eq!(changed[0].deleted_at, 100);

    let changed = store.upsert_sync_tombstones(&[tomb(COLLECTION_HISTORY, "u1", 200)]);
    assert_eq!(changed.len(), 1);
    assert_eq!(store.tombstone_deleted_at(COLLECTION_HISTORY, "u1"), Some(200));

    let changed = store.upsert_sync_tombstones(&[tomb(COLLECTION_HISTORY, "u1", 150)]);
    assert!(changed.is_empty());
    assert_eq!(store.tombstone_deleted_at(COLLECTION_HISTORY, "u1"), Some(200));

    let changed = store.upsert_sync_tombstones(&[tomb("", "x", 1), tomb(COLLECTION_HISTORY, "", 1)]);
    assert!(changed.is_empty());
}

#[test]
fn a_batch_keeps_only_the_newest_deletion_of_each_item() {
    let mut store = TombstoneStore::new();
    let changed = store.upsert_sync_tombstones(&[
        tomb(COLLECTION_GROUPS, "g", 10),
        tomb(COLLECTION_GROUPS, "g", 30),
        tomb(COLLECTION_GROUPS, "g", 20),
        tomb(COLLECTION_FAVORITES, "g", 5),
    ]);
    let dels: Vec<i64> = changed.iter().map(|t| t.deleted_at).collect();
    assert_eq!(dels, vec![10, 30, 5]);
    assert_eq!(store.tombstone_deleted_at(COLLECTION_GROUPS, "g"), Some(30));
    assert_eq!(store.len(), 2);
    store.remove(&tombstone_state_key(COLLECTION_GROUPS, "g"));
    assert_eq!(store.get("groups:g"), None);
    assert_eq!(store.get("favorites:g"), Some(5));
}
