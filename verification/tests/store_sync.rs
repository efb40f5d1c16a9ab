use quickclipboard_core::clipboard_data::ClipboardDataStore;
use quickclipboard_core::deletion::delete_clipboard_items_at;
use quickclipboard_core::history_records::StoredHistoryRow;
use quickclipboard_core::lan::{lan_snapshot, list_groups, list_tombstones_since};
use quickclipboard_core::merge::{
    lan_save_groups, lan_upsert_history_records, webdav_list_groups, webdav_repair_groups, webdav_repair_groups_at,
    webdav_repair_history_records, webdav_repair_history_records_at, ExistingGroupRow, ExistingHistoryRow,
};
use quickclipboard_core::query::get_clipboard_item_position;
use quickclipboard_core::sync::{CloudGroup, CloudRecord, SyncTombstone, TimestampMap};
use quickclipboard_core::table::Table;
use quickclipboard_core::tombstone_store::TombstoneStore;
use quickclipboard_core::tombstones::{tombstone_state_key, COLLECTION_GROUPS, COLLECTION_HISTORY};

fn make_record(uuid: &str, content: &str, updated_at: i64) -> CloudRecord {
    CloudRecord {
        uuid: uuid.to_string(),
        source_device_id: "dev-r".to_string(),
        is_remote: false,
        content: content.to_string(),
        html_content: None,
        content_type: "text".to_string(),
        image_id: None,
        source_app: None,
        source_icon_hash: None,
        char_count: None,
        title: String::new(),
        group_name: "全部".to_string(),
        item_order: 1,
        paste_count: 0,
        created_at: updated_at,
        updated_at,
    }
}

fn record_tombstone(tombstones: &mut TombstoneStore, collection: &str, item_id: &str, deleted_at: i64) {
    tombstones.record_sync_tombstone(collection, item_id, "dev-x", deleted_at);
}

fn tombstone_deleted_at(tombstones: &TombstoneStore, collection: &str, item_id: &str) -> Option<i64> {
    tombstones.tombstone_deleted_at(collection, item_id)
}

fn seed_group(rows: &mut Table<ExistingGroupRow>, name: &str, icon: &str, color: &str, order: i32) {
    rows.insert(
        name.to_string(),
        ExistingGroupRow {
            icon: icon.to_string(),
            color: color.to_string(),
            order,
            source_device_id: String::new(),
            created_at: 1,
            updated_at: 1,
        },
    );
}

fn group(name: &str, icon: &str, color: &str, order: i32, updated_at: i64) -> CloudGroup {
    CloudGroup {
        name: name.to_string(),
        icon: icon.to_string(),
        color: color.to_string(),
        order,
        source_device_id: "dev-r".to_string(),
        created_at: 1,
        updated_at,
    }
}

#[test]
fn tombstone_blocks_remote_upsert_with_boundary() {
    let mut rows: Table<ExistingHistoryRow> = Table::new();
    let mut tombstones = TombstoneStore::new();
    record_tombstone(&mut tombstones, COLLECTION_HISTORY, "u1", 5000);

    let changed = lan_upsert_history_records(&mut rows, &mut tombstones, &[make_record("u1", "blocked-eq", 5000)]);
    assert!(changed.is_empty());
    assert_eq!(rows.len(), 0);

    let changed = lan_upsert_history_records(&mut rows, &mut tombstones, &[make_record("u1", "blocked-lt", 4999)]);
    assert!(changed.is_empty());
    assert_eq!(rows.len(), 0);

    let changed = lan_upsert_history_records(&mut rows, &mut tombstones, &[make_record("u1", "applied", 5001)]);
    assert_eq!(changed.len(), 1);
    assert_eq!(changed[0].uuid, "u1");
    let row = rows.get("u1").unwrap();
    assert_eq!(row.content, "applied");
    assert!(row.is_remote, "远端记录应标记 is_remote=1");
}

#[test]
fn repair_overrides_tombstone_and_clears_it() {
    let mut rows: Table<ExistingHistoryRow> = Table::new();
    let mut tombstones = TombstoneStore::new();
    record_tombstone(&mut tombstones, COLLECTION_HISTORY, "u1", 5000);

    let before = chrono::Utc::now().timestamp();
    let changed = webdav_repair_history_records(&mut rows, &mut tombstones, &[make_record("u1", "repaired", 1000)]);
    let after = chrono::Utc::now().timestamp();

    assert_eq!(changed.len(), 1, "修复模式必须返回应用结果");
    let row = rows.get("u1").unwrap();
    assert_eq!(row.content, "repaired");
    assert!(row.is_remote);
    assert!(row.updated_at >= before && row.updated_at <= after, "restored updated_at 应在调用时间窗内");
    assert!(row.updated_at >= 5001, "必须 >= tombstone.deleted_at + 1");
    assert_eq!(tombstone_deleted_at(&tombstones, COLLECTION_HISTORY, "u1"), None, "修复后 tombstone 应被清除");
}

#[test]
fn upsert_skips_when_existing_row_newer_and_clears_older_tombstone() {
    let mut rows: Table<ExistingHistoryRow> = Table::new();
    let mut tombstones = TombstoneStore::new();
    let changed = lan_upsert_history_records(&mut rows, &mut tombstones, &[make_record("u1", "first", 5000)]);
    assert_eq!(changed.len(), 1);
    record_tombstone(&mut tombstones, COLLECTION_HISTORY, "u1", 3000);

    let changed = lan_upsert_history_records(&mut rows, &mut tombstones, &[make_record("u1", "stale", 4000)]);
    assert!(changed.is_empty(), "旧记录不得回执为 changed");
    assert_eq!(rows.get("u1").unwrap().content, "first", "旧记录不得覆盖新行");
    assert_eq!(
        tombstone_deleted_at(&tombstones, COLLECTION_HISTORY, "u1"),
        None,
        "比行旧的 tombstone 在 skip 路径应被清除"
    );

    let changed = lan_upsert_history_records(&mut rows, &mut tombstones, &[make_record("u1", "newer", 6000)]);
    assert_eq!(changed.len(), 1);
    assert_eq!(rows.get("u1").unwrap().content, "newer");
}

#[test]
fn repair_exact_max_semantics_when_record_is_newest() {
    let mut rows: Table<ExistingHistoryRow> = Table::new();
    let mut tombstones = TombstoneStore::new();
    let deleted_at = chrono::Local::now().timestamp();
    record_tombstone(&mut tombstones, COLLECTION_HISTORY, "u2", deleted_at);

    let far_future = deleted_at + 1_000_000;
    let changed = webdav_repair_history_records(&mut rows, &mut tombstones, &[make_record("u2", "future", far_future)]);
    assert_eq!(changed[0].updated_at, far_future, "max(record, now, deleted_at+1) = record");
}

#[test]
fn webdav_list_and_save_groups_normalize_icon_color_device() {
    let mut rows: Table<ExistingGroupRow> = Table::new();
    let mut tombstones = TombstoneStore::new();
    seed_group(&mut rows, "g1", "", "", 1);
    let groups = webdav_list_groups("dev-local", &rows);
    assert_eq!(groups.len(), 1);
    assert_eq!(groups[0].name, "g1");
    assert_eq!(groups[0].icon, "ti ti-folder", "空图标回退");
    assert_eq!(groups[0].color, "#dc2626", "空颜色回退");
    assert_eq!(groups[0].source_device_id, "dev-local", "无 device 用请求方");

    let incoming = CloudGroup {
        name: "remote-g".into(),
        icon: "".into(),
        color: "#ABC".into(),
        order: 2,
        source_device_id: "dev-r".into(),
        created_at: 1,
        updated_at: 1,
    };
    let changed = lan_save_groups(&mut rows, &mut tombstones, &[incoming]);
    assert_eq!(changed.len(), 1);
    let groups = webdav_list_groups("dev-local", &rows);
    let rg = groups.iter().find(|g| g.name == "remote-g").unwrap();
    assert_eq!(rg.icon, "ti ti-folder");
    assert_eq!(rg.color, "#aabbcc", "3 位 hex 扩展并小写");
    assert_eq!(rg.source_device_id, "dev-r");
    let incoming = CloudGroup {
        name: "remote-g".into(),
        icon: "".into(),
        color: "#ABC".into(),
        order: 2,
        source_device_id: "dev-r".into(),
        created_at: 1,
        updated_at: 1,
    };
    let changed = lan_save_groups(&mut rows, &mut tombstones, &[incoming]);
    assert!(changed.is_empty(), "LWW：旧/相同 updated_at 不应用");
}

#[test]
fn pulling_the_same_records_twice_changes_nothing() {
    let mut rows: Table<ExistingHistoryRow> = Table::new();
    let mut tombstones = TombstoneStore::new();
    record_tombstone(&mut tombstones, COLLECTION_HISTORY, "u3", 100);
    record_tombstone(&mut tombstones, COLLECTION_HISTORY, "u4", 50);
    let batch = vec![
        make_record("u1", "one", 10),
        make_record("u2", "two", 20),
        make_record("u1", "one-older", 5),
        make_record("u3", "three", 90),
        make_record("u4", "four", 60),
        make_record(" ", "blank", 70),
    ];
    let first = lan_upsert_history_records(&mut rows, &mut tombstones, &batch);
    let first_uuids: Vec<&str> = first.iter().map(|r| r.uuid.as_str()).collect();
    assert_eq!(first_uuids, vec!["u1", "u2", "u4"]);
    assert_eq!(rows.len(), 3);
    assert_eq!(rows.get("u1").unwrap().content, "one");
    assert_eq!(tombstone_deleted_at(&tombstones, COLLECTION_HISTORY, "u3"), Some(100));
    assert_eq!(tombstone_deleted_at(&tombstones, COLLECTION_HISTORY, "u4"), None);

    let second = lan_upsert_history_records(&mut rows, &mut tombstones, &batch);
    assert!(second.is_empty());
    assert_eq!(rows.len(), 3);
    assert_eq!(rows.get("u1").unwrap().content, "one");
    assert_eq!(rows.get("u2").unwrap().updated_at, 20);
    assert_eq!(rows.get("u4").unwrap().updated_at, 60);
    assert_eq!(tombstone_deleted_at(&tombstones, COLLECTION_HISTORY, "u3"), Some(100));
}

#[test]
fn repair_at_a_given_time_restores_past_the_tombstone() {
    let mut rows: Table<ExistingHistoryRow> = Table::new();
    let mut tombstones = TombstoneStore::new();
    record_tombstone(&mut tombstones, COLLECTION_HISTORY, "u1", 5000);
    let changed = webdav_repair_history_records_at(&mut rows, &mut tombstones, &[make_record("u1", "back", 1000)], 3000);
    assert_eq!(changed.len(), 1);
    assert_eq!(changed[0].updated_at, 5001);
    assert_eq!(changed[0].content, "back");
    assert_eq!(rows.get("u1").unwrap().updated_at, 5001);
    assert_eq!(tombstone_deleted_at(&tombstones, COLLECTION_HISTORY, "u1"), None);
}

#[test]
fn newer_stored_group_keeps_its_time_but_gets_its_style_repaired() {
    let mut rows: Table<ExistingGroupRow> = Table::new();
    let mut tombstones = TombstoneStore::new();
    rows.insert(
        "work".to_string(),
        ExistingGroupRow {
            icon: "  ti ti-briefcase ".to_string(),
            color: "".to_string(),
            order: 3,
            source_device_id: "dev-a".to_string(),
            created_at: 5,
            updated_at: 500,
        },
    );
    let changed = lan_save_groups(&mut rows, &mut tombstones, &[group("work", "", "#3B82F6", 1, 100)]);
    assert_eq!(changed.len(), 1);
    assert_eq!(changed[0].icon, "ti ti-briefcase");
    assert_eq!(changed[0].color, "#3b82f6");
    assert_eq!(changed[0].updated_at, 500);
    let stored = rows.get("work").unwrap();
    assert_eq!(stored.icon, "ti ti-briefcase");
    assert_eq!(stored.color, "#3b82f6");
    assert_eq!(stored.order, 3);
    assert_eq!(stored.updated_at, 500);
}

#[test]
fn older_stored_group_is_replaced_and_tombstoned_group_is_skipped() {
    let mut rows: Table<ExistingGroupRow> = Table::new();
    let mut tombstones = TombstoneStore::new();
    seed_group(&mut rows, "old", "ti ti-star", "#111111", 1);
    record_tombstone(&mut tombstones, COLLECTION_GROUPS, "gone", 900);
    let changed = lan_save_groups(
        &mut rows,
        &mut tombstones,
        &[group("old", "ti ti-heart", "0xFF00FF00", 4, 50), group("gone", "", "", 1, 900)],
    );
    assert_eq!(changed.len(), 1);
    assert_eq!(changed[0].name, "old");
    assert_eq!(changed[0].color, "#00ff00");
    let stored = rows.get("old").unwrap();
    assert_eq!(stored.icon, "ti ti-heart");
    assert_eq!(stored.order, 4);
    assert_eq!(stored.source_device_id, "dev-r");
    assert!(rows.get("gone").is_none());
    assert_eq!(tombstone_deleted_at(&tombstones, COLLECTION_GROUPS, "gone"), Some(900));
}

#[test]
fn repairing_groups_brings_back_a_deleted_group() {
    let mut rows: Table<ExistingGroupRow> = Table::new();
    let mut tombstones = TombstoneStore::new();
    record_tombstone(&mut tombstones, COLLECTION_GROUPS, "gone", 900);
    let changed = webdav_repair_groups_at(&mut rows, &mut tombstones, &[group("gone", "", "", 1, 100)], 400);
    assert_eq!(changed.len(), 1);
    assert_eq!(changed[0].updated_at, 901);
    assert_eq!(changed[0].color, "#dc2626");
    assert_eq!(rows.get("gone").unwrap().updated_at, 901);
    assert_eq!(tombstone_deleted_at(&tombstones, COLLECTION_GROUPS, "gone"), None);

    let mut rows: Table<ExistingGroupRow> = Table::new();
    let mut tombstones = TombstoneStore::new();
    let before = chrono::Local::now().timestamp();
    let changed = webdav_repair_groups(&mut rows, &mut tombstones, &[group("fresh", "", "", 1, 100)]);
    let after = chrono::Local::now().timestamp();
    assert_eq!(changed.len(), 1);
    assert!(changed[0].updated_at >= before && changed[0].updated_at <= after);
}

#[test]
fn listed_groups_are_ordered_by_position_then_name_and_skip_deleted_ones() {
    let mut rows: Table<ExistingGroupRow> = Table::new();
    seed_group(&mut rows, "b", "", "", 2);
    seed_group(&mut rows, "c", "", "", 1);
    seed_group(&mut rows, "a", "", "", 2);
    seed_group(&mut rows, "d", "", "", 0);
    let names: Vec<String> = webdav_list_groups("dev", &rows).into_iter().map(|g| g.name).collect();
    assert_eq!(names, vec!["d", "c", "a", "b"]);

    let mut states = TimestampMap::new();
    states.insert(tombstone_state_key(COLLECTION_GROUPS, "c"), 1);
    states.insert(tombstone_state_key(COLLECTION_GROUPS, "a"), 0);
    let batch = list_groups("dev", &rows, &states);
    let names: Vec<String> = batch.groups.into_iter().map(|g| g.name).collect();
    assert_eq!(names, vec!["d", "a", "b"]);
}

#[test]
fn tombstone_batch_lists_newer_ones_by_deletion_time() {
    let t = |item: &str, deleted_at: i64| SyncTombstone {
        collection: "history".to_string(),
        item_id: item.to_string(),
        source_device_id: "dev".to_string(),
        deleted_at,
        created_at: deleted_at,
    };
    let batch = list_tombstones_since(vec![t("a", 30), t("b", 10), t("c", 20), t("d", 5)], Some(5));
    let items: Vec<&str> = batch.tombstones.iter().map(|t| t.item_id.as_str()).collect();
    assert_eq!(items, vec!["b", "c", "a"]);
}

#[test]
fn snapshot_carries_the_given_states() {
    let mut history = TimestampMap::new();
    history.insert("u1".to_string(), 10);
    let snap = lan_snapshot(
        "dev-a".to_string(),
        history,
        TimestampMap::new(),
        vec![group("g", "", "", 1, 1)],
        TimestampMap::new(),
    );
    assert_eq!(snap.device_id, "dev-a");
    assert_eq!(snap.history_states.get("u1"), Some(10));
    assert_eq!(snap.groups.len(), 1);
}

#[test]
fn item_position_is_zero_based_in_list_order() {
    let row = |id: i64, order: i64, pinned: bool| StoredHistoryRow {
        id,
        uuid: None,
        source_device_id: None,
        is_remote: false,
        content: String::new(),
        html_content: None,
        content_type: "text".to_string(),
        image_id: None,
        item_order: order,
        is_pinned: pinned,
        paste_count: 0,
        source_app: None,
        source_icon_hash: None,
        char_count: None,
        created_at: 0,
        updated_at: 0,
    };
    let rows = vec![row(1, 1, false), row(2, 2, false), row(3, 3, false), row(4, 0, true)];
    assert_eq!(get_clipboard_item_position(&rows, 4), Some(0));
    assert_eq!(get_clipboard_item_position(&rows, 2), Some(2));
    assert_eq!(get_clipboard_item_position(&rows, 3), Some(1));
    assert_eq!(get_clipboard_item_position(&rows, 9), None);
    assert_eq!(get_clipboard_item_position(&[], 1), None);
}

#[test]
fn table_keeps_one_row_per_key() {
    let mut t: Table<i64> = Table::new();
    t.insert("a".to_string(), 1);
    t.insert("b".to_string(), 2);
    t.insert("a".to_string(), 3);
    assert_eq!(t.len(), 2);
    assert_eq!(t.get("a"), Some(&3));
    t.remove("a");
    t.remove("zz");
    assert_eq!(t.len(), 1);
    assert_eq!(t.get("a"), None);
    assert_eq!(t.get("b"), Some(&2));

    let mut m = TimestampMap::new();
    m.insert("k".to_string(), 7);
    m.remove("k");
    assert_eq!(m.get("k"), None);
}

#[test]
fn pulling_the_same_groups_twice_changes_nothing() {
    let mut rows: Table<ExistingGroupRow> = Table::new();
    let mut tombstones = TombstoneStore::new();
    rows.insert(
        "dirty".to_string(),
        ExistingGroupRow {
            icon: " ti ti-star ".to_string(),
            color: "transparent".to_string(),
            order: 1,
            source_device_id: "dev-a".to_string(),
            created_at: 1,
            updated_at: 900,
        },
    );
    record_tombstone(&mut tombstones, COLLECTION_GROUPS, "blocked", 500);
    record_tombstone(&mut tombstones, COLLECTION_GROUPS, "old-tomb", 10);
    let batch = vec![
        group("dirty", "", "#ABC", 2, 100),
        group("new", " ti ti-heart ", "#ff00ff", 3, 100),
        group("blocked", "", "", 4, 400),
        group("old-tomb", "", "123", 5, 20),
        group("new", "", "", 6, 50),
    ];
    let first = lan_save_groups(&mut rows, &mut tombstones, &batch);
    let names: Vec<&str> = first.iter().map(|g| g.name.as_str()).collect();
    assert_eq!(names, vec!["dirty", "new", "old-tomb"]);
    assert_eq!(first[0].icon, "ti ti-star");
    assert_eq!(first[0].color, "#aabbcc");
    assert_eq!(first[2].color, "#00007b");
    assert_eq!(tombstone_deleted_at(&tombstones, COLLECTION_GROUPS, "old-tomb"), None);

    let second = lan_save_groups(&mut rows, &mut tombstones, &batch);
    assert!(second.is_empty());
    assert_eq!(rows.len(), 3);
    assert_eq!(rows.get("dirty").unwrap().color, "#aabbcc");
    assert_eq!(rows.get("new").unwrap().icon, "ti ti-heart");
    assert_eq!(tombstone_deleted_at(&tombstones, COLLECTION_GROUPS, "blocked"), Some(500));
}

#[test]
fn a_deleted_item_is_not_brought_back_by_an_older_or_equal_copy() {
    let mut stored = vec![StoredHistoryRow {
        id: 7,
        uuid: Some("u7".to_string()),
        source_device_id: None,
        is_remote: false,
        content: "gone".to_string(),
        html_content: None,
        content_type: "text".to_string(),
        image_id: None,
        item_order: 1,
        is_pinned: false,
        paste_count: 0,
        source_app: None,
        source_icon_hash: None,
        char_count: None,
        created_at: 1,
        updated_at: 1,
    }];
    let mut tombstones = TombstoneStore::new();
    let mut raw_formats = ClipboardDataStore::new();
    delete_clipboard_items_at(&mut stored, &mut tombstones, &mut raw_formats, "dev-local", &[7], 300);
    let mut rows: Table<ExistingHistoryRow> = Table::new();
    let changed = lan_upsert_history_records(&mut rows, &mut tombstones, &[make_record("u7", "same-time", 300)]);
    assert!(changed.is_empty());
    let changed = lan_upsert_history_records(&mut rows, &mut tombstones, &[make_record("u7", "later", 301)]);
    assert_eq!(changed.len(), 1);
    assert_eq!(tombstones.tombstone_deleted_at("history", "u7"), None);
}
