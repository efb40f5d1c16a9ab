use quickclipboard_core::merge::{
    listed_group, plan_group_save, plan_history_upsert, ExistingGroupRow, ExistingHistoryRow, GroupSaveStep,
    HistoryUpsertStep,
};
use quickclipboard_core::sync::{CloudGroup, CloudRecord};

fn record(uuid: &str, updated_at: i64) -> CloudRecord {
    CloudRecord {
        uuid: uuid.to_string(),
        source_device_id: "dev-b".to_string(),
        is_remote: false,
        content: "hello".to_string(),
        html_content: None,
        content_type: "text".to_string(),
        image_id: None,
        source_app: None,
        source_icon_hash: None,
        char_count: Some(5),
        title: String::new(),
        group_name: String::new(),
        item_order: 3,
        paste_count: 0,
        created_at: 10,
        updated_at,
    }
}

fn stored_as(rec: &CloudRecord, updated_at: i64) -> ExistingHistoryRow {
    ExistingHistoryRow {
        source_device_id: rec.source_device_id.clone(),
        is_remote: true,
        updated_at,
        content: rec.content.clone(),
        html_content: rec.html_content.clone(),
        content_type: rec.content_type.clone(),
        image_id: rec.image_id.clone(),
        item_order: rec.item_order,
        paste_count: rec.paste_count,
        source_app: rec.source_app.clone(),
        source_icon_hash: rec.source_icon_hash.clone(),
        char_count: rec.char_count,
        created_at: rec.created_at,
    }
}

#[test]
fn tombstone_blocks_remote_upsert_until_record_is_newer() {
    let rec = record("u1", 100);
    assert_eq!(plan_history_upsert(&rec, false, Some(100), 0, None), HistoryUpsertStep::Skip);
    assert_eq!(plan_history_upsert(&rec, false, Some(150), 0, None), HistoryUpsertStep::Skip);
    assert_eq!(
        plan_history_upsert(&rec, false, Some(99), 0, None),
        HistoryUpsertStep::Insert { updated_at: 100, clear_tombstone: true }
    );
    assert_eq!(
        plan_history_upsert(&rec, false, None, 0, None),
        HistoryUpsertStep::Insert { updated_at: 100, clear_tombstone: false }
    );
}

#[test]
fn repair_overrides_tombstone_with_restored_timestamp() {
    let rec = record("u1", 100);
    assert_eq!(
        plan_history_upsert(&rec, true, Some(200), 201, None),
        HistoryUpsertStep::Insert { updated_at: 201, clear_tombstone: true }
    );
}

#[test]
fn blank_uuid_is_skipped() {
    assert_eq!(plan_history_upsert(&record("  ", 100), false, None, 0, None), HistoryUpsertStep::Skip);
}

#[test]
fn existing_rows_are_kept_when_newer_or_identical_and_updated_when_older() {
    let rec = record("u1", 100);
    let newer = stored_as(&rec, 150);
    assert_eq!(
        plan_history_upsert(&rec, false, Some(90), 0, Some(&newer)),
        HistoryUpsertStep::KeepExisting { clear_tombstone: true }
    );
    let same = stored_as(&rec, 100);
    assert_eq!(
        plan_history_upsert(&rec, false, None, 0, Some(&same)),
        HistoryUpsertStep::KeepExisting { clear_tombstone: false }
    );
    let mut older = stored_as(&rec, 50);
    older.content = "old".to_string();
    assert_eq!(
        plan_history_upsert(&rec, false, Some(60), 0, Some(&older)),
        HistoryUpsertStep::Update { updated_at: 100, clear_tombstone: true }
    );
}

fn group(name: &str, icon: &str, color: &str, updated_at: i64) -> CloudGroup {
    CloudGroup {
        name: name.to_string(),
        icon: icon.to_string(),
        color: color.to_string(),
        order: 1,
        source_device_id: "dev-b".to_string(),
        created_at: 10,
        updated_at,
    }
}

#[test]
fn group_insert_normalizes_icon_and_color() {
    let g = group("work", "  ", "rgba", 100);
    assert_eq!(
        plan_group_save(&g, false, None, 0, None),
        GroupSaveStep::Insert {
            icon: "ti ti-folder".to_string(),
            color: "#dc2626".to_string(),
            updated_at: 100,
            clear_tombstone: false
        }
    );
    assert_eq!(plan_group_save(&g, false, Some(100), 0, None), GroupSaveStep::Skip);
}

#[test]
fn newer_stored_group_is_repaired_not_overwritten() {
    let g = group("work", "ti ti-star", "#3B82F6", 100);
    let stored = ExistingGroupRow {
        icon: " ti ti-briefcase ".to_string(),
        color: "".to_string(),
        order: 2,
        source_device_id: "dev-a".to_string(),
        created_at: 5,
        updated_at: 200,
    };
    assert_eq!(
        plan_group_save(&g, false, None, 0, Some(&stored)),
        GroupSaveStep::KeepExisting {
            repair: Some(("ti ti-briefcase".to_string(), "#3b82f6".to_string())),
            clear_tombstone: false
        }
    );
}

#[test]
fn older_stored_group_takes_incoming_with_kept_icon() {
    let g = group("work", "", "#3b82f6", 300);
    let stored = ExistingGroupRow {
        icon: "ti ti-briefcase".to_string(),
        color: "#111111".to_string(),
        order: 1,
        source_device_id: "dev-b".to_string(),
        created_at: 10,
        updated_at: 200,
    };
    assert_eq!(
        plan_group_save(&g, false, Some(250), 0, Some(&stored)),
        GroupSaveStep::Update {
            icon: "ti ti-briefcase".to_string(),
            color: "#3b82f6".to_string(),
            updated_at: 300,
            clear_tombstone: true
        }
    );
}

#[test]
fn listed_group_fills_blank_source_device() {
    let g = listed_group("work".to_string(), "", "4282549748", 2, "  ", 1, 2, "dev-me");
    assert_eq!(g.icon, "ti ti-folder");
    assert_eq!(g.source_device_id, "dev-me");
    let g = listed_group("work".to_string(), "ti ti-x", "#ABCDEF", 2, " dev-a ", 1, 2, "dev-me");
    assert_eq!(g.source_device_id, "dev-a");
    assert_eq!(g.color, "#abcdef");
}
