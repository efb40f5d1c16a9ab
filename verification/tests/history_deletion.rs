use quickclipboard_core::clipboard_data::{ClipboardDataSeed, ClipboardDataStore};
use quickclipboard_core::deletion::{delete_clipboard_item, delete_clipboard_item_at, delete_clipboard_items, delete_clipboard_items_at};
use quickclipboard_core::history_records::StoredHistoryRow;
use quickclipboard_core::tombstone_store::TombstoneStore;
use quickclipboard_core::deletion::{clear_clipboard_history, clear_clipboard_history_at, images_named, limit_clipboard_history};
use quickclipboard_core::deletion::{
    history_limit_applies, image_reference_patterns, split_image_ids, tombstone_id, unique_ids,
};

#[test]
fn image_ids_are_split_trimmed_and_blank_free() {
    assert_eq!(split_image_ids("a, b ,,c"), vec!["a".to_string(), "b".to_string(), "c".to_string()]);
    assert_eq!(split_image_ids(""), Vec::<String>::new());
    assert_eq!(split_image_ids(" , "), Vec::<String>::new());
    assert_eq!(split_image_ids("img-1"), vec!["img-1".to_string()]);
}

#[test]
fn history_limit_skips_trimming_at_999999() {
    assert!(!history_limit_applies(999999));
    assert!(!history_limit_applies(1_000_000));
    assert!(history_limit_applies(999998));
    assert!(history_limit_applies(0));
}

#[test]
fn tombstones_use_uuid_or_row_id() {
    assert_eq!(tombstone_id(Some("u-1".to_string()), 7), "u-1");
    assert_eq!(tombstone_id(Some("  ".to_string()), 7), "7");
    assert_eq!(tombstone_id(None, -3), "-3");
}

#[test]
fn image_reference_patterns_cover_each_position() {
    assert_eq!(
        image_reference_patterns("x1"),
        ("x1".to_string(), "x1,%".to_string(), "%,x1,%".to_string(), "%,x1".to_string())
    );
}

#[test]
fn unique_ids_keep_first_occurrences() {
    assert_eq!(unique_ids(&[3, 1, 3, 2, 1]), vec![3, 1, 2]);
    assert!(unique_ids(&[]).is_empty());
}

#[test]
fn history_limit_removes_rows_past_the_limit_with_their_images() {
    let listed = vec![
        (6, Some("pinned.png".to_string())),
        (5, Some("img1,img2".to_string())),
        (4, None),
        (3, Some("img2".to_string())),
        (2, Some(" ,img3".to_string())),
    ];
    let (ids, images) = limit_clipboard_history(&listed, 2);
    assert_eq!(ids, vec![4, 3, 2]);
    assert_eq!(images, vec!["img2".to_string(), "img3".to_string()]);

    let (ids, images) = limit_clipboard_history(&listed, 999999);
    assert!(ids.is_empty() && images.is_empty());

    let (ids, images) = limit_clipboard_history(&listed, 0);
    assert_eq!(ids, vec![6, 5, 4, 3, 2]);
    assert_eq!(images, vec!["pinned.png", "img1", "img2", "img3"]);

    let (ids, _) = limit_clipboard_history(&listed, 10);
    assert!(ids.is_empty());
}

#[test]
fn clearing_history_tombstones_every_row_and_collects_images() {
    let mut rows = vec![
        stored(1, "a", Some("u1"), Some("a,b")),
        stored(2, "b", None, None),
        stored(3, "c", Some("  "), Some("b")),
    ];
    let mut tombstones = TombstoneStore::new();
    let mut raw_formats = ClipboardDataStore::new();
    let images = clear_clipboard_history_at(&mut rows, &mut tombstones, &mut raw_formats, "dev-local", 50);
    assert!(rows.is_empty());
    assert_eq!(images, vec!["a", "b"]);
    let mut kept: Vec<(String, i64)> =
        tombstones.tombstones().into_iter().map(|t| (t.item_id, t.deleted_at)).collect();
    kept.sort();
    assert_eq!(kept, vec![("2".to_string(), 50), ("3".to_string(), 50), ("u1".to_string(), 50)]);
    assert_eq!(images_named(&[None, Some("x, y,x".to_string())]), vec!["x", "y"]);
}

#[test]
fn clear_history_writes_tombstones_and_clears_data() {
    let mut rows = vec![stored(1, "a", Some("u1"), None), stored(2, "b", Some("u2"), None)];
    let mut tombstones = TombstoneStore::new();
    let mut raw_formats = ClipboardDataStore::new();
    clear_clipboard_history(&mut rows, &mut tombstones, &mut raw_formats, "dev-local");
    assert_eq!(rows.len(), 0);
    assert!(tombstones.tombstone_deleted_at("history", "u1").is_some());
    assert!(tombstones.tombstone_deleted_at("history", "u2").is_some());
}

fn stored(id: i64, content: &str, uuid: Option<&str>, image_id: Option<&str>) -> StoredHistoryRow {
    StoredHistoryRow {
        id,
        uuid: uuid.map(|u| u.to_string()),
        source_device_id: None,
        is_remote: false,
        content: content.to_string(),
        html_content: None,
        content_type: if image_id.is_some() { "image".to_string() } else { "text".to_string() },
        image_id: image_id.map(|i| i.to_string()),
        item_order: id,
        is_pinned: false,
        paste_count: 0,
        source_app: None,
        source_icon_hash: None,
        char_count: None,
        created_at: 1,
        updated_at: 1,
    }
}

#[test]
fn delete_item_records_tombstone_and_removes_row_and_data() {
    let mut rows = vec![stored(1, "hello", Some("u1"), None)];
    let mut tombstones = TombstoneStore::new();
    let mut raw_formats = ClipboardDataStore::new();
    let before = chrono::Local::now().timestamp();
    let images = delete_clipboard_item(&mut rows, &mut tombstones, &mut raw_formats, "dev-local", 1);
    let after = chrono::Local::now().timestamp();
    assert!(images.is_empty());
    assert_eq!(rows.len(), 0);
    let kept = tombstones.tombstone("history", "u1").unwrap();
    assert_eq!(kept.item_id, "u1");
    assert_eq!(kept.source_device_id, "dev-local");
    assert!(kept.deleted_at >= before && kept.deleted_at <= after, "deleted_at 应在操作时间窗内");

    rows.push(stored(2, "x", None, None));
    delete_clipboard_item(&mut rows, &mut tombstones, &mut raw_formats, "dev-local", 2);
    assert!(tombstones.tombstone_deleted_at("history", "2").is_some(), "无 uuid 行 tombstone 用 id 字符串");
    assert_eq!(tombstones.tombstone_deleted_at("history", "uuid-2"), None);
}

#[test]
fn delete_item_with_image_id_keeps_referencing_row() {
    let mut rows = vec![stored(1, "pic", None, Some("tstimg")), stored(2, "pic2", None, Some("tstimg"))];
    let mut tombstones = TombstoneStore::new();
    let mut raw_formats = ClipboardDataStore::new();
    let images = delete_clipboard_item_at(&mut rows, &mut tombstones, &mut raw_formats, "dev-local", 1, 100);
    assert_eq!(images, vec!["tstimg".to_string()]);
    assert_eq!(rows.len(), 1);
    assert_eq!(rows[0].content, "pic2");
}

#[test]
fn deleting_a_missing_item_changes_nothing() {
    let mut rows = vec![stored(1, "a", Some("u1"), Some("img"))];
    let mut tombstones = TombstoneStore::new();
    let mut raw_formats = ClipboardDataStore::new();
    let images = delete_clipboard_item_at(&mut rows, &mut tombstones, &mut raw_formats, "dev-local", 9, 100);
    assert!(images.is_empty());
    assert_eq!(rows.len(), 1);
    assert_eq!(tombstones.len(), 0);
}

#[test]
fn deleting_items_tombstones_each_and_gathers_their_images_once() {
    let mut rows = vec![
        stored(1, "a", Some("u1"), Some("i1, i2")),
        stored(2, "b", Some("  "), Some("i2")),
        stored(3, "c", Some("u3"), None),
        stored(4, "d", None, Some("i4")),
    ];
    let mut tombstones = TombstoneStore::new();
    let mut raw_formats = ClipboardDataStore::new();
    tombstones.record_sync_tombstone("history", "u1", "dev-old", 500);
    let images = delete_clipboard_items_at(&mut rows, &mut tombstones, &mut raw_formats, "dev-local", &[2, 1, 2, 9], 300);
    assert_eq!(images, vec!["i1".to_string(), "i2".to_string()]);
    let left: Vec<i64> = rows.iter().map(|r| r.id).collect();
    assert_eq!(left, vec![3, 4]);
    assert_eq!(tombstones.tombstone_deleted_at("history", "u1"), Some(500), "更新的墓碑不回退");
    assert_eq!(tombstones.tombstone("history", "u1").unwrap().source_device_id, "dev-old");
    assert_eq!(tombstones.tombstone_deleted_at("history", "2"), Some(300));
    assert_eq!(tombstones.tombstone("history", "2").unwrap().source_device_id, "dev-local");
    assert_eq!(tombstones.len(), 2);

    let images = delete_clipboard_items(&mut rows, &mut tombstones, &mut raw_formats, "dev-local", &[]);
    assert!(images.is_empty());
    assert_eq!(rows.len(), 2);
}

#[test]
fn deleting_items_drops_their_raw_formats_even_without_a_row() {
    let seeds = vec![ClipboardDataSeed { format_name: "text/plain".into(), raw_data: b"x".to_vec(), is_primary: true, format_order: 0 }];
    let mut rows = vec![stored(1, "a", Some("u1"), None), stored(2, "b", Some("u2"), None)];
    let mut tombstones = TombstoneStore::new();
    let mut raw_formats = ClipboardDataStore::new();
    raw_formats.save_clipboard_data_items("clipboard", "1", &seeds);
    raw_formats.save_clipboard_data_items("clipboard", "2", &seeds);
    raw_formats.save_clipboard_data_items("clipboard", "5", &seeds);
    raw_formats.save_clipboard_data_items("favorite", "1", &seeds);

    delete_clipboard_item_at(&mut rows, &mut tombstones, &mut raw_formats, "dev-local", 5, 10);
    assert!(raw_formats.get_clipboard_data_items("clipboard", "5").is_empty());
    assert_eq!(rows.len(), 2);
    assert_eq!(tombstones.len(), 0);

    delete_clipboard_items_at(&mut rows, &mut tombstones, &mut raw_formats, "dev-local", &[1], 10);
    assert!(raw_formats.get_clipboard_data_items("clipboard", "1").is_empty());
    assert_eq!(raw_formats.get_clipboard_data_items("clipboard", "2").len(), 1);
    assert_eq!(raw_formats.get_clipboard_data_items("favorite", "1").len(), 1);

    clear_clipboard_history_at(&mut rows, &mut tombstones, &mut raw_formats, "dev-local", 20);
    assert!(raw_formats.get_clipboard_data_items("clipboard", "2").is_empty());
    assert_eq!(raw_formats.get_clipboard_data_items("favorite", "1").len(), 1);
    assert_eq!(tombstones.len(), 2);
}
