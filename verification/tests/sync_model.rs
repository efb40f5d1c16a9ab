use quickclipboard_core::sync::{
    chunk_path, groups_newer_than_remote, mode_infos, record_metas_newer_than_remote, CloudGroup,
    CloudRecord, CloudRecordMeta, SyncCollection, SyncMode, SyncReport, SyncTransferFeature,
    TimestampMap, TransferBackend, CHUNK_RECORD_LIMIT,
};

fn meta(uuid: &str, updated_at: i64) -> CloudRecordMeta {
    CloudRecordMeta { uuid: uuid.to_string(), updated_at, image_id: None }
}

fn group(name: &str, updated_at: i64) -> CloudGroup {
    CloudGroup {
        name: name.to_string(),
        icon: String::new(),
        color: String::new(),
        order: 0,
        source_device_id: String::new(),
        created_at: 0,
        updated_at,
    }
}

fn states(pairs: &[(&str, i64)]) -> TimestampMap {
    let mut m = TimestampMap::new();
    for (k, v) in pairs {
        m.insert(k.to_string(), *v);
    }
    m
}

#[test]
fn record_metas_unknown_remote_included_regardless_of_updated_at() {
    let local = vec![meta("u1", 1)];
    let out = record_metas_newer_than_remote(local, &TimestampMap::new());
    assert_eq!(out.len(), 1);
    assert_eq!(out[0].uuid, "u1");
}

#[test]
fn record_metas_newer_than_remote_included_exact_and_older_excluded() {
    let local = vec![meta("newer", 200), meta("equal", 100), meta("older", 50)];
    let remote = states(&[("newer", 100), ("equal", 100), ("older", 100)]);
    let out = record_metas_newer_than_remote(local, &remote);
    assert_eq!(out.len(), 1, "仅严格更新的记录应被推送");
    assert_eq!(out[0].uuid, "newer");
}

#[test]
fn record_metas_empty_or_whitespace_uuid_never_included() {
    let local = vec![meta("", 999), meta("   ", 999), meta("u-ok", 999)];
    let out = record_metas_newer_than_remote(local, &TimestampMap::new());
    assert_eq!(out.len(), 1, "空 uuid 即使远端无记录也必须排除");
    assert_eq!(out[0].uuid, "u-ok");
}

#[test]
fn record_metas_order_preserved() {
    let local = vec![meta("a", 2), meta("b", 3), meta("c", 4)];
    let remote = states(&[("a", 1), ("b", 3), ("c", 3)]);
    let out = record_metas_newer_than_remote(local, &remote);
    let uuids = out.iter().map(|m| m.uuid.as_str()).collect::<Vec<_>>();
    assert_eq!(uuids, vec!["a", "c"], "输入顺序保持");
}

#[test]
fn groups_newer_than_remote_unknown_included() {
    let local = vec![group("全部", 5)];
    let out = groups_newer_than_remote(local, &[]);
    assert_eq!(out.len(), 1);
    assert_eq!(out[0].name, "全部");
}

#[test]
fn groups_newer_than_remote_strictly_newer_only() {
    let local = vec![group("g1", 200), group("g2", 100), group("g3", 50)];
    let remote = vec![group("g1", 100), group("g2", 100), group("g3", 100)];
    let out = groups_newer_than_remote(local, &remote);
    assert_eq!(out.len(), 1);
    assert_eq!(out[0].name, "g1");
}

#[test]
fn groups_whitespace_name_excluded() {
    let local = vec![group("", 999), group("  ", 999), group("work", 1)];
    let out = groups_newer_than_remote(local, &[]);
    assert_eq!(out.len(), 1);
    assert_eq!(out[0].name, "work");
}

#[test]
fn groups_order_preserved() {
    let local = vec![group("a", 2), group("b", 3), group("c", 4)];
    let remote = vec![group("a", 1), group("b", 3), group("c", 3)];
    let out = groups_newer_than_remote(local, &remote);
    let names = out.iter().map(|g| g.name.as_str()).collect::<Vec<_>>();
    assert_eq!(names, vec!["a", "c"]);
}

#[test]
fn groups_later_remote_duplicate_wins() {
    let local = vec![group("a", 5)];
    let remote = vec![group("a", 10), group("a", 1)];
    let out = groups_newer_than_remote(local, &remote);
    assert_eq!(out.len(), 1);
}

#[test]
fn timestamp_map_insert_overwrites() {
    let mut m = TimestampMap::new();
    assert_eq!(m.get("k"), None);
    m.insert("k".to_string(), 1);
    m.insert("k".to_string(), 7);
    assert_eq!(m.get("k"), Some(7));
    assert_eq!(m.get("x"), None);
}

#[test]
fn mode_infos_exact_two_modes() {
    let infos = mode_infos();
    assert_eq!(infos.len(), 2);
    assert_eq!(infos[0].mode, SyncMode::WebDav);
    assert_eq!(infos[0].backend, TransferBackend::WebDavStore);
    assert_eq!(infos[0].features, vec![SyncTransferFeature::Records, SyncTransferFeature::Files]);
    assert!(infos[0].available);
    assert_eq!(infos[1].mode, SyncMode::Lan);
    assert_eq!(infos[1].backend, TransferBackend::LanHttp);
    assert_eq!(infos[1].features, vec![SyncTransferFeature::Records, SyncTransferFeature::Files]);
    assert!(infos[1].available);
}

#[test]
fn mode_infos_expose_webdav_and_lan() {
    let infos = mode_infos();
    assert_eq!(infos.len(), 2);
    assert_eq!(infos[1].mode, SyncMode::Lan);
    assert_eq!(infos[1].backend, TransferBackend::LanHttp);
}

fn record_with_title(title: &str) -> CloudRecord {
    CloudRecord {
        uuid: "uuid-1".to_string(),
        source_device_id: "dev".to_string(),
        is_remote: false,
        content: "content-body".to_string(),
        html_content: None,
        content_type: "text".to_string(),
        image_id: None,
        source_app: None,
        source_icon_hash: None,
        char_count: None,
        title: title.to_string(),
        group_name: "全部".to_string(),
        item_order: 0,
        paste_count: 0,
        created_at: 1,
        updated_at: 2,
    }
}

#[test]
fn report_item_prefers_trimmed_title_over_content() {
    let record = record_with_title("  Hello World  ");
    let item = record.report_item("clipboard");
    assert_eq!(item.category, "clipboard");
    assert_eq!(item.id, "uuid-1");
    assert_eq!(item.summary, "Hello World");
    assert_eq!(item.source_device_id, "dev");
    assert_eq!(item.updated_at, 2);
}

#[test]
fn report_item_falls_back_to_trimmed_content() {
    let mut record = record_with_title("");
    record.content = "  content fallback  ".to_string();
    let item = record.report_item("favorites");
    assert_eq!(item.summary, "content fallback");
}

#[test]
fn report_item_truncates_at_40_chars_with_ellipsis() {
    let record = record_with_title(&"x".repeat(41));
    let item = record.report_item("clipboard");
    assert_eq!(item.summary.chars().count(), 41);
    assert_eq!(&item.summary[..40], "x".repeat(40));
    assert!(item.summary.ends_with('…'));
}

#[test]
fn report_item_exact_40_chars_gets_no_ellipsis() {
    let record = record_with_title(&"y".repeat(40));
    let item = record.report_item("clipboard");
    assert_eq!(item.summary, "y".repeat(40));
    assert!(!item.summary.ends_with('…'));
}

#[test]
fn report_item_counts_multibyte_chars_not_bytes() {
    let title = "汉".repeat(21);
    let record = record_with_title(&title);
    let item = record.report_item("clipboard");
    assert_eq!(item.summary, title);

    let record = record_with_title(&"汉".repeat(41));
    let item = record.report_item("clipboard");
    assert_eq!(item.summary.chars().count(), 41);
    assert_eq!(item.summary.chars().take(40).collect::<String>(), "汉".repeat(40));
    assert!(item.summary.ends_with('…'));
}

#[test]
fn sync_collection_dir_mapping_is_exact() {
    assert_eq!(SyncCollection::History.dir(), "history");
    assert_eq!(SyncCollection::Favorites.dir(), "favorites");
}

#[test]
fn chunk_record_limit_is_500() {
    assert_eq!(CHUNK_RECORD_LIMIT, 500);
}

#[test]
fn sync_report_default_is_zeroed() {
    let report = SyncReport::empty();
    assert_eq!(report.pushed, 0);
    assert_eq!(report.pulled, 0);
    assert!(report.errors.is_empty());
    assert!(report.pushed_items.is_empty());
    assert!(report.pulled_items.is_empty());
}

#[test]
fn chunk_path_layout_is_stable() {
    assert_eq!(chunk_path(SyncCollection::History, 0), "history/chunks/chunk_000.json");
    assert_eq!(chunk_path(SyncCollection::History, 12), "history/chunks/chunk_012.json");
    assert_eq!(chunk_path(SyncCollection::Favorites, 0), "favorites/chunks/chunk_000.json");
    assert_eq!(chunk_path(SyncCollection::Favorites, 500), "favorites/chunks/chunk_500.json");
}
