use quickclipboard_core::history_records::{get_clipboard_item_by_id, get_clipboard_item_by_id_with_limit};
use quickclipboard_core::table::Table;
use quickclipboard_core::history_records::{
    ensure_clipboard_item_uuid, get_clipboard_count, get_clipboard_item_id_by_uuid, webdav_get_history_record_by_uuid,
    webdav_history_record_states, webdav_list_history_record_metas, webdav_list_history_records,
    webdav_list_own_history_records, StoredHistoryRow,
};
use quickclipboard_core::query::get_clipboard_item_position;

fn row(id: i64, content: &str, updated_at: i64, uuid: Option<&str>, source: Option<&str>) -> StoredHistoryRow {
    StoredHistoryRow {
        id,
        uuid: uuid.map(|u| u.to_string()),
        source_device_id: source.map(|s| s.to_string()),
        is_remote: false,
        content: content.to_string(),
        html_content: None,
        content_type: "text".to_string(),
        image_id: None,
        item_order: id,
        is_pinned: false,
        paste_count: 0,
        source_app: None,
        source_icon_hash: None,
        char_count: Some(content.chars().count() as i64),
        created_at: updated_at,
        updated_at,
    }
}

#[test]
fn webdav_records_uuid_and_device_fallbacks() {
    let id1 = 1;
    let rows = vec![
        row(id1, "a", 100, None, None),
        row(2, "b", 200, Some("u2"), None),
        row(3, "c", 300, Some("u3"), Some("dev-other")),
    ];

    let records = webdav_list_history_records(&rows, "dev-local");
    let rec1 = records.iter().find(|r| r.content == "a").unwrap();
    assert_eq!(rec1.uuid, id1.to_string(), "无 uuid 行用 id 字符串");
    assert_eq!(rec1.source_device_id, "dev-local", "无 device 行用请求方 device_id");
    let rec3 = records.iter().find(|r| r.content == "c").unwrap();
    assert_eq!(rec3.source_device_id, "dev-other", "有 device 行保留原值");

    let own = webdav_list_own_history_records(&rows, "dev-local");
    let contents: Vec<&str> = own.iter().map(|r| r.content.as_str()).collect();
    assert!(contents.contains(&"a") && contents.contains(&"b"));
    assert!(!contents.contains(&"c"), "其他设备行不得出现在 own 列表");

    let states = webdav_history_record_states(&rows);
    assert_eq!(states.len(), 2, "只统计非空 uuid（u2、u3）");
    assert_eq!(states.get("u2"), Some(200));
    assert_eq!(states.get("u3"), Some(300));
    assert!(states.get(&id1.to_string()).is_none(), "无 uuid 行不得进入 states");
}

#[test]
fn a_record_is_found_by_uuid_or_by_the_id_of_a_row_without_one() {
    let rows = vec![
        row(7, "seven", 70, Some(""), Some("  ")),
        row(8, "eight", 80, Some("u8"), Some("dev-b")),
        row(9, "nine", 90, None, None),
    ];
    let found = webdav_get_history_record_by_uuid(&rows, "u8", "dev-a").unwrap();
    assert_eq!(found.content, "eight");
    assert_eq!(found.source_device_id, "dev-b");
    let found = webdav_get_history_record_by_uuid(&rows, "7", "dev-a").unwrap();
    assert_eq!(found.content, "seven");
    assert_eq!(found.uuid, "7");
    assert_eq!(found.source_device_id, "dev-a");
    assert_eq!(found.group_name, "全部");
    assert_eq!(webdav_get_history_record_by_uuid(&rows, "+9", "dev-a").unwrap().content, "nine");
    assert!(webdav_get_history_record_by_uuid(&rows, "8", "dev-a").is_none());
    assert!(webdav_get_history_record_by_uuid(&rows, "nope", "dev-a").is_none());

    let metas = webdav_list_history_record_metas(&rows);
    let uuids: Vec<&str> = metas.iter().map(|m| m.uuid.as_str()).collect();
    assert_eq!(uuids, vec!["7", "u8", "9"]);
    assert_eq!(metas[1].updated_at, 80);

    let own = webdav_list_own_history_records(&rows, "dev-a");
    let contents: Vec<&str> = own.iter().map(|r| r.content.as_str()).collect();
    assert_eq!(contents, vec!["nine"]);
}

#[test]
fn position_count_and_uuid_helpers() {
    let mut rows = vec![row(1, "a", 100, None, None), row(2, "b", 200, None, None), row(3, "c", 300, None, None)];
    let mid = 2;

    assert_eq!(get_clipboard_count(Some(&rows)), Ok(3));
    let pos = get_clipboard_item_position(&rows, mid);
    assert_eq!(pos, Some(1), "c(0), b(1), a(2) 的 0 基位置");

    let uuid1 = ensure_clipboard_item_uuid(&mut rows, mid).unwrap();
    assert!(!uuid1.trim().is_empty());
    let uuid2 = ensure_clipboard_item_uuid(&mut rows, mid).unwrap();
    assert_eq!(uuid1, uuid2, "uuid 生成必须幂等");
    assert_eq!(get_clipboard_item_id_by_uuid(&rows, &uuid1), Some(mid));
    assert_eq!(get_clipboard_item_id_by_uuid(&rows, "no-such-uuid"), None);
    assert_eq!(
        ensure_clipboard_item_uuid(&mut rows, 99999).unwrap_err(),
        "生成 uuid 失败",
        "不存在的行：UPDATE 0 行后回读 None → 报生成失败"
    );
}

#[test]
fn whitespace_uuids_are_neither_used_nor_replaced() {
    let mut rows = vec![row(1, "a", 100, Some("   "), None), row(2, "b", 100, Some("u2"), None)];
    assert_eq!(ensure_clipboard_item_uuid(&mut rows, 1).unwrap_err(), "生成 uuid 失败");
    assert_eq!(rows[0].uuid.as_deref(), Some("   "));
    assert_eq!(ensure_clipboard_item_uuid(&mut rows, 2).unwrap(), "u2");
    let mut rows = vec![row(5, "e", 100, Some(""), None)];
    let fresh = ensure_clipboard_item_uuid(&mut rows, 5).unwrap();
    assert_eq!(fresh.len(), 36);
    assert_eq!(rows[0].uuid.as_deref(), Some(fresh.as_str()));
}

#[test]
fn reading_an_item_limits_text_and_fills_its_count_and_favorite() {
    let mut long = row(3, "abcdefgh", 10, Some("u3"), None);
    long.char_count = None;
    let mut pic = row(4, "abcdefgh", 10, None, None);
    pic.content_type = "image".to_string();
    pic.char_count = None;
    let rows = vec![row(1, "hi", 5, Some("u1"), Some("dev-a")), long, pic];
    let mut favorites: Table<String> = Table::new();
    favorites.insert("u3".to_string(), "fav-3".to_string());

    let item = get_clipboard_item_by_id_with_limit(&rows, &favorites, 3, Some(4)).unwrap();
    assert_eq!(item.content, "...(内容过长已截断)");
    assert_eq!(item.char_count, Some(8));
    assert_eq!(item.favorite_id.as_deref(), Some("fav-3"));
    assert_eq!(item.uuid.as_deref(), Some("u3"));

    let item = get_clipboard_item_by_id(&rows, &favorites, 3).unwrap();
    assert_eq!(item.content, "abcdefgh");

    let item = get_clipboard_item_by_id_with_limit(&rows, &favorites, 4, Some(4)).unwrap();
    assert_eq!(item.content, "abcdefgh", "非文本内容不截断");
    assert_eq!(item.char_count, None);
    assert_eq!(item.favorite_id, None);

    let item = get_clipboard_item_by_id(&rows, &favorites, 1).unwrap();
    assert_eq!(item.source_device_id.as_deref(), Some("dev-a"));
    assert_eq!(item.char_count, Some(2));
    assert!(get_clipboard_item_by_id(&rows, &favorites, 9).is_none());
}
