use quickclipboard_core::clipboard_store::{update_clipboard_item, update_clipboard_item_at};
use quickclipboard_core::clipboard_data::{ClipboardDataSeed, ClipboardDataStore};
use quickclipboard_core::history_records::StoredHistoryRow;
use quickclipboard_core::clipboard_store::update_missing_char_counts;
use quickclipboard_core::clipboard_store::{store_clipboard_item, StorePlan};
use quickclipboard_core::item_order::ItemSlot;
use quickclipboard_core::clipboard_store::raw_formats_outdated;
use quickclipboard_core::clipboard_store::{
    calculate_char_count, check_image_allowed, compare_file_contents, find_duplicate_item, is_file_type, is_image_type,
    is_text_type, DuplicateClipboardItem, RecentItem,
};

fn item(id: i64, content: &str, content_type: &str, is_pinned: i64) -> RecentItem {
    RecentItem { id, content: content.to_string(), content_type: content_type.to_string(), is_pinned }
}

#[test]
fn malformed_files_json_never_deduplicates() {
    assert!(!compare_file_contents("files:not-json", "files:not-json"));
    assert!(!compare_file_contents("files:{\"files\":[]}", "files:{\"oops\""));
}

#[test]
fn file_duplicate_compares_sorted_path_sets() {
    let a = "files:{\"files\":[{\"path\":\"b.txt\"},{\"path\":\"a.txt\"}]}";
    let b = "files:{\"files\":[{\"path\":\"a.txt\"},{\"path\":\"b.txt\"}],\"operation\":\"copy\"}";
    assert!(compare_file_contents(a, b));
    let c = "files:{\"files\":[{\"path\":\"a.txt\"},{\"path\":\"c.txt\"}]}";
    assert!(!compare_file_contents(a, c));
    assert!(compare_file_contents("plain", "plain"));
    assert!(!compare_file_contents("plain", "plain2"));
}

#[test]
fn file_lists_compare_counts_and_missing_arrays() {
    let one = "files:{\"files\":[{\"path\":\"a\"}]}";
    let two = "files:{\"files\":[{\"path\":\"a\"},{\"path\":\"a\"}]}";
    assert!(!compare_file_contents(one, two));
    assert!(compare_file_contents("files:{}", "files:{\"files\":[{\"name\":\"x\"}]}"));
    assert!(!compare_file_contents("files:{}", "plain"));
}

#[test]
fn text_and_file_contents_are_not_duplicates_even_with_same_string() {
    let recent = vec![item(1, "abc", "text", 0)];
    assert_eq!(find_duplicate_item("file", "abc", &recent), None);
    assert_eq!(find_duplicate_item("text", "abc", &recent), Some(DuplicateClipboardItem { id: 1, is_pinned: 0 }));
}

#[test]
fn first_matching_recent_item_is_the_duplicate() {
    let recent = vec![
        item(9, "x", "text", 0),
        item(7, "files:{\"files\":[{\"path\":\"a\"}]}", "image", 1),
        item(5, "files:{\"files\":[{\"path\":\"a\"}]}", "file", 0),
    ];
    assert_eq!(
        find_duplicate_item("file", "files:{\"files\":[{\"path\":\"a\"}]}", &recent),
        Some(DuplicateClipboardItem { id: 7, is_pinned: 1 })
    );
    assert_eq!(find_duplicate_item("link", "x", &recent), Some(DuplicateClipboardItem { id: 9, is_pinned: 0 }));
}

#[test]
fn images_disabled_rejects_image_content_exactly() {
    assert_eq!(check_image_allowed(false, "image").unwrap_err(), "已禁止保存图片");
    assert!(check_image_allowed(false, "text").is_ok());
    assert!(check_image_allowed(true, "image").is_ok());
}

#[test]
fn content_type_classes() {
    assert!(is_text_type("text"));
    assert!(is_text_type("rich_text"));
    assert!(is_text_type("link"));
    assert!(!is_text_type("plain-text-ish"));
    assert!(is_file_type("image"));
    assert!(is_file_type("file"));
    assert!(is_image_type("image/png"));
    assert!(!is_image_type("file"));
}

#[test]
fn char_count_counts_characters_not_bytes() {
    assert_eq!(calculate_char_count("你好", "text"), Some(2));
    assert_eq!(calculate_char_count("", "text"), None);
    assert_eq!(calculate_char_count("abc", "image"), None);
    assert_eq!(calculate_char_count("abc", "rich_text"), Some(3));
}

#[test]
fn edits_outdate_raw_formats_only_when_something_changes() {
    assert!(raw_formats_outdated("old", None, "new", None));
    assert!(!raw_formats_outdated("new", None, "new", None));
    assert!(raw_formats_outdated("new", None, "new", Some("<p>new</p>")));
    assert!(!raw_formats_outdated("new", Some("<p>new</p>"), "new", Some("<p>new</p>")));
    assert!(raw_formats_outdated("new", Some("<p>a</p>"), "new", Some("<p>b</p>")));
    assert!(!raw_formats_outdated("new", Some("<p>a</p>"), "new", None));
}

#[test]
fn captures_refresh_their_duplicate_or_go_on_top() {
    let slots = vec![
        ItemSlot { id: 1, is_pinned: true, item_order: 5 },
        ItemSlot { id: 2, is_pinned: false, item_order: 1 },
        ItemSlot { id: 3, is_pinned: false, item_order: 2 },
    ];
    let items = vec![item(3, "xyz", "text", 0), item(2, "abc", "text", 0), item(1, "pin", "text", 1)];
    assert_eq!(
        store_clipboard_item(true, "text", "new", &items, &slots).unwrap(),
        StorePlan::Insert { item_order: 3, char_count: Some(3) }
    );
    assert_eq!(
        store_clipboard_item(true, "text", "abc", &items, &slots).unwrap(),
        StorePlan::Refresh { id: 2, item_order: 3, char_count: Some(3) }
    );
    assert_eq!(
        store_clipboard_item(true, "text", "pin", &items, &slots).unwrap(),
        StorePlan::Refresh { id: 1, item_order: 1, char_count: Some(3) }
    );
    assert_eq!(store_clipboard_item(false, "image", "img-1", &items, &slots).unwrap_err(), "已禁止保存图片");
    assert_eq!(
        store_clipboard_item(true, "image", "img-1", &items, &slots).unwrap(),
        StorePlan::Insert { item_order: 3, char_count: None }
    );
}

#[test]
fn missing_char_counts_are_filled_for_text_rows_only() {
    let items = vec![
        (1, "héllo".to_string(), "text".to_string()),
        (2, "".to_string(), "text".to_string()),
        (3, "abc".to_string(), "image".to_string()),
        (4, "<b>x</b>".to_string(), "rich_text".to_string()),
        (5, "a,b".to_string(), "file".to_string()),
    ];
    assert_eq!(update_missing_char_counts(&items), vec![(1, 5), (4, 8)]);
    assert!(update_missing_char_counts(&[]).is_empty());
}

fn stored_row(id: i64, content: &str) -> StoredHistoryRow {
    StoredHistoryRow {
        id,
        uuid: None,
        source_device_id: None,
        is_remote: false,
        content: content.to_string(),
        html_content: None,
        content_type: "text".to_string(),
        image_id: None,
        item_order: 1,
        is_pinned: false,
        paste_count: 0,
        source_app: None,
        source_icon_hash: None,
        char_count: None,
        created_at: 100,
        updated_at: 100,
    }
}

#[test]
fn update_item_clears_raw_formats_only_on_change() {
    let mut rows = vec![stored_row(1, "old")];
    let mut raw = ClipboardDataStore::new();
    let seed = || vec![ClipboardDataSeed { format_name: "text/plain".into(), raw_data: b"old".to_vec(), is_primary: true, format_order: 0 }];
    raw.save_clipboard_data_items("clipboard", "1", &seed());

    update_clipboard_item(&mut rows, &mut raw, 1, "new".into(), None).unwrap();
    assert!(raw.get_clipboard_data_items("clipboard", "1").is_empty());

    raw.save_clipboard_data_items("clipboard", "1", &seed());
    update_clipboard_item(&mut rows, &mut raw, 1, "new".into(), None).unwrap();
    assert_eq!(raw.get_clipboard_data_items("clipboard", "1").len(), 1);

    raw.save_clipboard_data_items("clipboard", "1", &seed());
    update_clipboard_item(&mut rows, &mut raw, 1, "new".into(), Some("<p>new</p>".into())).unwrap();
    assert!(raw.get_clipboard_data_items("clipboard", "1").is_empty());

    raw.save_clipboard_data_items("clipboard", "1", &seed());
    update_clipboard_item(&mut rows, &mut raw, 1, "new".into(), Some("<p>new</p>".into())).unwrap();
    assert_eq!(raw.get_clipboard_data_items("clipboard", "1").len(), 1);

    assert_eq!(
        update_clipboard_item(&mut rows, &mut raw, 99999, "x".into(), None).unwrap_err(),
        "数据库操作失败: Query returned no rows"
    );
}

#[test]
fn an_edit_keeps_the_html_when_none_is_given_and_stamps_the_time() {
    let mut rows = vec![stored_row(4, "a")];
    rows[0].html_content = Some("<b>a</b>".to_string());
    let mut raw = ClipboardDataStore::new();
    update_clipboard_item_at(&mut rows, &mut raw, 4, "b".into(), None, 777).unwrap();
    assert_eq!(rows[0].content, "b");
    assert_eq!(rows[0].html_content.as_deref(), Some("<b>a</b>"));
    assert_eq!(rows[0].updated_at, 777);
    assert_eq!(rows[0].created_at, 100);
}
