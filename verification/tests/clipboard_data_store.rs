use quickclipboard_core::clipboard_data::{ClipboardDataSeed, ClipboardDataStore};

fn seed(format_name: &str, raw: &[u8], is_primary: bool, format_order: i64) -> ClipboardDataSeed {
    ClipboardDataSeed { format_name: format_name.into(), raw_data: raw.to_vec(), is_primary, format_order }
}

#[test]
fn clipboard_data_upsert_get_delete() {
    let mut store = ClipboardDataStore::new();
    store.save_clipboard_data_items("clipboard", "1", &[]);
    assert_eq!(store.get_clipboard_data_items("clipboard", "1").len(), 0);

    let seeds = vec![seed("text/plain", b"abc", true, 1), seed("text/html", b"<b>x</b>", false, 0)];
    store.save_clipboard_data_items("clipboard", "1", &seeds);
    let items = store.get_clipboard_data_items("clipboard", "1");
    assert_eq!(items.len(), 2);
    assert_eq!(items[0].format_name, "text/html", "format_order ASC 优先");
    assert_eq!(items[0].raw_data, b"<b>x</b>");
    assert_eq!(items[0].is_primary, false);
    assert_eq!(items[1].format_name, "text/plain");
    assert_eq!(items[1].is_primary, true);

    store.save_clipboard_data_items("clipboard", "1", &[seed("text/plain", b"zzz", true, 5)]);
    let items = store.get_clipboard_data_items("clipboard", "1");
    assert_eq!(items.len(), 2);
    assert_eq!(items[1].raw_data, b"zzz");
    assert_eq!(items[1].format_order, 5);

    store.delete_clipboard_data_items("clipboard", "1");
    assert_eq!(store.get_clipboard_data_items("clipboard", "1").len(), 0);
    store.save_clipboard_data_items("clipboard", "9", &seeds);
    store.delete_clipboard_data_items_by_kind("clipboard");
    assert_eq!(store.get_clipboard_data_items("clipboard", "9").len(), 0);
}

#[test]
fn raw_formats_keep_their_id_and_creation_time_and_list_ties_by_id() {
    let mut store = ClipboardDataStore::new();
    store.save_clipboard_data_items_at("clipboard", "1", &[seed("a", b"1", true, 2), seed("b", b"2", false, 2)], 100);
    store.save_clipboard_data_items_at("favorite", "f1", &[seed("a", b"9", true, 0)], 100);
    store.save_clipboard_data_items_at("clipboard", "1", &[seed("a", b"3", false, 2)], 200);
    let items = store.get_clipboard_data_items("clipboard", "1");
    let names: Vec<&str> = items.iter().map(|i| i.format_name.as_str()).collect();
    assert_eq!(names, vec!["a", "b"]);
    assert_eq!(items[0].id, 1);
    assert_eq!(items[0].created_at, 100);
    assert_eq!(items[0].updated_at, 200);
    assert_eq!(items[0].raw_data, b"3");
    assert_eq!(items[1].id, 2);
    assert!(store.has_room_for(10));

    store.delete_clipboard_data_items("clipboard", "1");
    let other = store.get_clipboard_data_items("favorite", "f1");
    assert_eq!(other.len(), 1);
    assert_eq!(other[0].id, 3);
    assert_eq!(other[0].target_kind, "favorite");
}
