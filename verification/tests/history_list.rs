use quickclipboard_core::history_records::{get_clipboard_count, StoredHistoryRow};
use quickclipboard_core::item_order::{move_clipboard_item_by_id, toggle_pin_clipboard_item, ItemSlot};
use quickclipboard_core::query::{get_clipboard_item_position, query_clipboard_items, PaginatedResult, QueryParams};
use quickclipboard_core::history_records::ClipboardItem;
use quickclipboard_core::table::wrap_store_error;
use quickclipboard_core::text::{truncate_around_keyword, truncate_string};

const MAX_CONTENT_LENGTH: usize = 1600;

struct Db {
    rows: Vec<(StoredHistoryRow, Option<String>)>,
}

impl Db {
    fn new() -> Db {
        Db { rows: Vec::new() }
    }

    fn seed(&mut self, uuid: Option<&str>, content: &str, content_type: &str, item_order: i64, updated_at: i64, is_pinned: bool) -> i64 {
        let id = self.rows.len() as i64 + 1;
        self.rows.push((
            StoredHistoryRow {
                id,
                uuid: uuid.map(|u| u.to_string()),
                source_device_id: None,
                is_remote: false,
                content: content.to_string(),
                html_content: None,
                content_type: content_type.to_string(),
                image_id: None,
                item_order,
                is_pinned,
                paste_count: 0,
                source_app: None,
                source_icon_hash: None,
                char_count: Some(content.chars().count() as i64),
                created_at: updated_at,
                updated_at,
            },
            None,
        ));
        id
    }

    /// Inserted as the next position number, as the seeding helper does.
    fn seed_clipboard(&mut self, content: &str, content_type: &str, updated_at: i64, is_pinned: bool) -> i64 {
        let next = self.rows.iter().map(|r| r.0.item_order).max().unwrap_or(0) + 1;
        self.seed(None, content, content_type, next, updated_at, is_pinned)
    }

    fn stored(&self) -> Vec<StoredHistoryRow> {
        self.rows
            .iter()
            .map(|(r, _)| StoredHistoryRow {
                id: r.id,
                uuid: r.uuid.clone(),
                source_device_id: r.source_device_id.clone(),
                is_remote: r.is_remote,
                content: r.content.clone(),
                html_content: r.html_content.clone(),
                content_type: r.content_type.clone(),
                image_id: r.image_id.clone(),
                item_order: r.item_order,
                is_pinned: r.is_pinned,
                paste_count: r.paste_count,
                source_app: r.source_app.clone(),
                source_icon_hash: r.source_icon_hash.clone(),
                char_count: r.char_count,
                created_at: r.created_at,
                updated_at: r.updated_at,
            })
            .collect()
    }

    fn slots(&self) -> Vec<ItemSlot> {
        self.rows
            .iter()
            .map(|r| ItemSlot { id: r.0.id, is_pinned: r.0.is_pinned, item_order: r.0.item_order })
            .collect()
    }

    fn row_mut(&mut self, id: i64) -> &mut StoredHistoryRow {
        &mut self.rows.iter_mut().find(|r| r.0.id == id).unwrap().0
    }

    fn query(&self, params: QueryParams) -> PaginatedResult<ClipboardItem> {
        query_clipboard_items(&params, MAX_CONTENT_LENGTH, Some(&self.rows)).unwrap().0
    }

    fn move_item(&mut self, from: i64, to: i64) {
        let moves = move_clipboard_item_by_id(&self.stored(), from, to).unwrap();
        for (id, order) in moves {
            self.row_mut(id).item_order = order;
        }
    }

    fn pin(&mut self, id: i64) -> bool {
        let (pinned, order) = toggle_pin_clipboard_item(&self.slots(), id).unwrap();
        let row = self.row_mut(id);
        row.is_pinned = pinned;
        row.item_order = order;
        pinned
    }
}

fn ids(page: &PaginatedResult<ClipboardItem>) -> Vec<i64> {
    page.items.iter().map(|i| i.id).collect()
}

fn search(s: &str) -> QueryParams {
    QueryParams { offset: 0, limit: 50, search: Some(s.to_string()), content_type: None }
}

#[test]
fn query_plain_truncation_and_content_type_filter() {
    let mut db = Db::new();
    let long_text = "Z".repeat(3000);
    let id_text = db.seed_clipboard(&long_text, "text", 100, false);
    let id_image = db.seed_clipboard(&long_text, "image", 200, false);

    let result = db.query(QueryParams::default());
    let text_item = result.items.iter().find(|i| i.id == id_text).unwrap();
    assert!(text_item.content.starts_with(&"Z".repeat(1550)));
    assert!(text_item.content.ends_with("...(内容过长已截断)"));
    let image_item = result.items.iter().find(|i| i.id == id_image).unwrap();
    assert_eq!(image_item.content, long_text, "非文本类型不得截断");

    let result = db.query(QueryParams { offset: 0, limit: 50, search: None, content_type: Some("image".to_string()) });
    assert_eq!(result.total_count, 1);
    assert_eq!(result.items[0].id, id_image);

    let result = db.query(search("needle-absent"));
    assert_eq!(result.total_count, 0);
    assert!(result.items.is_empty());
    assert!(!result.has_more);
}

#[test]
fn query_orders_pinned_first_and_cross_bucket_move_is_noop() {
    let mut db = Db::new();
    let id_a = db.seed_clipboard("a", "text", 100, false);
    let id_b = db.seed_clipboard("b", "text", 200, false);
    let id_c = db.seed_clipboard("c", "text", 300, false);
    let id_d = db.seed_clipboard("d", "text", 400, true);

    let result = db.query(QueryParams::default());
    assert_eq!(ids(&result), vec![id_d, id_c, id_b, id_a], "置顶优先，再按 item_order DESC");

    db.move_item(id_d, id_a);
    let orders: Vec<(i64, i64, i64)> = db.rows.iter().map(|r| (r.0.id, r.0.is_pinned as i64, r.0.item_order)).collect();
    assert_eq!(orders, vec![(id_a, 0, 1), (id_b, 0, 2), (id_c, 0, 3), (id_d, 1, 4)], "跨桶移动不得重排");

    db.move_item(id_c, id_a);
    let orders: Vec<(i64, i64)> =
        db.rows.iter().filter(|r| !r.0.is_pinned).map(|r| (r.0.id, r.0.item_order)).collect();
    assert_eq!(orders, vec![(id_a, 2), (id_b, 3), (id_c, 1)]);
    let result = db.query(QueryParams::default());
    assert_eq!(ids(&result), vec![id_d, id_b, id_a, id_c]);
}

#[test]
fn pin_toggle_moves_bucket_and_query_orders_pinned_first() {
    let mut db = Db::new();
    let id_a = db.seed(Some("ua"), "a", "text", 1, 1000, false);
    let id_b = db.seed(Some("ub"), "b", "text", 2, 2000, false);
    let id_c = db.seed(Some("uc"), "c", "text", 3, 3000, false);

    assert!(db.pin(id_b), "返回 true = 已置顶");
    let b = db.rows.iter().find(|r| r.0.id == id_b).unwrap();
    assert_eq!(b.0.is_pinned, true);
    assert_eq!(b.0.item_order, 1, "置顶桶空 → order = max(pinned)+1 = 1");

    let page = db.query(QueryParams::default());
    assert_eq!(ids(&page), vec![id_b, id_c, id_a], "置顶优先，未置顶按 order DESC");
}

#[test]
fn queries_fail_with_clear_error_when_db_closed() {
    let err = query_clipboard_items(&QueryParams::default(), MAX_CONTENT_LENGTH, None).unwrap_err();
    assert_eq!(err, "数据库未初始化");
}

#[test]
fn uninitialized_db_returns_bare_error_and_closure_errors_are_wrapped() {
    let err = get_clipboard_count(None).unwrap_err();
    assert_eq!(err, "数据库未初始化", "未初始化必须返回裸错误字符串");
    let wrapped = wrap_store_error("no such table: no_such_table");
    assert_eq!(wrapped, "数据库操作失败: no such table: no_such_table");
}

#[test]
fn query_pagination_has_more_boundaries() {
    let mut db = Db::new();
    let result = db.query(QueryParams::default());
    assert_eq!(result.total_count, 0);
    assert!(result.items.is_empty());
    assert!(!result.has_more);

    for i in 0..5 {
        db.seed_clipboard(&format!("c{}", i), "text", 100 + i, false);
    }
    let r = db.query(QueryParams { offset: 0, limit: 2, search: None, content_type: None });
    assert_eq!(r.items.len(), 2);
    assert_eq!(r.has_more, true);
    assert_eq!(r.offset, 0);
    assert_eq!(r.limit, 2);
    let r = db.query(QueryParams { offset: 4, limit: 2, search: None, content_type: None });
    assert_eq!(r.items.len(), 1);
    assert_eq!(r.has_more, false);
    assert_eq!(r.total_count, 5);
}

#[test]
fn search_truncates_around_keyword_and_filters_total_count() {
    let mut db = Db::new();
    let long = format!("{}needle{}", "前".repeat(3000), "后".repeat(3000));
    let id = db.seed(Some("u1"), &long, "text", 1, 1000, false);
    db.row_mut(id).char_count = None;
    db.seed(Some("u2"), "other stuff", "text", 2, 2000, false);

    let (page, backfills) = query_clipboard_items(&search("needle"), MAX_CONTENT_LENGTH, Some(&db.rows)).unwrap();
    assert_eq!(page.total_count, 1, "total_count 反映过滤");
    let item = &page.items[0];
    assert_eq!(item.content, truncate_around_keyword(long.clone(), "needle", 1600));
    assert!(item.content.len() <= 1600);
    assert!(item.content.contains("needle"));
    assert_eq!(item.char_count, Some(long.chars().count() as i64));
    assert_eq!(backfills.len(), 1);
    assert_eq!(backfills[0].0, id);

    let all = db.query(QueryParams::default());
    assert_eq!(all.total_count, 2);
}

#[test]
fn query_truncates_around_keyword_and_backfills_char_count() {
    let mut db = Db::new();
    let content = format!("{}needle{}", "A".repeat(3000), "B".repeat(3000));
    let id = db.seed(None, &content, "text", 1, 1, false);
    db.row_mut(id).char_count = None;

    let (result, backfills) = query_clipboard_items(&search("needle"), MAX_CONTENT_LENGTH, Some(&db.rows)).unwrap();
    assert_eq!(result.total_count, 1);
    assert_eq!(result.items.len(), 1);
    let excerpt = &result.items[0].content;
    assert!(excerpt.len() <= MAX_CONTENT_LENGTH);
    assert!(excerpt.starts_with("..."));
    assert_eq!(&excerpt[19..25], "needle", "关键词应位于摘要开头 16 字符处");
    assert!(excerpt.ends_with("..."));
    assert_eq!(result.items[0].char_count, Some(6006));
    assert_eq!(backfills, vec![(id, content.clone(), "text".to_string())]);
}

#[test]
fn search_is_like_with_ascii_case_folding_and_wildcards() {
    let mut db = Db::new();
    let a = db.seed_clipboard("Hello World", "text", 1, false);
    let b = db.seed_clipboard("hello_world", "text", 2, false);
    let c = db.seed_clipboard("HELLO WORLD", "rich_text", 3, false);
    let d = db.seed_clipboard("Ünïcode", "text", 4, false);

    assert_eq!(ids(&db.query(search("hello"))), vec![c, b, a]);
    assert_eq!(ids(&db.query(search("o_w"))), vec![c, b, a], "_ 匹配任一字符");
    assert_eq!(ids(&db.query(search("o%d"))), vec![d, c, b, a], "% 匹配任意串");
    assert_eq!(ids(&db.query(search("lo_w"))), vec![c, b, a]);
    assert_eq!(ids(&db.query(search("üNÏ"))), Vec::<i64>::new(), "非 ASCII 字母区分大小写");
    assert_eq!(ids(&db.query(search("Ünï"))), vec![d]);
    let p = QueryParams { offset: 0, limit: 50, search: Some("world".to_string()), content_type: Some("rich".to_string()) };
    assert_eq!(ids(&db.query(p)), vec![c]);
    let p = QueryParams { offset: 0, limit: 50, search: Some("   ".to_string()), content_type: Some("all".to_string()) };
    assert_eq!(db.query(p).total_count, 4);
}

#[test]
fn negative_offset_and_limit_read_as_sqlite_does() {
    let mut db = Db::new();
    for i in 0..4 {
        db.seed_clipboard(&format!("c{}", i), "text", i, false);
    }
    let r = db.query(QueryParams { offset: -3, limit: 2, search: None, content_type: None });
    assert_eq!(ids(&r), vec![4, 3]);
    let r = db.query(QueryParams { offset: 1, limit: -1, search: None, content_type: None });
    assert_eq!(ids(&r), vec![3, 2, 1]);
    assert!(!r.has_more);
    let r = db.query(QueryParams { offset: 9, limit: 2, search: None, content_type: None });
    assert!(r.items.is_empty());
}

#[test]
fn equal_orders_list_by_update_time_and_position_follows_the_list() {
    let mut db = Db::new();
    let a = db.seed(None, "a", "text", 5, 100, false);
    let b = db.seed(None, "b", "text", 5, 300, false);
    let c = db.seed(None, "c", "text", 7, 50, false);
    let d = db.seed(None, "d", "text", 1, 10, true);
    assert_eq!(ids(&db.query(QueryParams::default())), vec![d, c, b, a]);
    let stored = db.stored();
    assert_eq!(get_clipboard_item_position(&stored, d), Some(0));
    assert_eq!(get_clipboard_item_position(&stored, b), Some(2));
    assert_eq!(get_clipboard_item_position(&stored, a), Some(3));
    assert_eq!(get_clipboard_item_position(&stored, 42), None);
    assert_eq!(truncate_string("abc".to_string(), 3), "abc");
}
