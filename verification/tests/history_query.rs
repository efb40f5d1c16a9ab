use quickclipboard_core::query::query_clipboard_items;
use quickclipboard_core::history_records::StoredHistoryRow;
use quickclipboard_core::query::{PaginatedResult, QueryParams};
use quickclipboard_core::query::{content_with_limit, preview_row, query_filter, where_clause};

#[test]
fn filter_uses_non_blank_search_and_specific_type() {
    let f = query_filter(Some("abc"), Some("text"));
    assert!(f.has_filter);
    assert_eq!(f.clauses, vec!["content LIKE ?", "content_type LIKE ?"]);
    assert_eq!(f.patterns, vec!["%abc%".to_string(), "%text%".to_string()]);
    assert_eq!(where_clause(&f.clauses), "WHERE content LIKE ? AND content_type LIKE ?");

    let f = query_filter(Some("   "), Some("all"));
    assert!(!f.has_filter);
    assert!(f.clauses.is_empty());
    assert_eq!(where_clause(&f.clauses), "");

    let f = query_filter(None, Some("image"));
    assert_eq!(where_clause(&f.clauses), "WHERE content_type LIKE ?");
    assert_eq!(f.patterns, vec!["%image%".to_string()]);
}

#[test]
fn non_textual_content_is_never_truncated() {
    let long_files = format!("files:{}", "x".repeat(3000));
    let mut row = fetched_row(1, &long_files, "file", None);
    row.0.uuid = Some("u1".to_string());
    let rows = vec![row];
    let (page, _) = query_clipboard_items(&QueryParams::default(), 1600, Some(&rows)).unwrap();
    let item = &page.items[0];
    assert_eq!(item.content_type, "file");
    assert_eq!(item.content.len(), long_files.len(), "非文本类型永不截断");
    assert!(item.content.len() > 1600);

    let long = "x".repeat(500);
    let r = preview_row(long.clone(), None, "image", None, 100, None);
    assert_eq!(r.content, long);
    assert_eq!(r.char_count, None);
    assert!(!r.needs_char_count_update);
}

#[test]
fn textual_content_is_cut_and_counted() {
    let long = "a".repeat(300);
    let r = preview_row(long.clone(), Some("<b>".to_string() + &long + "</b>"), "text", None, 100, None);
    assert!(r.content.len() < long.len());
    assert!(r.content.ends_with("...(内容过长已截断)"));
    assert_eq!(r.char_count, Some(300));
    assert!(r.needs_char_count_update);
    assert!(r.html_content.unwrap().len() < 300);

    let r = preview_row("short".to_string(), None, "text", Some("sh"), 100, Some(5));
    assert_eq!(r.content, "short");
    assert_eq!(r.char_count, Some(5));
    assert!(!r.needs_char_count_update);
}

#[test]
fn search_cuts_around_keyword() {
    let text = format!("{}KEY{}", "a".repeat(400), "b".repeat(400));
    let r = preview_row(text, None, "text", Some("key"), 200, None);
    assert!(r.content.to_lowercase().contains("key"));
}

#[test]
fn single_item_content_limit_applies_to_text_only() {
    let long = "z".repeat(200);
    assert_eq!(content_with_limit(long.clone(), "text", None), long);
    assert_eq!(content_with_limit(long.clone(), "image", Some(10)), long);
    assert!(content_with_limit(long.clone(), "text", Some(100)).ends_with("...(内容过长已截断)"));
}

fn fetched_row(id: i64, content: &str, content_type: &str, char_count: Option<i64>) -> (StoredHistoryRow, Option<String>) {
    (
        StoredHistoryRow {
            id,
            uuid: Some(format!("u{}", id)),
            source_device_id: None,
            is_remote: false,
            content: content.to_string(),
            html_content: None,
            content_type: content_type.to_string(),
            image_id: None,
            item_order: id,
            is_pinned: false,
            paste_count: 0,
            source_app: None,
            source_icon_hash: None,
            char_count,
            created_at: 1,
            updated_at: 1,
        },
        None,
    )
}

#[test]
fn a_page_cuts_around_the_keyword_and_lists_counts_to_backfill() {
    let content = format!("{}needle{}", "A".repeat(3000), "B".repeat(3000));
    let params = QueryParams { offset: 0, limit: 50, search: Some("needle".to_string()), content_type: None };
    let fetched = vec![fetched_row(1, &content, "text", None), fetched_row(2, "img needle", "image", None)];
    let (page, backfills) = query_clipboard_items(&params, 1000, Some(&fetched)).unwrap();
    assert_eq!(page.total_count, 2);
    assert!(!page.has_more);
    assert_eq!(page.items.len(), 2);
    let page_ids: Vec<i64> = page.items.iter().map(|i| i.id).collect();
    assert_eq!(page_ids, vec![2, 1]);
    let page_items: Vec<_> = page.items.iter().rev().collect();
    let excerpt = &page_items[0].content;
    assert!(excerpt.len() <= 1000);
    assert!(excerpt.starts_with("..."));
    assert_eq!(&excerpt[19..25], "needle");
    assert!(excerpt.ends_with("..."));
    assert_eq!(page_items[0].char_count, Some(6006));
    assert_eq!(page_items[1].content, "img needle");
    assert_eq!(page_items[1].char_count, None);
    assert_eq!(backfills.len(), 1);
    assert_eq!(backfills[0].0, 1);
    assert_eq!(backfills[0].1, content);
}

#[test]
fn an_empty_match_lists_nothing_and_later_pages_report_more() {
    let params = QueryParams::default();
    let (page, backfills) = query_clipboard_items(&params, 1000, Some(&[])).unwrap();
    assert_eq!(page.total_count, 0);
    assert!(page.items.is_empty() && backfills.is_empty());
    assert!(!page.has_more);

    let params = QueryParams { offset: 0, limit: 2, search: None, content_type: None };
    let fetched: Vec<_> = (1..=5).map(|i| fetched_row(i, &format!("c{}", i), "text", Some(2))).collect();
    let (page, backfills) = query_clipboard_items(&params, 1000, Some(&fetched)).unwrap();
    assert_eq!(page.items.len(), 2);
    assert_eq!(page.total_count, 5);
    assert!(page.has_more);
    assert_eq!((page.offset, page.limit), (0, 2));
    assert!(backfills.is_empty());
    let params = QueryParams { offset: 4, limit: 2, search: None, content_type: None };
    let (page, _) = query_clipboard_items(&params, 1000, Some(&fetched)).unwrap();
    assert_eq!(page.items.len(), 1);
    assert_eq!(page.items[0].id, 1);
    assert!(!page.has_more);
}

#[test]
fn paginated_result_has_more_is_exact() {
    let page: PaginatedResult<i64> = PaginatedResult::new(50, vec![1; 50], 0, 50);
    assert_eq!(page.has_more, false);
    assert_eq!(page.total_count, 50);
    let page: PaginatedResult<i64> = PaginatedResult::new(51, vec![1; 50], 0, 50);
    assert_eq!(page.has_more, true);
    let page: PaginatedResult<i64> = PaginatedResult::new(50, Vec::new(), 50, 50);
    assert_eq!(page.has_more, false, "最后一页恰好取完");
    let page: PaginatedResult<i64> = PaginatedResult::new(61, vec![1; 10], 50, 50);
    assert_eq!(page.has_more, true);
    let empty: PaginatedResult<i64> = PaginatedResult::new(0, Vec::new(), 0, 50);
    assert_eq!(empty.has_more, false);
    let page: PaginatedResult<i64> = PaginatedResult::new(5, vec![1], 4, 2);
    assert_eq!((page.offset, page.limit, page.has_more), (4, 2, false));

    let d = QueryParams::default();
    assert_eq!((d.offset, d.limit), (0, 50));
    assert_eq!(d.search, None);
    assert_eq!(d.content_type, None);
}
