use quickclipboard_core::panel::{
    blend_rgba, build_page_items, format_item_label, item_kind_label, jump_panel_page, next_page_after_scroll,
    normalize_text, page_footer, page_layout, page_list_items, page_offset, parse_files_content, resolve_theme_kind_from,
    scroll_panel_page, show_panel, summarize_named_items, summarize_text, PanelPageState, PanelPosition, PanelSourceItem,
    PanelThemeKind,
};

#[test]
fn normalize_text_collapses_whitespace_runs_and_trims() {
    assert_eq!(normalize_text("a  b\t\n c"), "a b c");
    assert_eq!(normalize_text("  hello   world  "), "hello world");
    assert_eq!(normalize_text("\t\n "), "");
    assert_eq!(normalize_text("a\u{00A0}b"), "a b");
    assert_eq!(normalize_text("a\u{00A0}\u{00A0}b"), "a b");
}

#[test]
fn summarize_text_returns_placeholder_for_empty_and_normalizes() {
    assert_eq!(summarize_text(""), "(空内容)");
    assert_eq!(summarize_text("   \n "), "(空内容)");
    assert_eq!(summarize_text("  a   b "), "a b");
}

#[test]
fn summarize_text_truncates_at_120_chars_with_ellipsis() {
    let exactly_120 = "a".repeat(120);
    assert_eq!(summarize_text(&exactly_120), exactly_120);

    let over_120 = "a".repeat(121);
    let expected = format!("{}…", "a".repeat(120));
    assert_eq!(summarize_text(&over_120), expected);
    assert_eq!(expected.chars().count(), 121);

    let chinese = "中".repeat(121);
    let expected_cn = format!("{}…", "中".repeat(120));
    assert_eq!(summarize_text(&chinese), expected_cn);
}

#[test]
fn parse_files_content_extracts_names_from_files_json() {
    let content = "files:{\"files\":[{\"name\":\"a.png\"},{\"name\":\"b.jpg\"}]}";
    assert_eq!(
        parse_files_content(content),
        Some(vec!["a.png".to_string(), "b.jpg".to_string()])
    );
}

#[test]
fn parse_files_content_rejects_invalid_or_missing_files_json() {
    assert_eq!(parse_files_content("files:not-json"), None);
    assert_eq!(parse_files_content("files:{\"files\":[]}"), None);
    assert_eq!(parse_files_content("files:{\"foo\":[{\"name\":\"a\"}]}"), None);
    assert_eq!(parse_files_content("files:{\"files\":[{\"path\":\"a\"}]}"), None);
    assert_eq!(parse_files_content("text:{\"files\":[{\"name\":\"a\"}]}"), None);
    assert_eq!(parse_files_content("files:"), None);
}

#[test]
fn parse_files_content_skips_entries_without_names() {
    let content = "files:{\"files\":[{\"path\":\"x\"},{\"name\":\"b.txt\"},{\"name\":7}]}";
    assert_eq!(parse_files_content(content), Some(vec!["b.txt".to_string()]));
}

#[test]
fn summarize_named_items_formats_counts_and_units() {
    assert_eq!(summarize_named_items(&[], "个文件"), "(空个文件)");
    assert_eq!(summarize_named_items(&["only.txt".to_string()], "个文件"), "only.txt");
    assert_eq!(
        summarize_named_items(&["a.png".to_string(), "b.jpg".to_string()], "张图片"),
        "a.png · b.jpg"
    );
    assert_eq!(
        summarize_named_items(
            &["a.txt".to_string(), "b.txt".to_string(), "c.txt".to_string()],
            "个文件"
        ),
        "a.txt · b.txt 等 3 个个文件"
    );
    assert_eq!(
        summarize_named_items(
            &["a.png".to_string(), "b.png".to_string(), "c.png".to_string()],
            "张图片"
        ),
        "a.png · b.png 等 3 个张图片"
    );
}

#[test]
fn format_item_label_dispatches_by_content_type() {
    assert_eq!(format_item_label("text", "  hi   there "), "hi there");
    assert_eq!(format_item_label("link", "  hi   there "), "hi there");
    assert_eq!(format_item_label("rich_text", "  hi   there "), "hi there");
    assert_eq!(format_item_label("unknown_type", "  hi   there "), "hi there");
}

#[test]
fn format_item_label_summarizes_long_text_with_ellipsis() {
    let content = "a".repeat(125);
    let expected = format!("{}…", "a".repeat(120));
    assert_eq!(format_item_label("text", &content), expected);
}

#[test]
fn format_item_label_handles_image_content() {
    assert_eq!(
        format_item_label("image", "files:{\"files\":[{\"name\":\"a.png\"},{\"name\":\"b.jpg\"}]}"),
        "a.png · b.jpg"
    );
    assert_eq!(format_item_label("image", "some-raw-bytes"), "图片");
}

#[test]
fn format_item_label_handles_file_content() {
    assert_eq!(
        format_item_label(
            "file",
            "files:{\"files\":[{\"name\":\"a.txt\"},{\"name\":\"b.txt\"},{\"name\":\"c.txt\"}]}"
        ),
        "a.txt · b.txt 等 3 个个文件"
    );
    assert_eq!(format_item_label("file", "C:\\Users\\me\\report.pdf"), "report.pdf");
    assert_eq!(format_item_label("file", "/tmp/dir/doc.txt"), "doc.txt");
}

#[test]
fn format_item_label_file_with_trailing_separator_is_placeholder() {
    assert_eq!(format_item_label("file", "/tmp/dir/"), "(空内容)");
}

#[test]
fn item_kind_label_maps_exact_content_types() {
    assert_eq!(item_kind_label("text"), "文本");
    assert_eq!(item_kind_label("link"), "链接");
    assert_eq!(item_kind_label("rich_text"), "富文");
    assert_eq!(item_kind_label("image"), "图片");
    assert_eq!(item_kind_label("file"), "文件");
    assert_eq!(item_kind_label("anything-else"), "其他");
    assert_eq!(item_kind_label(""), "其他");
}

fn labels(total_pages: i64, total_count: i64) -> Vec<(i64, String)> {
    build_page_items(total_pages, total_count)
        .into_iter()
        .map(|item| (item.page_index, item.label))
        .collect()
}

#[test]
fn build_page_items_computes_exact_labels_and_ranges() {
    assert_eq!(labels(1, 0), vec![(0, "第 1 页 · 0-0 条".to_string())]);
    assert_eq!(labels(0, 0), vec![(0, "第 1 页 · 0-0 条".to_string())]);
    assert_eq!(
        labels(2, 26),
        vec![
            (0, "第 1 页 · 1-25 条".to_string()),
            (1, "第 2 页 · 26-26 条".to_string()),
        ]
    );
    assert_eq!(
        labels(3, 75),
        vec![
            (0, "第 1 页 · 1-25 条".to_string()),
            (1, "第 2 页 · 26-50 条".to_string()),
            (2, "第 3 页 · 51-75 条".to_string()),
        ]
    );
}

#[test]
fn blend_rgba_blends_exact_channels() {
    assert_eq!(blend_rgba((243, 244, 246), (59, 130, 246, 0)), (243, 244, 246));
    assert_eq!(blend_rgba((243, 244, 246), (59, 130, 246, 255)), (59, 130, 246));
    assert_eq!(blend_rgba((243, 244, 246), (59, 130, 246, 31)), (221, 230, 246));
    assert_eq!(blend_rgba((243, 244, 246), (17, 24, 39, 56)), (193, 196, 201));
    assert_eq!(blend_rgba((0, 0, 0), (255, 255, 255, 128)), (128, 128, 128));
}

#[test]
fn load_page_empty_database_yields_placeholder_page() {
    let page = page_layout(0, 0);
    assert_eq!(page.total_count, 0);
    assert_eq!(page.total_pages, 1);
    assert_eq!(page.current_page, 0);
    assert_eq!(page.range_start, 0);
    assert_eq!(page.range_end, 0);
}

#[test]
fn load_page_single_full_page_ranges() {
    let page = page_layout(0, 25);
    assert_eq!(page.total_count, 25);
    assert_eq!(page.total_pages, 1);
    assert_eq!(page.current_page, 0);
    assert_eq!(page.range_start, 1);
    assert_eq!(page.range_end, 25);
}

#[test]
fn load_page_multi_page_ranges_and_clamping() {
    let page0 = page_layout(0, 26);
    assert_eq!(page0.total_pages, 2);
    assert_eq!((page0.current_page, page0.range_start, page0.range_end), (0, 1, 25));
    let page1 = page_layout(1, 26);
    assert_eq!((page1.current_page, page1.range_start, page1.range_end), (1, 26, 26));
    let neg = page_layout(-3, 26);
    assert_eq!((neg.current_page, neg.range_start, neg.range_end), (0, 1, 25));
    let high = page_layout(99, 26);
    assert_eq!((high.current_page, high.range_start, high.range_end), (1, 26, 26));
    assert_eq!(page_offset(-3), 0);
    assert_eq!(page_offset(99), 2475);
}

#[test]
fn scroll_wraps_around_and_ignores_single_page() {
    assert_eq!(next_page_after_scroll(0, 1, 1), None);
    assert_eq!(next_page_after_scroll(0, 3, 1), Some(1));
    assert_eq!(next_page_after_scroll(2, 3, 1), Some(0));
    assert_eq!(next_page_after_scroll(0, 3, -1), Some(2));
    assert_eq!(next_page_after_scroll(2, 3, -1), Some(1));
    assert_eq!(next_page_after_scroll(1, 3, 0), None);
}

#[test]
fn show_panel_resets_page_and_position() {
    let mut state = PanelPageState {
        current_page: 4,
        last_position: Some(PanelPosition {
            logical_x: 1,
            logical_y: 2,
            physical_x: 3,
            physical_y: 4,
            physical_width: 5,
            physical_height: 6,
        }),
    };
    show_panel(&mut state);
    assert_eq!(state.current_page, 0);
    assert!(state.last_position.is_none());
}

#[test]
fn theme_resolution_dark_theme_follows_dark_style() {
    assert_eq!(resolve_theme_kind_from("dark", "modern", false), PanelThemeKind::DarkModern);
    assert_eq!(resolve_theme_kind_from("dark", "classic", false), PanelThemeKind::DarkClassic);
    assert_eq!(resolve_theme_kind_from(" dark ", "modern", false), PanelThemeKind::DarkModern);
}

#[test]
fn theme_resolution_light_and_auto_follow_system_dark_mode() {
    assert_eq!(resolve_theme_kind_from("light", "modern", false), PanelThemeKind::Light);
    assert_eq!(resolve_theme_kind_from("auto", "modern", true), PanelThemeKind::DarkModern);
    assert_eq!(resolve_theme_kind_from("auto", "classic", true), PanelThemeKind::DarkClassic);
    assert_eq!(resolve_theme_kind_from("auto", "modern", false), PanelThemeKind::Light);
    assert_eq!(resolve_theme_kind_from("light", "modern", true), PanelThemeKind::Light);
    assert_eq!(resolve_theme_kind_from("dark", "classic", false), PanelThemeKind::DarkClassic);
    assert_eq!(resolve_theme_kind_from(" auto ", "modern", true), PanelThemeKind::DarkModern);
}

#[test]
fn page_footer_and_rows() {
    let layout = page_layout(1, 60);
    assert_eq!(page_footer(layout), "第 2/3 页 · 26-50 / 60 条");
    assert_eq!(page_footer(page_layout(0, 0)), "第 1/1 页 · 0-0 / 0 条");

    let rows = page_list_items(&[]);
    assert_eq!(rows.len(), 1);
    assert_eq!(rows[0].id, 0);
    assert_eq!(rows[0].label, "(暂无记录)");
    assert_eq!(rows[0].kind_label, "");
    let rows = page_list_items(&[
        PanelSourceItem { id: 4, content_type: "text".into(), content: "hello\nworld".into(), is_pinned: true },
        PanelSourceItem { id: 5, content_type: "image".into(), content: "img".into(), is_pinned: false },
    ]);
    assert_eq!(rows.len(), 2);
    assert_eq!(rows[0].id, 4);
    assert_eq!(rows[0].kind_label, "文本");
    assert!(rows[0].is_pinned);
    assert_eq!(rows[1].label, "图片");
}

#[test]
fn jumping_and_scrolling_move_between_pages() {
    let mut state = PanelPageState { current_page: 0, last_position: None };
    assert!(!jump_panel_page(&mut state, -3, 60));
    assert!(jump_panel_page(&mut state, 9, 60));
    assert_eq!(state.current_page, 2);
    assert!(scroll_panel_page(&mut state, 1, 60));
    assert_eq!(state.current_page, 0);
    assert!(scroll_panel_page(&mut state, -1, 60));
    assert_eq!(state.current_page, 2);
    assert!(!scroll_panel_page(&mut state, 0, 60));
    assert!(!scroll_panel_page(&mut state, 1, 10));
    assert_eq!(state.current_page, 2);
}
