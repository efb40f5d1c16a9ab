use quickclipboard_core::text::{
    is_textual_content_type, truncate_around_keyword, truncate_string, SEARCH_CONTEXT_BEFORE_CHARS,
};

const ELLIPSIS: &str = "...";

#[test]
fn recognizes_compound_text_content_types() {
    assert!(is_textual_content_type("text,link"));
    assert!(is_textual_content_type("rich_text,link,image"));
    assert!(is_textual_content_type(" link , image "));
    assert!(!is_textual_content_type("image,file"));
}

#[test]
fn search_excerpt_keeps_keyword_near_the_start() {
    let content = format!("{}目标关键词{}", "前文".repeat(1000), "后文".repeat(1000));
    let excerpt = truncate_around_keyword(content, "目标关键词", 1600);
    let keyword_index = excerpt.find("目标关键词").expect("摘要应包含关键词");

    assert!(excerpt.len() <= 1600);
    assert!(excerpt.starts_with(ELLIPSIS));
    assert!(excerpt[..keyword_index].chars().count() <= SEARCH_CONTEXT_BEFORE_CHARS + 3);
}

#[test]
fn search_excerpt_matches_ascii_case_insensitively() {
    let content = format!("{}Needle{}", "before ".repeat(500), " after".repeat(500));
    let excerpt = truncate_around_keyword(content, "needle", 800);

    assert!(excerpt.len() <= 800);
    assert!(excerpt.contains("Needle"));
}

#[test]
fn search_excerpt_preserves_utf8_boundaries() {
    let content = format!("{}关键字{}", "甲".repeat(1000), "乙".repeat(1000));
    let excerpt = truncate_around_keyword(content, "关键字", 257);

    assert!(excerpt.len() <= 257);
    assert!(excerpt.contains("关键字"));
}

#[test]
fn content_type_detection_is_exact_and_case_sensitive() {
    assert!(is_textual_content_type("text"));
    assert!(is_textual_content_type("rich_text"));
    assert!(is_textual_content_type("link"));
    assert!(is_textual_content_type("link, rich_text"));
    assert!(is_textual_content_type(" text , image "));
    assert!(!is_textual_content_type("image"));
    assert!(!is_textual_content_type("image,file"));
    assert!(!is_textual_content_type("Text"));
    assert!(!is_textual_content_type(""));
    assert!(!is_textual_content_type("text;"));
    assert!(!is_textual_content_type("texts"));
}

#[test]
fn truncate_string_passes_through_short_and_empty_inputs() {
    assert_eq!(truncate_string(String::new(), 100), "");
    assert_eq!(truncate_string("abc".to_string(), 3), "abc");
    assert_eq!(truncate_string("abc".to_string(), 5), "abc");
    assert_eq!(truncate_string("A".repeat(100), 100), "A".repeat(100));
}

#[test]
fn truncate_string_appends_ellipsis_suffix_when_over_max_len() {
    assert_eq!(
        truncate_string("A".repeat(101), 100),
        format!("{}...(内容过长已截断)", "A".repeat(50))
    );
    assert_eq!(truncate_string("A".repeat(60), 51), "A...(内容过长已截断)");
}

#[test]
fn truncate_string_returns_message_only_when_max_len_is_50_or_below() {
    assert_eq!(truncate_string("A".repeat(60), 50), "...(内容过长已截断)");
    assert_eq!(truncate_string("A".repeat(60), 49), "...(内容过长已截断)");
    assert_eq!(truncate_string("A".repeat(60), 0), "...(内容过长已截断)");
}

#[test]
fn truncate_string_never_splits_multibyte_chars() {
    assert_eq!(
        truncate_string("甲".repeat(40), 100),
        format!("{}...(内容过长已截断)", "甲".repeat(16))
    );
    assert_eq!(truncate_string("甲".repeat(20), 51), "...(内容过长已截断)");
}

#[test]
fn keyword_excerpt_exact_case_and_format() {
    let s = format!("{}KEY{}", "A".repeat(10), "B".repeat(30));
    assert_eq!(
        truncate_around_keyword(s, "KEY", 25),
        format!("{}KEY{}...", "A".repeat(10), "B".repeat(9))
    );
}

#[test]
fn keyword_excerpt_matches_case_insensitively_with_context() {
    let s = format!("{}needle{}", "A".repeat(20), "B".repeat(30));
    assert_eq!(
        truncate_around_keyword(s, "NEEDLE", 40),
        format!("...{}needle{}...", "A".repeat(16), "B".repeat(12))
    );
}

#[test]
fn keyword_excerpt_preserves_utf8_and_keeps_keyword_in_slice() {
    let s = format!("{}关键词{}", "甲".repeat(30), "乙".repeat(30));
    assert_eq!(
        truncate_around_keyword(s, "关键词", 100),
        format!("...{}关键词{}...", "甲".repeat(16), "乙".repeat(12))
    );
}

#[test]
fn keyword_excerpt_falls_back_to_truncate_string_when_keyword_missing() {
    assert_eq!(
        truncate_around_keyword("A".repeat(100), "xyz", 40),
        "...(内容过长已截断)"
    );
}

#[test]
fn keyword_excerpt_edge_inputs() {
    assert_eq!(truncate_around_keyword(String::new(), "k", 10), "");
    assert_eq!(
        truncate_around_keyword("A".repeat(120), "", 100),
        format!("{}...(内容过长已截断)", "A".repeat(50))
    );
    assert_eq!(
        truncate_around_keyword("abcdef".to_string(), "zzz", 100),
        "abcdef"
    );
}

#[test]
fn keyword_excerpt_boundary_when_keyword_barely_fits() {
    let s = format!("{}KEYWORD{}", "A".repeat(40), "B".repeat(40));
    assert_eq!(truncate_around_keyword(s.clone(), "KEYWORD", 14), "...KEYWORDB...");
    assert_eq!(truncate_around_keyword(s.clone(), "KEYWORD", 13), "...KEYWORD...");
    assert_eq!(
        truncate_around_keyword(s, "KEYWORD", 12),
        "...(内容过长已截断)"
    );
}

#[test]
fn keyword_excerpt_lowercase_mapping_handles_expanding_chars() {
    // 'İ' lowercases to two chars; the match is mapped back onto the original text.
    let s = format!("{}İSTANBUL{}", "x".repeat(60), "y".repeat(60));
    let excerpt = truncate_around_keyword(s, "i̇stanbul", 40);
    assert!(excerpt.contains("İSTANBUL"));
}
