use quickclipboard_core::group_style::{
    is_canonical_group_color, is_empty_or_transparent_group_color, merge_group_icon,
    normalize_group_color, normalize_group_icon,
};

#[test]
fn normalizes_group_color_variants() {
    assert_eq!(normalize_group_color("#DC2626"), "#dc2626");
    assert_eq!(normalize_group_color("#f00"), "#ff0000");
    assert_eq!(normalize_group_color("#ff3b82f6"), "#3b82f6");
    assert_eq!(normalize_group_color("4282090230"), "#3b82f6");
    assert_eq!(normalize_group_color("-2349530"), "#dc2626");
    assert_eq!(normalize_group_color("0"), "#dc2626");
    assert_eq!(normalize_group_color("#003b82f6"), "#dc2626");
}

#[test]
fn normalizes_empty_group_icon() {
    assert_eq!(normalize_group_icon(""), "ti ti-folder");
    assert_eq!(normalize_group_icon("   "), "ti ti-folder");
    assert_eq!(normalize_group_icon(" ti ti-star "), "ti ti-star");
}

#[test]
fn keeps_existing_group_icon_when_incoming_empty() {
    assert_eq!(merge_group_icon("ti ti-star", ""), "ti ti-star");
    assert_eq!(merge_group_icon("", ""), "ti ti-folder");
    assert_eq!(merge_group_icon("ti ti-star", "ti ti-tag"), "ti ti-tag");
}

#[test]
fn normalizes_color_hex_and_numeric_edges() {
    assert_eq!(normalize_group_color("0XFF3B82F6"), "#3b82f6");
    assert_eq!(normalize_group_color("0x3b82f6"), "#3b82f6");
    assert_eq!(normalize_group_color("16777215"), "#ffffff");
    assert_eq!(normalize_group_color("4294967295"), "#ffffff");
    assert_eq!(normalize_group_color("#ab"), "#dc2626");
    assert_eq!(normalize_group_color("#GGGGGG"), "#dc2626");
    assert_eq!(normalize_group_color("#00ff00ff"), "#dc2626");
    assert_eq!(normalize_group_color("#1234567"), "#dc2626");
}

#[test]
fn canonical_and_transparent_color_detection() {
    assert!(is_canonical_group_color("#dc2626"));
    assert!(is_canonical_group_color("#DC2626"), "大写 hex 也是规范形式");
    assert!(!is_canonical_group_color("dc2626"), "缺 # 前缀非规范");
    assert!(!is_canonical_group_color(""));
    assert!(!is_canonical_group_color("#1234567"), "7 位非规范");

    assert!(is_empty_or_transparent_group_color(""));
    assert!(is_empty_or_transparent_group_color("0"));
    assert!(is_empty_or_transparent_group_color("#00ff00ff"), "alpha=0 的 8 位 hex 视为透明");
    assert!(!is_empty_or_transparent_group_color("#ff3b82f6"));
    assert!(!is_empty_or_transparent_group_color("#dc2626"));
}

#[test]
fn numeric_colors_respect_sign_and_overflow() {
    assert_eq!(normalize_group_color("+255"), "#0000ff");
    assert_eq!(normalize_group_color("99999999999999999999"), "#dc2626");
    assert_eq!(normalize_group_color("-9223372036854775808"), "#dc2626");
    assert_eq!(normalize_group_color("#ABC"), "#aabbcc");
}
