use quickclipboard_core::html::truncate_html;

const SUFFIX: &str = "...(内容过长已截断)";

#[test]
fn empty_html_returns_unchanged() {
    assert_eq!(truncate_html(String::new(), 100), "");
}

#[test]
fn zero_max_visible_len_returns_truncation_message() {
    assert_eq!(truncate_html("<b>abc</b>".to_string(), 0), SUFFIX);
}

#[test]
fn html_within_limit_passes_through_unchanged() {
    let html = "<b>abc</b>".to_string();
    assert_eq!(truncate_html(html.clone(), 3), html);
    assert_eq!(truncate_html(html.clone(), 10), html);
}

#[test]
fn truncates_visible_text_and_closes_open_tags() {
    assert_eq!(
        truncate_html("<b>abc</b>".to_string(), 2),
        format!("<b>ab</b>{}", SUFFIX)
    );
}

#[test]
fn self_closing_tags_are_not_balanced() {
    assert_eq!(
        truncate_html("<p>a<br>bc</p>".to_string(), 1),
        format!("<p>a<br></p>{}", SUFFIX)
    );
}

#[test]
fn img_and_wbr_are_also_treated_as_self_closing() {
    assert_eq!(
        truncate_html("<p>x<img>yz</p>".to_string(), 1),
        format!("<p>x<img></p>{}", SUFFIX)
    );
    assert_eq!(
        truncate_html("<div>a<wbr>b</div>".to_string(), 1),
        format!("<div>a<wbr></div>{}", SUFFIX)
    );
}

#[test]
fn tag_name_accumulation_restarts_after_space_and_absorbs_attribute_words() {
    assert_eq!(
        truncate_html("<div class=\"x\">ab</div>".to_string(), 1),
        format!("<div class=\"x\">a</divclassx>{}", SUFFIX)
    );
}

#[test]
fn nested_open_tags_close_in_reverse_order() {
    assert_eq!(
        truncate_html("<div><span>ab</span><b>c</b></div>".to_string(), 2),
        format!("<div><span>ab</span><b></b></div>{}", SUFFIX)
    );
}

#[test]
fn tag_names_are_lowercased_when_closed() {
    assert_eq!(
        truncate_html("<DIV>ab</DIV>".to_string(), 1),
        format!("<DIV>a</div>{}", SUFFIX)
    );
}

#[test]
fn hyphenated_tag_names_are_tracked() {
    assert_eq!(
        truncate_html("<my-tag>ab</my-tag>".to_string(), 1),
        format!("<my-tag>a</my-tag>{}", SUFFIX)
    );
}

#[test]
fn open_tag_stack_closes_at_most_50_of_60_nested_tags() {
    let html = format!("{}abc", "<div>".repeat(60));
    let result = truncate_html(html, 1);
    assert_eq!(result.matches("<div>").count(), 60);
    assert_eq!(result.matches("</div>").count(), 50);
    assert!(result.ends_with(SUFFIX));
}

#[test]
fn overlong_tag_names_are_capped_at_fifty_bytes() {
    let name = "a".repeat(60);
    let html = format!("<{}>xy", name);
    let result = truncate_html(html, 1);
    assert_eq!(result, format!("<{}>x</{}>{}", name, "a".repeat(50), SUFFIX));
}
