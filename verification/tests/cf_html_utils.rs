use quickclipboard_core::cf_html::{generate_cf_html, normalize_clipboard_html};

#[test]
fn generate_cf_html_wraps_plain_fragment_in_full_document() {
    let result = generate_cf_html("x");
    let expected = "Version:0.9\r\nStartHTML:0000000105\r\nEndHTML:0000000229\r\nStartFragment:0000000173\r\nEndFragment:0000000195\r\n<!DOCTYPE html>\n<html>\n<head>\n<meta charset=\"utf-8\">\n</head>\n<body>\n<!--StartFragment-->x\n<!--EndFragment-->\n</body>\n</html>";
    assert_eq!(result, expected);
}

#[test]
fn generate_cf_html_wraps_existing_html_body_in_fragment_markers() {
    let result = generate_cf_html("<html><body><p>hi</p></body></html>");
    let expected = "Version:0.9\r\nStartHTML:0000000105\r\nEndHTML:0000000180\r\nStartFragment:0000000118\r\nEndFragment:0000000147\r\n<html><body>\n<!--StartFragment--><p>hi</p><!--EndFragment-->\n</body></html>";
    assert_eq!(result, expected);
}

#[test]
fn generate_cf_html_preserves_existing_markers() {
    let input = "<html><body><!--StartFragment--><p>x</p><!--EndFragment--></body></html>";
    let result = generate_cf_html(input);
    let expected = "Version:0.9\r\nStartHTML:0000000105\r\nEndHTML:0000000177\r\nStartFragment:0000000117\r\nEndFragment:0000000145\r\n<html><body><!--StartFragment--><p>x</p><!--EndFragment--></body></html>";
    assert_eq!(result, expected);
}

#[test]
fn normalize_extracts_fragment_by_markers() {
    let input = "Version:0.9\r\nStartHTML:0000000105\r\nEndHTML:0000000233\r\nStartFragment:0000000176\r\nEndFragment:0000000199\r\n<html><body><!--StartFragment-->fragment<!--EndFragment--></body></html>";
    assert_eq!(normalize_clipboard_html(input), "fragment");
}

#[test]
fn normalize_extracts_fragment_by_offsets_when_markers_absent() {
    let input = "Version:0.9\r\nStartHTML:0000000105\r\nEndHTML:0000000143\r\nStartFragment:0000000117\r\nEndFragment:0000000129\r\n<html><body><p>hello</p></body></html>";
    assert_eq!(normalize_clipboard_html(input), "<p>hello</p>");
}

#[test]
fn normalize_falls_back_to_starthtml_endhtml_offsets() {
    let input = "Version:0.9\r\nStartHTML:0000000055\r\nEndHTML:0000000093\r\n<html><body><p>hello</p></body></html>";
    assert_eq!(
        normalize_clipboard_html(input),
        "<html><body><p>hello</p></body></html>"
    );
}

#[test]
fn normalize_extracts_utf8_fragment_by_offsets() {
    let input = "Version:0.9\r\nStartHTML:0000000105\r\nEndHTML:0000000150\r\nStartFragment:0000000117\r\nEndFragment:0000000136\r\n<html><body><p>中文内容</p></body></html>";
    assert_eq!(normalize_clipboard_html(input), "<p>中文内容</p>");
}

#[test]
fn normalize_returns_input_unchanged_without_cf_markers() {
    let plain = "<html><body>hello</body></html>";
    assert_eq!(normalize_clipboard_html(plain), plain);
    let junk = "no StartFragment: here, StartHTML is a lie";
    assert_eq!(normalize_clipboard_html(junk), junk);
}

#[test]
fn normalize_rejects_corrupted_or_non_utf8_offsets() {
    let bad_order = "StartHTML:0000000105\r\nEndHTML:0000000144\r\nStartFragment:0000000140\r\nEndFragment:0000000120\r\n<html><body>corrupted</body></html>";
    assert_eq!(normalize_clipboard_html(bad_order), bad_order);
    let out_of_range = "StartHTML:0000000105\r\nEndHTML:0000000144\r\nStartFragment:0000000105\r\nEndFragment:0000000999\r\n<html><body>corrupted</body></html>";
    assert_eq!(normalize_clipboard_html(out_of_range), out_of_range);
    let missing_end = "StartHTML:0000000105\r\nStartFragment:0000000118\r\n<html><body>corrupted</body></html>";
    assert_eq!(normalize_clipboard_html(missing_end), missing_end);
}

#[test]
fn normalize_rejects_offsets_that_split_a_character() {
    // byte 118 falls inside the first '中' (3 bytes starting at 117)
    let input = "Version:0.9\r\nStartHTML:0000000105\r\nEndHTML:0000000150\r\nStartFragment:0000000118\r\nEndFragment:0000000136\r\n<html><body>中文内容</body></html>";
    assert_eq!(normalize_clipboard_html(input), input);
}

#[test]
fn generated_cf_html_normalizes_back_to_its_fragment() {
    for h in ["<b>bold</b>", "", "plain text", "<p>中文</p>"] {
        assert_eq!(normalize_clipboard_html(&generate_cf_html(h)), format!("{}\n", h));
    }
}
