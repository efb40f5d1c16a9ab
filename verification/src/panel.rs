//! The low-memory list panel: item labels, page arithmetic, scrolling and
//! theme selection. Drawing and the database query stay outside.
use vstd::prelude::*;
use crate::strs::{self, char_vec, push_char, push_chars, push_dec, push_str, str_eq, string_from_chars, string_from_str, trimmed_string};
use crate::text::sub_vec;
use crate::files_json::{self, present_fields, read_json_file_entries, strings_view};

verus! {

broadcast use vstd::seq::group_seq_axioms;

/// Items per panel page.
pub const PANEL_PAGE_SIZE: i64 = 25;

/// Characters kept of an item preview before the ellipsis.
pub const MAX_PREVIEW_CHARS: usize = 120;

// ---------------------------------------------------------------------------
// Text previews
// ---------------------------------------------------------------------------

/// Every run of Unicode whitespace replaced by one space.
pub open spec fn collapse_ws(s: Seq<char>) -> Seq<char>
    decreases s.len(),
{
    if s.len() == 0 {
        Seq::empty()
    } else {
        let prev = collapse_ws(s.drop_last());
        let c = s.last();
        if strs::is_ws(c) {
            if prev.len() > 0 && prev.last() == ' ' {
                prev
            } else {
                prev.push(' ')
            }
        } else {
            prev.push(c)
        }
    }
}

/// Whitespace runs collapsed to one space, then trimmed.
pub open spec fn normalized(s: Seq<char>) -> Seq<char> {
    strs::trim(collapse_ws(s))
}

/// The preview of a text: a placeholder when it normalizes to nothing, else
/// its first 120 characters, with an ellipsis when more follow.
pub open spec fn summary(s: Seq<char>) -> Seq<char> {
    let n = normalized(s);
    if n.len() == 0 {
        "(空内容)"@
    } else if n.len() <= 120 {
        n
    } else {
        n.take(120).push('…')
    }
}


fn collapse_ws_exec(text: &str) -> (r: String)
    ensures
        r@ == collapse_ws(text@),
{
    let chars = char_vec(text);
    let mut out = String::new();
    let mut last_was_space = false;
    let mut i: usize = 0;
    while i < chars.len()
        invariant
            0 <= i <= chars@.len(),
            chars@ == text@,
            out@ == collapse_ws(chars@.take(i as int)),
            last_was_space == (out@.len() > 0 && out@.last() == ' '),
        decreases chars@.len() - i,
    {
        let c = chars[i];
        proof {
            assert(chars@.take(i + 1).drop_last() =~= chars@.take(i as int));
            assert(chars@.take(i + 1).last() == c);
        }
        if strs::is_ws_exec(c) {
            if !last_was_space {
                push_char(&mut out, ' ');
                last_was_space = true;
            }
        } else {
            push_char(&mut out, c);
            last_was_space = false;
            proof {
                assert(!strs::is_ws(' ') ==> false) by {
                    assert(strs::is_ws(' '));
                }
            }
        }
        i += 1;
    }
    assert(chars@.take(chars@.len() as int) =~= text@);
    out
}

/// Collapses every run of whitespace to one space and trims the ends.
pub fn normalize_text(text: &str) -> (r: String)
    ensures
        r@ == normalized(text@),
{
    let collapsed = collapse_ws_exec(text);
    trimmed_string(collapsed.as_str())
}

/// The preview of a text; see `summary`.
pub fn summarize_text(text: &str) -> (r: String)
    ensures
        r@ == summary(text@),
{
    let n = normalize_text(text);
    let chars = char_vec(n.as_str());
    if chars.len() == 0 {
        return string_from_str("(空内容)");
    }
    if chars.len() <= MAX_PREVIEW_CHARS {
        return n;
    }
    let mut out = String::new();
    push_chars(&mut out, &chars, 0, MAX_PREVIEW_CHARS);
    push_char(&mut out, '…');
    assert(chars@.subrange(0, 120) =~= chars@.take(120));
    out
}

// ---------------------------------------------------------------------------
// File lists in item content
// ---------------------------------------------------------------------------

/// The file names listed by a `files:` item content, or `None` when the
/// content has no such prefix, its JSON has no `files` array, or no entry
/// has a name.
pub open spec fn files_names(content: Seq<char>) -> Option<Seq<Seq<char>>> {
    if !strs::matches_at(content, "files:"@, 0) {
        None
    } else {
        match files_json::json_file_entries(content.skip("files:"@.len() as int)) {
            Some(Some(entries)) => {
                let names = files_json::present(entries, 0);
                if names.len() == 0 {
                    None
                } else {
                    Some(names)
                }
            },
            _ => None,
        }
    }
}

/// File names of a `files:` content; see `files_names`.
pub fn parse_files_content(content: &str) -> (r: Option<Vec<String>>)
    ensures
        r.is_some() == files_names(content@).is_some(),
        r.is_some() ==> strings_view(r.unwrap()@) == files_names(content@).unwrap(),
{
    let chars = char_vec(content);
    let prefix = char_vec("files:");
    if !strs::starts_with_chars(&chars, &prefix) {
        return None;
    }
    let rest_chars = sub_vec(&chars, prefix.len(), chars.len());
    let rest = string_from_chars(&rest_chars);
    assert(rest@ == content@.skip("files:"@.len() as int));
    let entries = match read_json_file_entries(rest.as_str()) {
        Some(Some(e)) => e,
        _ => return None,
    };
    let names = present_fields(&entries, 0);
    if names.len() == 0 {
        None
    } else {
        Some(names)
    }
}

/// The label of a list of names: a placeholder naming the unit when empty,
/// the one name, two names joined by ` · `, or the first two and a count.
pub open spec fn named_items(names: Seq<Seq<char>>, unit: Seq<char>) -> Seq<char> {
    if names.len() == 0 {
        "(空"@ + unit + ")"@
    } else if names.len() == 1 {
        summary(names[0])
    } else if names.len() == 2 {
        summary(names[0]) + " · "@ + summary(names[1])
    } else {
        summary(names[0]) + " · "@ + summary(names[1]) + " 等 "@ + strs::dec(names.len()) + " 个"@ + unit
    }
}

/// Label of a list of names with their unit; see `named_items`.
pub fn summarize_named_items(names: &[String], unit: &str) -> (r: String)
    ensures
        r@ == named_items(strings_view(names@), unit@),
{
    let ghost nv = strings_view(names@);
    if names.len() == 0 {
        let mut out = string_from_str("(空");
        push_str(&mut out, unit);
        push_str(&mut out, ")");
        return out;
    }
    if names.len() == 1 {
        return summarize_text(names[0].as_str());
    }
    let first = summarize_text(names[0].as_str());
    let second = summarize_text(names[1].as_str());
    let mut out = String::new();
    push_str(&mut out, first.as_str());
    push_str(&mut out, " · ");
    push_str(&mut out, second.as_str());
    if names.len() == 2 {
        assert(out@ =~= named_items(nv, unit@));
        return out;
    }
    push_str(&mut out, " 等 ");
    push_dec(&mut out, names.len() as u64);
    push_str(&mut out, " 个");
    push_str(&mut out, unit);
    assert(out@ =~= named_items(nv, unit@));
    out
}

// ---------------------------------------------------------------------------
// Item labels
// ---------------------------------------------------------------------------

pub open spec fn is_path_sep(c: char) -> bool {
    c == '/' || c == '\\'
}

/// The part of `s` after its last `/` or `\` (all of `s` when it has none).
pub open spec fn last_segment(s: Seq<char>) -> Seq<char>
    decreases s.len(),
{
    if s.len() == 0 {
        s
    } else if is_path_sep(s.last()) {
        Seq::empty()
    } else {
        last_segment(s.drop_last()).push(s.last())
    }
}

proof fn lemma_last_segment(s: Seq<char>, k: int)
    requires
        0 <= k <= s.len(),
        k == 0 || is_path_sep(s[k - 1]),
        forall|j: int| k <= j < s.len() ==> !is_path_sep(s[j]),
    ensures
        last_segment(s) == s.subrange(k, s.len() as int),
    decreases s.len(),
{
    if s.len() > 0 {
        if k == s.len() {
            assert(s.subrange(k, s.len() as int) =~= Seq::<char>::empty());
        } else {
            lemma_last_segment(s.drop_last(), k);
            assert(s.subrange(k, s.len() as int) =~= s.drop_last().subrange(k, s.len() - 1).push(s.last()));
        }
    }
}

fn last_segment_exec(s: &str) -> (r: String)
    ensures
        r@ == last_segment(s@),
{
    let chars = char_vec(s);
    let mut k = chars.len();
    while k > 0 && chars[k - 1] != '/' && chars[k - 1] != '\\'
        invariant
            0 <= k <= chars@.len(),
            chars@ == s@,
            forall|j: int| k <= j < chars@.len() ==> !is_path_sep(chars@[j]),
        decreases k,
    {
        k -= 1;
    }
    proof {
        lemma_last_segment(chars@, k as int);
    }
    let seg = sub_vec(&chars, k, chars.len());
    string_from_chars(&seg)
}

/// The list label of a clipboard item: text kinds and unknown kinds show the
/// text preview; images and files list their names when the content carries
/// a file list, else images show `图片` and files show the last path segment.
pub open spec fn item_label(content_type: Seq<char>, content: Seq<char>) -> Seq<char> {
    if content_type == "image"@ {
        match files_names(content) {
            Some(names) => named_items(names, "张图片"@),
            None => "图片"@,
        }
    } else if content_type == "file"@ {
        match files_names(content) {
            Some(names) => named_items(names, "个文件"@),
            None => summary(last_segment(content)),
        }
    } else {
        summary(content)
    }
}

/// The list label of an item of the given content type; see `item_label`.
pub fn format_item_label(content_type: &str, content: &str) -> (r: String)
    ensures
        r@ == item_label(content_type@, content@),
{
    if str_eq(content_type, "image") {
        match parse_files_content(content) {
            Some(names) => summarize_named_items(names.as_slice(), "张图片"),
            None => string_from_str("图片"),
        }
    } else if str_eq(content_type, "file") {
        match parse_files_content(content) {
            Some(names) => summarize_named_items(names.as_slice(), "个文件"),
            None => {
                let seg = last_segment_exec(content);
                summarize_text(seg.as_str())
            },
        }
    } else {
        summarize_text(content)
    }
}

/// Short kind tag of a content type.
pub open spec fn kind_label(content_type: Seq<char>) -> Seq<char> {
    if content_type == "text"@ {
        "文本"@
    } else if content_type == "link"@ {
        "链接"@
    } else if content_type == "rich_text"@ {
        "富文"@
    } else if content_type == "image"@ {
        "图片"@
    } else if content_type == "file"@ {
        "文件"@
    } else {
        "其他"@
    }
}

/// Short kind tag of a content type; see `kind_label`.
pub fn item_kind_label(content_type: &str) -> (r: &'static str)
    ensures
        r@ == kind_label(content_type@),
{
    if str_eq(content_type, "text") {
        "文本"
    } else if str_eq(content_type, "link") {
        "链接"
    } else if str_eq(content_type, "rich_text") {
        "富文"
    } else if str_eq(content_type, "image") {
        "图片"
    } else if str_eq(content_type, "file") {
        "文件"
    } else {
        "其他"
    }
}

// ---------------------------------------------------------------------------
// Pages
// ---------------------------------------------------------------------------

/// Where the panel sat on screen, in logical and physical pixels.
#[derive(Debug, Clone, Copy, PartialEq, Eq, Structural)]
pub struct PanelPosition {
    pub logical_x: i32,
    pub logical_y: i32,
    pub physical_x: i32,
    pub physical_y: i32,
    pub physical_width: i32,
    pub physical_height: i32,
}

/// The page shown and where the panel was last placed.
#[derive(Debug)]
pub struct PanelPageState {
    pub current_page: i64,
    pub last_position: Option<PanelPosition>,
}

/// One entry of the page picker.
#[derive(Debug)]
pub struct PageItem {
    pub page_index: i64,
    pub label: String,
}

/// The page arithmetic of one panel page.
#[derive(Debug, Clone, Copy, PartialEq, Eq, Structural)]
pub struct PanelPageLayout {
    pub total_count: i64,
    pub total_pages: i64,
    pub current_page: i64,
    pub range_start: i64,
    pub range_end: i64,
}

/// Opening the panel starts again from the first page at a fresh position.
pub fn show_panel(state: &mut PanelPageState)
    ensures
        final(state).current_page == 0,
        final(state).last_position.is_none(),
{
    state.current_page = 0;
    state.last_position = None;
}

/// Row offset of a page: negative pages read from the start.
pub fn page_offset(page: i64) -> (r: i64)
    requires
        page <= i64::MAX / 25,
    ensures
        r == (if page < 0 { 0 } else { page * 25 }),
{
    if page < 0 {
        0
    } else {
        page * PANEL_PAGE_SIZE
    }
}

/// Number of pages for `total_count` items: at least one.
pub open spec fn total_pages_for(total_count: int) -> int {
    if total_count <= 0 {
        1
    } else {
        (total_count + 24) / 25
    }
}

/// First and last row numbers (1-based) shown on a page; `0-0` when empty.
pub open spec fn page_range(page_index: int, total_count: int) -> (int, int) {
    if total_count <= 0 {
        (0, 0)
    } else {
        (page_index * 25 + 1, if (page_index + 1) * 25 <= total_count { (page_index + 1) * 25 } else { total_count })
    }
}

/// Page count, clamped page and row range for `page` over `total_count`
/// items; negative counts read as zero.
pub open spec fn layout_of(page: int, total_count: int) -> PanelPageLayout {
    let pages = total_pages_for(total_count);
    let clamped = if page < 0 { 0 } else if page > pages - 1 { pages - 1 } else { page };
    let range = page_range(clamped, total_count);
    PanelPageLayout {
        total_count: (if total_count < 0 { 0 } else { total_count }) as i64,
        total_pages: pages as i64,
        current_page: clamped as i64,
        range_start: range.0 as i64,
        range_end: range.1 as i64,
    }
}

/// The page arithmetic of the panel; see `layout_of`.
pub fn page_layout(page: i64, total_count: i64) -> (r: PanelPageLayout)
    requires
        total_count <= i64::MAX - 24,
    ensures
        r == layout_of(page as int, total_count as int),
{
    let total_pages: i64 = if total_count <= 0 {
        1
    } else {
        (total_count + 24) / PANEL_PAGE_SIZE
    };
    let safe_total: i64 = if total_count < 0 { 0 } else { total_count };
    let clamped: i64 = if page < 0 {
        0
    } else if page > total_pages - 1 {
        total_pages - 1
    } else {
        page
    };
    let range_start: i64 = if safe_total == 0 { 0 } else { clamped * PANEL_PAGE_SIZE + 1 };
    let range_end: i64 = if safe_total == 0 {
        0
    } else {
        let end = (clamped + 1) * PANEL_PAGE_SIZE;
        if end <= safe_total { end } else { safe_total }
    };
    PanelPageLayout { total_count: safe_total, total_pages, current_page: clamped, range_start, range_end }
}

/// The page after a scroll step: forward wraps from the last page to the
/// first, backward from the first to the last; `None` when there is a single
/// page or the step does not move.
pub open spec fn scroll_target(current_page: int, total_pages: int, delta: int) -> Option<int> {
    if total_pages <= 1 {
        None
    } else {
        let next = if delta > 0 {
            if current_page >= total_pages - 1 { 0 } else { current_page + 1 }
        } else if delta < 0 {
            if current_page <= 0 { total_pages - 1 } else { current_page - 1 }
        } else {
            current_page
        };
        if next == current_page { None } else { Some(next) }
    }
}

/// The page a scroll step moves to; see `scroll_target`.
pub fn next_page_after_scroll(current_page: i64, total_pages: i64, delta: i32) -> (r: Option<i64>)
    ensures
        r.is_some() == scroll_target(current_page as int, total_pages as int, delta as int).is_some(),
        r.is_some() ==> r.unwrap() == scroll_target(current_page as int, total_pages as int, delta as int).unwrap(),
{
    if total_pages <= 1 {
        return None;
    }
    let next: i64 = if delta > 0 {
        if current_page >= total_pages - 1 { 0 } else { current_page + 1 }
    } else if delta < 0 {
        if current_page <= 0 { total_pages - 1 } else { current_page - 1 }
    } else {
        current_page
    };
    if next == current_page {
        None
    } else {
        Some(next)
    }
}

/// The picker label of a page: `第 N 页 · A-B 条`.
pub open spec fn page_label(page_index: int, total_count: int) -> Seq<char> {
    let range = page_range(page_index, total_count);
    "第 "@ + strs::dec((page_index + 1) as nat) + " 页 · "@ + strs::dec(range.0 as nat) + "-"@ + strs::dec(range.1 as nat) + " 条"@
}

fn page_label_exec(page_index: i64, total_count: i64) -> (r: String)
    requires
        0 <= page_index,
        (page_index + 1) * 25 <= i64::MAX,
    ensures
        r@ == page_label(page_index as int, total_count as int),
{
    let (start, end): (i64, i64) = if total_count <= 0 {
        (0, 0)
    } else {
        let e = (page_index + 1) * PANEL_PAGE_SIZE;
        (page_index * PANEL_PAGE_SIZE + 1, if e <= total_count { e } else { total_count })
    };
    let mut out = string_from_str("第 ");
    push_dec(&mut out, (page_index + 1) as u64);
    push_str(&mut out, " 页 · ");
    push_dec(&mut out, start as u64);
    push_str(&mut out, "-");
    push_dec(&mut out, end as u64);
    push_str(&mut out, " 条");
    out
}

/// One picker entry per page (at least one), labelled with its row range.
pub fn build_page_items(total_pages: i64, total_count: i64) -> (r: Vec<PageItem>)
    requires
        total_pages <= i64::MAX / 25,
    ensures
        r@.len() == (if total_pages < 1 { 1 } else { total_pages as int }),
        forall|i: int| #![trigger r@[i]] 0 <= i < r@.len() ==> r@[i].page_index == i
            && r@[i].label@ == page_label(i, if total_count < 0 { 0 } else { total_count as int }),
{
    let pages: i64 = if total_pages < 1 { 1 } else { total_pages };
    let count: i64 = if total_count < 0 { 0 } else { total_count };
    let mut items: Vec<PageItem> = Vec::new();
    let mut i: i64 = 0;
    while i < pages
        invariant
            0 <= i <= pages,
            pages == (if total_pages < 1 { 1 } else { total_pages as int }),
            pages <= i64::MAX / 25,
            count == (if total_count < 0 { 0 } else { total_count as int }),
            items@.len() == i,
            forall|j: int| #![trigger items@[j]] 0 <= j < i ==> items@[j].page_index == j
                && items@[j].label@ == page_label(j, count as int),
        decreases pages - i,
    {
        let label = page_label_exec(i, count);
        items.push(PageItem { page_index: i, label });
        i += 1;
    }
    items
}

/// The footer under a page: `第 P/N 页 · A-B / T 条`, with at least one page.
pub open spec fn footer_text(layout: PanelPageLayout) -> Seq<char> {
    "第 "@ + strs::dec((layout.current_page + 1) as nat) + "/"@ + strs::dec(
        (if layout.total_pages < 1 { 1 } else { layout.total_pages as int }) as nat,
    ) + " 页 · "@ + strs::dec(layout.range_start as nat) + "-"@ + strs::dec(layout.range_end as nat) + " / "@ + strs::dec(
        layout.total_count as nat,
    ) + " 条"@
}

/// The footer of a page; see `footer_text`.
pub fn page_footer(layout: PanelPageLayout) -> (r: String)
    requires
        0 <= layout.current_page < i64::MAX,
        0 <= layout.range_start,
        0 <= layout.range_end,
        0 <= layout.total_count,
    ensures
        r@ == footer_text(layout),
{
    let pages: i64 = if layout.total_pages < 1 { 1 } else { layout.total_pages };
    let mut out = string_from_str("第 ");
    push_dec(&mut out, (layout.current_page + 1) as u64);
    push_str(&mut out, "/");
    push_dec(&mut out, pages as u64);
    push_str(&mut out, " 页 · ");
    push_dec(&mut out, layout.range_start as u64);
    push_str(&mut out, "-");
    push_dec(&mut out, layout.range_end as u64);
    push_str(&mut out, " / ");
    push_dec(&mut out, layout.total_count as u64);
    push_str(&mut out, " 条");
    proof {
        assert(out@ =~= footer_text(layout));
    }
    out
}

/// One row of the panel list.
#[derive(Debug)]
pub struct PanelListItem {
    pub id: i64,
    pub label: String,
    pub kind_label: String,
    pub is_pinned: bool,
}

/// A history item as the panel reads it.
#[derive(Debug)]
pub struct PanelSourceItem {
    pub id: i64,
    pub content_type: String,
    pub content: String,
    pub is_pinned: bool,
}

/// `row` shows `item` in the list.
pub open spec fn lists_item(row: PanelListItem, item: PanelSourceItem) -> bool {
    &&& row.id == item.id
    &&& row.label@ == item_label(item.content_type@, item.content@)
    &&& row.kind_label@ == kind_label(item.content_type@)
    &&& row.is_pinned == item.is_pinned
}

/// The rows of a panel page: one per item, labelled, or a single placeholder
/// row when the page is empty.
pub fn page_list_items(items: &[PanelSourceItem]) -> (r: Vec<PanelListItem>)
    ensures
        items@.len() == 0 ==> r@.len() == 1 && r@[0].id == 0 && r@[0].label@ == "(暂无记录)"@ && r@[0].kind_label@
            == Seq::<char>::empty() && !r@[0].is_pinned,
        items@.len() > 0 ==> r@.len() == items@.len() && forall|i: int| 0 <= i < items@.len() ==> lists_item(#[trigger] r@[i], items@[i]),
{
    let mut r: Vec<PanelListItem> = Vec::new();
    let mut i: usize = 0;
    while i < items.len()
        invariant
            i <= items@.len(),
            r@.len() == i,
            forall|j: int| 0 <= j < i ==> lists_item(#[trigger] r@[j], items@[j]),
        decreases items@.len() - i,
    {
        let item = &items[i];
        r.push(
            PanelListItem {
                id: item.id,
                label: format_item_label(item.content_type.as_str(), item.content.as_str()),
                kind_label: string_from_str(item_kind_label(item.content_type.as_str())),
                is_pinned: item.is_pinned,
            },
        );
        i += 1;
    }
    if r.len() == 0 {
        r.push(PanelListItem { id: 0, label: string_from_str("(暂无记录)"), kind_label: String::new(), is_pinned: false });
    }
    r
}

/// Jumping to `page` over `total_count` items: the page is clamped; it
/// changes the shown page (and the panel is redrawn) only when that differs
/// from the current one.
pub fn jump_panel_page(state: &mut PanelPageState, page: i64, total_count: i64) -> (r: bool)
    requires
        total_count <= i64::MAX - 24,
    ensures
        r == (layout_of(page as int, total_count as int).current_page != old(state).current_page),
        final(state).current_page == layout_of(page as int, total_count as int).current_page,
        final(state).last_position == old(state).last_position,
{
    let target = page_layout(page, total_count).current_page;
    if state.current_page == target {
        return false;
    }
    state.current_page = target;
    true
}

/// A scroll step over `total_count` items: the page moves as
/// `scroll_target` says (over the page count of the current page's layout),
/// and the panel is redrawn only when it moved.
pub fn scroll_panel_page(state: &mut PanelPageState, delta: i32, total_count: i64) -> (r: bool)
    requires
        total_count <= i64::MAX - 24,
    ensures
        ({
            let pages = layout_of(old(state).current_page as int, total_count as int).total_pages;
            match scroll_target(old(state).current_page as int, pages as int, delta as int) {
                Some(next) => r && final(state).current_page == next,
                None => !r && final(state).current_page == old(state).current_page,
            }
        }),
        final(state).last_position == old(state).last_position,
{
    let pages = page_layout(state.current_page, total_count).total_pages;
    match next_page_after_scroll(state.current_page, pages, delta) {
        Some(next) => {
            state.current_page = next;
            true
        },
        None => false,
    }
}

// ---------------------------------------------------------------------------
// Theme
// ---------------------------------------------------------------------------

#[derive(Debug, Clone, Copy, PartialEq, Eq, Structural)]
pub enum PanelThemeKind {
    Light,
    DarkModern,
    DarkClassic,
}

/// The panel theme: dark when the trimmed theme is `dark`, or `auto` while
/// the system is dark; the dark style `modern` picks the modern palette.
pub open spec fn theme_kind(theme: Seq<char>, dark_theme_style: Seq<char>, system_dark: bool) -> PanelThemeKind {
    let t = strs::trim(theme);
    if t == "dark"@ || (t == "auto"@ && system_dark) {
        if dark_theme_style == "modern"@ {
            PanelThemeKind::DarkModern
        } else {
            PanelThemeKind::DarkClassic
        }
    } else {
        PanelThemeKind::Light
    }
}

/// The panel theme for the settings; see `theme_kind`.
pub fn resolve_theme_kind_from(theme: &str, dark_theme_style: &str, system_dark: bool) -> (r: PanelThemeKind)
    ensures
        r == theme_kind(theme@, dark_theme_style@, system_dark),
{
    let t = trimmed_string(theme);
    if str_eq(t.as_str(), "dark") || (str_eq(t.as_str(), "auto") && system_dark) {
        if str_eq(dark_theme_style, "modern") {
            PanelThemeKind::DarkModern
        } else {
            PanelThemeKind::DarkClassic
        }
    } else {
        PanelThemeKind::Light
    }
}

/// `base * (1 - a) + overlay * a` with `a = alpha / 255`, rounded to the
/// nearest integer. A tie cannot occur: the exact value has denominator 255,
/// which is odd.
pub open spec fn blend_channel(base: int, overlay: int, alpha: int) -> int {
    (2 * (base * (255 - alpha) + overlay * alpha) + 255) / 510
}

fn blend_channel_exec(base: u8, overlay: u8, alpha: u8) -> (r: u8)
    ensures
        r as int == blend_channel(base as int, overlay as int, alpha as int),
{
    let b = base as u32;
    let o = overlay as u32;
    let a = alpha as u32;
    assert(b * (255 - a) <= 255 * 255) by (nonlinear_arith)
        requires b <= 255, a <= 255;
    assert(o * a <= 255 * 255) by (nonlinear_arith)
        requires o <= 255, a <= 255;
    let n = b * (255 - a) + o * a;
    assert(n <= 255 * 255) by (nonlinear_arith)
        requires n == b * (255 - a) + o * a, b <= 255, o <= 255, a <= 255;
    let v = (2 * n + 255) / 510;
    assert(v <= 255);
    v as u8
}

/// An RGBA overlay over an opaque RGB base, channel by channel.
pub fn blend_rgba(base: (u8, u8, u8), overlay: (u8, u8, u8, u8)) -> (r: (u8, u8, u8))
    ensures
        r.0 as int == blend_channel(base.0 as int, overlay.0 as int, overlay.3 as int),
        r.1 as int == blend_channel(base.1 as int, overlay.1 as int, overlay.3 as int),
        r.2 as int == blend_channel(base.2 as int, overlay.2 as int, overlay.3 as int),
{
    (
        blend_channel_exec(base.0, overlay.0, overlay.3),
        blend_channel_exec(base.1, overlay.1, overlay.3),
        blend_channel_exec(base.2, overlay.2, overlay.3),
    )
}

} // verus!
