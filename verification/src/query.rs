//! Listing clipboard history: the filter a query applies, how each returned
//! row is previewed, and the page the rows make up. Running the SQL stays
//! with the caller.
use vstd::prelude::*;
use crate::html::{self, truncate_html};
use crate::strs::{self, char_vec, contains_chars, push_str, str_byte_len, str_eq, string_from_str, trimmed_chars};
use crate::text::{self, is_textual_content_type, truncate_around_keyword, truncate_string};
use crate::history_records::{ClipboardItem, StoredHistoryRow};
use crate::sql_like::{like_contains, like_matches};
use crate::table::db_not_initialized;

verus! {

broadcast use vstd::seq::group_seq_axioms;

// ---------------------------------------------------------------------------
// Filters
// ---------------------------------------------------------------------------

/// The SQL conditions of a query and their bound patterns, in order.
#[derive(Debug)]
pub struct QueryFilter {
    pub clauses: Vec<&'static str>,
    pub patterns: Vec<String>,
    pub has_filter: bool,
}

pub open spec fn opt_view(o: Option<&str>) -> Option<Seq<char>> {
    match o {
        Some(s) => Some(s@),
        None => None,
    }
}

/// A search applies when it is not blank; a content type applies unless it
/// is `all`.
pub open spec fn search_applies(search: Option<Seq<char>>) -> bool {
    search matches Some(s) && strs::trim(s).len() > 0
}

pub open spec fn type_applies(content_type: Option<Seq<char>>) -> bool {
    content_type matches Some(t) && t != "all"@
}

/// The conditions of a query: `content LIKE %search%` when the search
/// applies, then `content_type LIKE %type%` when the type applies.
pub fn query_filter(search: Option<&str>, content_type: Option<&str>) -> (r: QueryFilter)
    ensures
        r.has_filter == (search_applies(opt_view(search)) || type_applies(opt_view(content_type))),
        r.clauses@.len() == r.patterns@.len(),
        ({
            let s = search_applies(opt_view(search));
            let t = type_applies(opt_view(content_type));
            &&& r.clauses@.len() == (if s { 1int } else { 0 }) + (if t { 1int } else { 0 })
            &&& s ==> r.clauses@[0]@ == "content LIKE ?"@ && r.patterns@[0]@ == "%"@ + opt_view(search).unwrap() + "%"@
            &&& t ==> r.clauses@[r.clauses@.len() - 1]@ == "content_type LIKE ?"@
                && r.patterns@[r.patterns@.len() - 1]@ == "%"@ + opt_view(content_type).unwrap() + "%"@
        }),
{
    let mut clauses: Vec<&'static str> = Vec::new();
    let mut patterns: Vec<String> = Vec::new();
    let mut has_filter = false;
    if let Some(s) = search {
        let t = trimmed_chars(s);
        if t.len() > 0 {
            clauses.push("content LIKE ?");
            let mut p = string_from_str("%");
            push_str(&mut p, s);
            push_str(&mut p, "%");
            patterns.push(p);
            has_filter = true;
        }
    }
    if let Some(t) = content_type {
        if !str_eq(t, "all") {
            clauses.push("content_type LIKE ?");
            let mut p = string_from_str("%");
            push_str(&mut p, t);
            push_str(&mut p, "%");
            patterns.push(p);
            has_filter = true;
        }
    }
    QueryFilter { clauses, patterns, has_filter }
}

/// The `WHERE` part of a query: empty without conditions, else the
/// conditions joined by ` AND `.
pub open spec fn where_of(clauses: Seq<Seq<char>>) -> Seq<char>
    decreases clauses.len(),
{
    if clauses.len() == 0 {
        Seq::empty()
    } else if clauses.len() == 1 {
        "WHERE "@ + clauses[0]
    } else {
        where_of(clauses.drop_last()) + " AND "@ + clauses.last()
    }
}

pub open spec fn clause_views(v: Seq<&str>) -> Seq<Seq<char>> {
    v.map_values(|c: &str| c@)
}

/// The `WHERE` part of a query; see `where_of`.
pub fn where_clause(clauses: &Vec<&'static str>) -> (r: String)
    ensures
        r@ == where_of(clause_views(clauses@)),
{
    let ghost cv = clause_views(clauses@);
    let mut out = String::new();
    let mut i: usize = 0;
    while i < clauses.len()
        invariant
            0 <= i <= clauses@.len(),
            cv == clause_views(clauses@),
            out@ == where_of(cv.take(i as int)),
        decreases clauses@.len() - i,
    {
        proof {
            assert(cv.take(i + 1).drop_last() =~= cv.take(i as int));
        }
        if i == 0 {
            push_str(&mut out, "WHERE ");
        } else {
            push_str(&mut out, " AND ");
        }
        push_str(&mut out, clauses[i]);
        proof {
            if i == 0 {
                assert(out@ =~= where_of(cv.take(1)));
            }
        }
        i += 1;
    }
    assert(cv.take(clauses@.len() as int) =~= cv);
    out
}

// ---------------------------------------------------------------------------
// Row previews
// ---------------------------------------------------------------------------

/// A row as the list shows it.
#[derive(Debug)]
pub struct RowPreview {
    pub content: String,
    pub html_content: Option<String>,
    pub char_count: Option<i64>,
    pub needs_char_count_update: bool,
}

/// Text content longer than `max_len` bytes is cut: around the search
/// keyword when a search applies, else from the start.
pub open spec fn previewed_content(content: Seq<char>, content_type: Seq<char>, search: Option<Seq<char>>, max_len: int) -> Seq<char> {
    if text::textual_content_type(content_type) && strs::byte_len(content) > max_len {
        if search_applies(search) {
            text::around_keyword_spec(content, search.unwrap(), max_len)
        } else {
            text::truncate_string_spec(content, max_len)
        }
    } else {
        content
    }
}

/// HTML of text content longer than `max_len` bytes is cut to that many
/// visible characters.
pub open spec fn previewed_html(html: Option<Seq<char>>, content_type: Seq<char>, max_len: int) -> Option<Seq<char>> {
    match html {
        Some(h) => if text::textual_content_type(content_type) && strs::byte_len(h) > max_len {
            Some(html::truncate_html_spec(h, max_len as nat))
        } else {
            Some(h)
        },
        None => None,
    }
}

/// Text kinds get a character count when the row has none.
pub open spec fn counts_chars(content_type: Seq<char>) -> bool {
    strs::contains_seq(content_type, "text"@) || strs::contains_seq(content_type, "rich_text"@)
}

pub open spec fn owned_view(o: Option<String>) -> Option<Seq<char>> {
    match o {
        Some(s) => Some(s@),
        None => None,
    }
}

/// The preview of one row; see `previewed_content`, `previewed_html` and
/// `counts_chars`. A missing count of a text kind is filled in from the
/// full content (when it is not empty) and marked for saving.
pub fn preview_row(
    content: String,
    html_content: Option<String>,
    content_type: &str,
    search: Option<&str>,
    max_len: usize,
    char_count: Option<i64>,
) -> (r: RowPreview)
    requires
        content@.len() <= i64::MAX,
    ensures
        r.content@ == previewed_content(content@, content_type@, opt_view(search), max_len as int),
        owned_view(r.html_content) == previewed_html(owned_view(html_content), content_type@, max_len as int),
        r.needs_char_count_update == (char_count is None && counts_chars(content_type@)),
        r.char_count == (if char_count is None && counts_chars(content_type@) && content@.len() > 0 {
            Some(content@.len() as i64)
        } else {
            char_count
        }),
{
    let textual = is_textual_content_type(content_type);
    let t = char_vec(content_type);
    let needs = contains_chars(&t, &char_vec("text")) || contains_chars(&t, &char_vec("rich_text"));
    let n = char_vec(content.as_str()).len();
    let final_count = if char_count.is_none() && needs && n > 0 {
        Some(n as i64)
    } else {
        char_count
    };
    let shown = if textual && str_byte_len(content.as_str()) > max_len {
        let keyword = match search {
            Some(k) => if trimmed_chars(k).len() > 0 { Some(k) } else { None },
            None => None,
        };
        match keyword {
            Some(k) => truncate_around_keyword(content, k, max_len),
            None => truncate_string(content, max_len),
        }
    } else {
        content
    };
    let html = match html_content {
        Some(h) => {
            if textual && str_byte_len(h.as_str()) > max_len {
                Some(truncate_html(h, max_len))
            } else {
                Some(h)
            }
        },
        None => None,
    };
    RowPreview { content: shown, html_content: html, char_count: final_count, needs_char_count_update: char_count.is_none() && needs }
}

/// The content of a single item read with an optional limit: text content
/// longer than the limit in bytes is cut from the start.
pub fn content_with_limit(content: String, content_type: &str, max_content_length: Option<usize>) -> (r: String)
    ensures
        r@ == (match max_content_length {
            Some(m) => if text::textual_content_type(content_type@) && strs::byte_len(content@) > m {
                text::truncate_string_spec(content@, m as int)
            } else {
                content@
            },
            None => content@,
        }),
{
    match max_content_length {
        Some(m) => {
            if is_textual_content_type(content_type) && str_byte_len(content.as_str()) > m {
                truncate_string(content, m)
            } else {
                content
            }
        },
        None => content,
    }
}

// ---------------------------------------------------------------------------
// Pages
// ---------------------------------------------------------------------------

/// The parameters of a history query.
#[derive(Debug)]
pub struct QueryParams {
    pub offset: i64,
    pub limit: i64,
    pub search: Option<String>,
    pub content_type: Option<String>,
}

impl Default for QueryParams {
    /// The first page of 50, unfiltered.
    fn default() -> (r: Self)
        ensures
            r.offset == 0,
            r.limit == 50,
            r.search is None,
            r.content_type is None,
    {
        QueryParams { offset: 0, limit: 50, search: None, content_type: None }
    }
}

/// One page of query results.
#[derive(Debug)]
pub struct PaginatedResult<T> {
    pub total_count: i64,
    pub items: Vec<T>,
    pub offset: i64,
    pub limit: i64,
    pub has_more: bool,
}

impl<T> PaginatedResult<T> {
    /// The page of `items` at `offset`; more follow when the page ends before
    /// `total_count`.
    pub fn new(total_count: i64, items: Vec<T>, offset: i64, limit: i64) -> (r: Self)
        ensures
            r.total_count == total_count,
            r.items@ == items@,
            r.offset == offset,
            r.limit == limit,
            r.has_more == (offset + items@.len() < total_count),
    {
        let more = (offset as i128) + (items.len() as i128) < (total_count as i128);
        PaginatedResult { total_count, items, offset, limit, has_more: more }
    }
}


/// `item` lists `row` for a query whose search is `search`, with contents
/// cut at `max` bytes (see `previewed_content` and `previewed_html`), the
/// favorite `favorite`, and a missing character count of a text kind filled
/// in from the full content when it is not empty.
pub open spec fn item_lists(
    item: ClipboardItem,
    row: StoredHistoryRow,
    favorite: Option<String>,
    search: Option<Seq<char>>,
    max: int,
) -> bool {
    &&& item.id == row.id
    &&& owned_view(item.uuid) == owned_view(row.uuid)
    &&& owned_view(item.favorite_id) == owned_view(favorite)
    &&& owned_view(item.source_device_id) == owned_view(row.source_device_id)
    &&& item.is_remote == row.is_remote
    &&& item.content@ == previewed_content(row.content@, row.content_type@, search, max)
    &&& owned_view(item.html_content) == previewed_html(owned_view(row.html_content), row.content_type@, max)
    &&& item.content_type@ == row.content_type@
    &&& owned_view(item.image_id) == owned_view(row.image_id)
    &&& item.item_order == row.item_order
    &&& item.is_pinned == row.is_pinned
    &&& item.paste_count == row.paste_count
    &&& owned_view(item.source_app) == owned_view(row.source_app)
    &&& owned_view(item.source_icon_hash) == owned_view(row.source_icon_hash)
    &&& item.char_count == (if row.char_count is None && counts_chars(row.content_type@) && row.content@.len() > 0 {
        Some(row.content@.len() as i64)
    } else {
        row.char_count
    })
    &&& item.created_at == row.created_at
    &&& item.updated_at == row.updated_at
}

/// The rows of a page whose missing character count is to be filled in,
/// as `(id, content, content_type)`, in order.
pub open spec fn count_backfills(rows: Seq<(StoredHistoryRow, Option<String>)>) -> Seq<(i64, Seq<char>, Seq<char>)>
    decreases rows.len(),
{
    if rows.len() == 0 {
        Seq::empty()
    } else {
        let rest = count_backfills(rows.drop_last());
        let r = rows.last().0;
        if r.char_count is None && counts_chars(r.content_type@) {
            rest.push((r.id, r.content@, r.content_type@))
        } else {
            rest
        }
    }
}

pub open spec fn backfill_views(v: Seq<(i64, String, String)>) -> Seq<(i64, Seq<char>, Seq<char>)> {
    v.map_values(|t: (i64, String, String)| (t.0, t.1@, t.2@))
}

fn clone_text(o: &Option<String>) -> (r: Option<String>)
    ensures
        r == *o,
{
    match o {
        Some(s) => Some(s.clone()),
        None => None,
    }
}

// ---------------------------------------------------------------------------
// List order
// ---------------------------------------------------------------------------

/// What the list is ordered by: pinned first, then by position number, then
/// by update time, each descending.
#[derive(Debug, Clone, Copy)]
pub struct ListKey {
    pub is_pinned: bool,
    pub item_order: i64,
    pub updated_at: i64,
}

pub open spec fn key_of(row: StoredHistoryRow) -> ListKey {
    ListKey { is_pinned: row.is_pinned, item_order: row.item_order, updated_at: row.updated_at }
}

/// `a` may be listed before `b`.
pub open spec fn key_first(a: ListKey, b: ListKey) -> bool {
    ||| a.is_pinned && !b.is_pinned
    ||| a.is_pinned == b.is_pinned && (a.item_order > b.item_order || (a.item_order == b.item_order && a.updated_at
        >= b.updated_at))
}

/// `order` lists every index of `keys` once, in list order (items with equal
/// keys in any order, as the database leaves them).
pub open spec fn is_list_order(order: Seq<usize>, keys: Seq<ListKey>) -> bool {
    &&& order.len() == keys.len()
    &&& forall|i: int| 0 <= i < order.len() ==> #[trigger] order[i] < keys.len()
    &&& forall|i: int, j: int| 0 <= i < j < order.len() ==> #[trigger] order[i] != #[trigger] order[j]
    &&& forall|i: int, j: int| 0 <= i <= j < order.len() ==> key_first(keys[#[trigger] order[i] as int], keys[#[trigger] order[j] as int])
}

fn key_before(a: &ListKey, b: &ListKey) -> (r: bool)
    ensures
        r == key_first(*a, *b),
{
    (a.is_pinned && !b.is_pinned) || (a.is_pinned == b.is_pinned && (a.item_order > b.item_order || (a.item_order
        == b.item_order && a.updated_at >= b.updated_at)))
}

/// The indices of `keys` in list order; see `is_list_order`.
pub fn list_order(keys: &[ListKey]) -> (r: Vec<usize>)
    ensures
        is_list_order(r@, keys@),
{
    let mut out: Vec<usize> = Vec::new();
    let mut i: usize = 0;
    while i < keys.len()
        invariant
            i <= keys@.len(),
            out@.len() == i,
            forall|q: int| 0 <= q < out@.len() ==> #[trigger] out@[q] < i,
            forall|a: int, b: int| 0 <= a < b < out@.len() ==> #[trigger] out@[a] != #[trigger] out@[b],
            forall|a: int, b: int|
                0 <= a <= b < out@.len() ==> key_first(keys@[#[trigger] out@[a] as int], keys@[#[trigger] out@[b] as int]),
        decreases keys@.len() - i,
    {
        let mut k: usize = 0;
        while k < out.len() && key_before(&keys[out[k]], &keys[i])
            invariant
                0 <= k <= out@.len(),
                i < keys@.len(),
                forall|q: int| 0 <= q < out@.len() ==> #[trigger] out@[q] < i,
                forall|q: int| 0 <= q < k ==> key_first(keys@[#[trigger] out@[q] as int], keys@[i as int]),
            decreases out@.len() - k,
        {
            k += 1;
        }
        let ghost before = out@;
        out.insert(k, i);
        proof {
            let after = out@;
            assert(after == before.insert(k as int, i));
            assert forall|q: int| 0 <= q < after.len() implies #[trigger] after[q] < i + 1 by {
                if q < k {
                } else if q > k {
                    assert(after[q] == before[q - 1]);
                }
            }
            assert forall|a: int, b: int| 0 <= a < b < after.len() implies #[trigger] after[a] != #[trigger] after[b] by {
                if a < k && b < k {
                } else if a < k && b == k {
                    assert(before[a] < i);
                } else if a < k && b > k {
                    assert(after[b] == before[b - 1]);
                } else if a == k {
                    assert(after[b] == before[b - 1]);
                    assert(before[b - 1] < i);
                } else {
                    assert(after[a] == before[a - 1]);
                    assert(after[b] == before[b - 1]);
                }
            }
            let v = keys@[i as int];
            assert forall|a: int, b: int| 0 <= a <= b < after.len() implies key_first(
                keys@[#[trigger] after[a] as int],
                keys@[#[trigger] after[b] as int],
            ) by {
                if b < k {
                } else if a > k {
                    assert(after[a] == before[a - 1]);
                    assert(after[b] == before[b - 1]);
                } else if a == k && b == k {
                } else if a == k && b > k {
                    assert(after[b] == before[b - 1]);
                    let w = keys@[before[k as int] as int];
                    assert(!key_first(w, v));
                    assert(key_first(w, keys@[before[b - 1] as int]));
                } else if a < k && b > k {
                    assert(after[b] == before[b - 1]);
                    assert(key_first(keys@[before[a] as int], keys@[before[b - 1] as int]));
                } else {
                    assert(key_first(keys@[before[a] as int], v));
                }
            }
        }
        i += 1;
    }
    out
}

/// The keys of stored rows.
pub open spec fn row_keys(rows: Seq<StoredHistoryRow>) -> Seq<ListKey> {
    rows.map_values(|r: StoredHistoryRow| key_of(r))
}

pub(crate) fn keys_of(rows: &[StoredHistoryRow]) -> (r: Vec<ListKey>)
    ensures
        r@ == row_keys(rows@),
{
    let mut out: Vec<ListKey> = Vec::new();
    let mut i: usize = 0;
    while i < rows.len()
        invariant
            i <= rows@.len(),
            out@ == row_keys(rows@.take(i as int)),
        decreases rows@.len() - i,
    {
        let r = &rows[i];
        out.push(ListKey { is_pinned: r.is_pinned, item_order: r.item_order, updated_at: r.updated_at });
        proof {
            assert(row_keys(rows@.take(i + 1)) =~= row_keys(rows@.take(i as int)).push(key_of(rows@[i as int])));
        }
        i += 1;
    }
    proof {
        assert(rows@.take(rows@.len() as int) =~= rows@);
    }
    out
}

/// The first place of `id` when the rows are listed in `order`.
pub open spec fn listed_place(rows: Seq<StoredHistoryRow>, order: Seq<usize>, id: i64) -> Option<int> {
    if exists|p: int| 0 <= p < order.len() && #[trigger] rows[order[p] as int].id == id {
        Some(choose|p: int| 0 <= p < order.len() && rows[order[p] as int].id == id
            && forall|q: int| 0 <= q < p ==> #[trigger] rows[order[q] as int].id != id)
    } else {
        None
    }
}

/// The 0-based place of item `id` in the history list (see `is_list_order`),
/// or `None` when no stored row has that id.
pub fn get_clipboard_item_position(rows: &[StoredHistoryRow], id: i64) -> (r: Option<i64>)
    requires
        rows@.len() <= i64::MAX,
    ensures
        exists|order: Seq<usize>| #[trigger] is_list_order(order, row_keys(rows@)) && match r {
            Some(p) => 0 <= p < order.len() && rows@[order[p as int] as int].id == id && forall|q: int|
                0 <= q < p ==> rows@[order[q] as int].id != id,
            None => forall|q: int| 0 <= q < order.len() ==> rows@[order[q] as int].id != id,
        },
{
    let keys = keys_of(rows);
    let order = list_order(keys.as_slice());
    let mut i: usize = 0;
    while i < order.len()
        invariant
            i <= order@.len(),
            is_list_order(order@, row_keys(rows@)),
            rows@.len() <= i64::MAX,
            forall|q: int| 0 <= q < i ==> rows@[order@[q] as int].id != id,
        decreases order@.len() - i,
    {
        if rows[order[i]].id == id {
            return Some(i as i64);
        }
        i += 1;
    }
    None
}

// ---------------------------------------------------------------------------
// The history query
// ---------------------------------------------------------------------------

/// `content LIKE '%search%'` when the search applies, and `content_type LIKE
/// '%type%'` when the type applies.
pub open spec fn row_matches(row: StoredHistoryRow, search: Option<Seq<char>>, content_type: Option<Seq<char>>) -> bool {
    &&& search_applies(search) ==> like_contains(row.content@, search.unwrap())
    &&& type_applies(content_type) ==> like_contains(row.content_type@, content_type.unwrap())
}

/// The rows that match, in stored order.
pub open spec fn matching_rows(
    rows: Seq<(StoredHistoryRow, Option<String>)>,
    search: Option<Seq<char>>,
    content_type: Option<Seq<char>>,
) -> Seq<(StoredHistoryRow, Option<String>)>
    decreases rows.len(),
{
    if rows.len() == 0 {
        Seq::empty()
    } else {
        let rest = matching_rows(rows.drop_last(), search, content_type);
        if row_matches(rows.last().0, search, content_type) {
            rest.push(rows.last())
        } else {
            rest
        }
    }
}

pub open spec fn pair_keys(rows: Seq<(StoredHistoryRow, Option<String>)>) -> Seq<ListKey> {
    rows.map_values(|r: (StoredHistoryRow, Option<String>)| key_of(r.0))
}

/// Where a page starts among `n` rows: a negative offset counts as 0.
pub open spec fn page_start(n: int, offset: i64) -> int {
    if offset <= 0 {
        0
    } else if offset >= n {
        n
    } else {
        offset as int
    }
}

/// Where a page ends: a negative limit sets no bound.
pub open spec fn page_end(n: int, offset: i64, limit: i64) -> int {
    let lo = page_start(n, offset);
    if limit < 0 || lo + limit >= n {
        n
    } else {
        lo + limit
    }
}

/// The rows of a page: those at `order[start..end]`.
pub open spec fn page_rows(
    m: Seq<(StoredHistoryRow, Option<String>)>,
    order: Seq<usize>,
    offset: i64,
    limit: i64,
) -> Seq<(StoredHistoryRow, Option<String>)> {
    let lo = page_start(m.len() as int, offset);
    Seq::new((page_end(m.len() as int, offset, limit) - lo) as nat, |k: int| m[order[lo + k] as int])
}

/// The `LIKE` pattern `%s%`.
fn like_pattern(s: &str) -> (r: Vec<char>)
    ensures
        r@ == seq!['%'] + s@ + seq!['%'],
{
    let mut v: Vec<char> = Vec::new();
    v.push('%');
    let c = char_vec(s);
    let mut i: usize = 0;
    while i < c.len()
        invariant
            i <= c@.len(),
            c@ == s@,
            v@ == seq!['%'] + c@.take(i as int),
        decreases c@.len() - i,
    {
        v.push(c[i]);
        proof {
            assert(c@.take(i + 1) =~= c@.take(i as int).push(c@[i as int]));
        }
        i += 1;
    }
    v.push('%');
    proof {
        assert(c@.take(c@.len() as int) =~= c@);
    }
    v
}

fn opt_pattern(s: Option<&str>, applies: bool) -> (r: Option<Vec<char>>)
    requires
        applies ==> s is Some,
    ensures
        applies ==> (r matches Some(p) && p@ == seq!['%'] + s.unwrap()@ + seq!['%']),
        !applies ==> r is None,
{
    if applies {
        match s {
            Some(t) => Some(like_pattern(t)),
            None => None,
        }
    } else {
        None
    }
}

/// `res` is the page of the history that `params` asks of the stored rows
/// (each with the favorite made from it): the rows that match the query's
/// search and type (see `row_matches`) are counted, listed in list order (see
/// `is_list_order`), and the page from `offset` of at most `limit` of them is
/// shown as `item_lists` says; the second part lists the page's rows whose
/// character count is to be filled in (see `update_missing_char_counts`).
pub open spec fn page_of(
    params: QueryParams,
    max_content_length: int,
    rows: Seq<(StoredHistoryRow, Option<String>)>,
    res: (PaginatedResult<ClipboardItem>, Vec<(i64, String, String)>),
) -> bool {
    let m = matching_rows(rows, owned_view(params.search), owned_view(params.content_type));
    &&& res.0.total_count == m.len()
    &&& res.0.offset == params.offset
    &&& res.0.limit == params.limit
    &&& res.0.has_more == (params.offset + res.0.items@.len() < m.len())
    &&& exists|order: Seq<usize>| #[trigger] is_list_order(order, pair_keys(m)) && {
        let page = page_rows(m, order, params.offset, params.limit);
        &&& res.0.items@.len() == page.len()
        &&& forall|k: int| 0 <= k < page.len() ==> item_lists(
            #[trigger] res.0.items@[k],
            page[k].0,
            page[k].1,
            owned_view(params.search),
            max_content_length,
        )
        &&& backfill_views(res.1@) == count_backfills(page)
    }
}

/// The bounds a query needs: row counts and lengths that fit the machine.
pub open spec fn query_fits(params: QueryParams, rows: Seq<(StoredHistoryRow, Option<String>)>) -> bool {
    &&& rows.len() <= i64::MAX
    &&& forall|i: int| 0 <= i < rows.len() ==> (#[trigger] rows[i]).0.content@.len() <= i64::MAX
    &&& params.search matches Some(s) ==> s@.len() + 2 < usize::MAX
    &&& params.content_type matches Some(t) ==> t@.len() + 2 < usize::MAX
}

/// A page of the history (see `page_of`); without an open database (`None`)
/// the bare `db_not_initialized` message.
pub fn query_clipboard_items(
    params: &QueryParams,
    max_content_length: usize,
    rows: Option<&[(StoredHistoryRow, Option<String>)]>,
) -> (r: Result<(PaginatedResult<ClipboardItem>, Vec<(i64, String, String)>), String>)
    requires
        rows matches Some(v) ==> query_fits(*params, v@),
    ensures
        match rows {
            Some(v) => r matches Ok(res) && page_of(*params, max_content_length as int, v@, res),
            None => r matches Err(e) && e@ == db_not_initialized(),
        },
{
    match rows {
        Some(v) => Ok(query_page(params, max_content_length, v)),
        None => Err(string_from_str("数据库未初始化")),
    }
}

fn query_page(
    params: &QueryParams,
    max_content_length: usize,
    rows: &[(StoredHistoryRow, Option<String>)],
) -> (r: (PaginatedResult<ClipboardItem>, Vec<(i64, String, String)>))
    requires
        query_fits(*params, rows@),
    ensures
        page_of(*params, max_content_length as int, rows@, r),
{
    let ghost sv = owned_view(params.search);
    let ghost tv = owned_view(params.content_type);
    let search: Option<&str> = match &params.search {
        Some(s) => Some(s.as_str()),
        None => None,
    };
    let ctype: Option<&str> = match &params.content_type {
        Some(t) => Some(t.as_str()),
        None => None,
    };
    assert(opt_view(search) == sv);
    assert(opt_view(ctype) == tv);
    let search_on = match search {
        Some(s) => trimmed_chars(s).len() > 0,
        None => false,
    };
    let type_on = match ctype {
        Some(t) => !str_eq(t, "all"),
        None => false,
    };
    assert(search_on == search_applies(sv));
    assert(type_on == type_applies(tv));
    let search_pat = opt_pattern(search, search_on);
    let type_pat = opt_pattern(ctype, type_on);
    // The matching rows, by index.
    let mut picked: Vec<usize> = Vec::new();
    let mut i: usize = 0;
    proof {
        assert(rows@.take(0) =~= Seq::<(StoredHistoryRow, Option<String>)>::empty());
    }
    while i < rows.len()
        invariant
            i <= rows@.len(),
            search_on == search_applies(sv),
            type_on == type_applies(tv),
            search_on ==> (search_pat matches Some(p) && p@ == seq!['%'] + sv.unwrap() + seq!['%']),
            type_on ==> (type_pat matches Some(p) && p@ == seq!['%'] + tv.unwrap() + seq!['%']),
            params.search matches Some(s) ==> s@.len() + 2 < usize::MAX,
            params.content_type matches Some(t) ==> t@.len() + 2 < usize::MAX,
            sv == owned_view(params.search),
            tv == owned_view(params.content_type),
            forall|q: int| 0 <= q < picked@.len() ==> #[trigger] picked@[q] < i,
            picked@.len() <= i,
            matching_rows(rows@.take(i as int), sv, tv) == picked@.map_values(|k: usize| rows@[k as int]),
        decreases rows@.len() - i,
    {
        let row = &rows[i].0;
        let ok_search = if search_on {
            match &search_pat {
                Some(p) => {
                    let c = char_vec(row.content.as_str());
                    like_matches(c.as_slice(), p.as_slice())
                },
                None => true,
            }
        } else {
            true
        };
        let ok_type = if type_on {
            match &type_pat {
                Some(p) => {
                    let c = char_vec(row.content_type.as_str());
                    like_matches(c.as_slice(), p.as_slice())
                },
                None => true,
            }
        } else {
            true
        };
        let ghost before = picked@;
        proof {
            assert(rows@.take(i + 1).drop_last() =~= rows@.take(i as int));
            assert(rows@.take(i + 1).last() == rows@[i as int]);
            assert((ok_search && ok_type) == row_matches(rows@[i as int].0, sv, tv));
        }
        if ok_search && ok_type {
            picked.push(i);
            proof {
                assert(picked@.map_values(|k: usize| rows@[k as int]) =~= before.map_values(|k: usize| rows@[k as int]).push(
                    rows@[i as int],
                ));
            }
        }
        i += 1;
    }
    proof {
        assert(rows@.take(rows@.len() as int) =~= rows@);
    }
    let ghost m = matching_rows(rows@, sv, tv);
    assert(m == picked@.map_values(|k: usize| rows@[k as int]));
    // Their keys, and the list order.
    let mut keys: Vec<ListKey> = Vec::new();
    let mut j: usize = 0;
    while j < picked.len()
        invariant
            j <= picked@.len(),
            m == picked@.map_values(|k: usize| rows@[k as int]),
            forall|q: int| 0 <= q < picked@.len() ==> #[trigger] picked@[q] < rows@.len(),
            keys@ == pair_keys(m.take(j as int)),
        decreases picked@.len() - j,
    {
        let row = &rows[picked[j]].0;
        keys.push(ListKey { is_pinned: row.is_pinned, item_order: row.item_order, updated_at: row.updated_at });
        proof {
            assert(m[j as int] == rows@[picked@[j as int] as int]);
            assert(pair_keys(m.take(j + 1)) =~= pair_keys(m.take(j as int)).push(key_of(m[j as int].0)));
        }
        j += 1;
    }
    proof {
        assert(m.take(m.len() as int) =~= m);
    }
    let order = list_order(keys.as_slice());
    let total = picked.len();
    assert(total == m.len());
    assert(total <= rows@.len());
    // The page bounds.
    let lo: usize = if params.offset <= 0 {
        0
    } else if params.offset as u64 >= total as u64 {
        total
    } else {
        params.offset as usize
    };
    let hi: usize = if params.limit < 0 || (params.limit as u64) >= (total - lo) as u64 {
        total
    } else {
        lo + params.limit as usize
    };
    assert(lo == page_start(m.len() as int, params.offset));
    assert(hi == page_end(m.len() as int, params.offset, params.limit));
    let ghost page = page_rows(m, order@, params.offset, params.limit);
    let mut items: Vec<ClipboardItem> = Vec::new();
    let mut backfills: Vec<(i64, String, String)> = Vec::new();
    let mut k: usize = lo;
    proof {
        assert(backfill_views(backfills@) =~= count_backfills(page.take(0)));
    }
    while k < hi
        invariant
            lo <= k <= hi <= total,
            total == m.len(),
            m == picked@.map_values(|x: usize| rows@[x as int]),
            forall|q: int| 0 <= q < picked@.len() ==> #[trigger] picked@[q] < rows@.len(),
            is_list_order(order@, pair_keys(m)),
            page == page_rows(m, order@, params.offset, params.limit),
            lo == page_start(m.len() as int, params.offset),
            hi == page_end(m.len() as int, params.offset, params.limit),
            items@.len() == k - lo,
            sv == owned_view(params.search),
            opt_view(search) == sv,
            forall|q: int| 0 <= q < rows@.len() ==> (#[trigger] rows@[q]).0.content@.len() <= i64::MAX,
            forall|q: int| 0 <= q < items@.len() ==> item_lists(
                #[trigger] items@[q],
                page[q].0,
                page[q].1,
                sv,
                max_content_length as int,
            ),
            backfill_views(backfills@) == count_backfills(page.take(k - lo)),
        decreases hi - k,
    {
        assert(order@[k as int] < pair_keys(m).len());
        let at = picked[order[k]];
        let (row, favorite) = &rows[at];
        proof {
            assert(page[k - lo] == m[order@[k as int] as int]);
            assert(m[order@[k as int] as int] == rows@[at as int]);
        }
        let preview = preview_row(
            row.content.clone(),
            clone_text(&row.html_content),
            row.content_type.as_str(),
            search,
            max_content_length,
            row.char_count,
        );
        let ghost before = backfills@;
        if preview.needs_char_count_update {
            backfills.push((row.id, row.content.clone(), row.content_type.clone()));
        }
        proof {
            assert(page.take(k - lo + 1).drop_last() =~= page.take(k - lo));
            assert(page.take(k - lo + 1).last() == page[k - lo]);
            if preview.needs_char_count_update {
                assert(backfill_views(backfills@) =~= backfill_views(before).push((row.id, row.content@, row.content_type@)));
            }
        }
        items.push(
            ClipboardItem {
                id: row.id,
                uuid: clone_text(&row.uuid),
                favorite_id: clone_text(favorite),
                source_device_id: clone_text(&row.source_device_id),
                is_remote: row.is_remote,
                content: preview.content,
                html_content: preview.html_content,
                content_type: row.content_type.clone(),
                image_id: clone_text(&row.image_id),
                item_order: row.item_order,
                is_pinned: row.is_pinned,
                paste_count: row.paste_count,
                source_app: clone_text(&row.source_app),
                source_icon_hash: clone_text(&row.source_icon_hash),
                char_count: preview.char_count,
                created_at: row.created_at,
                updated_at: row.updated_at,
            },
        );
        k += 1;
    }
    proof {
        assert(page.take(page.len() as int) =~= page);
        assert(is_list_order(order@, pair_keys(m)));
        assert(page.len() == items@.len());
    }
    (PaginatedResult::new(total as i64, items, params.offset, params.limit), backfills)
}

} // verus!
