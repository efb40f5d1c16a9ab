//! Decisions of storing and editing a clipboard capture: the content-type
//! classes, the character count, whether images may be kept, which recent
//! item it duplicates, and when an edit outdates its raw formats. The
//! database work stays with the caller.
use vstd::prelude::*;
use vstd::multiset::*;
use vstd::seq_lib::*;
use crate::files_json::{self, present_fields, read_json_file_entries, strings_view};
use crate::strs::{self, char_vec, contains_chars, starts_with_chars, str_eq, string_from_chars, string_from_str};
use crate::text::sub_vec;
use crate::item_order::{is_bucket_max, next_item_order, slot_orders_in_range, ItemSlot};
use crate::history_records::{find_row, row_with_id, StoredHistoryRow};
use crate::clipboard_data::{rows_without_target, ClipboardDataStore};
use crate::deletion::tombstone_id;
use crate::table::{missing_row_error, no_rows, store_error};
use crate::tombstones::now_secs;

verus! {

broadcast use vstd::seq::group_seq_axioms;

pub open spec fn contains(s: Seq<char>, needle: Seq<char>) -> bool {
    strs::contains_seq(s, needle)
}

/// Text kinds: starts with `text`, or mentions `rich_text` or `link`.
pub open spec fn text_type(t: Seq<char>) -> bool {
    strs::matches_at(t, "text"@, 0) || contains(t, "rich_text"@) || contains(t, "link"@)
}

/// File kinds: mentions `image` or `file`.
pub open spec fn file_type(t: Seq<char>) -> bool {
    contains(t, "image"@) || contains(t, "file"@)
}

fn has(t: &Vec<char>, lit: &str) -> (r: bool)
    ensures
        r == contains(t@, lit@),
{
    let n = char_vec(lit);
    contains_chars(t, &n)
}

/// Whether a content type is a text kind; see `text_type`.
pub fn is_text_type(content_type: &str) -> (r: bool)
    ensures
        r == text_type(content_type@),
{
    let t = char_vec(content_type);
    let p = char_vec("text");
    starts_with_chars(&t, &p) || has(&t, "rich_text") || has(&t, "link")
}

/// Whether a content type is a file kind; see `file_type`.
pub fn is_file_type(content_type: &str) -> (r: bool)
    ensures
        r == file_type(content_type@),
{
    let t = char_vec(content_type);
    has(&t, "image") || has(&t, "file")
}

/// Whether a content type is an image kind: it mentions `image`.
pub fn is_image_type(content_type: &str) -> (r: bool)
    ensures
        r == contains(content_type@, "image"@),
{
    let t = char_vec(content_type);
    has(&t, "image")
}

/// The character count kept for text kinds (types mentioning `text` or
/// `rich_text`): the number of characters when there are any.
pub fn calculate_char_count(content: &str, content_type: &str) -> (r: Option<i64>)
    requires
        content@.len() <= i64::MAX,
    ensures
        (contains(content_type@, "text"@) || contains(content_type@, "rich_text"@)) && content@.len() > 0
            ==> r == Some(content@.len() as i64),
        !((contains(content_type@, "text"@) || contains(content_type@, "rich_text"@)) && content@.len() > 0) ==> r is None,
{
    let t = char_vec(content_type);
    if has(&t, "text") || has(&t, "rich_text") {
        let n = char_vec(content).len();
        if n > 0 {
            return Some(n as i64);
        }
    }
    None
}

pub open spec fn msg_images_disabled() -> Seq<char> {
    "已禁止保存图片"@
}

/// Images are refused while saving images is switched off.
pub fn check_image_allowed(save_images: bool, content_type: &str) -> (r: Result<(), String>)
    ensures
        (!save_images && contains(content_type@, "image"@)) ==> (r matches Err(e) && e@ == msg_images_disabled()),
        !(!save_images && contains(content_type@, "image"@)) ==> r is Ok,
{
    if !save_images && is_image_type(content_type) {
        return Err(string_from_str("已禁止保存图片"));
    }
    Ok(())
}

// ---------------------------------------------------------------------------
// File lists compared as sets of paths
// ---------------------------------------------------------------------------

/// The paths of a file-list JSON: `None` when it does not parse; none when
/// it has no `files` array; else the present `path` strings.
pub open spec fn file_paths_of(json: Seq<char>) -> Option<Seq<Seq<char>>> {
    match files_json::json_file_entries(json) {
        None => None,
        Some(None) => Some(Seq::empty()),
        Some(Some(e)) => Some(files_json::present(e, 1)),
    }
}

/// Two contents are the same file content: without the `files:` prefix on
/// both, when they are equal; else when both lists parse and hold the same
/// paths the same number of times, in any order.
pub open spec fn same_file_contents(c1: Seq<char>, c2: Seq<char>) -> bool {
    if !(strs::matches_at(c1, "files:"@, 0) && strs::matches_at(c2, "files:"@, 0)) {
        c1 == c2
    } else {
        match (file_paths_of(c1.skip("files:"@.len() as int)), file_paths_of(c2.skip("files:"@.len() as int))) {
            (Some(p1), Some(p2)) => p1.to_multiset() == p2.to_multiset(),
            _ => false,
        }
    }
}

fn file_paths(json: &str) -> (r: Option<Vec<String>>)
    ensures
        r is Some == file_paths_of(json@) is Some,
        r matches Some(v) ==> strings_view(v@) == file_paths_of(json@).unwrap(),
{
    match read_json_file_entries(json) {
        None => None,
        Some(None) => {
            let v: Vec<String> = Vec::new();
            assert(strings_view(v@) =~= Seq::<Seq<char>>::empty());
            Some(v)
        },
        Some(Some(e)) => Some(present_fields(&e, 1)),
    }
}

proof fn lemma_sum_step(done: Seq<Seq<char>>, x: Seq<char>, rest: Seq<Seq<char>>, j: int)
    requires
        0 <= j < rest.len(),
        rest[j] == x,
    ensures
        done.push(x).to_multiset().add(rest.remove(j).to_multiset()) =~= done.to_multiset().add(rest.to_multiset()),
{
    broadcast use group_multiset_axioms, to_multiset_build, to_multiset_remove, to_multiset_contains;

    assert(rest.contains(x));
    assert(rest.to_multiset().count(x) > 0);
}

proof fn lemma_missing(a: Seq<Seq<char>>, i: int, rest: Seq<Seq<char>>, b: Seq<Seq<char>>)
    requires
        0 <= i < a.len(),
        !rest.contains(a[i]),
        a.take(i).to_multiset().add(rest.to_multiset()) == b.to_multiset(),
    ensures
        a.to_multiset() != b.to_multiset(),
{
    broadcast use group_multiset_axioms, to_multiset_contains, lemma_multiset_commutative;

    let x = a[i];
    assert(a =~= a.take(i) + a.skip(i));
    assert(a.skip(i).contains(x)) by {
        assert(a.skip(i)[0] == x);
    }
    assert(a.skip(i).to_multiset().count(x) > 0);
    assert(rest.to_multiset().count(x) == 0);
    assert(a.to_multiset().count(x) == a.take(i).to_multiset().count(x) + a.skip(i).to_multiset().count(x));
    assert(b.to_multiset().count(x) == a.take(i).to_multiset().count(x) + rest.to_multiset().count(x));
}

proof fn lemma_empty_multiset(s: Seq<Seq<char>>)
    requires
        s.len() == 0,
    ensures
        s.to_multiset() =~= Multiset::<Seq<char>>::empty(),
{
    broadcast use group_multiset_axioms, to_multiset_contains;

    assert forall|v: Seq<char>| s.to_multiset().count(v) == Multiset::<Seq<char>>::empty().count(v) by {
        assert(!s.contains(v));
    }
}

/// The first position of `x` in `v`.
fn position_of(v: &Vec<String>, x: &str) -> (r: Option<usize>)
    ensures
        r matches Some(j) ==> j < v@.len() && strings_view(v@)[j as int] == x@,
        r is None ==> forall|k: int| 0 <= k < v@.len() ==> strings_view(v@)[k] != x@,
{
    let mut j: usize = 0;
    while j < v.len()
        invariant
            0 <= j <= v@.len(),
            forall|k: int| 0 <= k < j ==> strings_view(v@)[k] != x@,
        decreases v@.len() - j,
    {
        if str_eq(v[j].as_str(), x) {
            return Some(j);
        }
        j += 1;
    }
    None
}

/// Whether two lists hold the same strings the same number of times.
fn same_multiset(a: &Vec<String>, b: Vec<String>) -> (r: bool)
    ensures
        r == (strings_view(a@).to_multiset() == strings_view(b@).to_multiset()),
{
    broadcast use group_multiset_axioms, to_multiset_len;

    let ghost av = strings_view(a@);
    let ghost bv = strings_view(b@);
    let mut rest = b;
    let mut i: usize = 0;
    proof {
        lemma_empty_multiset(av.take(0));
        assert(Multiset::<Seq<char>>::empty().add(bv.to_multiset()) =~= bv.to_multiset());
    }
    while i < a.len()
        invariant
            0 <= i <= a@.len(),
            av == strings_view(a@),
            bv == strings_view(b@),
            av.take(i as int).to_multiset().add(strings_view(rest@).to_multiset()) == bv.to_multiset(),
        decreases a@.len() - i,
    {
        let found = position_of(&rest, a[i].as_str());
        let j = match found {
            Some(j) => j,
            None => {
                proof {
                    assert(!strings_view(rest@).contains(av[i as int]));
                    lemma_missing(av, i as int, strings_view(rest@), bv);
                    assert(av.to_multiset() != bv.to_multiset());
                    assert(bv == strings_view(b@));
                }
                return false;
            },
        };
        let ghost rv = strings_view(rest@);
        proof {
            lemma_sum_step(av.take(i as int), av[i as int], rv, j as int);
            assert(av.take(i + 1) =~= av.take(i as int).push(av[i as int]));
        }
        rest.remove(j);
        proof {
            assert(strings_view(rest@) =~= rv.remove(j as int));
        }
        i += 1;
    }
    proof {
        assert(av.take(a@.len() as int) =~= av);
    }
    if rest.len() == 0 {
        proof {
            lemma_empty_multiset(strings_view(rest@));
            assert(av.to_multiset().add(Multiset::<Seq<char>>::empty()) =~= av.to_multiset());
        }
        true
    } else {
        proof {
            assert(strings_view(rest@).len() > 0);
            assert(strings_view(rest@).to_multiset().len() > 0);
            assert(bv.to_multiset().len() == av.to_multiset().len() + strings_view(rest@).to_multiset().len());
        }
        false
    }
}

/// Whether two contents are the same file content; see `same_file_contents`.
pub fn compare_file_contents(content1: &str, content2: &str) -> (r: bool)
    ensures
        r == same_file_contents(content1@, content2@),
{
    let c1 = char_vec(content1);
    let c2 = char_vec(content2);
    let prefix = char_vec("files:");
    if !(starts_with_chars(&c1, &prefix) && starts_with_chars(&c2, &prefix)) {
        return str_eq(content1, content2);
    }
    let j1 = string_from_chars(&sub_vec(&c1, prefix.len(), c1.len()));
    let j2 = string_from_chars(&sub_vec(&c2, prefix.len(), c2.len()));
    assert(j1@ == content1@.skip("files:"@.len() as int));
    assert(j2@ == content2@.skip("files:"@.len() as int));
    let p1 = match file_paths(j1.as_str()) {
        Some(p) => p,
        None => return false,
    };
    let p2 = match file_paths(j2.as_str()) {
        Some(p) => p,
        None => return false,
    };
    same_multiset(&p1, p2)
}

// ---------------------------------------------------------------------------
// Duplicates among recent items
// ---------------------------------------------------------------------------

/// One of the most recent stored items, newest first.
#[derive(Debug)]
pub struct RecentItem {
    pub id: i64,
    pub content: String,
    pub content_type: String,
    pub is_pinned: i64,
}

/// The stored item a capture duplicates.
#[derive(Debug, Clone, Copy, PartialEq, Eq, Structural)]
pub struct DuplicateClipboardItem {
    pub id: i64,
    pub is_pinned: i64,
}

/// A capture duplicates a stored item when both are text kinds with equal
/// content, or both file kinds with the same file content.
pub open spec fn duplicates(content_type: Seq<char>, content: Seq<char>, item: RecentItem) -> bool {
    if text_type(content_type) && text_type(item.content_type@) {
        content == item.content@
    } else if file_type(content_type) && file_type(item.content_type@) {
        same_file_contents(content, item.content@)
    } else {
        false
    }
}

/// The first recent item the capture duplicates, if any.
pub fn find_duplicate_item(content_type: &str, content: &str, recent: &[RecentItem]) -> (r: Option<DuplicateClipboardItem>)
    ensures
        r is None ==> forall|i: int| 0 <= i < recent@.len() ==> !duplicates(content_type@, content@, #[trigger] recent@[i]),
        r matches Some(d) ==> exists|i: int| 0 <= i < recent@.len() && duplicates(content_type@, content@, #[trigger] recent@[i])
            && (forall|k: int| 0 <= k < i ==> !duplicates(content_type@, content@, #[trigger] recent@[k]))
            && d.id == recent@[i].id && d.is_pinned == recent@[i].is_pinned,
{
    let mut i: usize = 0;
    while i < recent.len()
        invariant
            0 <= i <= recent@.len(),
            forall|k: int| 0 <= k < i ==> !duplicates(content_type@, content@, #[trigger] recent@[k]),
        decreases recent@.len() - i,
    {
        let item = &recent[i];
        let same = if is_text_type(content_type) && is_text_type(item.content_type.as_str()) {
            str_eq(content, item.content.as_str())
        } else if is_file_type(content_type) && is_file_type(item.content_type.as_str()) {
            compare_file_contents(content, item.content.as_str())
        } else {
            false
        };
        if same {
            return Some(DuplicateClipboardItem { id: item.id, is_pinned: item.is_pinned });
        }
        i += 1;
    }
    None
}

/// An edit makes the item's raw clipboard formats stale when the text changes,
/// or when new HTML is given that differs from the stored one.
pub fn raw_formats_outdated(old_content: &str, old_html: Option<&str>, content: &str, html: Option<&str>) -> (r: bool)
    ensures
        r == (old_content@ != content@ || match html {
            Some(h) => match old_html {
                Some(o) => o@ != h@,
                None => true,
            },
            None => false,
        }),
{
    let content_changed = !str_eq(old_content, content);
    let html_changed = match html {
        Some(h) => match old_html {
            Some(o) => !str_eq(o, h),
            None => true,
        },
        None => false,
    };
    content_changed || html_changed
}

// ---------------------------------------------------------------------------
// Where a capture goes
// ---------------------------------------------------------------------------

/// Where a new capture is stored.
#[derive(Debug, PartialEq, Eq)]
pub enum StorePlan {
    /// The duplicated item `id` takes the capture at the top of its bucket.
    Refresh { id: i64, item_order: i64, char_count: Option<i64> },
    /// A new unpinned item at the top of the unpinned bucket.
    Insert { item_order: i64, char_count: Option<i64> },
}

/// The character count of `calculate_char_count`.
pub open spec fn char_count_of(content: Seq<char>, content_type: Seq<char>) -> Option<i64> {
    if (contains(content_type, "text"@) || contains(content_type, "rich_text"@)) && content.len() > 0 {
        Some(content.len() as i64)
    } else {
        None
    }
}

/// Storing a capture: images are refused while saving them is off; a capture
/// that duplicates one of the recent items (the first such, newest first)
/// refreshes it at the top of its bucket (leaving itself out of the count);
/// any other capture becomes a new item at the top of the unpinned bucket.
pub fn store_clipboard_item(
    save_images: bool,
    content_type: &str,
    content: &str,
    recent: &[RecentItem],
    slots: &[ItemSlot],
) -> (r: Result<StorePlan, String>)
    requires
        content@.len() <= i64::MAX,
        slot_orders_in_range(slots@),
    ensures
        (!save_images && contains(content_type@, "image"@)) ==> (r matches Err(e) && e@ == msg_images_disabled()),
        !(!save_images && contains(content_type@, "image"@)) ==> match r {
            Ok(StorePlan::Refresh { id, item_order, char_count }) => exists|i: int|
                0 <= i < recent@.len() && duplicates(content_type@, content@, #[trigger] recent@[i]) && (forall|k: int|
                    0 <= k < i ==> !duplicates(content_type@, content@, #[trigger] recent@[k])) && id == recent@[i].id
                    && is_bucket_max(slots@, recent@[i].is_pinned != 0, Some(id), item_order - 1) && char_count
                    == char_count_of(content@, content_type@),
            Ok(StorePlan::Insert { item_order, char_count }) => (forall|i: int|
                0 <= i < recent@.len() ==> !duplicates(content_type@, content@, #[trigger] recent@[i])) && is_bucket_max(
                slots@,
                false,
                None,
                item_order - 1,
            ) && char_count == char_count_of(content@, content_type@),
            Err(_) => false,
        },
{
    check_image_allowed(save_images, content_type)?;
    let char_count = calculate_char_count(content, content_type);
    match find_duplicate_item(content_type, content, recent) {
        Some(d) => {
            let item_order = next_item_order(slots, d.is_pinned != 0, Some(d.id));
            Ok(StorePlan::Refresh { id: d.id, item_order, char_count })
        },
        None => {
            let item_order = next_item_order(slots, false, None);
            Ok(StorePlan::Insert { item_order, char_count })
        },
    }
}


/// The counts to fill in for rows that lack one, in order: `(id, count)` for
/// each row whose `calculate_char_count` is present.
pub open spec fn char_count_updates(items: Seq<(i64, String, String)>) -> Seq<(i64, i64)>
    decreases items.len(),
{
    if items.len() == 0 {
        Seq::empty()
    } else {
        let rest = char_count_updates(items.drop_last());
        let last = items.last();
        match char_count_of(last.1@, last.2@) {
            Some(c) => rest.push((last.0, c)),
            None => rest,
        }
    }
}

/// Backfilling missing character counts: each listed `(id, content,
/// content_type)` gets the update `(id, count)` where its kind keeps a count
/// and it has characters; the writes are the caller's.
pub fn update_missing_char_counts(items: &[(i64, String, String)]) -> (r: Vec<(i64, i64)>)
    requires
        forall|i: int| 0 <= i < items@.len() ==> (#[trigger] items@[i]).1@.len() <= i64::MAX,
    ensures
        r@ == char_count_updates(items@),
{
    let mut out: Vec<(i64, i64)> = Vec::new();
    let mut i: usize = 0;
    while i < items.len()
        invariant
            i <= items@.len(),
            forall|k: int| 0 <= k < items@.len() ==> (#[trigger] items@[k]).1@.len() <= i64::MAX,
            out@ == char_count_updates(items@.take(i as int)),
        decreases items@.len() - i,
    {
        proof {
            assert(items@.take(i as int + 1).drop_last() =~= items@.take(i as int));
        }
        let (id, content, content_type) = &items[i];
        if let Some(c) = calculate_char_count(content.as_str(), content_type.as_str()) {
            out.push((*id, c));
        }
        i = i + 1;
    }
    proof {
        assert(items@.take(items@.len() as int) =~= items@);
    }
    out
}


/// The edit of an item's text (and HTML, when given) at `now`.
pub open spec fn edited_row(row: StoredHistoryRow, content: String, html_content: Option<String>, now: i64) -> StoredHistoryRow {
    StoredHistoryRow {
        content,
        html_content: match html_content {
            Some(h) => Some(h),
            None => row.html_content,
        },
        updated_at: now,
        ..row
    }
}

/// Whether an edit outdates the raw formats; see `raw_formats_outdated`.
pub open spec fn edit_outdates(row: StoredHistoryRow, content: Seq<char>, html: Option<Seq<char>>) -> bool {
    row.content@ != content || match html {
        Some(h) => match row.html_content {
            Some(o) => o@ != h,
            None => true,
        },
        None => false,
    }
}

fn clone_opt_text(o: &Option<String>) -> (r: Option<String>)
    ensures
        r == *o,
{
    match o {
        Some(s) => Some(s.clone()),
        None => None,
    }
}

/// Editing item `id` at `now`: a missing item is an error and nothing
/// changes; otherwise its first row takes the text, the HTML when given, and
/// the time, and its raw formats are dropped when the edit outdates them.
pub fn update_clipboard_item_at(
    rows: &mut Vec<StoredHistoryRow>,
    raw_formats: &mut ClipboardDataStore,
    id: i64,
    content: String,
    html_content: Option<String>,
    now: i64,
) -> (r: Result<(), String>)
    ensures
        match row_with_id(old(rows)@, id) {
            None => (r matches Err(e) && e@ == store_error(no_rows())) && final(rows)@ == old(rows)@ && final(raw_formats)@
                == old(raw_formats)@,
            Some(j) => {
                &&& r is Ok
                &&& final(rows)@ == old(rows)@.update(j, edited_row(old(rows)@[j], content, html_content, now))
                &&& final(raw_formats)@ == if edit_outdates(old(rows)@[j], content@, match html_content {
                    Some(h) => Some(h@),
                    None => None,
                }) {
                    rows_without_target(old(raw_formats)@, "clipboard"@, strs::dec_i64(id as int))
                } else {
                    old(raw_formats)@
                }
            },
        },
        final(raw_formats).next_id() == old(raw_formats).next_id(),
{
    let j = match find_row(rows.as_slice(), id) {
        Some(j) => j,
        None => {
            return Err(missing_row_error());
        },
    };
    proof {
        let c = choose|q: int| 0 <= q < old(rows)@.len() && (#[trigger] old(rows)@[q]).id == id && forall|p: int|
            0 <= p < q ==> old(rows)@[p].id != id;
        assert(c == j as int);
    }
    let old_row = &rows[j];
    let outdated = raw_formats_outdated(
        old_row.content.as_str(),
        match &old_row.html_content {
            Some(h) => Some(h.as_str()),
            None => None,
        },
        content.as_str(),
        match &html_content {
            Some(h) => Some(h.as_str()),
            None => None,
        },
    );
    let html = match html_content {
        Some(h) => Some(h),
        None => clone_opt_text(&old_row.html_content),
    };
    let row = StoredHistoryRow {
        id: old_row.id,
        uuid: clone_opt_text(&old_row.uuid),
        source_device_id: clone_opt_text(&old_row.source_device_id),
        is_remote: old_row.is_remote,
        content,
        html_content: html,
        content_type: old_row.content_type.clone(),
        image_id: clone_opt_text(&old_row.image_id),
        item_order: old_row.item_order,
        is_pinned: old_row.is_pinned,
        paste_count: old_row.paste_count,
        source_app: clone_opt_text(&old_row.source_app),
        source_icon_hash: clone_opt_text(&old_row.source_icon_hash),
        char_count: old_row.char_count,
        created_at: old_row.created_at,
        updated_at: now,
    };
    rows.set(j, row);
    if outdated {
        let target = tombstone_id(None, id);
        raw_formats.delete_clipboard_data_items("clipboard", target.as_str());
        proof {
            reveal_strlit("clipboard");
        }
    }
    Ok(())
}

/// Editing item `id` now; see `update_clipboard_item_at`.
pub fn update_clipboard_item(
    rows: &mut Vec<StoredHistoryRow>,
    raw_formats: &mut ClipboardDataStore,
    id: i64,
    content: String,
    html_content: Option<String>,
) -> (r: Result<(), String>)
    ensures
        match row_with_id(old(rows)@, id) {
            None => (r matches Err(e) && e@ == store_error(no_rows())) && final(rows)@ == old(rows)@ && final(raw_formats)@
                == old(raw_formats)@,
            Some(j) => {
                &&& r is Ok
                &&& exists|now: i64| final(rows)@ == old(rows)@.update(j, edited_row(old(rows)@[j], content, html_content, now))
                &&& final(raw_formats)@ == if edit_outdates(old(rows)@[j], content@, match html_content {
                    Some(h) => Some(h@),
                    None => None,
                }) {
                    rows_without_target(old(raw_formats)@, "clipboard"@, strs::dec_i64(id as int))
                } else {
                    old(raw_formats)@
                }
            },
        },
        final(raw_formats).next_id() == old(raw_formats).next_id(),
{
    let now = now_secs();
    update_clipboard_item_at(rows, raw_formats, id, content, html_content, now)
}

} // verus!
