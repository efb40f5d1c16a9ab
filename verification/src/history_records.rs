//! The clipboard history as the sync sees it: stored rows turned into cloud
//! records (the row id standing in for a missing uuid, this device for a
//! missing source device), this device's own records, their metadata, the
//! update times by uuid, and the lookup of one record.
use vstd::prelude::*;
use crate::deletion::{tombstone_id, tombstone_id_of};
use crate::group_style::{parse_i64, parse_i64_exec};
use crate::merge::opt_view;
use crate::pairing::{is_uuid_v4_text, new_uuid_v4};
use crate::strs::{self, char_vec, str_eq, string_from_str, trimmed_chars};
use crate::sync::{CloudRecord, CloudRecordMeta, TimestampMap};
use crate::clipboard_store::{calculate_char_count, char_count_of};
use crate::query::content_with_limit;
use crate::table::Table;
use crate::text;

verus! {

broadcast use vstd::seq::group_seq_axioms;

/// A stored history row as read for syncing.
#[derive(Debug)]
pub struct StoredHistoryRow {
    pub id: i64,
    pub uuid: Option<String>,
    pub source_device_id: Option<String>,
    pub is_remote: bool,
    pub content: String,
    pub html_content: Option<String>,
    pub content_type: String,
    pub image_id: Option<String>,
    pub item_order: i64,
    pub is_pinned: bool,
    pub paste_count: i64,
    pub source_app: Option<String>,
    pub source_icon_hash: Option<String>,
    pub char_count: Option<i64>,
    pub created_at: i64,
    pub updated_at: i64,
}

/// The device a row came from: its own when not blank, else `device_id`.
pub open spec fn row_device(source: Option<String>, device_id: Seq<char>) -> Seq<char> {
    if source is Some && strs::trim(source.unwrap()@).len() > 0 {
        source.unwrap()@
    } else {
        device_id
    }
}

/// `c` is `row` as a cloud record from device `device`: the uuid falls back
/// to the row id, the title is empty and the group is the fallback group.
pub open spec fn record_of(c: CloudRecord, row: StoredHistoryRow, device: Seq<char>) -> bool {
    &&& c.uuid@ == tombstone_id_of(row.uuid, row.id)
    &&& c.source_device_id@ == device
    &&& c.is_remote == row.is_remote
    &&& c.content@ == row.content@
    &&& opt_view(c.html_content) == opt_view(row.html_content)
    &&& c.content_type@ == row.content_type@
    &&& opt_view(c.image_id) == opt_view(row.image_id)
    &&& c.item_order == row.item_order
    &&& c.paste_count == row.paste_count
    &&& opt_view(c.source_app) == opt_view(row.source_app)
    &&& opt_view(c.source_icon_hash) == opt_view(row.source_icon_hash)
    &&& c.char_count == row.char_count
    &&& c.title@ == Seq::<char>::empty()
    &&& c.group_name@ == "全部"@
    &&& c.created_at == row.created_at
    &&& c.updated_at == row.updated_at
}

fn clone_opt(o: &Option<String>) -> (r: Option<String>)
    ensures
        r == *o,
{
    match o {
        Some(s) => Some(s.clone()),
        None => None,
    }
}

fn record_from(row: &StoredHistoryRow, source_device_id: String) -> (c: CloudRecord)
    ensures
        record_of(c, *row, source_device_id@),
{
    CloudRecord {
        uuid: tombstone_id(clone_opt(&row.uuid), row.id),
        source_device_id,
        is_remote: row.is_remote,
        content: row.content.clone(),
        html_content: clone_opt(&row.html_content),
        content_type: row.content_type.clone(),
        image_id: clone_opt(&row.image_id),
        item_order: row.item_order,
        paste_count: row.paste_count,
        source_app: clone_opt(&row.source_app),
        source_icon_hash: clone_opt(&row.source_icon_hash),
        char_count: row.char_count,
        title: String::new(),
        group_name: string_from_str("全部"),
        created_at: row.created_at,
        updated_at: row.updated_at,
    }
}

fn device_of(source: &Option<String>, device_id: &str) -> (r: String)
    ensures
        r@ == row_device(*source, device_id@),
{
    match source {
        Some(s) => if trimmed_chars(s.as_str()).len() > 0 {
            s.clone()
        } else {
            string_from_str(device_id)
        },
        None => string_from_str(device_id),
    }
}

/// Every stored row, in store order, as a cloud record.
pub fn webdav_list_history_records(rows: &[StoredHistoryRow], device_id: &str) -> (r: Vec<CloudRecord>)
    ensures
        r@.len() == rows@.len(),
        forall|i: int|
            0 <= i < rows@.len() ==> record_of(#[trigger] r@[i], rows@[i], row_device(rows@[i].source_device_id, device_id@)),
{
    let mut r: Vec<CloudRecord> = Vec::new();
    let mut i: usize = 0;
    while i < rows.len()
        invariant
            i <= rows@.len(),
            r@.len() == i,
            forall|j: int|
                0 <= j < i ==> record_of(#[trigger] r@[j], rows@[j], row_device(rows@[j].source_device_id, device_id@)),
        decreases rows@.len() - i,
    {
        let row = &rows[i];
        r.push(record_from(row, device_of(&row.source_device_id, device_id)));
        i += 1;
    }
    r
}

/// The row came from this device: its source is missing, empty, or this device.
pub open spec fn is_own(row: StoredHistoryRow, device_id: Seq<char>) -> bool {
    match row.source_device_id {
        Some(s) => s@.len() == 0 || s@ == device_id,
        None => true,
    }
}

/// The rows of this device, in order.
pub open spec fn own_rows(rows: Seq<StoredHistoryRow>, device_id: Seq<char>) -> Seq<StoredHistoryRow>
    decreases rows.len(),
{
    if rows.len() == 0 {
        Seq::empty()
    } else {
        let rest = own_rows(rows.drop_last(), device_id);
        if is_own(rows.last(), device_id) {
            rest.push(rows.last())
        } else {
            rest
        }
    }
}

/// The rows of this device, in store order, as cloud records of this device.
pub fn webdav_list_own_history_records(rows: &[StoredHistoryRow], device_id: &str) -> (r: Vec<CloudRecord>)
    ensures
        r@.len() == own_rows(rows@, device_id@).len(),
        forall|i: int| 0 <= i < r@.len() ==> record_of(#[trigger] r@[i], own_rows(rows@, device_id@)[i], device_id@),
{
    let mut r: Vec<CloudRecord> = Vec::new();
    let mut i: usize = 0;
    while i < rows.len()
        invariant
            i <= rows@.len(),
            r@.len() == own_rows(rows@.take(i as int), device_id@).len(),
            forall|j: int|
                0 <= j < r@.len() ==> record_of(#[trigger] r@[j], own_rows(rows@.take(i as int), device_id@)[j], device_id@),
        decreases rows@.len() - i,
    {
        let row = &rows[i];
        let ghost before = own_rows(rows@.take(i as int), device_id@);
        proof {
            assert(rows@.take(i + 1).drop_last() =~= rows@.take(i as int));
            assert(rows@.take(i + 1).last() == rows@[i as int]);
        }
        let own = match &row.source_device_id {
            Some(s) => char_vec(s.as_str()).len() == 0 || str_eq(s.as_str(), device_id),
            None => true,
        };
        if own {
            r.push(record_from(row, string_from_str(device_id)));
            proof {
                let after = own_rows(rows@.take(i + 1), device_id@);
                assert(after == before.push(rows@[i as int]));
                assert forall|j: int| 0 <= j < r@.len() implies record_of(#[trigger] r@[j], after[j], device_id@) by {
                    if j < before.len() {
                        assert(after[j] == before[j]);
                    }
                }
            }
        }
        i += 1;
    }
    proof {
        assert(rows@.take(rows@.len() as int) =~= rows@);
    }
    r
}

/// The metadata of every stored row, in store order: its sync uuid, update
/// time and images.
pub fn webdav_list_history_record_metas(rows: &[StoredHistoryRow]) -> (r: Vec<CloudRecordMeta>)
    ensures
        r@.len() == rows@.len(),
        forall|i: int|
            0 <= i < rows@.len() ==> (#[trigger] r@[i]).uuid@ == tombstone_id_of(rows@[i].uuid, rows@[i].id) && r@[i].updated_at
                == rows@[i].updated_at && opt_view(r@[i].image_id) == opt_view(rows@[i].image_id),
{
    let mut r: Vec<CloudRecordMeta> = Vec::new();
    let mut i: usize = 0;
    while i < rows.len()
        invariant
            i <= rows@.len(),
            r@.len() == i,
            forall|j: int|
                0 <= j < i ==> (#[trigger] r@[j]).uuid@ == tombstone_id_of(rows@[j].uuid, rows@[j].id) && r@[j].updated_at
                    == rows@[j].updated_at && opt_view(r@[j].image_id) == opt_view(rows@[j].image_id),
        decreases rows@.len() - i,
    {
        let row = &rows[i];
        r.push(
            CloudRecordMeta {
                uuid: tombstone_id(clone_opt(&row.uuid), row.id),
                updated_at: row.updated_at,
                image_id: clone_opt(&row.image_id),
            },
        );
        i += 1;
    }
    r
}

/// The update time of every row with a non-empty uuid, by uuid (a later row
/// wins).
pub open spec fn record_states(rows: Seq<StoredHistoryRow>) -> Map<Seq<char>, i64>
    decreases rows.len(),
{
    if rows.len() == 0 {
        Map::empty()
    } else {
        let before = record_states(rows.drop_last());
        let row = rows.last();
        match row.uuid {
            Some(u) => if u@.len() > 0 {
                before.insert(u@, row.updated_at)
            } else {
                before
            },
            None => before,
        }
    }
}

/// The update times of the rows with a uuid; see `record_states`.
pub fn webdav_history_record_states(rows: &[StoredHistoryRow]) -> (r: TimestampMap)
    ensures
        r@ == record_states(rows@),
{
    let mut r = TimestampMap::new();
    let mut i: usize = 0;
    while i < rows.len()
        invariant
            i <= rows@.len(),
            r@ == record_states(rows@.take(i as int)),
        decreases rows@.len() - i,
    {
        proof {
            assert(rows@.take(i + 1).drop_last() =~= rows@.take(i as int));
            assert(rows@.take(i + 1).last() == rows@[i as int]);
        }
        let row = &rows[i];
        match &row.uuid {
            Some(u) => {
                if char_vec(u.as_str()).len() > 0 {
                    r.insert(u.clone(), row.updated_at);
                }
            },
            None => {},
        }
        i += 1;
    }
    proof {
        assert(rows@.take(rows@.len() as int) =~= rows@);
    }
    r
}

/// `row` is the one a lookup by `uuid` finds: its uuid is `uuid`, or it has
/// none and its id is `uuid` read as a number.
pub open spec fn answers_uuid(row: StoredHistoryRow, uuid: Seq<char>) -> bool {
    match row.uuid {
        Some(u) => u@ == uuid || (u@.len() == 0 && parse_i64(uuid, 10) == Some(row.id as int)),
        None => parse_i64(uuid, 10) == Some(row.id as int),
    }
}

/// The first stored row that a lookup by `uuid` finds (see `answers_uuid`),
/// as a cloud record.
pub fn webdav_get_history_record_by_uuid(rows: &[StoredHistoryRow], uuid: &str, device_id: &str) -> (r: Option<CloudRecord>)
    ensures
        match r {
            Some(c) => exists|i: int|
                0 <= i < rows@.len() && answers_uuid(#[trigger] rows@[i], uuid@) && (forall|j: int| 0 <= j < i ==> !answers_uuid(rows@[j], uuid@))
                    && record_of(c, rows@[i], row_device(rows@[i].source_device_id, device_id@)),
            None => forall|i: int| 0 <= i < rows@.len() ==> !answers_uuid(#[trigger] rows@[i], uuid@),
        },
{
    let chars = char_vec(uuid);
    let id = parse_i64_exec(&chars, 0, 10);
    proof {
        assert(chars@.skip(0) =~= uuid@);
    }
    let mut i: usize = 0;
    while i < rows.len()
        invariant
            i <= rows@.len(),
            chars@ == uuid@,
            match id {
                Some(v) => parse_i64(uuid@, 10) == Some(v as int),
                None => parse_i64(uuid@, 10) is None,
            },
            forall|j: int| 0 <= j < i ==> !answers_uuid(#[trigger] rows@[j], uuid@),
        decreases rows@.len() - i,
    {
        let row = &rows[i];
        let by_id = match id {
            Some(v) => v == row.id,
            None => false,
        };
        let found = match &row.uuid {
            Some(u) => str_eq(u.as_str(), uuid) || (char_vec(u.as_str()).len() == 0 && by_id),
            None => by_id,
        };
        if found {
            let c = record_from(row, device_of(&row.source_device_id, device_id));
            return Some(c);
        }
        i += 1;
    }
    None
}

/// The first row with id `id`.
pub open spec fn row_with_id(rows: Seq<StoredHistoryRow>, id: i64) -> Option<int> {
    if exists|j: int| 0 <= j < rows.len() && (#[trigger] rows[j]).id == id {
        Some(choose|j: int| 0 <= j < rows.len() && (#[trigger] rows[j]).id == id && forall|q: int| 0 <= q < j ==> rows[q].id != id)
    } else {
        None
    }
}

pub(crate) fn find_row(rows: &[StoredHistoryRow], id: i64) -> (r: Option<usize>)
    ensures
        match r {
            Some(j) => j < rows@.len() && rows@[j as int].id == id && forall|q: int| 0 <= q < j ==> rows@[q].id != id,
            None => forall|q: int| 0 <= q < rows@.len() ==> (#[trigger] rows@[q]).id != id,
        },
{
    let mut i: usize = 0;
    while i < rows.len()
        invariant
            i <= rows@.len(),
            forall|q: int| 0 <= q < i ==> (#[trigger] rows@[q]).id != id,
        decreases rows@.len() - i,
    {
        if rows[i].id == id {
            return Some(i);
        }
        i += 1;
    }
    None
}

/// The message of an item that could not be given a uuid.
pub open spec fn uuid_failed_message() -> Seq<char> {
    "生成 uuid 失败"@
}

fn with_uuid(row: &StoredHistoryRow, uuid: String) -> (r: StoredHistoryRow)
    ensures
        r == (StoredHistoryRow { uuid: Some(uuid), ..*row }),
{
    StoredHistoryRow {
        id: row.id,
        uuid: Some(uuid),
        source_device_id: clone_opt(&row.source_device_id),
        is_remote: row.is_remote,
        content: row.content.clone(),
        html_content: clone_opt(&row.html_content),
        content_type: row.content_type.clone(),
        image_id: clone_opt(&row.image_id),
        item_order: row.item_order,
        is_pinned: row.is_pinned,
        paste_count: row.paste_count,
        source_app: clone_opt(&row.source_app),
        source_icon_hash: clone_opt(&row.source_icon_hash),
        char_count: row.char_count,
        created_at: row.created_at,
        updated_at: row.updated_at,
    }
}

/// The uuid of item `id`, giving it a fresh one when it has none: a uuid that
/// is not blank is kept; a missing or empty one is replaced by a new random
/// version-4 uuid; an item that is missing, or whose uuid is whitespace, is
/// an error.
pub fn ensure_clipboard_item_uuid(rows: &mut Vec<StoredHistoryRow>, id: i64) -> (r: Result<String, String>)
    ensures
        match row_with_id(old(rows)@, id) {
            None => (r matches Err(e) && e@ == uuid_failed_message()) && final(rows)@ == old(rows)@,
            Some(j) => match old(rows)@[j].uuid {
                Some(u) => if strs::trim(u@).len() > 0 {
                    (r matches Ok(v) && v@ == u@) && final(rows)@ == old(rows)@
                } else if u@.len() > 0 {
                    (r matches Err(e) && e@ == uuid_failed_message()) && final(rows)@ == old(rows)@
                } else {
                    r matches Ok(v) && is_uuid_v4_text(v@) && final(rows)@ == old(rows)@.update(
                        j,
                        StoredHistoryRow { uuid: Some(v), ..old(rows)@[j] },
                    )
                },
                None => r matches Ok(v) && is_uuid_v4_text(v@) && final(rows)@ == old(rows)@.update(
                    j,
                    StoredHistoryRow { uuid: Some(v), ..old(rows)@[j] },
                ),
            },
        },
{
    let j = match find_row(rows.as_slice(), id) {
        Some(j) => j,
        None => {
            return Err(string_from_str("生成 uuid 失败"));
        },
    };
    proof {
        let c = choose|q: int| 0 <= q < old(rows)@.len() && (#[trigger] old(rows)@[q]).id == id && forall|p: int|
            0 <= p < q ==> old(rows)@[p].id != id;
        assert(c == j as int);
    }
    let usable = match &rows[j].uuid {
        Some(u) => if trimmed_chars(u.as_str()).len() > 0 {
            Some(Ok(u.clone()))
        } else if char_vec(u.as_str()).len() > 0 {
            Some(Err(string_from_str("生成 uuid 失败")))
        } else {
            None
        },
        None => None,
    };
    match usable {
        Some(result) => result,
        None => {
            let fresh = new_uuid_v4();
            let row = with_uuid(&rows[j], fresh.clone());
            rows.set(j, row);
            Ok(fresh)
        },
    }
}

/// The row's uuid is `uuid`.
pub open spec fn has_uuid(row: StoredHistoryRow, uuid: Seq<char>) -> bool {
    row.uuid matches Some(u) && u@ == uuid
}

/// The id of the first item with uuid `uuid`, if any.
pub fn get_clipboard_item_id_by_uuid(rows: &[StoredHistoryRow], uuid: &str) -> (r: Option<i64>)
    ensures
        match r {
            Some(id) => exists|i: int|
                0 <= i < rows@.len() && has_uuid(#[trigger] rows@[i], uuid@) && rows@[i].id == id && forall|q: int|
                    0 <= q < i ==> !has_uuid(rows@[q], uuid@),
            None => forall|i: int| 0 <= i < rows@.len() ==> !has_uuid(#[trigger] rows@[i], uuid@),
        },
{
    let mut i: usize = 0;
    while i < rows.len()
        invariant
            i <= rows@.len(),
            forall|q: int| 0 <= q < i ==> !has_uuid(#[trigger] rows@[q], uuid@),
        decreases rows@.len() - i,
    {
        match &rows[i].uuid {
            Some(u) => {
                if str_eq(u.as_str(), uuid) {
                    return Some(rows[i].id);
                }
            },
            None => {},
        }
        i += 1;
    }
    None
}

/// The number of stored items; without an open database (`None`) the bare
/// `db_not_initialized` message.
pub fn get_clipboard_count(rows: Option<&[StoredHistoryRow]>) -> (r: Result<i64, String>)
    requires
        rows matches Some(v) ==> v@.len() <= i64::MAX,
    ensures
        match rows {
            Some(v) => r == Ok::<i64, String>(v@.len() as i64),
            None => r matches Err(e) && e@ == crate::table::db_not_initialized(),
        },
{
    match rows {
        Some(v) => Ok(v.len() as i64),
        None => Err(crate::strs::string_from_str("数据库未初始化")),
    }
}


/// An item as the clipboard list shows it.
#[derive(Debug)]
pub struct ClipboardItem {
    pub id: i64,
    pub uuid: Option<String>,
    pub favorite_id: Option<String>,
    pub source_device_id: Option<String>,
    pub is_remote: bool,
    pub content: String,
    pub html_content: Option<String>,
    pub content_type: String,
    pub image_id: Option<String>,
    pub item_order: i64,
    pub is_pinned: bool,
    pub paste_count: i64,
    pub source_app: Option<String>,
    pub source_icon_hash: Option<String>,
    pub char_count: Option<i64>,
    pub created_at: i64,
    pub updated_at: i64,
}

/// The favorite made from the item with uuid `uuid`, by the favorites'
/// source uuids: none for an item without a uuid.
pub open spec fn favorite_of(favorite_ids: Map<Seq<char>, Seq<char>>, uuid: Option<String>) -> Option<Seq<char>> {
    match uuid {
        Some(u) => if favorite_ids.contains_key(u@) {
            Some(favorite_ids[u@])
        } else {
            None
        },
        None => None,
    }
}

/// The content shown for an item read with limit `max`: text content longer
/// than the limit in bytes is cut from the start.
pub open spec fn limited_content(content: Seq<char>, content_type: Seq<char>, max: Option<usize>) -> Seq<char> {
    match max {
        Some(m) => if text::textual_content_type(content_type) && strs::byte_len(content) > m {
            text::truncate_string_spec(content, m as int)
        } else {
            content
        },
        None => content,
    }
}

/// `item` shows `row`, read with limit `max` and the favorite `favorite`:
/// every field as stored, the content limited, and a missing character count
/// of a text kind filled in from the full content.
pub open spec fn item_shows(item: ClipboardItem, row: StoredHistoryRow, favorite: Option<Seq<char>>, max: Option<usize>) -> bool {
    &&& item.id == row.id
    &&& opt_view(item.uuid) == opt_view(row.uuid)
    &&& opt_view(item.favorite_id) == favorite
    &&& opt_view(item.source_device_id) == opt_view(row.source_device_id)
    &&& item.is_remote == row.is_remote
    &&& item.content@ == limited_content(row.content@, row.content_type@, max)
    &&& opt_view(item.html_content) == opt_view(row.html_content)
    &&& item.content_type@ == row.content_type@
    &&& opt_view(item.image_id) == opt_view(row.image_id)
    &&& item.item_order == row.item_order
    &&& item.is_pinned == row.is_pinned
    &&& item.paste_count == row.paste_count
    &&& opt_view(item.source_app) == opt_view(row.source_app)
    &&& opt_view(item.source_icon_hash) == opt_view(row.source_icon_hash)
    &&& item.char_count == (match row.char_count {
        Some(c) => Some(c),
        None => char_count_of(row.content@, row.content_type@),
    })
    &&& item.created_at == row.created_at
    &&& item.updated_at == row.updated_at
}

/// Reading item `id` with an optional content limit: `None` when no row has
/// that id, else the first such row as the list shows it, with the favorite
/// made from it (`favorite_ids` maps a source item uuid to a favorite id).
pub fn get_clipboard_item_by_id_with_limit(
    rows: &[StoredHistoryRow],
    favorite_ids: &Table<String>,
    id: i64,
    max_content_length: Option<usize>,
) -> (r: Option<ClipboardItem>)
    requires
        forall|i: int| 0 <= i < rows@.len() ==> (#[trigger] rows@[i]).content@.len() <= i64::MAX,
    ensures
        match row_with_id(rows@, id) {
            None => r is None,
            Some(j) => r matches Some(item) && item_shows(item, rows@[j], favorite_of(favorite_ids@, rows@[j].uuid), max_content_length),
        },
{
    let j = match find_row(rows, id) {
        Some(j) => j,
        None => {
            return None;
        },
    };
    proof {
        let c = choose|q: int| 0 <= q < rows@.len() && (#[trigger] rows@[q]).id == id && forall|p: int|
            0 <= p < q ==> rows@[p].id != id;
        assert(c == j as int);
    }
    let row = &rows[j];
    let favorite_id = match &row.uuid {
        Some(u) => match favorite_ids.get(u.as_str()) {
            Some(f) => Some(f.clone()),
            None => None,
        },
        None => None,
    };
    let char_count = match row.char_count {
        Some(c) => Some(c),
        None => calculate_char_count(row.content.as_str(), row.content_type.as_str()),
    };
    Some(
        ClipboardItem {
            id: row.id,
            uuid: clone_opt(&row.uuid),
            favorite_id,
            source_device_id: clone_opt(&row.source_device_id),
            is_remote: row.is_remote,
            content: content_with_limit(row.content.clone(), row.content_type.as_str(), max_content_length),
            html_content: clone_opt(&row.html_content),
            content_type: row.content_type.clone(),
            image_id: clone_opt(&row.image_id),
            item_order: row.item_order,
            is_pinned: row.is_pinned,
            paste_count: row.paste_count,
            source_app: clone_opt(&row.source_app),
            source_icon_hash: clone_opt(&row.source_icon_hash),
            char_count,
            created_at: row.created_at,
            updated_at: row.updated_at,
        },
    )
}

/// Reading item `id` in full; see `get_clipboard_item_by_id_with_limit`.
pub fn get_clipboard_item_by_id(rows: &[StoredHistoryRow], favorite_ids: &Table<String>, id: i64) -> (r: Option<ClipboardItem>)
    requires
        forall|i: int| 0 <= i < rows@.len() ==> (#[trigger] rows@[i]).content@.len() <= i64::MAX,
    ensures
        match row_with_id(rows@, id) {
            None => r is None,
            Some(j) => r matches Some(item) && item_shows(item, rows@[j], favorite_of(favorite_ids@, rows@[j].uuid), None),
        },
{
    get_clipboard_item_by_id_with_limit(rows, favorite_ids, id, None)
}

} // verus!
