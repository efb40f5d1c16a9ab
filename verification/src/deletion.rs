//! Deleting clipboard history: which rows a history limit removes, deleting
//! items or the whole history from the stored rows with their tombstones,
//! the image files a deletion leaves unused, and under which id a tombstone
//! is recorded. Whether an image is still named elsewhere, and removing the
//! files, stay with the caller.
use vstd::prelude::*;
use crate::strs::{self, char_vec, push_dec_i64, push_str, string_from_chars, string_from_str, trimmed_chars};
use crate::text::sub_vec;
use crate::history_records::{find_row, row_with_id, StoredHistoryRow};
use crate::tombstone_store::{takes, tombstone_of, TombstoneStore, TombstoneView};
use crate::tombstones::{now_secs, tombstone_key};
use crate::clipboard_data::{rows_without_kind, rows_without_target, ClipboardDataStore, DataRow};

verus! {

broadcast use vstd::seq::group_seq_axioms;

/// Limits at or above this keep the whole history.
pub const UNLIMITED_HISTORY: u64 = 999999;

/// Whether a history limit trims anything at all.
pub fn history_limit_applies(max_count: u64) -> (r: bool)
    ensures
        r == (max_count < 999999),
{
    max_count < UNLIMITED_HISTORY
}

/// The comma-separated parts of `s`, in order.
pub open spec fn comma_parts(s: Seq<char>) -> Seq<Seq<char>>
    decreases s.len(),
{
    if s.len() == 0 {
        seq![Seq::empty()]
    } else {
        let prev = comma_parts(s.drop_last());
        if s.last() == ',' {
            prev.push(Seq::empty())
        } else {
            prev.update(prev.len() - 1, prev.last().push(s.last()))
        }
    }
}


/// The trimmed parts that are not blank.
pub open spec fn kept_ids(parts: Seq<Seq<char>>) -> Seq<Seq<char>>
    decreases parts.len(),
{
    if parts.len() == 0 {
        Seq::empty()
    } else {
        let rest = kept_ids(parts.drop_last());
        let t = strs::trim(parts.last());
        if t.len() == 0 {
            rest
        } else {
            rest.push(t)
        }
    }
}

pub open spec fn strings_view(v: Seq<String>) -> Seq<Seq<char>> {
    v.map_values(|s: String| s@)
}

/// The image ids in a comma-separated list: each part trimmed, blanks
/// dropped.
pub fn split_image_ids(s: &str) -> (r: Vec<String>)
    ensures
        strings_view(r@) == kept_ids(comma_parts(s@)),
{
    let chars = char_vec(s);
    let mut out: Vec<String> = Vec::new();
    let mut start: usize = 0;
    let mut i: usize = 0;
    proof {
        assert(chars@.take(0) =~= Seq::<char>::empty());
    }
    while i < chars.len()
        invariant
            0 <= start <= i <= chars@.len(),
            chars@ == s@,
            ({
                let parts = comma_parts(chars@.take(i as int));
                &&& parts.len() >= 1
                &&& parts.last() == chars@.subrange(start as int, i as int)
                &&& strings_view(out@) == kept_ids(parts.drop_last())
            }),
        decreases chars@.len() - i,
    {
        let ghost parts = comma_parts(chars@.take(i as int));
        proof {
            assert(chars@.take(i + 1).drop_last() =~= chars@.take(i as int));
            assert(chars@.take(i + 1).last() == chars@[i as int]);
        }
        if chars[i] == ',' {
            let part = sub_vec(&chars, start, i);
            let pstr = string_from_chars(&part);
            let t = trimmed_chars(pstr.as_str());
            let ghost before = out@;
            if t.len() > 0 {
                out.push(string_from_chars(&t));
                proof {
                    assert(strings_view(out@) =~= strings_view(before).push(t@));
                }
            }
            proof {
                let np = parts.push(Seq::<char>::empty());
                assert(np.drop_last() =~= parts);
                assert(parts =~= parts.drop_last().push(parts.last()));
                assert(chars@.subrange(i + 1, i + 1) =~= Seq::<char>::empty());
            }
            start = i + 1;
        } else {
            proof {
                let np = parts.update(parts.len() - 1, parts.last().push(chars@[i as int]));
                assert(np.drop_last() =~= parts.drop_last());
                assert(chars@.subrange(start as int, i + 1) =~= chars@.subrange(start as int, i as int).push(chars@[i as int]));
            }
        }
        i += 1;
    }
    let ghost parts = comma_parts(chars@.take(i as int));
    let part = sub_vec(&chars, start, chars.len());
    let pstr = string_from_chars(&part);
    let t = trimmed_chars(pstr.as_str());
    let ghost before = out@;
    if t.len() > 0 {
        out.push(string_from_chars(&t));
        proof {
            assert(strings_view(out@) =~= strings_view(before).push(t@));
        }
    }
    proof {
        assert(chars@.take(chars@.len() as int) =~= s@);
        assert(parts =~= parts.drop_last().push(parts.last()));
    }
    out
}

/// The id a deleted item's tombstone is recorded under: its uuid when that
/// is not blank, else its row id in decimal.
pub fn tombstone_id(uuid: Option<String>, id: i64) -> (r: String)
    ensures
        uuid is Some && strs::trim(uuid.unwrap()@).len() > 0 ==> r@ == uuid.unwrap()@,
        !(uuid is Some && strs::trim(uuid.unwrap()@).len() > 0) ==> r@ == strs::dec_i64(id as int),
{
    match uuid {
        Some(u) => {
            if trimmed_chars(u.as_str()).len() > 0 {
                return u;
            }
        },
        None => {},
    }
    let mut out = String::new();
    push_dec_i64(&mut out, id);
    out
}

/// The patterns under which a stored comma list references an image id:
/// the id alone, first, in the middle, or last.
pub fn image_reference_patterns(image_id: &str) -> (r: (String, String, String, String))
    ensures
        r.0@ == image_id@,
        r.1@ == image_id@ + ",%"@,
        r.2@ == "%,"@ + image_id@ + ",%"@,
        r.3@ == "%,"@ + image_id@,
{
    let exact = string_from_str(image_id);
    let mut first = string_from_str(image_id);
    push_str(&mut first, ",%");
    let mut middle = string_from_str("%,");
    push_str(&mut middle, image_id);
    push_str(&mut middle, ",%");
    let mut last = string_from_str("%,");
    push_str(&mut last, image_id);
    (exact, first, middle, last)
}

/// Each id once, in order of first appearance.
pub fn unique_ids(ids: &[i64]) -> (r: Vec<i64>)
    ensures
        r@.no_duplicates(),
        forall|x: i64| r@.contains(x) <==> ids@.contains(x),
{
    let mut out: Vec<i64> = Vec::new();
    let mut i: usize = 0;
    while i < ids.len()
        invariant
            0 <= i <= ids@.len(),
            out@.no_duplicates(),
            forall|x: i64| out@.contains(x) <==> ids@.take(i as int).contains(x),
        decreases ids@.len() - i,
    {
        let x = ids[i];
        let mut seen = false;
        let mut j: usize = 0;
        while j < out.len()
            invariant
                0 <= j <= out@.len(),
                seen == exists|k: int| 0 <= k < j && out@[k] == x,
            decreases out@.len() - j,
        {
            if out[j] == x {
                seen = true;
            }
            j += 1;
        }
        proof {
            assert(ids@.take(i + 1) =~= ids@.take(i as int).push(x));
            assert forall|y: i64| #[trigger] ids@.take(i + 1).contains(y) <==> (ids@.take(i as int).contains(y) || y == x) by {
                vstd::seq_lib::lemma_seq_contains_after_push(ids@.take(i as int), x, y);
            }
            if seen {
                let k = choose|k: int| 0 <= k < j && out@[k] == x;
                assert(out@.contains(x));
            }
        }
        if !seen {
            let ghost before = out@;
            out.push(x);
            proof {
                assert(out@ == before.push(x));
                assert(!before.contains(x));
                assert forall|y: i64| #[trigger] out@.contains(y) <==> (before.contains(y) || y == x) by {
                    vstd::seq_lib::lemma_seq_contains_after_push(before, x, y);
                }
            }
        }
        i += 1;
    }
    assert(ids@.take(ids@.len() as int) =~= ids@);
    out
}

/// One of the fields names image `x`.
pub open spec fn names_image(fields: Seq<Option<String>>, x: Seq<char>) -> bool {
    exists|i: int| 0 <= i < fields.len() && (#[trigger] fields[i]) is Some && kept_ids(comma_parts(fields[i]->0@)).contains(x)
}

fn contains_string(v: &Vec<String>, x: &str) -> (r: bool)
    ensures
        r == strings_view(v@).contains(x@),
{
    let mut j: usize = 0;
    while j < v.len()
        invariant
            j <= v@.len(),
            forall|q: int| 0 <= q < j ==> v@[q]@ != x@,
        decreases v@.len() - j,
    {
        if crate::strs::str_eq(v[j].as_str(), x) {
            assert(strings_view(v@)[j as int] == x@);
            return true;
        }
        j += 1;
    }
    false
}

/// The image ids that the comma lists name, each once, in order of first
/// appearance.
pub fn images_named(fields: &[Option<String>]) -> (r: Vec<String>)
    ensures
        strings_view(r@).no_duplicates(),
        forall|x: Seq<char>| strings_view(r@).contains(x) <==> names_image(fields@, x),
{
    let mut out: Vec<String> = Vec::new();
    let mut i: usize = 0;
    while i < fields.len()
        invariant
            i <= fields@.len(),
            strings_view(out@).no_duplicates(),
            forall|x: Seq<char>| strings_view(out@).contains(x) <==> names_image(fields@.take(i as int), x),
        decreases fields@.len() - i,
    {
        let ghost before_fields = fields@.take(i as int);
        proof {
            assert(fields@.take(i + 1) =~= before_fields.push(fields@[i as int]));
        }
        match &fields[i] {
            Some(f) => {
                let ids = split_image_ids(f.as_str());
                let ghost named = kept_ids(comma_parts(f@));
                let mut k: usize = 0;
                while k < ids.len()
                    invariant
                        k <= ids@.len(),
                        strings_view(ids@) == named,
                        strings_view(out@).no_duplicates(),
                        forall|x: Seq<char>|
                            #[trigger] strings_view(out@).contains(x) <==> (names_image(before_fields, x) || named.take(k as int).contains(x)),
                    decreases ids@.len() - k,
                {
                    let ghost prev = out@;
                    let id = &ids[k];
                    proof {
                        assert(named[k as int] == id@);
                        let t0 = named.take(k as int);
                        let t1 = named.take(k + 1);
                        assert(t1 =~= t0.push(id@));
                        assert forall|x: Seq<char>| t1.contains(x) <==> (t0.contains(x) || x == id@) by {
                            vstd::seq_lib::lemma_seq_contains_after_push(t0, id@, x);
                        }
                    }
                    let present = contains_string(&out, id.as_str());
                    if !present {
                        out.push(crate::strs::string_from_str(id.as_str()));
                        proof {
                            assert(strings_view(out@) =~= strings_view(prev).push(id@));
                            assert forall|x: Seq<char>| strings_view(out@).contains(x) <==> (strings_view(prev).contains(x) || x == id@) by {
                                vstd::seq_lib::lemma_seq_contains_after_push(strings_view(prev), id@, x);
                            }
                            assert forall|p: int, q: int| 0 <= p < q < strings_view(out@).len() implies strings_view(out@)[p] != strings_view(
                                out@,
                            )[q] by {
                                if q == strings_view(out@).len() - 1 {
                                    assert(strings_view(prev)[p] == strings_view(out@)[p]);
                                    assert(strings_view(prev).contains(strings_view(prev)[p]));
                                }
                            }
                        }
                    }
                    proof {
                        let t0 = named.take(k as int);
                        let t1 = named.take(k + 1);
                        assert forall|x: Seq<char>| strings_view(out@).contains(x) <==> (names_image(before_fields, x) || t1.contains(
                            x,
                        )) by {
                            assert(t1.contains(x) <==> (t0.contains(x) || x == id@));
                            assert(strings_view(prev).contains(x) <==> (names_image(before_fields, x) || t0.contains(x)));
                            if present {
                                assert(strings_view(out@) == strings_view(prev));
                            } else {
                                assert(strings_view(out@).contains(x) <==> (strings_view(prev).contains(x) || x == id@));
                            }
                        }
                    }
                    k += 1;
                }
                proof {
                    assert(named.take(ids@.len() as int) =~= named);
                    assert forall|x: Seq<char>| strings_view(out@).contains(x) <==> names_image(fields@.take(i + 1), x) by {
                        let now_fields = fields@.take(i + 1);
                        if names_image(now_fields, x) {
                            let q = choose|q: int|
                                0 <= q < now_fields.len() && (#[trigger] now_fields[q]) is Some && kept_ids(
                                    comma_parts(now_fields[q]->0@),
                                ).contains(x);
                            if q < i {
                                assert(before_fields[q] == now_fields[q]);
                            }
                        }
                        if names_image(before_fields, x) {
                            let q = choose|q: int|
                                0 <= q < before_fields.len() && (#[trigger] before_fields[q]) is Some && kept_ids(
                                    comma_parts(before_fields[q]->0@),
                                ).contains(x);
                            assert(now_fields[q] == before_fields[q]);
                        }
                        if named.contains(x) {
                            assert(now_fields[i as int] == fields@[i as int]);
                        }
                    }
                }
            },
            None => {
                proof {
                    assert forall|x: Seq<char>| strings_view(out@).contains(x) <==> names_image(fields@.take(i + 1), x) by {
                        let now_fields = fields@.take(i + 1);
                        if names_image(now_fields, x) {
                            let q = choose|q: int|
                                0 <= q < now_fields.len() && (#[trigger] now_fields[q]) is Some && kept_ids(
                                    comma_parts(now_fields[q]->0@),
                                ).contains(x);
                            assert(q < i);
                            assert(before_fields[q] == now_fields[q]);
                        }
                        if names_image(before_fields, x) {
                            let q = choose|q: int|
                                0 <= q < before_fields.len() && (#[trigger] before_fields[q]) is Some && kept_ids(
                                    comma_parts(before_fields[q]->0@),
                                ).contains(x);
                            assert(now_fields[q] == before_fields[q]);
                        }
                    }
                }
            },
        }
        i += 1;
    }
    proof {
        assert(fields@.take(fields@.len() as int) =~= fields@);
    }
    out
}

fn clone_opt(o: &Option<String>) -> (r: Option<String>)
    ensures
        r == *o,
{
    match o {
        Some(s) => Some(s.clone()),
        None => None,
    }
}

/// The image fields of rows.
pub open spec fn image_fields(rows: Seq<(i64, Option<String>)>) -> Seq<Option<String>> {
    rows.map_values(|row: (i64, Option<String>)| row.1)
}

/// The rows past the first `max_count` of the list (top first) leave the
/// history, and the images they name become candidates for removal; a limit
/// of 999999 or more keeps everything.
pub fn limit_clipboard_history(listed: &[(i64, Option<String>)], max_count: u64) -> (r: (Vec<i64>, Vec<String>))
    ensures
        !(max_count < 999999) ==> r.0@.len() == 0 && r.1@.len() == 0,
        max_count < 999999 ==> ({
            let cut = if max_count < listed@.len() { max_count as int } else { listed@.len() as int };
            &&& r.0@ == listed@.skip(cut).map_values(|row: (i64, Option<String>)| row.0)
            &&& strings_view(r.1@).no_duplicates()
            &&& forall|x: Seq<char>| strings_view(r.1@).contains(x) <==> names_image(image_fields(listed@.skip(cut)), x)
        }),
{
    if !history_limit_applies(max_count) {
        return (Vec::new(), Vec::new());
    }
    let cut: usize = if (max_count as u128) < (listed.len() as u128) { max_count as usize } else { listed.len() };
    let mut ids: Vec<i64> = Vec::new();
    let mut fields: Vec<Option<String>> = Vec::new();
    let mut i = cut;
    while i < listed.len()
        invariant
            cut <= i <= listed@.len(),
            ids@ == listed@.subrange(cut as int, i as int).map_values(|row: (i64, Option<String>)| row.0),
            fields@ == image_fields(listed@.subrange(cut as int, i as int)),
        decreases listed@.len() - i,
    {
        ids.push(listed[i].0);
        fields.push(clone_opt(&listed[i].1));
        proof {
            assert(listed@.subrange(cut as int, i + 1) =~= listed@.subrange(cut as int, i as int).push(listed@[i as int]));
            assert(ids@ =~= listed@.subrange(cut as int, i + 1).map_values(|row: (i64, Option<String>)| row.0));
            assert(fields@ =~= image_fields(listed@.subrange(cut as int, i + 1)));
        }
        i += 1;
    }
    proof {
        assert(listed@.subrange(cut as int, listed@.len() as int) =~= listed@.skip(cut as int));
    }
    let images = images_named(&fields);
    (ids, images)
}

/// The id a deleted row's tombstone is recorded under; see `tombstone_id`.
pub open spec fn tombstone_id_of(uuid: Option<String>, id: i64) -> Seq<char> {
    if uuid is Some && strs::trim(uuid.unwrap()@).len() > 0 {
        uuid.unwrap()@
    } else {
        strs::dec_i64(id as int)
    }
}



// ---------------------------------------------------------------------------
// Deleting items
// ---------------------------------------------------------------------------

/// The rows that are not among the items `ids`, in order.
pub open spec fn rows_kept(rows: Seq<StoredHistoryRow>, ids: Seq<i64>) -> Seq<StoredHistoryRow>
    decreases rows.len(),
{
    if rows.len() == 0 {
        Seq::empty()
    } else {
        let rest = rows_kept(rows.drop_last(), ids);
        if ids.contains(rows.last().id) {
            rest
        } else {
            rest.push(rows.last())
        }
    }
}

/// The rows that are among the items `ids`, in order.
pub open spec fn rows_deleted(rows: Seq<StoredHistoryRow>, ids: Seq<i64>) -> Seq<StoredHistoryRow>
    decreases rows.len(),
{
    if rows.len() == 0 {
        Seq::empty()
    } else {
        let rest = rows_deleted(rows.drop_last(), ids);
        if ids.contains(rows.last().id) {
            rest.push(rows.last())
        } else {
            rest
        }
    }
}

/// The kept deletion times after each of `deleted` is tombstoned at `now`
/// under its tombstone id.
pub open spec fn history_tombstoned(kept: Map<Seq<char>, i64>, deleted: Seq<StoredHistoryRow>, now: i64) -> Map<Seq<char>, i64>
    decreases deleted.len(),
{
    if deleted.len() == 0 {
        kept
    } else {
        let before = history_tombstoned(kept, deleted.drop_last(), now);
        let t = tombstone_id_of(deleted.last().uuid, deleted.last().id);
        if takes(before, "history"@, t, now) {
            before.insert(tombstone_key("history"@, t), now)
        } else {
            before
        }
    }
}

/// The kept tombstones after each of `deleted` is tombstoned at `now` by
/// device `device`.
pub open spec fn history_tombstone_entries(
    kept: Map<Seq<char>, i64>,
    entries: Map<Seq<char>, TombstoneView>,
    deleted: Seq<StoredHistoryRow>,
    now: i64,
    device: Seq<char>,
) -> Map<Seq<char>, TombstoneView>
    decreases deleted.len(),
{
    if deleted.len() == 0 {
        entries
    } else {
        let before = history_tombstone_entries(kept, entries, deleted.drop_last(), now, device);
        let t = tombstone_id_of(deleted.last().uuid, deleted.last().id);
        if takes(history_tombstoned(kept, deleted.drop_last(), now), "history"@, t, now) {
            before.insert(tombstone_key("history"@, t), tombstone_of("history"@, t, device, now))
        } else {
            before
        }
    }
}

/// The image fields of rows.
pub open spec fn row_image_fields(rows: Seq<StoredHistoryRow>) -> Seq<Option<String>> {
    rows.map_values(|r: StoredHistoryRow| r.image_id)
}

fn contains_id(ids: &[i64], id: i64) -> (r: bool)
    ensures
        r == ids@.contains(id),
{
    let mut j: usize = 0;
    while j < ids.len()
        invariant
            j <= ids@.len(),
            forall|q: int| 0 <= q < j ==> ids@[q] != id,
        decreases ids@.len() - j,
    {
        if ids[j] == id {
            assert(ids@[j as int] == id);
            return true;
        }
        j += 1;
    }
    false
}

/// The history part of deleting the items `ids`: their rows leave, each
/// leaves a tombstone, and the images they name come back once each.
fn remove_history_rows(
    rows: &mut Vec<StoredHistoryRow>,
    tombstones: &mut TombstoneStore,
    device_id: &str,
    ids: &[i64],
    now: i64,
) -> (images: Vec<String>)
    ensures
        final(rows)@ == rows_kept(old(rows)@, ids@),
        final(tombstones)@ == history_tombstoned(old(tombstones)@, rows_deleted(old(rows)@, ids@), now),
        final(tombstones).entries() == history_tombstone_entries(
            old(tombstones)@,
            old(tombstones).entries(),
            rows_deleted(old(rows)@, ids@),
            now,
            device_id@,
        ),
        strings_view(images@).no_duplicates(),
        forall|x: Seq<char>|
            strings_view(images@).contains(x) <==> names_image(row_image_fields(rows_deleted(old(rows)@, ids@)), x),
{
    let ghost all = old(rows)@;
    assert(all.len() == old(rows).len());
    let ghost kept0 = old(tombstones)@;
    let ghost entries0 = old(tombstones).entries();
    let mut src: Vec<StoredHistoryRow> = Vec::new();
    std::mem::swap(rows, &mut src);
    let mut fields: Vec<Option<String>> = Vec::new();
    let mut i: usize = 0;
    proof {
        reveal_strlit("history");
        strs::lemma_trim_plain("history"@);
        assert(all.take(0) =~= Seq::<StoredHistoryRow>::empty());
        assert(fields@ =~= row_image_fields(rows_deleted(all.take(0), ids@)));
    }
    while src.len() > 0
        invariant
            i + src@.len() == all.len(),
            all.len() <= usize::MAX,
            src@ == all.skip(i as int),
            rows@ == rows_kept(all.take(i as int), ids@),
            tombstones@ == history_tombstoned(kept0, rows_deleted(all.take(i as int), ids@), now),
            tombstones.entries() == history_tombstone_entries(kept0, entries0, rows_deleted(all.take(i as int), ids@), now, device_id@),
            fields@ == row_image_fields(rows_deleted(all.take(i as int), ids@)),
            strs::trim("history"@).len() > 0,
        decreases src@.len(),
    {
        let r = src.remove(0);
        proof {
            assert(all.take(i + 1).drop_last() =~= all.take(i as int));
            assert(all[i as int] == r);
            assert(src@ =~= all.skip(i + 1));
        }
        let ghost before_deleted = rows_deleted(all.take(i as int), ids@);
        if contains_id(ids, r.id) {
            let StoredHistoryRow { id, uuid, image_id, .. } = r;
            let t = tombstone_id(uuid, id);
            tombstones.record_sync_tombstone("history", t.as_str(), device_id, now);
            fields.push(image_id);
            proof {
                let d = rows_deleted(all.take(i + 1), ids@);
                assert(d == before_deleted.push(r));
                assert(d.drop_last() =~= before_deleted);
                assert(fields@ =~= row_image_fields(d));
            }
        } else {
            rows.push(r);
        }
        i += 1;
    }
    proof {
        assert(all.take(all.len() as int) =~= all);
    }
    images_named(&fields)
}

/// The raw formats left after those of each item of `ids` are dropped.
pub open spec fn raw_formats_without_items(data: Seq<DataRow>, ids: Seq<i64>) -> Seq<DataRow>
    decreases ids.len(),
{
    if ids.len() == 0 {
        data
    } else {
        rows_without_target(raw_formats_without_items(data, ids.drop_last()), "clipboard"@, strs::dec_i64(ids.last() as int))
    }
}

fn drop_raw_formats(raw_formats: &mut ClipboardDataStore, ids: &[i64])
    ensures
        final(raw_formats)@ == raw_formats_without_items(old(raw_formats)@, ids@),
        final(raw_formats).next_id() == old(raw_formats).next_id(),
{
    let mut i: usize = 0;
    proof {
        reveal_strlit("clipboard");
    }
    while i < ids.len()
        invariant
            i <= ids@.len(),
            raw_formats@ == raw_formats_without_items(old(raw_formats)@, ids@.take(i as int)),
            raw_formats.next_id() == old(raw_formats).next_id(),
        decreases ids@.len() - i,
    {
        proof {
            assert(ids@.take(i as int + 1).drop_last() =~= ids@.take(i as int));
        }
        let target = tombstone_id(None, ids[i]);
        raw_formats.delete_clipboard_data_items("clipboard", target.as_str());
        i += 1;
    }
    proof {
        assert(ids@.take(ids@.len() as int) =~= ids@);
    }
}

/// Deleting the items `ids` at time `now` on device `device_id`: their rows
/// leave the history and their raw formats go, each leaves a tombstone under
/// its tombstone id (kept only where newer than the one kept), and the
/// images their rows name come back, each once, as candidates for removal
/// (whether another stored item still names one is the caller's question).
pub fn delete_clipboard_items_at(
    rows: &mut Vec<StoredHistoryRow>,
    tombstones: &mut TombstoneStore,
    raw_formats: &mut ClipboardDataStore,
    device_id: &str,
    ids: &[i64],
    now: i64,
) -> (images: Vec<String>)
    ensures
        final(rows)@ == rows_kept(old(rows)@, ids@),
        final(tombstones)@ == history_tombstoned(old(tombstones)@, rows_deleted(old(rows)@, ids@), now),
        final(tombstones).entries() == history_tombstone_entries(
            old(tombstones)@,
            old(tombstones).entries(),
            rows_deleted(old(rows)@, ids@),
            now,
            device_id@,
        ),
        final(raw_formats)@ == raw_formats_without_items(old(raw_formats)@, ids@),
        final(raw_formats).next_id() == old(raw_formats).next_id(),
        strings_view(images@).no_duplicates(),
        forall|x: Seq<char>|
            strings_view(images@).contains(x) <==> names_image(row_image_fields(rows_deleted(old(rows)@, ids@)), x),
{
    let images = remove_history_rows(rows, tombstones, device_id, ids, now);
    drop_raw_formats(raw_formats, ids);
    images
}

/// Deleting the items `ids` now; see `delete_clipboard_items_at`.
pub fn delete_clipboard_items(
    rows: &mut Vec<StoredHistoryRow>,
    tombstones: &mut TombstoneStore,
    raw_formats: &mut ClipboardDataStore,
    device_id: &str,
    ids: &[i64],
) -> (images: Vec<String>)
    ensures
        final(rows)@ == rows_kept(old(rows)@, ids@),
        exists|now: i64|
            final(tombstones)@ == history_tombstoned(old(tombstones)@, rows_deleted(old(rows)@, ids@), now)
                && final(tombstones).entries() == history_tombstone_entries(
                old(tombstones)@,
                old(tombstones).entries(),
                rows_deleted(old(rows)@, ids@),
                now,
                device_id@,
            ),
        final(raw_formats)@ == raw_formats_without_items(old(raw_formats)@, ids@),
        final(raw_formats).next_id() == old(raw_formats).next_id(),
        strings_view(images@).no_duplicates(),
        forall|x: Seq<char>|
            strings_view(images@).contains(x) <==> names_image(row_image_fields(rows_deleted(old(rows)@, ids@)), x),
{
    let now = now_secs();
    delete_clipboard_items_at(rows, tombstones, raw_formats, device_id, ids, now)
}

/// Deleting item `id` at time `now` on device `device_id`: its raw formats
/// go in any case; when no row has that id nothing else changes; otherwise
/// its rows leave the history as `delete_clipboard_items_at` removes them,
/// and the image ids of its first row come back in list order as
/// candidates for removal.
pub fn delete_clipboard_item_at(
    rows: &mut Vec<StoredHistoryRow>,
    tombstones: &mut TombstoneStore,
    raw_formats: &mut ClipboardDataStore,
    device_id: &str,
    id: i64,
    now: i64,
) -> (images: Vec<String>)
    ensures
        final(raw_formats)@ == raw_formats_without_items(old(raw_formats)@, seq![id]),
        final(raw_formats).next_id() == old(raw_formats).next_id(),
        match row_with_id(old(rows)@, id) {
            None => final(rows)@ == old(rows)@ && final(tombstones)@ == old(tombstones)@ && final(tombstones).entries()
                == old(tombstones).entries() && images@.len() == 0,
            Some(j) => {
                &&& final(rows)@ == rows_kept(old(rows)@, seq![id])
                &&& final(tombstones)@ == history_tombstoned(old(tombstones)@, rows_deleted(old(rows)@, seq![id]), now)
                &&& final(tombstones).entries() == history_tombstone_entries(
                    old(tombstones)@,
                    old(tombstones).entries(),
                    rows_deleted(old(rows)@, seq![id]),
                    now,
                    device_id@,
                )
                &&& strings_view(images@) == match old(rows)@[j].image_id {
                    Some(s) => kept_ids(comma_parts(s@)),
                    None => Seq::<Seq<char>>::empty(),
                }
            },
        },
{
    let ids = [id];
    proof {
        assert(ids@ =~= seq![id]);
    }
    let j = match find_row(rows.as_slice(), id) {
        Some(j) => j,
        None => {
            drop_raw_formats(raw_formats, &ids);
            return Vec::new();
        },
    };
    proof {
        let c = choose|q: int| 0 <= q < old(rows)@.len() && (#[trigger] old(rows)@[q]).id == id && forall|p: int|
            0 <= p < q ==> old(rows)@[p].id != id;
        assert(c == j as int);
    }
    let images = match &rows[j].image_id {
        Some(s) => split_image_ids(s.as_str()),
        None => Vec::new(),
    };
    let _ = remove_history_rows(rows, tombstones, device_id, &ids, now);
    drop_raw_formats(raw_formats, &ids);
    images
}

/// Deleting item `id` now; see `delete_clipboard_item_at`.
pub fn delete_clipboard_item(
    rows: &mut Vec<StoredHistoryRow>,
    tombstones: &mut TombstoneStore,
    raw_formats: &mut ClipboardDataStore,
    device_id: &str,
    id: i64,
) -> (images: Vec<String>)
    ensures
        final(raw_formats)@ == raw_formats_without_items(old(raw_formats)@, seq![id]),
        final(raw_formats).next_id() == old(raw_formats).next_id(),
        match row_with_id(old(rows)@, id) {
            None => final(rows)@ == old(rows)@ && final(tombstones)@ == old(tombstones)@ && final(tombstones).entries()
                == old(tombstones).entries() && images@.len() == 0,
            Some(j) => {
                &&& final(rows)@ == rows_kept(old(rows)@, seq![id])
                &&& exists|now: i64|
                    final(tombstones)@ == history_tombstoned(old(tombstones)@, rows_deleted(old(rows)@, seq![id]), now)
                        && final(tombstones).entries() == history_tombstone_entries(
                        old(tombstones)@,
                        old(tombstones).entries(),
                        rows_deleted(old(rows)@, seq![id]),
                        now,
                        device_id@,
                    )
                &&& strings_view(images@) == match old(rows)@[j].image_id {
                    Some(s) => kept_ids(comma_parts(s@)),
                    None => Seq::<Seq<char>>::empty(),
                }
            },
        },
{
    let now = now_secs();
    delete_clipboard_item_at(rows, tombstones, raw_formats, device_id, id, now)
}


/// A tombstone id is never blank.
pub proof fn lemma_tombstone_id_not_blank(uuid: Option<String>, id: i64)
    ensures
        strs::trim(tombstone_id_of(uuid, id)).len() > 0,
{
    if !(uuid is Some && strs::trim(uuid.unwrap()@).len() > 0) {
        strs::lemma_dec_i64_not_blank(id as int);
    }
}

/// Deleted items stay deleted: after items are deleted at `now`, the
/// tombstone of each deleted row is kept at `now` or later, so a copy of it
/// no newer than the deletion is refused when pulled (see
/// `law_tombstone_wins_ties`).
pub proof fn law_deleted_items_leave_tombstones(kept: Map<Seq<char>, i64>, deleted: Seq<StoredHistoryRow>, now: i64)
    ensures
        forall|i: int| 0 <= i < deleted.len() ==> {
            let k = tombstone_key("history"@, tombstone_id_of(#[trigger] deleted[i].uuid, deleted[i].id));
            history_tombstoned(kept, deleted, now).contains_key(k) && history_tombstoned(kept, deleted, now)[k] >= now
        },
    decreases deleted.len(),
{
    if deleted.len() > 0 {
        let prev = deleted.drop_last();
        law_deleted_items_leave_tombstones(kept, prev, now);
        let before = history_tombstoned(kept, prev, now);
        let after = history_tombstoned(kept, deleted, now);
        let t = tombstone_id_of(deleted.last().uuid, deleted.last().id);
        reveal_strlit("history");
        strs::lemma_trim_plain("history"@);
        lemma_tombstone_id_not_blank(deleted.last().uuid, deleted.last().id);
        assert forall|i: int| 0 <= i < deleted.len() implies {
            let k = tombstone_key("history"@, tombstone_id_of(#[trigger] deleted[i].uuid, deleted[i].id));
            after.contains_key(k) && after[k] >= now
        } by {
            if i < deleted.len() - 1 {
                assert(deleted[i] == prev[i]);
            }
        }
    }
}


proof fn lemma_rows_all_listed(rows: Seq<StoredHistoryRow>, ids: Seq<i64>)
    requires
        forall|i: int| 0 <= i < rows.len() ==> ids.contains(#[trigger] rows[i].id),
    ensures
        rows_deleted(rows, ids) == rows,
        rows_kept(rows, ids) == Seq::<StoredHistoryRow>::empty(),
    decreases rows.len(),
{
    if rows.len() > 0 {
        let prev = rows.drop_last();
        assert forall|i: int| 0 <= i < prev.len() implies ids.contains(#[trigger] prev[i].id) by {
            assert(prev[i] == rows[i]);
        }
        lemma_rows_all_listed(prev, ids);
        assert(ids.contains(rows[rows.len() - 1].id));
        assert(prev.push(rows.last()) =~= rows);
    }
}

/// Clearing the history at time `now` on device `device_id`: every row
/// leaves it and every raw format of the history goes, each row leaves a
/// tombstone under its tombstone id (kept only where newer than the one
/// kept), and the images the rows name come back, each once, as candidates
/// for removal.
pub fn clear_clipboard_history_at(
    rows: &mut Vec<StoredHistoryRow>,
    tombstones: &mut TombstoneStore,
    raw_formats: &mut ClipboardDataStore,
    device_id: &str,
    now: i64,
) -> (images: Vec<String>)
    ensures
        final(rows)@.len() == 0,
        final(tombstones)@ == history_tombstoned(old(tombstones)@, old(rows)@, now),
        final(tombstones).entries() == history_tombstone_entries(
            old(tombstones)@,
            old(tombstones).entries(),
            old(rows)@,
            now,
            device_id@,
        ),
        final(raw_formats)@ == rows_without_kind(old(raw_formats)@, "clipboard"@),
        final(raw_formats).next_id() == old(raw_formats).next_id(),
        strings_view(images@).no_duplicates(),
        forall|x: Seq<char>| strings_view(images@).contains(x) <==> names_image(row_image_fields(old(rows)@), x),
{
    let mut ids: Vec<i64> = Vec::new();
    let mut i: usize = 0;
    while i < rows.len()
        invariant
            i <= rows@.len(),
            ids@.len() == i,
            forall|q: int| 0 <= q < i ==> ids@[q] == rows@[q].id,
        decreases rows@.len() - i,
    {
        ids.push(rows[i].id);
        i += 1;
    }
    proof {
        assert forall|q: int| 0 <= q < rows@.len() implies ids@.contains(#[trigger] rows@[q].id) by {
            assert(ids@[q] == rows@[q].id);
        }
        lemma_rows_all_listed(rows@, ids@);
    }
    let images = remove_history_rows(rows, tombstones, device_id, &ids, now);
    raw_formats.delete_clipboard_data_items_by_kind("clipboard");
    images
}

/// Clearing the history now; see `clear_clipboard_history_at`.
pub fn clear_clipboard_history(
    rows: &mut Vec<StoredHistoryRow>,
    tombstones: &mut TombstoneStore,
    raw_formats: &mut ClipboardDataStore,
    device_id: &str,
) -> (images: Vec<String>)
    ensures
        final(rows)@.len() == 0,
        exists|now: i64|
            final(tombstones)@ == history_tombstoned(old(tombstones)@, old(rows)@, now)
                && final(tombstones).entries() == history_tombstone_entries(
                old(tombstones)@,
                old(tombstones).entries(),
                old(rows)@,
                now,
                device_id@,
            ),
        final(raw_formats)@ == rows_without_kind(old(raw_formats)@, "clipboard"@),
        final(raw_formats).next_id() == old(raw_formats).next_id(),
        strings_view(images@).no_duplicates(),
        forall|x: Seq<char>| strings_view(images@).contains(x) <==> names_image(row_image_fields(old(rows)@), x),
{
    let now = now_secs();
    clear_clipboard_history_at(rows, tombstones, raw_formats, device_id, now)
}

} // verus!
