//! Ordering clipboard history: the pinned items come first, each bucket by
//! descending position number. Moving, pinning and raising an item decide
//! new position numbers, worked out here from the items as they are listed.
use vstd::prelude::*;
use crate::strs::{dec_i64, push_dec_i64, push_str, string_from_str};
use crate::table::{invalid_argument, missing_row_error, no_rows, refused_argument_error, store_error};
use crate::history_records::StoredHistoryRow;
use crate::query::{is_list_order, keys_of, list_order, row_keys};

verus! {

/// An item's place in the history list.
#[derive(Debug, Clone, Copy)]
pub struct ItemSlot {
    pub id: i64,
    pub is_pinned: bool,
    pub item_order: i64,
}

/// No position number is at either end of the `i64` range.
pub open spec fn orders_in_range(items: Seq<(i64, i64)>) -> bool {
    forall|j: int| 0 <= j < items.len() ==> i64::MIN < (#[trigger] items[j]).1 < i64::MAX
}

/// The position changes of moving the item at `from` onto the place of the
/// item at `to`, in a list ordered top first: the items in between shift one
/// place toward `from` and the moved item takes the position number at `to`.
pub open spec fn reorder_spec(items: Seq<(i64, i64)>, from: int, to: int) -> Seq<(i64, i64)> {
    if from == to {
        Seq::empty()
    } else if from < to {
        Seq::new((to - from) as nat, |j: int| (items[from + 1 + j].0, (items[from + 1 + j].1 + 1) as i64)).push(
            (items[from].0, items[to].1),
        )
    } else {
        Seq::new((from - to) as nat, |j: int| (items[to + j].0, (items[to + j].1 - 1) as i64)).push(
            (items[from].0, items[to].1),
        )
    }
}

/// The position changes of a move; see `reorder_spec`.
pub fn reorder_updates(items: &[(i64, i64)], from_idx: usize, to_idx: usize) -> (r: Vec<(i64, i64)>)
    requires
        from_idx < items@.len(),
        to_idx < items@.len(),
        orders_in_range(items@),
    ensures
        r@ == reorder_spec(items@, from_idx as int, to_idx as int),
{
    let mut r: Vec<(i64, i64)> = Vec::new();
    if from_idx == to_idx {
        return r;
    }
    let moved = (items[from_idx].0, items[to_idx].1);
    if from_idx < to_idx {
        let mut i = from_idx + 1;
        while i <= to_idx
            invariant
                from_idx < i <= to_idx + 1,
                to_idx < items@.len(),
                orders_in_range(items@),
                r@ == Seq::new(
                    (i - from_idx - 1) as nat,
                    |j: int| (items@[from_idx + 1 + j].0, (items@[from_idx + 1 + j].1 + 1) as i64),
                ),
            decreases to_idx + 1 - i,
        {
            let (id, order) = items[i];
            r.push((id, order + 1));
            i += 1;
        }
    } else {
        let mut i = to_idx;
        while i < from_idx
            invariant
                to_idx <= i <= from_idx,
                from_idx < items@.len(),
                orders_in_range(items@),
                r@ == Seq::new((i - to_idx) as nat, |j: int| (items@[to_idx + j].0, (items@[to_idx + j].1 - 1) as i64)),
            decreases from_idx - i,
        {
            let (id, order) = items[i];
            r.push((id, order - 1));
            i += 1;
        }
    }
    r.push(moved);
    r
}

/// The first place of `id` in the list, if it is there.
pub open spec fn first_place(items: Seq<(i64, i64)>, id: i64) -> Option<int> {
    if exists|j: int| 0 <= j < items.len() && items[j].0 == id {
        Some(choose|j: int| 0 <= j < items.len() && items[j].0 == id && forall|q: int| 0 <= q < j ==> items[q].0 != id)
    } else {
        None
    }
}

fn place_of(items: &[(i64, i64)], id: i64) -> (r: Option<usize>)
    ensures
        match r {
            Some(j) => j < items@.len() && items@[j as int].0 == id && forall|q: int| 0 <= q < j ==> items@[q].0 != id,
            None => forall|q: int| 0 <= q < items@.len() ==> items@[q].0 != id,
        },
{
    let mut i: usize = 0;
    while i < items.len()
        invariant
            i <= items@.len(),
            forall|q: int| 0 <= q < i ==> items@[q].0 != id,
        decreases items@.len() - i,
    {
        if items[i].0 == id {
            return Some(i);
        }
        i += 1;
    }
    None
}

/// The message of an id that is not listed.
pub open spec fn missing_id_message(id: i64) -> Seq<char> {
    store_error(invalid_argument("ID "@ + dec_i64(id as int) + " 不存在"@))
}

fn missing_id_error(id: i64) -> (e: String)
    ensures
        e@ == missing_id_message(id),
{
    let mut detail = string_from_str("ID ");
    push_dec_i64(&mut detail, id);
    push_str(&mut detail, " 不存在");
    refused_argument_error(detail.as_str())
}

/// Moving item `from_id` onto the place of item `to_id`, with the list as it
/// is shown (`items` holds each id and position number, top first): nothing
/// moves between the pinned and the unpinned bucket or onto itself; an id that
/// is not listed is an error; otherwise the position changes of
/// `reorder_spec`.
pub fn move_in_list(
    items: &[(i64, i64)],
    from_id: i64,
    to_id: i64,
    from_pinned: bool,
    to_pinned: bool,
) -> (r: Result<Vec<(i64, i64)>, String>)
    requires
        orders_in_range(items@),
    ensures
        from_id == to_id || from_pinned != to_pinned ==> (r matches Ok(u) && u@.len() == 0),
        from_id != to_id && from_pinned == to_pinned ==> match (first_place(items@, from_id), first_place(items@, to_id)) {
            (None, _) => (r matches Err(e) && e@ == missing_id_message(from_id)),
            (Some(_), None) => (r matches Err(e) && e@ == missing_id_message(to_id)),
            (Some(f), Some(t)) => (r matches Ok(u) && u@ == reorder_spec(items@, f, t)),
        },
{
    if from_id == to_id || from_pinned != to_pinned {
        return Ok(Vec::new());
    }
    let from_idx = match place_of(items, from_id) {
        Some(j) => j,
        None => {
            return Err(missing_id_error(from_id));
        },
    };
    let to_idx = match place_of(items, to_id) {
        Some(j) => j,
        None => {
            proof {
                let f = choose|j: int|
                    0 <= j < items@.len() && items@[j].0 == from_id && forall|q: int| 0 <= q < j ==> items@[q].0 != from_id;
            }
            return Err(missing_id_error(to_id));
        },
    };
    proof {
        let f = choose|j: int|
            0 <= j < items@.len() && items@[j].0 == from_id && forall|q: int| 0 <= q < j ==> items@[q].0 != from_id;
        let t = choose|j: int| 0 <= j < items@.len() && items@[j].0 == to_id && forall|q: int| 0 <= q < j ==> items@[q].0 != to_id;
        assert(f == from_idx as int);
        assert(t == to_idx as int);
    }
    Ok(reorder_updates(items, from_idx, to_idx))
}

/// The first stored row with id `id`.
pub open spec fn row_place(rows: Seq<StoredHistoryRow>, id: i64) -> Option<int> {
    if exists|j: int| 0 <= j < rows.len() && rows[j].id == id {
        Some(choose|j: int| 0 <= j < rows.len() && rows[j].id == id && forall|q: int| 0 <= q < j ==> rows[q].id != id)
    } else {
        None
    }
}

/// Each row's id and position number, in the list order `order`.
pub open spec fn listed_items(rows: Seq<StoredHistoryRow>, order: Seq<usize>) -> Seq<(i64, i64)> {
    Seq::new(order.len(), |k: int| (rows[order[k] as int].id, rows[order[k] as int].item_order))
}

fn find_row(rows: &[StoredHistoryRow], id: i64) -> (r: Option<usize>)
    ensures
        match r {
            Some(j) => j < rows@.len() && rows@[j as int].id == id && forall|q: int| 0 <= q < j ==> rows@[q].id != id,
            None => forall|q: int| 0 <= q < rows@.len() ==> rows@[q].id != id,
        },
{
    let mut i: usize = 0;
    while i < rows.len()
        invariant
            i <= rows@.len(),
            forall|q: int| 0 <= q < i ==> rows@[q].id != id,
        decreases rows@.len() - i,
    {
        if rows[i].id == id {
            return Some(i);
        }
        i += 1;
    }
    None
}

/// The rows' ids and position numbers in list order, with that order.
fn listed_rows(rows: &[StoredHistoryRow]) -> (r: (Vec<(i64, i64)>, Ghost<Seq<usize>>))
    requires
        forall|j: int| 0 <= j < rows@.len() ==> i64::MIN < (#[trigger] rows@[j]).item_order < i64::MAX,
    ensures
        is_list_order(r.1@, row_keys(rows@)),
        r.0@ == listed_items(rows@, r.1@),
        orders_in_range(r.0@),
{
    let keys = keys_of(rows);
    let order = list_order(keys.as_slice());
    let mut listed: Vec<(i64, i64)> = Vec::new();
    let mut k: usize = 0;
    while k < order.len()
        invariant
            k <= order@.len(),
            is_list_order(order@, row_keys(rows@)),
            rows@.len() == row_keys(rows@).len(),
            listed@ == listed_items(rows@, order@.take(k as int)),
        decreases order@.len() - k,
    {
        let row = &rows[order[k]];
        listed.push((row.id, row.item_order));
        proof {
            assert(listed_items(rows@, order@.take(k + 1)) =~= listed_items(rows@, order@.take(k as int)).push(
                (rows@[order@[k as int] as int].id, rows@[order@[k as int] as int].item_order),
            ));
        }
        k += 1;
    }
    proof {
        assert(order@.take(order@.len() as int) =~= order@);
        assert forall|j: int| 0 <= j < listed@.len() implies i64::MIN < (#[trigger] listed@[j]).1 < i64::MAX by {
            assert(order@[j] < rows@.len());
        }
    }
    (listed, Ghost(order@))
}

/// Moving item `from_id` onto the place of item `to_id` among the stored
/// rows: onto itself nothing moves; a stored row missing for either id is an
/// error; between the pinned and the unpinned bucket nothing moves;
/// otherwise the rows are listed in list order (see `is_list_order`) and the
/// move is `move_in_list` on that list.
pub fn move_clipboard_item_by_id(rows: &[StoredHistoryRow], from_id: i64, to_id: i64) -> (r: Result<Vec<(i64, i64)>, String>)
    requires
        forall|j: int| 0 <= j < rows@.len() ==> i64::MIN < (#[trigger] rows@[j]).item_order < i64::MAX,
    ensures
        from_id == to_id ==> (r matches Ok(u) && u@.len() == 0),
        from_id != to_id ==> match (row_place(rows@, from_id), row_place(rows@, to_id)) {
            (None, _) => (r matches Err(e) && e@ == store_error(no_rows())),
            (Some(_), None) => (r matches Err(e) && e@ == store_error(no_rows())),
            (Some(f), Some(t)) => if rows@[f].is_pinned != rows@[t].is_pinned {
                r matches Ok(u) && u@.len() == 0
            } else {
                exists|order: Seq<usize>| #[trigger] is_list_order(order, row_keys(rows@)) && match (
                    first_place(listed_items(rows@, order), from_id),
                    first_place(listed_items(rows@, order), to_id),
                ) {
                    (None, _) => (r matches Err(e) && e@ == missing_id_message(from_id)),
                    (Some(_), None) => (r matches Err(e) && e@ == missing_id_message(to_id)),
                    (Some(a), Some(b)) => (r matches Ok(u) && u@ == reorder_spec(listed_items(rows@, order), a, b)),
                }
            },
        },
{
    if from_id == to_id {
        return Ok(Vec::new());
    }
    let f = match find_row(rows, from_id) {
        Some(j) => j,
        None => return Err(missing_row_error()),
    };
    let t = match find_row(rows, to_id) {
        Some(j) => j,
        None => {
            proof {
                let c = choose|j: int|
                    0 <= j < rows@.len() && rows@[j].id == from_id && forall|q: int| 0 <= q < j ==> rows@[q].id != from_id;
            }
            return Err(missing_row_error());
        },
    };
    proof {
        let cf = choose|j: int|
            0 <= j < rows@.len() && rows@[j].id == from_id && forall|q: int| 0 <= q < j ==> rows@[q].id != from_id;
        let ct = choose|j: int|
            0 <= j < rows@.len() && rows@[j].id == to_id && forall|q: int| 0 <= q < j ==> rows@[q].id != to_id;
        assert(cf == f as int);
        assert(ct == t as int);
    }
    let (listed, Ghost(order)) = listed_rows(rows);
    proof {
        assert(is_list_order(order, row_keys(rows@)));
    }
    move_in_list(listed.as_slice(), from_id, to_id, rows[f].is_pinned, rows[t].is_pinned)
}

// ---------------------------------------------------------------------------
// Pinning and raising
// ---------------------------------------------------------------------------

/// The slot is in the pinned (or unpinned) bucket and is not the excluded item.
pub open spec fn in_bucket(s: ItemSlot, pinned: bool, exclude: Option<i64>) -> bool {
    s.is_pinned == pinned && match exclude {
        Some(x) => s.id != x,
        None => true,
    }
}

/// `m` is the largest position number in the pinned (or unpinned) bucket,
/// leaving out the excluded item, or 0 when that leaves nothing.
pub open spec fn is_bucket_max(slots: Seq<ItemSlot>, pinned: bool, exclude: Option<i64>, m: int) -> bool {
    if exists|j: int| 0 <= j < slots.len() && in_bucket(#[trigger] slots[j], pinned, exclude) {
        &&& forall|j: int| 0 <= j < slots.len() && in_bucket(#[trigger] slots[j], pinned, exclude) ==> slots[j].item_order <= m
        &&& exists|j: int| 0 <= j < slots.len() && in_bucket(#[trigger] slots[j], pinned, exclude) && slots[j].item_order == m
    } else {
        m == 0
    }
}

fn bucket_max(slots: &[ItemSlot], pinned: bool, exclude: Option<i64>) -> (m: i64)
    ensures
        is_bucket_max(slots@, pinned, exclude, m as int),
{
    let mut best: Option<i64> = None;
    let mut i: usize = 0;
    while i < slots.len()
        invariant
            i <= slots@.len(),
            match best {
                Some(b) => (forall|j: int| 0 <= j < i && in_bucket(#[trigger] slots@[j], pinned, exclude) ==> slots@[j].item_order <= b)
                    && exists|j: int| 0 <= j < i && in_bucket(#[trigger] slots@[j], pinned, exclude) && slots@[j].item_order == b,
                None => forall|j: int| 0 <= j < i ==> !in_bucket(#[trigger] slots@[j], pinned, exclude),
            },
        decreases slots@.len() - i,
    {
        let s = slots[i];
        let counted = s.is_pinned == pinned && match exclude {
            Some(x) => s.id != x,
            None => true,
        };
        if counted {
            best = match best {
                Some(b) => if s.item_order > b { Some(s.item_order) } else { Some(b) },
                None => Some(s.item_order),
            };
        }
        i += 1;
    }
    match best {
        Some(b) => b,
        None => 0,
    }
}

/// The position number a new or refreshed item takes at the top of its
/// bucket: one past the largest there (leaving out the item itself), or 1.
pub fn next_item_order(slots: &[ItemSlot], is_pinned: bool, exclude_id: Option<i64>) -> (o: i64)
    requires
        slot_orders_in_range(slots@),
    ensures
        is_bucket_max(slots@, is_pinned, exclude_id, o - 1),
{
    let m = bucket_max(slots, is_pinned, exclude_id);
    proof {
        if exists|j: int| 0 <= j < slots@.len() && in_bucket(#[trigger] slots@[j], is_pinned, exclude_id) {
            let q = choose|q: int| 0 <= q < slots@.len() && in_bucket(#[trigger] slots@[q], is_pinned, exclude_id) && slots@[q].item_order == m;
        }
    }
    m + 1
}

/// Ids are listed once.
pub open spec fn distinct_ids(slots: Seq<ItemSlot>) -> bool {
    forall|a: int, b: int| 0 <= a < b < slots.len() ==> (#[trigger] slots[a]).id != (#[trigger] slots[b]).id
}

/// No position number is at the top of the `i64` range.
pub open spec fn slot_orders_in_range(slots: Seq<ItemSlot>) -> bool {
    forall|j: int| 0 <= j < slots.len() ==> (#[trigger] slots[j]).item_order < i64::MAX
}

fn slot_of(slots: &[ItemSlot], id: i64) -> (r: Option<usize>)
    ensures
        match r {
            Some(j) => j < slots@.len() && slots@[j as int].id == id,
            None => forall|q: int| 0 <= q < slots@.len() ==> (#[trigger] slots@[q]).id != id,
        },
{
    let mut i: usize = 0;
    while i < slots.len()
        invariant
            i <= slots@.len(),
            forall|q: int| 0 <= q < i ==> (#[trigger] slots@[q]).id != id,
        decreases slots@.len() - i,
    {
        if slots[i].id == id {
            return Some(i);
        }
        i += 1;
    }
    None
}

/// Pinning an item puts it first among the pinned ones, unpinning puts it
/// first among the others: one past the largest position number of the bucket
/// it enters (0 when empty). The result is the new pinned flag and position
/// number; an item that is not listed is an error.
pub fn toggle_pin_clipboard_item(slots: &[ItemSlot], id: i64) -> (r: Result<(bool, i64), String>)
    requires
        distinct_ids(slots@),
        slot_orders_in_range(slots@),
    ensures
        match r {
            Ok((pinned, order)) => exists|j: int|
                0 <= j < slots@.len() && (#[trigger] slots@[j]).id == id && pinned == !slots@[j].is_pinned
                    && is_bucket_max(slots@, pinned, None, order - 1),
            Err(e) => e@ == store_error(no_rows()) && forall|j: int| 0 <= j < slots@.len() ==> (#[trigger] slots@[j]).id != id,
        },
{
    match slot_of(slots, id) {
        Some(j) => {
            let pinned = !slots[j].is_pinned;
            let order = next_item_order(slots, pinned, None);
            Ok((pinned, order))
        },
        None => Err(missing_row_error()),
    }
}

/// Raising an unpinned item puts it first among the unpinned ones: one past
/// the largest unpinned position number. A pinned or missing item stays.
pub fn move_clipboard_item_to_top(slots: &[ItemSlot], id: i64) -> (r: Option<i64>)
    requires
        slot_orders_in_range(slots@),
    ensures
        match r {
            Some(order) => (exists|j: int|
                0 <= j < slots@.len() && (#[trigger] slots@[j]).id == id && !slots@[j].is_pinned) && is_bucket_max(
                slots@,
                false,
                None,
                order - 1,
            ),
            None => forall|j: int| 0 <= j < slots@.len() && (#[trigger] slots@[j]).id == id ==> slots@[j].is_pinned,
        },
{
    let mut i: usize = 0;
    let mut found = false;
    while i < slots.len()
        invariant
            i <= slots@.len(),
            found ==> exists|j: int| 0 <= j < slots@.len() && (#[trigger] slots@[j]).id == id && !slots@[j].is_pinned,
            !found ==> forall|j: int| 0 <= j < i && (#[trigger] slots@[j]).id == id ==> slots@[j].is_pinned,
        decreases slots@.len() - i,
    {
        if slots[i].id == id && !slots[i].is_pinned {
            found = true;
        }
        i += 1;
    }
    if !found {
        return None;
    }
    let order = next_item_order(slots, false, None);
    proof {
        let q = choose|q: int| 0 <= q < slots@.len() && (#[trigger] slots@[q]).id == id && !slots@[q].is_pinned;
        assert(in_bucket(slots@[q], false, None));
    }
    Some(order)
}

} // verus!
