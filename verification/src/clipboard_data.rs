//! The raw clipboard formats kept beside a stored item: one row per target
//! (kind and id) and format name, each with its own row id, listed by format
//! order and then by row id.
use vstd::prelude::*;
use vstd::multiset::*;
use vstd::seq_lib::*;
use vstd::slice::slice_to_vec;
use crate::strs::{str_eq, string_from_str};
use crate::tombstones::now_secs;

verus! {

broadcast use vstd::seq::group_seq_axioms;

/// A raw format to keep for a target.
#[derive(Debug)]
pub struct ClipboardDataSeed {
    pub format_name: String,
    pub raw_data: Vec<u8>,
    pub is_primary: bool,
    pub format_order: i64,
}

/// A kept raw format.
#[derive(Debug)]
pub struct ClipboardDataItem {
    pub id: i64,
    pub target_kind: String,
    pub target_id: String,
    pub format_name: String,
    pub raw_data: Vec<u8>,
    pub is_primary: bool,
    pub format_order: i64,
    pub created_at: i64,
    pub updated_at: i64,
}

/// A kept raw format as plain values.
pub struct DataRow {
    pub id: i64,
    pub target_kind: Seq<char>,
    pub target_id: Seq<char>,
    pub format_name: Seq<char>,
    pub raw_data: Seq<u8>,
    pub is_primary: bool,
    pub format_order: i64,
    pub created_at: i64,
    pub updated_at: i64,
}

impl View for ClipboardDataItem {
    type V = DataRow;

    open spec fn view(&self) -> DataRow {
        DataRow {
            id: self.id,
            target_kind: self.target_kind@,
            target_id: self.target_id@,
            format_name: self.format_name@,
            raw_data: self.raw_data@,
            is_primary: self.is_primary,
            format_order: self.format_order,
            created_at: self.created_at,
            updated_at: self.updated_at,
        }
    }
}

/// The row belongs to the target `kind`/`id` and has format `format`.
pub open spec fn same_key(r: DataRow, kind: Seq<char>, id: Seq<char>, format: Seq<char>) -> bool {
    r.target_kind == kind && r.target_id == id && r.format_name == format
}

/// The place of the row of target `kind`/`id` and format `format`, if any.
pub open spec fn key_place(rows: Seq<DataRow>, kind: Seq<char>, id: Seq<char>, format: Seq<char>) -> Option<int> {
    if exists|p: int| 0 <= p < rows.len() && same_key(#[trigger] rows[p], kind, id, format) {
        Some(choose|p: int| 0 <= p < rows.len() && same_key(#[trigger] rows[p], kind, id, format))
    } else {
        None
    }
}

/// The rows and the next row id after keeping `seed` for target `kind`/`id`
/// at `now`: the row of its format takes its data, order and primary flag
/// and the time; a format not kept yet becomes a new row under the next id.
pub open spec fn kept_seed(
    rows: Seq<DataRow>,
    next_id: int,
    kind: Seq<char>,
    id: Seq<char>,
    seed: ClipboardDataSeed,
    now: i64,
) -> (Seq<DataRow>, int) {
    match key_place(rows, kind, id, seed.format_name@) {
        Some(p) => (
            rows.update(
                p,
                DataRow {
                    raw_data: seed.raw_data@,
                    is_primary: seed.is_primary,
                    format_order: seed.format_order,
                    updated_at: now,
                    ..rows[p]
                },
            ),
            next_id,
        ),
        None => (
            rows.push(
                DataRow {
                    id: next_id as i64,
                    target_kind: kind,
                    target_id: id,
                    format_name: seed.format_name@,
                    raw_data: seed.raw_data@,
                    is_primary: seed.is_primary,
                    format_order: seed.format_order,
                    created_at: now,
                    updated_at: now,
                },
            ),
            next_id + 1,
        ),
    }
}

/// The rows and the next row id after keeping each of `seeds` in turn.
pub open spec fn kept_seeds(
    rows: Seq<DataRow>,
    next_id: int,
    kind: Seq<char>,
    id: Seq<char>,
    seeds: Seq<ClipboardDataSeed>,
    now: i64,
) -> (Seq<DataRow>, int)
    decreases seeds.len(),
{
    if seeds.len() == 0 {
        (rows, next_id)
    } else {
        let before = kept_seeds(rows, next_id, kind, id, seeds.drop_last(), now);
        kept_seed(before.0, before.1, kind, id, seeds.last(), now)
    }
}

/// The rows of target `kind`/`id`, in kept order.
pub open spec fn target_rows(rows: Seq<DataRow>, kind: Seq<char>, id: Seq<char>) -> Seq<DataRow>
    decreases rows.len(),
{
    if rows.len() == 0 {
        Seq::empty()
    } else {
        let rest = target_rows(rows.drop_last(), kind, id);
        if rows.last().target_kind == kind && rows.last().target_id == id {
            rest.push(rows.last())
        } else {
            rest
        }
    }
}

/// The rows not of target `kind`/`id`, in kept order.
pub open spec fn rows_without_target(rows: Seq<DataRow>, kind: Seq<char>, id: Seq<char>) -> Seq<DataRow>
    decreases rows.len(),
{
    if rows.len() == 0 {
        Seq::empty()
    } else {
        let rest = rows_without_target(rows.drop_last(), kind, id);
        if rows.last().target_kind == kind && rows.last().target_id == id {
            rest
        } else {
            rest.push(rows.last())
        }
    }
}

/// The rows not of target kind `kind`, in kept order.
pub open spec fn rows_without_kind(rows: Seq<DataRow>, kind: Seq<char>) -> Seq<DataRow>
    decreases rows.len(),
{
    if rows.len() == 0 {
        Seq::empty()
    } else {
        let rest = rows_without_kind(rows.drop_last(), kind);
        if rows.last().target_kind == kind {
            rest
        } else {
            rest.push(rows.last())
        }
    }
}

/// Listed order: by format order, then by row id.
pub open spec fn listed_before(a: DataRow, b: DataRow) -> bool {
    a.format_order < b.format_order || (a.format_order == b.format_order && a.id <= b.id)
}

pub open spec fn in_listed_order(rows: Seq<DataRow>) -> bool {
    forall|i: int, j: int| 0 <= i <= j < rows.len() ==> listed_before(rows[i], rows[j])
}

pub open spec fn row_views(items: Seq<ClipboardDataItem>) -> Seq<DataRow> {
    items.map_values(|x: ClipboardDataItem| x@)
}

proof fn lemma_key_unique(rows: Seq<DataRow>, p: int, kind: Seq<char>, id: Seq<char>, format: Seq<char>)
    requires
        0 <= p < rows.len(),
        same_key(rows[p], kind, id, format),
        forall|a: int, b: int| 0 <= a < b < rows.len() ==> !same_key(
            #[trigger] rows[a],
            (#[trigger] rows[b]).target_kind,
            rows[b].target_id,
            rows[b].format_name,
        ),
    ensures
        key_place(rows, kind, id, format) == Some(p),
{
    let c = choose|q: int| 0 <= q < rows.len() && same_key(#[trigger] rows[q], kind, id, format);
    if c < p {
        assert(!same_key(rows[c], rows[p].target_kind, rows[p].target_id, rows[p].format_name));
    } else if c > p {
        assert(!same_key(rows[p], rows[c].target_kind, rows[c].target_id, rows[c].format_name));
    }
}

/// The kept raw formats.
#[derive(Debug)]
pub struct ClipboardDataStore {
    items: Vec<ClipboardDataItem>,
    next_id: i64,
}

impl View for ClipboardDataStore {
    type V = Seq<DataRow>;

    closed spec fn view(&self) -> Seq<DataRow> {
        row_views(self.items@)
    }
}

impl ClipboardDataStore {
    /// No two rows share a row id or a target and format; every row id is
    /// below the next one.
    #[verifier::type_invariant]
    spec fn well_formed(self) -> bool {
        &&& 1 <= self.next_id
        &&& forall|i: int| 0 <= i < self.items@.len() ==> (#[trigger] self.items@[i]).id < self.next_id
        &&& forall|i: int, j: int|
            0 <= i < j < self.items@.len() ==> (#[trigger] self.items@[i]).id != (#[trigger] self.items@[j]).id
        &&& forall|i: int, j: int|
            0 <= i < j < self.items@.len() ==> !same_key(
                (#[trigger] self.items@[i])@,
                (#[trigger] self.items@[j])@.target_kind,
                self.items@[j]@.target_id,
                self.items@[j]@.format_name,
            )
    }

    /// The id the next new row gets.
    pub closed spec fn next_id(self) -> int {
        self.next_id as int
    }

    /// A store with no rows; the first row gets id 1.
    pub fn new() -> (s: Self)
        ensures
            s@ == Seq::<DataRow>::empty(),
            s.next_id() == 1,
    {
        let s = ClipboardDataStore { items: Vec::new(), next_id: 1 };
        assert(s@ =~= Seq::<DataRow>::empty());
        s
    }

    /// Whether `n` more new rows still get ids.
    pub fn has_room_for(&self, n: usize) -> (r: bool)
        ensures
            r == (self.next_id() + n <= i64::MAX),
    {
        proof {
            use_type_invariant(self);
        }
        (n as u64) <= (i64::MAX as u64) - (self.next_id as u64)
    }

    fn find(&self, kind: &str, id: &str, format: &str) -> (r: Option<usize>)
        ensures
            match r {
                Some(p) => p < self@.len() && same_key(self@[p as int], kind@, id@, format@),
                None => key_place(self@, kind@, id@, format@) is None,
            },
    {
        let mut i: usize = 0;
        while i < self.items.len()
            invariant
                i <= self.items@.len(),
                forall|q: int| 0 <= q < i ==> !same_key(#[trigger] self@[q], kind@, id@, format@),
            decreases self.items@.len() - i,
        {
            let it = &self.items[i];
            if str_eq(it.target_kind.as_str(), kind) && str_eq(it.target_id.as_str(), id) && str_eq(
                it.format_name.as_str(),
                format,
            ) {
                return Some(i);
            }
            i += 1;
        }
        None
    }

    /// Keeps `seed` for target `kind`/`id` at `now`; see `kept_seed`.
    fn keep_seed(&mut self, kind: &str, id: &str, seed: &ClipboardDataSeed, now: i64)
        requires
            old(self).next_id() < i64::MAX,
        ensures
            (final(self)@, final(self).next_id()) == kept_seed(old(self)@, old(self).next_id(), kind@, id@, *seed, now),
    {
        proof {
            use_type_invariant(&*self);
        }
        match self.find(kind, id, seed.format_name.as_str()) {
            Some(p) => {
                proof {
                    assert forall|a: int, b: int| 0 <= a < b < self@.len() implies !same_key(
                        #[trigger] self@[a],
                        (#[trigger] self@[b]).target_kind,
                        self@[b].target_id,
                        self@[b].format_name,
                    ) by {
                        assert(self@[a] == self.items@[a]@);
                        assert(self@[b] == self.items@[b]@);
                    }
                    lemma_key_unique(self@, p as int, kind@, id@, seed.format_name@);
                }
                let old_item = &self.items[p];
                let item = ClipboardDataItem {
                    id: old_item.id,
                    target_kind: old_item.target_kind.clone(),
                    target_id: old_item.target_id.clone(),
                    format_name: old_item.format_name.clone(),
                    raw_data: slice_to_vec(seed.raw_data.as_slice()),
                    is_primary: seed.is_primary,
                    format_order: seed.format_order,
                    created_at: old_item.created_at,
                    updated_at: now,
                };
                let ghost before = self.items@;
                let mut items: Vec<ClipboardDataItem> = Vec::new();
                std::mem::swap(&mut self.items, &mut items);
                items.set(p, item);
                proof {
                    assert(items@ == before.update(p as int, item));
                    assert forall|a: int| 0 <= a < items@.len() implies (#[trigger] items@[a]).id < self.next_id by {
                        if a != p {
                            assert(items@[a] == before[a]);
                        }
                    }
                    assert forall|a: int, b: int| 0 <= a < b < items@.len() implies (#[trigger] items@[a]).id != (
                    #[trigger] items@[b]).id && !same_key(items@[a]@, items@[b]@.target_kind, items@[b]@.target_id, items@[b]@.format_name) by {
                        assert(items@[a]@.id == before[a]@.id && items@[a]@.target_kind == before[a]@.target_kind
                            && items@[a]@.target_id == before[a]@.target_id && items@[a]@.format_name == before[a]@.format_name);
                        assert(items@[b]@.id == before[b]@.id && items@[b]@.target_kind == before[b]@.target_kind
                            && items@[b]@.target_id == before[b]@.target_id && items@[b]@.format_name == before[b]@.format_name);
                    }
                }
                self.items = items;
                proof {
                    assert(self.items@ == before.update(p as int, item));
                    assert(self@ =~= old(self)@.update(
                        p as int,
                        DataRow {
                            raw_data: seed.raw_data@,
                            is_primary: seed.is_primary,
                            format_order: seed.format_order,
                            updated_at: now,
                            ..old(self)@[p as int]
                        },
                    ));
                }
            },
            None => {
                let new_id = self.next_id;
                self.next_id = new_id + 1;
                let item = ClipboardDataItem {
                    id: new_id,
                    target_kind: string_from_str(kind),
                    target_id: string_from_str(id),
                    format_name: seed.format_name.clone(),
                    raw_data: slice_to_vec(seed.raw_data.as_slice()),
                    is_primary: seed.is_primary,
                    format_order: seed.format_order,
                    created_at: now,
                    updated_at: now,
                };
                let ghost before = self.items@;
                proof {
                    assert forall|i: int| 0 <= i < before.len() implies !same_key(
                        (#[trigger] before[i])@,
                        item@.target_kind,
                        item@.target_id,
                        item@.format_name,
                    ) by {
                        assert(before[i]@ == old(self)@[i]);
                    }
                }
                let mut items: Vec<ClipboardDataItem> = Vec::new();
                std::mem::swap(&mut self.items, &mut items);
                items.push(item);
                proof {
                    assert(items@ == before.push(item));
                    assert forall|a: int| 0 <= a < items@.len() implies (#[trigger] items@[a]).id < self.next_id by {
                        if a < before.len() {
                            assert(items@[a] == before[a]);
                        }
                    }
                    assert forall|a: int, b: int| 0 <= a < b < items@.len() implies (#[trigger] items@[a]).id != (
                    #[trigger] items@[b]).id && !same_key(items@[a]@, items@[b]@.target_kind, items@[b]@.target_id, items@[b]@.format_name) by {
                        assert(items@[a] == before[a]);
                        if b < before.len() {
                            assert(items@[b] == before[b]);
                        }
                    }
                }
                self.items = items;
                proof {
                    assert(self.items@ == before.push(item));
                    assert(self@ =~= old(self)@.push(item@));
                }
            },
        }
    }

    /// Keeps `seeds` for target `kind`/`id` at `now`, one after another:
    /// the row of a kept format is overwritten (its id and creation time
    /// stay), and a new format gets a new row; see `kept_seeds`.
    pub fn save_clipboard_data_items_at(&mut self, target_kind: &str, target_id: &str, seeds: &[ClipboardDataSeed], now: i64)
        requires
            old(self).next_id() + seeds@.len() <= i64::MAX,
        ensures
            (final(self)@, final(self).next_id()) == kept_seeds(
                old(self)@,
                old(self).next_id(),
                target_kind@,
                target_id@,
                seeds@,
                now,
            ),
    {
        let mut i: usize = 0;
        while i < seeds.len()
            invariant
                i <= seeds@.len(),
                old(self).next_id() + seeds@.len() <= i64::MAX,
                (self@, self.next_id()) == kept_seeds(old(self)@, old(self).next_id(), target_kind@, target_id@, seeds@.take(i as int), now),
                self.next_id() <= old(self).next_id() + i,
            decreases seeds@.len() - i,
        {
            proof {
                assert(seeds@.take(i as int + 1).drop_last() =~= seeds@.take(i as int));
                assert(seeds@.take(i as int + 1).last() == seeds@[i as int]);
            }
            self.keep_seed(target_kind, target_id, &seeds[i], now);
            i += 1;
        }
        proof {
            assert(seeds@.take(seeds@.len() as int) =~= seeds@);
        }
    }

    /// Keeps `seeds` for target `kind`/`id` now; see
    /// `save_clipboard_data_items_at`.
    pub fn save_clipboard_data_items(&mut self, target_kind: &str, target_id: &str, seeds: &[ClipboardDataSeed])
        requires
            old(self).next_id() + seeds@.len() <= i64::MAX,
        ensures
            exists|now: i64|
                (final(self)@, final(self).next_id()) == kept_seeds(
                    old(self)@,
                    old(self).next_id(),
                    target_kind@,
                    target_id@,
                    seeds@,
                    now,
                ),
    {
        if seeds.len() == 0 {
            assert(kept_seeds(self@, self.next_id(), target_kind@, target_id@, seeds@, 0) == (self@, self.next_id()));
            return;
        }
        let now = now_secs();
        self.save_clipboard_data_items_at(target_kind, target_id, seeds, now);
    }

    /// The formats of target `kind`/`id`, in listed order (format order,
    /// then row id).
    pub fn get_clipboard_data_items(&self, target_kind: &str, target_id: &str) -> (r: Vec<ClipboardDataItem>)
        ensures
            in_listed_order(row_views(r@)),
            row_views(r@).to_multiset() == target_rows(self@, target_kind@, target_id@).to_multiset(),
    {
        broadcast use group_multiset_axioms, to_multiset_build;

        let mut out: Vec<ClipboardDataItem> = Vec::new();
        let mut i: usize = 0;
        proof {
            assert(row_views(out@) =~= Seq::<DataRow>::empty());
            assert(self@.take(0) =~= Seq::<DataRow>::empty());
        }
        while i < self.items.len()
            invariant
                i <= self@.len(),
                self@.len() == self.items@.len(),
                in_listed_order(row_views(out@)),
                row_views(out@).to_multiset() == target_rows(self@.take(i as int), target_kind@, target_id@).to_multiset(),
            decreases self.items@.len() - i,
        {
            proof {
                assert(self@.take(i as int + 1).drop_last() =~= self@.take(i as int));
                assert(self@.take(i as int + 1).last() == self@[i as int]);
            }
            let it = &self.items[i];
            if str_eq(it.target_kind.as_str(), target_kind) && str_eq(it.target_id.as_str(), target_id) {
                let copy = ClipboardDataItem {
                    id: it.id,
                    target_kind: it.target_kind.clone(),
                    target_id: it.target_id.clone(),
                    format_name: it.format_name.clone(),
                    raw_data: slice_to_vec(it.raw_data.as_slice()),
                    is_primary: it.is_primary,
                    format_order: it.format_order,
                    created_at: it.created_at,
                    updated_at: it.updated_at,
                };
                let ghost prev = target_rows(self@.take(i as int), target_kind@, target_id@);
                insert_listed(&mut out, copy);
                proof {
                    assert(copy@ == self@[i as int]);
                    to_multiset_build(prev, self@[i as int]);
                }
            }
            i += 1;
        }
        proof {
            assert(self@.take(self@.len() as int) =~= self@);
        }
        out
    }

    fn retain_rows(&mut self, target_kind: &str, target_id: Option<&str>)
        ensures
            final(self).next_id() == old(self).next_id(),
            final(self)@ == match target_id {
                Some(t) => rows_without_target(old(self)@, target_kind@, t@),
                None => rows_without_kind(old(self)@, target_kind@),
            },
    {
        proof {
            use_type_invariant(&*self);
        }
        let ghost all = self.items@;
        let ghost all_rows = self@;
        let mut src: Vec<ClipboardDataItem> = Vec::new();
        std::mem::swap(&mut self.items, &mut src);
        assert(src@ == all);
        assert(all.len() == src.len());
        let mut kept: Vec<ClipboardDataItem> = Vec::new();
        let ghost mut idx: Seq<int> = Seq::empty();
        let mut i: usize = 0;
        proof {
            assert(all_rows.take(0) =~= Seq::<DataRow>::empty());
            assert(row_views(kept@) =~= Seq::<DataRow>::empty());
        }
        while src.len() > 0
            invariant
                i + src@.len() == all.len(),
                all.len() <= usize::MAX,
                src@ == all.skip(i as int),
                all_rows == row_views(all),
                row_views(kept@) == match target_id {
                    Some(t) => rows_without_target(all_rows.take(i as int), target_kind@, t@),
                    None => rows_without_kind(all_rows.take(i as int), target_kind@),
                },
                idx.len() == kept@.len(),
                forall|q: int| 0 <= q < idx.len() ==> 0 <= #[trigger] idx[q] < i && kept@[q] == all[idx[q]],
                forall|q: int, w: int| 0 <= q < w < idx.len() ==> #[trigger] idx[q] < #[trigger] idx[w],
            decreases src@.len(),
        {
            let it = src.remove(0);
            proof {
                assert(all_rows.take(i + 1).drop_last() =~= all_rows.take(i as int));
                assert(all[i as int] == it);
                assert(all_rows[i as int] == it@);
                assert(src@ =~= all.skip(i + 1));
            }
            let drop = str_eq(it.target_kind.as_str(), target_kind) && match target_id {
                Some(t) => str_eq(it.target_id.as_str(), t),
                None => true,
            };
            if !drop {
                let ghost before = kept@;
                kept.push(it);
                proof {
                    assert(row_views(kept@) =~= row_views(before).push(it@));
                    idx = idx.push(i as int);
                    assert forall|q: int| 0 <= q < idx.len() implies 0 <= #[trigger] idx[q] < i + 1 && kept@[q] == all[idx[q]] by {
                        if q < before.len() {
                            assert(kept@[q] == before[q]);
                        }
                    }
                }
            }
            i += 1;
        }
        proof {
            assert(all_rows.take(all.len() as int) =~= all_rows);
            assert forall|q: int| 0 <= q < kept@.len() implies (#[trigger] kept@[q]).id < self.next_id by {
                assert(kept@[q] == all[idx[q]]);
            }
            assert forall|q: int, w: int| 0 <= q < w < kept@.len() implies (#[trigger] kept@[q]).id != (#[trigger] kept@[w]).id
                && !same_key(kept@[q]@, kept@[w]@.target_kind, kept@[w]@.target_id, kept@[w]@.format_name) by {
                assert(kept@[q] == all[idx[q]]);
                assert(kept@[w] == all[idx[w]]);
                assert(idx[q] < idx[w]);
            }
        }
        self.items = kept;
    }

    /// Forgets the formats of target `kind`/`id`.
    pub fn delete_clipboard_data_items(&mut self, target_kind: &str, target_id: &str)
        ensures
            final(self)@ == rows_without_target(old(self)@, target_kind@, target_id@),
            final(self).next_id() == old(self).next_id(),
    {
        self.retain_rows(target_kind, Some(target_id));
    }

    /// Forgets the formats of every target of kind `kind`.
    pub fn delete_clipboard_data_items_by_kind(&mut self, target_kind: &str)
        ensures
            final(self)@ == rows_without_kind(old(self)@, target_kind@),
            final(self).next_id() == old(self).next_id(),
    {
        self.retain_rows(target_kind, None);
    }
}

fn insert_listed(out: &mut Vec<ClipboardDataItem>, item: ClipboardDataItem)
    requires
        in_listed_order(row_views(old(out)@)),
    ensures
        in_listed_order(row_views(final(out)@)),
        row_views(final(out)@).to_multiset() == row_views(old(out)@).to_multiset().insert(item@),
{
    broadcast use to_multiset_insert;

    let mut k: usize = 0;
    while k < out.len() && (out[k].format_order < item.format_order || (out[k].format_order == item.format_order
        && out[k].id <= item.id))
        invariant
            0 <= k <= out@.len(),
            forall|q: int| 0 <= q < k ==> listed_before(out@[q]@, item@),
        decreases out@.len() - k,
    {
        k += 1;
    }
    let ghost before = row_views(out@);
    let ghost v = item@;
    out.insert(k, item);
    proof {
        assert(row_views(out@) =~= before.insert(k as int, v));
        let after = row_views(out@);
        assert forall|i: int, j: int| 0 <= i <= j < after.len() implies listed_before(after[i], after[j]) by {
            if j < k {
            } else if i > k {
                assert(after[i] == before[i - 1]);
                assert(after[j] == before[j - 1]);
            } else if i == k && j > k {
                assert(after[j] == before[j - 1]);
                let b = before[k as int];
                assert(!listed_before(b, v));
                assert(listed_before(v, b));
                assert(listed_before(b, before[j - 1]));
            } else if i < k && j > k {
                assert(after[j] == before[j - 1]);
                assert(listed_before(before[i], before[j - 1]));
            } else if i < k && j == k {
            }
        }
    }
}


/// No two rows share a target and a format.
pub open spec fn keys_unique(rows: Seq<DataRow>) -> bool {
    forall|a: int, b: int| 0 <= a < b < rows.len() ==> !same_key(
        #[trigger] rows[a],
        (#[trigger] rows[b]).target_kind,
        rows[b].target_id,
        rows[b].format_name,
    )
}

/// A format kept for a target reads back as kept, in a single row: the
/// rows hold exactly one row of that target and format, with the seed's
/// data, primary flag and order, and the rows stay one per target and
/// format.
pub proof fn law_kept_format_reads_back(
    rows: Seq<DataRow>,
    next_id: int,
    kind: Seq<char>,
    id: Seq<char>,
    seed: ClipboardDataSeed,
    now: i64,
)
    requires
        keys_unique(rows),
    ensures
        ({
            let after = kept_seed(rows, next_id, kind, id, seed, now).0;
            &&& keys_unique(after)
            &&& exists|p: int|
                0 <= p < after.len() && same_key(#[trigger] after[p], kind, id, seed.format_name@) && after[p].raw_data
                    == seed.raw_data@ && after[p].is_primary == seed.is_primary && after[p].format_order == seed.format_order
            &&& forall|p: int, q: int|
                0 <= p < after.len() && 0 <= q < after.len() && same_key(#[trigger] after[p], kind, id, seed.format_name@)
                    && same_key(#[trigger] after[q], kind, id, seed.format_name@) ==> p == q
        }),
{
    let after = kept_seed(rows, next_id, kind, id, seed, now).0;
    let f = seed.format_name@;
    match key_place(rows, kind, id, f) {
        Some(p) => {
            assert(same_key(after[p], kind, id, f));
            assert forall|a: int, b: int| 0 <= a < b < after.len() implies !same_key(
                #[trigger] after[a],
                (#[trigger] after[b]).target_kind,
                after[b].target_id,
                after[b].format_name,
            ) by {
                assert(same_key(after[a], after[b].target_kind, after[b].target_id, after[b].format_name) == same_key(
                    rows[a],
                    rows[b].target_kind,
                    rows[b].target_id,
                    rows[b].format_name,
                ));
            }
        },
        None => {
            let n = rows.len() as int;
            assert(same_key(after[n], kind, id, f));
            assert forall|a: int, b: int| 0 <= a < b < after.len() implies !same_key(
                #[trigger] after[a],
                (#[trigger] after[b]).target_kind,
                after[b].target_id,
                after[b].format_name,
            ) by {
                if b < n {
                    assert(after[a] == rows[a] && after[b] == rows[b]);
                } else {
                    assert(after[a] == rows[a]);
                    assert(!same_key(rows[a], kind, id, f));
                }
            }
        },
    }
}


proof fn lemma_kept_seed_keeps_other_rows(
    rows: Seq<DataRow>,
    next_id: int,
    kind: Seq<char>,
    id: Seq<char>,
    seed: ClipboardDataSeed,
    now: i64,
)
    ensures
        kept_seed(rows, next_id, kind, id, seed, now).0.len() >= rows.len(),
        forall|p: int|
            0 <= p < rows.len() && !same_key(#[trigger] rows[p], kind, id, seed.format_name@) ==> kept_seed(
                rows,
                next_id,
                kind,
                id,
                seed,
                now,
            ).0[p] == rows[p],
{
    let f = seed.format_name@;
    match key_place(rows, kind, id, f) {
        Some(q) => {
            assert(same_key(rows[q], kind, id, f));
        },
        None => {},
    }
}

/// Whether `seeds[j]` is the last of `seeds` with its format.
pub open spec fn last_of_format(seeds: Seq<ClipboardDataSeed>, j: int) -> bool {
    forall|q: int| j < q < seeds.len() ==> (#[trigger] seeds[q]).format_name@ != seeds[j].format_name@
}

/// Saving a list of formats for a target reads back as an upsert: the rows
/// stay one per target and format, and for each format saved there is a
/// row of that target and format carrying the data, primary flag and order
/// of the last seed of that format.
pub proof fn law_kept_seeds_read_back(
    rows: Seq<DataRow>,
    next_id: int,
    kind: Seq<char>,
    id: Seq<char>,
    seeds: Seq<ClipboardDataSeed>,
    now: i64,
)
    requires
        keys_unique(rows),
    ensures
        ({
            let after = kept_seeds(rows, next_id, kind, id, seeds, now).0;
            &&& keys_unique(after)
            &&& forall|j: int|
                0 <= j < seeds.len() && last_of_format(seeds, j) ==> exists|p: int|
                    0 <= p < after.len() && same_key(#[trigger] after[p], kind, id, seeds[j].format_name@)
                        && after[p].raw_data == seeds[j].raw_data@ && after[p].is_primary == seeds[j].is_primary
                        && after[p].format_order == seeds[j].format_order
        }),
    decreases seeds.len(),
{
    if seeds.len() > 0 {
        let prev = seeds.drop_last();
        law_kept_seeds_read_back(rows, next_id, kind, id, prev, now);
        let mid = kept_seeds(rows, next_id, kind, id, prev, now);
        let s = seeds.last();
        law_kept_format_reads_back(mid.0, mid.1, kind, id, s, now);
        lemma_kept_seed_keeps_other_rows(mid.0, mid.1, kind, id, s, now);
        let after = kept_seeds(rows, next_id, kind, id, seeds, now).0;
        assert forall|j: int|
            0 <= j < seeds.len() && last_of_format(seeds, j) implies exists|p: int|
                0 <= p < after.len() && same_key(#[trigger] after[p], kind, id, seeds[j].format_name@)
                    && after[p].raw_data == seeds[j].raw_data@ && after[p].is_primary == seeds[j].is_primary
                    && after[p].format_order == seeds[j].format_order by {
            if j < seeds.len() - 1 {
                assert(prev[j] == seeds[j]);
                assert(last_of_format(prev, j)) by {
                    assert forall|q: int| j < q < prev.len() implies (#[trigger] prev[q]).format_name@ != prev[j].format_name@ by {
                        assert(prev[q] == seeds[q]);
                    }
                }
                let p = choose|p: int|
                    0 <= p < mid.0.len() && same_key(#[trigger] mid.0[p], kind, id, prev[j].format_name@)
                        && mid.0[p].raw_data == prev[j].raw_data@ && mid.0[p].is_primary == prev[j].is_primary
                        && mid.0[p].format_order == prev[j].format_order;
                assert(seeds[seeds.len() - 1].format_name@ != seeds[j].format_name@);
                assert(!same_key(mid.0[p], kind, id, s.format_name@));
                assert(after[p] == mid.0[p]);
            }
        }
    }
}


proof fn lemma_target_rows_from(rows: Seq<DataRow>, kind: Seq<char>, id: Seq<char>)
    ensures
        forall|x: DataRow| #[trigger] target_rows(rows, kind, id).contains(x) ==> rows.contains(x) && x.target_kind == kind
            && x.target_id == id,
        forall|p: int| 0 <= p < rows.len() && rows[p].target_kind == kind && rows[p].target_id == id ==> target_rows(
            rows,
            kind,
            id,
        ).contains(#[trigger] rows[p]),
        keys_unique(rows) ==> keys_unique(target_rows(rows, kind, id)),
    decreases rows.len(),
{
    if rows.len() > 0 {
        let d = rows.drop_last();
        lemma_target_rows_from(d, kind, id);
        let t = target_rows(rows, kind, id);
        let td = target_rows(d, kind, id);
        let l = rows.last();
        assert forall|x: DataRow| #[trigger] t.contains(x) implies rows.contains(x) && x.target_kind == kind && x.target_id
            == id by {
            if td.contains(x) {
                let q = choose|q: int| 0 <= q < d.len() && d[q] == x;
                assert(rows[q] == x);
            } else {
                assert(x == l);
                assert(rows[rows.len() - 1] == x);
            }
        }
        assert forall|p: int| 0 <= p < rows.len() && rows[p].target_kind == kind && rows[p].target_id == id implies t.contains(
            #[trigger] rows[p],
        ) by {
            if p < rows.len() - 1 {
                assert(d[p] == rows[p]);
                assert(td.contains(d[p]));
                let q = choose|q: int| 0 <= q < td.len() && td[q] == d[p];
                assert(t[q] == rows[p]);
            } else {
                assert(t[t.len() - 1] == l);
            }
        }
        if keys_unique(rows) {
            assert(keys_unique(d)) by {
                assert forall|a: int, b: int| 0 <= a < b < d.len() implies !same_key(
                    #[trigger] d[a],
                    (#[trigger] d[b]).target_kind,
                    d[b].target_id,
                    d[b].format_name,
                ) by {
                    assert(d[a] == rows[a] && d[b] == rows[b]);
                }
            }
            if l.target_kind == kind && l.target_id == id {
                assert forall|a: int, b: int| 0 <= a < b < t.len() implies !same_key(
                    #[trigger] t[a],
                    (#[trigger] t[b]).target_kind,
                    t[b].target_id,
                    t[b].format_name,
                ) by {
                    if b < t.len() - 1 {
                        assert(t[a] == td[a] && t[b] == td[b]);
                    } else {
                        assert(t[b] == l);
                        assert(td.contains(td[a]));
                        let q = choose|q: int| 0 <= q < d.len() && d[q] == td[a];
                        assert(rows[q] == td[a]);
                        assert(!same_key(rows[q], rows[rows.len() - 1].target_kind, rows[rows.len() - 1].target_id,
                            rows[rows.len() - 1].format_name));
                    }
                }
            }
        }
    }
}

/// Saving formats for a target and then reading that target's formats (as
/// `get_clipboard_data_items` lists them, whatever its order) gives one
/// item per format, all of that target, and for every format saved the item
/// carries the data, primary flag and order of the last seed of that format.
pub proof fn law_saved_formats_read_back(
    rows: Seq<DataRow>,
    next_id: int,
    kind: Seq<char>,
    id: Seq<char>,
    seeds: Seq<ClipboardDataSeed>,
    now: i64,
    listed: Seq<DataRow>,
)
    requires
        keys_unique(rows),
        listed.to_multiset() == target_rows(kept_seeds(rows, next_id, kind, id, seeds, now).0, kind, id).to_multiset(),
    ensures
        forall|a: int| 0 <= a < listed.len() ==> (#[trigger] listed[a]).target_kind == kind && listed[a].target_id == id,
        forall|a: int, b: int|
            0 <= a < b < listed.len() ==> (#[trigger] listed[a]).format_name != (#[trigger] listed[b]).format_name,
        forall|j: int|
            0 <= j < seeds.len() && last_of_format(seeds, j) ==> exists|p: int|
                0 <= p < listed.len() && (#[trigger] listed[p]).format_name == seeds[j].format_name@
                    && listed[p].raw_data == seeds[j].raw_data@ && listed[p].is_primary == seeds[j].is_primary
                    && listed[p].format_order == seeds[j].format_order,
{
    broadcast use group_multiset_axioms, to_multiset_contains;

    let after = kept_seeds(rows, next_id, kind, id, seeds, now).0;
    law_kept_seeds_read_back(rows, next_id, kind, id, seeds, now);
    lemma_target_rows_from(after, kind, id);
    let t = target_rows(after, kind, id);
    assert(keys_unique(t));
    assert(t.no_duplicates()) by {
        assert forall|a: int, b: int| 0 <= a < t.len() && 0 <= b < t.len() && a != b implies t[a] != t[b] by {
            if a < b {
                assert(!same_key(t[a], t[b].target_kind, t[b].target_id, t[b].format_name));
            } else {
                assert(!same_key(t[b], t[a].target_kind, t[a].target_id, t[a].format_name));
            }
        }
    }
    t.lemma_multiset_has_no_duplicates();
    assert forall|x: DataRow| listed.to_multiset().contains(x) implies listed.to_multiset().count(x) == 1 by {
        assert(t.to_multiset().contains(x));
    }
    listed.lemma_multiset_has_no_duplicates_conv();
    assert forall|a: int| 0 <= a < listed.len() implies t.contains(#[trigger] listed[a]) by {
        assert(listed.contains(listed[a]));
        assert(listed.to_multiset().count(listed[a]) > 0);
        assert(t.to_multiset().count(listed[a]) > 0);
    }
    assert forall|a: int| 0 <= a < listed.len() implies (#[trigger] listed[a]).target_kind == kind && listed[a].target_id
        == id by {
        assert(t.contains(listed[a]));
    }
    assert forall|a: int, b: int| 0 <= a < b < listed.len() implies (#[trigger] listed[a]).format_name != (
    #[trigger] listed[b]).format_name by {
        assert(t.contains(listed[a]));
        assert(t.contains(listed[b]));
        let p = choose|p: int| 0 <= p < t.len() && t[p] == listed[a];
        let q = choose|q: int| 0 <= q < t.len() && t[q] == listed[b];
        assert(listed[a] != listed[b]);
        assert(p != q);
        if p < q {
            assert(!same_key(t[p], t[q].target_kind, t[q].target_id, t[q].format_name));
        } else {
            assert(!same_key(t[q], t[p].target_kind, t[p].target_id, t[p].format_name));
        }
    }
    assert forall|j: int| 0 <= j < seeds.len() && last_of_format(seeds, j) implies exists|p: int|
        0 <= p < listed.len() && (#[trigger] listed[p]).format_name == seeds[j].format_name@ && listed[p].raw_data
            == seeds[j].raw_data@ && listed[p].is_primary == seeds[j].is_primary && listed[p].format_order
            == seeds[j].format_order by {
        let p = choose|p: int|
            0 <= p < after.len() && same_key(#[trigger] after[p], kind, id, seeds[j].format_name@) && after[p].raw_data
                == seeds[j].raw_data@ && after[p].is_primary == seeds[j].is_primary && after[p].format_order
                == seeds[j].format_order;
        assert(t.contains(after[p]));
        assert(t.to_multiset().count(after[p]) > 0);
        assert(listed.to_multiset().count(after[p]) > 0);
        assert(listed.contains(after[p]));
        let q = choose|q: int| 0 <= q < listed.len() && listed[q] == after[p];
        assert(listed[q].format_name == seeds[j].format_name@);
    }
}
} // verus!
