//! The kept deletion tombstones, one per item and keyed `collection:item_id`:
//! a deletion is recorded only when it is newer than the one kept, so the
//! kept deletion time of an item never goes back.
use vstd::prelude::*;
use crate::strs::{self, string_from_str};
use crate::sync::{SyncTombstone, TimestampMap};
use crate::table::Table;
use crate::tombstones::{accept_tombstone, tombstone_key, tombstone_state_key};

verus! {

/// A tombstone as plain values: collection, item id, source device,
/// deletion time and creation time.
pub type TombstoneView = (Seq<char>, Seq<char>, Seq<char>, i64, i64);

impl View for SyncTombstone {
    type V = TombstoneView;

    open spec fn view(&self) -> TombstoneView {
        (self.collection@, self.item_id@, self.source_device_id@, self.deleted_at, self.created_at)
    }
}

/// Whether a deletion of `item_id` in `collection` at `deleted_at` is kept,
/// given the kept deletion times: neither name is blank, and it is newer than
/// the deletion kept for the item.
pub open spec fn takes(kept: Map<Seq<char>, i64>, collection: Seq<char>, item_id: Seq<char>, deleted_at: i64) -> bool {
    let key = tombstone_key(collection, item_id);
    &&& strs::trim(collection).len() > 0
    &&& strs::trim(item_id).len() > 0
    &&& kept.contains_key(key) ==> deleted_at > kept[key]
}

/// The tombstone stored for a deletion: created at its deletion time.
pub open spec fn tombstone_of(collection: Seq<char>, item_id: Seq<char>, source_device_id: Seq<char>, deleted_at: i64) -> TombstoneView {
    (collection, item_id, source_device_id, deleted_at, deleted_at)
}

/// The deletion time of each kept tombstone.
pub open spec fn deleted_times(entries: Map<Seq<char>, TombstoneView>) -> Map<Seq<char>, i64> {
    entries.map_values(|t: TombstoneView| t.3)
}

/// The kept deletion times after recording each of `ts` in turn.
pub open spec fn upserted_times(kept: Map<Seq<char>, i64>, ts: Seq<SyncTombstone>) -> Map<Seq<char>, i64>
    decreases ts.len(),
{
    if ts.len() == 0 {
        kept
    } else {
        let t = ts.last();
        let before = upserted_times(kept, ts.drop_last());
        if takes(before, t.collection@, t.item_id@, t.deleted_at) {
            before.insert(tombstone_key(t.collection@, t.item_id@), t.deleted_at)
        } else {
            before
        }
    }
}

/// The kept tombstones after recording each of `ts` in turn.
pub open spec fn upserted_entries(kept: Map<Seq<char>, i64>, entries: Map<Seq<char>, TombstoneView>, ts: Seq<SyncTombstone>) -> Map<
    Seq<char>,
    TombstoneView,
>
    decreases ts.len(),
{
    if ts.len() == 0 {
        entries
    } else {
        let t = ts.last();
        let before = upserted_entries(kept, entries, ts.drop_last());
        if takes(upserted_times(kept, ts.drop_last()), t.collection@, t.item_id@, t.deleted_at) {
            before.insert(
                tombstone_key(t.collection@, t.item_id@),
                tombstone_of(t.collection@, t.item_id@, t.source_device_id@, t.deleted_at),
            )
        } else {
            before
        }
    }
}

/// The tombstones of `ts` that were taken, in order.
pub open spec fn upsert_changed(kept: Map<Seq<char>, i64>, ts: Seq<SyncTombstone>) -> Seq<SyncTombstone>
    decreases ts.len(),
{
    if ts.len() == 0 {
        Seq::empty()
    } else {
        let t = ts.last();
        let rest = upsert_changed(kept, ts.drop_last());
        if takes(upserted_times(kept, ts.drop_last()), t.collection@, t.item_id@, t.deleted_at) {
            rest.push(t)
        } else {
            rest
        }
    }
}

/// Tombstones were only forgotten: each one still kept is kept unchanged.
pub open spec fn only_removed(before: Map<Seq<char>, TombstoneView>, after: Map<Seq<char>, TombstoneView>) -> bool {
    forall|k: Seq<char>| #[trigger] after.contains_key(k) ==> before.contains_key(k) && after[k] == before[k]
}

/// The kept tombstones, seen as the deletion time of each key; `entries`
/// gives the whole tombstones.
#[derive(Debug)]
pub struct TombstoneStore {
    table: Table<SyncTombstone>,
}

impl View for TombstoneStore {
    type V = Map<Seq<char>, i64>;

    closed spec fn view(&self) -> Map<Seq<char>, i64> {
        deleted_times(self.table@)
    }
}

impl TombstoneStore {
    /// The kept tombstones by key.
    pub closed spec fn entries(&self) -> Map<Seq<char>, TombstoneView> {
        self.table@
    }

    /// The deletion times are those of the kept tombstones.
    pub proof fn lemma_deleted_times(&self)
        ensures
            self@ == deleted_times(self.entries()),
    {
    }

    /// A store that keeps no tombstone.
    pub fn new() -> (s: Self)
        ensures
            s@ == Map::<Seq<char>, i64>::empty(),
            s.entries() == Map::<Seq<char>, TombstoneView>::empty(),
    {
        let s = TombstoneStore { table: Table::new() };
        assert(s@ =~= Map::<Seq<char>, i64>::empty());
        s
    }

    /// The number of kept tombstones.
    pub fn len(&self) -> (n: usize)
        ensures
            self@.dom().finite(),
            n == self@.dom().len(),
    {
        let n = self.table.len();
        assert(self@.dom() =~= self.table@.dom());
        n
    }

    /// The deletion time kept under `key`, if any.
    pub fn get(&self, key: &str) -> (r: Option<i64>)
        ensures
            r == (if self@.contains_key(key@) { Some(self@[key@]) } else { None::<i64> }),
    {
        match self.table.get(key) {
            Some(t) => Some(t.deleted_at),
            None => None,
        }
    }

    /// Forgets the tombstone kept under `key`.
    pub fn remove(&mut self, key: &str)
        ensures
            final(self)@ == old(self)@.remove(key@),
            final(self).entries() == old(self).entries().remove(key@),
    {
        self.table.remove(key);
        assert(self@ =~= old(self)@.remove(key@));
    }

    /// Records the deletion of `item_id` in `collection` at `deleted_at`
    /// by `source_device_id`, unless a name is blank or the kept deletion of
    /// the item is as new; says whether it was recorded.
    pub fn record_sync_tombstone(&mut self, collection: &str, item_id: &str, source_device_id: &str, deleted_at: i64) -> (changed: bool)
        ensures
            changed == takes(old(self)@, collection@, item_id@, deleted_at),
            final(self)@ == (if changed {
                old(self)@.insert(tombstone_key(collection@, item_id@), deleted_at)
            } else {
                old(self)@
            }),
            final(self).entries() == (if changed {
                old(self).entries().insert(
                    tombstone_key(collection@, item_id@),
                    tombstone_of(collection@, item_id@, source_device_id@, deleted_at),
                )
            } else {
                old(self).entries()
            }),
    {
        let key = tombstone_state_key(collection, item_id);
        let kept = self.get(key.as_str());
        if accept_tombstone(collection, item_id, kept, deleted_at) {
            let t = SyncTombstone {
                collection: string_from_str(collection),
                item_id: string_from_str(item_id),
                source_device_id: string_from_str(source_device_id),
                deleted_at,
                created_at: deleted_at,
            };
            self.table.insert(key, t);
            assert(self@ =~= old(self)@.insert(tombstone_key(collection@, item_id@), deleted_at));
            true
        } else {
            false
        }
    }

    /// Records each of `tombstones` in turn and returns those recorded.
    pub fn upsert_sync_tombstones(&mut self, tombstones: &[SyncTombstone]) -> (changed: Vec<SyncTombstone>)
        ensures
            final(self)@ == upserted_times(old(self)@, tombstones@),
            final(self).entries() == upserted_entries(old(self)@, old(self).entries(), tombstones@),
            changed@ == upsert_changed(old(self)@, tombstones@),
    {
        let ghost start = self@;
        let ghost start_entries = self.entries();
        let mut changed: Vec<SyncTombstone> = Vec::new();
        let mut i: usize = 0;
        while i < tombstones.len()
            invariant
                i <= tombstones@.len(),
                self@ == upserted_times(start, tombstones@.take(i as int)),
                self.entries() == upserted_entries(start, start_entries, tombstones@.take(i as int)),
                changed@ == upsert_changed(start, tombstones@.take(i as int)),
            decreases tombstones@.len() - i,
        {
            proof {
                assert(tombstones@.take(i as int + 1).drop_last() =~= tombstones@.take(i as int));
            }
            let t = &tombstones[i];
            if self.record_sync_tombstone(t.collection.as_str(), t.item_id.as_str(), t.source_device_id.as_str(), t.deleted_at) {
                changed.push(
                    SyncTombstone {
                        collection: t.collection.clone(),
                        item_id: t.item_id.clone(),
                        source_device_id: t.source_device_id.clone(),
                        deleted_at: t.deleted_at,
                        created_at: t.created_at,
                    },
                );
            }
            i = i + 1;
        }
        proof {
            assert(tombstones@.take(tombstones@.len() as int) =~= tombstones@);
        }
        changed
    }

    /// The deletion time kept for `item_id` in `collection`, if any.
    pub fn tombstone_deleted_at(&self, collection: &str, item_id: &str) -> (r: Option<i64>)
        ensures
            r == (if self@.contains_key(tombstone_key(collection@, item_id@)) {
                Some(self@[tombstone_key(collection@, item_id@)])
            } else {
                None::<i64>
            }),
    {
        let key = tombstone_state_key(collection, item_id);
        self.get(key.as_str())
    }

    /// The kept tombstone of `item_id` in `collection`, if any.
    pub fn tombstone(&self, collection: &str, item_id: &str) -> (r: Option<&SyncTombstone>)
        ensures
            match r {
                Some(t) => self.entries().contains_key(tombstone_key(collection@, item_id@)) && t@ == self.entries()[tombstone_key(
                    collection@,
                    item_id@,
                )],
                None => !self.entries().contains_key(tombstone_key(collection@, item_id@)),
            },
    {
        let key = tombstone_state_key(collection, item_id);
        self.table.get(key.as_str())
    }

    /// The keys of the kept tombstones, in the order they are held.
    pub closed spec fn keys(&self) -> Seq<Seq<char>> {
        self.table.key_seq()
    }

    /// Every kept tombstone once, in the order of `keys`.
    pub fn tombstones(&self) -> (r: Vec<SyncTombstone>)
        ensures
            r@.len() == self.keys().len(),
            forall|i: int, j: int| 0 <= i < j < r@.len() ==> self.keys()[i] != self.keys()[j],
            forall|i: int| 0 <= i < r@.len() ==> self.entries().contains_key(#[trigger] self.keys()[i]) && r@[i]@
                == self.entries()[self.keys()[i]],
            forall|k: Seq<char>| #[trigger] self.entries().contains_key(k) ==> exists|i: int|
                0 <= i < r@.len() && self.keys()[i] == k,
    {
        let n = self.table.len();
        let mut out: Vec<SyncTombstone> = Vec::new();
        let mut i: usize = 0;
        while i < n
            invariant
                i <= n,
                n == self.table.key_seq().len(),
                out@.len() == i,
                forall|a: int| 0 <= a < n ==> self.table@.contains_key(#[trigger] self.table.key_seq()[a]),
                forall|a: int| 0 <= a < i ==> (#[trigger] out@[a])@ == self.table@[self.table.key_seq()[a]],
            decreases n - i,
        {
            let (_, t) = self.table.entry(i);
            out.push(
                SyncTombstone {
                    collection: t.collection.clone(),
                    item_id: t.item_id.clone(),
                    source_device_id: t.source_device_id.clone(),
                    deleted_at: t.deleted_at,
                    created_at: t.created_at,
                },
            );
            i = i + 1;
        }
        out
    }

    /// The kept deletion time of each key, as peers compare them.
    pub fn sync_tombstone_states(&self) -> (r: TimestampMap)
        ensures
            r@ == self@,
    {
        let n = self.table.len();
        let mut out = TimestampMap::new();
        let mut i: usize = 0;
        while i < n
            invariant
                i <= n,
                n == self.table.key_seq().len(),
                forall|a: int, b: int| 0 <= a < b < n ==> self.table.key_seq()[a] != self.table.key_seq()[b],
                forall|a: int| 0 <= a < n ==> self.table@.contains_key(#[trigger] self.table.key_seq()[a]),
                forall|k: Seq<char>| #[trigger] self.table@.contains_key(k) ==> exists|a: int|
                    0 <= a < n && self.table.key_seq()[a] == k,
                forall|k: Seq<char>| #[trigger] out@.contains_key(k) <==> exists|a: int|
                    0 <= a < i && self.table.key_seq()[a] == k,
                forall|k: Seq<char>| #[trigger] out@.contains_key(k) ==> out@[k] == self.table@[k].3,
            decreases n - i,
        {
            let (k, t) = self.table.entry(i);
            let ghost key = k@;
            out.insert(k.clone(), t.deleted_at);
            proof {
                assert(self.table.key_seq()[i as int] == key);
                assert forall|q: Seq<char>| #[trigger] out@.contains_key(q) <==> exists|a: int|
                    0 <= a < i + 1 && self.table.key_seq()[a] == q by {
                    if q == key {
                        assert(self.table.key_seq()[i as int] == q);
                    }
                }
            }
            i = i + 1;
        }
        proof {
            assert forall|k: Seq<char>| true implies (#[trigger] out@.contains_key(k)) == self.table@.contains_key(k) by {
                if self.table@.contains_key(k) {
                    let a = choose|a: int| 0 <= a < n && self.table.key_seq()[a] == k;
                    assert(out@.contains_key(self.table.key_seq()[a]));
                }
            }
            assert(out@ =~= self@);
        }
        out
    }
}

/// Recording a deletion never loses a kept tombstone nor moves its deletion
/// time back, and one that is not taken changes nothing.
pub proof fn law_tombstone_record_monotonic(kept: Map<Seq<char>, i64>, collection: Seq<char>, item_id: Seq<char>, deleted_at: i64)
    ensures
        ({
            let after = if takes(kept, collection, item_id, deleted_at) {
                kept.insert(tombstone_key(collection, item_id), deleted_at)
            } else {
                kept
            };
            forall|k: Seq<char>| #[trigger] kept.contains_key(k) ==> after.contains_key(k) && after[k] >= kept[k]
        }),
{
}

/// Recording a batch of deletions never loses a kept tombstone nor moves its
/// deletion time back.
pub proof fn law_tombstone_upsert_monotonic(kept: Map<Seq<char>, i64>, ts: Seq<SyncTombstone>)
    ensures
        forall|k: Seq<char>| #[trigger] kept.contains_key(k) ==> upserted_times(kept, ts).contains_key(k)
            && upserted_times(kept, ts)[k] >= kept[k],
    decreases ts.len(),
{
    if ts.len() > 0 {
        law_tombstone_upsert_monotonic(kept, ts.drop_last());
        let mid = upserted_times(kept, ts.drop_last());
        assert forall|k: Seq<char>| #[trigger] kept.contains_key(k) implies upserted_times(kept, ts).contains_key(k)
            && upserted_times(kept, ts)[k] >= kept[k] by {
            assert(mid.contains_key(k));
        }
    }
}

} // verus!
