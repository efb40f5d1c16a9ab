//! Deletion tombstones of synced items: their keys, which ones are kept,
//! which stored items they remove, and the time a repaired item gets.
use vstd::prelude::*;
use vstd::multiset::*;
use vstd::seq_lib::*;
use crate::strs::{self, push_str, str_eq, string_from_str, trimmed_chars};
use crate::sync::{CloudGroup, CloudRecord, CloudRecordMeta, SyncTombstone, TimestampMap};

verus! {

broadcast use vstd::seq::group_seq_axioms;

pub const COLLECTION_HISTORY: &'static str = "history";
pub const COLLECTION_FAVORITES: &'static str = "favorites";
pub const COLLECTION_GROUPS: &'static str = "groups";

/// The group every favorite falls back to; it is never deleted.
pub open spec fn default_group_name() -> Seq<char> {
    "全部"@
}

/// The state key of a tombstone: `collection:item_id`.
pub open spec fn tombstone_key(collection: Seq<char>, item_id: Seq<char>) -> Seq<char> {
    collection + ":"@ + item_id
}

/// Within one collection, distinct items have distinct keys.
pub proof fn lemma_tombstone_key_injective(collection: Seq<char>, a: Seq<char>, b: Seq<char>)
    requires
        tombstone_key(collection, a) == tombstone_key(collection, b),
    ensures
        a == b,
{
    let p = collection + ":"@;
    assert(tombstone_key(collection, a) =~= p + a);
    assert(tombstone_key(collection, b) =~= p + b);
    assert((p + a).skip(p.len() as int) =~= a);
    assert((p + b).skip(p.len() as int) =~= b);
}

/// The state key of a tombstone; see `tombstone_key`.
pub fn tombstone_state_key(collection: &str, item_id: &str) -> (r: String)
    ensures
        r@ == tombstone_key(collection@, item_id@),
{
    let mut out = string_from_str(collection);
    push_str(&mut out, ":");
    push_str(&mut out, item_id);
    out
}

/// The time a repaired item is stored at: the latest of its own time, the
/// current time, and one past its tombstone (saturating).
pub open spec fn restored_time(updated_at: int, deleted_at: Option<i64>, now: int) -> int {
    let base = if updated_at >= now { updated_at } else { now };
    match deleted_at {
        Some(d) => {
            let after = if d == i64::MAX { d as int } else { d + 1 };
            if base >= after { base } else { after }
        },
        None => base,
    }
}

/// The current time in whole seconds since the Unix epoch
/// (`chrono::Local::now().timestamp()`); nothing is claimed of its value.
#[verifier::external_body]
pub(crate) fn now_secs() -> i64 {
    chrono::Local::now().timestamp()
}

/// The time a repaired item is stored at when the time is `now`; see
/// `restored_time`.
pub fn restored_updated_at_as_of(updated_at: i64, deleted_at: Option<i64>, now: i64) -> (r: i64)
    ensures
        r as int == restored_time(updated_at as int, deleted_at, now as int),
{
    let base = if updated_at >= now { updated_at } else { now };
    match deleted_at {
        Some(d) => {
            let after = if d == i64::MAX { d } else { d + 1 };
            if base >= after { base } else { after }
        },
        None => base,
    }
}

/// The time a repaired item is stored at, as of the current time in seconds;
/// see `restored_updated_at_as_of`.
pub fn restored_record_updated_at(updated_at: i64, deleted_at: Option<i64>) -> (r: i64)
    ensures
        exists|now: i64| r as int == restored_time(updated_at as int, deleted_at, now as int),
{
    let now = now_secs();
    restored_updated_at_as_of(updated_at, deleted_at, now)
}

/// A tombstone is recorded when its collection and item are not blank and it
/// is newer than the one already kept for the item.
pub fn accept_tombstone(collection: &str, item_id: &str, existing_deleted_at: Option<i64>, deleted_at: i64) -> (r: bool)
    ensures
        r == (strs::trim(collection@).len() > 0 && strs::trim(item_id@).len() > 0 && (match existing_deleted_at {
            Some(e) => deleted_at > e,
            None => true,
        })),
{
    if trimmed_chars(collection).len() == 0 || trimmed_chars(item_id).len() == 0 {
        return false;
    }
    match existing_deleted_at {
        Some(e) => deleted_at > e,
        None => true,
    }
}

/// A tombstone removes a stored item of a known collection that is not
/// newer than the deletion; the default group is never removed.
pub open spec fn deletes(collection: Seq<char>, item_id: Seq<char>, item_updated_at: int, deleted_at: int) -> bool {
    &&& (collection == "history"@ || collection == "favorites"@ || collection == "groups"@)
    &&& !(collection == "groups"@ && item_id == default_group_name())
    &&& item_updated_at <= deleted_at
}

/// Whether a tombstone removes the stored item; see `deletes`.
pub fn tombstone_deletes(collection: &str, item_id: &str, item_updated_at: i64, deleted_at: i64) -> (r: bool)
    ensures
        r == deletes(collection@, item_id@, item_updated_at as int, deleted_at as int),
{
    let known = str_eq(collection, "history") || str_eq(collection, "favorites") || str_eq(collection, "groups");
    let protected = str_eq(collection, "groups") && str_eq(item_id, "全部");
    known && !protected && item_updated_at <= deleted_at
}

/// An item survives the known tombstones when none is recorded for it or
/// it is newer than the deletion.
pub open spec fn survives(states: Map<Seq<char>, i64>, key: Seq<char>, updated_at: int) -> bool {
    !states.contains_key(key) || (states[key] as int) < updated_at
}

/// The record metas that survive the tombstones of `collection`, in order.
pub open spec fn metas_surviving(collection: Seq<char>, metas: Seq<CloudRecordMeta>, states: Map<Seq<char>, i64>) -> Seq<CloudRecordMeta>
    decreases metas.len(),
{
    if metas.len() == 0 {
        Seq::empty()
    } else {
        let rest = metas_surviving(collection, metas.drop_last(), states);
        let m = metas.last();
        if survives(states, tombstone_key(collection, m.uuid@), m.updated_at as int) {
            rest.push(m)
        } else {
            rest
        }
    }
}

/// The metas not deleted by the known tombstones; see `metas_surviving`.
pub fn filter_record_metas_not_deleted_by_states(collection: &str, metas: Vec<CloudRecordMeta>, states: &TimestampMap) -> (r: Vec<CloudRecordMeta>)
    ensures
        r@ == metas_surviving(collection@, metas@, states@),
{
    let ghost all = metas@;
    let n: usize = metas.len();
    let mut out: Vec<CloudRecordMeta> = Vec::new();
    let mut rest = metas;
    let mut i: usize = 0;
    while rest.len() > 0
        invariant
            i + rest@.len() == all.len(),
            all.len() == n,
            rest@ == all.skip(i as int),
            out@ == metas_surviving(collection@, all.take(i as int), states@),
        decreases rest@.len(),
    {
        let m = rest.remove(0);
        proof {
            assert(all.take(i + 1).drop_last() =~= all.take(i as int));
            assert(all[i as int] == m);
            assert(rest@ =~= all.skip(i + 1));
        }
        let key = tombstone_state_key(collection, m.uuid.as_str());
        let keep = match states.get(key.as_str()) {
            Some(d) => d < m.updated_at,
            None => true,
        };
        if keep {
            out.push(m);
        }
        i += 1;
    }
    assert(all.take(all.len() as int) =~= all);
    out
}

/// The records that survive the tombstones of `collection`, in order.
pub open spec fn records_surviving(collection: Seq<char>, records: Seq<CloudRecord>, states: Map<Seq<char>, i64>) -> Seq<CloudRecord>
    decreases records.len(),
{
    if records.len() == 0 {
        Seq::empty()
    } else {
        let rest = records_surviving(collection, records.drop_last(), states);
        let r = records.last();
        if survives(states, tombstone_key(collection, r.uuid@), r.updated_at as int) {
            rest.push(r)
        } else {
            rest
        }
    }
}

/// The records not deleted by the known tombstones; see `records_surviving`.
pub fn filter_records_not_deleted_by_states(collection: &str, records: Vec<CloudRecord>, states: &TimestampMap) -> (r: Vec<CloudRecord>)
    ensures
        r@ == records_surviving(collection@, records@, states@),
{
    let ghost all = records@;
    let n: usize = records.len();
    let mut out: Vec<CloudRecord> = Vec::new();
    let mut rest = records;
    let mut i: usize = 0;
    while rest.len() > 0
        invariant
            i + rest@.len() == all.len(),
            all.len() == n,
            rest@ == all.skip(i as int),
            out@ == records_surviving(collection@, all.take(i as int), states@),
        decreases rest@.len(),
    {
        let m = rest.remove(0);
        proof {
            assert(all.take(i + 1).drop_last() =~= all.take(i as int));
            assert(all[i as int] == m);
            assert(rest@ =~= all.skip(i + 1));
        }
        let key = tombstone_state_key(collection, m.uuid.as_str());
        let keep = match states.get(key.as_str()) {
            Some(d) => d < m.updated_at,
            None => true,
        };
        if keep {
            out.push(m);
        }
        i += 1;
    }
    assert(all.take(all.len() as int) =~= all);
    out
}

/// The groups that survive the group tombstones, in order.
pub open spec fn groups_surviving(groups: Seq<CloudGroup>, states: Map<Seq<char>, i64>) -> Seq<CloudGroup>
    decreases groups.len(),
{
    if groups.len() == 0 {
        Seq::empty()
    } else {
        let rest = groups_surviving(groups.drop_last(), states);
        let g = groups.last();
        if survives(states, tombstone_key("groups"@, g.name@), g.updated_at as int) {
            rest.push(g)
        } else {
            rest
        }
    }
}

/// The groups not deleted by the known tombstones; see `groups_surviving`.
pub fn filter_groups_not_deleted_by_states(groups: Vec<CloudGroup>, states: &TimestampMap) -> (r: Vec<CloudGroup>)
    ensures
        r@ == groups_surviving(groups@, states@),
{
    let ghost all = groups@;
    let n: usize = groups.len();
    let mut out: Vec<CloudGroup> = Vec::new();
    let mut rest = groups;
    let mut i: usize = 0;
    while rest.len() > 0
        invariant
            i + rest@.len() == all.len(),
            all.len() == n,
            rest@ == all.skip(i as int),
            out@ == groups_surviving(all.take(i as int), states@),
        decreases rest@.len(),
    {
        let g = rest.remove(0);
        proof {
            assert(all.take(i + 1).drop_last() =~= all.take(i as int));
            assert(all[i as int] == g);
            assert(rest@ =~= all.skip(i + 1));
        }
        let key = tombstone_state_key("groups", g.name.as_str());
        let keep = match states.get(key.as_str()) {
            Some(d) => d < g.updated_at,
            None => true,
        };
        if keep {
            out.push(g);
        }
        i += 1;
    }
    assert(all.take(all.len() as int) =~= all);
    out
}

/// Tombstones deleted after `since` (all without a bound).
pub open spec fn after_since(ts: Seq<SyncTombstone>, since: Option<i64>) -> Seq<SyncTombstone>
    decreases ts.len(),
{
    if ts.len() == 0 {
        Seq::empty()
    } else {
        let rest = after_since(ts.drop_last(), since);
        let t = ts.last();
        if since is None || t.deleted_at > since.unwrap() {
            rest.push(t)
        } else {
            rest
        }
    }
}

pub open spec fn sorted_by_deleted_at(s: Seq<SyncTombstone>) -> bool {
    forall|i: int, j: int| 0 <= i <= j < s.len() ==> s[i].deleted_at <= s[j].deleted_at
}

fn insert_sorted(out: &mut Vec<SyncTombstone>, t: SyncTombstone)
    requires
        sorted_by_deleted_at(old(out)@),
    ensures
        sorted_by_deleted_at(final(out)@),
        final(out)@.to_multiset() == old(out)@.to_multiset().insert(t),
{
    broadcast use to_multiset_insert;

    let mut k: usize = 0;
    while k < out.len() && out[k].deleted_at <= t.deleted_at
        invariant
            0 <= k <= out@.len(),
            forall|q: int| 0 <= q < k ==> out@[q].deleted_at <= t.deleted_at,
        decreases out@.len() - k,
    {
        k += 1;
    }
    let ghost before = out@;
    out.insert(k, t);
    proof {
        assert(out@ == before.insert(k as int, t));
        assert forall|i: int, j: int| 0 <= i <= j < out@.len() implies out@[i].deleted_at <= out@[j].deleted_at by {
            if j < k {
            } else if i > k {
                assert(out@[i] == before[i - 1]);
                assert(out@[j] == before[j - 1]);
            } else if i == k && j > k {
                assert(out@[j] == before[j - 1]);
                assert(before[k as int].deleted_at > t.deleted_at);
            } else if i < k && j >= k {
                if j > k {
                    assert(out@[j] == before[j - 1]);
                    assert(before[i].deleted_at <= before[j - 1].deleted_at);
                }
            }
        }
    }
}

/// The tombstones deleted after `since`, ordered by deletion time.
pub fn list_sync_tombstones_since(tombstones: Vec<SyncTombstone>, since_deleted_at: Option<i64>) -> (r: Vec<SyncTombstone>)
    ensures
        sorted_by_deleted_at(r@),
        r@.to_multiset() == after_since(tombstones@, since_deleted_at).to_multiset(),
{
    broadcast use group_multiset_axioms, to_multiset_build;

    let ghost all = tombstones@;
    let n: usize = tombstones.len();
    let mut out: Vec<SyncTombstone> = Vec::new();
    let mut rest = tombstones;
    let mut i: usize = 0;
    proof {
        assert(all.take(0) =~= Seq::<SyncTombstone>::empty());
        assert(out@ =~= Seq::<SyncTombstone>::empty());
    }
    while rest.len() > 0
        invariant
            i + rest@.len() == all.len(),
            all.len() == n,
            rest@ == all.skip(i as int),
            sorted_by_deleted_at(out@),
            out@.to_multiset() == after_since(all.take(i as int), since_deleted_at).to_multiset(),
        decreases rest@.len(),
    {
        let t = rest.remove(0);
        proof {
            assert(all.take(i + 1).drop_last() =~= all.take(i as int));
            assert(all[i as int] == t);
            assert(rest@ =~= all.skip(i + 1));
        }
        let keep = match since_deleted_at {
            None => true,
            Some(s) => t.deleted_at > s,
        };
        let ghost prev = after_since(all.take(i as int), since_deleted_at);
        if keep {
            insert_sorted(&mut out, t);
            proof {
                assert(after_since(all.take(i + 1), since_deleted_at) == prev.push(all[i as int]));
                to_multiset_build(prev, all[i as int]);
            }
        } else {
            proof {
                assert(after_since(all.take(i + 1), since_deleted_at) == prev);
            }
        }
        i += 1;
    }
    assert(all.take(all.len() as int) =~= all);
    out
}

} // verus!
