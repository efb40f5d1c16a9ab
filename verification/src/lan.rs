//! The LAN sync service: device identity, runtime status, snapshots and
//! record batches, and file-transfer progress. The HTTP server, discovery
//! and the database stay outside and hand their values in.
use vstd::prelude::*;
use crate::pairing::{self, current_pairing_code, is_uuid_v4_text, new_uuid_v4, refresh_pairing_code, resolve_device_id, LanRuntime, PairingCodeView};
use crate::peers::{self, list_peer_infos, list_peers, remove_peer, PairedPeer, PairedPeerInfo, PeerStore};
use crate::strs::{self, str_eq, string_from_str};
use crate::sync::{CloudGroup, CloudRecord, SyncTombstone, TimestampMap};
use crate::merge::{all_listed, groups_sorted, names_distinct, webdav_list_groups, ExistingGroupRow};
use crate::table::Table;
use crate::tombstones::{
    after_since, filter_groups_not_deleted_by_states, filter_records_not_deleted_by_states, groups_surviving, list_sync_tombstones_since,
    records_surviving, sorted_by_deleted_at,
};

verus! {

broadcast use vstd::seq::group_seq_axioms;

// ---------------------------------------------------------------------------
// Device identity
// ---------------------------------------------------------------------------

/// The device id of this installation, once it has been settled.
#[derive(Debug)]
pub struct DeviceIdentity {
    pub id: Option<String>,
}

impl DeviceIdentity {
    /// Nothing settled yet.
    pub fn new() -> (r: Self)
        ensures
            r.id is None,
    {
        DeviceIdentity { id: None }
    }
}

/// The id that settling picks: the stored id when it is not blank (trimmed),
/// else the legacy stored id, else a new random UUID v4.
pub open spec fn settled_id(id: Seq<char>, stored: Option<String>, legacy: Option<String>) -> bool {
    match (stored, legacy) {
        (Some(s), _) if strs::trim(s@).len() > 0 => id == strs::trim(s@),
        (_, Some(l)) if strs::trim(l@).len() > 0 => id == strs::trim(l@),
        _ => is_uuid_v4_text(id),
    }
}

/// Settles the device id from the stored values; the flag tells whether the
/// id must be written to the store under the current key.
pub fn load_or_create_device_id(stored: Option<String>, legacy: Option<String>) -> (r: (String, bool))
    ensures
        settled_id(r.0@, stored, legacy),
        r.1 == !(stored matches Some(s) && strs::trim(s@).len() > 0),
{
    let fresh = new_uuid_v4();
    resolve_device_id(stored, legacy, fresh)
}

/// A call of `device_id` took the identity from `old` to `new` and gave `r`:
/// a settled id is returned and kept; otherwise the id is settled from the
/// stored values (see `settled_id`) and kept from then on.
pub open spec fn device_id_call(
    old: DeviceIdentity,
    new: DeviceIdentity,
    stored: Option<String>,
    legacy: Option<String>,
    r: Seq<char>,
) -> bool {
    match old.id {
        Some(id) => r == id@ && new.id == old.id,
        None => settled_id(r, stored, legacy) && (new.id matches Some(id) && id@ == r),
    }
}

/// The device id: the settled one, or, the first time, the one settled from
/// the stored values, which is kept from then on; see `device_id_call`.
pub fn device_id(identity: &mut DeviceIdentity, stored: Option<String>, legacy: Option<String>) -> (r: String)
    ensures
        device_id_call(*old(identity), *final(identity), stored, legacy, r@),
{
    match &identity.id {
        Some(id) => id.clone(),
        None => {
            let (id, _) = load_or_create_device_id(stored, legacy);
            identity.id = Some(id.clone());
            id
        },
    }
}

/// No id is stored under the key, or only a blank one.
pub open spec fn nothing_stored(v: Option<String>) -> bool {
    !(v matches Some(s) && strs::trim(s@).len() > 0)
}

/// The device id settles once: starting from an empty identity with no id
/// stored under either key, the first call gives a new UUID v4 text, and a
/// later call, whatever it reads from the store, gives the same id and keeps
/// it.
pub proof fn law_device_id_settles_once(
    i0: DeviceIdentity,
    i1: DeviceIdentity,
    i2: DeviceIdentity,
    stored: Option<String>,
    legacy: Option<String>,
    later_stored: Option<String>,
    later_legacy: Option<String>,
    r1: Seq<char>,
    r2: Seq<char>,
)
    requires
        i0.id is None,
        nothing_stored(stored),
        nothing_stored(legacy),
        device_id_call(i0, i1, stored, legacy, r1),
        device_id_call(i1, i2, later_stored, later_legacy, r2),
    ensures
        is_uuid_v4_text(r1),
        r2 == r1,
        i2.id == i1.id,
{
}

// ---------------------------------------------------------------------------
// Runtime status
// ---------------------------------------------------------------------------

/// What the LAN page shows of the service.
#[derive(Debug)]
pub struct LanRuntimeStatus {
    pub device_id: String,
    pub device_name: String,
    pub http_port: u16,
    pub http_running: bool,
    pub discovery_running: bool,
    pub pairing_code: PairingCodeView,
    pub paired_count: usize,
}

/// The status of the service: the identity and server facts handed in, the
/// current pairing code, and how many distinct peers are paired.
pub fn status(
    runtime: &mut LanRuntime,
    store: &mut PeerStore,
    device_id: String,
    device_name: String,
    http_port: u16,
    http_running: bool,
    discovery_running: bool,
) -> (r: LanRuntimeStatus)
    ensures
        r.device_id@ == device_id@,
        r.device_name@ == device_name@,
        r.http_port == http_port,
        r.http_running == http_running,
        r.discovery_running == discovery_running,
        r.paired_count == peers::dedupe_spec(peers::stored_peers(*old(store))).len(),
        final(runtime).pairing_state matches Some(ns) && pairing::shows(r.pairing_code, ns),
{
    let pairing_code = current_pairing_code(runtime);
    let paired_count = list_peers(store).len();
    LanRuntimeStatus {
        device_id,
        device_name,
        http_port,
        http_running,
        discovery_running,
        pairing_code,
        paired_count,
    }
}

/// The service status; see `status`.
pub fn lan_status(
    runtime: &mut LanRuntime,
    store: &mut PeerStore,
    device_id: String,
    device_name: String,
    http_port: u16,
    http_running: bool,
    discovery_running: bool,
) -> (r: LanRuntimeStatus)
    ensures
        r.device_id@ == device_id@,
        r.http_port == http_port,
        r.http_running == http_running,
        r.discovery_running == discovery_running,
        r.paired_count == peers::dedupe_spec(peers::stored_peers(*old(store))).len(),
        final(runtime).pairing_state matches Some(ns) && pairing::shows(r.pairing_code, ns),
{
    status(runtime, store, device_id, device_name, http_port, http_running, discovery_running)
}

/// A new pairing code with full attempts; see `refresh_pairing_code`.
pub fn lan_refresh_pairing_code(runtime: &mut LanRuntime) -> (v: PairingCodeView)
    ensures
        final(runtime).pairing_state matches Some(ns) && ns.failed_attempts == 0 && pairing::fresh_challenge(ns.challenge)
            && v.pairing_code@ == ns.challenge.pairing_code@ && v.remaining_attempts == 5,
{
    refresh_pairing_code(runtime)
}

/// The paired peers without their tokens; see `list_peer_infos`.
pub fn lan_list_paired_peers(store: &mut PeerStore) -> (r: Vec<PairedPeerInfo>)
    ensures
        r@.len() == peers::dedupe_spec(peers::stored_peers(*old(store))).len(),
{
    list_peer_infos(store)
}

/// Forgets a paired peer; see `remove_peer`.
pub fn lan_remove_paired_peer(store: &mut PeerStore, device_id: &str) -> (r: Result<bool, String>)
    ensures
        ({
            let listed = peers::dedupe_spec(peers::stored_peers(*old(store)));
            let kept = peers::without_device(listed, device_id@);
            if kept.len() == listed.len() {
                r == Ok::<bool, String>(false)
            } else if old(store).ready {
                r == Ok::<bool, String>(true) && final(store).peers@ == kept
            } else {
                r matches Err(e) && e@ == peers::store_unavailable()
            }
        }),
{
    remove_peer(store, device_id)
}

// ---------------------------------------------------------------------------
// Snapshots and batches
// ---------------------------------------------------------------------------

/// What a peer knows: record and tombstone timestamps by id, and its groups.
#[derive(Debug)]
pub struct LanSyncSnapshot {
    pub device_id: String,
    pub history_states: TimestampMap,
    pub favorite_states: TimestampMap,
    pub groups: Vec<CloudGroup>,
    pub tombstone_states: TimestampMap,
}

#[derive(Debug)]
pub struct LanRecordBatch {
    pub collection: String,
    pub records: Vec<CloudRecord>,
}

#[derive(Debug)]
pub struct LanGroupBatch {
    pub groups: Vec<CloudGroup>,
}

#[derive(Debug)]
pub struct LanTombstoneBatch {
    pub tombstones: Vec<SyncTombstone>,
}

/// The snapshot of this device from its stored states.
pub fn snapshot(
    device_id: String,
    history_states: TimestampMap,
    favorite_states: TimestampMap,
    groups: Vec<CloudGroup>,
    tombstone_states: TimestampMap,
) -> (r: LanSyncSnapshot)
    ensures
        r.device_id@ == device_id@,
        r.history_states@ == history_states@,
        r.favorite_states@ == favorite_states@,
        r.groups@ == groups@,
        r.tombstone_states@ == tombstone_states@,
{
    LanSyncSnapshot { device_id, history_states, favorite_states, groups, tombstone_states }
}

/// The snapshot of this device; see `snapshot`.
pub fn lan_snapshot(
    device_id: String,
    history_states: TimestampMap,
    favorite_states: TimestampMap,
    groups: Vec<CloudGroup>,
    tombstone_states: TimestampMap,
) -> (r: LanSyncSnapshot)
    ensures
        r.device_id@ == device_id@,
        r.history_states@ == history_states@,
        r.favorite_states@ == favorite_states@,
        r.groups@ == groups@,
        r.tombstone_states@ == tombstone_states@,
{
    snapshot(device_id, history_states, favorite_states, groups, tombstone_states)
}

/// The groups offered to a peer: the stored groups as listed (see
/// `webdav_list_groups`), without those a tombstone deleted.
pub fn list_groups(device_id: &str, rows: &Table<ExistingGroupRow>, tombstone_states: &TimestampMap) -> (r: LanGroupBatch)
    ensures
        exists|listed: Seq<CloudGroup>|
            {
                &&& listed.len() == rows@.dom().len()
                &&& groups_sorted(listed)
                &&& names_distinct(listed)
                &&& all_listed(listed, rows@, device_id@)
                &&& forall|k: Seq<char>| #[trigger] rows@.contains_key(k) ==> exists|i: int| 0 <= i < listed.len() && listed[i].name@ == k
                &&& r.groups@ == groups_surviving(listed, tombstone_states@)
            },
{
    let listed = webdav_list_groups(device_id, rows);
    let ghost all = listed@;
    LanGroupBatch { groups: filter_groups_not_deleted_by_states(listed, tombstone_states) }
}

/// The tombstones deleted after `since`, ordered by deletion time; see
/// `list_sync_tombstones_since`.
pub fn list_tombstones_since(tombstones: Vec<SyncTombstone>, since_deleted_at: Option<i64>) -> (r: LanTombstoneBatch)
    ensures
        sorted_by_deleted_at(r.tombstones@),
        r.tombstones@.to_multiset() == after_since(tombstones@, since_deleted_at).to_multiset(),
{
    LanTombstoneBatch { tombstones: list_sync_tombstones_since(tombstones, since_deleted_at) }
}

/// The records updated after `since` (all of them without a bound), in order.
pub open spec fn updated_since(records: Seq<CloudRecord>, since: Option<i64>) -> Seq<CloudRecord>
    decreases records.len(),
{
    if records.len() == 0 {
        Seq::empty()
    } else {
        let rest = updated_since(records.drop_last(), since);
        let r = records.last();
        if since is None || r.updated_at > since.unwrap() {
            rest.push(r)
        } else {
            rest
        }
    }
}

fn records_since(records: Vec<CloudRecord>, since: Option<i64>) -> (r: Vec<CloudRecord>)
    ensures
        r@ == updated_since(records@, since),
{
    let ghost all = records@;
    let n: usize = records.len();
    let mut out: Vec<CloudRecord> = Vec::new();
    let mut rest = records;
    let mut i: usize = 0;
    while rest.len() > 0
        invariant
            i + rest@.len() == all.len(),
            all.len() == n,
            rest@ == all.skip(i as int),
            out@ == updated_since(all.take(i as int), since),
        decreases rest@.len(),
    {
        let r = rest.remove(0);
        proof {
            assert(all.take(i + 1).drop_last() =~= all.take(i as int));
            assert(all[i as int] == r);
            assert(rest@ =~= all.skip(i + 1));
        }
        let keep = match since {
            None => true,
            Some(s) => r.updated_at > s,
        };
        if keep {
            out.push(r);
        }
        i += 1;
    }
    assert(all.take(all.len() as int) =~= all);
    out
}

/// The history records updated after `since` that no tombstone deleted, as
/// a `history` batch.
pub fn list_history_records_since(
    records: Vec<CloudRecord>,
    since_updated_at: Option<i64>,
    tombstone_states: &TimestampMap,
) -> (r: LanRecordBatch)
    ensures
        r.collection@ == "history"@,
        r.records@ == records_surviving("history"@, updated_since(records@, since_updated_at), tombstone_states@),
{
    let recent = records_since(records, since_updated_at);
    LanRecordBatch {
        collection: string_from_str("history"),
        records: filter_records_not_deleted_by_states("history", recent, tombstone_states),
    }
}

/// The favorite records updated after `since` that no tombstone deleted, as
/// a `favorites` batch.
pub fn list_favorite_records_since(
    records: Vec<CloudRecord>,
    since_updated_at: Option<i64>,
    tombstone_states: &TimestampMap,
) -> (r: LanRecordBatch)
    ensures
        r.collection@ == "favorites"@,
        r.records@ == records_surviving("favorites"@, updated_since(records@, since_updated_at), tombstone_states@),
{
    let recent = records_since(records, since_updated_at);
    LanRecordBatch {
        collection: string_from_str("favorites"),
        records: filter_records_not_deleted_by_states("favorites", recent, tombstone_states),
    }
}

// ---------------------------------------------------------------------------
// File transfer
// ---------------------------------------------------------------------------

#[derive(Debug)]
pub struct FileTransferResult {
    pub saved: bool,
    pub path: String,
    pub size: u64,
    pub sha256: Option<String>,
}

/// One progress event of a file sent to a peer.
#[derive(Debug)]
pub struct FileTransferProgress {
    pub transfer_id: String,
    pub device_id: String,
    pub file_path: String,
    pub file_name: String,
    pub sent_bytes: u64,
    pub total_bytes: u64,
    pub status: String,
}

/// The fixed facts of one transfer, from which each progress event is made.
#[derive(Debug)]
pub struct FileTransferProgressReporter {
    transfer_id: String,
    device_id: String,
    file_path: String,
    file_name: String,
    total_bytes: u64,
}

impl FileTransferProgressReporter {
    pub closed spec fn transfer_id_view(&self) -> Seq<char> {
        self.transfer_id@
    }

    pub closed spec fn device_id_view(&self) -> Seq<char> {
        self.device_id@
    }

    pub closed spec fn file_path_view(&self) -> Seq<char> {
        self.file_path@
    }

    pub closed spec fn file_name_view(&self) -> Seq<char> {
        self.file_name@
    }

    pub closed spec fn total_bytes_view(&self) -> u64 {
        self.total_bytes
    }

    /// A reporter for one transfer.
    pub fn new(transfer_id: String, device_id: String, file_path: String, file_name: String, total_bytes: u64) -> (r: Self)
        ensures
            r.transfer_id_view() == transfer_id@,
            r.device_id_view() == device_id@,
            r.file_path_view() == file_path@,
            r.file_name_view() == file_name@,
            r.total_bytes_view() == total_bytes,
    {
        FileTransferProgressReporter { transfer_id, device_id, file_path, file_name, total_bytes }
    }

    /// The progress event for `status` after `sent_bytes` bytes: the
    /// transfer's fixed facts with these two.
    pub fn emit(&self, status: &str, sent_bytes: u64) -> (e: FileTransferProgress)
        ensures
            e.transfer_id@ == self.transfer_id_view(),
            e.device_id@ == self.device_id_view(),
            e.file_path@ == self.file_path_view(),
            e.file_name@ == self.file_name_view(),
            e.sent_bytes == sent_bytes,
            e.total_bytes == self.total_bytes_view(),
            e.status@ == status@,
    {
        FileTransferProgress {
            transfer_id: self.transfer_id.clone(),
            device_id: self.device_id.clone(),
            file_path: self.file_path.clone(),
            file_name: self.file_name.clone(),
            sent_bytes,
            total_bytes: self.total_bytes,
            status: string_from_str(status),
        }
    }
}

/// The id of a transfer: the one given, else `<device_id>:<file_path>`.
pub fn transfer_id_or_default(transfer_id: Option<String>, device_id: &str, file_path: &str) -> (r: String)
    ensures
        transfer_id matches Some(t) ==> r@ == t@,
        transfer_id is None ==> r@ == device_id@ + ":"@ + file_path@,
{
    match transfer_id {
        Some(t) => t,
        None => {
            let mut out = string_from_str(device_id);
            strs::push_str(&mut out, ":");
            strs::push_str(&mut out, file_path);
            out
        },
    }
}

pub open spec fn msg_peer_not_found() -> Seq<char> {
    "未找到已配对设备"@
}

/// The first paired peer with this device id, or the not-paired error.
pub fn find_paired_peer(peers: &[PairedPeer], device_id: &str) -> (r: Result<PairedPeer, String>)
    ensures
        (exists|i: int| 0 <= i < peers@.len() && peers@[i].device_id@ == device_id@) ==> (r matches Ok(p)
            && exists|i: int| 0 <= i < peers@.len() && peers@[i].device_id@ == device_id@
                && (forall|j: int| 0 <= j < i ==> peers@[j].device_id@ != device_id@) && p == peers@[i]),
        !(exists|i: int| 0 <= i < peers@.len() && peers@[i].device_id@ == device_id@) ==> (r matches Err(e)
            && e@ == msg_peer_not_found()),
{
    let mut i: usize = 0;
    while i < peers.len()
        invariant
            0 <= i <= peers@.len(),
            forall|j: int| 0 <= j < i ==> peers@[j].device_id@ != device_id@,
        decreases peers@.len() - i,
    {
        if str_eq(peers[i].device_id.as_str(), device_id) {
            let p = peers[i].duplicate();
            return Ok(p);
        }
        i += 1;
    }
    Err(string_from_str("未找到已配对设备"))
}

} // verus!
