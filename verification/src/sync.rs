//! Sync and transfer data model: cloud records and groups, sync modes,
//! chunk layout, and the push plans that pick what is newer than the remote.
use vstd::prelude::*;
use crate::table::Table;
use crate::strs::{self, push_char, push_chars, push_dec_padded, push_str, string_from_str, trimmed_chars};

verus! {

broadcast use vstd::seq::group_seq_axioms;

/// Records per cloud chunk file.
pub const CHUNK_RECORD_LIMIT: usize = 500;

// ---------------------------------------------------------------------------
// Sync modes
// ---------------------------------------------------------------------------

/// Working modes of the sync/transfer entry.
#[derive(Debug, Clone, Copy, PartialEq, Eq, Structural)]
pub enum SyncMode {
    WebDav,
    Lan,
}

/// Concrete transport backends.
#[derive(Debug, Clone, Copy, PartialEq, Eq, Structural)]
pub enum TransferBackend {
    WebDavStore,
    LanHttp,
}

/// Capabilities opened on the sync/transfer page.
#[derive(Debug, Clone, Copy, PartialEq, Eq, Structural)]
pub enum SyncTransferFeature {
    Records,
    Files,
}

#[derive(Debug)]
pub struct SyncTransferModeInfo {
    pub mode: SyncMode,
    pub backend: TransferBackend,
    pub features: Vec<SyncTransferFeature>,
    pub available: bool,
}

/// The two offered modes: WebDAV over the WebDAV store and LAN over HTTP,
/// each with records and files, both available.
pub fn mode_infos() -> (r: Vec<SyncTransferModeInfo>)
    ensures
        r@.len() == 2,
        r@[0].mode == SyncMode::WebDav,
        r@[0].backend == TransferBackend::WebDavStore,
        r@[0].features@ == seq![SyncTransferFeature::Records, SyncTransferFeature::Files],
        r@[0].available,
        r@[1].mode == SyncMode::Lan,
        r@[1].backend == TransferBackend::LanHttp,
        r@[1].features@ == seq![SyncTransferFeature::Records, SyncTransferFeature::Files],
        r@[1].available,
{
    let mut f0: Vec<SyncTransferFeature> = Vec::new();
    f0.push(SyncTransferFeature::Records);
    f0.push(SyncTransferFeature::Files);
    let mut f1: Vec<SyncTransferFeature> = Vec::new();
    f1.push(SyncTransferFeature::Records);
    f1.push(SyncTransferFeature::Files);
    let mut r: Vec<SyncTransferModeInfo> = Vec::new();
    r.push(SyncTransferModeInfo { mode: SyncMode::WebDav, backend: TransferBackend::WebDavStore, features: f0, available: true });
    r.push(SyncTransferModeInfo { mode: SyncMode::Lan, backend: TransferBackend::LanHttp, features: f1, available: true });
    assert(r@[0].features@ =~= seq![SyncTransferFeature::Records, SyncTransferFeature::Files]);
    assert(r@[1].features@ =~= seq![SyncTransferFeature::Records, SyncTransferFeature::Files]);
    r
}

// ---------------------------------------------------------------------------
// Timestamps keyed by text
// ---------------------------------------------------------------------------

/// A map from text keys to timestamps (the remote states of a sync peer, or
/// the deletion tombstones of a collection).
#[derive(Debug)]
pub struct TimestampMap {
    table: Table<i64>,
}

impl View for TimestampMap {
    type V = Map<Seq<char>, i64>;

    closed spec fn view(&self) -> Map<Seq<char>, i64> {
        self.table@
    }
}

impl TimestampMap {
    /// An empty map.
    pub fn new() -> (m: Self)
        ensures
            m@ == Map::<Seq<char>, i64>::empty(),
    {
        TimestampMap { table: Table::new() }
    }

    /// Sets the timestamp of `key`.
    pub fn insert(&mut self, key: String, value: i64)
        ensures
            final(self)@ == old(self)@.insert(key@, value),
    {
        self.table.insert(key, value);
    }

    /// The number of keys.
    pub fn len(&self) -> (n: usize)
        ensures
            self@.dom().finite(),
            n == self@.dom().len(),
    {
        self.table.len()
    }

    /// Forgets the timestamp of `key`.
    pub fn remove(&mut self, key: &str)
        ensures
            final(self)@ == old(self)@.remove(key@),
    {
        self.table.remove(key);
    }

    /// The timestamp of `key`, if any.
    pub fn get(&self, key: &str) -> (r: Option<i64>)
        ensures
            r == (if self@.contains_key(key@) { Some(self@[key@]) } else { None::<i64> }),
    {
        match self.table.get(key) {
            Some(v) => Some(*v),
            None => None,
        }
    }
}

// ---------------------------------------------------------------------------
// Cloud data model
// ---------------------------------------------------------------------------

#[derive(Debug)]
pub struct WebdavConfig {
    pub url: String,
    pub username: String,
    pub password: String,
    pub root_path: String,
}

#[derive(Debug)]
pub struct WebdavStatus {
    pub enabled: bool,
    pub configured: bool,
    pub auto_push: bool,
    pub auto_pull: bool,
    pub running: bool,
}

#[derive(Debug)]
pub struct SyncReportItem {
    pub category: String,
    pub id: String,
    pub summary: String,
    pub source_device_id: String,
    pub updated_at: i64,
}

#[derive(Debug)]
pub struct SyncReport {
    pub pushed: u32,
    pub pulled: u32,
    pub errors: Vec<String>,
    pub pushed_clipboard: u32,
    pub pushed_favorites: u32,
    pub pushed_groups: u32,
    pub pulled_clipboard: u32,
    pub pulled_favorites: u32,
    pub pulled_groups: u32,
    pub pushed_items: Vec<SyncReportItem>,
    pub pulled_items: Vec<SyncReportItem>,
}

impl SyncReport {
    /// The zeroed report.
    pub fn empty() -> (r: Self)
        ensures
            r.pushed == 0 && r.pulled == 0,
            r.errors@.len() == 0,
            r.pushed_clipboard == 0 && r.pushed_favorites == 0 && r.pushed_groups == 0,
            r.pulled_clipboard == 0 && r.pulled_favorites == 0 && r.pulled_groups == 0,
            r.pushed_items@.len() == 0 && r.pulled_items@.len() == 0,
    {
        SyncReport {
            pushed: 0,
            pulled: 0,
            errors: Vec::new(),
            pushed_clipboard: 0,
            pushed_favorites: 0,
            pushed_groups: 0,
            pulled_clipboard: 0,
            pulled_favorites: 0,
            pulled_groups: 0,
            pushed_items: Vec::new(),
            pulled_items: Vec::new(),
        }
    }
}

#[derive(Debug)]
pub struct SyncIndexEntry {
    pub chunk: u32,
    pub updated_at: i64,
    pub source_device_id: String,
}

/// Which chunk holds each record, and the next chunk number.
#[derive(Debug)]
pub struct SyncIndex {
    pub entries: Vec<(String, SyncIndexEntry)>,
    pub next_chunk: u32,
}

#[derive(Debug)]
pub struct CloudRecord {
    pub uuid: String,
    pub source_device_id: String,
    pub is_remote: bool,
    pub content: String,
    pub html_content: Option<String>,
    pub content_type: String,
    pub image_id: Option<String>,
    pub source_app: Option<String>,
    pub source_icon_hash: Option<String>,
    pub char_count: Option<i64>,
    pub title: String,
    pub group_name: String,
    pub item_order: i64,
    pub paste_count: i64,
    pub created_at: i64,
    pub updated_at: i64,
}

/// One chunk file of cloud records, keyed by record id.
#[derive(Debug)]
pub struct RecordChunk {
    pub records: Vec<(String, CloudRecord)>,
}

#[derive(Debug)]
pub struct CloudRecordMeta {
    pub uuid: String,
    pub updated_at: i64,
    pub image_id: Option<String>,
}

#[derive(Debug)]
pub struct CloudGroup {
    pub name: String,
    pub icon: String,
    pub color: String,
    pub order: i32,
    pub source_device_id: String,
    pub created_at: i64,
    pub updated_at: i64,
}

#[derive(Debug)]
pub struct GroupList {
    pub groups: Vec<CloudGroup>,
}

/// A record of a deletion, kept so that peers do not resurrect the item.
#[derive(Debug)]
pub struct SyncTombstone {
    pub collection: String,
    pub item_id: String,
    pub source_device_id: String,
    pub deleted_at: i64,
    pub created_at: i64,
}

#[derive(Debug)]
pub struct TombstoneList {
    pub tombstones: Vec<SyncTombstone>,
}

#[derive(Debug)]
pub struct ImageFileIndexEntry {
    pub uploaded_at: i64,
}

#[derive(Debug)]
pub struct ImageFileIndex {
    pub images: Vec<(String, ImageFileIndexEntry)>,
}

#[derive(Debug, Clone, Copy, PartialEq, Eq, Structural)]
pub enum SyncCollection {
    History,
    Favorites,
}

/// Directory name of a collection.
pub open spec fn collection_dir(c: SyncCollection) -> Seq<char> {
    match c {
        SyncCollection::History => "history"@,
        SyncCollection::Favorites => "favorites"@,
    }
}

impl SyncCollection {
    /// `history` or `favorites`.
    pub fn dir(self) -> (r: &'static str)
        ensures
            r@ == collection_dir(self),
    {
        match self {
            SyncCollection::History => "history",
            SyncCollection::Favorites => "favorites",
        }
    }
}

/// Path of a chunk file: `<dir>/chunks/chunk_<nnn>.json`, the chunk number
/// zero-padded to three digits.
pub fn chunk_path(collection: SyncCollection, chunk: u32) -> (r: String)
    ensures
        r@ == collection_dir(collection) + "/chunks/chunk_"@ + strs::zero_pad(strs::dec(chunk as nat), 3)
            + ".json"@,
{
    let mut r = String::new();
    push_str(&mut r, collection.dir());
    push_str(&mut r, "/chunks/chunk_");
    push_dec_padded(&mut r, chunk as u64, 3);
    push_str(&mut r, ".json");
    assert(r@ =~= collection_dir(collection) + "/chunks/chunk_"@ + strs::zero_pad(strs::dec(chunk as nat), 3)
        + ".json"@);
    r
}

/// The record summary: the trimmed title, or the trimmed content when the
/// title is blank, cut to 40 characters with `…` when longer.
pub open spec fn record_summary(title: Seq<char>, content: Seq<char>) -> Seq<char> {
    let raw = if strs::trim(title).len() > 0 { strs::trim(title) } else { strs::trim(content) };
    if raw.len() > 40 {
        raw.take(40).push('…')
    } else {
        raw
    }
}

fn summarize_record(record: &CloudRecord) -> (r: String)
    ensures
        r@ == record_summary(record.title@, record.content@),
{
    let t = trimmed_chars(record.title.as_str());
    let raw = if t.len() > 0 {
        t
    } else {
        trimmed_chars(record.content.as_str())
    };
    let mut r = String::new();
    if raw.len() > 40 {
        push_chars(&mut r, &raw, 0, 40);
        push_char(&mut r, '…');
        assert(r@ =~= raw@.take(40).push('…'));
    } else {
        push_chars(&mut r, &raw, 0, raw.len());
        assert(r@ =~= raw@);
    }
    r
}

impl CloudRecord {
    /// The report line for this record in `category`.
    pub fn report_item(&self, category: &str) -> (r: SyncReportItem)
        ensures
            r.category@ == category@,
            r.id@ == self.uuid@,
            r.summary@ == record_summary(self.title@, self.content@),
            r.source_device_id@ == self.source_device_id@,
            r.updated_at == self.updated_at,
    {
        SyncReportItem {
            category: string_from_str(category),
            id: self.uuid.clone(),
            summary: summarize_record(self),
            source_device_id: self.source_device_id.clone(),
            updated_at: self.updated_at,
        }
    }
}

// ---------------------------------------------------------------------------
// Push plans
// ---------------------------------------------------------------------------

/// A local record is pushed when its id is not blank and the remote has no
/// state for it or an older one.
pub open spec fn record_newer(m: CloudRecordMeta, remote: Map<Seq<char>, i64>) -> bool {
    strs::trim(m.uuid@).len() > 0 && (remote.contains_key(m.uuid@) ==> m.updated_at > remote[m.uuid@])
}

/// Update times of the remote groups by name, later duplicates winning.
pub open spec fn group_states(remote: Seq<CloudGroup>) -> Map<Seq<char>, i64>
    decreases remote.len(),
{
    if remote.len() == 0 {
        Map::empty()
    } else {
        group_states(remote.drop_last()).insert(remote.last().name@, remote.last().updated_at)
    }
}

/// A local group is pushed when its name is not blank and the remote has no
/// group of that name or an older one.
pub open spec fn group_newer(g: CloudGroup, remote: Map<Seq<char>, i64>) -> bool {
    strs::trim(g.name@).len() > 0 && (remote.contains_key(g.name@) ==> g.updated_at > remote[g.name@])
}

/// The local records that are newer than the remote states, in input order.
pub fn record_metas_newer_than_remote(local_records: Vec<CloudRecordMeta>, remote_states: &TimestampMap) -> (r: Vec<
    CloudRecordMeta,
>)
    ensures
        r@ == local_records@.filter(|m: CloudRecordMeta| record_newer(m, remote_states@)),
{
    let ghost src = local_records@;
    let mut out: Vec<CloudRecordMeta> = Vec::new();
    let mut rest = local_records;
    let mut i: usize = 0;
    let n = rest.len();
    proof {
        assert(src.skip(0) =~= src);
        assert(src.take(0) =~= Seq::<CloudRecordMeta>::empty());
        assert(src.take(0).filter(|m: CloudRecordMeta| record_newer(m, remote_states@)) =~= Seq::<CloudRecordMeta>::empty());
    }
    while i < n
        invariant
            n == src.len(),
            0 <= i <= n,
            rest@.len() == n - i,
            rest@ == src.skip(i as int),
            out@ == src.take(i as int).filter(|m: CloudRecordMeta| record_newer(m, remote_states@)),
        decreases n - i,
    {
        let m = rest.remove(0);
        proof {
            assert(m == src[i as int]);
            assert(rest@ =~= src.skip(i + 1));
            assert(src.take(i + 1).drop_last() =~= src.take(i as int));
            reveal_with_fuel(Seq::filter, 1);
        }
        let trimmed = trimmed_chars(m.uuid.as_str());
        let keep = if trimmed.len() == 0 {
            false
        } else {
            match remote_states.get(m.uuid.as_str()) {
                Some(remote_updated_at) => m.updated_at > remote_updated_at,
                None => true,
            }
        };
        if keep {
            out.push(m);
        }
        i += 1;
    }
    proof {
        assert(src.take(n as int) =~= src);
    }
    out
}

/// The local groups that are newer than the remote groups of the same name,
/// in input order.
pub fn groups_newer_than_remote(local_groups: Vec<CloudGroup>, remote_groups: &[CloudGroup]) -> (r: Vec<CloudGroup>)
    ensures
        r@ == local_groups@.filter(|g: CloudGroup| group_newer(g, group_states(remote_groups@))),
{
    let mut states = TimestampMap::new();
    let mut j: usize = 0;
    proof {
        assert(remote_groups@.take(0) =~= Seq::<CloudGroup>::empty());
    }
    while j < remote_groups.len()
        invariant
            0 <= j <= remote_groups@.len(),
            states@ == group_states(remote_groups@.take(j as int)),
        decreases remote_groups@.len() - j,
    {
        let g = &remote_groups[j];
        states.insert(g.name.clone(), g.updated_at);
        proof {
            assert(remote_groups@.take(j + 1).drop_last() =~= remote_groups@.take(j as int));
        }
        j += 1;
    }
    proof {
        assert(remote_groups@.take(remote_groups@.len() as int) =~= remote_groups@);
    }
    let ghost remote = states@;
    let ghost src = local_groups@;
    let mut out: Vec<CloudGroup> = Vec::new();
    let mut rest = local_groups;
    let mut i: usize = 0;
    let n = rest.len();
    proof {
        assert(src.skip(0) =~= src);
        assert(src.take(0) =~= Seq::<CloudGroup>::empty());
        assert(src.take(0).filter(|g: CloudGroup| group_newer(g, remote)) =~= Seq::<CloudGroup>::empty());
    }
    while i < n
        invariant
            n == src.len(),
            0 <= i <= n,
            remote == states@,
            rest@.len() == n - i,
            rest@ == src.skip(i as int),
            out@ == src.take(i as int).filter(|g: CloudGroup| group_newer(g, remote)),
        decreases n - i,
    {
        let g = rest.remove(0);
        proof {
            assert(g == src[i as int]);
            assert(rest@ =~= src.skip(i + 1));
            assert(src.take(i + 1).drop_last() =~= src.take(i as int));
            reveal_with_fuel(Seq::filter, 1);
        }
        let trimmed = trimmed_chars(g.name.as_str());
        let keep = if trimmed.len() == 0 {
            false
        } else {
            match states.get(g.name.as_str()) {
                Some(remote_updated_at) => g.updated_at > remote_updated_at,
                None => true,
            }
        };
        if keep {
            out.push(g);
        }
        i += 1;
    }
    proof {
        assert(src.take(n as int) =~= src);
    }
    out
}

} // verus!
