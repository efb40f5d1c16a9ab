//! Paired LAN peers: identity, de-duplication and the persisted peer list.
use vstd::prelude::*;
use crate::strs::{self, chars_eq, str_eq, trimmed_chars};

verus! {

broadcast use vstd::seq::group_seq_axioms;

#[derive(Debug)]
pub struct PairedPeer {
    pub device_id: String,
    pub device_name: String,
    pub base_url: String,
    pub peer_token: String,
    pub paired_at_ms: i64,
    pub last_seen_at_ms: Option<i64>,
}

/// A paired peer as shown to the user: everything but the token.
#[derive(Debug)]
pub struct PairedPeerInfo {
    pub device_id: String,
    pub device_name: String,
    pub base_url: String,
    pub paired_at_ms: i64,
    pub last_seen_at_ms: Option<i64>,
}

/// The persisted peer list. `ready` is false while the key-value store is not
/// initialized: reads then see no peers and writes fail.
#[derive(Debug)]
pub struct PeerStore {
    pub ready: bool,
    pub peers: Vec<PairedPeer>,
}

/// The error of every write to a store that is not initialized.
pub open spec fn store_unavailable() -> Seq<char> {
    "AppHandle 未初始化"@
}

/// `chrono::Utc::now().timestamp_millis()`: the current time. Nothing is
/// stated of the value.
#[verifier::external_body]
pub(crate) fn now_ms() -> (ms: i64) {
    chrono::Utc::now().timestamp_millis()
}

impl PairedPeer {
    /// A peer paired now, never seen since.
    pub fn new(device_id: String, device_name: String, base_url: String, peer_token: String) -> (p: Self)
        ensures
            p.device_id == device_id,
            p.device_name == device_name,
            p.base_url == base_url,
            p.peer_token == peer_token,
            p.last_seen_at_ms is None,
    {
        PairedPeer {
            device_id,
            device_name,
            base_url,
            peer_token,
            paired_at_ms: now_ms(),
            last_seen_at_ms: None,
        }
    }

    /// The peer without its token.
    pub fn info(&self) -> (r: PairedPeerInfo)
        ensures
            r.device_id == self.device_id,
            r.device_name == self.device_name,
            r.base_url == self.base_url,
            r.paired_at_ms == self.paired_at_ms,
            r.last_seen_at_ms == self.last_seen_at_ms,
    {
        PairedPeerInfo {
            device_id: self.device_id.clone(),
            device_name: self.device_name.clone(),
            base_url: self.base_url.clone(),
            paired_at_ms: self.paired_at_ms,
            last_seen_at_ms: self.last_seen_at_ms,
        }
    }

    /// An identical copy.
    pub fn duplicate(&self) -> (r: Self)
        ensures
            r == *self,
    {
        PairedPeer {
            device_id: self.device_id.clone(),
            device_name: self.device_name.clone(),
            base_url: self.base_url.clone(),
            peer_token: self.peer_token.clone(),
            paired_at_ms: self.paired_at_ms,
            last_seen_at_ms: self.last_seen_at_ms,
        }
    }
}

// ---------------------------------------------------------------------------
// Identity
// ---------------------------------------------------------------------------

/// `s` without trailing `c` characters (`trim_end_matches`).
pub open spec fn strip_trailing(s: Seq<char>, c: char) -> Seq<char>
    decreases s.len(),
{
    if s.len() > 0 && s.last() == c {
        strip_trailing(s.drop_last(), c)
    } else {
        s
    }
}

pub open spec fn ascii_lower_char(c: char) -> char {
    if 'A' <= c && c <= 'Z' {
        ((c as u32) + 32) as char
    } else {
        c
    }
}

/// `str::to_ascii_lowercase`.
pub open spec fn ascii_lower(s: Seq<char>) -> Seq<char> {
    s.map_values(|c: char| ascii_lower_char(c))
}

/// The base URL compared for identity: trimmed, without trailing `/`,
/// ASCII-lowercased.
pub open spec fn normalized_url(base_url: Seq<char>) -> Seq<char> {
    ascii_lower(strip_trailing(strs::trim(base_url), '/'))
}

/// Two peers are the same device when their ids are equal, or when their
/// normalized base URLs are equal and not empty.
pub open spec fn same_identity(left: PairedPeer, right: PairedPeer) -> bool {
    left.device_id@ == right.device_id@ || (normalized_url(left.base_url@).len() > 0 && normalized_url(
        left.base_url@,
    ) == normalized_url(right.base_url@))
}

pub fn ascii_lower_char_exec(c: char) -> (r: char)
    ensures
        r == ascii_lower_char(c),
{
    if 'A' <= c && c <= 'Z' {
        ((c as u8) + 32) as char
    } else {
        c
    }
}

/// The normalized base URL, as characters.
fn normalized_chars(base_url: &str) -> (r: Vec<char>)
    ensures
        r@ == normalized_url(base_url@),
{
    let t = trimmed_chars(base_url);
    let mut end = t.len();
    assert(t@.take(end as int) =~= t@);
    while end > 0 && t[end - 1] == '/'
        invariant
            0 <= end <= t@.len(),
            strip_trailing(t@, '/') == strip_trailing(t@.take(end as int), '/'),
        decreases end,
    {
        proof {
            assert(t@.take(end as int).drop_last() =~= t@.take(end - 1));
        }
        end -= 1;
    }
    proof {
        if end > 0 {
            assert(t@.take(end as int).last() != '/');
        }
    }
    let mut r: Vec<char> = Vec::new();
    let mut i: usize = 0;
    while i < end
        invariant
            0 <= i <= end <= t@.len(),
            r@ == ascii_lower(t@.take(i as int)),
        decreases end - i,
    {
        r.push(ascii_lower_char_exec(t[i]));
        assert(t@.take(i + 1) =~= t@.take(i as int).push(t@[i as int]));
        assert(ascii_lower(t@.take(i + 1)) =~= ascii_lower(t@.take(i as int)).push(ascii_lower_char(t@[i as int])));
        i += 1;
    }
    proof {
        assert(t@.take(t@.len() as int) =~= t@);
    }
    r
}

/// The base URL compared for identity.
pub fn normalized_base_url(base_url: &str) -> (r: String)
    ensures
        r@ == normalized_url(base_url@),
{
    let v = normalized_chars(base_url);
    strs::string_from_chars(&v)
}

/// Whether two peers denote the same device.
pub fn same_peer_identity(left: &PairedPeer, right: &PairedPeer) -> (r: bool)
    ensures
        r == same_identity(*left, *right),
{
    if str_eq(left.device_id.as_str(), right.device_id.as_str()) {
        return true;
    }
    let l = normalized_chars(left.base_url.as_str());
    let r = normalized_chars(right.base_url.as_str());
    l.len() > 0 && chars_eq(&l, &r)
}

// ---------------------------------------------------------------------------
// De-duplication
// ---------------------------------------------------------------------------

/// Index of the first peer of `s` with the same identity as `p`, or -1.
pub open spec fn first_same(s: Seq<PairedPeer>, p: PairedPeer) -> int
    decreases s.len(),
{
    if s.len() == 0 {
        -1
    } else if same_identity(s[0], p) {
        0
    } else {
        let r = first_same(s.drop_first(), p);
        if r < 0 {
            -1
        } else {
            r + 1
        }
    }
}

/// Peers with one entry per identity: a later peer replaces the first
/// earlier entry of the same identity, in place.
pub open spec fn dedupe_spec(peers: Seq<PairedPeer>) -> Seq<PairedPeer>
    decreases peers.len(),
{
    if peers.len() == 0 {
        Seq::empty()
    } else {
        let out = dedupe_spec(peers.drop_last());
        let p = peers.last();
        let i = first_same(out, p);
        if i >= 0 {
            out.update(i, p)
        } else {
            out.push(p)
        }
    }
}

proof fn lemma_first_same(s: Seq<PairedPeer>, p: PairedPeer, i: int)
    requires
        0 <= i <= s.len(),
        forall|j: int| 0 <= j < i ==> !same_identity(#[trigger] s[j], p),
        i < s.len() ==> same_identity(s[i], p),
    ensures
        first_same(s, p) == (if i < s.len() { i } else { -1 }),
    decreases s.len(),
{
    if s.len() > 0 && i > 0 {
        assert forall|j: int| 0 <= j < i - 1 implies !same_identity(#[trigger] s.drop_first()[j], p) by {
            assert(s.drop_first()[j] == s[j + 1]);
        }
        lemma_first_same(s.drop_first(), p, i - 1);
    }
}

/// Index of the first peer in `peers` with the identity of `p`.
fn position_same(peers: &Vec<PairedPeer>, p: &PairedPeer) -> (r: Option<usize>)
    ensures
        match r {
            Some(i) => i < peers@.len() && first_same(peers@, *p) == i as int,
            None => first_same(peers@, *p) == -1,
        },
{
    let mut i: usize = 0;
    while i < peers.len()
        invariant
            0 <= i <= peers@.len(),
            forall|j: int| 0 <= j < i ==> !same_identity(#[trigger] peers@[j], *p),
        decreases peers@.len() - i,
    {
        if same_peer_identity(&peers[i], p) {
            proof {
                lemma_first_same(peers@, *p, i as int);
            }
            return Some(i);
        }
        i += 1;
    }
    proof {
        lemma_first_same(peers@, *p, i as int);
    }
    None
}

/// One entry per identity, the latest peer of each identity kept where its
/// identity first appeared.
pub fn dedupe_peers(peers: Vec<PairedPeer>) -> (r: Vec<PairedPeer>)
    ensures
        r@ == dedupe_spec(peers@),
{
    let ghost src = peers@;
    let mut out: Vec<PairedPeer> = Vec::new();
    let mut rest = peers;
    let n = rest.len();
    let mut i: usize = 0;
    proof {
        assert(src.skip(0) =~= src);
        assert(src.take(0) =~= Seq::<PairedPeer>::empty());
    }
    while i < n
        invariant
            n == src.len(),
            0 <= i <= n,
            rest@ == src.skip(i as int),
            out@ == dedupe_spec(src.take(i as int)),
        decreases n - i,
    {
        let p = rest.remove(0);
        proof {
            assert(p == src[i as int]);
            assert(rest@ =~= src.skip(i + 1));
            assert(src.take(i + 1).drop_last() =~= src.take(i as int));
            assert(src.take(i + 1).last() == p);
        }
        match position_same(&out, &p) {
            Some(k) => {
                out.set(k, p);
            },
            None => {
                out.push(p);
            },
        }
        i += 1;
    }
    proof {
        assert(src.take(n as int) =~= src);
    }
    out
}

// ---------------------------------------------------------------------------
// The persisted list
// ---------------------------------------------------------------------------

/// What the store holds: the saved peers, or none when it is not initialized.
pub open spec fn stored_peers(store: PeerStore) -> Seq<PairedPeer> {
    if store.ready {
        store.peers@
    } else {
        Seq::empty()
    }
}

fn copy_peers(peers: &[PairedPeer]) -> (r: Vec<PairedPeer>)
    ensures
        r@ == peers@,
{
    let mut r: Vec<PairedPeer> = Vec::new();
    let mut i: usize = 0;
    while i < peers.len()
        invariant
            0 <= i <= peers@.len(),
            r@ == peers@.take(i as int),
        decreases peers@.len() - i,
    {
        r.push(peers[i].duplicate());
        assert(peers@.take(i + 1) =~= peers@.take(i as int).push(peers@[i as int]));
        i += 1;
    }
    assert(peers@.take(peers@.len() as int) =~= peers@);
    r
}

/// Saves `peers`; fails when the store is not initialized.
pub fn save_peers(store: &mut PeerStore, peers: &[PairedPeer]) -> (r: Result<(), String>)
    ensures
        old(store).ready ==> r is Ok && final(store).ready && final(store).peers@ == peers@,
        !old(store).ready ==> (r matches Err(e) && e@ == store_unavailable()) && *final(store) == *old(store),
{
    if !store.ready {
        return Err(strs::string_from_str("AppHandle 未初始化"));
    }
    store.peers = copy_peers(peers);
    Ok(())
}

/// The de-duplicated peer list; when de-duplication removed entries, the
/// de-duplicated list is saved back.
pub fn list_peers(store: &mut PeerStore) -> (r: Vec<PairedPeer>)
    ensures
        r@ == dedupe_spec(stored_peers(*old(store))),
        final(store).ready == old(store).ready,
        stored_peers(*final(store)) == (if r@.len() != stored_peers(*old(store)).len() {
            r@
        } else {
            stored_peers(*old(store))
        }),
        r@.len() == stored_peers(*old(store)).len() ==> *final(store) == *old(store),
{
    let peers = if store.ready {
        copy_peers(store.peers.as_slice())
    } else {
        Vec::new()
    };
    let original_len = peers.len();
    let deduped = dedupe_peers(peers);
    if deduped.len() != original_len {
        let _ = save_peers(store, deduped.as_slice());
    }
    deduped
}

/// The de-duplicated peers without their tokens.
pub fn list_peer_infos(store: &mut PeerStore) -> (r: Vec<PairedPeerInfo>)
    ensures
        r@.len() == dedupe_spec(stored_peers(*old(store))).len(),
        forall|i: int| 0 <= i < r@.len() ==> {
            let p = #[trigger] dedupe_spec(stored_peers(*old(store)))[i];
            &&& r@[i].device_id == p.device_id
            &&& r@[i].device_name == p.device_name
            &&& r@[i].base_url == p.base_url
            &&& r@[i].paired_at_ms == p.paired_at_ms
            &&& r@[i].last_seen_at_ms == p.last_seen_at_ms
        },
{
    let peers = list_peers(store);
    let mut r: Vec<PairedPeerInfo> = Vec::new();
    let mut i: usize = 0;
    while i < peers.len()
        invariant
            0 <= i <= peers@.len(),
            r@.len() == i,
            forall|k: int| 0 <= k < i ==> {
                let p = #[trigger] peers@[k];
                &&& r@[k].device_id == p.device_id
                &&& r@[k].device_name == p.device_name
                &&& r@[k].base_url == p.base_url
                &&& r@[k].paired_at_ms == p.paired_at_ms
                &&& r@[k].last_seen_at_ms == p.last_seen_at_ms
            },
        decreases peers@.len() - i,
    {
        r.push(peers[i].info());
        i += 1;
    }
    r
}

/// Peers of `s` that do not share an identity with `p`.
pub open spec fn without_identity(s: Seq<PairedPeer>, p: PairedPeer) -> Seq<PairedPeer> {
    s.filter(|q: PairedPeer| !same_identity(q, p))
}

/// Replaces every stored peer of the same identity by `peer` (appended last)
/// and saves the list.
pub fn upsert_peer(store: &mut PeerStore, peer: PairedPeer) -> (r: Result<(), String>)
    ensures
        old(store).ready ==> r is Ok && final(store).ready && final(store).peers@ == without_identity(
            dedupe_spec(stored_peers(*old(store))),
            peer,
        ).push(peer),
        !old(store).ready ==> (r matches Err(e) && e@ == store_unavailable()) && *final(store) == *old(store),
{
    let peers = list_peers(store);
    let ghost src = peers@;
    let mut kept: Vec<PairedPeer> = Vec::new();
    let mut rest = peers;
    let n = rest.len();
    let mut i: usize = 0;
    proof {
        assert(src.skip(0) =~= src);
        assert(src.take(0) =~= Seq::<PairedPeer>::empty());
        assert(without_identity(src.take(0), peer) =~= Seq::<PairedPeer>::empty());
    }
    while i < n
        invariant
            n == src.len(),
            0 <= i <= n,
            rest@ == src.skip(i as int),
            kept@ == without_identity(src.take(i as int), peer),
        decreases n - i,
    {
        let q = rest.remove(0);
        proof {
            assert(q == src[i as int]);
            assert(rest@ =~= src.skip(i + 1));
            assert(src.take(i + 1).drop_last() =~= src.take(i as int));
            reveal_with_fuel(Seq::filter, 1);
        }
        if !same_peer_identity(&q, &peer) {
            kept.push(q);
        }
        i += 1;
    }
    proof {
        assert(src.take(n as int) =~= src);
    }
    kept.push(peer);
    save_peers(store, kept.as_slice())
}

/// Stored peers with `device_id` removed.
pub open spec fn without_device(s: Seq<PairedPeer>, device_id: Seq<char>) -> Seq<PairedPeer> {
    s.filter(|q: PairedPeer| q.device_id@ != device_id)
}

/// Removes the peers with `device_id`; `Ok(false)` when there were none,
/// otherwise saves and reports `Ok(true)`.
pub fn remove_peer(store: &mut PeerStore, device_id: &str) -> (r: Result<bool, String>)
    ensures
        ({
            let listed = dedupe_spec(stored_peers(*old(store)));
            let kept = without_device(listed, device_id@);
            &&& final(store).ready == old(store).ready
            &&& if kept.len() == listed.len() {
                r == Ok::<bool, String>(false) && stored_peers(*final(store)) == (if listed.len() != stored_peers(
                    *old(store),
                ).len() {
                    listed
                } else {
                    stored_peers(*old(store))
                })
            } else if old(store).ready {
                r == Ok::<bool, String>(true) && final(store).peers@ == kept
            } else {
                (r matches Err(e) && e@ == store_unavailable()) && *final(store) == *old(store)
            }
        }),
{
    let peers = list_peers(store);
    let before = peers.len();
    let ghost src = peers@;
    let mut kept: Vec<PairedPeer> = Vec::new();
    let mut rest = peers;
    let mut i: usize = 0;
    proof {
        assert(src.skip(0) =~= src);
        assert(src.take(0) =~= Seq::<PairedPeer>::empty());
        assert(without_device(src.take(0), device_id@) =~= Seq::<PairedPeer>::empty());
    }
    while i < before
        invariant
            before == src.len(),
            0 <= i <= before,
            rest@ == src.skip(i as int),
            kept@ == without_device(src.take(i as int), device_id@),
        decreases before - i,
    {
        let q = rest.remove(0);
        proof {
            assert(q == src[i as int]);
            assert(rest@ =~= src.skip(i + 1));
            assert(src.take(i + 1).drop_last() =~= src.take(i as int));
            reveal_with_fuel(Seq::filter, 1);
        }
        if !str_eq(q.device_id.as_str(), device_id) {
            kept.push(q);
        }
        i += 1;
    }
    proof {
        assert(src.take(before as int) =~= src);
    }
    if kept.len() == before {
        return Ok(false);
    }
    match save_peers(store, kept.as_slice()) {
        Ok(()) => Ok(true),
        Err(e) => Err(e),
    }
}

/// What marking the peer `device_id` seen at `now_ms` does: the store stays
/// (un)initialized; when no listed peer (see `list_peers`) has that id, the
/// store is as listing left it and the result is `Ok`; otherwise the first
/// such peer gets `now_ms` as its last-seen time and the list is saved (which
/// fails only on a store that is not initialized).
pub open spec fn peer_marked_seen(old: PeerStore, new: PeerStore, device_id: Seq<char>, now_ms: i64, r: Result<(), String>) -> bool {
    let listed = dedupe_spec(stored_peers(old));
    &&& new.ready == old.ready
    &&& if forall|k: int| 0 <= k < listed.len() ==> (#[trigger] listed[k]).device_id@ != device_id {
        &&& r is Ok
        &&& stored_peers(new) == (if listed.len() != stored_peers(old).len() {
            listed
        } else {
            stored_peers(old)
        })
    } else if old.ready {
        r is Ok && exists|k: int|
            0 <= k < listed.len() && (#[trigger] listed[k]).device_id@ == device_id && (forall|j: int|
                0 <= j < k ==> listed[j].device_id@ != device_id) && new.peers@ == listed.update(
                k,
                PairedPeer { last_seen_at_ms: Some(now_ms), ..listed[k] },
            )
    } else {
        r matches Err(e) && e@ == store_unavailable()
    }
}

pub fn mark_peer_seen_at(store: &mut PeerStore, device_id: &str, now_ms: i64) -> (r: Result<(), String>)
    ensures
        peer_marked_seen(*old(store), *final(store), device_id@, now_ms, r),
{
    let mut peers = list_peers(store);
    let ghost listed = peers@;
    let mut i: usize = 0;
    while i < peers.len()
        invariant
            peers@ == listed,
            listed == dedupe_spec(stored_peers(*old(store))),
            store.ready == old(store).ready,
            stored_peers(*store) == (if listed.len() != stored_peers(*old(store)).len() {
                listed
            } else {
                stored_peers(*old(store))
            }),
            0 <= i <= listed.len(),
            forall|k: int| 0 <= k < i ==> (#[trigger] listed[k]).device_id@ != device_id@,
        decreases listed.len() - i,
    {
        if str_eq(peers[i].device_id.as_str(), device_id) {
            let mut p = peers[i].duplicate();
            p.last_seen_at_ms = Some(now_ms);
            assert(p == PairedPeer { last_seen_at_ms: Some(now_ms), ..listed[i as int] });
            peers.set(i, p);
            assert(peers@ == listed.update(i as int, PairedPeer { last_seen_at_ms: Some(now_ms), ..listed[i as int] }));
            let res = save_peers(store, peers.as_slice());
            proof {
                if old(store).ready {
                    let upd = listed.update(i as int, PairedPeer { last_seen_at_ms: Some(now_ms), ..listed[i as int] });
                    assert(store.peers@ == upd);
                    assert(0 <= i < listed.len() && listed[i as int].device_id@ == device_id@ && (forall|j: int|
                        0 <= j < i ==> listed[j].device_id@ != device_id@) && store.peers@ == upd);
                }
            }
            return res;
        }
        i += 1;
    }
    Ok(())
}

/// Records that the peer with `device_id` was seen now; see
/// `peer_marked_seen`.
pub fn mark_peer_seen(store: &mut PeerStore, device_id: &str) -> (r: Result<(), String>)
    ensures
        exists|now: i64| peer_marked_seen(*old(store), *final(store), device_id@, now, r),
{
    let now = now_ms();
    mark_peer_seen_at(store, device_id, now)
}

// ---------------------------------------------------------------------------
// Laws
// ---------------------------------------------------------------------------

proof fn lemma_dedupe_identity_unique(peers: Seq<PairedPeer>)
    ensures
        dedupe_spec(peers).len() <= peers.len(),
    decreases peers.len(),
{
    if peers.len() > 0 {
        lemma_dedupe_identity_unique(peers.drop_last());
        lemma_first_same_range(dedupe_spec(peers.drop_last()), peers.last());
    }
}

/// De-duplication never grows the list.
pub proof fn law_dedupe_never_grows(peers: Seq<PairedPeer>)
    ensures
        dedupe_spec(peers).len() <= peers.len(),
{
    lemma_dedupe_identity_unique(peers);
}

/// Every peer kept by de-duplication is one of the input peers.
pub proof fn law_dedupe_keeps_input_peers(peers: Seq<PairedPeer>)
    ensures
        forall|i: int| 0 <= i < dedupe_spec(peers).len() ==> peers.contains(#[trigger] dedupe_spec(peers)[i]),
    decreases peers.len(),
{
    if peers.len() > 0 {
        law_dedupe_keeps_input_peers(peers.drop_last());
        let out = dedupe_spec(peers.drop_last());
        let k = first_same(out, peers.last());
        lemma_first_same_range(out, peers.last());
        assert forall|i: int| 0 <= i < dedupe_spec(peers).len() implies peers.contains(#[trigger] dedupe_spec(peers)[i]) by {
            let x = dedupe_spec(peers)[i];
            if (k >= 0 && i == k) || (k < 0 && i == out.len()) {
                assert(x == peers.last());
                assert(peers[peers.len() - 1] == x);
            } else {
                assert(x == out[i]);
                assert(peers.drop_last().contains(x));
                let j = choose|j: int| 0 <= j < peers.drop_last().len() && peers.drop_last()[j] == x;
                assert(peers[j] == x);
            }
        }
    }
}

/// The last input peer is always kept.
pub proof fn law_dedupe_keeps_last(peers: Seq<PairedPeer>)
    requires
        peers.len() > 0,
    ensures
        dedupe_spec(peers).contains(peers.last()),
{
    let out = dedupe_spec(peers.drop_last());
    let i = first_same(out, peers.last());
    lemma_first_same_range(out, peers.last());
    if i >= 0 {
        assert(dedupe_spec(peers)[i] == peers.last());
    } else {
        assert(dedupe_spec(peers)[out.len() as int] == peers.last());
    }
}

proof fn lemma_first_same_range(s: Seq<PairedPeer>, p: PairedPeer)
    ensures
        -1 <= first_same(s, p) < s.len(),
    decreases s.len(),
{
    if s.len() > 0 {
        lemma_first_same_range(s.drop_first(), p);
    }
}

} // verus!
