//! LAN pairing: the one-time pairing code with its expiry and attempt limit,
//! peer tokens, and the device identity.
use vstd::prelude::*;
use crate::peers::{self, upsert_peer, PairedPeer, PeerStore};
use crate::strs::{self, push_dec_padded, str_eq, string_from_str, trimmed_string};

verus! {

/// Seconds a pairing code stays valid.
pub const DEFAULT_PAIRING_CODE_TTL_SECS: u64 = 300;

/// Wrong codes accepted before the code locks.
pub const DEFAULT_PAIRING_MAX_ATTEMPTS: u8 = 5;

#[derive(Debug)]
pub struct PairingChallenge {
    pub pairing_code: String,
    pub expires_at_ms: i64,
    pub max_attempts: u8,
}

#[derive(Debug)]
pub struct PairingConfirmResponse {
    pub peer_token: String,
    pub expires_at_ms: Option<i64>,
}

/// The pairing code as shown to the user.
#[derive(Debug)]
pub struct PairingCodeView {
    pub pairing_code: String,
    pub expires_at_ms: i64,
    pub remaining_attempts: u8,
}

#[derive(Debug)]
pub struct PairingState {
    pub challenge: PairingChallenge,
    pub failed_attempts: u8,
}

/// The pairing runtime: the current challenge, if one was issued.
#[derive(Debug)]
pub struct LanRuntime {
    pub pairing_state: Option<PairingState>,
}

impl LanRuntime {
    pub fn new() -> (r: Self)
        ensures
            r.pairing_state is None,
    {
        LanRuntime { pairing_state: None }
    }
}

// ---------------------------------------------------------------------------
// Outside sources of randomness and time
// ---------------------------------------------------------------------------

/// `fastrand::u32(0..bound)`: a random number below `bound`, as the fastrand
/// documentation promises for a range (an empty range panics there).
#[verifier::external_body]
fn random_below(bound: u32) -> (r: u32)
    requires
        bound > 0,
    ensures
        r < bound,
{
    fastrand::u32(0..bound)
}

/// `uuid::Uuid::new_v4()` in its hyphenated text form.
pub open spec fn is_uuid_v4_text(s: Seq<char>) -> bool {
    &&& s.len() == 36
    &&& s[8] == '-' && s[13] == '-' && s[18] == '-' && s[23] == '-'
    &&& s[14] == '4'
    &&& (s[19] == '8' || s[19] == '9' || s[19] == 'a' || s[19] == 'b')
    &&& forall|i: int|
        0 <= i < 36 && i != 8 && i != 13 && i != 18 && i != 23 ==> ('0' <= #[trigger] s[i] <= '9' || 'a' <= s[i]
            <= 'f')
}

/// `uuid::Uuid::new_v4().to_string()`: a random UUID of version 4 and the RFC
/// variant, written as 36 lowercase hexadecimal characters with hyphens at
/// positions 8, 13, 18 and 23 (the layout of `uuid`'s hyphenated formatter).
#[verifier::external_body]
pub(crate) fn new_uuid_v4() -> (r: String)
    ensures
        is_uuid_v4_text(r@),
{
    uuid::Uuid::new_v4().to_string()
}

// ---------------------------------------------------------------------------
// Challenges
// ---------------------------------------------------------------------------

/// `a + b`, clamped to the `i64` range (`i64::saturating_add`).
pub open spec fn sat_add_i64(a: int, b: int) -> int {
    if a + b > i64::MAX {
        i64::MAX as int
    } else if a + b < i64::MIN {
        i64::MIN as int
    } else {
        a + b
    }
}

/// A challenge made at `now_ms` from the random number `n`: the code is `n`
/// as six zero-padded digits, valid for 300 seconds, with 5 attempts.
pub open spec fn challenge_for(c: PairingChallenge, n: nat, now_ms: int) -> bool {
    &&& c.pairing_code@ == strs::zero_pad(strs::dec(n), 6)
    &&& c.expires_at_ms == sat_add_i64(now_ms, 300000)
    &&& c.max_attempts == 5
}

/// A freshly issued challenge: some six-digit code, 5 attempts.
pub open spec fn fresh_challenge(c: PairingChallenge) -> bool {
    exists|n: nat, t: int| n < 1000000 && #[trigger] challenge_for(c, n, t)
}

/// The challenge made at `now_ms` from the random number `n`.
pub fn challenge_at(n: u32, now_ms: i64) -> (c: PairingChallenge)
    ensures
        challenge_for(c, n as nat, now_ms as int),
{
    let mut code = String::new();
    push_dec_padded(&mut code, n as u64, 6);
    assert(code@ =~= strs::zero_pad(strs::dec(n as nat), 6));
    let ttl_ms: i64 = (DEFAULT_PAIRING_CODE_TTL_SECS as i64) * 1000;
    let expires = if now_ms > i64::MAX - ttl_ms {
        i64::MAX
    } else {
        now_ms + ttl_ms
    };
    PairingChallenge {
        pairing_code: code,
        expires_at_ms: expires,
        max_attempts: DEFAULT_PAIRING_MAX_ATTEMPTS,
    }
}

/// A new challenge: a random six-digit code valid for 300 seconds from now.
pub fn create_pairing_challenge() -> (c: PairingChallenge)
    ensures
        fresh_challenge(c),
{
    let n = random_below(1_000_000);
    let now = peers::now_ms();
    let c = challenge_at(n, now);
    assert(challenge_for(c, n as nat, now as int));
    c
}

/// A new random peer token.
pub fn create_peer_token() -> (t: String)
    ensures
        is_uuid_v4_text(t@),
{
    new_uuid_v4()
}

/// A code expiring at `expires_at_ms` has expired at `now_ms`.
pub open spec fn expired_by(expires_at_ms: i64, now_ms: i64) -> bool {
    now_ms >= expires_at_ms
}

/// A code has expired once the current time reaches its expiry.
pub fn is_expired_at(expires_at_ms: i64, now_ms: i64) -> (r: bool)
    ensures
        r == (now_ms >= expires_at_ms),
{
    now_ms >= expires_at_ms
}

/// Whether a code expiring at `expires_at_ms` has expired by now: whether
/// the current time, read from the clock, has reached the expiry.
pub fn is_expired(expires_at_ms: i64) -> (r: bool)
    ensures
        exists|now: i64| r == #[trigger] expired_by(expires_at_ms, now),
{
    let now = peers::now_ms();
    let r = is_expired_at(expires_at_ms, now);
    assert(r == expired_by(expires_at_ms, now));
    r
}

fn view_pairing_state(state: &PairingState) -> (v: PairingCodeView)
    ensures
        v.pairing_code@ == state.challenge.pairing_code@,
        v.expires_at_ms == state.challenge.expires_at_ms,
        v.remaining_attempts == (if state.challenge.max_attempts >= state.failed_attempts {
            state.challenge.max_attempts - state.failed_attempts
        } else {
            0
        }),
{
    PairingCodeView {
        pairing_code: state.challenge.pairing_code.clone(),
        expires_at_ms: state.challenge.expires_at_ms,
        remaining_attempts: state.challenge.max_attempts.saturating_sub(state.failed_attempts),
    }
}

/// `v` shows the state's code, expiry and remaining attempts.
pub open spec fn shows(v: PairingCodeView, st: PairingState) -> bool {
    &&& v.pairing_code@ == st.challenge.pairing_code@
    &&& v.expires_at_ms == st.challenge.expires_at_ms
    &&& v.remaining_attempts == (if st.challenge.max_attempts >= st.failed_attempts {
        st.challenge.max_attempts - st.failed_attempts
    } else {
        0
    })
}

/// Asking for the current code at `now_ms` took the runtime from `old` to
/// `new` and showed `v`: an unexpired challenge stays as it is and is shown;
/// a missing or expired one is replaced by a fresh one with no failures.
pub open spec fn code_shown(old: LanRuntime, new: LanRuntime, now_ms: i64, v: PairingCodeView) -> bool {
    &&& new.pairing_state matches Some(ns) && shows(v, ns)
    &&& match old.pairing_state {
        Some(st) => if now_ms < st.challenge.expires_at_ms {
            new == old
        } else {
            new.pairing_state matches Some(ns) && ns.failed_attempts == 0 && fresh_challenge(ns.challenge)
                && v.remaining_attempts == 5
        },
        None => new.pairing_state matches Some(ns) && ns.failed_attempts == 0 && fresh_challenge(ns.challenge)
            && v.remaining_attempts == 5,
    }
}

/// The current code at `now_ms`; see `code_shown`.
pub fn current_pairing_code_at(runtime: &mut LanRuntime, now_ms: i64) -> (v: PairingCodeView)
    ensures
        code_shown(*old(runtime), *final(runtime), now_ms, v),
{
    let should_refresh = match &runtime.pairing_state {
        Some(st) => is_expired_at(st.challenge.expires_at_ms, now_ms),
        None => true,
    };
    if should_refresh {
        runtime.pairing_state = Some(PairingState { challenge: create_pairing_challenge(), failed_attempts: 0 });
    }
    match &runtime.pairing_state {
        Some(st) => view_pairing_state(st),
        None => {
            assert(false);
            PairingCodeView { pairing_code: String::new(), expires_at_ms: 0, remaining_attempts: 0 }
        },
    }
}

/// The current pairing code, issuing a new one when missing or expired: the
/// code shown is the one held afterwards, which is either the earlier one or
/// a fresh one with no failed attempts.
pub fn current_pairing_code(runtime: &mut LanRuntime) -> (v: PairingCodeView)
    ensures
        final(runtime).pairing_state matches Some(ns) && shows(v, ns),
        *final(runtime) == *old(runtime) || (final(runtime).pairing_state matches Some(ns) && ns.failed_attempts == 0
            && fresh_challenge(ns.challenge)),
        old(runtime).pairing_state is None ==> (final(runtime).pairing_state matches Some(ns) && ns.failed_attempts == 0
            && fresh_challenge(ns.challenge)),
{
    let now = peers::now_ms();
    current_pairing_code_at(runtime, now)
}

/// Issues a new code with the attempt count reset.
pub fn refresh_pairing_code(runtime: &mut LanRuntime) -> (v: PairingCodeView)
    ensures
        final(runtime).pairing_state matches Some(ns) && ns.failed_attempts == 0 && fresh_challenge(ns.challenge)
            && v.pairing_code@ == ns.challenge.pairing_code@ && v.expires_at_ms == ns.challenge.expires_at_ms
            && v.remaining_attempts == 5,
{
    let challenge = create_pairing_challenge();
    let state = PairingState { challenge, failed_attempts: 0 };
    let view = view_pairing_state(&state);
    runtime.pairing_state = Some(state);
    view
}

pub open spec fn msg_refreshed() -> Seq<char> {
    "配对码已刷新，请重新输入"@
}

pub open spec fn msg_expired() -> Seq<char> {
    "配对码已过期，请重新输入"@
}

pub open spec fn msg_locked() -> Seq<char> {
    "配对码尝试次数过多，请刷新后重试"@
}

pub open spec fn msg_wrong() -> Seq<char> {
    "配对码不正确"@
}

/// The error of checking `code` against the pairing state `st` at `now_ms`,
/// or `None` when the code is accepted: a missing or expired challenge, then
/// a locked one, then a code that differs (after trimming) from the
/// challenge's.
pub open spec fn verify_error(st: Option<PairingState>, code: Seq<char>, now_ms: i64) -> Option<Seq<char>> {
    match st {
        None => Some(msg_refreshed()),
        Some(s) => if now_ms >= s.challenge.expires_at_ms {
            Some(msg_expired())
        } else if s.failed_attempts >= s.challenge.max_attempts {
            Some(msg_locked())
        } else if s.challenge.pairing_code@ != strs::trim(code) {
            Some(msg_wrong())
        } else {
            None
        },
    }
}

/// The pairing state `new` after checking `code` against `st` at `now_ms`: a
/// missing or expired challenge is replaced by a fresh one; a locked one
/// stays; a wrong code counts a failure (up to 255); the right code resets
/// the count.
pub open spec fn verified_state(st: Option<PairingState>, new: Option<PairingState>, code: Seq<char>, now_ms: i64) -> bool {
    match st {
        None => new matches Some(ns) && ns.failed_attempts == 0 && fresh_challenge(ns.challenge),
        Some(s) => if now_ms >= s.challenge.expires_at_ms {
            new matches Some(ns) && ns.failed_attempts == 0 && fresh_challenge(ns.challenge)
        } else if s.failed_attempts >= s.challenge.max_attempts {
            new == st
        } else if s.challenge.pairing_code@ != strs::trim(code) {
            new == Some(
                PairingState { failed_attempts: if s.failed_attempts < 255 { (s.failed_attempts + 1) as u8 } else { 255 }, ..s },
            )
        } else {
            new == Some(PairingState { failed_attempts: 0, ..s })
        },
    }
}

/// Checking `code` at `now_ms` took the runtime from `old` to `new` with
/// result `r`; see `verify_error` and `verified_state`.
pub open spec fn verified_at(old: LanRuntime, new: LanRuntime, code: Seq<char>, now_ms: i64, r: Result<(), String>) -> bool {
    &&& verified_state(old.pairing_state, new.pairing_state, code, now_ms)
    &&& match verify_error(old.pairing_state, code, now_ms) {
        None => r is Ok,
        Some(m) => r matches Err(e) && e@ == m,
    }
}

/// Checks `pairing_code` against the current challenge at `now_ms`: with no
/// challenge or an expired one a new challenge is issued and the check fails;
/// after `max_attempts` failures every code is refused; a wrong code counts a
/// failure; the right code (trimmed) resets the count.
pub fn verify_pairing_code_at(runtime: &mut LanRuntime, pairing_code: &str, now_ms: i64) -> (r: Result<(), String>)
    ensures
        verified_at(*old(runtime), *final(runtime), pairing_code@, now_ms, r),
{
    match runtime.pairing_state.take() {
        None => {
            runtime.pairing_state = Some(PairingState { challenge: create_pairing_challenge(), failed_attempts: 0 });
            Err(string_from_str("配对码已刷新，请重新输入"))
        },
        Some(mut state) => {
            if is_expired_at(state.challenge.expires_at_ms, now_ms) {
                runtime.pairing_state = Some(
                    PairingState { challenge: create_pairing_challenge(), failed_attempts: 0 },
                );
                return Err(string_from_str("配对码已过期，请重新输入"));
            }
            if state.failed_attempts >= state.challenge.max_attempts {
                runtime.pairing_state = Some(state);
                return Err(string_from_str("配对码尝试次数过多，请刷新后重试"));
            }
            let entered = trimmed_string(pairing_code);
            if !str_eq(state.challenge.pairing_code.as_str(), entered.as_str()) {
                state.failed_attempts = state.failed_attempts.saturating_add(1);
                runtime.pairing_state = Some(state);
                return Err(string_from_str("配对码不正确"));
            }
            state.failed_attempts = 0;
            runtime.pairing_state = Some(state);
            Ok(())
        },
    }
}

/// Checks a pairing code against the current challenge, now; see
/// `verify_pairing_code_at`.
pub fn verify_pairing_code(runtime: &mut LanRuntime, pairing_code: &str) -> (r: Result<(), String>)
    ensures
        exists|now: i64| #[trigger] verified_at(*old(runtime), *final(runtime), pairing_code@, now, r),
{
    let now = peers::now_ms();
    verify_pairing_code_at(runtime, pairing_code, now)
}

/// Asking twice for the current code, the second time before the code
/// held after the first call expires, shows the same code, expiry and
/// remaining attempts, and leaves the pairing state as it was.
pub proof fn law_current_code_is_stable_until_expiry(
    r0: LanRuntime,
    r1: LanRuntime,
    r2: LanRuntime,
    t1: i64,
    t2: i64,
    v1: PairingCodeView,
    v2: PairingCodeView,
)
    requires
        code_shown(r0, r1, t1, v1),
        code_shown(r1, r2, t2, v2),
        r1.pairing_state matches Some(s) && t2 < s.challenge.expires_at_ms,
    ensures
        r2 == r1,
        v2.pairing_code@ == v1.pairing_code@,
        v2.expires_at_ms == v1.expires_at_ms,
        v2.remaining_attempts == v1.remaining_attempts,
{
}

/// The pairing state after `k` wrong codes from `s0` with no failures:
/// the failures counted, up to the challenge's attempt limit.
pub open spec fn after_failures(s0: PairingState, k: int) -> PairingState {
    PairingState { failed_attempts: if k < s0.challenge.max_attempts { k as u8 } else { s0.challenge.max_attempts }, ..s0 }
}

proof fn lemma_failures(
    states: Seq<Option<PairingState>>,
    codes: Seq<Seq<char>>,
    times: Seq<i64>,
    s0: PairingState,
    k: int,
)
    requires
        states.len() == codes.len() + 1,
        times.len() == codes.len(),
        0 <= k <= codes.len(),
        states[0] == Some(s0),
        s0.failed_attempts == 0,
        forall|i: int| 0 <= i < times.len() ==> #[trigger] times[i] < s0.challenge.expires_at_ms,
        forall|i: int| 0 <= i < codes.len() ==> verified_state(#[trigger] states[i], states[i + 1], codes[i], times[i]),
        forall|i: int| 0 <= i < codes.len() && i < s0.challenge.max_attempts ==> strs::trim(#[trigger] codes[i])
            != s0.challenge.pairing_code@,
    ensures
        states[k] == Some(after_failures(s0, k)),
    decreases k,
{
    if k > 0 {
        lemma_failures(states, codes, times, s0, k - 1);
        assert(verified_state(states[k - 1], states[k], codes[k - 1], times[k - 1]));
        assert(times[k - 1] < s0.challenge.expires_at_ms);
        if k - 1 < s0.challenge.max_attempts {
            assert(strs::trim(codes[k - 1]) != s0.challenge.pairing_code@);
        }
    }
}

/// Wrong codes lock a challenge: from a challenge with no failures, checked
/// before it expires, each of the first `max_attempts` wrong codes is refused
/// as wrong and counted, leaving no attempts shown; every later check, with
/// any code (the right one too), is refused as locked and changes nothing.
pub proof fn law_wrong_codes_lock_the_challenge(
    states: Seq<Option<PairingState>>,
    codes: Seq<Seq<char>>,
    times: Seq<i64>,
    s0: PairingState,
)
    requires
        states.len() == codes.len() + 1,
        times.len() == codes.len(),
        states[0] == Some(s0),
        s0.failed_attempts == 0,
        forall|i: int| 0 <= i < times.len() ==> #[trigger] times[i] < s0.challenge.expires_at_ms,
        forall|i: int| 0 <= i < codes.len() ==> verified_state(#[trigger] states[i], states[i + 1], codes[i], times[i]),
        forall|i: int| 0 <= i < codes.len() && i < s0.challenge.max_attempts ==> strs::trim(#[trigger] codes[i])
            != s0.challenge.pairing_code@,
    ensures
        forall|i: int| 0 <= i < codes.len() ==> #[trigger] verify_error(states[i], codes[i], times[i]) == if i
            < s0.challenge.max_attempts {
            Some(msg_wrong())
        } else {
            Some(msg_locked())
        },
        forall|i: int| 0 <= i <= codes.len() ==> #[trigger] states[i] == Some(after_failures(s0, i)),
        codes.len() >= s0.challenge.max_attempts ==> (states[codes.len() as int] matches Some(s) && s.failed_attempts
            == s.challenge.max_attempts),
{
    assert forall|i: int| 0 <= i <= codes.len() implies #[trigger] states[i] == Some(after_failures(s0, i)) by {
        lemma_failures(states, codes, times, s0, i);
    }
    assert forall|i: int| 0 <= i < codes.len() implies #[trigger] verify_error(states[i], codes[i], times[i]) == if i
        < s0.challenge.max_attempts {
        Some(msg_wrong())
    } else {
        Some(msg_locked())
    } by {
        lemma_failures(states, codes, times, s0, i);
        assert(times[i] < s0.challenge.expires_at_ms);
        if i < s0.challenge.max_attempts {
            assert(strs::trim(codes[i]) != s0.challenge.pairing_code@);
        }
    }
    if codes.len() >= s0.challenge.max_attempts {
        lemma_failures(states, codes, times, s0, codes.len() as int);
    }
}

pub open spec fn msg_empty_device() -> Seq<char> {
    "设备 ID 不能为空"@
}

pub open spec fn msg_self_device() -> Seq<char> {
    "不能配对当前设备自身"@
}

/// Confirming a pairing request at `now_ms`, issuing `peer_token`: a blank
/// device id, or this device's own id, is refused with nothing changed;
/// otherwise the code is checked (see `verified_at`), and when it is
/// accepted the peer (trimmed id, name and base URL, the token, not seen
/// yet) replaces every stored peer of its identity and is saved last, and
/// the token is returned. A refused code, or a store that is not
/// initialized, leaves the peers as they were.
pub open spec fn pairing_confirmed(
    old_rt: LanRuntime,
    new_rt: LanRuntime,
    old_store: PeerStore,
    new_store: PeerStore,
    local_device_id: Seq<char>,
    device_id: Seq<char>,
    device_name: Seq<char>,
    base_url: Seq<char>,
    code: Seq<char>,
    now_ms: i64,
    peer_token: Seq<char>,
    r: Result<String, String>,
) -> bool {
    let id = strs::trim(device_id);
    if id.len() == 0 {
        (r matches Err(e) && e@ == msg_empty_device()) && new_rt == old_rt && new_store == old_store
    } else if id == local_device_id {
        (r matches Err(e) && e@ == msg_self_device()) && new_rt == old_rt && new_store == old_store
    } else {
        &&& verified_state(old_rt.pairing_state, new_rt.pairing_state, code, now_ms)
        &&& match verify_error(old_rt.pairing_state, code, now_ms) {
            Some(m) => (r matches Err(e) && e@ == m) && new_store == old_store,
            None => if old_store.ready {
                &&& r matches Ok(t) && t@ == peer_token
                &&& new_store.ready
                &&& new_store.peers@.len() >= 1
                &&& ({
                    let p = new_store.peers@.last();
                    &&& p.device_id@ == id
                    &&& p.device_name@ == strs::trim(device_name)
                    &&& p.base_url@ == strs::trim(base_url)
                    &&& p.peer_token@ == peer_token
                    &&& p.last_seen_at_ms is None
                    &&& new_store.peers@ == peers::without_identity(peers::dedupe_spec(peers::stored_peers(old_store)), p).push(p)
                })
            } else {
                (r matches Err(e) && e@ == peers::store_unavailable()) && new_store == old_store
            },
        }
    }
}

/// Confirms a pairing request at `now_ms` with the token `peer_token`; see
/// `pairing_confirmed`.
pub fn confirm_pairing_at(
    runtime: &mut LanRuntime,
    store: &mut PeerStore,
    local_device_id: &str,
    device_id: String,
    device_name: String,
    base_url: String,
    pairing_code: String,
    now_ms: i64,
    peer_token: String,
) -> (r: Result<String, String>)
    ensures
        pairing_confirmed(
            *old(runtime),
            *final(runtime),
            *old(store),
            *final(store),
            local_device_id@,
            device_id@,
            device_name@,
            base_url@,
            pairing_code@,
            now_ms,
            peer_token@,
            r,
        ),
{
    let id = trimmed_string(device_id.as_str());
    if id.as_str().is_empty() {
        return Err(string_from_str("设备 ID 不能为空"));
    }
    if str_eq(id.as_str(), local_device_id) {
        return Err(string_from_str("不能配对当前设备自身"));
    }
    match verify_pairing_code_at(runtime, pairing_code.as_str(), now_ms) {
        Ok(()) => {},
        Err(e) => {
            return Err(e);
        },
    }
    let peer = PairedPeer::new(
        id,
        trimmed_string(device_name.as_str()),
        trimmed_string(base_url.as_str()),
        peer_token.clone(),
    );
    let ghost p = peer;
    match upsert_peer(store, peer) {
        Ok(()) => {
            proof {
                assert(store.peers@.last() == p);
            }
            Ok(peer_token)
        },
        Err(e) => Err(e),
    }
}

/// Confirms a pairing request from another device, now, with a new random
/// token; see `pairing_confirmed`. Returns the token.
pub fn confirm_pairing(
    runtime: &mut LanRuntime,
    store: &mut PeerStore,
    local_device_id: &str,
    device_id: String,
    device_name: String,
    base_url: String,
    pairing_code: String,
) -> (r: Result<String, String>)
    ensures
        exists|now: i64, token: Seq<char>|
            is_uuid_v4_text(token) && #[trigger] pairing_confirmed(
                *old(runtime),
                *final(runtime),
                *old(store),
                *final(store),
                local_device_id@,
                device_id@,
                device_name@,
                base_url@,
                pairing_code@,
                now,
                token,
                r,
            ),
{
    let now = peers::now_ms();
    let token = create_peer_token();
    let ghost tv = token@;
    let r = confirm_pairing_at(runtime, store, local_device_id, device_id, device_name, base_url, pairing_code, now, token);
    assert(is_uuid_v4_text(tv));
    r
}

/// Some peer pairs exactly this device id with this token.
pub open spec fn token_matches(peers: Seq<PairedPeer>, device_id: Seq<char>, token: Seq<char>) -> bool {
    exists|i: int| 0 <= i < peers.len() && (#[trigger] peers[i]).device_id@ == device_id && peers[i].peer_token@ == token
}

/// Whether `peers` holds the pair `(device_id, token)`.
pub fn token_matches_peer(peers: &[PairedPeer], device_id: &str, token: &str) -> (r: bool)
    ensures
        r == token_matches(peers@, device_id@, token@),
{
    let mut i: usize = 0;
    while i < peers.len()
        invariant
            0 <= i <= peers@.len(),
            forall|j: int| 0 <= j < i ==> !((#[trigger] peers@[j]).device_id@ == device_id@ && peers@[j].peer_token@ == token@),
        decreases peers@.len() - i,
    {
        if str_eq(peers[i].device_id.as_str(), device_id) && str_eq(peers[i].peer_token.as_str(), token) {
            return true;
        }
        i += 1;
    }
    false
}

/// Whether a request from `device_id` carrying `peer_token` (both trimmed, both
/// non-blank) comes from a paired peer.
pub fn verify_peer_token(store: &mut PeerStore, device_id: &str, peer_token: &str) -> (r: bool)
    ensures
        r == (strs::trim(device_id@).len() > 0 && strs::trim(peer_token@).len() > 0 && token_matches(
            peers::dedupe_spec(peers::stored_peers(*old(store))),
            strs::trim(device_id@),
            strs::trim(peer_token@),
        )),
{
    let d = trimmed_string(device_id);
    let t = trimmed_string(peer_token);
    if d.as_str().is_empty() || t.as_str().is_empty() {
        return false;
    }
    let peers = peers::list_peers(store);
    token_matches_peer(peers.as_slice(), d.as_str(), t.as_str())
}

// ---------------------------------------------------------------------------
// Device identity
// ---------------------------------------------------------------------------

/// A stored device id counts when it is not blank; it is used trimmed.
pub fn stored_device_id(value: Option<String>) -> (r: Option<String>)
    ensures
        match value {
            None => r is None,
            Some(v) => if strs::trim(v@).len() == 0 {
                r is None
            } else {
                r matches Some(id) && id@ == strs::trim(v@)
            },
        },
{
    match value {
        None => None,
        Some(v) => {
            let id = trimmed_string(v.as_str());
            if id.as_str().is_empty() {
                None
            } else {
                Some(id)
            }
        },
    }
}

/// The device id to use given the stored value and the legacy stored value:
/// the stored id, else the legacy id, else `fresh`. The flag tells whether the
/// chosen id must be written back to the store.
pub fn resolve_device_id(stored: Option<String>, legacy: Option<String>, fresh: String) -> (r: (String, bool))
    ensures
        match (stored, legacy) {
            (Some(s), _) if strs::trim(s@).len() > 0 => r.0@ == strs::trim(s@) && !r.1,
            (_, Some(l)) if strs::trim(l@).len() > 0 => r.0@ == strs::trim(l@) && r.1,
            _ => r.0@ == fresh@ && r.1,
        },
{
    if let Some(id) = stored_device_id(stored) {
        return (id, false);
    }
    if let Some(id) = stored_device_id(legacy) {
        return (id, true);
    }
    (fresh, true)
}


/// The default device name, where the environment names none.
pub open spec fn default_device_name() -> Seq<char> {
    "QuickClipboard Desktop"@
}

/// The name a device shows its peers, from the computer-name and host-name
/// environment values: the computer name whenever it is set (the host name
/// is then not read), else the host name; a missing or blank name gives the
/// default.
pub fn device_name(computer_name: Option<&str>, host_name: Option<&str>) -> (r: String)
    ensures
        match (computer_name, host_name) {
            (Some(c), _) => if strs::trim(c@).len() > 0 { r@ == c@ } else { r@ == default_device_name() },
            (None, Some(h)) => if strs::trim(h@).len() > 0 { r@ == h@ } else { r@ == default_device_name() },
            (None, None) => r@ == default_device_name(),
        },
{
    let chosen = match computer_name {
        Some(c) => Some(c),
        None => host_name,
    };
    match chosen {
        Some(name) => {
            let t = trimmed_string(name);
            if t.as_str().is_empty() {
                string_from_str("QuickClipboard Desktop")
            } else {
                string_from_str(name)
            }
        },
        None => string_from_str("QuickClipboard Desktop"),
    }
}

} // verus!
