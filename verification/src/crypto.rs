//! End-to-end encryption of WebDAV data: the shared configuration, key
//! derivation with its caches, the sealed data envelope, and the framing of
//! encrypted files. The primitives come from argon2, chacha20poly1305,
//! base64, sha2, hex and rand_core.
use vstd::prelude::*;
use vstd::utf8::*;
use vstd::slice::slice_to_vec;
use base64::Engine;
use chacha20poly1305::aead::{Aead, KeyInit, Payload};
use rand_core::RngCore;
use sha2::Digest;
use crate::strs::{self, push_str, str_eq, string_from_str};

verus! {

broadcast use vstd::seq::group_seq_axioms;

/// Where the configuration lives on the server.
pub const CONFIG_PATH: &'static str = ".qc-e2ee.json";

pub const KEY_LEN: usize = 32;
pub const NONCE_LEN: usize = 24;
pub const TAG_LEN: u64 = 16;
pub const FILE_HEADER_LEN: u64 = 24;
pub const FILE_FRAME_HEADER_LEN: u64 = 28;
pub const MAX_FILE_CHUNK_SIZE: usize = 67108864;
pub const DEFAULT_MEMORY_KIB: u32 = 65536;
pub const DEFAULT_ITERATIONS: u32 = 3;
pub const DEFAULT_PARALLELISM: u32 = 1;

pub open spec fn config_format() -> Seq<char> {
    "qc-e2ee-config-v1"@
}

pub open spec fn data_format() -> Seq<char> {
    "qc-e2ee-data-v1"@
}

pub open spec fn cipher_name() -> Seq<char> {
    "xchacha20poly1305"@
}

pub open spec fn kdf_name() -> Seq<char> {
    "argon2id"@
}

// ---------------------------------------------------------------------------
// Encodings stated in full: base64 (standard alphabet, padded) and hex
// ---------------------------------------------------------------------------

/// The standard base64 alphabet.
pub open spec fn b64_char(v: nat) -> char {
    if v < 26 {
        ((v + 65) as u32) as char
    } else if v < 52 {
        ((v + 71) as u32) as char
    } else if v < 62 {
        ((v - 4) as u32) as char
    } else if v == 62 {
        '+'
    } else {
        '/'
    }
}

/// RFC 4648 base64 with the standard alphabet and `=` padding.
pub open spec fn base64_std(b: Seq<u8>) -> Seq<char>
    decreases b.len(),
{
    if b.len() == 0 {
        Seq::empty()
    } else if b.len() == 1 {
        seq![b64_char((b[0] / 4) as nat), b64_char(((b[0] % 4) * 16) as nat), '=', '=']
    } else if b.len() == 2 {
        seq![
            b64_char((b[0] / 4) as nat),
            b64_char(((b[0] % 4) * 16 + b[1] / 16) as nat),
            b64_char(((b[1] % 16) * 4) as nat),
            '=',
        ]
    } else {
        seq![
            b64_char((b[0] / 4) as nat),
            b64_char(((b[0] % 4) * 16 + b[1] / 16) as nat),
            b64_char(((b[1] % 16) * 4 + b[2] / 64) as nat),
            b64_char((b[2] % 64) as nat),
        ] + base64_std(b.skip(3))
    }
}

/// What the standard base64 engine decodes `text` to, or `None` when it
/// rejects it.
pub uninterp spec fn base64_decode(text: Seq<char>) -> Option<Seq<u8>>;

/// Lowercase hexadecimal digit.
pub open spec fn hex_char(d: nat) -> char {
    if d < 10 {
        ((d + 48) as u32) as char
    } else {
        ((d + 87) as u32) as char
    }
}

/// Two lowercase hexadecimal digits per byte.
pub open spec fn hex_lower(b: Seq<u8>) -> Seq<char>
    decreases b.len(),
{
    if b.len() == 0 {
        Seq::empty()
    } else {
        hex_lower(b.drop_last()) + seq![hex_char((b.last() / 16) as nat), hex_char((b.last() % 16) as nat)]
    }
}

/// `n` bytes of `x`, least significant first.
pub open spec fn le_bytes(x: nat, n: nat) -> Seq<u8>
    decreases n,
{
    if n == 0 {
        Seq::empty()
    } else {
        seq![(x % 256) as u8] + le_bytes(x / 256, (n - 1) as nat)
    }
}

/// SHA-256 of `data`.
pub uninterp spec fn sha256(data: Seq<u8>) -> Seq<u8>;

/// The Argon2id (version 0x13) key of 32 bytes for these inputs and costs.
pub uninterp spec fn argon2id_key(password: Seq<u8>, salt: Seq<u8>, m_cost: u32, t_cost: u32, p_cost: u32) -> Seq<u8>;

/// XChaCha20-Poly1305 ciphertext followed by its tag.
pub uninterp spec fn xchacha_seal(key: Seq<u8>, nonce: Seq<u8>, aad: Seq<u8>, msg: Seq<u8>) -> Seq<u8>;

/// XChaCha20-Poly1305 opening: the message when the tag verifies.
pub uninterp spec fn xchacha_open(key: Seq<u8>, nonce: Seq<u8>, aad: Seq<u8>, sealed: Seq<u8>) -> Option<Seq<u8>>;

// ---------------------------------------------------------------------------
// Trusted items
// ---------------------------------------------------------------------------

/// `base64::engine::general_purpose::STANDARD.encode`: standard padded base64.
#[verifier::external_body]
fn b64_encode(bytes: &[u8]) -> (r: String)
    ensures
        r@ == base64_std(bytes@),
{
    base64::engine::general_purpose::STANDARD.encode(bytes)
}

/// `base64::engine::general_purpose::STANDARD.decode`; the error is the
/// crate's message. The text of a padded encoding decodes back to its bytes.
#[verifier::external_body]
fn b64_decode(text: &str) -> (r: Result<Vec<u8>, String>)
    ensures
        r is Ok == base64_decode(text@) is Some,
        r matches Ok(v) ==> v@ == base64_decode(text@).unwrap(),
        r is Ok || forall|b: Seq<u8>| #[trigger] base64_std(b) != text@,
        r matches Ok(v) ==> forall|b: Seq<u8>| #[trigger] base64_std(b) == text@ ==> v@ == b,
{
    base64::engine::general_purpose::STANDARD.decode(text).map_err(|e| e.to_string())
}

/// `hex::encode`: two lowercase digits per byte.
#[verifier::external_body]
pub(crate) fn hex_encode(bytes: &[u8]) -> (r: String)
    ensures
        r@ == hex_lower(bytes@),
{
    hex::encode(bytes)
}

/// `sha2::Sha256` over `data`: a 32-byte digest.
#[verifier::external_body]
pub(crate) fn sha256_digest(data: &[u8]) -> (r: Vec<u8>)
    ensures
        r@ == sha256(data@),
        r@.len() == 32,
{
    let mut hasher = sha2::Sha256::new();
    hasher.update(data);
    hasher.finalize().to_vec()
}

/// A running `sha2::Sha256` hasher; the type is held opaque.
#[verifier::external_body]
pub struct HasherCell {
    h: sha2::Sha256,
}

/// A SHA-256 computed over bytes fed in pieces; `fed` is what was fed so far.
pub struct StreamDigest {
    inner: HasherCell,
    fed: Ghost<Seq<u8>>,
}

impl StreamDigest {
    /// The bytes fed so far.
    pub closed spec fn fed(&self) -> Seq<u8> {
        self.fed@
    }
}

/// `sha2::Sha256::new()`: a hasher that was fed nothing.
#[verifier::external_body]
pub fn stream_digest_new() -> (d: StreamDigest)
    ensures
        d.fed() == Seq::<u8>::empty(),
{
    StreamDigest { inner: HasherCell { h: sha2::Sha256::new() }, fed: Ghost(Seq::empty()) }
}

/// `Sha256::update(bytes)`: `bytes` are fed after what came before.
#[verifier::external_body]
pub fn stream_digest_update(d: &mut StreamDigest, bytes: &[u8])
    ensures
        final(d).fed() == old(d).fed() + bytes@,
{
    d.inner.h.update(bytes);
}

/// `Sha256::finalize` then `hex::encode`: the lowercase hexadecimal SHA-256
/// of all that was fed.
#[verifier::external_body]
pub fn stream_digest_hex(d: StreamDigest) -> (r: String)
    ensures
        r@ == hex_lower(sha256(d.fed())),
{
    hex::encode(d.inner.h.finalize())
}

/// `rand_core::OsRng.fill_bytes` over `n` bytes. Nothing is stated of the
/// bytes; the crate panics when the system source fails.
#[verifier::external_body]
fn random_bytes(n: usize) -> (r: Vec<u8>)
    ensures
        r@.len() == n,
{
    let mut v = vec![0u8; n];
    rand_core::OsRng.fill_bytes(&mut v);
    v
}

/// `argon2::Params::new` accepts these costs with a 32-byte output.
pub open spec fn argon2_params_ok(m_cost: u32, t_cost: u32, p_cost: u32) -> bool {
    m_cost >= 8 && m_cost >= 8 * p_cost && t_cost >= 1 && p_cost >= 1 && p_cost <= 0xFFFFFF
}

/// `Argon2::hash_password_into` accepts these inputs.
pub open spec fn argon2_inputs_ok(password: Seq<u8>, salt: Seq<u8>) -> bool {
    password.len() <= 0xFFFFFFFF && 8 <= salt.len() <= 0xFFFFFFFF
}

/// Which step of the key derivation failed, with argon2's message.
#[derive(Debug)]
pub enum KdfFailure {
    Params(String),
    Hash(String),
}

/// `argon2::Params::new(m, t, p, Some(32))`, `Argon2::new(Argon2id, V0x13,
/// ..)` and `hash_password_into`: the parameter checks as the argon2 source
/// makes them, the input checks likewise, else the derived key. Its check
/// `m < 8 * p` overflows for larger thread counts, which are left out.
#[verifier::external_body]
fn argon2id_derive(m_cost: u32, t_cost: u32, p_cost: u32, password: &[u8], salt: &[u8]) -> (r: Result<Vec<u8>, KdfFailure>)
    requires
        p_cost <= 0x1FFFFFFF,
    ensures
        match r {
            Ok(k) => argon2_params_ok(m_cost, t_cost, p_cost) && argon2_inputs_ok(password@, salt@)
                && k@ == argon2id_key(password@, salt@, m_cost, t_cost, p_cost) && k@.len() == 32,
            Err(KdfFailure::Params(_)) => !argon2_params_ok(m_cost, t_cost, p_cost),
            Err(KdfFailure::Hash(_)) => argon2_params_ok(m_cost, t_cost, p_cost) && !argon2_inputs_ok(password@, salt@),
        },
{
    let params = match argon2::Params::new(m_cost, t_cost, p_cost, Some(32)) {
        Ok(p) => p,
        Err(e) => return Err(KdfFailure::Params(e.to_string())),
    };
    let argon2 = argon2::Argon2::new(argon2::Algorithm::Argon2id, argon2::Version::V0x13, params);
    let mut key = vec![0u8; 32];
    match argon2.hash_password_into(password, salt, &mut key) {
        Ok(()) => Ok(key),
        Err(e) => Err(KdfFailure::Hash(e.to_string())),
    }
}

/// `XChaCha20Poly1305::new_from_slice(key)` and `encrypt` with `aad`: fails
/// only when the message reaches 2^32 - 1 blocks of 64 bytes, as the
/// chacha20poly1305 source checks; else the ciphertext with its 16-byte tag,
/// which opens back to the message under the same key, nonce and `aad`.
#[verifier::external_body]
fn aead_seal(key: &[u8], nonce: &[u8], aad: &[u8], msg: &[u8]) -> (r: Result<Vec<u8>, String>)
    requires
        key@.len() == 32,
        nonce@.len() == 24,
    ensures
        r is Ok == (msg@.len() / 64 < 0xFFFFFFFF),
        r matches Ok(c) ==> c@ == xchacha_seal(key@, nonce@, aad@, msg@),
        r matches Ok(c) ==> c@.len() == msg@.len() + 16,
        r matches Ok(c) ==> xchacha_open(key@, nonce@, aad@, c@) == Some(msg@),
{
    let cipher = chacha20poly1305::XChaCha20Poly1305::new_from_slice(key).map_err(|e| e.to_string())?;
    cipher
        .encrypt(chacha20poly1305::XNonce::from_slice(nonce), Payload { msg, aad })
        .map_err(|e| e.to_string())
}

/// `XChaCha20Poly1305::new_from_slice(key)` and `decrypt` with `aad`: the
/// message when the tag verifies; a sealed message opens to itself.
#[verifier::external_body]
fn aead_open(key: &[u8], nonce: &[u8], aad: &[u8], sealed: &[u8]) -> (r: Option<Vec<u8>>)
    requires
        key@.len() == 32,
        nonce@.len() == 24,
    ensures
        r is Some == xchacha_open(key@, nonce@, aad@, sealed@) is Some,
        r matches Some(p) ==> p@ == xchacha_open(key@, nonce@, aad@, sealed@).unwrap(),
        r is Some || forall|m: Seq<u8>| #[trigger] xchacha_seal(key@, nonce@, aad@, m) != sealed@,
        r matches Some(p) ==> forall|m: Seq<u8>| #[trigger] xchacha_seal(key@, nonce@, aad@, m) == sealed@ ==> p@ == m,
{
    let cipher = chacha20poly1305::XChaCha20Poly1305::new_from_slice(key).ok()?;
    cipher.decrypt(chacha20poly1305::XNonce::from_slice(nonce), Payload { msg: sealed, aad }).ok()
}

// ---------------------------------------------------------------------------
// Byte helpers
// ---------------------------------------------------------------------------

/// The UTF-8 bytes of `s`.
pub fn utf8_bytes(s: &str) -> (r: Vec<u8>)
    ensures
        r@ == encode_utf8(s@),
{
    slice_to_vec(s.as_bytes())
}

fn le_vec(x: u64, n: usize) -> (r: Vec<u8>)
    requires
        n <= 8,
    ensures
        r@ == le_bytes(x as nat, n as nat),
    decreases n,
{
    if n == 0 {
        Vec::new()
    } else {
        let mut v: Vec<u8> = Vec::new();
        v.push((x % 256) as u8);
        let mut rest = le_vec(x / 256, n - 1);
        v.append(&mut rest);
        v
    }
}

fn append_slice(out: &mut Vec<u8>, more: &[u8])
    ensures
        final(out)@ == old(out)@ + more@,
{
    let mut v = slice_to_vec(more);
    out.append(&mut v);
}

fn copy_string(s: &String) -> (r: String)
    ensures
        r@ == s@,
{
    s.clone()
}

// ---------------------------------------------------------------------------
// Configuration
// ---------------------------------------------------------------------------

#[derive(Debug)]
pub struct KdfConfig {
    pub name: String,
    pub salt: String,
    pub memory_kib: u32,
    pub iterations: u32,
    pub parallelism: u32,
}

/// The configuration shared by every device of one WebDAV account.
#[derive(Debug)]
pub struct WebdavE2eeConfig {
    pub format: String,
    pub kdf: KdfConfig,
}

/// A configuration as plain values: format, KDF name, salt and costs.
pub open spec fn config_view(c: WebdavE2eeConfig) -> (Seq<char>, Seq<char>, Seq<char>, u32, u32, u32) {
    (c.format@, c.kdf.name@, c.kdf.salt@, c.kdf.memory_kib, c.kdf.iterations, c.kdf.parallelism)
}

/// An identical copy.
pub fn copy_config(c: &WebdavE2eeConfig) -> (r: WebdavE2eeConfig)
    ensures
        config_view(r) == config_view(*c),
{
    WebdavE2eeConfig {
        format: copy_string(&c.format),
        kdf: KdfConfig {
            name: copy_string(&c.kdf.name),
            salt: copy_string(&c.kdf.salt),
            memory_kib: c.kdf.memory_kib,
            iterations: c.kdf.iterations,
            parallelism: c.kdf.parallelism,
        },
    }
}

/// A new configuration: the current format, Argon2id with 64 MiB, 3 passes
/// and 1 lane, and a fresh random 16-byte salt in base64.
pub fn create_config() -> (c: WebdavE2eeConfig)
    ensures
        c.format@ == config_format(),
        c.kdf.name@ == kdf_name(),
        c.kdf.memory_kib == 65536,
        c.kdf.iterations == 3,
        c.kdf.parallelism == 1,
        exists|salt: Seq<u8>| salt.len() == 16 && #[trigger] base64_std(salt) == c.kdf.salt@,
{
    let salt = random_bytes(16);
    let encoded = b64_encode(salt.as_slice());
    WebdavE2eeConfig {
        format: string_from_str("qc-e2ee-config-v1"),
        kdf: KdfConfig {
            name: string_from_str("argon2id"),
            salt: encoded,
            memory_kib: DEFAULT_MEMORY_KIB,
            iterations: DEFAULT_ITERATIONS,
            parallelism: DEFAULT_PARALLELISM,
        },
    }
}

/// Why a configuration is refused, if it is: a foreign format, a KDF other
/// than Argon2id, or a zero cost.
pub open spec fn config_error(c: WebdavE2eeConfig) -> Option<Seq<char>> {
    if c.format@ != config_format() {
        Some("WebDAV 云端加密配置格式不兼容"@)
    } else if c.kdf.name@ != kdf_name() {
        Some("WebDAV 云端加密 KDF 不受支持"@)
    } else if c.kdf.memory_kib == 0 || c.kdf.iterations == 0 || c.kdf.parallelism == 0 {
        Some("WebDAV 云端加密 KDF 参数无效"@)
    } else {
        None
    }
}

/// Checks a configuration; see `config_error`.
pub fn validate_config(config: &WebdavE2eeConfig) -> (r: Result<(), String>)
    ensures
        match config_error(*config) {
            None => r is Ok,
            Some(m) => r matches Err(e) && e@ == m,
        },
{
    if !str_eq(config.format.as_str(), "qc-e2ee-config-v1") {
        return Err(string_from_str("WebDAV 云端加密配置格式不兼容"));
    }
    if !str_eq(config.kdf.name.as_str(), "argon2id") {
        return Err(string_from_str("WebDAV 云端加密 KDF 不受支持"));
    }
    if config.kdf.memory_kib == 0 || config.kdf.iterations == 0 || config.kdf.parallelism == 0 {
        return Err(string_from_str("WebDAV 云端加密 KDF 参数无效"));
    }
    Ok(())
}

// ---------------------------------------------------------------------------
// Key derivation and caches
// ---------------------------------------------------------------------------

/// The key-cache entry of a scope, salt and password:
/// `scope \n salt \n hex(sha256(password))`.
pub open spec fn cache_key_spec(scope: Seq<char>, salt: Seq<char>, password: Seq<char>) -> Seq<char> {
    scope + "\n"@ + salt + "\n"@ + hex_lower(sha256(encode_utf8(password)))
}

/// The key-cache entry of a scope, configuration and password; see
/// `cache_key_spec`.
pub fn cache_key(scope: &str, config: &WebdavE2eeConfig, password: &str) -> (r: String)
    ensures
        r@ == cache_key_spec(scope@, config.kdf.salt@, password@),
{
    let pw = utf8_bytes(password);
    let digest = sha256_digest(pw.as_slice());
    let hex = hex_encode(digest.as_slice());
    let mut out = string_from_str(scope);
    push_str(&mut out, "\n");
    push_str(&mut out, config.kdf.salt.as_str());
    push_str(&mut out, "\n");
    push_str(&mut out, hex.as_str());
    out
}

pub open spec fn msg_salt_prefix() -> Seq<char> {
    "解析 WebDAV 云端加密 salt 失败: "@
}

pub open spec fn msg_kdf_params_prefix() -> Seq<char> {
    "WebDAV 云端加密 KDF 参数无效: "@
}

pub open spec fn msg_derive_prefix() -> Seq<char> {
    "派生 WebDAV 云端加密密钥失败: "@
}

/// `prefix` followed by some message.
pub open spec fn prefixed(e: Seq<char>, prefix: Seq<char>) -> bool {
    strs::matches_at(e, prefix, 0)
}

fn prefixed_error(prefix: &str, detail: String) -> (r: String)
    ensures
        r@ == prefix@ + detail@,
        prefixed(r@, prefix@),
{
    let mut out = string_from_str(prefix);
    push_str(&mut out, detail.as_str());
    assert((prefix@ + detail@).subrange(0, prefix@.len() as int) =~= prefix@);
    out
}

/// The outcome of deriving the master key: the salt must decode, argon2
/// must accept the costs and inputs; the key is Argon2id of the password's
/// UTF-8 bytes and the decoded salt.
pub open spec fn derive_ok(config: WebdavE2eeConfig, password: Seq<char>) -> Option<Seq<u8>> {
    match base64_decode(config.kdf.salt@) {
        None => None,
        Some(salt) => if argon2_params_ok(config.kdf.memory_kib, config.kdf.iterations, config.kdf.parallelism)
            && argon2_inputs_ok(encode_utf8(password), salt) {
            Some(argon2id_key(encode_utf8(password), salt, config.kdf.memory_kib, config.kdf.iterations, config.kdf.parallelism))
        } else {
            None
        },
    }
}

/// Derives the 32-byte master key of a configuration and password; see
/// `derive_ok`. Each failure carries its step's message prefix.
pub fn derive_master_key(config: &WebdavE2eeConfig, password: &str) -> (r: Result<Vec<u8>, String>)
    requires
        config.kdf.parallelism <= 0x1FFFFFFF,
    ensures
        r is Ok == derive_ok(*config, password@) is Some,
        r matches Ok(k) ==> k@ == derive_ok(*config, password@).unwrap() && k@.len() == 32,
        r matches Err(e) ==> (base64_decode(config.kdf.salt@) is None && prefixed(e@, msg_salt_prefix()))
            || (base64_decode(config.kdf.salt@) is Some && !argon2_params_ok(config.kdf.memory_kib, config.kdf.iterations, config.kdf.parallelism)
                && prefixed(e@, msg_kdf_params_prefix()))
            || (base64_decode(config.kdf.salt@) is Some && argon2_params_ok(config.kdf.memory_kib, config.kdf.iterations, config.kdf.parallelism)
                && prefixed(e@, msg_derive_prefix())),
{
    let salt = match b64_decode(config.kdf.salt.as_str()) {
        Ok(s) => s,
        Err(e) => return Err(prefixed_error("解析 WebDAV 云端加密 salt 失败: ", e)),
    };
    let pw = utf8_bytes(password);
    match argon2id_derive(config.kdf.memory_kib, config.kdf.iterations, config.kdf.parallelism, pw.as_slice(), salt.as_slice()) {
        Ok(k) => Ok(k),
        Err(KdfFailure::Params(e)) => Err(prefixed_error("WebDAV 云端加密 KDF 参数无效: ", e)),
        Err(KdfFailure::Hash(e)) => Err(prefixed_error("派生 WebDAV 云端加密密钥失败: ", e)),
    }
}

/// Derived master keys by cache entry.
pub struct KeyCache {
    entries: Vec<(String, Vec<u8>)>,
}

pub open spec fn key_entries_map(e: Seq<(String, Vec<u8>)>) -> Map<Seq<char>, Seq<u8>>
    decreases e.len(),
{
    if e.len() == 0 {
        Map::empty()
    } else {
        key_entries_map(e.drop_last()).insert(e.last().0@, e.last().1@)
    }
}

proof fn lemma_key_lookup(e: Seq<(String, Vec<u8>)>, k: Seq<char>, i: int)
    requires
        0 <= i < e.len(),
        e[i].0@ == k,
        forall|j: int| i < j < e.len() ==> (#[trigger] e[j]).0@ != k,
    ensures
        key_entries_map(e).contains_key(k),
        key_entries_map(e)[k] == e[i].1@,
    decreases e.len(),
{
    if i < e.len() - 1 {
        lemma_key_lookup(e.drop_last(), k, i);
    }
}

proof fn lemma_key_absent(e: Seq<(String, Vec<u8>)>, k: Seq<char>)
    requires
        forall|j: int| 0 <= j < e.len() ==> (#[trigger] e[j]).0@ != k,
    ensures
        !key_entries_map(e).contains_key(k),
    decreases e.len(),
{
    if e.len() > 0 {
        lemma_key_absent(e.drop_last(), k);
    }
}

impl View for KeyCache {
    type V = Map<Seq<char>, Seq<u8>>;

    closed spec fn view(&self) -> Map<Seq<char>, Seq<u8>> {
        key_entries_map(self.entries@)
    }
}

impl KeyCache {
    #[verifier::type_invariant]
    closed spec fn keys_are_32_bytes(self) -> bool {
        forall|i: int| 0 <= i < self.entries@.len() ==> (#[trigger] self.entries@[i]).1@.len() == 32
    }

    /// No keys cached.
    pub fn new() -> (c: Self)
        ensures
            c@ == Map::<Seq<char>, Seq<u8>>::empty(),
    {
        KeyCache { entries: Vec::new() }
    }

    fn lookup(&self, key: &str) -> (r: Option<Vec<u8>>)
        ensures
            r is Some == self@.contains_key(key@),
            r matches Some(k) ==> k@ == self@[key@] && k@.len() == 32,
    {
        proof {
            use_type_invariant(self);
        }
        let mut i = self.entries.len();
        while i > 0
            invariant
                0 <= i <= self.entries@.len(),
                forall|j: int| 0 <= j < self.entries@.len() ==> (#[trigger] self.entries@[j]).1@.len() == 32,
                forall|j: int| i <= j < self.entries@.len() ==> (#[trigger] self.entries@[j]).0@ != key@,
            decreases i,
        {
            if str_eq(self.entries[i - 1].0.as_str(), key) {
                proof {
                    lemma_key_lookup(self.entries@, key@, i - 1);
                }
                return Some(self.entries[i - 1].1.clone());
            }
            i -= 1;
        }
        proof {
            lemma_key_absent(self.entries@, key@);
        }
        None
    }

    fn insert(&mut self, key: String, value: Vec<u8>)
        requires
            value@.len() == 32,
        ensures
            final(self)@ == old(self)@.insert(key@, value@),
    {
        proof {
            use_type_invariant(&*self);
        }
        let ghost before = self.entries@;
        let mut entries: Vec<(String, Vec<u8>)> = Vec::new();
        std::mem::swap(&mut entries, &mut self.entries);
        entries.push((key, value));
        assert(entries@.drop_last() =~= before);
        self.entries = entries;
    }

    /// Forgets every key.
    pub fn clear(&mut self)
        ensures
            final(self)@ == Map::<Seq<char>, Seq<u8>>::empty(),
    {
        self.entries = Vec::new();
    }
}

/// Configurations by scope.
pub struct ConfigCache {
    entries: Vec<(String, WebdavE2eeConfig)>,
}

pub type ConfigValue = (Seq<char>, Seq<char>, Seq<char>, u32, u32, u32);

pub open spec fn config_entries_map(e: Seq<(String, WebdavE2eeConfig)>) -> Map<Seq<char>, ConfigValue>
    decreases e.len(),
{
    if e.len() == 0 {
        Map::empty()
    } else {
        config_entries_map(e.drop_last()).insert(e.last().0@, config_view(e.last().1))
    }
}

proof fn lemma_config_lookup(e: Seq<(String, WebdavE2eeConfig)>, k: Seq<char>, i: int)
    requires
        0 <= i < e.len(),
        e[i].0@ == k,
        forall|j: int| i < j < e.len() ==> (#[trigger] e[j]).0@ != k,
    ensures
        config_entries_map(e).contains_key(k),
        config_entries_map(e)[k] == config_view(e[i].1),
    decreases e.len(),
{
    if i < e.len() - 1 {
        lemma_config_lookup(e.drop_last(), k, i);
    }
}

proof fn lemma_config_absent(e: Seq<(String, WebdavE2eeConfig)>, k: Seq<char>)
    requires
        forall|j: int| 0 <= j < e.len() ==> (#[trigger] e[j]).0@ != k,
    ensures
        !config_entries_map(e).contains_key(k),
    decreases e.len(),
{
    if e.len() > 0 {
        lemma_config_absent(e.drop_last(), k);
    }
}

impl View for ConfigCache {
    type V = Map<Seq<char>, ConfigValue>;

    closed spec fn view(&self) -> Map<Seq<char>, ConfigValue> {
        config_entries_map(self.entries@)
    }
}

impl ConfigCache {
    /// No configurations cached.
    pub fn new() -> (c: Self)
        ensures
            c@ == Map::<Seq<char>, ConfigValue>::empty(),
    {
        ConfigCache { entries: Vec::new() }
    }

    /// Forgets every configuration.
    pub fn clear(&mut self)
        ensures
            final(self)@ == Map::<Seq<char>, ConfigValue>::empty(),
    {
        self.entries = Vec::new();
    }
}

/// The cached configuration of a scope, if any.
pub fn cached_config(cache: &ConfigCache, scope: &str) -> (r: Option<WebdavE2eeConfig>)
    ensures
        r is Some == cache@.contains_key(scope@),
        r matches Some(c) ==> config_view(c) == cache@[scope@],
{
    let mut i = cache.entries.len();
    while i > 0
        invariant
            0 <= i <= cache.entries@.len(),
            forall|j: int| i <= j < cache.entries@.len() ==> (#[trigger] cache.entries@[j]).0@ != scope@,
        decreases i,
    {
        if str_eq(cache.entries[i - 1].0.as_str(), scope) {
            proof {
                lemma_config_lookup(cache.entries@, scope@, i - 1);
            }
            return Some(copy_config(&cache.entries[i - 1].1));
        }
        i -= 1;
    }
    proof {
        lemma_config_absent(cache.entries@, scope@);
    }
    None
}

/// Caches the configuration of a scope.
pub fn cache_config(cache: &mut ConfigCache, scope: &str, config: &WebdavE2eeConfig)
    ensures
        final(cache)@ == old(cache)@.insert(scope@, config_view(*config)),
{
    let ghost before = cache.entries@;
    cache.entries.push((string_from_str(scope), copy_config(config)));
    assert(cache.entries@.drop_last() =~= before);
}

/// Forgets every cached key and configuration.
pub fn clear_cached_keys(keys: &mut KeyCache, configs: &mut ConfigCache)
    ensures
        final(keys)@ == Map::<Seq<char>, Seq<u8>>::empty(),
        final(configs)@ == Map::<Seq<char>, ConfigValue>::empty(),
{
    keys.clear();
    configs.clear();
}

// ---------------------------------------------------------------------------
// Context
// ---------------------------------------------------------------------------

/// A derived master key, ready to seal and open data.
pub struct WebdavCryptoContext {
    key: Vec<u8>,
}

impl WebdavCryptoContext {
    #[verifier::type_invariant]
    closed spec fn key_is_32_bytes(self) -> bool {
        self.key@.len() == 32
    }

    /// The master key.
    pub closed spec fn key_view(&self) -> Seq<u8> {
        self.key@
    }
}

pub open spec fn msg_no_password() -> Seq<char> {
    "请先设置 WebDAV 云端加密密码"@
}

/// A context for the configuration and password: the configuration must be
/// valid and the password not empty; a key cached under the same scope, salt
/// and password is reused, else the key is derived and cached.
pub fn context_for_config(
    keys: &mut KeyCache,
    scope: &str,
    config: &WebdavE2eeConfig,
    password: &str,
) -> (r: Result<WebdavCryptoContext, String>)
    requires
        config.kdf.parallelism <= 0x1FFFFFFF,
    ensures
        match config_error(*config) {
            Some(m) => r matches Err(e) && e@ == m && final(keys)@ == old(keys)@,
            None => if password@.len() == 0 {
                r matches Err(e) && e@ == msg_no_password() && final(keys)@ == old(keys)@
            } else {
                let ck = cache_key_spec(scope@, config.kdf.salt@, password@);
                if old(keys)@.contains_key(ck) {
                    r matches Ok(ctx) && ctx.key_view() == old(keys)@[ck] && final(keys)@ == old(keys)@
                } else {
                    match derive_ok(*config, password@) {
                        Some(k) => r matches Ok(ctx) && ctx.key_view() == k && final(keys)@ == old(keys)@.insert(ck, k),
                        None => r is Err && final(keys)@ == old(keys)@,
                    }
                }
            },
        },
{
    match validate_config(config) {
        Ok(()) => {},
        Err(e) => return Err(e),
    }
    if password.is_empty() {
        return Err(string_from_str("请先设置 WebDAV 云端加密密码"));
    }
    let ck = cache_key(scope, config, password);
    if let Some(key) = keys.lookup(ck.as_str()) {
        return Ok(WebdavCryptoContext { key });
    }
    let key = match derive_master_key(config, password) {
        Ok(k) => k,
        Err(e) => return Err(e),
    };
    keys.insert(ck, key.clone());
    Ok(WebdavCryptoContext { key })
}

// ---------------------------------------------------------------------------
// Sealed data envelope
// ---------------------------------------------------------------------------

#[derive(Debug)]
pub struct CipherEnvelope {
    pub name: String,
    pub nonce: String,
}

/// Encrypted data as stored: format, cipher with its base64 nonce, and the
/// base64 ciphertext with tag.
#[derive(Debug)]
pub struct DataEnvelope {
    pub format: String,
    pub cipher: CipherEnvelope,
    pub payload: String,
}

/// `env` seals `plaintext` for `path` under `key`: the current format and
/// cipher, some 24-byte nonce, and the ciphertext made with the path's
/// UTF-8 bytes as associated data.
pub open spec fn sealed(key: Seq<u8>, path: Seq<char>, plaintext: Seq<u8>, env: DataEnvelope) -> bool {
    &&& env.format@ == data_format()
    &&& env.cipher.name@ == cipher_name()
    &&& exists|nonce: Seq<u8>| nonce.len() == 24 && #[trigger] base64_std(nonce) == env.cipher.nonce@
        && env.payload@ == base64_std(xchacha_seal(key, nonce, encode_utf8(path), plaintext))
}

/// What opening `env` for `path` under `key` yields, when it succeeds.
pub open spec fn opened(key: Seq<u8>, path: Seq<char>, env: DataEnvelope) -> Option<Seq<u8>> {
    if env.format@ != data_format() || env.cipher.name@ != cipher_name() {
        None
    } else {
        match (base64_decode(env.cipher.nonce@), base64_decode(env.payload@)) {
            (Some(nonce), Some(payload)) => if nonce.len() == 24 {
                xchacha_open(key, nonce, encode_utf8(path), payload)
            } else {
                None
            },
            _ => None,
        }
    }
}

pub open spec fn msg_bad_format() -> Seq<char> {
    "WebDAV 数据加密格式不兼容"@
}

pub open spec fn msg_bad_cipher() -> Seq<char> {
    "WebDAV 数据加密算法不受支持"@
}

pub open spec fn msg_bad_nonce_len() -> Seq<char> {
    "WebDAV 加密 nonce 长度无效"@
}

pub open spec fn msg_open_failed() -> Seq<char> {
    "WebDAV 数据解密失败，请检查云端加密密码"@
}

/// The JSON text of an envelope whose strings need no escaping, as
/// `serde_json` writes it: fields in declaration order, no spaces.
pub open spec fn envelope_json(env: DataEnvelope) -> Seq<char> {
    "{\"format\":\""@ + env.format@ + "\",\"cipher\":{\"name\":\""@ + env.cipher.name@ + "\",\"nonce\":\""@
        + env.cipher.nonce@ + "\"},\"payload\":\""@ + env.payload@ + "\"}"@
}

impl WebdavCryptoContext {
    /// Seals `plaintext` for `path` with a fresh random nonce.
    pub fn seal_envelope(&self, path: &str, plaintext: &[u8]) -> (r: Result<DataEnvelope, String>)
        ensures
            r is Ok == (plaintext@.len() / 64 < 0xFFFFFFFF),
            r matches Ok(env) ==> sealed(self.key_view(), path@, plaintext@, env),
            r matches Err(e) ==> prefixed(e@, "加密 WebDAV 数据失败: "@),
    {
        proof {
            use_type_invariant(self);
        }
        let nonce = random_bytes(NONCE_LEN);
        let aad = utf8_bytes(path);
        let payload = match aead_seal(self.key.as_slice(), nonce.as_slice(), aad.as_slice(), plaintext) {
            Ok(c) => c,
            Err(e) => return Err(prefixed_error("加密 WebDAV 数据失败: ", e)),
        };
        let env = DataEnvelope {
            format: string_from_str("qc-e2ee-data-v1"),
            cipher: CipherEnvelope { name: string_from_str("xchacha20poly1305"), nonce: b64_encode(nonce.as_slice()) },
            payload: b64_encode(payload.as_slice()),
        };
        assert(base64_std(nonce@) == env.cipher.nonce@);
        Ok(env)
    }

    /// Seals `plaintext` for `path` and writes the envelope as JSON bytes.
    pub fn encrypt_bytes(&self, path: &str, plaintext: &[u8]) -> (r: Result<Vec<u8>, String>)
        ensures
            r is Ok == (plaintext@.len() / 64 < 0xFFFFFFFF),
            r matches Ok(bytes) ==> exists|env: DataEnvelope| sealed(self.key_view(), path@, plaintext@, env)
                && #[trigger] encode_utf8(envelope_json(env)) == bytes@,
            r matches Err(e) ==> prefixed(e@, "加密 WebDAV 数据失败: "@),
    {
        let env = match self.seal_envelope(path, plaintext) {
            Ok(env) => env,
            Err(e) => return Err(e),
        };
        let mut text = string_from_str("{\"format\":\"");
        push_str(&mut text, env.format.as_str());
        push_str(&mut text, "\",\"cipher\":{\"name\":\"");
        push_str(&mut text, env.cipher.name.as_str());
        push_str(&mut text, "\",\"nonce\":\"");
        push_str(&mut text, env.cipher.nonce.as_str());
        push_str(&mut text, "\"},\"payload\":\"");
        push_str(&mut text, env.payload.as_str());
        push_str(&mut text, "\"}");
        let bytes = utf8_bytes(text.as_str());
        assert(text@ == envelope_json(env));
        Ok(bytes)
    }

    /// Opens an envelope for `path`: the format, the cipher, the nonce and
    /// the payload are checked in this order, each failure with its message;
    /// an envelope sealed for `path` under this key opens to its plaintext.
    pub fn open_envelope(&self, path: &str, env: &DataEnvelope) -> (r: Result<Vec<u8>, String>)
        ensures
            r is Ok == opened(self.key_view(), path@, *env) is Some,
            r matches Ok(p) ==> p@ == opened(self.key_view(), path@, *env).unwrap(),
            env.format@ != data_format() ==> (r matches Err(e) && e@ == msg_bad_format()),
            env.format@ == data_format() && env.cipher.name@ != cipher_name() ==> (r matches Err(e) && e@ == msg_bad_cipher()),
            env.format@ == data_format() && env.cipher.name@ == cipher_name() && base64_decode(env.cipher.nonce@) is None
                ==> (r matches Err(e) && prefixed(e@, "解析 WebDAV 加密 nonce 失败: "@)),
            env.format@ == data_format() && env.cipher.name@ == cipher_name() && base64_decode(env.cipher.nonce@) is Some
                && base64_decode(env.cipher.nonce@).unwrap().len() != 24
                ==> (r matches Err(e) && e@ == msg_bad_nonce_len()),
            env.format@ == data_format() && env.cipher.name@ == cipher_name() && base64_decode(env.cipher.nonce@) is Some
                && base64_decode(env.cipher.nonce@).unwrap().len() == 24 && base64_decode(env.payload@) is None
                ==> (r matches Err(e) && prefixed(e@, "解析 WebDAV 加密数据失败: "@)),
            env.format@ == data_format() && env.cipher.name@ == cipher_name() && base64_decode(env.cipher.nonce@) is Some
                && base64_decode(env.cipher.nonce@).unwrap().len() == 24 && base64_decode(env.payload@) is Some
                && xchacha_open(self.key_view(), base64_decode(env.cipher.nonce@).unwrap(), encode_utf8(path@),
                    base64_decode(env.payload@).unwrap()) is None
                ==> (r matches Err(e) && e@ == msg_open_failed()),
            forall|plaintext: Seq<u8>| #[trigger] sealed(self.key_view(), path@, plaintext, *env) ==> (r matches Ok(p) && p@ == plaintext),
    {
        proof {
            use_type_invariant(self);
        }
        if !str_eq(env.format.as_str(), "qc-e2ee-data-v1") {
            return Err(string_from_str("WebDAV 数据加密格式不兼容"));
        }
        if !str_eq(env.cipher.name.as_str(), "xchacha20poly1305") {
            return Err(string_from_str("WebDAV 数据加密算法不受支持"));
        }
        let nonce = match b64_decode(env.cipher.nonce.as_str()) {
            Ok(n) => n,
            Err(e) => return Err(prefixed_error("解析 WebDAV 加密 nonce 失败: ", e)),
        };
        if nonce.len() != NONCE_LEN {
            return Err(string_from_str("WebDAV 加密 nonce 长度无效"));
        }
        let payload = match b64_decode(env.payload.as_str()) {
            Ok(p) => p,
            Err(e) => return Err(prefixed_error("解析 WebDAV 加密数据失败: ", e)),
        };
        let aad = utf8_bytes(path);
        match aead_open(self.key.as_slice(), nonce.as_slice(), aad.as_slice(), payload.as_slice()) {
            Some(p) => Ok(p),
            None => Err(string_from_str("WebDAV 数据解密失败，请检查云端加密密码")),
        }
    }
}

// ---------------------------------------------------------------------------
// Encrypted files: sizes, header and frames
// ---------------------------------------------------------------------------

pub open spec fn msg_bad_chunk_size() -> Seq<char> {
    "云端文件分片大小无效"@
}

/// Chunk sizes from 1 byte to 64 MiB are accepted.
pub fn validate_file_chunk_size(chunk_size: usize) -> (r: Result<(), String>)
    ensures
        (1 <= chunk_size <= 67108864) ==> r is Ok,
        !(1 <= chunk_size <= 67108864) ==> (r matches Err(e) && e@ == msg_bad_chunk_size()),
{
    if chunk_size == 0 || chunk_size > MAX_FILE_CHUNK_SIZE {
        return Err(string_from_str("云端文件分片大小无效"));
    }
    Ok(())
}

/// The size of the encrypted form of a `plain`-byte file in `chunk`-byte
/// frames: a 24-byte header, the plaintext, and 44 bytes (frame header and
/// tag) per frame; or why it cannot be given.
pub open spec fn encrypted_size(plain: int, chunk: int) -> Result<int, Seq<char>> {
    if !(1 <= chunk <= 67108864) {
        Err(msg_bad_chunk_size())
    } else if plain > 0 && plain + chunk - 1 > u64::MAX {
        Err("云端文件过大"@)
    } else {
        let frames = if plain == 0 { 0 } else { (plain + chunk - 1) / chunk };
        let total = 24 + plain + frames * 44;
        if total > u64::MAX {
            Err("云端加密文件大小溢出"@)
        } else {
            Ok(total)
        }
    }
}

/// The number whose little-endian bytes are `b`.
pub open spec fn le_num(b: Seq<u8>) -> nat
    decreases b.len(),
{
    if b.len() == 0 {
        0
    } else {
        b[0] as nat + 256 * le_num(b.skip(1))
    }
}

proof fn lemma_le_num_bytes(b: Seq<u8>)
    ensures
        le_num(b) < pow256(b.len()),
        le_bytes(le_num(b), b.len()) == b,
    decreases b.len(),
{
    if b.len() > 0 {
        let t = b.skip(1);
        lemma_le_num_bytes(t);
        let x = le_num(b);
        assert(x == b[0] as nat + 256 * le_num(t));
        vstd::arithmetic::div_mod::lemma_fundamental_div_mod_converse(x as int, 256, le_num(t) as int, b[0] as int);
        assert(pow256(b.len()) == 256 * pow256(t.len()));
        assert(x < pow256(b.len())) by (nonlinear_arith)
            requires
                x == b[0] as nat + 256 * le_num(t),
                b[0] < 256,
                le_num(t) < pow256(t.len()),
                pow256(b.len()) == 256 * pow256(t.len()),
        ;
        assert(le_bytes(x, b.len()) =~= b);
    }
}

proof fn lemma_le_bytes_num(x: nat, n: nat)
    requires
        x < pow256(n),
    ensures
        le_num(le_bytes(x, n)) == x,
{
    let b = le_bytes(x, n);
    lemma_le_bytes_len(x, n);
    lemma_le_num_bytes(b);
    lemma_le_bytes_injective(le_num(b), x, n);
}

proof fn lemma_pow256_mono(i: nat, j: nat)
    requires
        i <= j,
    ensures
        pow256(i) <= pow256(j),
    decreases j,
{
    if i < j {
        lemma_pow256_mono(i, (j - 1) as nat);
    }
}

/// The number held little-endian in at most 8 bytes.
fn le_value(bytes: &[u8]) -> (r: u64)
    requires
        bytes@.len() <= 8,
    ensures
        r as nat == le_num(bytes@),
        le_bytes(r as nat, bytes@.len()) == bytes@,
{
    let mut v: u64 = 0;
    let mut i: usize = bytes.len();
    proof {
        assert(bytes@.skip(i as int) =~= Seq::<u8>::empty());
    }
    while i > 0
        invariant
            i <= bytes@.len() <= 8,
            v as nat == le_num(bytes@.skip(i as int)),
        decreases i,
    {
        let ghost t = bytes@.skip(i - 1);
        proof {
            assert(t.skip(1) =~= bytes@.skip(i as int));
            lemma_le_num_bytes(t);
            lemma_pow256_mono(t.len(), 8);
            lemma_pow256_8();
            assert(le_num(t) == t[0] as nat + 256 * le_num(t.skip(1)));
            assert(t[0] == bytes@[i - 1]);
        }
        v = v * 256 + bytes[i - 1] as u64;
        i -= 1;
    }
    proof {
        assert(bytes@.skip(0) =~= bytes@);
        lemma_le_num_bytes(bytes@);
    }
    v
}

/// The plaintext size from the last 8 bytes of a file header.
pub fn header_plain_size(bytes: &[u8]) -> (r: u64)
    requires
        bytes@.len() == 8,
    ensures
        le_bytes(r as nat, 8) == bytes@,
{
    le_value(bytes)
}

/// A frame's plaintext length from its first 4 bytes.
pub fn frame_plain_len(bytes: &[u8]) -> (r: u32)
    requires
        bytes@.len() == 4,
    ensures
        le_bytes(r as nat, 4) == bytes@,
{
    let v = le_value(bytes);
    proof {
        lemma_le_num_bytes(bytes@);
        reveal_with_fuel(pow256, 5);
    }
    v as u32
}

impl WebdavCryptoContext {
    /// The encrypted size of a file; see `encrypted_size`.
    pub fn encrypted_file_size(&self, plain_size: u64, chunk_size: usize) -> (r: Result<u64, String>)
        ensures
            match encrypted_size(plain_size as int, chunk_size as int) {
                Ok(v) => r matches Ok(x) && x == v,
                Err(m) => r matches Err(e) && e@ == m,
            },
    {
        match validate_file_chunk_size(chunk_size) {
            Ok(()) => {},
            Err(e) => return Err(e),
        }
        let chunk = chunk_size as u64;
        let frames: u64 = if plain_size == 0 {
            0
        } else {
            match plain_size.checked_add(chunk - 1) {
                Some(v) => v / chunk,
                None => return Err(string_from_str("云端文件过大")),
            }
        };
        let with_header = match FILE_HEADER_LEN.checked_add(plain_size) {
            Some(v) => v,
            None => return Err(string_from_str("云端加密文件大小溢出")),
        };
        let frame_bytes = match frames.checked_mul(FILE_FRAME_HEADER_LEN + TAG_LEN) {
            Some(v) => v,
            None => return Err(string_from_str("云端加密文件大小溢出")),
        };
        match with_header.checked_add(frame_bytes) {
            Some(v) => Ok(v),
            None => Err(string_from_str("云端加密文件大小溢出")),
        }
    }
}

/// The associated data of frame `frame_index`: a fixed prefix, the path's
/// UTF-8 bytes, the index in 8 and the plaintext length in 4 little-endian
/// bytes.
pub open spec fn frame_aad(path: Seq<char>, frame_index: u64, plain_len: u32) -> Seq<u8> {
    encode_utf8("qc-e2ee-file-frame-v1"@) + encode_utf8(path) + le_bytes(frame_index as nat, 8) + le_bytes(plain_len as nat, 4)
}

/// The associated data of a file frame; see `frame_aad`.
pub fn file_frame_aad(path: &str, frame_index: u64, plain_len: u32) -> (r: Vec<u8>)
    ensures
        r@ == frame_aad(path@, frame_index, plain_len),
{
    let mut out = utf8_bytes("qc-e2ee-file-frame-v1");
    let p = utf8_bytes(path);
    append_slice(&mut out, p.as_slice());
    let i = le_vec(frame_index, 8);
    append_slice(&mut out, i.as_slice());
    let l = le_vec(plain_len as u64, 4);
    append_slice(&mut out, l.as_slice());
    out
}

/// The header of an encrypted file: the magic `QCFE2EE1`, then the chunk
/// size and the plaintext size as little-endian `u64`.
pub open spec fn file_header_bytes(chunk_size: u64, plain_size: u64) -> Seq<u8> {
    encode_utf8("QCFE2EE1"@) + le_bytes(chunk_size as nat, 8) + le_bytes(plain_size as nat, 8)
}

/// The header of an encrypted file; see `file_header_bytes`.
pub fn file_header(chunk_size: usize, plain_size: u64) -> (r: Vec<u8>)
    ensures
        r@ == file_header_bytes(chunk_size as u64, plain_size),
{
    let mut out = utf8_bytes("QCFE2EE1");
    let c = le_vec(chunk_size as u64, 8);
    append_slice(&mut out, c.as_slice());
    let p = le_vec(plain_size, 8);
    append_slice(&mut out, p.as_slice());
    out
}

/// The magic must be `QCFE2EE1`.
pub fn check_file_magic(magic: &[u8]) -> (r: Result<(), String>)
    ensures
        magic@ == encode_utf8("QCFE2EE1"@) ==> r is Ok,
        magic@ != encode_utf8("QCFE2EE1"@) ==> (r matches Err(e) && e@ == "云端文件加密格式不兼容"@),
{
    let expected = utf8_bytes("QCFE2EE1");
    if magic.len() != expected.len() {
        return Err(string_from_str("云端文件加密格式不兼容"));
    }
    let mut i: usize = 0;
    while i < magic.len()
        invariant
            0 <= i <= magic@.len(),
            magic@.len() == expected@.len(),
            expected@ == encode_utf8("QCFE2EE1"@),
            forall|j: int| 0 <= j < i ==> magic@[j] == expected@[j],
        decreases magic@.len() - i,
    {
        if magic[i] != expected[i] {
            return Err(string_from_str("云端文件加密格式不兼容"));
        }
        i += 1;
    }
    assert(magic@ =~= expected@);
    Ok(())
}

/// The chunk size read from its 8 header bytes, which must be a valid chunk
/// size.
pub fn header_chunk_size(bytes: &[u8]) -> (r: Result<usize, String>)
    requires
        bytes@.len() == 8,
    ensures
        r matches Ok(c) ==> le_bytes(c as nat, 8) == bytes@ && 1 <= c <= 67108864,
        r matches Err(e) ==> e@ == msg_bad_chunk_size() && forall|c: nat| 1 <= c <= 67108864 ==> #[trigger] le_bytes(c, 8) != bytes@,
{
    let v = le_value(bytes);
    if v == 0 || v > MAX_FILE_CHUNK_SIZE as u64 {
        proof {
            assert forall|c: nat| 1 <= c <= 67108864 implies #[trigger] le_bytes(c, 8) != bytes@ by {
                if le_bytes(c, 8) == bytes@ {
                    lemma_pow256_8();
                    lemma_le_bytes_injective(c, v as nat, 8);
                }
            }
        }
        return Err(string_from_str("云端文件分片大小无效"));
    }
    Ok(v as usize)
}

proof fn lemma_le_bytes_injective(a: nat, b: nat, n: nat)
    requires
        a < pow256(n),
        b < pow256(n),
        le_bytes(a, n) == le_bytes(b, n),
    ensures
        a == b,
    decreases n,
{
    if n > 0 {
        let sa = seq![(a % 256) as u8] + le_bytes(a / 256, (n - 1) as nat);
        let sb = seq![(b % 256) as u8] + le_bytes(b / 256, (n - 1) as nat);
        assert(le_bytes(a, n) == sa);
        assert(le_bytes(b, n) == sb);
        assert(sa[0] == (a % 256) as u8);
        assert(sb[0] == (b % 256) as u8);
        assert(sa[0] == sb[0]);
        assert(((a % 256) as u8) as int == a % 256);
        assert(((b % 256) as u8) as int == b % 256);
        assert(a % 256 == b % 256);
        assert(le_bytes(a / 256, (n - 1) as nat) =~= le_bytes(a, n).skip(1));
        assert(le_bytes(b / 256, (n - 1) as nat) =~= le_bytes(b, n).skip(1));
        assert(a / 256 < pow256((n - 1) as nat)) by (nonlinear_arith)
            requires a < pow256(n), pow256(n) == 256 * pow256((n - 1) as nat);
        assert(b / 256 < pow256((n - 1) as nat)) by (nonlinear_arith)
            requires b < pow256(n), pow256(n) == 256 * pow256((n - 1) as nat);
        lemma_le_bytes_injective(a / 256, b / 256, (n - 1) as nat);
        assert(a == 256 * (a / 256) + a % 256);
        assert(b == 256 * (b / 256) + b % 256);
    } else {
        assert(a == 0 && b == 0);
    }
}

proof fn lemma_pow256_8()
    ensures
        pow256(8) == 18446744073709551616,
{
    reveal_with_fuel(pow256, 9);
}

proof fn lemma_le_bytes_len(x: nat, n: nat)
    ensures
        le_bytes(x, n).len() == n,
    decreases n,
{
    if n > 0 {
        lemma_le_bytes_len(x / 256, (n - 1) as nat);
    }
}

pub open spec fn pow256(n: nat) -> nat
    decreases n,
{
    if n == 0 { 1 } else { 256 * pow256((n - 1) as nat) }
}

/// A frame's plaintext length must be positive, no more than what remains of
/// the file, and no more than the chunk size.
pub fn check_frame_len(plain_len: u32, remaining: u64, chunk_size: usize) -> (r: Result<(), String>)
    ensures
        (plain_len > 0 && plain_len <= remaining && plain_len <= chunk_size) ==> r is Ok,
        !(plain_len > 0 && plain_len <= remaining && plain_len <= chunk_size)
            ==> (r matches Err(e) && e@ == "云端加密文件分片长度无效"@),
{
    if plain_len == 0 || plain_len as u64 > remaining || plain_len as usize > chunk_size {
        return Err(string_from_str("云端加密文件分片长度无效"));
    }
    Ok(())
}

pub open spec fn msg_size_changed() -> Seq<char> {
    "待上传文件大小发生变化"@
}

/// The bytes sent once `read` more have gone: the sum, held at `u64::MAX`.
pub open spec fn sent_total(sent: u64, read: usize) -> int {
    if sent + read > u64::MAX {
        u64::MAX as int
    } else {
        sent + read
    }
}

/// Counting an uploaded chunk: the new total, which must not pass the size
/// announced in the header.
pub fn count_sent_bytes(sent: u64, read: usize, plain_size: u64) -> (r: Result<u64, String>)
    ensures
        sent_total(sent, read) <= plain_size ==> (r matches Ok(n) && n == sent_total(sent, read)),
        sent_total(sent, read) > plain_size ==> (r matches Err(e) && e@ == msg_size_changed()),
{
    let total = sent.saturating_add(read as u64);
    if total > plain_size {
        return Err(string_from_str("待上传文件大小发生变化"));
    }
    Ok(total)
}

/// An upload is complete only when exactly the announced size was sent.
pub fn check_sent_total(sent: u64, plain_size: u64) -> (r: Result<(), String>)
    ensures
        sent == plain_size ==> r is Ok,
        sent != plain_size ==> (r matches Err(e) && e@ == msg_size_changed()),
{
    if sent != plain_size {
        return Err(string_from_str("待上传文件大小发生变化"));
    }
    Ok(())
}

/// The index of the frame after `frame_index`; an index past `u64::MAX` is
/// refused.
pub fn next_frame_index(frame_index: u64) -> (r: Result<u64, String>)
    ensures
        frame_index < u64::MAX ==> (r matches Ok(n) && n == frame_index + 1),
        frame_index == u64::MAX ==> (r matches Err(e) && e@ == "云端文件分片数量过多"@),
{
    match frame_index.checked_add(1) {
        Some(n) => Ok(n),
        None => Err(string_from_str("云端文件分片数量过多")),
    }
}

/// The body of frame `frame_index` after its length and nonce: the chunk
/// sealed under the frame's associated data.
pub open spec fn frame_sealed(key: Seq<u8>, path: Seq<char>, frame_index: u64, nonce: Seq<u8>, chunk: Seq<u8>) -> Seq<u8> {
    xchacha_seal(key, nonce, frame_aad(path, frame_index, chunk.len() as u32), chunk)
}

/// Frame `i` as the writer makes it: the chunk length, the nonce, and the
/// chunk sealed for this frame, which opens back to the chunk under the same
/// key, nonce and frame data.
pub open spec fn written_frame(key: Seq<u8>, path: Seq<char>, i: int, nonce: Seq<u8>, chunk: Seq<u8>, frame: Seq<u8>) -> bool {
    &&& nonce.len() == 24
    &&& frame == le_bytes(chunk.len(), 4) + nonce + frame_sealed(key, path, i as u64, nonce, chunk)
    &&& frame.len() == chunk.len() + 44
    &&& xchacha_open(key, nonce, frame_aad(path, i as u64, chunk.len() as u32), frame_sealed(key, path, i as u64, nonce, chunk))
        == Some(chunk)
}

impl WebdavCryptoContext {
    /// One encrypted frame: the chunk length as 4 little-endian bytes, a
    /// fresh 24-byte nonce, and the sealed chunk.
    pub fn encrypt_file_frame(&self, path: &str, frame_index: u64, chunk: &[u8]) -> (r: Result<Vec<u8>, String>)
        requires
            chunk@.len() <= 67108864,
        ensures
            r matches Ok(f) ==> written_frame(self.key_view(), path@, frame_index as int, f@.subrange(4, 28), chunk@, f@),
            r is Ok,
    {
        proof {
            use_type_invariant(self);
        }
        let plain_len = chunk.len() as u32;
        let nonce = random_bytes(NONCE_LEN);
        let aad = file_frame_aad(path, frame_index, plain_len);
        let sealed = match aead_seal(self.key.as_slice(), nonce.as_slice(), aad.as_slice(), chunk) {
            Ok(c) => c,
            Err(e) => {
                proof {
                    assert(chunk@.len() / 64 < 0xFFFFFFFF);
                }
                return Err(e);
            },
        };
        let mut out = le_vec(plain_len as u64, 4);
        append_slice(&mut out, nonce.as_slice());
        append_slice(&mut out, sealed.as_slice());
        proof {
            lemma_le_bytes_len(chunk@.len(), 4);
            assert(out@.subrange(4, 28) =~= nonce@);
            assert(out@ =~= le_bytes(chunk@.len(), 4) + nonce@ + sealed@);
        }
        Ok(out)
    }

    /// Opens the body of frame `frame_index`, which holds `plain_len` bytes;
    /// a body sealed for this frame opens to its chunk.
    pub fn decrypt_file_frame(
        &self,
        path: &str,
        frame_index: u64,
        plain_len: u32,
        nonce: &[u8],
        encrypted: &[u8],
    ) -> (r: Result<Vec<u8>, String>)
        requires
            nonce@.len() == 24,
        ensures
            r matches Ok(p) ==> Some(p@) == xchacha_open(self.key_view(), nonce@, frame_aad(path@, frame_index, plain_len), encrypted@)
                && p@.len() == plain_len,
            xchacha_open(self.key_view(), nonce@, frame_aad(path@, frame_index, plain_len), encrypted@) is None
                ==> (r matches Err(e) && e@ == "WebDAV 云端文件解密失败，请检查云端加密密码"@),
            (xchacha_open(self.key_view(), nonce@, frame_aad(path@, frame_index, plain_len), encrypted@) is Some
                && xchacha_open(self.key_view(), nonce@, frame_aad(path@, frame_index, plain_len), encrypted@).unwrap().len()
                != plain_len) ==> (r matches Err(e) && e@ == "云端文件解密长度异常"@),
            (xchacha_open(self.key_view(), nonce@, frame_aad(path@, frame_index, plain_len), encrypted@) is Some
                && xchacha_open(self.key_view(), nonce@, frame_aad(path@, frame_index, plain_len), encrypted@).unwrap().len()
                == plain_len) ==> (r matches Ok(p) && p@ == xchacha_open(
                self.key_view(),
                nonce@,
                frame_aad(path@, frame_index, plain_len),
                encrypted@,
            ).unwrap()),
            forall|chunk: Seq<u8>| chunk.len() == plain_len && #[trigger] frame_sealed(self.key_view(), path@, frame_index, nonce@, chunk) == encrypted@
                ==> (r matches Ok(p) && p@ == chunk),
    {
        proof {
            use_type_invariant(self);
        }
        let aad = file_frame_aad(path, frame_index, plain_len);
        match aead_open(self.key.as_slice(), nonce, aad.as_slice(), encrypted) {
            None => Err(string_from_str("WebDAV 云端文件解密失败，请检查云端加密密码")),
            Some(p) => {
                if p.len() != plain_len as usize {
                    return Err(string_from_str("云端文件解密长度异常"));
                }
                Ok(p)
            },
        }
    }

    /// One frame of a file being written: the chunk is fed to the digest and
    /// sealed as frame `frame_index`; see `encrypt_file_frame`.
    pub fn write_frame_step(&self, path: &str, digest: &mut StreamDigest, frame_index: u64, chunk: &[u8]) -> (r: Result<
        Vec<u8>,
        String,
    >)
        requires
            chunk@.len() <= 67108864,
        ensures
            final(digest).fed() == old(digest).fed() + chunk@,
            r matches Ok(f) ==> written_frame(self.key_view(), path@, frame_index as int, f@.subrange(4, 28), chunk@, f@),
            r is Ok,
    {
        stream_digest_update(digest, chunk);
        self.encrypt_file_frame(path, frame_index, chunk)
    }

    /// One frame of a file being read, after its length passed
    /// `check_frame_len`: its body is opened (see `decrypt_file_frame`), the
    /// plaintext is fed to the digest, the bytes still to come shrink by the
    /// frame's length and the next frame's index is one more. A body sealed
    /// for this frame from a chunk gives back that chunk. Since every frame
    /// holds at least one byte, the index never passes `u64::MAX` while
    /// bytes remain.
    pub fn read_frame_step(
        &self,
        path: &str,
        digest: &mut StreamDigest,
        remaining: u64,
        frame_index: u64,
        plain_len: u32,
        nonce: &[u8],
        encrypted: &[u8],
    ) -> (r: Result<(Vec<u8>, u64, u64), String>)
        requires
            nonce@.len() == 24,
            0 < plain_len <= remaining,
            frame_index + remaining <= u64::MAX,
        ensures
            r matches Ok((p, rest, next)) ==> Some(p@) == xchacha_open(
                self.key_view(),
                nonce@,
                frame_aad(path@, frame_index, plain_len),
                encrypted@,
            ) && p@.len() == plain_len && rest == remaining - plain_len && next == frame_index + 1
                && final(digest).fed() == old(digest).fed() + p@,
            r is Err ==> final(digest).fed() == old(digest).fed(),
            xchacha_open(self.key_view(), nonce@, frame_aad(path@, frame_index, plain_len), encrypted@) is None
                ==> (r matches Err(e) && e@ == "WebDAV 云端文件解密失败，请检查云端加密密码"@),
            (xchacha_open(self.key_view(), nonce@, frame_aad(path@, frame_index, plain_len), encrypted@) is Some
                && xchacha_open(self.key_view(), nonce@, frame_aad(path@, frame_index, plain_len), encrypted@).unwrap().len()
                != plain_len) ==> (r matches Err(e) && e@ == "云端文件解密长度异常"@),
            (xchacha_open(self.key_view(), nonce@, frame_aad(path@, frame_index, plain_len), encrypted@) is Some
                && xchacha_open(self.key_view(), nonce@, frame_aad(path@, frame_index, plain_len), encrypted@).unwrap().len()
                == plain_len) ==> r is Ok,
            forall|chunk: Seq<u8>| chunk.len() == plain_len && #[trigger] frame_sealed(self.key_view(), path@, frame_index, nonce@, chunk) == encrypted@
                ==> (r matches Ok((p, rest, next)) && p@ == chunk && final(digest).fed() == old(digest).fed() + chunk),
    {
        let plain = match self.decrypt_file_frame(path, frame_index, plain_len, nonce, encrypted) {
            Ok(p) => p,
            Err(e) => {
                return Err(e);
            },
        };
        stream_digest_update(digest, plain.as_slice());
        Ok((plain, remaining - plain_len as u64, frame_index + 1))
    }
}

/// Ends writing a file: exactly the announced size must have been sent;
/// then the lowercase hexadecimal SHA-256 of all the chunks fed.
pub fn finish_write(digest: StreamDigest, sent: u64, plain_size: u64) -> (r: Result<String, String>)
    ensures
        sent == plain_size ==> (r matches Ok(h) && h@ == hex_lower(sha256(digest.fed()))),
        sent != plain_size ==> (r matches Err(e) && e@ == msg_size_changed()),
{
    check_sent_total(sent, plain_size)?;
    Ok(stream_digest_hex(digest))
}

/// Ends reading a file once no bytes remain: the lowercase hexadecimal
/// SHA-256 of all the plaintext fed.
pub fn finish_read(digest: StreamDigest, remaining: u64) -> (r: String)
    requires
        remaining == 0,
    ensures
        r@ == hex_lower(sha256(digest.fed())),
{
    stream_digest_hex(digest)
}



/// The parts laid end to end.
pub open spec fn concat_all(parts: Seq<Seq<u8>>) -> Seq<u8>
    decreases parts.len(),
{
    if parts.len() == 0 {
        Seq::empty()
    } else {
        concat_all(parts.drop_last()) + parts.last()
    }
}

/// Where frame `i` of an encrypted file of these chunks starts: after the
/// 24-byte header and the earlier frames, each 44 bytes longer than its
/// chunk.
pub open spec fn frame_offset(chunks: Seq<Seq<u8>>, i: int) -> int
    decreases i,
{
    if i <= 0 {
        24
    } else {
        frame_offset(chunks, i - 1) + chunks[i - 1].len() + 44
    }
}


proof fn lemma_frames_laid_out(key: Seq<u8>, path: Seq<char>, nonces: Seq<Seq<u8>>, chunks: Seq<Seq<u8>>, frames: Seq<Seq<u8>>)
    requires
        chunks.len() == frames.len(),
        nonces.len() == frames.len(),
        forall|i: int| 0 <= i < frames.len() ==> written_frame(key, path, i, nonces[i], chunks[i], #[trigger] frames[i]),
    ensures
        concat_all(frames).len() == frame_offset(chunks, frames.len() as int) - 24,
        concat_all(chunks).len() + 44 * frames.len() == frame_offset(chunks, frames.len() as int) - 24,
        forall|i: int|
            0 <= i < frames.len() ==> concat_all(frames).subrange(frame_offset(chunks, i) - 24, frame_offset(chunks, i + 1) - 24)
                == #[trigger] frames[i],
    decreases frames.len(),
{
    if frames.len() > 0 {
        let n = frames.len() - 1;
        let f2 = frames.drop_last();
        let c2 = chunks.drop_last();
        let n2 = nonces.drop_last();
        assert forall|i: int| 0 <= i < f2.len() implies written_frame(key, path, i, n2[i], c2[i], #[trigger] f2[i]) by {
            assert(f2[i] == frames[i] && c2[i] == chunks[i] && n2[i] == nonces[i]);
            assert(written_frame(key, path, i, nonces[i], chunks[i], frames[i]));
        }
        lemma_frames_laid_out(key, path, n2, c2, f2);
        assert forall|i: int| 0 <= i <= n implies #[trigger] frame_offset(c2, i) == frame_offset(chunks, i) by {
            lemma_frame_offset_prefix(chunks, c2, i);
        }
        assert(written_frame(key, path, n, nonces[n], chunks[n], frames[n]));
        let all = concat_all(frames);
        let before = concat_all(f2);
        assert(all == before + frames[n]);
        assert forall|i: int|
            0 <= i < frames.len() implies all.subrange(frame_offset(chunks, i) - 24, frame_offset(chunks, i + 1) - 24)
                == #[trigger] frames[i] by {
            if i < n {
                assert(f2[i] == frames[i]);
                assert(frame_offset(c2, i) == frame_offset(chunks, i));
                assert(frame_offset(c2, i + 1) == frame_offset(chunks, i + 1));
                assert(before.subrange(frame_offset(c2, i) - 24, frame_offset(c2, i + 1) - 24) == f2[i]);
                lemma_frame_offset_mono(chunks, i, i + 1);
                lemma_frame_offset_mono(chunks, i + 1, n);
                assert(all.subrange(frame_offset(chunks, i) - 24, frame_offset(chunks, i + 1) - 24) =~= before.subrange(
                    frame_offset(chunks, i) - 24,
                    frame_offset(chunks, i + 1) - 24,
                ));
            } else {
                assert(frame_offset(c2, n) == frame_offset(chunks, n));
                assert(all.subrange(frame_offset(chunks, n) - 24, frame_offset(chunks, n + 1) - 24) =~= frames[n]);
            }
        }
        assert(concat_all(chunks) == concat_all(c2) + chunks[n]);
        assert(frame_offset(c2, n) == frame_offset(chunks, n));
    }
}

proof fn lemma_frame_offset_mono(chunks: Seq<Seq<u8>>, i: int, j: int)
    requires
        0 <= i <= j,
    ensures
        24 <= frame_offset(chunks, i) <= frame_offset(chunks, j),
    decreases j,
{
    if j > i {
        lemma_frame_offset_mono(chunks, i, j - 1);
    } else {
        lemma_frame_offset_at_least(chunks, i);
    }
}

proof fn lemma_frame_offset_at_least(chunks: Seq<Seq<u8>>, i: int)
    ensures
        24 <= frame_offset(chunks, i),
    decreases i,
{
    if i > 0 {
        lemma_frame_offset_at_least(chunks, i - 1);
    }
}

proof fn lemma_frame_offset_prefix(chunks: Seq<Seq<u8>>, c2: Seq<Seq<u8>>, i: int)
    requires
        chunks.len() > 0,
        c2 == chunks.drop_last(),
        0 <= i <= c2.len(),
    ensures
        frame_offset(c2, i) == frame_offset(chunks, i),
    decreases i,
{
    if i > 0 {
        lemma_frame_offset_prefix(chunks, c2, i - 1);
        assert(c2[i - 1] == chunks[i - 1]);
    }
}

/// An encrypted file as written from `chunks`, frame by frame, is laid out
/// so that reading finds every frame whole: the 24-byte header announces the
/// chunk size and the total size of the chunks; frame `i` starts at
/// `frame_offset(chunks, i)` with the chunk's length in 4 little-endian
/// bytes, then its nonce, then the chunk sealed for frame `i` (which
/// `read_frame_step` opens back to the chunk and feeds to the digest); the
/// file ends right after the last frame. So reading it back gives the chunks
/// in order, and both sides' digests are the SHA-256 of the joined chunks.
pub proof fn law_written_file_layout(
    key: Seq<u8>,
    path: Seq<char>,
    chunk_size: u64,
    nonces: Seq<Seq<u8>>,
    chunks: Seq<Seq<u8>>,
    frames: Seq<Seq<u8>>,
)
    requires
        chunks.len() == frames.len(),
        nonces.len() == frames.len(),
        forall|i: int| 0 <= i < frames.len() ==> written_frame(key, path, i, nonces[i], chunks[i], #[trigger] frames[i]),
    ensures
        ({
            let file = file_header_bytes(chunk_size, concat_all(chunks).len() as u64) + concat_all(frames);
            &&& file.subrange(0, 8) == encode_utf8("QCFE2EE1"@)
            &&& file.subrange(8, 16) == le_bytes(chunk_size as nat, 8)
            &&& file.subrange(16, 24) == le_bytes((concat_all(chunks).len() as u64) as nat, 8)
            &&& file.len() == frame_offset(chunks, frames.len() as int)
            &&& forall|i: int|
                0 <= i < frames.len() ==> {
                    let o = frame_offset(chunks, i);
                    &&& file.subrange(o, o + 4) == le_bytes(chunks[i].len(), 4)
                    &&& file.subrange(o + 4, o + 28) == nonces[i]
                    &&& file.subrange(o + 28, frame_offset(chunks, i + 1)) == frame_sealed(key, path, i as u64, nonces[i], #[trigger] chunks[i])
                }
        }),
{
    lemma_frames_laid_out(key, path, nonces, chunks, frames);
    let magic = encode_utf8("QCFE2EE1"@);
    reveal_strlit("QCFE2EE1");
    assert forall|k: int| 0 <= k < "QCFE2EE1"@.len() implies (#[trigger] "QCFE2EE1"@[k] as u32) < 0x80 by {
        assert(k == 0 || k == 1 || k == 2 || k == 3 || k == 4 || k == 5 || k == 6 || k == 7);
    }
    strs::lemma_byte_len_ascii("QCFE2EE1"@);
    lemma_le_bytes_len(chunk_size as nat, 8);
    lemma_le_bytes_len((concat_all(chunks).len() as u64) as nat, 8);
    let head = file_header_bytes(chunk_size, concat_all(chunks).len() as u64);
    assert(head.len() == 24);
    let body = concat_all(frames);
    let file = head + body;
    assert(file.subrange(0, 8) =~= magic);
    assert(file.subrange(8, 16) =~= le_bytes(chunk_size as nat, 8));
    assert(file.subrange(16, 24) =~= le_bytes((concat_all(chunks).len() as u64) as nat, 8));
    assert forall|i: int| 0 <= i < frames.len() implies {
        let o = frame_offset(chunks, i);
        &&& file.subrange(o, o + 4) == le_bytes(chunks[i].len(), 4)
        &&& file.subrange(o + 4, o + 28) == nonces[i]
        &&& file.subrange(o + 28, frame_offset(chunks, i + 1)) == frame_sealed(key, path, i as u64, nonces[i], #[trigger] chunks[i])
    } by {
        let o = frame_offset(chunks, i);
        let o2 = frame_offset(chunks, i + 1);
        let f = frames[i];
        lemma_frame_offset_mono(chunks, i, i + 1);
        lemma_frame_offset_mono(chunks, i + 1, frames.len() as int);
        assert(written_frame(key, path, i, nonces[i], chunks[i], f));
        lemma_le_bytes_len(chunks[i].len(), 4);
        assert(body.subrange(o - 24, o2 - 24) == f);
        assert(file.subrange(o, o2) =~= f);
        assert(file.subrange(o, o + 4) =~= f.subrange(0, 4));
        assert(f.subrange(0, 4) =~= le_bytes(chunks[i].len(), 4));
        assert(file.subrange(o + 4, o + 28) =~= f.subrange(4, 28));
        assert(f.subrange(4, 28) =~= nonces[i]);
        assert(file.subrange(o + 28, o2) =~= f.subrange(28, f.len() as int));
        assert(f.subrange(28, f.len() as int) =~= frame_sealed(key, path, i as u64, nonces[i], chunks[i]));
    }
}


/// What reading frames does, from frame `index` on, while `remaining`
/// plaintext bytes are still announced: each frame's length must be positive
/// and within what remains and the chunk size, its body must open under the
/// frame's data to exactly that many bytes; the plaintexts are joined in
/// order. `None` where a frame is cut short or refused.
pub open spec fn read_back(key: Seq<u8>, path: Seq<char>, chunk_size: nat, body: Seq<u8>, index: nat, remaining: nat) -> Option<
    Seq<u8>,
>
    decreases remaining,
{
    if remaining == 0 {
        Some(Seq::empty())
    } else if body.len() < 4 {
        None
    } else {
        let len = le_num(body.subrange(0, 4));
        if len == 0 || len > remaining || len > chunk_size || body.len() < len + 44 {
            None
        } else {
            let opened = xchacha_open(
                key,
                body.subrange(4, 28),
                frame_aad(path, index as u64, len as u32),
                body.subrange(28, len + 44 as int),
            );
            if opened is Some && opened.unwrap().len() == len {
                match read_back(key, path, chunk_size, body.skip(len + 44 as int), index + 1, (remaining - len) as nat) {
                    Some(rest) => Some(opened.unwrap() + rest),
                    None => None,
                }
            } else {
                None
            }
        }
    }
}

/// What reading an encrypted file gives: the magic, a valid chunk size and
/// the announced plaintext size from the header, then the frames.
pub open spec fn read_file(key: Seq<u8>, path: Seq<char>, file: Seq<u8>) -> Option<Seq<u8>> {
    if file.len() < 24 || file.subrange(0, 8) != encode_utf8("QCFE2EE1"@) {
        None
    } else {
        let chunk_size = le_num(file.subrange(8, 16));
        if chunk_size < 1 || chunk_size > 67108864 {
            None
        } else {
            read_back(key, path, chunk_size, file.skip(24), 0, le_num(file.subrange(16, 24)))
        }
    }
}

proof fn lemma_concat_front(s: Seq<Seq<u8>>)
    requires
        s.len() > 0,
    ensures
        concat_all(s) == s[0] + concat_all(s.skip(1)),
    decreases s.len(),
{
    if s.len() == 1 {
        assert(s.drop_last() =~= Seq::<Seq<u8>>::empty());
        assert(s.skip(1) =~= Seq::<Seq<u8>>::empty());
        assert(concat_all(s) =~= s[0] + concat_all(s.skip(1)));
    } else {
        let d = s.drop_last();
        lemma_concat_front(d);
        assert(d[0] == s[0]);
        assert(s.skip(1).drop_last() =~= d.skip(1));
        assert(s.skip(1).last() == s.last());
        assert(concat_all(s.skip(1)) == concat_all(d.skip(1)) + s.last());
        assert(concat_all(s) =~= s[0] + concat_all(s.skip(1)));
    }
}

proof fn lemma_read_back_from(
    key: Seq<u8>,
    path: Seq<char>,
    chunk_size: nat,
    nonces: Seq<Seq<u8>>,
    chunks: Seq<Seq<u8>>,
    frames: Seq<Seq<u8>>,
    k: int,
)
    requires
        chunks.len() == frames.len(),
        nonces.len() == frames.len(),
        0 <= k <= frames.len(),
        chunk_size <= 67108864,
        forall|i: int| 0 <= i < frames.len() ==> written_frame(key, path, i, nonces[i], chunks[i], #[trigger] frames[i]),
        forall|i: int| 0 <= i < frames.len() ==> 0 < (#[trigger] chunks[i]).len() <= chunk_size,
    ensures
        read_back(key, path, chunk_size, concat_all(frames.skip(k)), k as nat, concat_all(chunks.skip(k)).len())
            == Some(concat_all(chunks.skip(k))),
    decreases frames.len() - k,
{
    if k == frames.len() {
        assert(chunks.skip(k) =~= Seq::<Seq<u8>>::empty());
    } else {
        let f = frames[k];
        let c = chunks[k];
        let len = c.len();
        assert(written_frame(key, path, k, nonces[k], c, f));
        assert(0 < c.len() <= chunk_size);
        lemma_read_back_from(key, path, chunk_size, nonces, chunks, frames, k + 1);
        let fs = frames.skip(k);
        let cs = chunks.skip(k);
        lemma_concat_front(fs);
        lemma_concat_front(cs);
        assert(fs[0] == f);
        assert(cs[0] == c);
        assert(fs.skip(1) =~= frames.skip(k + 1));
        assert(cs.skip(1) =~= chunks.skip(k + 1));
        let body = concat_all(fs);
        let rest_body = concat_all(frames.skip(k + 1));
        let rest_plain = concat_all(chunks.skip(k + 1));
        assert(body == f + rest_body);
        assert(concat_all(cs) == c + rest_plain);
        lemma_le_bytes_len(len, 4);
        reveal_with_fuel(pow256, 5);
        lemma_le_bytes_num(len, 4);
        assert(body.subrange(0, 4) =~= le_bytes(len, 4));
        assert(le_num(body.subrange(0, 4)) == len);
        assert(body.subrange(4, 28) =~= nonces[k]);
        assert(body.subrange(28, len + 44 as int) =~= frame_sealed(key, path, k as u64, nonces[k], c));
        assert(body.skip(len + 44 as int) =~= rest_body);
        assert((k as nat) as u64 == k as u64);
        assert((len as u32) as nat == len);
    }
}

/// What the writer writes, the reader reads back: a file made of the header
/// for `chunk_size` and the total size of `chunks`, then the frames that
/// `write_frame_step` returned for them in order (each chunk non-empty and
/// within the chunk size, as the writer reads them), reads back, frame by
/// frame as `read_frame_step` opens them, to exactly the chunks joined. Both
/// sides feed those same bytes to their digests, so `finish_write` and
/// `finish_read` give the same hash.
pub proof fn law_written_file_reads_back(
    key: Seq<u8>,
    path: Seq<char>,
    chunk_size: u64,
    nonces: Seq<Seq<u8>>,
    chunks: Seq<Seq<u8>>,
    frames: Seq<Seq<u8>>,
)
    requires
        1 <= chunk_size <= 67108864,
        chunks.len() == frames.len(),
        nonces.len() == frames.len(),
        concat_all(chunks).len() <= u64::MAX,
        forall|i: int| 0 <= i < frames.len() ==> written_frame(key, path, i, nonces[i], chunks[i], #[trigger] frames[i]),
        forall|i: int| 0 <= i < frames.len() ==> 0 < (#[trigger] chunks[i]).len() <= chunk_size,
    ensures
        read_file(key, path, file_header_bytes(chunk_size, concat_all(chunks).len() as u64) + concat_all(frames))
            == Some(concat_all(chunks)),
{
    let total = concat_all(chunks).len();
    let head = file_header_bytes(chunk_size, total as u64);
    let file = head + concat_all(frames);
    reveal_strlit("QCFE2EE1");
    assert forall|k: int| 0 <= k < "QCFE2EE1"@.len() implies (#[trigger] "QCFE2EE1"@[k] as u32) < 0x80 by {
        assert(k == 0 || k == 1 || k == 2 || k == 3 || k == 4 || k == 5 || k == 6 || k == 7);
    }
    strs::lemma_byte_len_ascii("QCFE2EE1"@);
    lemma_le_bytes_len(chunk_size as nat, 8);
    lemma_le_bytes_len(total, 8);
    lemma_pow256_8();
    lemma_le_bytes_num(chunk_size as nat, 8);
    lemma_le_bytes_num(total, 8);
    assert(file.subrange(0, 8) =~= encode_utf8("QCFE2EE1"@));
    assert(file.subrange(8, 16) =~= le_bytes(chunk_size as nat, 8));
    assert(file.subrange(16, 24) =~= le_bytes(total, 8));
    assert(file.skip(24) =~= concat_all(frames));
    lemma_read_back_from(key, path, chunk_size as nat, nonces, chunks, frames, 0);
    assert(frames.skip(0) =~= frames);
    assert(chunks.skip(0) =~= chunks);
}


/// Frame `i` as the reader takes it in, with `remaining` plaintext bytes
/// announced before it: the length bytes (decoded by `frame_plain_len`) give
/// the plaintext's length, which passed `check_frame_len`; the nonce and the
/// body follow, and the body opened (by `read_frame_step`) to `plain`.
pub open spec fn frame_taken(
    key: Seq<u8>,
    path: Seq<char>,
    chunk_size: nat,
    i: int,
    remaining: nat,
    frame: Seq<u8>,
    plain: Seq<u8>,
) -> bool {
    &&& 0 < plain.len() <= remaining
    &&& plain.len() <= chunk_size
    &&& frame.len() == plain.len() + 44
    &&& frame.subrange(0, 4) == le_bytes(plain.len(), 4)
    &&& xchacha_open(key, frame.subrange(4, 28), frame_aad(path, i as u64, plain.len() as u32), frame.subrange(28, frame.len() as int))
        == Some(plain)
}

proof fn lemma_taken_from(
    key: Seq<u8>,
    path: Seq<char>,
    chunk_size: nat,
    frames: Seq<Seq<u8>>,
    plains: Seq<Seq<u8>>,
    remaining: Seq<nat>,
    tail: Seq<u8>,
    k: int,
)
    requires
        chunk_size <= 67108864,
        plains.len() == frames.len(),
        remaining.len() == frames.len() + 1,
        remaining[frames.len() as int] == 0,
        0 <= k <= frames.len(),
        forall|i: int| 0 <= i < frames.len() ==> #[trigger] frame_taken(key, path, chunk_size, i, remaining[i], frames[i], plains[i]),
        forall|i: int| 0 <= i < frames.len() ==> remaining[i + 1] == remaining[i] - (#[trigger] plains[i]).len(),
    ensures
        read_back(key, path, chunk_size, concat_all(frames.skip(k)) + tail, k as nat, remaining[k]) == Some(concat_all(plains.skip(k))),
    decreases frames.len() - k,
{
    if k == frames.len() {
        assert(plains.skip(k) =~= Seq::<Seq<u8>>::empty());
    } else {
        let f = frames[k];
        let p = plains[k];
        let len = p.len();
        assert(frame_taken(key, path, chunk_size, k, remaining[k], f, p));
        assert(remaining[k + 1] == remaining[k] - plains[k].len());
        lemma_taken_from(key, path, chunk_size, frames, plains, remaining, tail, k + 1);
        let fs = frames.skip(k);
        let ps = plains.skip(k);
        lemma_concat_front(fs);
        lemma_concat_front(ps);
        assert(fs[0] == f);
        assert(ps[0] == p);
        assert(fs.skip(1) =~= frames.skip(k + 1));
        assert(ps.skip(1) =~= plains.skip(k + 1));
        let rest_body = concat_all(frames.skip(k + 1)) + tail;
        let body = concat_all(fs) + tail;
        assert(body =~= f + rest_body);
        assert(concat_all(ps) == p + concat_all(plains.skip(k + 1)));
        reveal_with_fuel(pow256, 5);
        lemma_le_bytes_num(len, 4);
        assert(body.subrange(0, 4) =~= f.subrange(0, 4));
        assert(le_num(body.subrange(0, 4)) == len);
        assert(body.subrange(4, 28) =~= f.subrange(4, 28));
        assert(body.subrange(28, len + 44 as int) =~= f.subrange(28, f.len() as int));
        assert(body.skip(len + 44 as int) =~= rest_body);
        assert((k as nat) as u64 == k as u64);
    }
}

/// Reading frame by frame as `read_encrypted_file` does follows
/// `read_back`: when, from `remaining[0]` announced bytes, the frames taken
/// in order (each as `frame_taken` says, the announced bytes shrinking by
/// each plaintext) bring the count to zero, then `read_back` of those bytes,
/// whatever follows them, is the plaintexts joined, which is what the digest
/// was fed. With `law_written_file_reads_back`, a written file read this way
/// gives back its chunks and their hash.
pub proof fn law_frame_reads_follow_read_back(
    key: Seq<u8>,
    path: Seq<char>,
    chunk_size: nat,
    frames: Seq<Seq<u8>>,
    plains: Seq<Seq<u8>>,
    remaining: Seq<nat>,
    tail: Seq<u8>,
)
    requires
        chunk_size <= 67108864,
        plains.len() == frames.len(),
        remaining.len() == frames.len() + 1,
        remaining[frames.len() as int] == 0,
        forall|i: int| 0 <= i < frames.len() ==> #[trigger] frame_taken(key, path, chunk_size, i, remaining[i], frames[i], plains[i]),
        forall|i: int| 0 <= i < frames.len() ==> remaining[i + 1] == remaining[i] - (#[trigger] plains[i]).len(),
    ensures
        read_back(key, path, chunk_size, concat_all(frames) + tail, 0, remaining[0]) == Some(concat_all(plains)),
{
    lemma_taken_from(key, path, chunk_size, frames, plains, remaining, tail, 0);
    assert(frames.skip(0) =~= frames);
    assert(plains.skip(0) =~= plains);
}
} // verus!
