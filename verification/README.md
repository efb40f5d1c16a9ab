# quickclipboard_core

The verified core of a clipboard manager, written in Verus. Every function in
`src/` carries a contract that Verus proves; the few calls into std and
outside crates (clock, random numbers, UUIDs, base64, hex, SHA-256, Argon2id,
XChaCha20-Poly1305, JSON reading) go through small trusted wrappers whose
contracts say only what those crates document.

## Layout

- `src/strs.rs`, `src/unicode.rs`: character-level string toolkit (UTF-8 byte
  lengths, trimming, search, ordering of texts).
- `src/text.rs`, `src/html.rs`, `src/cf_html.rs`: excerpts of long text and
  HTML, and the Windows `CF_HTML` clipboard framing.
- `src/table.rs`: rows keyed by text, one row per key, the in-memory form of
  the stored tables.
- `src/merge.rs`, `src/tombstones.rs`, `src/tombstone_store.rs`, `src/sync.rs`,
  `src/history_records.rs`: the sync model: cloud records and groups,
  deletion tombstones and the store that keeps them, merging
  pulled records and groups into the stored tables, and the stored history as
  the sync sees it.
- `src/groups.rs`, `src/group_style.rs`: the local group list and the
  normalization of group icons and colors.
- `src/clipboard_store.rs`, `src/clipboard_data.rs`, `src/item_order.rs`,
  `src/deletion.rs`, `src/query.rs`: storing, editing, ordering, deleting and
  listing clipboard history, and the raw clipboard formats kept beside it.
- `src/pairing.rs`, `src/peers.rs`, `src/lan.rs`: LAN pairing codes, paired
  peers, snapshots and transfer progress.
- `src/crypto.rs`, `src/files_json.rs`, `src/icon.rs`: the end-to-end
  encryption framing of cloud data and files, file lists, icon hashes.
- `src/panel.rs`, `src/window_state.rs`, `src/low_memory.rs`, `src/sound.rs`,
  `src/keyboard.rs`, `src/startup.rs`, `src/settings.rs`, `src/shelf.rs`,
  `src/payloads.rs`, `src/entry.rs`, `src/webview_guard.rs`, `src/image.rs`:
  window, panel, sound, paste-key, startup and settings decisions.

`app/` is ordinary Rust around the library: the program entry, file I/O,
environment lookups and the JSON forms of the library's types. `tests/` holds
the tests, run against the compiled library.
