//! Verified core of a clipboard manager: text excerpts, HTML clipboard
//! framing, the clipboard history and group tables with their ordering and
//! deletion rules, sync merging and tombstones, pairing and peer bookkeeping,
//! window and low-memory state, and the cloud encryption framing.
use vstd::prelude::*;

pub mod pairing;
pub mod payloads;
pub mod panel;
pub mod peers;
pub mod settings;
pub mod shelf;
pub mod query;
pub mod sound;
pub mod sql_like;
pub mod startup;
pub mod strs;
pub mod app_links;
pub mod cf_html;
pub mod clipboard_data;
pub mod clipboard_store;
pub mod crypto;
pub mod deletion;
pub mod entry;
pub mod files_json;
pub mod group_style;
pub mod groups;
pub mod history_records;
pub mod html;
pub mod icon;
pub mod image;
pub mod item_order;
pub mod keyboard;
pub mod lan;
pub mod low_memory;
pub mod merge;
pub mod sync;
pub mod table;
pub mod text;
pub mod tombstones;
pub mod tombstone_store;
pub mod unicode;
pub mod webview_guard;
pub mod window_state;

verus! {
} // verus!
