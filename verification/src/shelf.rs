//! The transfer shelf: window labels, shell path spelling and the payloads
//! it exchanges with its window.
use vstd::prelude::*;
use crate::strs::{self, char_vec, push_chars, push_str, starts_with_chars, string_from_str};

verus! {

/// Prefix of every shelf window label.
pub const LABEL_PREFIX: &'static str = "transfer-shelf-";

/// Event carrying a send task's progress.
pub const TASK_PROGRESS_EVENT: &'static str = "transfer-shelf-task-progress";

/// Event announcing a changed shelf.
pub const STATE_CHANGED_EVENT: &'static str = "transfer-shelf-state-changed";

#[derive(Debug)]
pub struct ShelfFileInfo {
    pub path: String,
    pub name: String,
    pub size: u64,
    pub is_dir: bool,
    pub exists: bool,
    pub icon: Option<String>,
}

#[derive(Debug)]
pub struct ShelfSummary {
    pub id: String,
    pub label: String,
    pub name: String,
}

#[derive(Debug)]
pub struct ShelfSendTarget {
    pub peer_id: String,
    pub path: String,
}

#[derive(Debug)]
pub struct ShelfCloudUploadTarget {
    pub path: String,
}

#[derive(Debug)]
pub struct ShelfSendError {
    pub peer_id: String,
    pub path: String,
    pub message: String,
}

#[derive(Debug)]
pub struct ShelfFileProgress {
    pub path: String,
    pub sent_bytes: u64,
    pub total_bytes: u64,
    pub total: usize,
    pub done: usize,
    pub failed: usize,
    pub status: String,
}

#[derive(Debug)]
pub struct ShelfSendTaskPayload {
    pub shelf_id: String,
    pub status: String,
    pub total: usize,
    pub done: usize,
    pub failed: usize,
    pub sent_bytes: u64,
    pub total_bytes: u64,
    pub current_path: Option<String>,
    pub current_file_name: Option<String>,
    pub errors: Vec<ShelfSendError>,
    pub file_progresses: Vec<ShelfFileProgress>,
}

#[derive(Debug)]
pub struct ShelfStateSnapshot {
    pub id: String,
    pub name: String,
    pub files: Vec<ShelfFileInfo>,
    pub selected_peer_ids: Vec<String>,
}

/// The window label of shelf `id`: the prefix followed by the id.
pub fn label_for(id: &str) -> (r: String)
    ensures
        r@ == "transfer-shelf-"@ + id@,
{
    let mut out = string_from_str(LABEL_PREFIX);
    push_str(&mut out, id);
    out
}

/// The path as the shell hands it on: on Windows the extended-length
/// prefixes are dropped (`\\?\UNC\server\share` to `\\server\share`,
/// `\\?\C:\x` to `C:\x`); elsewhere the path is kept.
pub open spec fn shell_path(path: Seq<char>, windows: bool) -> Seq<char> {
    if windows && strs::matches_at(path, "\\\\?\\UNC\\"@, 0) {
        "\\\\"@ + path.skip("\\\\?\\UNC\\"@.len() as int)
    } else if windows && strs::matches_at(path, "\\\\?\\"@, 0) {
        path.skip("\\\\?\\"@.len() as int)
    } else {
        path
    }
}

/// The shell spelling of `path`; see `shell_path`.
pub fn normalize_shell_path(path: &str, windows: bool) -> (r: String)
    ensures
        r@ == shell_path(path@, windows),
{
    if !windows {
        return string_from_str(path);
    }
    let chars = char_vec(path);
    let unc = char_vec("\\\\?\\UNC\\");
    if starts_with_chars(&chars, &unc) {
        let mut out = string_from_str("\\\\");
        push_chars(&mut out, &chars, unc.len(), chars.len());
        return out;
    }
    let ext = char_vec("\\\\?\\");
    if starts_with_chars(&chars, &ext) {
        let mut out = String::new();
        push_chars(&mut out, &chars, ext.len(), chars.len());
        assert(out@ =~= chars@.skip(ext@.len() as int));
        return out;
    }
    string_from_str(path)
}

} // verus!
