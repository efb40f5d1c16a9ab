//! Request payloads of the data-management commands.
use vstd::prelude::*;
use crate::strs::string_from_str;

verus! {

/// Move the data directory to `new_path`, in the given mode.
#[derive(Debug)]
pub struct ChangePathPayload {
    pub new_path: String,
    pub mode: String,
}

/// Reset the data directory to the default, in the given mode.
#[derive(Debug)]
pub struct ResetPathPayload {
    pub mode: String,
}

/// Ask whether `target_path` already holds data.
#[derive(Debug)]
pub struct CheckTargetPayload {
    pub target_path: String,
}

/// Export the data as a zip at `target_path`.
#[derive(Debug)]
pub struct ExportPayload {
    pub target_path: String,
}

/// Import the zip at `zip_path`, in the given mode (required).
#[derive(Debug)]
pub struct ImportPayload {
    pub zip_path: String,
    pub mode: String,
}

/// The mode used when a payload names none: `source_only`.
pub fn default_source_only() -> (r: String)
    ensures
        r@ == "source_only"@,
{
    string_from_str("source_only")
}

impl ChangePathPayload {
    /// The payload for `new_path`, with the mode defaulted when absent.
    pub fn new(new_path: String, mode: Option<String>) -> (p: Self)
        ensures
            p.new_path@ == new_path@,
            mode.is_some() ==> p.mode@ == mode.unwrap()@,
            mode.is_none() ==> p.mode@ == "source_only"@,
    {
        let mode = match mode {
            Some(m) => m,
            None => default_source_only(),
        };
        ChangePathPayload { new_path, mode }
    }
}

impl ResetPathPayload {
    /// The payload, with the mode defaulted when absent.
    pub fn new(mode: Option<String>) -> (p: Self)
        ensures
            mode.is_some() ==> p.mode@ == mode.unwrap()@,
            mode.is_none() ==> p.mode@ == "source_only"@,
    {
        let mode = match mode {
            Some(m) => m,
            None => default_source_only(),
        };
        ResetPathPayload { mode }
    }
}

} // verus!
