//! Settings storage decisions: the step-wise migration of old settings, when
//! a loaded file must be written back, and where the data directory is.
//! Reading and writing the file stays outside.
use vstd::prelude::*;
use crate::strs::{self, char_vec, contains_chars, trimmed_chars};

verus! {

pub const SETTINGS_MIGRATION_VERSION_V1: u32 = 1;
pub const SETTINGS_MIGRATION_VERSION_V2: u32 = 2;
pub const SETTINGS_MIGRATION_VERSION_V3: u32 = 3;

/// The settings fields the migration reads and writes.
#[derive(Debug)]
pub struct MigrationFields {
    pub settings_migration_version: Option<u32>,
    pub image_preview: bool,
    pub text_preview: bool,
    pub file_preview: bool,
}

/// Settings kept in `settings.json` under the data directory.
pub struct SettingsStorage;

/// The version a settings value was migrated to (0 when never).
pub open spec fn version_of(v: Option<u32>) -> u32 {
    match v {
        Some(x) => x,
        None => 0,
    }
}

impl SettingsStorage {
    /// Brings the settings to the current version step by step: before V1
    /// the three previews are switched on; any step sets the version to V3.
    /// Returns whether anything changed and whether the V3 step (the
    /// app-filter normalization, done by the caller) is due.
    pub fn migrate_settings(settings: &mut MigrationFields) -> (r: (bool, bool))
        ensures
            ({
                let v = version_of(old(settings).settings_migration_version);
                &&& r.0 == (v < 3)
                &&& r.1 == (v < 3)
                &&& final(settings).settings_migration_version == (if v < 3 {
                    Some(3u32)
                } else {
                    old(settings).settings_migration_version
                })
                &&& (v < 1 ==> final(settings).image_preview && final(settings).text_preview && final(settings).file_preview)
                &&& (v >= 1 ==> final(settings).image_preview == old(settings).image_preview
                    && final(settings).text_preview == old(settings).text_preview
                    && final(settings).file_preview == old(settings).file_preview)
            }),
    {
        let mut migrated = false;
        let mut normalize_filter = false;
        let version = match settings.settings_migration_version {
            Some(v) => v,
            None => 0,
        };
        if version < SETTINGS_MIGRATION_VERSION_V1 {
            settings.image_preview = true;
            settings.text_preview = true;
            settings.file_preview = true;
            settings.settings_migration_version = Some(SETTINGS_MIGRATION_VERSION_V1);
            migrated = true;
        }
        if version < SETTINGS_MIGRATION_VERSION_V2 {
            settings.settings_migration_version = Some(SETTINGS_MIGRATION_VERSION_V2);
            migrated = true;
        }
        if version < SETTINGS_MIGRATION_VERSION_V3 {
            normalize_filter = true;
            settings.settings_migration_version = Some(SETTINGS_MIGRATION_VERSION_V3);
            migrated = true;
        }
        (migrated, normalize_filter)
    }

    /// Whether the settings text still holds the retired LAN-sync keys.
    pub fn has_legacy_lan_sync_settings(content: &str) -> (r: bool)
        ensures
            r == strs::contains_seq(content@, "\"lanSync"@),
    {
        let hay = char_vec(content);
        let needle = char_vec("\"lanSync");
        contains_chars(&hay, &needle)
    }

    /// A loaded file is written back when it was migrated, its app filter
    /// normalized, it held retired LAN-sync keys, or it held a password.
    pub fn needs_rewrite(migrated: bool, normalized: bool, has_legacy_lan_sync: bool, had_legacy_password: bool) -> (r: bool)
        ensures
            r == (migrated || normalized || has_legacy_lan_sync || had_legacy_password),
    {
        migrated || normalized || has_legacy_lan_sync || had_legacy_password
    }

    /// A stored WebDAV password leaves the settings file; it moves to the
    /// credential store only when the URL and user name are not blank.
    /// Returns (clear the field, move it to the credential store).
    pub fn legacy_password_plan(password: &str, url: &str, username: &str) -> (r: (bool, bool))
        ensures
            r.0 == (password@.len() > 0),
            r.1 == (password@.len() > 0 && strs::trim(url@).len() > 0 && strs::trim(username@).len() > 0),
    {
        if password.is_empty() {
            return (false, false);
        }
        let u = trimmed_chars(url);
        let n = trimmed_chars(username);
        (true, u.len() > 0 && n.len() > 0)
    }

    /// The configured custom data directory, when custom storage is on and a
    /// path is set; `None` means the default directory.
    pub fn custom_data_directory(use_custom_storage: bool, custom_storage_path: Option<String>) -> (r: Option<String>)
        ensures
            (use_custom_storage && custom_storage_path is Some) ==> r == custom_storage_path,
            !(use_custom_storage && custom_storage_path is Some) ==> r is None,
    {
        if use_custom_storage {
            custom_storage_path
        } else {
            None
        }
    }
}

} // verus!
