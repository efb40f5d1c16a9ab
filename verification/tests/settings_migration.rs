use quickclipboard_core::settings::{MigrationFields, SettingsStorage, SETTINGS_MIGRATION_VERSION_V1, SETTINGS_MIGRATION_VERSION_V2, SETTINGS_MIGRATION_VERSION_V3};

fn fields(version: Option<u32>) -> MigrationFields {
    MigrationFields { settings_migration_version: version, image_preview: false, text_preview: false, file_preview: false }
}

#[test]
fn migrates_from_absent_version_through_v3() {
    let mut s = fields(None);
    assert_eq!(SettingsStorage::migrate_settings(&mut s), (true, true));
    assert_eq!(s.settings_migration_version, Some(SETTINGS_MIGRATION_VERSION_V3));
    assert!(s.image_preview && s.text_preview && s.file_preview);
}

#[test]
fn does_not_reapply_v1_when_starting_from_v1() {
    let mut s = fields(Some(SETTINGS_MIGRATION_VERSION_V1));
    assert_eq!(SettingsStorage::migrate_settings(&mut s), (true, true));
    assert_eq!(s.settings_migration_version, Some(SETTINGS_MIGRATION_VERSION_V3));
    assert!(!s.image_preview);
}

#[test]
fn migrates_v2_to_v3_with_filter_normalization() {
    let mut s = fields(Some(SETTINGS_MIGRATION_VERSION_V2));
    assert_eq!(SettingsStorage::migrate_settings(&mut s), (true, true));
    assert_eq!(s.settings_migration_version, Some(SETTINGS_MIGRATION_VERSION_V3));
}

#[test]
fn noop_when_already_at_v3() {
    let mut s = fields(Some(SETTINGS_MIGRATION_VERSION_V3));
    assert_eq!(SettingsStorage::migrate_settings(&mut s), (false, false));
    assert_eq!(s.settings_migration_version, Some(SETTINGS_MIGRATION_VERSION_V3));
}

#[test]
fn rewrite_rules_and_legacy_keys() {
    assert!(SettingsStorage::has_legacy_lan_sync_settings(r#"{"lanSyncTransferEnabled": true}"#));
    assert!(!SettingsStorage::has_legacy_lan_sync_settings(r#"{"historyLimit": 5}"#));
    assert!(!SettingsStorage::needs_rewrite(false, false, false, false));
    assert!(SettingsStorage::needs_rewrite(false, false, true, false));
    assert_eq!(SettingsStorage::legacy_password_plan("", "https://x", "alice"), (false, false));
    assert_eq!(SettingsStorage::legacy_password_plan("s3cret", "https://dav.example.com", "alice"), (true, true));
    assert_eq!(SettingsStorage::legacy_password_plan("s3cret", "  ", "alice"), (true, false));
}

#[test]
fn custom_data_directory_choice() {
    assert_eq!(SettingsStorage::custom_data_directory(true, Some("/tmp/qc".to_string())), Some("/tmp/qc".to_string()));
    assert_eq!(SettingsStorage::custom_data_directory(true, None), None);
    assert_eq!(SettingsStorage::custom_data_directory(false, Some("/tmp/qc".to_string())), None);
}
