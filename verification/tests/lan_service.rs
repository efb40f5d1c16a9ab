use quickclipboard_core::lan::{
    device_id, find_paired_peer, lan_list_paired_peers, lan_refresh_pairing_code, lan_remove_paired_peer,
    lan_status, list_favorite_records_since, list_history_records_since, load_or_create_device_id, snapshot,
    status, transfer_id_or_default, DeviceIdentity, FileTransferProgressReporter,
};
use quickclipboard_core::pairing::LanRuntime;
use quickclipboard_core::peers::{PairedPeer, PeerStore};
use quickclipboard_core::sync::{CloudGroup, CloudRecord, TimestampMap};

fn is_uuid_v4(value: &str) -> bool {
    let bytes = value.as_bytes();
    bytes.len() == 36
        && bytes[8] == b'-'
        && bytes[13] == b'-'
        && bytes[18] == b'-'
        && bytes[23] == b'-'
        && bytes[14] == b'4'
        && (bytes[19] == b'8' || bytes[19] == b'9' || bytes[19] == b'a' || bytes[19] == b'b')
        && value.bytes().all(|b| b.is_ascii_hexdigit() || b == b'-')
}

fn no_store() -> PeerStore {
    PeerStore { ready: false, peers: Vec::new() }
}

fn record(uuid: &str, updated_at: i64) -> CloudRecord {
    CloudRecord {
        uuid: uuid.to_string(),
        source_device_id: "dev-a".to_string(),
        is_remote: false,
        content: "c".to_string(),
        html_content: None,
        content_type: "text".to_string(),
        image_id: None,
        source_app: None,
        source_icon_hash: None,
        char_count: None,
        title: String::new(),
        group_name: "全部".to_string(),
        item_order: 0,
        paste_count: 0,
        created_at: 1,
        updated_at,
    }
}

fn peer(device_id: &str) -> PairedPeer {
    PairedPeer {
        device_id: device_id.to_string(),
        device_name: format!("dev-{}", device_id),
        base_url: format!("http://{}", device_id),
        peer_token: format!("tok-{}", device_id),
        paired_at_ms: 1000,
        last_seen_at_ms: None,
    }
}

#[test]
fn device_id_is_uuid_v4_format() {
    let mut identity = DeviceIdentity::new();
    let id = device_id(&mut identity, None, None);
    assert!(!id.is_empty());
    assert!(is_uuid_v4(&id), "{}", id);
    assert_eq!(device_id(&mut identity, None, None), id);
}

#[test]
fn device_id_passthrough_is_uuid() {
    let mut identity = DeviceIdentity::new();
    let id = device_id(&mut identity, None, None);
    assert_eq!(id.len(), 36);
    assert_eq!(&id[14..15], "4");
}

#[test]
fn device_id_prefers_stored_then_legacy() {
    assert_eq!(load_or_create_device_id(Some(" abc ".to_string()), Some("old".to_string())), ("abc".to_string(), false));
    assert_eq!(load_or_create_device_id(Some("  ".to_string()), Some("old".to_string())), ("old".to_string(), true));
    let (fresh, write) = load_or_create_device_id(None, Some(" ".to_string()));
    assert!(is_uuid_v4(&fresh));
    assert!(write);
    let mut identity = DeviceIdentity::new();
    assert_eq!(device_id(&mut identity, Some("kept".to_string()), None), "kept");
    assert_eq!(device_id(&mut identity, Some("other".to_string()), None), "kept");
}

#[test]
fn status_shape_when_nothing_running() {
    let mut rt = LanRuntime::new();
    let mut store = no_store();
    let mut identity = DeviceIdentity::new();
    let id = device_id(&mut identity, None, None);
    let st = status(&mut rt, &mut store, id, "host".to_string(), 51234, false, false);
    assert_eq!(st.device_id.len(), 36);
    assert_eq!(&st.device_id[14..15], "4");
    assert!(st.device_id.bytes().all(|b| b.is_ascii_hexdigit() || b == b'-'));
    assert_eq!(st.http_port, 51234);
    assert!(!st.http_running);
    assert!(!st.discovery_running);
    assert_eq!(st.pairing_code.pairing_code.len(), 6);
    assert_eq!(st.paired_count, 0);
}

#[test]
fn lan_status_counts_distinct_paired_peers() {
    let mut rt = LanRuntime::new();
    let mut store = PeerStore { ready: true, peers: vec![peer("a"), peer("b"), peer("a")] };
    let st = lan_status(&mut rt, &mut store, "me".to_string(), "host".to_string(), 1, true, true);
    assert_eq!(st.paired_count, 2);
    assert!(st.http_running && st.discovery_running);
}

#[test]
fn lan_list_paired_peers_is_empty_without_store() {
    assert!(lan_list_paired_peers(&mut no_store()).is_empty());
}

#[test]
fn lan_remove_paired_peer_returns_false_without_store() {
    assert_eq!(lan_remove_paired_peer(&mut no_store(), "missing"), Ok(false));
}

#[test]
fn lan_refresh_pairing_code_gives_six_digits() {
    let mut rt = LanRuntime::new();
    let view = lan_refresh_pairing_code(&mut rt);
    assert_eq!(view.pairing_code.len(), 6);
    assert_eq!(view.remaining_attempts, 5);
}

#[test]
fn record_batches_keep_only_newer_records_in_order() {
    let none = TimestampMap::new();
    let records = vec![record("a", 100), record("b", 300), record("c", 200)];
    let batch = list_history_records_since(records, Some(150), &none);
    assert_eq!(batch.collection, "history");
    let ids: Vec<String> = batch.records.into_iter().map(|r| r.uuid).collect();
    assert_eq!(ids, vec!["b".to_string(), "c".to_string()]);

    let records = vec![record("a", 100), record("b", 300)];
    let batch = list_favorite_records_since(records, None, &none);
    assert_eq!(batch.collection, "favorites");
    assert_eq!(batch.records.len(), 2);

    let batch = list_history_records_since(vec![record("a", 150)], Some(150), &none);
    assert!(batch.records.is_empty());
}

#[test]
fn record_batches_leave_out_deleted_records() {
    let mut states = TimestampMap::new();
    states.insert("history:b".to_string(), 300);
    states.insert("history:c".to_string(), 100);
    states.insert("favorites:a".to_string(), 500);
    let records = vec![record("a", 100), record("b", 300), record("c", 200)];
    let batch = list_history_records_since(records, None, &states);
    let ids: Vec<String> = batch.records.into_iter().map(|r| r.uuid).collect();
    assert_eq!(ids, vec!["a".to_string(), "c".to_string()]);

    let batch = list_favorite_records_since(vec![record("a", 100), record("b", 1)], None, &states);
    let ids: Vec<String> = batch.records.into_iter().map(|r| r.uuid).collect();
    assert_eq!(ids, vec!["b".to_string()]);
}

#[test]
fn snapshot_keeps_every_state() {
    let mut history = TimestampMap::new();
    history.insert("u1".to_string(), 100);
    let mut favorites = TimestampMap::new();
    favorites.insert("f1".to_string(), 200);
    let mut tombstones = TimestampMap::new();
    tombstones.insert("t1".to_string(), 300);
    let group = CloudGroup {
        name: "work".to_string(),
        icon: "ti ti-briefcase".to_string(),
        color: "#3b82f6".to_string(),
        order: 1,
        source_device_id: "dev-a".to_string(),
        created_at: 100,
        updated_at: 200,
    };
    let s = snapshot("dev-a".to_string(), history, favorites, vec![group], tombstones);
    assert_eq!(s.device_id, "dev-a");
    assert_eq!(s.history_states.get("u1"), Some(100));
    assert_eq!(s.favorite_states.get("f1"), Some(200));
    assert_eq!(s.tombstone_states.get("t1"), Some(300));
    assert_eq!(s.groups[0].name, "work");
}

#[test]
fn progress_reporter_emits_exact_fields() {
    let reporter = FileTransferProgressReporter::new(
        "t-1".to_string(),
        "dev-9".to_string(),
        "/tmp/a.bin".to_string(),
        "a.bin".to_string(),
        1024,
    );
    let event = reporter.emit("sending", 512);
    assert_eq!(event.transfer_id, "t-1");
    assert_eq!(event.device_id, "dev-9");
    assert_eq!(event.file_path, "/tmp/a.bin");
    assert_eq!(event.file_name, "a.bin");
    assert_eq!(event.sent_bytes, 512);
    assert_eq!(event.total_bytes, 1024);
    assert_eq!(event.status, "sending");
}

#[test]
fn progress_reporter_reports_completion_status() {
    let reporter = FileTransferProgressReporter::new("t-2".to_string(), "dev-9".to_string(), "p".to_string(), "n".to_string(), 100);
    let event = reporter.emit("done", 100);
    assert_eq!(event.status, "done");
    assert_eq!(event.sent_bytes, 100);
}

#[test]
fn progress_reporter_echoes_transfer_id_passed_at_construction() {
    let id = transfer_id_or_default(None, "dev-9", "/tmp/x.bin");
    assert_eq!(id, "dev-9:/tmp/x.bin");
    assert_eq!(transfer_id_or_default(Some("given".to_string()), "dev-9", "/tmp/x.bin"), "given");
    let reporter = FileTransferProgressReporter::new(id, "dev-9".to_string(), "/tmp/x.bin".to_string(), "x.bin".to_string(), 0);
    assert_eq!(reporter.emit("sending", 0).transfer_id, "dev-9:/tmp/x.bin");
}

#[test]
fn send_file_to_peer_fails_when_peer_not_paired() {
    let err = find_paired_peer(&[], "missing-device").unwrap_err();
    assert_eq!(err, "未找到已配对设备");
    let found = find_paired_peer(&[peer("a"), peer("b")], "b").unwrap();
    assert_eq!(found.peer_token, "tok-b");
}
