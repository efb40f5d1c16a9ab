use quickclipboard_core::pairing::device_name;
use quickclipboard_core::pairing::{
    confirm_pairing, create_pairing_challenge, create_peer_token, current_pairing_code,
    refresh_pairing_code, resolve_device_id, stored_device_id, token_matches_peer,
    verify_pairing_code, verify_pairing_code_at, verify_peer_token, LanRuntime, PairingChallenge,
    PairingState, DEFAULT_PAIRING_CODE_TTL_SECS, DEFAULT_PAIRING_MAX_ATTEMPTS,
};
use quickclipboard_core::peers::{
    dedupe_peers, list_peer_infos, list_peers, mark_peer_seen, normalized_base_url, remove_peer,
    same_peer_identity, save_peers, upsert_peer, PairedPeer, PeerStore,
};

fn peer(device_id: &str, base_url: &str) -> PairedPeer {
    PairedPeer {
        device_id: device_id.to_string(),
        device_name: format!("dev-{}", device_id),
        base_url: base_url.to_string(),
        peer_token: format!("tok-{}", device_id),
        paired_at_ms: 1000,
        last_seen_at_ms: None,
    }
}

fn no_store() -> PeerStore {
    PeerStore { ready: false, peers: Vec::new() }
}

fn now_ms() -> i64 {
    std::time::SystemTime::now()
        .duration_since(std::time::UNIX_EPOCH)
        .unwrap()
        .as_millis() as i64
}

fn inject(rt: &mut LanRuntime, code: &str, expires_at_ms: i64, max_attempts: u8, failed_attempts: u8) {
    rt.pairing_state = Some(PairingState {
        challenge: PairingChallenge { pairing_code: code.to_string(), expires_at_ms, max_attempts },
        failed_attempts,
    });
}

#[test]
fn normalized_base_url_trims_lowercases_strips_trailing_slash() {
    assert_eq!(normalized_base_url("  HTTP://EXAMPLE.COM:35691/// "), "http://example.com:35691");
    assert_eq!(normalized_base_url("http://192.168.1.5"), "http://192.168.1.5");
    assert_eq!(normalized_base_url(""), "");
}

#[test]
fn same_peer_identity_matches_device_id_or_normalized_base_url() {
    assert!(same_peer_identity(&peer("a", "http://x:1"), &peer("a", "http://y:2")));
    assert!(same_peer_identity(&peer("a", "http://X:1/"), &peer("b", "HTTP://x:1")));
    assert!(!same_peer_identity(&peer("a", "http://x:1"), &peer("b", "http://x:2")));
    assert!(!same_peer_identity(&peer("a", ""), &peer("b", "")), "空 base_url 不构成身份");
}

#[test]
fn dedupe_peers_keeps_last_occurrence_per_identity() {
    let peers = vec![peer("a", "http://x:1"), peer("a", "http://x:1"), peer("b", "http://y:1")];
    let out = dedupe_peers(peers);
    assert_eq!(out.len(), 2);
    assert_eq!(out[0].device_id, "a");
    assert_eq!(out[1].device_id, "b");
}

#[test]
fn dedupe_peers_by_normalized_base_url_keeps_last() {
    let peers = vec![peer("a", "http://same:1"), peer("b", "HTTP://SAME:1/")];
    let out = dedupe_peers(peers);
    assert_eq!(out.len(), 1);
    assert_eq!(out[0].device_id, "b", "后出现的条目胜出");
}

#[test]
fn paired_peer_new_sets_paired_at_and_no_last_seen() {
    let p = PairedPeer::new("d1".to_string(), "name".to_string(), "http://x".to_string(), "tok".to_string());
    assert_eq!(p.device_id, "d1");
    assert_eq!(p.device_name, "name");
    assert_eq!(p.base_url, "http://x");
    assert_eq!(p.peer_token, "tok");
    assert!(p.paired_at_ms > 0);
    assert_eq!(p.last_seen_at_ms, None);
}

#[test]
fn paired_peer_info_drops_token_and_copies_fields() {
    let p = PairedPeer {
        device_id: "d1".to_string(),
        device_name: "name".to_string(),
        base_url: "http://x".to_string(),
        peer_token: "secret-token".to_string(),
        paired_at_ms: 123,
        last_seen_at_ms: Some(456),
    };
    let info = p.info();
    assert_eq!(info.device_id, "d1");
    assert_eq!(info.device_name, "name");
    assert_eq!(info.base_url, "http://x");
    assert_eq!(info.paired_at_ms, 123);
    assert_eq!(info.last_seen_at_ms, Some(456));
}

#[test]
fn list_peers_is_empty_without_store() {
    assert!(list_peers(&mut no_store()).is_empty());
}

#[test]
fn list_peer_infos_is_empty_without_store() {
    assert!(list_peer_infos(&mut no_store()).is_empty());
}

#[test]
fn save_peers_errors_without_store() {
    assert_eq!(save_peers(&mut no_store(), &[]), Err("AppHandle 未初始化".to_string()));
}

#[test]
fn upsert_peer_errors_without_store() {
    assert_eq!(
        upsert_peer(&mut no_store(), peer("a", "http://x:1")),
        Err("AppHandle 未初始化".to_string())
    );
}

#[test]
fn mark_peer_seen_is_noop_without_peers() {
    assert_eq!(mark_peer_seen(&mut no_store(), "missing-device"), Ok(()));
}

#[test]
fn remove_peer_returns_false_without_peers() {
    assert_eq!(remove_peer(&mut no_store(), "missing-device"), Ok(false));
}

#[test]
fn store_round_trip_upsert_mark_remove() {
    let mut store = PeerStore { ready: true, peers: Vec::new() };
    upsert_peer(&mut store, peer("a", "http://x:1")).unwrap();
    upsert_peer(&mut store, peer("b", "http://y:1")).unwrap();
    upsert_peer(&mut store, peer("c", "HTTP://X:1/")).unwrap();
    let ids: Vec<String> = list_peers(&mut store).into_iter().map(|p| p.device_id).collect();
    assert_eq!(ids, vec!["b".to_string(), "c".to_string()], "同一身份被替换并移到末尾");
    assert_eq!(mark_peer_seen(&mut store, "b"), Ok(()));
    assert!(list_peers(&mut store)[0].last_seen_at_ms.is_some());
    assert_eq!(remove_peer(&mut store, "b"), Ok(true));
    assert_eq!(remove_peer(&mut store, "b"), Ok(false));
    assert_eq!(list_peers(&mut store).len(), 1);
}

#[test]
fn list_peers_saves_back_deduplicated_list() {
    let mut store = PeerStore { ready: true, peers: vec![peer("a", "http://x:1"), peer("a", "http://z:1")] };
    let out = list_peers(&mut store);
    assert_eq!(out.len(), 1);
    assert_eq!(out[0].base_url, "http://z:1");
    assert_eq!(store.peers.len(), 1);
}

#[test]
fn verify_pairing_code_without_state_errors_refreshed() {
    let mut rt = LanRuntime::new();
    let err = verify_pairing_code(&mut rt, "123456").unwrap_err();
    assert_eq!(err, "配对码已刷新，请重新输入");
}

#[test]
fn verify_pairing_code_wrong_code_consumes_attempt_and_locks_after_max() {
    let mut rt = LanRuntime::new();
    inject(&mut rt, "123456", now_ms() + 60_000, 5, 0);
    for attempt in 1..=5 {
        let err = verify_pairing_code(&mut rt, "000000").unwrap_err();
        assert_eq!(err, "配对码不正确", "第 {} 次错误应报告不正确", attempt);
    }
    assert_eq!(current_pairing_code(&mut rt).remaining_attempts, 0);
    let err = verify_pairing_code(&mut rt, "000000").unwrap_err();
    assert_eq!(err, "配对码尝试次数过多，请刷新后重试");
    let err = verify_pairing_code(&mut rt, "123456").unwrap_err();
    assert_eq!(err, "配对码尝试次数过多，请刷新后重试");
}

#[test]
fn verify_pairing_code_correct_code_resets_attempts() {
    let mut rt = LanRuntime::new();
    inject(&mut rt, "123456", now_ms() + 60_000, 5, 3);
    assert_eq!(verify_pairing_code(&mut rt, "  123456  "), Ok(()));
    assert_eq!(current_pairing_code(&mut rt).remaining_attempts, 5, "成功后失败计数清零");
}

#[test]
fn verify_pairing_code_expired_replaces_challenge_and_errors() {
    let mut rt = LanRuntime::new();
    inject(&mut rt, "123456", 1_000, 5, 0);
    let err = verify_pairing_code_at(&mut rt, "123456", 1_000).unwrap_err();
    assert_eq!(err, "配对码已过期，请重新输入");
    let view = current_pairing_code(&mut rt);
    assert_eq!(view.remaining_attempts, 5);
    assert!(view.expires_at_ms > now_ms());
}

#[test]
fn refresh_pairing_code_resets_failed_attempts() {
    let mut rt = LanRuntime::new();
    inject(&mut rt, "123456", now_ms() + 60_000, 5, 4);
    let view = refresh_pairing_code(&mut rt);
    assert_eq!(view.remaining_attempts, 5, "刷新后尝试次数归零");
    assert_eq!(view.pairing_code.len(), 6);
    assert!(view.expires_at_ms > now_ms() + 290_000);
}

#[test]
fn lan_refresh_pairing_code_returns_full_attempts() {
    let mut rt = LanRuntime::new();
    let view = refresh_pairing_code(&mut rt);
    assert_eq!(view.pairing_code.len(), 6);
    assert_eq!(view.remaining_attempts, 5);
}

#[test]
fn create_pairing_challenge_code_is_six_digits() {
    for _ in 0..200 {
        let challenge = create_pairing_challenge();
        assert_eq!(challenge.pairing_code.len(), 6, "配对码恒为 6 位");
        assert!(challenge.pairing_code.bytes().all(|b| b.is_ascii_digit()));
        assert_eq!(challenge.max_attempts, DEFAULT_PAIRING_MAX_ATTEMPTS);
    }
    assert_eq!(DEFAULT_PAIRING_MAX_ATTEMPTS, 5);
    assert_eq!(DEFAULT_PAIRING_CODE_TTL_SECS, 300);
}

#[test]
fn confirm_pairing_rejects_empty_device_id() {
    let mut rt = LanRuntime::new();
    let err = confirm_pairing(
        &mut rt,
        &mut no_store(),
        "local-device",
        "   ".to_string(),
        "peer".to_string(),
        "http://x".to_string(),
        "123456".to_string(),
    )
    .unwrap_err();
    assert_eq!(err, "设备 ID 不能为空");
}

#[test]
fn confirm_pairing_rejects_self_device() {
    let mut rt = LanRuntime::new();
    let err = confirm_pairing(
        &mut rt,
        &mut no_store(),
        "local-device",
        "local-device".to_string(),
        "peer".to_string(),
        "http://x".to_string(),
        "123456".to_string(),
    )
    .unwrap_err();
    assert_eq!(err, "不能配对当前设备自身");
}

#[test]
fn confirm_pairing_saves_peer_and_returns_token() {
    let mut rt = LanRuntime::new();
    inject(&mut rt, "654321", now_ms() + 60_000, 5, 0);
    let mut store = PeerStore { ready: true, peers: Vec::new() };
    let token = confirm_pairing(
        &mut rt,
        &mut store,
        "local-device",
        " remote ".to_string(),
        " Remote PC ".to_string(),
        " http://10.0.0.2:35691 ".to_string(),
        "654321".to_string(),
    )
    .unwrap();
    assert_eq!(token.len(), 36);
    assert!(verify_peer_token(&mut store, "remote", &token));
    assert_eq!(store.peers[0].device_name, "Remote PC");
}

#[test]
fn verify_peer_token_rejects_empty_or_unknown() {
    assert!(!verify_peer_token(&mut no_store(), "", "tok"));
    assert!(!verify_peer_token(&mut no_store(), "dev", ""));
    assert!(!verify_peer_token(&mut no_store(), "", ""));
    assert!(!verify_peer_token(&mut no_store(), "dev", "tok"));
}

#[test]
fn token_matches_peer_accepts_exact_device_token_pair() {
    let peers = vec![
        PairedPeer::new("dev-1".to_string(), "one".to_string(), "http://1".to_string(), "tok-1".to_string()),
        PairedPeer::new("dev-2".to_string(), "two".to_string(), "http://2".to_string(), "tok-2".to_string()),
    ];
    assert!(token_matches_peer(&peers, "dev-1", "tok-1"));
    assert!(token_matches_peer(&peers, "dev-2", "tok-2"));
    assert!(!token_matches_peer(&peers, "dev-1", "wrong"));
    assert!(!token_matches_peer(&peers, "dev-2", "tok-1"), "token 不能跨设备复用");
    assert!(!token_matches_peer(&peers, "dev-3", "tok-1"));
    assert!(!token_matches_peer(&peers, "", "tok-1"));
}

#[test]
fn create_peer_token_is_uuid_v4() {
    let token = create_peer_token();
    assert_eq!(token.len(), 36);
    assert_eq!(&token[14..15], "4");
    assert_eq!(&token[8..9], "-");
    assert_eq!(&token[13..14], "-");
    assert_eq!(&token[18..19], "-");
    assert_eq!(&token[23..24], "-");
    assert_ne!(create_peer_token(), token);
}

#[test]
fn stored_device_id_filters_empty_values() {
    assert_eq!(stored_device_id(None), None);
    assert_eq!(stored_device_id(Some("   ".to_string())), None);
    assert_eq!(stored_device_id(Some(" id-1 ".to_string())), Some("id-1".to_string()));
}

#[test]
fn device_id_resolution_prefers_stored_then_legacy_then_fresh() {
    assert_eq!(
        resolve_device_id(Some("a".to_string()), Some("b".to_string()), "c".to_string()),
        ("a".to_string(), false)
    );
    assert_eq!(
        resolve_device_id(Some(" ".to_string()), Some(" b ".to_string()), "c".to_string()),
        ("b".to_string(), true)
    );
    assert_eq!(resolve_device_id(None, None, "c".to_string()), ("c".to_string(), true));
}

#[test]
fn device_name_prefers_computername_then_hostname_then_default() {
    assert_eq!(device_name(None, None), "QuickClipboard Desktop");
    assert_eq!(device_name(None, Some("test-host")), "test-host");
    assert_eq!(device_name(Some("win-name"), Some("test-host")), "win-name");
    assert_eq!(device_name(Some("   "), Some("  ")), "QuickClipboard Desktop");
    assert_eq!(device_name(Some("   "), Some("test-host")), "QuickClipboard Desktop");
    assert_eq!(device_name(Some(" padded "), None), " padded ");
}

#[test]
fn current_pairing_code_creates_initial_challenge() {
    let mut rt = LanRuntime::new();
    let view = current_pairing_code(&mut rt);
    assert_eq!(view.pairing_code.len(), 6);
    assert!(view.pairing_code.bytes().all(|b| b.is_ascii_digit()));
    assert_eq!(view.remaining_attempts, 5);
    assert!(view.expires_at_ms > now_ms());
}

#[test]
fn current_pairing_code_is_the_same_until_it_expires() {
    let mut rt = LanRuntime::new();
    let first = current_pairing_code(&mut rt);
    let second = current_pairing_code(&mut rt);
    assert_eq!(first.pairing_code, second.pairing_code);
    assert_eq!(first.expires_at_ms, second.expires_at_ms);
    assert_eq!(first.remaining_attempts, second.remaining_attempts);
}
