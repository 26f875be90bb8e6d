use eco_sync::channel::{ChannelState, InboundDispatch, RealtimeChannel, build_connection_url};
use eco_sync::encryption::EncryptionManager;
use eco_sync::engine::{SyncEngine, SyncOutcome};
use eco_sync::error::Error;
use eco_sync::models::{ClipboardPayload, SyncConfig, SyncDataRequest, WebSocketMessage};

fn request(kind: &str, value: &str) -> SyncDataRequest {
    SyncDataRequest {
        data: ClipboardPayload {
            kind: kind.to_string(),
            group: None,
            subtype: None,
            count: 1,
            value: value.to_string(),
            search: String::new(),
            width: None,
            height: None,
            timestamp: "2024-05-01T10:00:00+00:00".to_string(),
        },
        device_id: "device-1".to_string(),
        timestamp: 1714557600,
    }
}

fn engine_with_master() -> SyncEngine {
    let mut m = EncryptionManager::new();
    m.initialize_master_key("pw", "salt").unwrap();
    SyncEngine::new(m)
}

#[test]
fn queue_three_then_drain_empties_pending() {
    let mut e = engine_with_master();
    let mut config = SyncConfig::default();
    config.auto_sync = false;
    e.update_config(config).unwrap();

    for v in ["one", "two", "three"] {
        match e.sync_data(request("text", v)).unwrap() {
            SyncOutcome::Queued(resp) => {
                assert!(resp.success);
                assert_eq!(resp.sync_id.unwrap().len(), 36);
            },
            other => panic!("expected the request to be queued, got {:?}", other),
        }
    }
    assert_eq!(e.get_status().pending_items, 3);

    // one drain cycle with a stubbed successful network call per item
    let snapshot = e.drain_queue();
    assert_eq!(snapshot.len(), 3);
    assert_eq!(snapshot[0].data.value, "one");
    assert_eq!(snapshot[2].data.value, "three");
    for req in &snapshot {
        let upload = e.prepare_upload(req).unwrap();
        let resp = e.complete_push(upload.sync_id, None);
        assert!(resp.success);
        assert!(resp.conflicts.is_none());
    }
    assert_eq!(e.get_status().pending_items, 0);
}

#[test]
fn disabled_sync_is_rejected_not_an_error() {
    let mut e = engine_with_master();
    let mut config = SyncConfig::default();
    config.enabled = false;
    e.update_config(config).unwrap();
    match e.sync_data(request("text", "x")).unwrap() {
        SyncOutcome::Rejected(resp) => {
            assert!(!resp.success);
            assert_eq!(resp.message.as_deref(), Some("Sync is disabled"));
        },
        other => panic!("expected rejection, got {:?}", other),
    }
}

#[test]
fn unlisted_data_type_is_rejected_with_message() {
    let mut e = engine_with_master();
    match e.sync_data(request("video", "clip")).unwrap() {
        SyncOutcome::Rejected(resp) => {
            assert!(!resp.success);
            let message = resp.message.expect("a rejection explains itself");
            assert!(!message.is_empty());
            assert_eq!(message, "Data type 'video' is not enabled for sync");
        },
        other => panic!("expected rejection, got {:?}", other),
    }
    // nothing was queued and nothing prepared for the network
    assert_eq!(e.get_status().pending_items, 0);
}

#[test]
fn auto_sync_prepares_an_upload_that_decrypts_back() {
    let mut e = engine_with_master();
    let req = request("text", "payload on the wire");
    match e.sync_data(req).unwrap() {
        SyncOutcome::Push(upload) => {
            assert_eq!(upload.device_id, "device-1");
            assert_eq!(upload.data_type, "text");
            assert_eq!(upload.sync_id.len(), 36);
            let back = e.process_remote_update(&upload.encrypted_data).unwrap();
            assert_eq!(back.value, "payload on the wire");
        },
        other => panic!("expected a push, got {:?}", other),
    }
    assert_eq!(e.get_status().pending_items, 0);
}

#[test]
fn start_stop_are_idempotent_and_drive_status() {
    let mut e = engine_with_master();
    assert_eq!(e.get_status().status, "idle");
    assert!(e.start());
    assert!(!e.start());
    assert_eq!(e.get_status().status, "running");
    assert!(e.should_auto_pull());
    assert!(e.should_drain());
    assert!(e.stop());
    assert!(!e.stop());
    assert_eq!(e.get_status().status, "idle");
    assert!(!e.should_auto_pull());
}

#[test]
fn force_sync_outcome_counts_errors_without_failing() {
    let mut e = engine_with_master();
    let summary = e.apply_force_sync_outcome(4, false, true);
    assert!(!summary.success);
    assert_eq!(summary.errors, 1);
    assert_eq!(summary.total_synced, 4);
    let status = e.get_status();
    assert_eq!(status.total_synced, 4);
    assert_eq!(status.sync_errors, 1);
    assert!(status.last_sync_time.is_some());

    let summary = e.apply_force_sync_outcome(2, false, false);
    assert!(summary.success);
    assert_eq!(e.get_status().total_synced, 6);
}

#[test]
fn five_consecutive_connect_failures_are_terminal() {
    let mut c = RealtimeChannel::new();
    for attempt in 1u32..5 {
        assert!(c.begin_connect());
        let plan = c.connect_failed().expect("retries below the budget are scheduled");
        assert_eq!(plan.attempt, attempt);
        assert_eq!(plan.delay_secs, 5);
    }
    assert!(c.begin_connect());
    let terminal = c.connect_failed();
    assert!(matches!(terminal, Err(Error::NetworkError(_))));
    // no further automatic retry: the channel stays failed
    assert!(!c.is_connected());
    assert!(!c.heartbeat_due());
    assert!(matches!(c.connect_failed(), Err(Error::NetworkError(_))));
}

#[test]
fn successful_connect_resets_the_failure_budget() {
    let mut c = RealtimeChannel::new();
    assert!(c.begin_connect());
    c.connect_failed().unwrap();
    assert!(c.begin_connect());
    c.connect_succeeded();
    assert!(c.is_connected());
    assert!(c.heartbeat_due());
    // after a success the budget is fresh: four more retries are scheduled
    c.on_transport_closed();
    assert!(!c.is_connected());
    for _ in 0..4 {
        assert!(c.begin_connect());
        c.connect_failed().unwrap();
    }
    assert!(c.begin_connect());
    assert!(c.connect_failed().is_err());
}

#[test]
fn begin_connect_is_a_noop_while_connecting() {
    let mut c = RealtimeChannel::new();
    assert!(c.begin_connect());
    assert!(!c.begin_connect());
    assert_eq!(c.is_connected(), false);
}

#[test]
fn send_message_requires_a_connection() {
    let mut c = RealtimeChannel::new();
    let r = c.send_message(WebSocketMessage::Ping);
    assert!(matches!(r, Err(Error::NetworkError(_))));
    c.begin_connect();
    c.connect_succeeded();
    assert!(matches!(c.send_message(WebSocketMessage::Ping), Ok(WebSocketMessage::Ping)));
    c.disconnect();
    assert_eq!(c.is_connected(), false);
    assert!(c.send_message(WebSocketMessage::Pong).is_err());
}

#[test]
fn inbound_frames_dispatch_to_typed_events() {
    let c = RealtimeChannel::new();
    let update = WebSocketMessage::DataUpdate {
        item_id: "item-9".to_string(),
        device_id: "device-2".to_string(),
        timestamp: 99,
    };
    match c.dispatch_message(update) {
        InboundDispatch::EmitSyncUpdate { item_id, device_id, timestamp } => {
            assert_eq!(item_id, "item-9");
            assert_eq!(device_id, "device-2");
            assert_eq!(timestamp, 99);
        },
        other => panic!("wrong dispatch: {:?}", other),
    }
    assert!(matches!(c.dispatch_message(WebSocketMessage::Ping), InboundDispatch::ReplyPong));
    assert!(matches!(c.dispatch_message(WebSocketMessage::Pong), InboundDispatch::Ignore));
    let status = WebSocketMessage::DeviceStatus { device_id: "d".to_string(), is_online: true };
    assert!(matches!(
        c.dispatch_message(status),
        InboundDispatch::EmitDeviceStatus { is_online: true, .. }
    ));
    let err = WebSocketMessage::Error { message: "broken".to_string(), code: Some(500) };
    match c.dispatch_message(err) {
        InboundDispatch::EmitError { message, code } => {
            assert_eq!(message, "broken");
            assert_eq!(code, Some(500));
        },
        other => panic!("wrong dispatch: {:?}", other),
    }
}

#[test]
fn connection_url_carries_token_and_device() {
    let url = build_connection_url("wss://sync.example.net/ws", "tok123", "device-7");
    assert_eq!(url, "wss://sync.example.net/ws?token=tok123&device_id=device-7");
}

#[test]
fn channel_state_starts_disconnected() {
    let c = RealtimeChannel::new();
    assert!(!c.is_connected());
    assert!(!c.heartbeat_due());
    let _ = ChannelState::Disconnected;
}

#[test]
fn error_messages_are_preserved() {
    let cases = vec![
        Error::AuthenticationFailed("no token".to_string()),
        Error::NetworkError("down".to_string()),
        Error::DatabaseError("locked".to_string()),
        Error::EncryptionFailed("no key".to_string()),
        Error::DecryptionFailed("bad tag".to_string()),
        Error::SyncConflict("concurrent".to_string()),
        Error::DeviceNotFound("ghost".to_string()),
        Error::InvalidConfiguration("bad".to_string()),
        Error::ServiceUnavailable("maintenance".to_string()),
        Error::SerializationError("shape".to_string()),
        Error::IoError("disk".to_string()),
        Error::Unknown("???".to_string()),
    ];
    let expected = vec![
        "no token", "down", "locked", "no key", "bad tag", "concurrent", "ghost", "bad",
        "maintenance", "shape", "disk", "???",
    ];
    for (e, want) in cases.iter().zip(expected) {
        assert_eq!(e.message(), want);
    }
}

#[test]
fn default_stats_are_zeroed() {
    let stats = eco_sync::models::SyncStats::default();
    assert_eq!(stats.total_synced, 0);
    assert_eq!(stats.sync_errors, 0);
    assert_eq!(stats.data_usage, 0);
    let config = SyncConfig::default();
    assert!(config.enabled && config.auto_sync);
    assert_eq!(config.sync_types, vec!["text", "image", "files"]);
}

#[test]
fn complete_push_carries_server_conflicts_through() {
    let e = engine_with_master();
    let conflict = eco_sync::models::SyncConflict {
        conflict_id: "c-1".to_string(),
        local_item: request("text", "a").data,
        remote_item: request("text", "b").data,
        conflict_type: eco_sync::models::ConflictType::ContentMismatch,
        detected_at: "2024-05-01T10:00:00+00:00".to_string(),
        device_id: "device-2".to_string(),
        status: eco_sync::models::ConflictStatus::Pending,
        resolution: None,
    };
    let resp = e.complete_push("sync-9".to_string(), Some(vec![conflict]));
    assert!(resp.success);
    assert_eq!(resp.sync_id.as_deref(), Some("sync-9"));
    let conflicts = resp.conflicts.expect("server conflicts pass through");
    assert_eq!(conflicts.len(), 1);
    assert_eq!(conflicts[0].conflict_id, "c-1");
}
