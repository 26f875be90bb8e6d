use eco_sync::conflict::ConflictResolver;
use eco_sync::error::Error;
use eco_sync::models::{ClipboardPayload, ConflictResolutionStrategy, ConflictStatus, ConflictType};

fn text_payload(value: &str, timestamp: &str) -> ClipboardPayload {
    ClipboardPayload {
        kind: "text".to_string(),
        group: None,
        subtype: None,
        count: 1,
        value: value.to_string(),
        search: value.to_string(),
        width: None,
        height: None,
        timestamp: timestamp.to_string(),
    }
}

fn image_payload(value: &str, w: i32, h: i32, timestamp: &str) -> ClipboardPayload {
    ClipboardPayload {
        kind: "image".to_string(),
        group: None,
        subtype: Some("png".to_string()),
        count: 1,
        value: value.to_string(),
        search: String::new(),
        width: Some(w),
        height: Some(h),
        timestamp: timestamp.to_string(),
    }
}

const T1: &str = "2024-05-01T10:00:00+00:00";
const T2: &str = "2024-05-01T10:00:07+00:00";

#[test]
fn detection_is_symmetric() {
    let r = ConflictResolver::new();
    let cases = [
        (text_payload("a", T1), text_payload("b", T2)),
        (text_payload("a", T1), image_payload("a", 1, 2, T2)),
        (image_payload("a", 1, 2, T1), image_payload("a", 1, 3, T2)),
        (text_payload("same", T1), text_payload("same", T2)),
    ];
    for (l, rem) in cases.iter() {
        assert_eq!(r.has_conflict(l, rem), r.has_conflict(rem, l));
        assert_eq!(r.determine_conflict_type(l, rem), r.determine_conflict_type(rem, l));
    }
}

#[test]
fn detection_classification() {
    let r = ConflictResolver::new();
    assert_eq!(
        r.determine_conflict_type(&text_payload("a", T1), &image_payload("a", 1, 1, T2)),
        ConflictType::TypeMismatch
    );
    assert_eq!(
        r.determine_conflict_type(&text_payload("a", T1), &text_payload("b", T2)),
        ConflictType::ContentMismatch
    );
    assert_eq!(
        r.determine_conflict_type(&text_payload("a", T1), &text_payload("a", T2)),
        ConflictType::MetadataMismatch
    );
    // images also compare dimensions
    assert!(r.has_conflict(&image_payload("a", 100, 50, T1), &image_payload("a", 100, 60, T2)));
    // identical text does not conflict
    assert!(!r.has_conflict(&text_payload("same", T1), &text_payload("same", T2)));
}

#[test]
fn use_latest_prefers_strictly_newer_local() {
    let r = ConflictResolver::new();
    let newer_local = r.resolve_use_latest(&text_payload("L", T2), &text_payload("R", T1)).unwrap();
    assert_eq!(newer_local.value, "L");
    let newer_remote = r.resolve_use_latest(&text_payload("L", T1), &text_payload("R", T2)).unwrap();
    assert_eq!(newer_remote.value, "R");
    // a tie favors the remote snapshot
    let tie = r.resolve_use_latest(&text_payload("L", T1), &text_payload("R", T1)).unwrap();
    assert_eq!(tie.value, "R");
    // unparseable timestamps are an error
    let bad = r.resolve_use_latest(&text_payload("L", "yesterday"), &text_payload("R", T1));
    assert!(matches!(bad, Err(Error::Unknown(_))));
}

#[test]
fn merge_concatenates_text_with_fresh_timestamp() {
    let r = ConflictResolver::new();
    let merged = r.resolve_merge(&text_payload("A", T1), &text_payload("B", T2)).unwrap();
    assert_eq!(merged.value, "A | B");
    assert_eq!(merged.kind, "text");
    assert_ne!(merged.timestamp, T1);
    // the fresh timestamp is well-formed
    assert!(chrono::DateTime::parse_from_rfc3339(&merged.timestamp).is_ok());
}

#[test]
fn merge_on_images_falls_back_to_use_latest() {
    let r = ConflictResolver::new();
    let picked = r
        .resolve_merge(&image_payload("old", 1, 1, T1), &image_payload("new", 2, 2, T2))
        .unwrap();
    assert_eq!(picked.value, "new");
}

#[test]
fn resolving_removes_from_pending_forever() {
    let mut r = ConflictResolver::new();
    let conflict = r
        .detect_conflict(&text_payload("A", T1), &text_payload("B", T2), "device-1")
        .unwrap()
        .expect("differing text conflicts");
    assert_eq!(conflict.status, ConflictStatus::Pending);
    assert_eq!(r.get_pending_conflicts().len(), 1);
    assert!(r.get_resolved_conflicts().is_empty());

    let resolution = r
        .auto_resolve_conflict(&conflict.conflict_id, ConflictResolutionStrategy::UseLatest, "device-1")
        .unwrap();
    assert_eq!(resolution.resolved_data.as_ref().unwrap().value, "B");

    assert!(r.get_pending_conflicts().is_empty());
    let resolved = r.get_resolved_conflicts();
    assert_eq!(resolved.len(), 1);
    assert_eq!(resolved[0].conflict_id, conflict.conflict_id);
    assert_eq!(resolved[0].status, ConflictStatus::Resolved);
    assert!(resolved[0].resolution.is_some());

    // resolving again fails: the conflict left the pending index for good
    let again =
        r.auto_resolve_conflict(&conflict.conflict_id, ConflictResolutionStrategy::UseLocal, "device-1");
    assert!(matches!(again, Err(Error::Unknown(_))));
}

#[test]
fn auto_resolve_refuses_manual_strategy() {
    let mut r = ConflictResolver::new();
    let conflict = r
        .detect_conflict(&text_payload("A", T1), &text_payload("B", T2), "device-1")
        .unwrap()
        .unwrap();
    let e = r.auto_resolve_conflict(&conflict.conflict_id, ConflictResolutionStrategy::Manual, "device-1");
    assert!(matches!(e, Err(Error::Unknown(_))));
    // still pending: the refusal changed nothing
    assert_eq!(r.get_pending_conflicts().len(), 1);
}

#[test]
fn manual_resolution_attaches_caller_data() {
    let mut r = ConflictResolver::new();
    let conflict = r
        .detect_conflict(&text_payload("A", T1), &text_payload("B", T2), "device-1")
        .unwrap()
        .unwrap();
    let chosen = text_payload("the user decides", T2);
    let res = r
        .manual_resolve_conflict(&conflict.conflict_id, chosen, "device-1", Some("picked by hand".to_string()))
        .unwrap();
    assert_eq!(res.resolved_data.unwrap().value, "the user decides");
    assert_eq!(res.notes.as_deref(), Some("picked by hand"));
    assert!(r.get_pending_conflicts().is_empty());
}

#[test]
fn cleanup_deletes_only_old_resolved_conflicts() {
    let mut r = ConflictResolver::new();
    let resolved = r
        .detect_conflict(&text_payload("A", T1), &text_payload("B", T2), "device-1")
        .unwrap()
        .unwrap();
    r.auto_resolve_conflict(&resolved.conflict_id, ConflictResolutionStrategy::UseLocal, "device-1")
        .unwrap();
    let _pending = r
        .detect_conflict(&text_payload("C", T1), &text_payload("D", T2), "device-1")
        .unwrap()
        .unwrap();

    // a cutoff far in the past touches nothing
    let removed = r.cleanup_resolved_before(i64::MIN);
    assert_eq!(removed, 0);
    // a cutoff far in the future deletes the resolved record only
    let removed = r.cleanup_resolved_before(i64::MAX);
    assert_eq!(removed, 1);
    assert_eq!(r.get_pending_conflicts().len(), 1);
    assert!(r.get_resolved_conflicts().is_empty());
    // the retention entry point counts the same way; a huge retention
    // window deletes nothing that is younger
    let n = r.cleanup_resolved_conflicts(100_000).unwrap();
    assert_eq!(n, 0);
    assert_eq!(r.get_pending_conflicts().len(), 1);
}

#[test]
fn stats_count_by_status_and_type() {
    let mut r = ConflictResolver::new();
    let c1 = r
        .detect_conflict(&text_payload("A", T1), &image_payload("B", 1, 1, T2), "d")
        .unwrap()
        .unwrap();
    let _c2 = r
        .detect_conflict(&text_payload("A", T1), &text_payload("B", T2), "d")
        .unwrap()
        .unwrap();
    r.auto_resolve_conflict(&c1.conflict_id, ConflictResolutionStrategy::UseRemote, "d").unwrap();
    let stats = r.get_conflict_stats();
    assert_eq!(stats.total, 2);
    assert_eq!(stats.pending, 1);
    assert_eq!(stats.resolved, 1);
    assert_eq!(stats.type_mismatch, 1);
    assert_eq!(stats.content_mismatch, 1);
    assert_eq!(stats.metadata_mismatch, 0);
}

#[test]
fn pending_index_reloads_from_records() {
    let mut r = ConflictResolver::new();
    let c = r
        .detect_conflict(&text_payload("A", T1), &text_payload("B", T2), "d")
        .unwrap()
        .unwrap();
    r.load_pending_conflicts().unwrap();
    // the reloaded index still resolves the conflict
    let res = r.auto_resolve_conflict(&c.conflict_id, ConflictResolutionStrategy::UseLocal, "d").unwrap();
    assert_eq!(res.resolved_data.unwrap().value, "A");
}

#[test]
fn batch_resolution_clears_resolvable_conflicts() {
    let mut r = ConflictResolver::new();
    r.detect_conflict(&text_payload("A", T1), &text_payload("B", T2), "d").unwrap().unwrap();
    r.detect_conflict(&text_payload("C", T1), &text_payload("D", T2), "d").unwrap().unwrap();
    // one conflict whose timestamps cannot be compared: UseLatest skips it
    r.detect_conflict(&text_payload("E", "not a time"), &text_payload("F", "not a time"), "d")
        .unwrap()
        .unwrap();
    let resolutions =
        r.batch_resolve_conflicts(ConflictResolutionStrategy::UseLatest, "d").unwrap();
    assert_eq!(resolutions.len(), 2);
    assert_eq!(r.get_pending_conflicts().len(), 1);
    assert_eq!(r.get_resolved_conflicts().len(), 2);
}

#[test]
fn batch_with_never_failing_strategy_empties_pending() {
    let mut r = ConflictResolver::new();
    for (a, b) in [("A", "B"), ("C", "D"), ("E", "F")] {
        r.detect_conflict(&text_payload(a, T1), &text_payload(b, T2), "d").unwrap().unwrap();
    }
    let resolutions = r.batch_resolve_conflicts(ConflictResolutionStrategy::UseLocal, "d").unwrap();
    assert_eq!(resolutions.len(), 3);
    assert!(r.get_pending_conflicts().is_empty());
    assert_eq!(r.get_resolved_conflicts().len(), 3);
    for res in &resolutions {
        assert!(matches!(res.strategy, ConflictResolutionStrategy::UseLocal));
    }
}

#[test]
fn use_latest_distinguishes_sub_second_edits() {
    let r = ConflictResolver::new();
    // same second, different milliseconds: the newer millisecond wins
    let older = text_payload("older", "2024-05-01T10:00:00.100+00:00");
    let newer = text_payload("newer", "2024-05-01T10:00:00.900+00:00");
    let picked = r.resolve_use_latest(&newer, &older).unwrap();
    assert_eq!(picked.value, "newer");
    let picked = r.resolve_use_latest(&older, &newer).unwrap();
    assert_eq!(picked.value, "newer");
}
