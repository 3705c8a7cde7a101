use hypergate::request::{ConfigRevision, RequestKind};
use hypergate::runtime::{VersionRegistry, VersionRuntime};
use hypergate::version::{
    decode_state, encode_state, initial_word, unpack_requests, unpack_state, with_state, VersionId, VersionState,
    REQUEST_INCREMENT,
};

#[test]
fn draining_rejects_new_leases_and_preserves_existing_lease() {
    let mut runtime = VersionRuntime::new(VersionId::new("blue"));
    runtime.activate();
    let lease = runtime.lease(RequestKind::Unary).expect("active version should lease");
    runtime.drain(0);
    assert!(runtime.lease(RequestKind::Unary).is_err());
    assert_eq!(runtime.snapshot(0).active_requests, 1);
    runtime.release(lease.kind);
    assert_eq!(runtime.snapshot(0).active_requests, 0);
    runtime.stop_idle().expect("idle version should stop");
}

#[test]
fn forced_drain_cancels_old_cycle_only() {
    let mut runtime = VersionRuntime::new(VersionId::new("blue"));
    runtime.activate();
    let old = runtime.lease(RequestKind::Stream).expect("active version should lease");
    runtime.drain(0);
    runtime.force_close_if_draining();
    assert!(runtime.lease_cancelled(&old));
    runtime.activate();
    let next = runtime.lease(RequestKind::Stream).expect("reactivated version should lease");
    assert!(!runtime.lease_cancelled(&next));
    assert!(runtime.lease_cancelled(&old));
}

#[test]
fn new_version_is_stopped_and_refuses_leases() {
    let mut runtime = VersionRuntime::new(VersionId::new("green"));
    let snapshot = runtime.snapshot(5);
    assert_eq!(snapshot.id.value, "green");
    assert_eq!(snapshot.state, VersionState::Stopped);
    assert_eq!(snapshot.active_requests, 0);
    assert_eq!(snapshot.drain_elapsed_secs, None);
    let error = runtime.lease(RequestKind::Unary).unwrap_err();
    assert_eq!(error.message, "version does not accept new requests");
}

#[test]
fn runtime_stop_waits_for_connections() {
    let mut runtime = VersionRuntime::new(VersionId::new("blue"));
    runtime.activate();
    let lease = runtime.lease(RequestKind::Stream).expect("lease");
    runtime.drain(10);
    let error = runtime.stop_idle().unwrap_err();
    assert_eq!(error.message, "version still has active connections");
    assert_eq!(runtime.snapshot(25).drain_elapsed_secs, Some(15));
    assert_eq!(runtime.snapshot(25).active_streams, 1);
    runtime.release(lease.kind);
    assert_eq!(runtime.snapshot(25).active_streams, 0);
    runtime.stop_idle().expect("stop");
    assert_eq!(runtime.snapshot(25).state, VersionState::Stopped);
    assert_eq!(runtime.snapshot(25).drain_elapsed_secs, None);
}

#[test]
fn counters_track_leases_and_promotions() {
    let mut runtime = VersionRuntime::new(VersionId::new("blue"));
    runtime.activate();
    let mut first = runtime.lease(RequestKind::Unary).expect("lease");
    let _second = runtime.lease(RequestKind::Unary).expect("lease");
    first.promote_stream(&mut runtime);
    let snapshot = runtime.snapshot(0);
    assert_eq!(snapshot.active_requests, 2);
    assert_eq!(snapshot.active_streams, 1);
    assert_eq!(snapshot.total_requests, 2);
    assert_eq!(first.kind, RequestKind::Stream);
}

#[test]
fn force_close_outside_draining_changes_nothing() {
    let mut runtime = VersionRuntime::new(VersionId::new("blue"));
    runtime.activate();
    let lease = runtime.lease(RequestKind::Stream).expect("lease");
    runtime.force_close_if_draining();
    assert!(!runtime.lease_cancelled(&lease));
}

#[test]
fn registry_keeps_versions_by_id() {
    let mut registry = VersionRegistry::new();
    registry.ensure(&VersionId::new("b"));
    registry.ensure(&VersionId::new("a"));
    registry.ensure(&VersionId::new("b"));
    assert_eq!(registry.len(), 2);
    assert!(registry.contains(&VersionId::new("a")));
    assert!(registry.lease(&VersionId::new("zz"), RequestKind::Unary).is_none());
    assert!(registry.activate(&VersionId::new("a")));
    let lease = registry.lease(&VersionId::new("a"), RequestKind::Unary).expect("known").expect("active");
    assert_eq!(lease.version.value, "a");
    let ids: Vec<String> = registry.snapshots(0).into_iter().map(|s| s.id.value).collect();
    assert_eq!(ids, vec!["a".to_owned(), "b".to_owned()]);
    registry.release(lease);
    assert_eq!(registry.get(&VersionId::new("a")).expect("a").snapshot(0).active_requests, 0);
    registry.retain_configured(&vec![VersionId::new("a")]);
    assert_eq!(registry.len(), 1);
    assert!(!registry.contains(&VersionId::new("b")));
}

#[test]
fn registry_drain_and_stop() {
    let mut registry = VersionRegistry::new();
    let id = VersionId::new("v1");
    registry.ensure(&id);
    assert!(registry.activate(&id));
    assert!(registry.drain(&id, 3));
    assert!(!registry.drain(&VersionId::new("nope"), 3));
    assert!(registry.stop_idle(&id).expect("known").is_ok());
    assert!(registry.stop_idle(&VersionId::new("nope")).is_none());
    assert!(!registry.force_close_if_draining(&VersionId::new("nope")));
}

#[test]
fn packed_word_keeps_state_and_count() {
    for state in [
        VersionState::Starting,
        VersionState::Warming,
        VersionState::Active,
        VersionState::Draining,
        VersionState::Stopped,
        VersionState::Failed,
    ] {
        assert_eq!(decode_state(encode_state(state)), state);
        let word = initial_word(state);
        assert_eq!(unpack_state(word), state);
        assert_eq!(unpack_requests(word), 0);
        let counted = word + 3 * REQUEST_INCREMENT;
        let moved = with_state(counted, VersionState::Draining);
        assert_eq!(unpack_state(moved), VersionState::Draining);
        assert_eq!(unpack_requests(moved), 3);
    }
    assert_eq!(encode_state(VersionState::Active), 2);
    assert_eq!(decode_state(5), VersionState::Failed);
    assert_eq!(decode_state(200), VersionState::Stopped);
}

#[test]
fn state_labels_and_acceptance() {
    assert_eq!(VersionState::Draining.as_str(), "draining");
    assert_eq!(VersionState::Warming.as_str(), "warming");
    assert!(VersionState::Active.accepts_new_requests());
    assert!(!VersionState::Draining.accepts_new_requests());
}

#[test]
fn revision_advances_by_one() {
    assert_eq!(ConfigRevision::initial().value, 1);
    assert_eq!(ConfigRevision { value: 41 }.next().value, 42);
}
