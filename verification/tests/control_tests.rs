use hypergate::config::{ConfigLoader, ConfigManager, ConfigValidatorChain, DefaultConfigValidator, RuntimeConfig, VersionConfig};
use hypergate::control::{normalize_history, restore_startup_state, ControlError, ControlOutcome, GatewayControl, ROLLBACK_HISTORY_LIMIT};
use hypergate::error::HyperError;
use hypergate::request::ConfigRevision;
use hypergate::state::PersistedState;
use hypergate::version::{VersionId, VersionState};

struct NoLoader;

impl ConfigLoader<RuntimeConfig> for NoLoader {
    fn load(&self, _next_revision: ConfigRevision) -> Result<RuntimeConfig, HyperError> {
        Err(HyperError::new("loading is driven by the caller"))
    }
}

type Control = GatewayControl<NoLoader, ConfigValidatorChain<DefaultConfigValidator>>;

fn config_with(count: usize) -> RuntimeConfig {
    let mut config = RuntimeConfig::minimal();
    config.active_version = VersionId::new("v0");
    for index in 0..count {
        config.versions.insert(
            VersionId::from_string(format!("v{index}")),
            VersionConfig {
                endpoint: format!("http://127.0.0.1:{}", 9000 + index),
                health: "http://127.0.0.1/health".to_owned(),
            },
        );
    }
    config
}

fn build_control_with_history(count: usize, history: Vec<VersionId>) -> Control {
    let config = config_with(count);
    let mut chain = ConfigValidatorChain::new();
    chain.push(DefaultConfigValidator);
    let manager = ConfigManager::new(config, NoLoader, chain);
    match GatewayControl::start(manager, history, 0) {
        Ok(control) => control,
        Err(error) => panic!("control should start: {}", error.message),
    }
}

fn build_control(count: usize) -> Control {
    build_control_with_history(count, Vec::new())
}

fn healthy() -> Result<(), HyperError> {
    Ok(())
}

/// Runs a whole switch: plan, health result, state to save, commit.
fn switch_with(control: &mut Control, target: &str, health: Result<(), HyperError>, saved: &mut Vec<PersistedState>) -> Result<ControlOutcome, ControlError> {
    switch_expecting(control, target, None, health, saved)
}

/// A switch that expects the given revision.
fn switch_expecting(control: &mut Control, target: &str, expected: Option<u64>, health: Result<(), HyperError>, saved: &mut Vec<PersistedState>) -> Result<ControlOutcome, ControlError> {
    let plan = control.begin_switch(VersionId::new(target), expected)?;
    if let Some(state) = control.stage_switch(&plan, &health)? {
        saved.push(state);
    }
    control.commit_switch(plan, health, Ok(()), 10)
}

fn switch(control: &mut Control, target: &str) -> Result<ControlOutcome, ControlError> {
    let mut saved = Vec::new();
    switch_with(control, target, healthy(), &mut saved)
}

fn rollback(control: &mut Control) -> Result<ControlOutcome, ControlError> {
    let plan = control.begin_rollback(None)?;
    let health = healthy();
    control.stage_switch(&plan, &health)?;
    control.commit_switch(plan, health, Ok(()), 10)
}

fn reload(control: &mut Control, next: RuntimeConfig, saved: &mut Vec<PersistedState>) -> Result<ControlOutcome, ControlError> {
    let plan = control.begin_reload(None)?;
    let mut loaded = next;
    loaded.revision = plan.next_revision;
    let mut staged = control.stage_reload(&plan, Ok(loaded))?;
    let health = healthy();
    let state = control.check_reload(&mut staged, &health)?;
    saved.push(state);
    control.commit_reload(staged, health, Ok(()), 10)
}

fn history_text(control: &Control) -> Vec<String> {
    control.history.iter().map(|v| v.value.clone()).collect()
}

#[test]
fn unhealthy_version_never_receives_traffic() {
    let mut control = build_control(2);
    let mut saved = Vec::new();
    let result = switch_expecting(&mut control, "v1", Some(1), Err(HyperError::new("not ready")), &mut saved);
    assert!(result.is_err());
    let snapshot = control.snapshot(10);
    assert_eq!(snapshot.active_version, "v0");
    assert_eq!(snapshot.revision, 1);
    assert!(!snapshot.rollback_available);
    assert!(saved.is_empty());
}

#[test]
fn switch_evicts_oldest_history_beyond_limit() {
    let mut control = build_control(ROLLBACK_HISTORY_LIMIT + 2);
    for index in 1..=ROLLBACK_HISTORY_LIMIT + 1 {
        let outcome = switch(&mut control, &format!("v{index}")).expect("switch should succeed");
        assert!(outcome.summary.starts_with("active=v"), "switch should report active version: {}", outcome.summary);
    }
    let snapshot = control.snapshot(10);
    assert!(snapshot.rollback_available, "rollback history should exist");
    let outcome = rollback(&mut control).expect("rollback should succeed");
    assert!(outcome.summary.contains("active=v32"), "first rollback should restore v32: {}", outcome.summary);
}

#[test]
fn rollback_empty_history_returns_conflict() {
    let mut control = build_control(2);
    let result = rollback(&mut control);
    assert!(result.is_err(), "rollback on empty history should fail");
    let snapshot = control.snapshot(10);
    assert!(!snapshot.rollback_available, "rollback should not be available with empty history");
}

#[test]
fn rollback_restores_previous_active_via_lifo() {
    let mut control = build_control(3);
    switch(&mut control, "v1").expect("switch to v1");
    switch(&mut control, "v2").expect("switch to v2");
    let outcome = rollback(&mut control).expect("rollback to v1");
    assert!(outcome.summary.contains("active=v1"), "first rollback should restore v1: {}", outcome.summary);
    let outcome = rollback(&mut control).expect("rollback to v0");
    assert!(outcome.summary.contains("active=v0"), "second rollback should restore v0: {}", outcome.summary);
    assert!(rollback(&mut control).is_err(), "rollback after exhausting history should fail");
}

#[test]
fn reload_removes_deleted_versions_from_rollback_history() {
    let mut control = build_control(3);
    switch(&mut control, "v1").expect("switch to v1");
    switch(&mut control, "v2").expect("switch to v2");
    control.stop(&VersionId::new("v1"), None, 10).expect("v1 should stop after draining");

    let mut next = control.manager.current.copy();
    next.versions.remove(&VersionId::new("v1"));
    let mut saved = Vec::new();
    reload(&mut control, next, &mut saved).expect("reload should succeed");

    let persisted = saved.last().expect("persisted state should load");
    let history: Vec<String> = persisted.history.iter().map(|v| v.value.clone()).collect();
    assert_eq!(history, vec!["v0".to_owned()]);
    let outcome = rollback(&mut control).expect("rollback to v0");
    assert_eq!(outcome.summary, "active=v0");
}

#[test]
fn reload_clears_rollback_when_all_history_versions_are_deleted() {
    let mut control = build_control(2);
    switch(&mut control, "v1").expect("switch to v1");
    control.stop(&VersionId::new("v0"), None, 10).expect("v0 should stop after draining");

    let mut next = control.manager.current.copy();
    next.versions.remove(&VersionId::new("v0"));
    let mut saved = Vec::new();
    reload(&mut control, next, &mut saved).expect("reload should succeed");

    let snapshot = control.snapshot(10);
    assert!(!snapshot.rollback_available);
    let persisted = saved.last().expect("persisted state should load");
    assert!(persisted.history.is_empty());
    assert!(rollback(&mut control).is_err());
}

#[test]
fn restored_history_is_filtered_and_capped() {
    let mut history = vec![VersionId::new("deleted")];
    history.extend((0..40).map(|index| VersionId::from_string(format!("v{index}"))));
    let control = build_control_with_history(40, history);
    assert_eq!(control.history.len(), ROLLBACK_HISTORY_LIMIT);
    assert_eq!(control.history.first().map(|v| v.value.as_str()), Some("v8"));
    assert_eq!(control.history.last().map(|v| v.value.as_str()), Some("v39"));
}

#[test]
fn switch_then_rollback_restores_active_and_history() {
    let mut control = build_control(4);
    switch(&mut control, "v1").expect("switch to v1");
    let before = history_text(&control);
    let active_before = control.manager.current.active_version.value.clone();
    switch(&mut control, "v3").expect("switch to v3");
    assert_eq!(history_text(&control).last().map(String::as_str), Some(active_before.as_str()));
    rollback(&mut control).expect("rollback");
    assert_eq!(control.manager.current.active_version.value, active_before);
    assert_eq!(history_text(&control), before);
}

#[test]
fn switch_to_active_version_changes_nothing() {
    let mut control = build_control(2);
    let mut saved = Vec::new();
    let outcome = switch_with(&mut control, "v0", healthy(), &mut saved).expect("switch to active");
    assert_eq!(outcome.summary, "active=v0");
    assert!(saved.is_empty());
    assert_eq!(control.manager.current.revision.value, 1);
    assert!(control.history.is_empty());
}

#[test]
fn switch_reports_state_to_save_and_drains_previous_version() {
    let mut control = build_control(2);
    let mut saved = Vec::new();
    let outcome = switch_with(&mut control, "v1", healthy(), &mut saved).expect("switch to v1");
    assert_eq!(outcome.summary, "active=v1");
    assert_eq!(saved.len(), 1);
    assert_eq!(saved[0].revision.value, 2);
    assert_eq!(saved[0].active_version.value, "v1");
    assert_eq!(saved[0].history.len(), 1);
    assert_eq!(saved[0].history[0].value, "v0");
    assert!(outcome.drain_timer.is_none());
    let v0 = outcome.snapshot.versions.iter().find(|v| v.id == "v0").expect("v0 snapshot");
    assert_eq!(v0.state, "draining");
    assert_eq!(v0.drain_elapsed_seconds, Some(0));
    let v1 = outcome.snapshot.versions.iter().find(|v| v.id == "v1").expect("v1 snapshot");
    assert_eq!(v1.state, "active");
    assert_eq!(outcome.snapshot.revision, 2);
    assert_eq!(control.manager.revision, 2);
}

#[test]
fn failed_save_leaves_switch_unapplied() {
    let mut control = build_control(2);
    let plan = control.begin_switch(VersionId::new("v1"), None).expect("plan");
    let result = control.commit_switch(plan, Ok(()), Err(HyperError::new("disk full")), 10);
    match result {
        Err(ControlError::Internal(error)) => assert_eq!(error.message, "disk full"),
        _ => panic!("a failed save must refuse the switch"),
    }
    assert_eq!(control.manager.current.active_version.value, "v0");
    assert!(control.history.is_empty());
}

#[test]
fn unhealthy_switch_reports_health_failure() {
    let mut control = build_control(2);
    let plan = control.begin_switch(VersionId::new("v1"), None).expect("plan");
    assert_eq!(plan.health.as_deref(), Some("http://127.0.0.1/health"));
    let result = control.commit_switch(plan, Err(HyperError::new("not ready")), Ok(()), 10);
    match result {
        Err(error) => assert_eq!(error.to_text(), "version health check failed: not ready"),
        Ok(_) => panic!("unhealthy switch must fail"),
    }
}

#[test]
fn expected_revision_must_match() {
    let mut control = build_control(2);
    match control.begin_switch(VersionId::new("v1"), Some(5)) {
        Err(ControlError::Conflict(message)) => assert_eq!(message, "revision mismatch: expected 5, current 1"),
        _ => panic!("mismatch must conflict"),
    }
    assert!(control.begin_switch(VersionId::new("v1"), Some(1)).is_ok());
    match control.drain(&VersionId::new("v1"), Some(2), 10) {
        Err(ControlError::Conflict(message)) => assert_eq!(message, "revision mismatch: expected 2, current 1"),
        _ => panic!("mismatch must conflict"),
    }
}

#[test]
fn switch_to_unknown_version_conflicts() {
    let control = build_control(2);
    match control.begin_switch(VersionId::new("v9"), None) {
        Err(ControlError::Conflict(message)) => assert_eq!(message, "version is not configured"),
        _ => panic!("unknown version must conflict"),
    }
}

#[test]
fn drain_and_stop_refuse_the_active_version() {
    let mut control = build_control(2);
    assert_eq!(control.drain(&VersionId::new("v0"), None, 1).err().map(|e| e.to_text()), Some("active version cannot be drained directly".to_owned()));
    assert_eq!(control.stop(&VersionId::new("v0"), None, 1).err().map(|e| e.to_text()), Some("active version cannot be stopped".to_owned()));
    assert_eq!(control.drain(&VersionId::new("v7"), None, 1).err().map(|e| e.to_text()), Some("version not found".to_owned()));
    assert_eq!(control.stop(&VersionId::new("v7"), None, 1).err().map(|e| e.to_text()), Some("version not found".to_owned()));
    let outcome = control.drain(&VersionId::new("v1"), None, 1).expect("drain v1");
    assert_eq!(outcome.summary, "draining=v1");
    let outcome = control.stop(&VersionId::new("v1"), None, 2).expect("stop v1");
    assert_eq!(outcome.summary, "stopped=v1");
}

#[test]
fn stop_refuses_version_with_connections() {
    let mut control = build_control(2);
    let mut saved = Vec::new();
    let loaded = control.gateway.active.copy();
    let prepared = control.gateway.prepare_proxy(&loaded, &mut control.versions, hypergate::request::RequestKind::Unary).expect("lease");
    switch_with(&mut control, "v1", healthy(), &mut saved).expect("switch");
    assert_eq!(control.stop(&VersionId::new("v0"), None, 3).err().map(|e| e.to_text()), Some("version still has active connections".to_owned()));
    control.versions.release(prepared.lease);
    assert!(control.stop(&VersionId::new("v0"), None, 3).is_ok());
}

#[test]
fn forced_close_timer_follows_drain_configuration() {
    let mut config = config_with(2);
    config.drain.force_close_streams = true;
    config.drain.timeout_secs = 30;
    let mut chain = ConfigValidatorChain::new();
    chain.push(DefaultConfigValidator);
    let manager = ConfigManager::new(config, NoLoader, chain);
    let mut control = match GatewayControl::start(manager, Vec::new(), 0) {
        Ok(c) => c,
        Err(e) => panic!("start: {}", e.message),
    };
    let outcome = control.drain(&VersionId::new("v1"), None, 5).expect("drain");
    let timer = outcome.drain_timer.expect("force close timer");
    assert_eq!(timer.version.value, "v1");
    assert_eq!(timer.after_secs, 30);
}

#[test]
fn reload_refuses_server_changes_and_running_removals() {
    let mut control = build_control(2);
    let mut next = control.manager.current.copy();
    next.server.listen = "127.0.0.1:9999".to_owned();
    let mut saved = Vec::new();
    assert_eq!(reload(&mut control, next, &mut saved).err().map(|e| e.to_text()), Some("server configuration changes require a gateway restart".to_owned()));

    switch(&mut control, "v1").expect("switch");
    let mut next = control.manager.current.copy();
    next.versions.remove(&VersionId::new("v0"));
    assert_eq!(reload(&mut control, next, &mut saved).err().map(|e| e.to_text()), Some("running version cannot be removed: v0".to_owned()));
    assert!(saved.is_empty());
}

#[test]
fn reload_keeps_active_version_and_advances_revision() {
    let mut control = build_control(2);
    let mut next = control.manager.current.copy();
    next.active_version = VersionId::new("v1");
    next.versions.insert(
        VersionId::new("v5"),
        VersionConfig { endpoint: "http://127.0.0.1:9105".to_owned(), health: "http://127.0.0.1:9105/ready".to_owned() },
    );
    let mut saved = Vec::new();
    let outcome = reload(&mut control, next, &mut saved).expect("reload");
    assert_eq!(outcome.summary, "reload=ok");
    assert_eq!(control.manager.current.active_version.value, "v0");
    assert_eq!(control.manager.current.revision.value, 2);
    assert!(control.versions.contains(&VersionId::new("v5")));
    assert_eq!(saved[0].active_version.value, "v0");
}

#[test]
fn snapshot_lists_versions_in_order_with_configuration() {
    let control = build_control(3);
    let snapshot = control.snapshot(7);
    assert_eq!(snapshot.uptime_seconds, 7);
    let ids: Vec<&str> = snapshot.versions.iter().map(|v| v.id.as_str()).collect();
    assert_eq!(ids, vec!["v0", "v1", "v2"]);
    assert_eq!(snapshot.versions[0].state, "active");
    assert_eq!(snapshot.versions[1].state, "stopped");
    assert_eq!(snapshot.versions[1].endpoint.as_deref(), Some("http://127.0.0.1:9001"));
    assert!(!snapshot.versions[0].drain_timed_out);
}

#[test]
fn normalize_history_filters_then_caps() {
    let configured: Vec<VersionId> = (0..40).map(|i| VersionId::from_string(format!("v{i}"))).collect();
    let mut history: Vec<VersionId> = (0..40).map(|i| VersionId::from_string(format!("v{i}"))).collect();
    history.insert(3, VersionId::new("gone"));
    normalize_history(&mut history, &configured);
    assert_eq!(history.len(), 32);
    assert_eq!(history[0].value, "v8");
    assert_eq!(history[31].value, "v39");
}

#[test]
fn startup_restores_persisted_state() {
    let mut config = config_with(2);
    let mut persisted = PersistedState {
        revision: ConfigRevision { value: 9 },
        active_version: VersionId::new("v1"),
        history: vec![VersionId::new("gone"), VersionId::new("v0")],
    };
    restore_startup_state(&mut config, &mut persisted).expect("restore");
    assert_eq!(config.revision.value, 9);
    assert_eq!(config.active_version.value, "v1");
    assert_eq!(persisted.history.len(), 1);
    assert_eq!(persisted.history[0].value, "v0");

    let mut config = config_with(2);
    let mut persisted = PersistedState { revision: ConfigRevision { value: 3 }, active_version: VersionId::new("v9"), history: Vec::new() };
    let error = restore_startup_state(&mut config, &mut persisted).err().expect("unconfigured active");
    assert_eq!(error.message, "persisted active version is not configured: v9");
}

#[test]
fn start_requires_a_valid_active_endpoint() {
    let mut config = config_with(1);
    config.versions.insert(VersionId::new("v0"), VersionConfig { endpoint: "/no-scheme".to_owned(), health: "x".to_owned() });
    let mut chain = ConfigValidatorChain::new();
    chain.push(DefaultConfigValidator);
    let manager = ConfigManager::new(config, NoLoader, chain);
    match GatewayControl::start(manager, Vec::new(), 0) {
        Err(error) => assert_eq!(error.message, "version endpoint missing scheme"),
        Ok(_) => panic!("an endpoint without scheme must be refused"),
    }
    let _ = VersionState::Active;
}
