use hypergate::request::ConfigRevision;
use hypergate::state::{decode_state, PersistedState, StateFile, STATE_SCHEMA_VERSION};
use hypergate::version::VersionId;

fn round_trip(state: &PersistedState) -> PersistedState {
    match decode_state(state.to_file()) {
        Ok(restored) => restored,
        Err(error) => panic!("state should restore: {}", error.message),
    }
}

#[test]
fn state_round_trip_restores_active_revision_and_history() {
    let initial = PersistedState::initial(VersionId::new("blue"));
    assert_eq!(initial.active_version.value.as_str(), "blue");
    let initial = round_trip(&initial);
    assert_eq!(initial.active_version.value.as_str(), "blue");
    assert_eq!(initial.revision.value, 1);
    assert!(initial.history.is_empty());
    let next = PersistedState {
        revision: ConfigRevision { value: 9 },
        active_version: VersionId::new("green"),
        history: vec![VersionId::new("blue")],
    };
    let restored = round_trip(&next);
    assert_eq!(restored.revision.value, 9);
    assert_eq!(restored.active_version.value.as_str(), "green");
    assert_eq!(restored.history[0].value.as_str(), "blue");
}

fn file(schema: u32, revision: u64, active: &str, history: &[&str]) -> StateFile {
    StateFile {
        schema_version: schema,
        revision,
        active_version: active.to_owned(),
        history: history.iter().map(|h| (*h).to_owned()).collect(),
    }
}

#[test]
fn damaged_state_file_is_refused() {
    let error = decode_state(file(7, 3, "blue", &[])).unwrap_err();
    assert_eq!(error.message, "unsupported state schema version: 7");
    let error = decode_state(file(STATE_SCHEMA_VERSION, 0, "blue", &[])).unwrap_err();
    assert_eq!(error.message, "state revision and active version are required");
    let error = decode_state(file(STATE_SCHEMA_VERSION, 2, "  ", &[])).unwrap_err();
    assert_eq!(error.message, "state revision and active version are required");
    let error = decode_state(file(STATE_SCHEMA_VERSION, 2, "blue", &["a", " \t"])).unwrap_err();
    assert_eq!(error.message, "state history contains an empty version");
}

#[test]
fn state_file_has_current_schema() {
    let state = PersistedState {
        revision: ConfigRevision { value: 4 },
        active_version: VersionId::new("v2"),
        history: vec![VersionId::new("v0"), VersionId::new("v1")],
    };
    let f = state.to_file();
    assert_eq!(f.schema_version, 1);
    assert_eq!(f.revision, 4);
    assert_eq!(f.active_version, "v2");
    assert_eq!(f.history, vec!["v0".to_owned(), "v1".to_owned()]);
}
