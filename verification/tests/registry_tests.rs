use engine_supervisor::registry::EngineInfo;
use engine_supervisor::registry::EngineState;

#[test]
fn default_info_has_nothing_discovered() {
    let info = EngineInfo::default();
    assert_eq!(info.port, None);
    assert_eq!(info.shutdown_token, None);
}

#[test]
fn fresh_registry_is_empty() {
    let state: EngineState<u32> = EngineState::new();
    let (port, token) = state.read_info_snapshot();
    assert_eq!(port, None);
    assert_eq!(token, None);
}

#[test]
fn take_child_returns_handle_once_then_absence() {
    let mut state: EngineState<u32> = EngineState::new();
    state.set_child(7);
    assert_eq!(state.take_child(), Some(7));
    assert_eq!(state.take_child(), None);
    assert_eq!(state.take_child(), None);
}

#[test]
fn take_child_on_empty_registry_observes_absence() {
    let mut state: EngineState<u32> = EngineState::new();
    assert_eq!(state.take_child(), None);
}

#[test]
fn applying_same_line_twice_is_idempotent() {
    let mut once: EngineState<u32> = EngineState::new();
    let mut twice: EngineState<u32> = EngineState::new();
    let line = "engine listening on http://127.0.0.1:38471 shutdown_token=tok\n";
    once.apply_line(line);
    twice.apply_line(line);
    twice.apply_line(line);
    assert_eq!(once.read_info_snapshot(), twice.read_info_snapshot());
}

#[test]
fn line_without_markers_leaves_registry_untouched() {
    let mut state: EngineState<u32> = EngineState::new();
    state.apply_line("engine listening on http://127.0.0.1:38471");
    state.apply_line("shutdown_token=abc123");
    state.apply_line("plain progress message");
    let (port, token) = state.read_info_snapshot();
    assert_eq!(port, Some(38471));
    assert_eq!(token, Some("abc123".to_string()));
}

#[test]
fn newly_published_values_overwrite_old_ones() {
    let mut state: EngineState<u32> = EngineState::new();
    state.apply_line("http://127.0.0.1:1111 shutdown_token=first");
    state.apply_line("http://127.0.0.1:2222 shutdown_token=second");
    let (port, token) = state.read_info_snapshot();
    assert_eq!(port, Some(2222));
    assert_eq!(token, Some("second".to_string()));
}

#[test]
fn update_info_merges_partial_discoveries() {
    let mut state: EngineState<u32> = EngineState::new();
    state.update_info(Some(9000), None);
    state.update_info(None, Some("tok".to_string()));
    state.update_info(None, None);
    let (port, token) = state.read_info_snapshot();
    assert_eq!(port, Some(9000));
    assert_eq!(token, Some("tok".to_string()));
}

#[test]
fn drain_sequence_yields_final_registry_state() {
    let mut state: EngineState<u32> = EngineState::new();
    let lines = [
        "starting up",
        "engine listening on http://127.0.0.1:9000 for requests",
        "shutdown_token=deadbeef",
        "ready",
    ];
    for line in lines {
        state.apply_line(line);
    }
    let (port, token) = state.read_info_snapshot();
    assert_eq!(port, Some(9000));
    assert_eq!(token, Some("deadbeef".to_string()));
}

#[test]
fn try_allow_close_flips_exactly_once() {
    let mut state: EngineState<u32> = EngineState::new();
    assert!(state.try_allow_close());
    assert!(!state.try_allow_close());
    assert!(!state.try_allow_close());
}
