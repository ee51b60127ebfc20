use engine_supervisor::coordinator::begin_close;
use engine_supervisor::coordinator::is_success_status;
use engine_supervisor::coordinator::must_force_kill;
use engine_supervisor::coordinator::parse_http_status_line;
use engine_supervisor::coordinator::plan_rpc;
use engine_supervisor::coordinator::shutdown_url;
use engine_supervisor::coordinator::CloseDirective;
use engine_supervisor::coordinator::RpcOutcome;
use engine_supervisor::registry::EngineState;

#[test]
fn success_response_spares_the_child() {
    // Port and token known, endpoint answers 200: no forceful kill.
    let plan = plan_rpc(Some(38471), Some("tok".to_string()));
    assert_eq!(plan, Some((38471, "tok".to_string())));
    let outcome = Some(RpcOutcome::Response { status: 200 });
    assert!(!must_force_kill(&outcome));
}

#[test]
fn missing_info_forces_the_kill() {
    // Nothing discovered: no request is planned, the child must be killed.
    assert_eq!(plan_rpc(None, None), None);
    assert_eq!(plan_rpc(Some(38471), None), None);
    assert_eq!(plan_rpc(None, Some("tok".to_string())), None);
    assert!(must_force_kill(&None));
}

#[test]
fn failed_response_forces_the_kill() {
    assert!(must_force_kill(&Some(RpcOutcome::Response { status: 500 })));
    assert!(must_force_kill(&Some(RpcOutcome::Response { status: 404 })));
    assert!(must_force_kill(&Some(RpcOutcome::TransportFailure)));
}

#[test]
fn success_status_is_exactly_the_2xx_range() {
    assert!(!is_success_status(199));
    assert!(is_success_status(200));
    assert!(is_success_status(204));
    assert!(is_success_status(299));
    assert!(!is_success_status(300));
    assert!(!is_success_status(500));
}

#[test]
fn first_close_runs_cleanup_with_the_snapshot() {
    let mut state: EngineState<u32> = EngineState::new();
    state.set_child(7);
    state.apply_line("http://127.0.0.1:9000 shutdown_token=deadbeef");
    match begin_close(&mut state) {
        CloseDirective::RunCleanup { child, port, token } => {
            assert_eq!(child, Some(7));
            assert_eq!(port, Some(9000));
            assert_eq!(token, Some("deadbeef".to_string()));
        },
        CloseDirective::ProceedWithClose => panic!("first close request must run cleanup"),
    }
}

#[test]
fn second_close_passes_through_without_cleanup() {
    // A close request followed immediately by the re-issued one: exactly
    // one cleanup, and the second request is waved through.
    let mut state: EngineState<u32> = EngineState::new();
    state.set_child(7);
    let first = begin_close(&mut state);
    assert!(matches!(first, CloseDirective::RunCleanup { .. }));
    let second = begin_close(&mut state);
    assert!(matches!(second, CloseDirective::ProceedWithClose));
    let third = begin_close(&mut state);
    assert!(matches!(third, CloseDirective::ProceedWithClose));
}

#[test]
fn cleanup_snapshot_takes_the_child_with_it() {
    let mut state: EngineState<u32> = EngineState::new();
    state.set_child(7);
    match begin_close(&mut state) {
        CloseDirective::RunCleanup { child, .. } => assert_eq!(child, Some(7)),
        CloseDirective::ProceedWithClose => panic!("first close request must run cleanup"),
    }
    // The handle went out with the snapshot; nothing is left to take.
    assert_eq!(state.take_child(), None);
}

#[test]
fn shutdown_url_carries_the_port() {
    assert_eq!(shutdown_url(38471), "http://127.0.0.1:38471/shutdown");
    assert_eq!(shutdown_url(80), "http://127.0.0.1:80/shutdown");
    assert_eq!(shutdown_url(0), "http://127.0.0.1:0/shutdown");
    assert_eq!(shutdown_url(65535), "http://127.0.0.1:65535/shutdown");
}

#[test]
fn status_line_parsing_reads_the_code() {
    assert_eq!(parse_http_status_line("HTTP/1.1 200 OK"), Some(200));
    assert_eq!(parse_http_status_line("HTTP/1.1 500 Internal Server Error"), Some(500));
    assert_eq!(parse_http_status_line("HTTP/1.0 204"), Some(204));
    assert_eq!(parse_http_status_line("garbage"), None);
    assert_eq!(parse_http_status_line("HTTP/1.1 "), None);
}
