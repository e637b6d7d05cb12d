use workany::supervisor::{
    drain, sidecar_env, sidecar_executable, DrainAction, Drainer, ProcessEvent,
    SidecarProcessHandle,
};

#[test]
fn stdout_events_are_observed_in_emission_order() {
    let events = vec![
        ProcessEvent::Stdout(b"A".to_vec()),
        ProcessEvent::Stdout(b"B".to_vec()),
        ProcessEvent::Terminated(Some(0)),
    ];
    let actions = drain(&events);
    assert_eq!(actions.len(), 3);
    match &actions[0] {
        DrainAction::LogStdout(s) => assert_eq!(s, "A"),
        _ => panic!("expected stdout log"),
    }
    match &actions[1] {
        DrainAction::LogStdout(s) => assert_eq!(s, "B"),
        _ => panic!("expected stdout log"),
    }
    match &actions[2] {
        DrainAction::Stop(code) => assert_eq!(*code, Some(0)),
        _ => panic!("expected stop"),
    }
}

#[test]
fn nothing_is_consumed_after_termination() {
    let events = vec![
        ProcessEvent::Stdout(b"before".to_vec()),
        ProcessEvent::Terminated(Some(1)),
        ProcessEvent::Stdout(b"after".to_vec()),
    ];
    let actions = drain(&events);
    assert_eq!(actions.len(), 2);
    assert!(matches!(actions[1], DrainAction::Stop(Some(1))));
}

#[test]
fn stream_without_termination_is_drained_whole() {
    let events = vec![
        ProcessEvent::Stdout(b"one".to_vec()),
        ProcessEvent::Stderr(b"two".to_vec()),
    ];
    let actions = drain(&events);
    assert_eq!(actions.len(), 2);
    match &actions[1] {
        DrainAction::LogStderr(s) => assert_eq!(s, "two"),
        _ => panic!("expected stderr log"),
    }
}

#[test]
fn invalid_bytes_become_replacement_characters() {
    let events = vec![ProcessEvent::Stdout(vec![0xff, 0xfe])];
    let actions = drain(&events);
    match &actions[0] {
        DrainAction::LogStdout(s) => assert_eq!(s, "\u{FFFD}\u{FFFD}"),
        _ => panic!("expected stdout log"),
    }
}

#[test]
fn byte_chunks_need_not_be_line_aligned() {
    let events = vec![
        ProcessEvent::Stdout(b"listening on".to_vec()),
        ProcessEvent::Stdout(b" port 2620\n".to_vec()),
    ];
    let actions = drain(&events);
    match (&actions[0], &actions[1]) {
        (DrainAction::LogStdout(a), DrainAction::LogStdout(b)) => {
            assert_eq!(format!("{}{}", a, b), "listening on port 2620\n");
        }
        _ => panic!("expected two stdout logs"),
    }
}

#[test]
fn spawn_stage_error_event_is_logged_not_fatal() {
    let events = vec![
        ProcessEvent::SpawnError(String::from("stream broke")),
        ProcessEvent::Stdout(b"still here".to_vec()),
    ];
    let actions = drain(&events);
    assert_eq!(actions.len(), 2);
    match &actions[0] {
        DrainAction::LogError(s) => assert_eq!(s, "stream broke"),
        _ => panic!("expected error log"),
    }
}

#[test]
fn drainer_is_exhausted_exactly_by_termination() {
    let mut d = Drainer::new();
    let a = d.on_event(&ProcessEvent::Stderr(b"warming up".to_vec()));
    assert!(matches!(a, DrainAction::LogStderr(_)));
    let a = d.on_event(&ProcessEvent::Terminated(None));
    assert!(matches!(a, DrainAction::Stop(None)));
}

#[test]
fn sidecar_contract_names_port_and_node_env() {
    assert_eq!(sidecar_executable(), "workany-api");
    let env = sidecar_env();
    assert_eq!(env.len(), 2);
    assert_eq!(env[0], (String::from("PORT"), String::from("2620")));
    assert_eq!(env[1], (String::from("NODE_ENV"), String::from("production")));
}

#[test]
fn handle_tracks_identity_and_liveness() {
    let mut h = SidecarProcessHandle::new(4242, sidecar_env());
    assert_eq!(h.pid, 4242);
    assert!(h.is_live());
    h.mark_terminated();
    assert!(!h.is_live());
    assert_eq!(h.pid, 4242);
}
