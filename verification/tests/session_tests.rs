use jeditr::pump::ReadEvent;
use jeditr::pump::ShellEvent;
use jeditr::pump::pump_session;
use jeditr::resolver::Platform;
use jeditr::session::SessionManager;
use jeditr::session::StartStep;
use jeditr::session::TerminalSession;

#[test]
fn start_on_fresh_id_orders_a_spawn() {
    let manager = SessionManager::new();
    let id = "a".to_string();
    let step = manager.start_shell(&id, Platform::Posix, Some("/bin/zsh".to_string()), None);
    match step {
        StartStep::SpawnShell(choice) => {
            assert_eq!(choice.program, "/bin/zsh");
            assert!(choice.args.is_empty());
        },
        StartStep::AlreadyRunning => panic!("fresh id must spawn"),
    }
}

#[test]
fn second_start_is_a_no_op() {
    let mut manager = SessionManager::new();
    let id = "a".to_string();
    let registered = manager.register_spawned(&id, TerminalSession { process: 1, input: 1 });
    assert!(registered);
    let step = manager.start_shell(&id, Platform::Posix, None, None);
    assert!(matches!(step, StartStep::AlreadyRunning));
    let again = manager.register_spawned(&id, TerminalSession { process: 2, input: 2 });
    assert!(!again);
    let held = manager.send_input(&id);
    assert_eq!(held, Some(TerminalSession { process: 1, input: 1 }));
}

#[test]
fn send_input_on_unknown_id_is_silent() {
    let manager = SessionManager::new();
    let r = manager.send_input(&"ghost".to_string());
    assert_eq!(r, None);
}

#[test]
fn close_on_unknown_id_is_silent() {
    let mut manager = SessionManager::new();
    let r = manager.close_shell(&"ghost".to_string());
    assert_eq!(r, None);
}

#[test]
fn close_removes_and_hands_back_the_session() {
    let mut manager = SessionManager::new();
    let id = "a".to_string();
    let session = TerminalSession { process: 11, input: 12 };
    assert!(manager.register_spawned(&id, session));
    let closed = manager.close_shell(&id);
    assert_eq!(closed, Some(session));
    assert_eq!(manager.send_input(&id), None);
    let step = manager.start_shell(&id, Platform::Posix, None, None);
    assert!(matches!(step, StartStep::SpawnShell(_)));
}

#[test]
fn distinct_ids_do_not_disturb_each_other() {
    let mut manager = SessionManager::new();
    let a = "a".to_string();
    let b = "b".to_string();
    assert!(manager.register_spawned(&a, TerminalSession { process: 1, input: 2 }));
    assert!(manager.register_spawned(&b, TerminalSession { process: 3, input: 4 }));
    assert_eq!(manager.close_shell(&a), Some(TerminalSession { process: 1, input: 2 }));
    assert_eq!(manager.send_input(&b), Some(TerminalSession { process: 3, input: 4 }));
}

#[test]
fn echo_round_trip_scenario() {
    // start "a", forward input, observe its echoed output before the
    // exit event, close "a": the model run of the concrete scenario.
    let mut manager = SessionManager::new();
    let id = "a".to_string();
    let step = manager.start_shell(&id, Platform::Posix, Some("/bin/sh".to_string()), None);
    assert!(matches!(step, StartStep::SpawnShell(_)));
    assert!(manager.register_spawned(&id, TerminalSession { process: 7, input: 8 }));

    let target = manager.send_input(&id);
    assert_eq!(target, Some(TerminalSession { process: 7, input: 8 }));

    // the embedding application writes "echo hi\n" to the session's
    // input and reads "hi\n" back on its output
    let reads = vec![ReadEvent::Data(b"hi\n".to_vec()), ReadEvent::Closed];
    let events = pump_session(&id, &reads, Some(0));
    assert_eq!(events.len(), 2);
    match &events[0] {
        ShellEvent::Output { session_id, line } => {
            assert_eq!(session_id, "a");
            assert_eq!(line, &b"hi".to_vec());
        },
        _ => panic!("output event must come before the exit event"),
    }
    assert!(matches!(&events[1], ShellEvent::Exit { status: Some(0), .. }));

    let closed = manager.close_shell(&id);
    assert_eq!(closed, Some(TerminalSession { process: 7, input: 8 }));
    assert_eq!(manager.send_input(&id), None);
}
