use jeditr::pump::OutputPump;
use jeditr::pump::ReadEvent;
use jeditr::pump::ShellEvent;
use jeditr::pump::pump_session;

fn sid(s: &str) -> String {
    s.to_string()
}

fn is_output(ev: &ShellEvent, id: &str, text: &[u8]) -> bool {
    match ev {
        ShellEvent::Output { session_id, line } => session_id == id && line == &text.to_vec(),
        _ => false,
    }
}

fn is_error(ev: &ShellEvent, id: &str, text: &str) -> bool {
    match ev {
        ShellEvent::Error { session_id, message } => session_id == id && message == text,
        _ => false,
    }
}

fn is_exit(ev: &ShellEvent, id: &str, code: Option<i32>) -> bool {
    match ev {
        ShellEvent::Exit { session_id, status } => session_id == id && *status == code,
        _ => false,
    }
}

#[test]
fn complete_lines_in_order() {
    let reads = vec![ReadEvent::Data(b"one\ntwo\n".to_vec()), ReadEvent::Closed];
    let events = pump_session(&sid("s"), &reads, Some(0));
    assert_eq!(events.len(), 3);
    assert!(is_output(&events[0], "s", b"one"));
    assert!(is_output(&events[1], "s", b"two"));
    assert!(is_exit(&events[2], "s", Some(0)));
}

#[test]
fn chunk_boundaries_do_not_matter() {
    let reads = vec![
        ReadEvent::Data(b"he".to_vec()),
        ReadEvent::Data(b"llo\nwor".to_vec()),
        ReadEvent::Data(b"ld\n".to_vec()),
        ReadEvent::Closed,
    ];
    let events = pump_session(&sid("s"), &reads, None);
    assert_eq!(events.len(), 3);
    assert!(is_output(&events[0], "s", b"hello"));
    assert!(is_output(&events[1], "s", b"world"));
    assert!(is_exit(&events[2], "s", None));
}

#[test]
fn carriage_return_is_stripped_before_terminator() {
    let reads = vec![ReadEvent::Data(b"a\r\nb\n".to_vec()), ReadEvent::Closed];
    let events = pump_session(&sid("s"), &reads, Some(1));
    assert_eq!(events.len(), 3);
    assert!(is_output(&events[0], "s", b"a"));
    assert!(is_output(&events[1], "s", b"b"));
}

#[test]
fn unterminated_final_record_is_dropped() {
    let reads = vec![ReadEvent::Data(b"kept\npartial".to_vec()), ReadEvent::Closed];
    let events = pump_session(&sid("s"), &reads, Some(0));
    assert_eq!(events.len(), 2);
    assert!(is_output(&events[0], "s", b"kept"));
    assert!(is_exit(&events[1], "s", Some(0)));
}

#[test]
fn empty_stream_yields_only_exit() {
    let reads = vec![ReadEvent::Closed];
    let events = pump_session(&sid("s"), &reads, Some(7));
    assert_eq!(events.len(), 1);
    assert!(is_exit(&events[0], "s", Some(7)));
}

#[test]
fn empty_lines_are_records() {
    let reads = vec![ReadEvent::Data(b"\n\n".to_vec()), ReadEvent::Closed];
    let events = pump_session(&sid("s"), &reads, Some(0));
    assert_eq!(events.len(), 3);
    assert!(is_output(&events[0], "s", b""));
    assert!(is_output(&events[1], "s", b""));
}

#[test]
fn read_error_yields_one_error_then_exit() {
    let reads = vec![
        ReadEvent::Data(b"x\n".to_vec()),
        ReadEvent::Failed("boom".to_string()),
    ];
    let events = pump_session(&sid("s"), &reads, None);
    assert_eq!(events.len(), 3);
    assert!(is_output(&events[0], "s", b"x"));
    assert!(is_error(&events[1], "s", "boom"));
    assert!(is_exit(&events[2], "s", None));
}

#[test]
fn nothing_follows_an_error_but_exit() {
    let reads = vec![
        ReadEvent::Failed("gone".to_string()),
        ReadEvent::Data(b"late\n".to_vec()),
        ReadEvent::Closed,
    ];
    let events = pump_session(&sid("s"), &reads, Some(1));
    assert_eq!(events.len(), 2);
    assert!(is_error(&events[0], "s", "gone"));
    assert!(is_exit(&events[1], "s", Some(1)));
}

#[test]
fn incremental_pump_matches_whole_run() {
    let mut pump = OutputPump::new(sid("t"));
    let first = pump.on_read(&ReadEvent::Data(b"ab\ncd".to_vec()));
    assert_eq!(first.len(), 1);
    assert!(is_output(&first[0], "t", b"ab"));
    let second = pump.on_read(&ReadEvent::Data(b"ef\n".to_vec()));
    assert_eq!(second.len(), 1);
    assert!(is_output(&second[0], "t", b"cdef"));
    let third = pump.on_read(&ReadEvent::Closed);
    assert!(third.is_empty());
    let last = pump.on_exit(Some(3));
    assert!(is_exit(&last, "t", Some(3)));
}

#[test]
fn two_sessions_never_mix_identifiers() {
    let reads_a = vec![ReadEvent::Data(b"from a\n".to_vec()), ReadEvent::Closed];
    let reads_b = vec![ReadEvent::Data(b"from b\n".to_vec()), ReadEvent::Closed];
    let events_a = pump_session(&sid("a"), &reads_a, Some(0));
    let events_b = pump_session(&sid("b"), &reads_b, Some(0));
    for ev in &events_a {
        let id = match ev {
            ShellEvent::Output { session_id, .. } => session_id,
            ShellEvent::Error { session_id, .. } => session_id,
            ShellEvent::Exit { session_id, .. } => session_id,
        };
        assert_eq!(id, "a");
    }
    for ev in &events_b {
        let id = match ev {
            ShellEvent::Output { session_id, .. } => session_id,
            ShellEvent::Error { session_id, .. } => session_id,
            ShellEvent::Exit { session_id, .. } => session_id,
        };
        assert_eq!(id, "b");
    }
    assert!(is_output(&events_a[0], "a", b"from a"));
    assert!(is_output(&events_b[0], "b", b"from b"));
}

#[test]
fn carriage_return_inside_a_record_is_kept() {
    let reads = vec![ReadEvent::Data(b"a\rb\n".to_vec()), ReadEvent::Closed];
    let events = pump_session(&sid("s"), &reads, Some(0));
    assert_eq!(events.len(), 2);
    assert!(is_output(&events[0], "s", b"a\rb"));
}
