use dashboard_core::terminal::PtyChannel;
use dashboard_core::terminal::ReadEvent;
use dashboard_core::terminal::SessionEvent;
use dashboard_core::terminal::SessionManager;
use dashboard_core::terminal::TerminalError;
use dashboard_core::terminal::exit_watch_event;
use dashboard_core::terminal::parse_session_id;
use dashboard_core::terminal::session_id_string;

use std::cell::RefCell;
use std::rc::Rc;

struct MockChannel {
    sent: Rc<RefCell<Vec<Vec<u8>>>>,
    sizes: Rc<RefCell<Vec<(u16, u16)>>>,
    fail: bool,
}

impl MockChannel {
    fn new() -> (MockChannel, Rc<RefCell<Vec<Vec<u8>>>>, Rc<RefCell<Vec<(u16, u16)>>>) {
        let sent = Rc::new(RefCell::new(Vec::new()));
        let sizes = Rc::new(RefCell::new(Vec::new()));
        (
            MockChannel { sent: sent.clone(), sizes: sizes.clone(), fail: false },
            sent,
            sizes,
        )
    }
}

impl PtyChannel for MockChannel {
    fn send(&mut self, data: &[u8]) -> Result<(), String> {
        if self.fail {
            return Err("mock send failure".to_string());
        }
        self.sent.borrow_mut().push(data.to_vec());
        Ok(())
    }

    fn set_size(&mut self, rows: u16, cols: u16) -> Result<(), String> {
        if self.fail {
            return Err("mock resize failure".to_string());
        }
        self.sizes.borrow_mut().push((rows, cols));
        Ok(())
    }
}

#[test]
fn test_generate_session_id() {
    let mut manager: SessionManager<MockChannel> = SessionManager::new();
    let id1 = manager.generate_session_id();
    let id2 = manager.generate_session_id();
    assert!(id1.starts_with("terminal-"));
    assert!(id2.starts_with("terminal-"));
    assert_ne!(id1, id2);
}

#[test]
fn session_id_strings_render_in_decimal() {
    assert_eq!(session_id_string(1), "terminal-1");
    assert_eq!(session_id_string(42), "terminal-42");
    assert_eq!(session_id_string(1000), "terminal-1000");
}

#[test]
fn session_id_strings_parse_back_to_their_ids() {
    for n in [0u64, 1, 9, 10, 42, 1000, u64::MAX] {
        assert_eq!(parse_session_id(&session_id_string(n)), Some(n));
    }
    assert_eq!(parse_session_id("nonsense"), None);
    assert_eq!(parse_session_id("terminal-"), None);
    assert_eq!(parse_session_id("terminal-1x"), None);
    assert_eq!(parse_session_id("terminal-99999999999999999999999"), None);
}

#[test]
fn count_tracks_registrations_and_removals() {
    let mut manager: SessionManager<MockChannel> = SessionManager::new();
    assert_eq!(manager.count(), 0);
    let (c1, _, _) = MockChannel::new();
    let (c2, _, _) = MockChannel::new();
    let a = manager.register(c1);
    let b = manager.register(c2);
    assert_eq!(manager.count(), 2);
    let step = manager.reader_step(a, ReadEvent::Eof);
    assert!(step.finished);
    assert_eq!(manager.count(), 1);
    // Writing, resizing and closing never change the count.
    let _ = manager.write(b, b"x");
    let _ = manager.resize(b, 24, 80);
    let _ = manager.close(b);
    assert_eq!(manager.count(), 1);
    let step = manager.reader_step(b, ReadEvent::Eof);
    assert!(step.finished);
    assert_eq!(manager.count(), 0);
}

#[test]
fn session_ids_strictly_increase_and_are_never_reused() {
    let mut manager: SessionManager<MockChannel> = SessionManager::new();
    let mut issued = Vec::new();
    for round in 0..3 {
        let (c, _, _) = MockChannel::new();
        let id = manager.register(c);
        issued.push(id);
        if round == 1 {
            // Remove a session in between: its id must not come back.
            let step = manager.reader_step(id, ReadEvent::Eof);
            assert!(step.finished);
        }
    }
    assert!(issued[0] < issued[1] && issued[1] < issued[2]);
    let strings: Vec<String> = issued.iter().map(|n| session_id_string(*n)).collect();
    assert_ne!(strings[0], strings[1]);
    assert_ne!(strings[1], strings[2]);
}

#[test]
fn write_and_resize_reject_unknown_and_closed_ids() {
    let mut manager: SessionManager<MockChannel> = SessionManager::new();
    assert!(matches!(manager.write(7, b"x"), Err(TerminalError::SessionNotFound)));
    assert!(matches!(manager.resize(7, 24, 80), Err(TerminalError::SessionNotFound)));
    let (c, _, _) = MockChannel::new();
    let id = manager.register(c);
    manager.close(id).unwrap();
    assert!(matches!(manager.write(id, b"x"), Err(TerminalError::SessionClosed)));
    assert!(matches!(manager.resize(id, 24, 80), Err(TerminalError::SessionClosed)));
}

#[test]
fn close_succeeds_for_any_id() {
    let mut manager: SessionManager<MockChannel> = SessionManager::new();
    assert!(manager.close(12345).is_ok());
    let (c, _, _) = MockChannel::new();
    let id = manager.register(c);
    assert!(manager.close(id).is_ok());
    // Closing twice is as good as closing once.
    assert!(manager.close(id).is_ok());
    assert_eq!(manager.count(), 1);
}

#[test]
fn sessions_work_independently() {
    let mut manager: SessionManager<MockChannel> = SessionManager::new();
    let (c1, sent1, sizes1) = MockChannel::new();
    let (c2, sent2, sizes2) = MockChannel::new();
    let a = manager.register(c1);
    let b = manager.register(c2);
    assert_ne!(a, b);
    manager.write(a, b"left").unwrap();
    manager.write(b, b"right").unwrap();
    manager.resize(a, 24, 80).unwrap();
    manager.resize(b, 50, 132).unwrap();
    assert_eq!(&*sent1.borrow(), &vec![b"left".to_vec()]);
    assert_eq!(&*sent2.borrow(), &vec![b"right".to_vec()]);
    assert_eq!(&*sizes1.borrow(), &vec![(24, 80)]);
    assert_eq!(&*sizes2.borrow(), &vec![(50, 132)]);
    // Closing one session does not disturb the other.
    manager.close(a).unwrap();
    manager.write(b, b"still there").unwrap();
    assert_eq!(sent2.borrow().len(), 2);
    let step = manager.reader_step(b, ReadEvent::Data(b"output".to_vec()));
    assert!(!step.finished);
}

#[test]
fn failed_setup_registers_nothing() {
    let mut manager: SessionManager<MockChannel> = SessionManager::new();
    let r = manager.complete_spawn(Err("pty allocation failed".to_string()));
    match r {
        Err(TerminalError::Setup(m)) => assert_eq!(m, "pty allocation failed"),
        _ => panic!("expected a setup error"),
    }
    assert_eq!(manager.count(), 0);
    let (c, _, _) = MockChannel::new();
    let id = manager.complete_spawn(Ok(c)).unwrap();
    assert_eq!(manager.count(), 1);
    assert!(manager.write(id, b"hello").is_ok());
}

#[test]
fn eof_read_emits_one_exit_and_removes_once() {
    let mut manager: SessionManager<MockChannel> = SessionManager::new();
    let (c, _, _) = MockChannel::new();
    let id = manager.register(c);
    assert_eq!(manager.count(), 1);
    let step = manager.reader_step(id, ReadEvent::Eof);
    assert!(step.finished);
    assert_eq!(step.events.len(), 1);
    match &step.events[0] {
        SessionEvent::Exited { session, code } => {
            assert_eq!(*session, id);
            assert_eq!(*code, 0);
        },
        _ => panic!("expected an exit event"),
    }
    assert_eq!(manager.count(), 0);
    // The loop has stopped; even a stray further step removes nothing.
    let again = manager.reader_step(id, ReadEvent::Eof);
    assert!(again.finished);
    assert_eq!(manager.count(), 0);
}

#[test]
fn read_error_emits_error_event_then_lookups_fail() {
    let mut manager: SessionManager<MockChannel> = SessionManager::new();
    let (c, _, _) = MockChannel::new();
    let id = manager.register(c);
    let step = manager.reader_step(id, ReadEvent::Failure("broken pipe".to_string()));
    assert!(step.finished);
    assert_eq!(step.events.len(), 1);
    match &step.events[0] {
        SessionEvent::ReadFailed { session, message } => {
            assert_eq!(*session, id);
            assert_eq!(message, "broken pipe");
        },
        _ => panic!("expected an error event"),
    }
    assert!(matches!(manager.write(id, b"x"), Err(TerminalError::SessionNotFound)));
    assert!(matches!(manager.resize(id, 24, 80), Err(TerminalError::SessionNotFound)));
}

#[test]
fn data_reads_decode_and_keep_running_until_closed() {
    let mut manager: SessionManager<MockChannel> = SessionManager::new();
    let (c, _, _) = MockChannel::new();
    let id = manager.register(c);
    let step = manager.reader_step(id, ReadEvent::Data(b"hello".to_vec()));
    assert!(!step.finished);
    match &step.events[0] {
        SessionEvent::Output { session, data } => {
            assert_eq!(*session, id);
            assert_eq!(data, "hello");
        },
        _ => panic!("expected an output event"),
    }
    // Invalid bytes decode with the replacement character.
    let step = manager.reader_step(id, ReadEvent::Data(vec![0xff]));
    assert!(!step.finished);
    match &step.events[0] {
        SessionEvent::Output { data, .. } => assert_eq!(data, "\u{fffd}"),
        _ => panic!("expected an output event"),
    }
    // After close, the next completed read finishes the loop and
    // removes the session.
    manager.close(id).unwrap();
    let step = manager.reader_step(id, ReadEvent::Data(b"late".to_vec()));
    assert!(step.finished);
    assert_eq!(manager.count(), 0);
}

#[test]
fn channel_failures_surface_as_io_errors() {
    let mut manager: SessionManager<MockChannel> = SessionManager::new();
    let (mut c, _, _) = MockChannel::new();
    c.fail = true;
    let id = manager.register(c);
    match manager.write(id, b"x") {
        Err(TerminalError::Io(m)) => assert_eq!(m, "mock send failure"),
        _ => panic!("expected an io error"),
    }
    match manager.resize(id, 24, 80) {
        Err(TerminalError::Io(m)) => assert_eq!(m, "mock resize failure"),
        _ => panic!("expected an io error"),
    }
    // The session itself stays registered and open.
    assert_eq!(manager.count(), 1);
}

#[test]
fn exit_watcher_reports_real_codes_only() {
    let ev = exit_watch_event(3, Ok(17));
    match ev {
        Some(SessionEvent::Exited { session, code }) => {
            assert_eq!(session, 3);
            assert_eq!(code, 17);
        },
        _ => panic!("expected an exit event"),
    }
    assert!(exit_watch_event(3, Err("wait failed".to_string())).is_none());
}
