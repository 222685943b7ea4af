use wrk::connection::{ConnAction, ConnEvent, ConnPhase, Connection};

fn received(data: &[u8]) -> ConnEvent {
    ConnEvent::Received { data: data.to_vec(), elapsed_us: 250, expired: false }
}

#[test]
fn keep_alive_request_cycle() {
    let mut c = Connection::new();
    assert!(matches!(c.step(ConnEvent::Start { expired: false }), ConnAction::Connect));
    assert!(matches!(c.step(ConnEvent::Connected { expired: false }), ConnAction::Send));
    assert!(matches!(c.step(ConnEvent::Sent), ConnAction::Receive));
    assert!(matches!(c.step(received(b"HTTP/1.1 200 OK\r\nContent-Le")), ConnAction::Receive));
    assert!(matches!(c.step(received(b"ngth: 4\r\n\r\nab")), ConnAction::Receive));
    match c.step(received(b"cdEXTRA")) {
        ConnAction::Deliver { status, headers, body, keep_alive } => {
            assert!(keep_alive);
            assert_eq!(status, 200);
            assert_eq!(body, b"abcd".to_vec());
            assert_eq!(headers, vec![("Content-Length".to_string(), "4".to_string())]);
        }
        _ => panic!("expected a delivered response"),
    }
    assert_eq!(c.stats.requests, 1);
    assert_eq!(c.stats.bytes, 47);
    assert_eq!(c.stats.latency.histogram.len(), 1);
    assert!(matches!(c.step(ConnEvent::Delivered { expired: false }), ConnAction::Send));
    assert!(matches!(c.step(ConnEvent::Sent), ConnAction::Receive));
    assert!(c.buf.is_empty());
    match c.step(received(b"HTTP/1.1 503 Busy\r\nConnection: close\r\nContent-Length: 0\r\n\r\n")) {
        ConnAction::Deliver { status, body, keep_alive, .. } => {
            assert!(!keep_alive);
            assert_eq!(status, 503);
            assert!(body.is_empty());
        }
        _ => panic!("expected a delivered response"),
    }
    assert_eq!(c.stats.errors.status, 1);
    assert!(matches!(c.step(ConnEvent::Delivered { expired: false }), ConnAction::Connect));
    assert_eq!(c.phase, ConnPhase::Connecting);
    assert!(matches!(c.step(ConnEvent::Connected { expired: true }), ConnAction::Stop));
    assert_eq!(c.phase, ConnPhase::Stopped);
    assert_eq!(c.stats.requests, 2);
}

#[test]
fn failures_are_counted_by_category() {
    let mut c = Connection::new();
    c.step(ConnEvent::Start { expired: false });
    assert!(matches!(c.step(ConnEvent::ConnectFailed { expired: false }), ConnAction::Connect));
    c.step(ConnEvent::Connected { expired: false });
    assert!(matches!(c.step(ConnEvent::WriteFailed { expired: false }), ConnAction::Connect));
    c.step(ConnEvent::Connected { expired: false });
    assert!(matches!(c.step(ConnEvent::WriteTimedOut { expired: false }), ConnAction::Connect));
    c.step(ConnEvent::Connected { expired: false });
    c.step(ConnEvent::Sent);
    assert!(matches!(c.step(ConnEvent::ReadTimedOut { expired: false }), ConnAction::Connect));
    c.step(ConnEvent::Connected { expired: false });
    c.step(ConnEvent::Sent);
    assert!(matches!(c.step(ConnEvent::ReadFailed { expired: false }), ConnAction::Connect));
    c.step(ConnEvent::Connected { expired: false });
    c.step(ConnEvent::Sent);
    assert!(matches!(c.step(received(b"")), ConnAction::Connect));
    c.step(ConnEvent::Connected { expired: false });
    assert!(matches!(c.step(ConnEvent::HookFailed { expired: true }), ConnAction::Stop));
    let e = c.stats.errors;
    assert_eq!((e.connect, e.write, e.timeout, e.read, e.status), (1, 1, 2, 2, 0));
    assert_eq!(c.stats.requests, 0);
}

#[test]
fn deadline_stops_and_stopped_stays_stopped() {
    let mut c = Connection::new();
    assert!(matches!(c.step(ConnEvent::Start { expired: true }), ConnAction::Stop));
    assert!(matches!(c.step(ConnEvent::Connected { expired: false }), ConnAction::Stop));
    assert!(matches!(c.step(ConnEvent::Sent), ConnAction::Stop));
    assert_eq!(c.phase, ConnPhase::Stopped);
    let mut d = Connection::new();
    d.step(ConnEvent::Start { expired: false });
    assert!(matches!(d.step(ConnEvent::ConnectFailed { expired: true }), ConnAction::Stop));
    assert_eq!(d.stats.errors.connect, 1);
}

#[test]
fn unexpected_event_ends_the_connection() {
    let mut c = Connection::new();
    c.step(ConnEvent::Start { expired: false });
    assert!(matches!(c.step(ConnEvent::Sent), ConnAction::Stop));
    assert_eq!(c.phase, ConnPhase::Stopped);
}

#[test]
fn can_take_reports_room() {
    let c = Connection::new();
    assert!(c.can_take(&ConnEvent::Sent));
    assert!(c.can_take(&received(b"abc")));
}

#[test]
fn read_with_data_after_deadline_still_completes() {
    let mut c = Connection::new();
    c.step(ConnEvent::Start { expired: false });
    c.step(ConnEvent::Connected { expired: false });
    c.step(ConnEvent::Sent);
    let late = ConnEvent::Received {
        data: b"HTTP/1.1 400 Bad\r\nContent-Length: 0\r\n\r\n".to_vec(),
        elapsed_us: 10,
        expired: true,
    };
    assert!(matches!(c.step(late), ConnAction::Deliver { status: 400, .. }));
    assert_eq!(c.stats.requests, 1);
    assert_eq!(c.stats.errors.status, 1);
    assert!(matches!(c.step(ConnEvent::Delivered { expired: true }), ConnAction::Stop));
    let before = c.stats.errors;
    assert!(matches!(c.step(ConnEvent::ReadFailed { expired: false }), ConnAction::Stop));
    assert_eq!(c.stats.errors, before);
    assert_eq!(c.phase, ConnPhase::Stopped);
}
