use echo_server::session::{Action, CloseReason, Event, Phase, Session};

fn write_of(bytes: &[u8]) -> Action {
    Action::Write(bytes.to_vec())
}

/// Feeds each chunk as a read followed by a successful write and returns
/// every byte asked to be written, in order.
fn echo_chunks(s: &mut Session, chunks: &[&[u8]]) -> Vec<u8> {
    let mut out = Vec::new();
    for c in chunks {
        match s.step(Event::Read(c.to_vec())) {
            Action::Write(b) => out.extend_from_slice(&b),
            other => panic!("expected a write, got {:?}", other),
        }
        assert_eq!(s.step(Event::Written), Action::Read);
    }
    out
}

#[test]
fn fresh_session_asks_for_a_read() {
    let s = Session::new();
    assert!(s.is_open());
    assert_eq!(s.request(), Action::Read);
    assert_eq!(s.close_reason(), None);
}

#[test]
fn hello_world_scenario() {
    let mut s = Session::new();
    assert_eq!(s.step(Event::Read(b"hello".to_vec())), write_of(b"hello"));
    assert_eq!(s.request(), write_of(b"hello"));
    assert_eq!(s.step(Event::Written), Action::Read);
    assert_eq!(s.step(Event::Read(b"world!".to_vec())), write_of(b"world!"));
    assert_eq!(s.step(Event::Written), Action::Read);
    assert_eq!(
        s.step(Event::Read(Vec::new())),
        Action::Close(CloseReason::PeerClosed)
    );
    assert!(!s.is_open());
    assert_eq!(s.close_reason(), Some(CloseReason::PeerClosed));
}

#[test]
fn echo_is_byte_for_byte() {
    let mut s = Session::new();
    let all: Vec<u8> = (0..=255u8).collect();
    assert_eq!(echo_chunks(&mut s, &[&all]), all);
}

#[test]
fn fragmentation_does_not_change_the_echo() {
    let data: &[u8] = b"the quick brown fox";
    let mut one = Session::new();
    let mut many = Session::new();
    let whole = echo_chunks(&mut one, &[data]);
    let pieces = echo_chunks(&mut many, &[&data[..1], &data[1..4], &data[4..18], &data[18..]]);
    assert_eq!(whole, data.to_vec());
    assert_eq!(pieces, data.to_vec());
}

#[test]
fn repeated_sends_are_each_echoed_once() {
    let mut s = Session::new();
    let mut writes = Vec::new();
    for c in [&b"a"[..], &b"a"[..], &b"bc"[..]] {
        writes.push(s.step(Event::Read(c.to_vec())));
        s.step(Event::Written);
    }
    assert_eq!(writes, vec![write_of(b"a"), write_of(b"a"), write_of(b"bc")]);
}

#[test]
fn end_of_stream_right_away_closes() {
    let mut s = Session::new();
    assert_eq!(
        s.step(Event::Read(Vec::new())),
        Action::Close(CloseReason::PeerClosed)
    );
    assert_eq!(s.close_reason(), Some(CloseReason::PeerClosed));
}

#[test]
fn read_failure_closes() {
    let mut s = Session::new();
    echo_chunks(&mut s, &[b"x"]);
    assert_eq!(s.step(Event::ReadFailed), Action::Close(CloseReason::ReadFailed));
    assert_eq!(s.close_reason(), Some(CloseReason::ReadFailed));
}

#[test]
fn write_failure_closes() {
    let mut s = Session::new();
    assert_eq!(s.step(Event::Read(b"data".to_vec())), write_of(b"data"));
    assert_eq!(s.step(Event::WriteFailed), Action::Close(CloseReason::WriteFailed));
    assert_eq!(s.close_reason(), Some(CloseReason::WriteFailed));
}

#[test]
fn closed_session_never_writes_again() {
    let mut s = Session::new();
    s.step(Event::Read(Vec::new()));
    for ev in [
        Event::Read(b"late".to_vec()),
        Event::Written,
        Event::ReadFailed,
        Event::WriteFailed,
    ] {
        assert_eq!(s.step(ev), Action::Close(CloseReason::PeerClosed));
    }
    assert_eq!(s.close_reason(), Some(CloseReason::PeerClosed));
}

#[test]
fn unrequested_events_change_nothing() {
    let mut s = Session::new();
    assert_eq!(s.step(Event::Written), Action::Read);
    assert_eq!(s.step(Event::WriteFailed), Action::Read);
    assert_eq!(s.step(Event::Read(b"q".to_vec())), write_of(b"q"));
    assert_eq!(s.step(Event::Read(b"r".to_vec())), write_of(b"q"));
    assert_eq!(s.step(Event::ReadFailed), write_of(b"q"));
    assert_eq!(s.step(Event::Written), Action::Read);
    assert!(s.is_open());
}

#[test]
fn two_sessions_do_not_cross_talk() {
    let mut a = Session::new();
    let mut b = Session::new();
    assert_eq!(a.step(Event::Read(b"from a".to_vec())), write_of(b"from a"));
    assert_eq!(b.step(Event::Read(b"from b".to_vec())), write_of(b"from b"));
    assert_eq!(a.step(Event::Written), Action::Read);
    assert_eq!(b.request(), write_of(b"from b"));
    assert_eq!(b.step(Event::WriteFailed), Action::Close(CloseReason::WriteFailed));
    assert!(a.is_open());
    assert_eq!(a.step(Event::Read(b"more".to_vec())), write_of(b"more"));
}

#[test]
fn hundred_sessions_served_side_by_side() {
    let mut sessions: Vec<Session> = (0..100).map(|_| Session::new()).collect();
    for (i, s) in sessions.iter_mut().enumerate() {
        let msg = format!("client {}", i).into_bytes();
        assert_eq!(s.step(Event::Read(msg.clone())), Action::Write(msg));
    }
    for (i, s) in sessions.iter_mut().enumerate() {
        let msg = format!("client {}", i).into_bytes();
        assert_eq!(s.request(), Action::Write(msg));
        assert_eq!(s.step(Event::Written), Action::Read);
    }
    assert!(sessions.iter().all(|s| s.is_open()));
}

#[test]
fn phase_is_public_and_comparable() {
    assert_ne!(Phase::Reading, Phase::Writing);
    assert_eq!(Phase::Closed(CloseReason::ReadFailed), Phase::Closed(CloseReason::ReadFailed));
}
