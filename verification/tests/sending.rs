use fsdebounce::Debounce;
use fsdebounce::Error;
use fsdebounce::Event;
use fsdebounce::EventTx;
use fsdebounce::Op;
use fsdebounce::RawEvent;
use fsdebounce::Sent;

fn p(s: &str) -> String {
    s.to_string()
}

fn raw(path: Option<&str>, op: Result<Op, Error>, cookie: Option<u32>) -> RawEvent {
    RawEvent { path: path.map(p), op, cookie }
}

fn debounced(tx: &mut EventTx, event: RawEvent, now: u64) -> Vec<Event> {
    if event.path.is_some() && event.op.is_ok() {
        assert!(tx.can_send(now));
    }
    match tx.send(event, false, false, now) {
        Sent::Debounced(events) => events,
        Sent::Raw(_) => panic!("a raw event came out of a debounced mode"),
    }
}

#[test]
fn raw_mode_passes_events_on() {
    let mut tx = EventTx::Raw;
    match tx.send(raw(Some("/a"), Ok(Op::write()), Some(3)), false, false, 0) {
        Sent::Raw(e) => {
            assert_eq!(e.path, Some(p("/a")));
            assert_eq!(e.op.unwrap(), Op::write());
            assert_eq!(e.cookie, Some(3));
        }
        Sent::Debounced(_) => panic!("raw mode debounced"),
    }
}

#[test]
fn debounced_mode_coalesces() {
    let mut tx = EventTx::Debounced { debounce: Debounce::new(100) };
    let out = debounced(&mut tx, raw(Some("/a"), Ok(Op::write()), None), 0);
    assert_eq!(out, vec![Event::NoticeWrite(p("/a"))]);
    let out = debounced(&mut tx, raw(Some("/a"), Ok(Op::write()), None), 1);
    assert_eq!(out, vec![]);
    match &mut tx {
        EventTx::Debounced { debounce } => {
            assert_eq!(debounce.fire(101), vec![Event::Write(p("/a"))]);
        }
        _ => unreachable!(),
    }
}

#[test]
fn rescan_signal_is_forwarded() {
    for mut tx in [EventTx::Debounced { debounce: Debounce::new(100) }, EventTx::DebouncedTx] {
        assert_eq!(debounced(&mut tx, raw(None, Ok(Op::rescan()), None), 0), vec![Event::Rescan]);
        // A cookie that comes with the signal is of no account.
        assert_eq!(debounced(&mut tx, raw(None, Ok(Op::rescan()), Some(1)), 0), vec![Event::Rescan]);
        // With more than the rescan it is no rescan signal.
        let more = Op::rescan().union(Op::write());
        assert_eq!(debounced(&mut tx, raw(None, Ok(more), None), 0), vec![]);
    }
    // With a path the debouncer emits the rescan itself.
    let mut tx = EventTx::Debounced { debounce: Debounce::new(100) };
    assert_eq!(debounced(&mut tx, raw(Some("/a"), Ok(Op::rescan()), None), 0), vec![Event::Rescan]);
}

#[test]
fn event_without_path_is_dropped() {
    for mut tx in [EventTx::Debounced { debounce: Debounce::new(100) }, EventTx::DebouncedTx] {
        assert_eq!(debounced(&mut tx, raw(None, Ok(Op::write()), None), 0), vec![]);
        assert_eq!(debounced(&mut tx, raw(None, Ok(Op::empty()), Some(2)), 0), vec![]);
    }
}

#[test]
fn errors_are_forwarded_with_their_path() {
    for mut tx in [EventTx::Debounced { debounce: Debounce::new(100) }, EventTx::DebouncedTx] {
        let out = debounced(&mut tx, raw(Some("/a"), Err(Error::PathNotFound), None), 0);
        assert_eq!(out.len(), 1);
        assert!(matches!(&out[0], Event::Error(Error::PathNotFound, Some(path)) if path == "/a"));
        let out = debounced(&mut tx, raw(None, Err(Error::Generic(p("boom"))), Some(1)), 0);
        assert!(matches!(&out[0], Event::Error(Error::Generic(m), None) if m == "boom"));
        let out = debounced(&mut tx, raw(None, Err(Error::Io(p("disk"))), None), 0);
        assert!(matches!(&out[0], Event::Error(Error::Io(m), None) if m == "disk"));
        let out = debounced(&mut tx, raw(None, Err(Error::WatchNotFound), None), 0);
        assert!(matches!(&out[0], Event::Error(Error::WatchNotFound, None)));
    }
}

#[test]
fn errors_leave_the_buffer_alone() {
    let mut tx = EventTx::Debounced { debounce: Debounce::new(100) };
    debounced(&mut tx, raw(Some("/a"), Ok(Op::rename()), Some(1)), 0);
    debounced(&mut tx, raw(Some("/a"), Err(Error::PathNotFound), None), 1);
    match &tx {
        EventTx::Debounced { debounce } => {
            // The rename is still awaited: an error settles nothing.
            assert_eq!(debounce.rename_source(), Some(p("/a")));
            assert_eq!(debounce.pending(), 1);
        }
        _ => unreachable!(),
    }
}

#[test]
fn what_is_not_coalesced_needs_no_room() {
    // At the last instant no timer can be armed, and none is needed.
    let mut tx = EventTx::Debounced { debounce: Debounce::new(100) };
    assert!(!tx.can_send(u64::MAX));
    match tx.send(raw(None, Ok(Op::rescan()), Some(5)), false, false, u64::MAX) {
        Sent::Debounced(events) => assert_eq!(events, vec![Event::Rescan]),
        Sent::Raw(_) => panic!("a raw event came out of a debounced mode"),
    }
    match tx.send(raw(Some("/a"), Err(Error::WatchNotFound), None), false, false, u64::MAX) {
        Sent::Debounced(events) => assert_eq!(events.len(), 1),
        Sent::Raw(_) => panic!("a raw event came out of a debounced mode"),
    }
    match &tx {
        EventTx::Debounced { debounce } => assert_eq!(debounce.pending(), 0),
        _ => unreachable!(),
    }
}

#[test]
fn forwarding_mode_coalesces_nothing() {
    let mut tx = EventTx::DebouncedTx;
    assert_eq!(debounced(&mut tx, raw(Some("/a"), Ok(Op::write()), None), 0), vec![]);
    assert_eq!(debounced(&mut tx, raw(Some("/a"), Ok(Op::rescan()), None), 0), vec![]);
}

#[test]
fn event_equality() {
    assert_eq!(Event::Create(p("/a")), Event::Create(p("/a")));
    assert_ne!(Event::Create(p("/a")), Event::Create(p("/b")));
    assert_ne!(Event::Create(p("/a")), Event::Write(p("/a")));
    assert_eq!(Event::Rename(p("/a"), p("/b")), Event::Rename(p("/a"), p("/b")));
    assert_ne!(Event::Rename(p("/a"), p("/b")), Event::Rename(p("/b"), p("/a")));
    assert_eq!(Event::Rescan, Event::Rescan);
    assert_eq!(Event::NoticeWrite(p("/a")), Event::NoticeWrite(p("/a")));
    assert_ne!(Event::NoticeWrite(p("/a")), Event::NoticeRemove(p("/a")));
    // An error event equals nothing, not even itself.
    assert_ne!(Event::Error(Error::PathNotFound, None), Event::Error(Error::PathNotFound, None));
}

#[test]
fn operation_sets() {
    let cw = Op::create().union(Op::write());
    assert!(cw.contains(Op::create()));
    assert!(cw.contains(cw));
    assert!(!cw.contains(Op::create().union(Op::remove())));
    assert!(cw.intersects(Op::write().union(Op::remove())));
    assert!(!cw.intersects(Op::rename()));
    assert_eq!(cw.without(Op::create()), Op::write());
    assert_eq!(cw.without(Op::chmod()), cw);
    assert!(Op::empty().is_empty());
    assert!(!Op::rescan().is_empty());
    assert!(cw.contains(Op::empty()));
    assert_eq!(Op::of(fsdebounce::Dominant::Chmod), Op::chmod());
}
