use fsdebounce::Debounce;
use fsdebounce::Dominant;
use fsdebounce::Event;
use fsdebounce::Op;

fn p(s: &str) -> String {
    s.to_string()
}

/// Delivers one raw event; the probes answer `false` unless a test says otherwise.
fn feed(d: &mut Debounce, path: &str, op: Op, cookie: Option<u32>, now: u64) -> Vec<Event> {
    assert!(d.can_ingest(now));
    d.event(p(path), op, cookie, false, false, now)
}

#[test]
fn simple_write() {
    let mut d = Debounce::new(100);
    assert_eq!(feed(&mut d, "/a", Op::write(), None, 0), vec![Event::NoticeWrite(p("/a"))]);
    assert_eq!(feed(&mut d, "/a", Op::write(), None, 5), vec![]);
    assert_eq!(d.next_deadline(), Some(100));
    assert_eq!(d.fire(104), vec![]);
    assert_eq!(d.next_deadline(), Some(105));
    assert_eq!(d.fire(105), vec![Event::Write(p("/a"))]);
    assert_eq!(d.pending(), 0);
    assert_eq!(d.next_deadline(), None);
}

#[test]
fn create_remove_collapse() {
    let mut d = Debounce::new(100);
    assert_eq!(feed(&mut d, "/a", Op::create(), None, 0), vec![]);
    assert_eq!(d.pending(), 1);
    assert_eq!(feed(&mut d, "/a", Op::remove(), None, 10), vec![]);
    assert_eq!(d.pending(), 0);
    assert_eq!(d.fire(1000), vec![]);
    assert_eq!(d.next_deadline(), None);
}

#[test]
fn create_write_coalesce() {
    let mut d = Debounce::new(100);
    assert_eq!(feed(&mut d, "/a", Op::create(), None, 0), vec![]);
    assert_eq!(feed(&mut d, "/a", Op::write(), None, 20), vec![]);
    assert_eq!(feed(&mut d, "/a", Op::chmod(), None, 40), vec![]);
    assert_eq!(d.dominant(&p("/a")), Some(Dominant::Create));
    assert_eq!(d.fire(139), vec![]);
    assert_eq!(d.fire(140), vec![Event::Create(p("/a"))]);
}

#[test]
fn rename_pair() {
    let mut d = Debounce::new(100);
    assert_eq!(feed(&mut d, "/a", Op::rename(), Some(7), 0), vec![Event::NoticeRemove(p("/a"))]);
    assert_eq!(d.rename_source(), Some(p("/a")));
    assert_eq!(feed(&mut d, "/b", Op::rename(), Some(7), 5), vec![]);
    assert_eq!(d.rename_source(), None);
    assert_eq!(d.dominant(&p("/a")), None);
    assert_eq!(d.dominant(&p("/b")), Some(Dominant::Rename));
    assert_eq!(d.rename_from(&p("/b")), Some(p("/a")));
    assert_eq!(d.fire(104), vec![]);
    assert_eq!(d.fire(105), vec![Event::Rename(p("/a"), p("/b"))]);
}

#[test]
fn partial_rename_source_vanished() {
    let mut d = Debounce::new(100);
    assert_eq!(feed(&mut d, "/a", Op::write(), None, 0), vec![Event::NoticeWrite(p("/a"))]);
    // The first half of a rename on a written file: the write stays queued.
    assert_eq!(feed(&mut d, "/a", Op::rename(), Some(3), 10), vec![Event::NoticeRemove(p("/a"))]);
    assert_eq!(d.dominant(&p("/a")), Some(Dominant::Write));
    // Another path breaks the pair. `/a` is gone, so its write becomes a
    // removal, which is announced.
    assert!(d.can_ingest(20));
    assert_eq!(
        d.event(p("/c"), Op::create(), None, false, false, 20),
        vec![Event::NoticeRemove(p("/a"))]
    );
    assert_eq!(d.dominant(&p("/a")), Some(Dominant::Remove));
    assert_eq!(d.rename_source(), None);
    assert_eq!(d.fire(119), vec![]);
    assert_eq!(d.fire(120), vec![Event::Remove(p("/a")), Event::Create(p("/c"))]);
}

#[test]
fn chained_rename() {
    let mut d = Debounce::new(100);
    assert_eq!(feed(&mut d, "/a", Op::rename(), Some(1), 0), vec![Event::NoticeRemove(p("/a"))]);
    assert_eq!(feed(&mut d, "/b", Op::rename(), Some(1), 5), vec![]);
    // `/b` is queued as a rename already, which implies the notice.
    assert_eq!(feed(&mut d, "/b", Op::rename(), Some(2), 10), vec![]);
    assert_eq!(feed(&mut d, "/d", Op::rename(), Some(2), 15), vec![]);
    assert_eq!(d.pending(), 1);
    assert_eq!(d.fire(114), vec![]);
    assert_eq!(d.fire(115), vec![Event::Rename(p("/a"), p("/d"))]);
}
