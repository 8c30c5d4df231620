use fsdebounce::Debounce;
use fsdebounce::Dominant;
use fsdebounce::Event;
use fsdebounce::Op;

fn p(s: &str) -> String {
    s.to_string()
}

/// A debouncer with `op` seen on `/a` and then the first half of a rename of `/a`.
fn awaiting(op: Option<Op>) -> Debounce {
    let mut d = Debounce::new(100);
    assert!(d.can_ingest(0));
    if let Some(op) = op {
        d.event(p("/a"), op, None, false, false, 0);
    }
    d.event(p("/a"), Op::rename(), Some(1), false, false, 0);
    assert_eq!(d.rename_source(), Some(p("/a")));
    d
}

#[test]
fn second_half_moves_what_was_queued() {
    for (op, dominant) in [
        (Some(Op::create()), Dominant::Create),
        (Some(Op::write()), Dominant::Write),
        (Some(Op::chmod()), Dominant::Chmod),
        (None, Dominant::Rename),
    ] {
        let mut d = awaiting(op);
        assert_eq!(d.rename_cookie(), Some(1));
        assert_eq!(d.event(p("/b"), Op::rename(), Some(1), false, false, 5), vec![]);
        assert_eq!(d.rename_source(), None);
        assert_eq!(d.rename_cookie(), None);
        assert_eq!(d.dominant(&p("/a")), None);
        assert_eq!(d.dominant(&p("/b")), Some(dominant));
        let from = if dominant == Dominant::Create { None } else { Some(p("/a")) };
        assert_eq!(d.rename_from(&p("/b")), from);
        assert_eq!(d.pending(), 1);
        let released = match dominant {
            Dominant::Create => Event::Create(p("/b")),
            Dominant::Write => Event::Write(p("/b")),
            Dominant::Chmod => Event::Chmod(p("/b")),
            _ => Event::Rename(p("/a"), p("/b")),
        };
        assert_eq!(d.fire(104), vec![]);
        assert_eq!(d.fire(105), vec![released]);
    }
}

#[test]
fn second_half_replaces_the_entry_of_the_destination() {
    let mut d = Debounce::new(100);
    d.event(p("/b"), Op::remove(), None, false, false, 0);
    d.event(p("/a"), Op::write(), None, false, false, 1);
    d.event(p("/a"), Op::rename(), Some(4), false, false, 2);
    assert_eq!(d.event(p("/b"), Op::rename(), Some(4), false, false, 3), vec![]);
    assert_eq!(d.dominant(&p("/b")), Some(Dominant::Write));
    assert_eq!(d.pending(), 1);
    assert_eq!(d.fire(1000), vec![Event::Write(p("/b"))]);
}

#[test]
fn other_cookie_is_a_new_first_half() {
    let mut d = awaiting(None);
    // `/a` still exists: the rename of `/a` was a move into the watched tree.
    let out = d.event(p("/b"), Op::rename(), Some(2), true, false, 5);
    assert_eq!(out, vec![Event::NoticeRemove(p("/b"))]);
    assert_eq!(d.dominant(&p("/a")), Some(Dominant::Create));
    assert_eq!(d.dominant(&p("/b")), Some(Dominant::Rename));
    assert_eq!(d.rename_source(), Some(p("/b")));
}

#[test]
fn missing_cookie_never_pairs() {
    let mut d = Debounce::new(100);
    d.event(p("/a"), Op::rename(), None, false, false, 0);
    let out = d.event(p("/b"), Op::rename(), None, false, false, 5);
    assert_eq!(out, vec![Event::NoticeRemove(p("/b"))]);
    assert_eq!(d.dominant(&p("/a")), Some(Dominant::Remove));
    assert_eq!(d.rename_source(), Some(p("/b")));
}

#[test]
fn unrelated_event_breaks_the_pair() {
    let mut d = awaiting(None);
    d.event(p("/x"), Op::write(), None, false, false, 2);
    assert_eq!(d.rename_source(), None);
    // The second half now finds nothing to pair with.
    let out = d.event(p("/b"), Op::rename(), Some(1), false, false, 5);
    assert_eq!(out, vec![Event::NoticeRemove(p("/b"))]);
    assert_eq!(d.dominant(&p("/a")), Some(Dominant::Remove));
    assert_eq!(d.dominant(&p("/b")), Some(Dominant::Rename));
}

#[test]
fn partial_rename_when_source_is_there() {
    // Moved in from outside: a creation.
    let mut d = awaiting(None);
    assert_eq!(d.event(p("/x"), Op::chmod(), None, true, false, 10), vec![]);
    assert_eq!(d.dominant(&p("/a")), Some(Dominant::Create));
    assert_eq!(d.fire(109), vec![]);
    assert_eq!(d.fire(110), vec![Event::Create(p("/a")), Event::Chmod(p("/x"))]);

    // The end of a chain that exists again: a write.
    let mut d = Debounce::new(100);
    d.event(p("/a"), Op::rename(), Some(1), false, false, 0);
    d.event(p("/b"), Op::rename(), Some(1), false, false, 1);
    d.event(p("/b"), Op::rename(), Some(2), false, false, 2);
    assert_eq!(d.event(p("/x"), Op::chmod(), None, true, false, 10), vec![]);
    assert_eq!(d.dominant(&p("/b")), Some(Dominant::Write));

    // A written file that is still there keeps its write; its timer is rearmed.
    let mut d = awaiting(Some(Op::write()));
    assert_eq!(d.event(p("/x"), Op::chmod(), None, true, false, 10), vec![]);
    assert_eq!(d.dominant(&p("/a")), Some(Dominant::Write));
    assert_eq!(d.fire(109), vec![]);
    assert_eq!(d.fire(110), vec![Event::Write(p("/a")), Event::Chmod(p("/x"))]);
}

#[test]
fn partial_rename_when_source_is_gone() {
    // Created and moved out: nothing is left.
    let mut d = awaiting(Some(Op::create()));
    assert_eq!(d.event(p("/x"), Op::chmod(), None, false, false, 10), vec![]);
    assert_eq!(d.dominant(&p("/a")), None);
    assert_eq!(d.fire(1000), vec![Event::Chmod(p("/x"))]);

    // Written or changed and moved out: a removal, announced.
    for op in [Op::write(), Op::chmod()] {
        let mut d = awaiting(Some(op));
        let out = d.event(p("/x"), Op::chmod(), None, false, false, 10);
        assert_eq!(out, vec![Event::NoticeRemove(p("/a"))]);
        assert_eq!(d.dominant(&p("/a")), Some(Dominant::Remove));
    }

    // Renamed and moved out: a removal, not announced again. The cookie
    // stays until a second half comes, but nothing is awaited.
    let mut d = awaiting(None);
    assert_eq!(d.event(p("/x"), Op::chmod(), None, false, false, 10), vec![]);
    assert_eq!(d.dominant(&p("/a")), Some(Dominant::Remove));
    assert_eq!(d.rename_source(), None);
    assert_eq!(d.fire(1000), vec![Event::Remove(p("/a")), Event::Chmod(p("/x"))]);
}

#[test]
fn settling_rearms_the_entry_that_stays() {
    // A removal that is queued for a vanished source stays, with a new timer.
    let mut d = Debounce::new(100);
    d.event(p("/a"), Op::rename().union(Op::remove()), Some(1), false, false, 0);
    assert_eq!(d.dominant(&p("/a")), Some(Dominant::Remove));
    assert_eq!(d.event(p("/x"), Op::chmod(), None, false, false, 30), vec![]);
    assert_eq!(d.dominant(&p("/a")), Some(Dominant::Remove));
    assert_eq!(d.fire(129), vec![]);
    assert_eq!(d.fire(130), vec![Event::Remove(p("/a")), Event::Chmod(p("/x"))]);
}

#[test]
fn removed_source_can_be_reopened() {
    // A rename and a removal in one event leave a removal queued and the
    // rename awaited. If the path exists when the pair breaks, it was moved in.
    let mut d = Debounce::new(100);
    let out = d.event(p("/a"), Op::rename().union(Op::remove()), Some(1), false, false, 0);
    assert_eq!(out, vec![Event::NoticeRemove(p("/a"))]);
    assert_eq!(d.dominant(&p("/a")), Some(Dominant::Remove));
    assert_eq!(d.rename_source(), Some(p("/a")));
    assert_eq!(d.event(p("/x"), Op::chmod(), None, true, false, 10), vec![]);
    assert_eq!(d.dominant(&p("/a")), Some(Dominant::Write));
}

#[test]
fn check_partial_rename_alone() {
    let mut d = awaiting(Some(Op::write()));
    let mut out = Vec::new();
    // The second half itself settles nothing.
    d.check_partial_rename(Op::rename(), Some(1), false, 5, &mut out);
    assert_eq!(out, vec![]);
    assert_eq!(d.rename_source(), Some(p("/a")));
    // A rename with more in it is not the second half.
    d.check_partial_rename(Op::rename().union(Op::chmod()), Some(1), false, 5, &mut out);
    assert_eq!(out, vec![Event::NoticeRemove(p("/a"))]);
    assert_eq!(d.rename_source(), None);
    assert_eq!(d.dominant(&p("/a")), Some(Dominant::Remove));
    // Nothing is awaited any more.
    d.check_partial_rename(Op::write(), None, false, 6, &mut out);
    assert_eq!(out.len(), 1);
}

#[test]
fn collapse_of_the_rename_source_ends_the_wait() {
    let mut d = awaiting(Some(Op::create()));
    // The same path, still there: the creation stays; its removal collapses it.
    assert_eq!(d.event(p("/a"), Op::rename(), Some(7), true, false, 1), vec![]);
    assert_eq!(d.rename_source(), Some(p("/a")));
    assert_eq!(d.event(p("/a"), Op::remove(), None, true, false, 2), vec![]);
    assert_eq!(d.dominant(&p("/a")), None);
    assert_eq!(d.rename_source(), None);
    assert_eq!(d.fire(1000), vec![]);
}

#[test]
fn drained_source_is_no_longer_awaited() {
    let mut d = awaiting(None);
    assert_eq!(d.fire(100), vec![Event::Create(p("/a"))]);
    assert_eq!(d.rename_source(), None);
    let out = d.event(p("/b"), Op::rename(), Some(1), false, false, 200);
    assert_eq!(out, vec![Event::NoticeRemove(p("/b"))]);
    assert_eq!(d.dominant(&p("/b")), Some(Dominant::Rename));
}

#[test]
fn same_rename_twice() {
    // With a cookie the repeat pairs with itself.
    let mut d = awaiting(None);
    assert_eq!(d.event(p("/a"), Op::rename(), Some(1), false, false, 5), vec![]);
    assert_eq!(d.fire(1000), vec![Event::Rename(p("/a"), p("/a"))]);
    // Without one, and with the path still there, the repeat changes nothing
    // of what is released.
    let mut d = Debounce::new(100);
    d.event(p("/a"), Op::rename(), None, false, false, 0);
    assert_eq!(d.event(p("/a"), Op::rename(), None, true, true, 5), vec![]);
    assert_eq!(d.fire(1000), vec![Event::Create(p("/a"))]);
}
