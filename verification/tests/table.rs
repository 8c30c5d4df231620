use fsdebounce::debounce::remove_repeated_events;
use fsdebounce::Debounce;
use fsdebounce::Dominant;
use fsdebounce::Event;
use fsdebounce::Op;

fn p(s: &str) -> String {
    s.to_string()
}

fn feed(d: &mut Debounce, path: &str, op: Op, now: u64) -> Vec<Event> {
    assert!(d.can_ingest(now));
    d.event(p(path), op, None, false, false, now)
}

/// A debouncer with `dominant` queued for `/a`, reached by raw events.
fn queued(dominant: Option<Dominant>) -> Debounce {
    let mut d = Debounce::new(100);
    match dominant {
        None => {}
        Some(Dominant::Create) => {
            feed(&mut d, "/a", Op::create(), 0);
        }
        Some(Dominant::Write) => {
            feed(&mut d, "/a", Op::write(), 0);
        }
        Some(Dominant::Chmod) => {
            feed(&mut d, "/a", Op::chmod(), 0);
        }
        Some(Dominant::Remove) => {
            feed(&mut d, "/a", Op::remove(), 0);
        }
        Some(Dominant::Rename) => {
            // The second half of a rename from `/z` leaves a rename queued
            // for `/a`, and no rename awaited.
            assert!(d.can_ingest(0));
            d.event(p("/z"), Op::rename(), Some(9), false, false, 0);
            d.event(p("/a"), Op::rename(), Some(9), false, false, 0);
        }
    }
    assert_eq!(d.dominant(&p("/a")), dominant);
    assert_eq!(d.rename_source(), None);
    d
}

const ALL: [Option<Dominant>; 6] = [
    None,
    Some(Dominant::Create),
    Some(Dominant::Write),
    Some(Dominant::Chmod),
    Some(Dominant::Rename),
    Some(Dominant::Remove),
];

#[test]
fn create_row() {
    for before in ALL {
        let mut d = queued(before);
        let out = feed(&mut d, "/a", Op::create(), 10);
        assert_eq!(out, vec![]);
        let after = match before {
            None => Some(Dominant::Create),
            Some(Dominant::Remove) => Some(Dominant::Write),
            other => other,
        };
        assert_eq!(d.dominant(&p("/a")), after);
    }
}

#[test]
fn write_row() {
    for before in ALL {
        let mut d = queued(before);
        let out = feed(&mut d, "/a", Op::write(), 10);
        let (after, notice) = match before {
            None | Some(Dominant::Chmod) | Some(Dominant::Rename) => (Some(Dominant::Write), true),
            other => (other, false),
        };
        assert_eq!(d.dominant(&p("/a")), after);
        if notice {
            assert_eq!(out, vec![Event::NoticeWrite(p("/a"))]);
        } else {
            assert_eq!(out, vec![]);
        }
    }
}

#[test]
fn chmod_row() {
    for before in ALL {
        let mut d = queued(before);
        let out = feed(&mut d, "/a", Op::chmod(), 10);
        assert_eq!(out, vec![]);
        let after = match before {
            None | Some(Dominant::Rename) => Some(Dominant::Chmod),
            other => other,
        };
        assert_eq!(d.dominant(&p("/a")), after);
    }
}

#[test]
fn rename_row() {
    for before in ALL {
        let mut d = queued(before);
        let out = feed(&mut d, "/a", Op::rename(), 10);
        let (after, notice) = match before {
            None => (Some(Dominant::Rename), true),
            Some(Dominant::Write) => (before, true),
            Some(Dominant::Chmod) => (before, true),
            other => (other, false),
        };
        assert_eq!(d.dominant(&p("/a")), after);
        if notice {
            assert_eq!(out, vec![Event::NoticeRemove(p("/a"))]);
        } else {
            assert_eq!(out, vec![]);
        }
        // A queued removal cannot be renamed: no rename is awaited then.
        if before == Some(Dominant::Remove) {
            assert_eq!(d.rename_source(), None);
        } else {
            assert_eq!(d.rename_source(), Some(p("/a")));
        }
    }
}

#[test]
fn remove_row() {
    for before in ALL {
        let mut d = queued(before);
        let out = feed(&mut d, "/a", Op::remove(), 10);
        let (after, notice) = match before {
            Some(Dominant::Create) => (None, false),
            None | Some(Dominant::Write) | Some(Dominant::Chmod) => (Some(Dominant::Remove), true),
            _ => (Some(Dominant::Remove), false),
        };
        assert_eq!(d.dominant(&p("/a")), after);
        if notice {
            assert_eq!(out, vec![Event::NoticeRemove(p("/a"))]);
        } else {
            assert_eq!(out, vec![]);
        }
    }
}

#[test]
fn impossible_cells_rearm_nothing() {
    // A write on a queued removal is skipped: the removal fires when it was due.
    let mut d = queued(Some(Dominant::Remove));
    assert_eq!(feed(&mut d, "/a", Op::write(), 50), vec![]);
    assert_eq!(d.next_deadline(), Some(100));
    assert_eq!(d.fire(100), vec![Event::Remove(p("/a"))]);
}

#[test]
fn kept_cells_rearm() {
    let mut d = queued(Some(Dominant::Create));
    assert_eq!(feed(&mut d, "/a", Op::chmod(), 50), vec![]);
    // The old firing stays queued, cancelled; the new one is due at 150.
    assert_eq!(d.fire(149), vec![]);
    assert_eq!(d.fire(150), vec![Event::Create(p("/a"))]);
}

#[test]
fn operations_are_handled_in_order() {
    // Write, then removal: both notices, and a removal is queued.
    let mut d = Debounce::new(100);
    let out = feed(&mut d, "/a", Op::write().union(Op::remove()), 0);
    assert_eq!(out, vec![Event::NoticeWrite(p("/a")), Event::NoticeRemove(p("/a"))]);
    assert_eq!(d.dominant(&p("/a")), Some(Dominant::Remove));
    // Creation, then write and change of attributes: the creation stays.
    let mut d = Debounce::new(100);
    let all = Op::create().union(Op::write()).union(Op::chmod());
    assert_eq!(feed(&mut d, "/a", all, 0), vec![]);
    assert_eq!(d.dominant(&p("/a")), Some(Dominant::Create));
}

#[test]
fn rescan_is_emitted_first_and_not_queued() {
    let mut d = Debounce::new(100);
    let out = feed(&mut d, "/a", Op::rescan().union(Op::write()), 0);
    assert_eq!(out, vec![Event::Rescan, Event::NoticeWrite(p("/a"))]);
    let out = feed(&mut d, "/b", Op::rescan(), 1);
    assert_eq!(out, vec![Event::Rescan]);
    assert_eq!(d.dominant(&p("/b")), None);
    assert_eq!(d.pending(), 1);
}

#[test]
fn creation_and_removal_together_ask_the_probe() {
    let both = Op::create().union(Op::remove());
    let mut d = Debounce::new(100);
    assert!(d.can_ingest(0));
    assert_eq!(d.event(p("/a"), both, None, false, true, 0), vec![]);
    assert_eq!(d.dominant(&p("/a")), Some(Dominant::Create));
    let mut d = Debounce::new(100);
    assert_eq!(d.event(p("/a"), both, None, false, false, 0), vec![Event::NoticeRemove(p("/a"))]);
    assert_eq!(d.dominant(&p("/a")), Some(Dominant::Remove));
}

#[test]
fn redundancy_filter() {
    let all = Op::create().union(Op::write()).union(Op::chmod()).union(Op::rename()).union(Op::remove());
    assert_eq!(remove_repeated_events(all, &None), all);
    for prev in [Dominant::Create, Dominant::Write, Dominant::Chmod] {
        assert_eq!(remove_repeated_events(all, &Some(prev)), all.without(Op::create()));
    }
    assert_eq!(remove_repeated_events(all, &Some(Dominant::Remove)), all.without(Op::remove()));
    // A queued rename clears the creation, and the rename where more is left.
    assert_eq!(
        remove_repeated_events(all, &Some(Dominant::Rename)),
        Op::write().union(Op::chmod()).union(Op::remove())
    );
    assert_eq!(remove_repeated_events(Op::rename(), &Some(Dominant::Rename)), Op::rename());
    assert_eq!(
        remove_repeated_events(Op::rename().union(Op::create()), &Some(Dominant::Rename)),
        Op::rename()
    );
    assert_eq!(
        remove_repeated_events(Op::rename().union(Op::rescan()), &Some(Dominant::Rename)),
        Op::rescan()
    );
}

#[test]
fn same_event_twice_is_filtered() {
    for op in [Op::create(), Op::write(), Op::chmod(), Op::remove(), Op::write().union(Op::remove())] {
        let mut once = Debounce::new(100);
        let first = feed(&mut once, "/a", op, 0);
        let mut twice = Debounce::new(100);
        assert_eq!(feed(&mut twice, "/a", op, 0), first);
        assert_eq!(feed(&mut twice, "/a", op, 1), vec![]);
        assert_eq!(twice.dominant(&p("/a")), once.dominant(&p("/a")));
        assert_eq!(twice.fire(1000), once.fire(1000));
    }
}

#[test]
fn creation_with_removal_twice_is_not_absorbed() {
    let both = Op::create().union(Op::remove());
    let mut d = Debounce::new(100);
    assert_eq!(d.event(p("/a"), both, None, false, true, 0), vec![]);
    assert_eq!(d.event(p("/a"), both, None, false, true, 1), vec![]);
    // The repeat is read as the removal of the file just created.
    assert_eq!(d.dominant(&p("/a")), None);
}

#[test]
fn notices_twice_in_one_event() {
    // A rename and a removal of a written file are both announced.
    let mut d = queued(Some(Dominant::Write));
    let out = feed(&mut d, "/a", Op::rename().union(Op::remove()), 10);
    assert_eq!(out, vec![Event::NoticeRemove(p("/a")), Event::NoticeRemove(p("/a"))]);
    assert_eq!(d.dominant(&p("/a")), Some(Dominant::Remove));
}
