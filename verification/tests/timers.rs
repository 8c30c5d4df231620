use fsdebounce::debounce::restart_timer;
use fsdebounce::Debounce;
use fsdebounce::Event;
use fsdebounce::Op;
use fsdebounce::WatchTimer;

fn p(s: &str) -> String {
    s.to_string()
}

#[test]
fn ids_grow_by_one() {
    let mut t = WatchTimer::new(100);
    assert_eq!(t.next_id(), 0);
    assert_eq!(t.schedule(p("/a"), 0), 0);
    assert_eq!(t.schedule(p("/b"), 0), 1);
    assert_eq!(t.schedule(p("/a"), 7), 2);
    assert_eq!(t.next_id(), 3);
    assert_eq!(t.delay(), 100);
}

#[test]
fn firings_leave_in_deadline_order_then_by_id() {
    let mut t = WatchTimer::new(100);
    let late = t.schedule(p("/late"), 50);
    let early = t.schedule(p("/early"), 10);
    let tie = t.schedule(p("/tie"), 10);
    assert_eq!(t.next_deadline(), Some(110));
    assert!(t.pop_due(109).is_none());
    let first = t.pop_due(200).unwrap();
    assert_eq!((first.id, first.deadline, first.path.as_str(), first.cancelled), (early, 110, "/early", false));
    let second = t.pop_due(200).unwrap();
    assert_eq!((second.id, second.deadline), (tie, 110));
    let third = t.pop_due(200).unwrap();
    assert_eq!((third.id, third.deadline), (late, 150));
    assert!(t.pop_due(200).is_none());
    assert_eq!(t.next_deadline(), None);
}

#[test]
fn ignored_firing_stays_queued_and_is_marked() {
    let mut t = WatchTimer::new(10);
    let a = t.schedule(p("/a"), 0);
    let b = t.schedule(p("/b"), 0);
    t.ignore(a);
    t.ignore(99);
    assert_eq!(t.next_deadline(), Some(10));
    let first = t.pop_due(10).unwrap();
    assert_eq!((first.id, first.cancelled), (a, true));
    let second = t.pop_due(10).unwrap();
    assert_eq!((second.id, second.cancelled), (b, false));
}

#[test]
fn restart_cancels_and_arms() {
    let mut t = WatchTimer::new(10);
    let mut id = None;
    restart_timer(&mut id, p("/a"), &mut t, 0);
    assert_eq!(id, Some(0));
    restart_timer(&mut id, p("/a"), &mut t, 5);
    assert_eq!(id, Some(1));
    let first = t.pop_due(100).unwrap();
    assert_eq!((first.id, first.deadline, first.cancelled), (0, 10, true));
    let second = t.pop_due(100).unwrap();
    assert_eq!((second.id, second.deadline, second.cancelled), (1, 15, false));
}

#[test]
fn one_live_timer_per_path() {
    let mut d = Debounce::new(100);
    for now in 0..10 {
        assert!(d.can_ingest(now));
        d.event(p("/a"), Op::write(), None, false, false, now);
    }
    // Ten firings were armed for `/a`; only the last one releases it.
    assert_eq!(d.next_deadline(), Some(100));
    assert_eq!(d.fire(108), vec![]);
    assert_eq!(d.next_deadline(), Some(109));
    assert_eq!(d.fire(109), vec![Event::Write(p("/a"))]);
    assert_eq!(d.next_deadline(), None);
}

#[test]
fn paths_fire_in_the_order_of_their_last_event() {
    let mut d = Debounce::new(100);
    d.event(p("/a"), Op::write(), None, false, false, 0);
    d.event(p("/b"), Op::create(), None, false, false, 1);
    d.event(p("/c"), Op::chmod(), None, false, false, 1);
    d.event(p("/a"), Op::chmod(), None, false, false, 2);
    assert_eq!(d.fire(100), vec![]);
    assert_eq!(d.fire(101), vec![Event::Create(p("/b")), Event::Chmod(p("/c"))]);
    assert_eq!(d.fire(102), vec![Event::Write(p("/a"))]);
}

#[test]
fn no_room_is_reported() {
    let d = Debounce::new(100);
    assert!(d.can_ingest(u64::MAX - 100));
    assert!(!d.can_ingest(u64::MAX - 99));
}
