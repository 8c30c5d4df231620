//! The coalescer: raw events in, notices and coalesced events out.

use vstd::prelude::*;
use crate::buffer::OperationsBuffer;
use crate::buffer::Pending;
use crate::buffer::clone_opt_path;
use crate::buffer::clone_path;
use crate::event::Event;
use crate::event::EventView;
use crate::event::emission;
use crate::event::events_view;
use crate::event::opt_path_view;
use crate::model::Outcome;
use crate::model::State;
use crate::model::can_ingest;
use crate::model::can_schedule;
use crate::model::check_partial;
use crate::model::discard;
use crate::model::dominant_of;
use crate::model::effective_op;
use crate::model::fire;
use crate::model::fire_head;
use crate::model::ignore;
use crate::model::ingest;
use crate::model::initial;
use crate::model::links_wf;
use crate::model::on_chmod;
use crate::model::on_create;
use crate::model::on_remove;
use crate::model::on_rename;
use crate::model::on_rename_source;
use crate::model::on_rename_target;
use crate::model::on_write;
use crate::model::put;
use crate::model::rearm;
use crate::model::remove_repeated;
use crate::model::retag;
use crate::model::schedule;
use crate::model::state_wf;
use crate::model::timers_per_event;
use crate::op::Dominant;
use crate::op::Op;
use crate::laws::Delivery;
use crate::laws::law_rescan_is_emitted;
use crate::preserve::lemma_discard;
use crate::preserve::lemma_fire;
use crate::preserve::lemma_fire_head;
use crate::preserve::lemma_ingest;
use crate::preserve::lemma_put;
use crate::timer::WatchTimer;

verus! {

/// A state and the events emitted so far, as one value.
pub open spec fn outcome(s: State, out: Seq<Event>) -> Outcome {
    Outcome { state: s, out: events_view(out) }
}

/// Appends one event to the emitted ones.
pub fn emit_event(out: &mut Vec<Event>, e: Event)
    ensures
        events_view(final(out)@) == events_view(old(out)@).push(e@),
{
    out.push(e);
    assert(events_view(out@) =~= events_view(old(out)@).push(e@));
}

/// Clears from `op` what the queued operation `prev_op` makes redundant.
pub fn remove_repeated_events(op: Op, prev_op: &Option<Dominant>) -> (r: Op)
    ensures
        r == remove_repeated(op, *prev_op),
{
    let mut op = op;
    if let Some(prev) = *prev_op {
        match prev {
            Dominant::Remove => {
                op.remove = false;
            },
            Dominant::Rename => {
                op.create = false;
                if op.write || op.chmod || op.remove || op.rescan {
                    op.rename = false;
                }
            },
            _ => {
                op.create = false;
            },
        }
    }
    op
}

/// Rearms a timer: the firing in `timer_id`, if there is one, is cancelled,
/// and a fresh one for `path` takes its place.
pub fn restart_timer(timer_id: &mut Option<u64>, path: String, timer: &mut WatchTimer, now: u64)
    requires
        can_schedule(old(timer)@, now as nat),
    ensures
        *final(timer_id) matches Some(id) && id == old(timer)@.next_id,
        final(timer)@ == schedule(
            match *old(timer_id) {
                Some(id) => ignore(old(timer)@, id as nat),
                None => old(timer)@,
            },
            path@,
            now as nat,
        ),
        final(timer)@.next_id == old(timer)@.next_id + 1,
        final(timer)@.delay == old(timer)@.delay,
        old(timer).wf() ==> final(timer).wf(),
{
    if let Some(id) = *timer_id {
        timer.ignore(id);
    }
    *timer_id = Some(timer.schedule(path, now));
}

/// The debouncer: the buffer of pending operations, the rename that is
/// awaited, and the timer.
pub struct Debounce {
    buffer: OperationsBuffer,
    rename_path: Option<String>,
    rename_cookie: Option<u32>,
    timer: WatchTimer,
}

impl View for Debounce {
    type V = State;

    closed spec fn view(&self) -> State {
        State {
            buffer: self.buffer@,
            rename_path: opt_path_view(self.rename_path),
            rename_cookie: self.rename_cookie,
            timer: self.timer@,
        }
    }
}

impl Debounce {
    /// The buffer holds each path once.
    pub closed spec fn rep_wf(&self) -> bool {
        self.buffer.wf()
    }

    /// The invariant: see [`state_wf`].
    pub open spec fn wf(&self) -> bool {
        self.rep_wf() && state_wf(self@)
    }

    /// A debouncer that has seen nothing, with the quiet period `delay`, in
    /// milliseconds.
    pub fn new(delay: u64) -> (r: Debounce)
        requires
            delay > 0,
        ensures
            r.wf(),
            r@ == initial(delay as nat),
    {
        Debounce {
            buffer: OperationsBuffer::new(),
            rename_path: None,
            rename_cookie: None,
            timer: WatchTimer::new(delay),
        }
    }

    /// There is room for the timers of one more raw event at time `now`.
    pub fn can_ingest(&self, now: u64) -> (r: bool)
        ensures
            r == can_ingest(self@, now as nat),
    {
        self.timer.next_id() <= u64::MAX - 6 && now <= u64::MAX - self.timer.delay()
    }

    /// The source of the rename whose second half is awaited.
    pub fn rename_source(&self) -> (r: Option<String>)
        ensures
            opt_path_view(r) == self@.rename_path,
    {
        clone_opt_path(&self.rename_path)
    }

    /// The cookie of the rename whose second half is awaited. It is
    /// forgotten when the second half comes.
    pub fn rename_cookie(&self) -> (r: Option<u32>)
        ensures
            r == self@.rename_cookie,
    {
        self.rename_cookie
    }

    /// The operation queued for `path`, if any.
    pub fn dominant(&self, path: &String) -> (r: Option<Dominant>)
        requires
            self.wf(),
        ensures
            r == dominant_of(self@, path@),
    {
        self.peek(path)
    }

    /// The source path remembered in the entry of `path`.
    pub fn rename_from(&self, path: &String) -> (r: Option<String>)
        requires
            self.wf(),
        ensures
            opt_path_view(r) == if self@.buffer.contains_key(path@) {
                self@.buffer[path@].rename_from
            } else {
                None
            },
    {
        match self.buffer.get(path) {
            Some(e) => clone_opt_path(&e.rename_from),
            None => None,
        }
    }

    /// The number of paths with a queued operation.
    pub fn pending(&self) -> (r: usize)
        requires
            self.wf(),
        ensures
            self@.buffer.dom().finite(),
            r == self@.buffer.dom().len(),
    {
        self.buffer.len()
    }

    /// The deadline of the next firing, if one is queued.
    pub fn next_deadline(&self) -> (r: Option<u64>)
        ensures
            match r {
                Some(d) => self@.timer.queue.len() > 0 && d == self@.timer.queue[0].deadline,
                None => self@.timer.queue.len() == 0,
            },
    {
        self.timer.next_deadline()
    }

    fn peek(&self, path: &String) -> (r: Option<Dominant>)
        requires
            self.rep_wf(),
        ensures
            r == dominant_of(self@, path@),
    {
        match self.buffer.get(path) {
            Some(e) => Some(e.dominant),
            None => None,
        }
    }

    fn put(&mut self, path: &String, dominant: Dominant, rename_from: Option<String>, now: u64)
        requires
            old(self).rep_wf(),
            links_wf(old(self)@),
            can_schedule(old(self)@.timer, now as nat),
        ensures
            final(self).rep_wf(),
            links_wf(final(self)@),
            final(self)@ == put(old(self)@, path@, dominant, opt_path_view(rename_from), now as nat),
            final(self)@.timer.next_id == old(self)@.timer.next_id + 1,
            final(self)@.timer.delay == old(self)@.timer.delay,
    {
        proof {
            lemma_put(self@, path@, dominant, opt_path_view(rename_from), now as nat);
        }
        let mut timer_id: Option<u64> = match self.buffer.get(path) {
            Some(e) => Some(e.timer_id),
            None => None,
        };
        restart_timer(&mut timer_id, clone_path(path), &mut self.timer, now);
        if let Some(id) = timer_id {
            self.buffer.insert(clone_path(path), Pending { dominant, rename_from, timer_id: id });
        }
    }

    fn retag(&mut self, path: &String, dominant: Dominant, now: u64)
        requires
            old(self).rep_wf(),
            links_wf(old(self)@),
            can_schedule(old(self)@.timer, now as nat),
            old(self)@.buffer.contains_key(path@),
        ensures
            final(self).rep_wf(),
            links_wf(final(self)@),
            final(self)@ == retag(old(self)@, path@, dominant, now as nat),
            final(self)@.timer.next_id == old(self)@.timer.next_id + 1,
            final(self)@.timer.delay == old(self)@.timer.delay,
    {
        let from = match self.buffer.get(path) {
            Some(e) => clone_opt_path(&e.rename_from),
            None => None,
        };
        self.put(path, dominant, from, now);
    }

    fn rearm(&mut self, path: &String, now: u64)
        requires
            old(self).rep_wf(),
            links_wf(old(self)@),
            can_schedule(old(self)@.timer, now as nat),
            old(self)@.buffer.contains_key(path@),
        ensures
            final(self).rep_wf(),
            links_wf(final(self)@),
            final(self)@ == rearm(old(self)@, path@, now as nat),
            final(self)@.timer.next_id == old(self)@.timer.next_id + 1,
            final(self)@.timer.delay == old(self)@.timer.delay,
    {
        if let Some(dominant) = self.peek(path) {
            self.retag(path, dominant, now);
        }
    }

    fn discard(&mut self, path: &String)
        requires
            old(self).rep_wf(),
            links_wf(old(self)@),
        ensures
            final(self).rep_wf(),
            links_wf(final(self)@),
            state_wf(old(self)@) ==> state_wf(final(self)@),
            final(self)@ == discard(old(self)@, path@),
            final(self)@.timer.next_id == old(self)@.timer.next_id,
            final(self)@.timer.delay == old(self)@.timer.delay,
    {
        proof {
            lemma_discard(self@, path@);
            if !self@.buffer.contains_key(path@) {
                assert(self@.buffer.remove(path@) =~= self@.buffer);
            }
        }
        if let Some(e) = self.buffer.remove(path) {
            self.timer.ignore(e.timer_id);
            let awaited = match &self.rename_path {
                Some(p) => *p == *path,
                None => false,
            };
            if awaited {
                self.rename_path = None;
            }
        }
    }

    fn handle_create(&mut self, path: &String, now: u64, out: &mut Vec<Event>)
        requires
            old(self).wf(),
            can_schedule(old(self)@.timer, now as nat),
        ensures
            final(self).wf(),
            outcome(final(self)@, final(out)@) == on_create(
                outcome(old(self)@, old(out)@),
                path@,
                now as nat,
            ),
            final(self)@.timer.next_id <= old(self)@.timer.next_id + 1,
            final(self)@.timer.delay == old(self)@.timer.delay,
    {
        proof {
            reveal(on_create);
        }
        match self.peek(path) {
            None => self.put(path, Dominant::Create, None, now),
            Some(Dominant::Remove) => self.retag(path, Dominant::Write, now),
            Some(_) => {},
        }
    }

    fn handle_write(&mut self, path: &String, now: u64, out: &mut Vec<Event>)
        requires
            old(self).wf(),
            can_schedule(old(self)@.timer, now as nat),
        ensures
            final(self).wf(),
            outcome(final(self)@, final(out)@) == on_write(
                outcome(old(self)@, old(out)@),
                path@,
                now as nat,
            ),
            final(self)@.timer.next_id <= old(self)@.timer.next_id + 1,
            final(self)@.timer.delay == old(self)@.timer.delay,
    {
        proof {
            reveal(on_write);
        }
        match self.peek(path) {
            None => {
                self.put(path, Dominant::Write, None, now);
                emit_event(out, Event::NoticeWrite(clone_path(path)));
            },
            Some(Dominant::Create) | Some(Dominant::Write) => self.rearm(path, now),
            Some(Dominant::Chmod) | Some(Dominant::Rename) => {
                self.retag(path, Dominant::Write, now);
                emit_event(out, Event::NoticeWrite(clone_path(path)));
            },
            Some(Dominant::Remove) => {},
        }
    }

    fn handle_chmod(&mut self, path: &String, now: u64, out: &mut Vec<Event>)
        requires
            old(self).wf(),
            can_schedule(old(self)@.timer, now as nat),
        ensures
            final(self).wf(),
            outcome(final(self)@, final(out)@) == on_chmod(
                outcome(old(self)@, old(out)@),
                path@,
                now as nat,
            ),
            final(self)@.timer.next_id <= old(self)@.timer.next_id + 1,
            final(self)@.timer.delay == old(self)@.timer.delay,
    {
        proof {
            reveal(on_chmod);
        }
        match self.peek(path) {
            None => self.put(path, Dominant::Chmod, None, now),
            Some(Dominant::Create) | Some(Dominant::Write) | Some(Dominant::Chmod) => self.rearm(
                path,
                now,
            ),
            Some(Dominant::Rename) => self.retag(path, Dominant::Chmod, now),
            Some(Dominant::Remove) => {},
        }
    }

    fn handle_rename_source(
        &mut self,
        path: &String,
        cookie: Option<u32>,
        now: u64,
        out: &mut Vec<Event>,
    )
        requires
            old(self).wf(),
            can_schedule(old(self)@.timer, now as nat),
        ensures
            final(self).wf(),
            outcome(final(self)@, final(out)@) == on_rename_source(
                outcome(old(self)@, old(out)@),
                path@,
                cookie,
                now as nat,
            ),
            final(self)@.timer.next_id <= old(self)@.timer.next_id + 1,
            final(self)@.timer.delay == old(self)@.timer.delay,
    {
        let seen = self.peek(path);
        match seen {
            Some(Dominant::Remove) => {
                return ;
            },
            _ => {},
        }
        self.rename_path = Some(clone_path(path));
        self.rename_cookie = cookie;
        match seen {
            None => {
                self.put(path, Dominant::Rename, None, now);
                emit_event(out, Event::NoticeRemove(clone_path(path)));
            },
            Some(Dominant::Create) | Some(Dominant::Rename) => self.rearm(path, now),
            Some(Dominant::Write) | Some(Dominant::Chmod) => {
                self.rearm(path, now);
                emit_event(out, Event::NoticeRemove(clone_path(path)));
            },
            Some(Dominant::Remove) => {},
        }
    }

    fn handle_rename_target(&mut self, path: &String, now: u64, out: &mut Vec<Event>)
        requires
            old(self).wf(),
            can_schedule(old(self)@.timer, now as nat),
            old(self)@.rename_path is Some,
        ensures
            final(self).wf(),
            outcome(final(self)@, final(out)@) == on_rename_target(
                outcome(old(self)@, old(out)@),
                path@,
                now as nat,
            ),
            final(self)@.timer.next_id <= old(self)@.timer.next_id + 1,
            final(self)@.timer.delay == old(self)@.timer.delay,
    {
        let awaited = clone_opt_path(&self.rename_path);
        if let Some(source) = awaited {
            let (dominant, first) = match self.buffer.get(&source) {
                Some(e) => (e.dominant, clone_opt_path(&e.rename_from)),
                None => (Dominant::Remove, None),
            };
            match dominant {
                Dominant::Remove => {
                    self.rename_path = None;
                    self.rename_cookie = None;
                },
                Dominant::Create => {
                    self.discard(&source);
                    self.rename_path = None;
                    self.rename_cookie = None;
                    self.put(path, Dominant::Create, None, now);
                },
                _ => {
                    self.discard(&source);
                    self.rename_path = None;
                    self.rename_cookie = None;
                    let origin = match first {
                        Some(p) => Some(p),
                        None => Some(source),
                    };
                    self.put(path, dominant, origin, now);
                },
            }
        }
    }

    fn handle_rename(&mut self, path: &String, cookie: Option<u32>, now: u64, out: &mut Vec<Event>)
        requires
            old(self).wf(),
            can_schedule(old(self)@.timer, now as nat),
        ensures
            final(self).wf(),
            outcome(final(self)@, final(out)@) == on_rename(
                outcome(old(self)@, old(out)@),
                path@,
                cookie,
                now as nat,
            ),
            final(self)@.timer.next_id <= old(self)@.timer.next_id + 1,
            final(self)@.timer.delay == old(self)@.timer.delay,
    {
        proof {
            reveal(on_rename);
        }
        let same_cookie = match (self.rename_cookie, cookie) {
            (Some(a), Some(b)) => a == b,
            _ => false,
        };
        if self.rename_path.is_some() && same_cookie {
            self.handle_rename_target(path, now, out);
        } else {
            self.handle_rename_source(path, cookie, now, out);
        }
    }

    fn handle_remove(&mut self, path: &String, now: u64, out: &mut Vec<Event>)
        requires
            old(self).wf(),
            can_schedule(old(self)@.timer, now as nat),
        ensures
            final(self).wf(),
            outcome(final(self)@, final(out)@) == on_remove(
                outcome(old(self)@, old(out)@),
                path@,
                now as nat,
            ),
            final(self)@.timer.next_id <= old(self)@.timer.next_id + 1,
            final(self)@.timer.delay == old(self)@.timer.delay,
    {
        proof {
            reveal(on_remove);
        }
        match self.peek(path) {
            None => {
                self.put(path, Dominant::Remove, None, now);
                emit_event(out, Event::NoticeRemove(clone_path(path)));
            },
            Some(Dominant::Create) => self.discard(path),
            Some(Dominant::Write) | Some(Dominant::Chmod) => {
                self.retag(path, Dominant::Remove, now);
                emit_event(out, Event::NoticeRemove(clone_path(path)));
            },
            Some(Dominant::Rename) => self.retag(path, Dominant::Remove, now),
            Some(Dominant::Remove) => {},
        }
    }

    /// Settles a rename whose second half did not come.
    ///
    /// Where a rename is awaited and the event described by `op` and
    /// `cookie` is not its second half, the entry of the source is
    /// reinterpreted: `source_exists` says whether the source path exists
    /// now. An entry that stays has its timer rearmed, and the rename is no
    /// longer awaited. Otherwise nothing changes.
    pub fn check_partial_rename(
        &mut self,
        op: Op,
        cookie: Option<u32>,
        source_exists: bool,
        now: u64,
        out: &mut Vec<Event>,
    )
        requires
            old(self).wf(),
            can_schedule(old(self)@.timer, now as nat),
        ensures
            final(self).wf(),
            outcome(final(self)@, final(out)@) == check_partial(
                outcome(old(self)@, old(out)@),
                op,
                cookie,
                source_exists,
                now as nat,
            ),
            final(self)@.timer.next_id <= old(self)@.timer.next_id + 1,
            final(self)@.timer.delay == old(self)@.timer.delay,
    {
        proof {
            reveal(check_partial);
        }
        let same_cookie = match (self.rename_cookie, cookie) {
            (Some(a), Some(b)) => a == b,
            _ => false,
        };
        let only_rename = op.rename && !op.create && !op.write && !op.chmod && !op.remove
            && !op.rescan;
        if only_rename && same_cookie {
            return ;
        }
        let awaited = clone_opt_path(&self.rename_path);
        if let Some(source) = awaited {
            let (dominant, moved_before) = match self.buffer.get(&source) {
                Some(e) => (e.dominant, e.rename_from.is_some()),
                None => (Dominant::Remove, false),
            };
            if source_exists {
                match dominant {
                    Dominant::Rename => {
                        if moved_before {
                            self.retag(&source, Dominant::Write, now);
                        } else {
                            self.retag(&source, Dominant::Create, now);
                        }
                    },
                    Dominant::Remove => self.retag(&source, Dominant::Write, now),
                    _ => self.rearm(&source, now),
                }
            } else {
                match dominant {
                    Dominant::Create => self.discard(&source),
                    Dominant::Write | Dominant::Chmod => {
                        self.retag(&source, Dominant::Remove, now);
                        emit_event(out, Event::NoticeRemove(clone_path(&source)));
                    },
                    Dominant::Rename => self.retag(&source, Dominant::Remove, now),
                    Dominant::Remove => self.rearm(&source, now),
                }
            }
            self.rename_path = None;
        }
    }

    fn effective(&self, path: &String, op: Op, path_exists: bool) -> (r: Op)
        requires
            self.wf(),
        ensures
            r == effective_op(self@, path@, op, path_exists),
    {
        let prev = self.peek(path);
        if prev.is_some() {
            remove_repeated_events(op, &prev)
        } else if op.create && op.remove {
            let mut op = op;
            if path_exists {
                op.remove = false;
            } else {
                op.create = false;
            }
            op
        } else {
            op
        }
    }

    /// Takes in one raw event: the operations `op` seen on `path`, with
    /// the rename cookie, at time `now`.
    ///
    /// `source_exists` says whether the awaited rename source exists, and
    /// is read only where a rename is awaited; `path_exists` says whether
    /// `path` exists, and is read only where nothing is queued for `path`
    /// and `op` reports both a creation and a removal. The events returned
    /// are those to emit at once.
    pub fn event(
        &mut self,
        path: String,
        op: Op,
        cookie: Option<u32>,
        source_exists: bool,
        path_exists: bool,
        now: u64,
    ) -> (out: Vec<Event>)
        requires
            old(self).wf(),
            can_ingest(old(self)@, now as nat),
        ensures
            final(self).wf(),
            outcome(final(self)@, out@) == ingest(
                old(self)@,
                path@,
                op,
                cookie,
                source_exists,
                path_exists,
                now as nat,
            ),
            op.rescan ==> out@.len() > 0 && out@[0]@ == EventView::Rescan,
            final(self)@.timer.delay == old(self)@.timer.delay,
            old(self)@.timer.next_id <= final(self)@.timer.next_id <= old(self)@.timer.next_id
                + timers_per_event(),
    {
        proof {
            law_rescan_is_emitted(
                self@,
                Delivery { path: path@, op, cookie, source_exists, path_exists, now: now as nat },
            );
            lemma_ingest(self@, path@, op, cookie, source_exists, path_exists, now as nat);
        }
        let mut out: Vec<Event> = Vec::new();
        assert(events_view(out@) =~= Seq::empty());
        if op.rescan {
            emit_event(&mut out, Event::Rescan);
            assert(events_view(out@) =~= seq![EventView::Rescan]);
        }
        self.check_partial_rename(op, cookie, source_exists, now, &mut out);
        let effective = self.effective(&path, op, path_exists);
        if effective.create {
            self.handle_create(&path, now, &mut out);
        }
        if effective.write {
            self.handle_write(&path, now, &mut out);
        }
        if effective.chmod {
            self.handle_chmod(&path, now, &mut out);
        }
        if effective.rename {
            self.handle_rename(&path, cookie, now, &mut out);
        }
        if effective.remove {
            self.handle_remove(&path, now, &mut out);
        }
        out
    }

    /// Releases what is due at time `now`: every firing whose deadline is
    /// at most `now` leaves the queue, in firing order, and each one that
    /// was not cancelled drains the entry of its path into an event.
    pub fn fire(&mut self, now: u64) -> (out: Vec<Event>)
        requires
            old(self).wf(),
        ensures
            final(self).wf(),
            outcome(final(self)@, out@) == fire(old(self)@, now as nat),
            final(self)@.timer.delay == old(self)@.timer.delay,
            final(self)@.timer.next_id == old(self)@.timer.next_id,
    {
        let mut out: Vec<Event> = Vec::new();
        assert(events_view(out@) =~= Seq::empty());
        loop
            invariant
                self.wf(),
                old(self).wf(),
                fire(old(self)@, now as nat).state == fire(self@, now as nat).state,
                fire(old(self)@, now as nat).out == events_view(out@) + fire(self@, now as nat).out,
            decreases self@.timer.queue.len(),
        {
            let ghost before = self@;
            let ghost emitted = events_view(out@);
            match self.timer.pop_due(now) {
                None => {
                    proof {
                        lemma_fire(old(self)@, now as nat);
                    }
                    assert(events_view(out@) + Seq::empty() =~= events_view(out@));
                    return out;
                },
                Some(f) => {
                    proof {
                        lemma_fire_head(before);
                    }
                    if !f.cancelled {
                        if let Some(e) = self.buffer.remove(&f.path) {
                            let awaited = match &self.rename_path {
                                Some(p) => *p == f.path,
                                None => false,
                            };
                            if awaited {
                                self.rename_path = None;
                            }
                            emit_event(&mut out, release(f.path, e));
                        }
                    }
                    proof {
                        assert(self@ == fire_head(before).state);
                        assert(events_view(out@) == emitted + fire_head(before).out);
                        assert(emitted + (fire_head(before).out + fire(self@, now as nat).out) =~= (emitted
                            + fire_head(before).out) + fire(self@, now as nat).out);
                    }
                },
            }
        }
    }
}

/// The event that the drained entry `e` of `path` is released as.
pub fn release(path: String, e: Pending) -> (r: Event)
    ensures
        r@ == emission(path@, e@.dominant, e@.rename_from),
{
    match e.dominant {
        Dominant::Create => Event::Create(path),
        Dominant::Write => Event::Write(path),
        Dominant::Chmod => Event::Chmod(path),
        Dominant::Remove => Event::Remove(path),
        Dominant::Rename => match e.rename_from {
            Some(source) => Event::Rename(source, path),
            None => Event::Create(path),
        },
    }
}

} // verus!
