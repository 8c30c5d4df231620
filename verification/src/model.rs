//! The debouncer as a mathematical state machine.
//!
//! Everything here is specification: the state as maps and sequences, and
//! each rule as a function from a state to the next state and the events
//! emitted on the way. The executable types refine these functions.

use vstd::prelude::*;
use crate::event::EventView;
use crate::event::PathView;
use crate::event::emission;
use crate::op::Dominant;
use crate::op::Op;

verus! {

/// The coalesced operation queued for one path.
pub struct PendingView {
    /// The operation that is released when the timer fires.
    pub dominant: Dominant,
    /// The path the file had before the renames that led here.
    pub rename_from: Option<PathView>,
    /// The timer armed for this entry.
    pub timer_id: nat,
}

/// One armed firing.
pub struct TimerSlot {
    pub deadline: nat,
    pub id: nat,
    pub path: PathView,
    /// Set when the firing was cancelled; it is then skipped at its deadline.
    pub cancelled: bool,
}

/// The timer: its queue in firing order, the next id, and the quiet period.
pub struct TimerView {
    pub queue: Seq<TimerSlot>,
    pub next_id: nat,
    pub delay: nat,
}

/// The whole state of a debouncer.
pub struct State {
    pub buffer: Map<PathView, PendingView>,
    /// The source of the rename whose second half is awaited.
    pub rename_path: Option<PathView>,
    pub rename_cookie: Option<u32>,
    pub timer: TimerView,
}

/// A state together with the events emitted on the way to it.
pub struct Outcome {
    pub state: State,
    pub out: Seq<EventView>,
}

/// The state of a debouncer that has seen nothing.
pub open spec fn initial(delay: nat) -> State {
    State {
        buffer: Map::empty(),
        rename_path: None,
        rename_cookie: None,
        timer: TimerView { queue: Seq::empty(), next_id: 0, delay },
    }
}

// ---------------------------------------------------------------------------
// The timer
// ---------------------------------------------------------------------------

/// The length of the longest prefix of `queue` whose deadlines are all at
/// most `deadline`.
pub open spec fn due_prefix(queue: Seq<TimerSlot>, deadline: nat) -> nat
    decreases queue.len(),
{
    if queue.len() > 0 && queue[0].deadline <= deadline {
        1 + due_prefix(queue.drop_first(), deadline)
    } else {
        0
    }
}

/// Slot `a` fires before slot `b`: by deadline, then by id.
pub open spec fn fires_before(a: TimerSlot, b: TimerSlot) -> bool {
    a.deadline < b.deadline || (a.deadline == b.deadline && a.id < b.id)
}

/// The queue is in firing order and every id was handed out, once.
pub open spec fn timer_wf(t: TimerView) -> bool {
    &&& t.delay > 0
    &&& forall|i: int, j: int|
        0 <= i < j < t.queue.len() ==> fires_before(#[trigger] t.queue[i], #[trigger] t.queue[j])
    &&& forall|i: int, j: int|
        0 <= i < j < t.queue.len() ==> (#[trigger] t.queue[i]).id != (#[trigger] t.queue[j]).id
    &&& forall|i: int| 0 <= i < t.queue.len() ==> (#[trigger] t.queue[i]).id < t.next_id
}

/// The timer can arm one more firing at time `now`.
pub open spec fn can_schedule(t: TimerView, now: nat) -> bool {
    t.next_id < u64::MAX && now + t.delay <= u64::MAX
}

/// Arms a firing for `path` at `now` plus the delay, under the next id.
#[verifier::opaque]
pub open spec fn schedule(t: TimerView, path: PathView, now: nat) -> TimerView {
    let deadline = (now + t.delay) as nat;
    let slot = TimerSlot { deadline, id: t.next_id, path, cancelled: false };
    TimerView {
        queue: t.queue.insert(due_prefix(t.queue, deadline) as int, slot),
        next_id: (t.next_id + 1) as nat,
        delay: t.delay,
    }
}

/// Cancels the firing with the given id, if it is queued.
#[verifier::opaque]
pub open spec fn ignore(t: TimerView, id: nat) -> TimerView {
    TimerView {
        queue: Seq::new(
            t.queue.len(),
            |i: int|
                if t.queue[i].id == id {
                    TimerSlot { cancelled: true, ..t.queue[i] }
                } else {
                    t.queue[i]
                },
        ),
        next_id: t.next_id,
        delay: t.delay,
    }
}

/// The firing with this id for this path is queued and not cancelled.
pub open spec fn live(t: TimerView, id: nat, path: PathView) -> bool {
    exists|k: int|
        0 <= k < t.queue.len() && (#[trigger] t.queue[k]).id == id && t.queue[k].path == path
            && !t.queue[k].cancelled
}

// ---------------------------------------------------------------------------
// The state
// ---------------------------------------------------------------------------

/// The live firings are exactly the timers of the entries.
pub open spec fn links_wf(s: State) -> bool {
    &&& timer_wf(s.timer)
    &&& forall|p: PathView| #[trigger]
        s.buffer.contains_key(p) ==> live(s.timer, s.buffer[p].timer_id, p)
    &&& forall|k: int|
        0 <= k < s.timer.queue.len() && !(#[trigger] s.timer.queue[k]).cancelled ==> {
            &&& s.buffer.contains_key(s.timer.queue[k].path)
            &&& s.buffer[s.timer.queue[k].path].timer_id == s.timer.queue[k].id
        }
}

/// The invariant of a debouncer.
///
/// The timer is well formed; the live firings are exactly the timers of the
/// entries, so that no path ever has two live firings; and the awaited
/// rename source has an entry.
pub open spec fn state_wf(s: State) -> bool {
    &&& links_wf(s)
    &&& s.rename_path matches Some(p) ==> s.buffer.contains_key(p)
}

/// The dominant operation queued for `path`, if any.
pub open spec fn dominant_of(s: State, path: PathView) -> Option<Dominant> {
    if s.buffer.contains_key(path) {
        Some(s.buffer[path].dominant)
    } else {
        None
    }
}

/// Queues `dominant` for `path` and rearms its timer: the timer of an
/// entry that was there is cancelled, and a fresh one is armed.
pub open spec fn put(
    s: State,
    path: PathView,
    dominant: Dominant,
    rename_from: Option<PathView>,
    now: nat,
) -> State {
    let cancelled = if s.buffer.contains_key(path) {
        ignore(s.timer, s.buffer[path].timer_id)
    } else {
        s.timer
    };
    State {
        buffer: s.buffer.insert(
            path,
            PendingView { dominant, rename_from, timer_id: s.timer.next_id },
        ),
        timer: schedule(cancelled, path, now),
        ..s
    }
}

/// Changes the dominant operation of the entry at `path`, keeps its
/// source path, and rearms its timer.
pub open spec fn retag(s: State, path: PathView, dominant: Dominant, now: nat) -> State {
    put(s, path, dominant, s.buffer[path].rename_from, now)
}

/// Rearms the timer of the entry at `path` and changes nothing else of it.
pub open spec fn rearm(s: State, path: PathView, now: nat) -> State {
    retag(s, path, s.buffer[path].dominant, now)
}

/// Drops the entry at `path`, if there is one, and cancels its timer. An
/// awaited rename from that path is no longer awaited.
pub open spec fn discard(s: State, path: PathView) -> State {
    if s.buffer.contains_key(path) {
        State {
            buffer: s.buffer.remove(path),
            timer: ignore(s.timer, s.buffer[path].timer_id),
            rename_path: if s.rename_path == Some(path) {
                None
            } else {
                s.rename_path
            },
            ..s
        }
    } else {
        s
    }
}

/// `o` followed by one more emitted event.
pub open spec fn emit(o: Outcome, e: EventView) -> Outcome {
    Outcome { state: o.state, out: o.out.push(e) }
}

/// `o` with its state replaced.
pub open spec fn with_state(o: Outcome, s: State) -> Outcome {
    Outcome { state: s, out: o.out }
}

// ---------------------------------------------------------------------------
// Redundancy filtering
// ---------------------------------------------------------------------------

/// Clears from `op` what the queued operation `prev` makes redundant.
///
/// A queued operation other than a removal means the file is known to
/// exist, so a creation is cleared. A queued removal clears a removal. A
/// queued rename clears a rename that comes with anything else.
pub open spec fn remove_repeated(op: Op, prev: Option<Dominant>) -> Op {
    match prev {
        None => op,
        Some(Dominant::Remove) => Op { remove: false, ..op },
        Some(Dominant::Rename) => {
            let cleared = Op { create: false, ..op };
            if (Op { rename: false, ..cleared }) != Op::spec_empty() {
                Op { rename: false, ..cleared }
            } else {
                cleared
            }
        },
        Some(_) => Op { create: false, ..op },
    }
}

/// The operations of an event on `path` that are handled, given what is
/// queued for the path. Where nothing is queued and the event reports
/// both a creation and a removal, `path_exists` decides which of the two
/// stays.
pub open spec fn effective_op(s: State, path: PathView, op: Op, path_exists: bool) -> Op {
    if s.buffer.contains_key(path) {
        remove_repeated(op, Some(s.buffer[path].dominant))
    } else if op.create && op.remove {
        if path_exists {
            Op { remove: false, ..op }
        } else {
            Op { create: false, ..op }
        }
    } else {
        op
    }
}

// ---------------------------------------------------------------------------
// The transition table
// ---------------------------------------------------------------------------

/// What is queued for a path after a creation is handled, given what was
/// queued before. A removal followed by a creation is a write.
pub open spec fn create_cell(d: Option<Dominant>) -> Option<Dominant> {
    match d {
        None => Some(Dominant::Create),
        Some(Dominant::Remove) => Some(Dominant::Write),
        _ => d,
    }
}

/// What is queued for a path after a write is handled.
pub open spec fn write_cell(d: Option<Dominant>) -> Option<Dominant> {
    match d {
        None | Some(Dominant::Chmod) | Some(Dominant::Rename) => Some(Dominant::Write),
        _ => d,
    }
}

/// A write on a path with `d` queued is announced: nothing queued so far
/// says that the file is being written or was just created.
pub open spec fn write_notice(d: Option<Dominant>) -> bool {
    d is None || d == Some(Dominant::Chmod) || d == Some(Dominant::Rename)
}

/// What is queued for a path after a change of attributes is handled.
pub open spec fn chmod_cell(d: Option<Dominant>) -> Option<Dominant> {
    match d {
        None | Some(Dominant::Rename) => Some(Dominant::Chmod),
        _ => d,
    }
}

/// What is queued for a path after the first half of a rename is handled.
pub open spec fn rename_cell(d: Option<Dominant>) -> Option<Dominant> {
    match d {
        None => Some(Dominant::Rename),
        _ => d,
    }
}

/// What is queued for a path after a removal is handled. A creation
/// followed by a removal leaves nothing.
pub open spec fn remove_cell(d: Option<Dominant>) -> Option<Dominant> {
    match d {
        Some(Dominant::Create) => None,
        _ => Some(Dominant::Remove),
    }
}

/// A rename or a removal of a path with `d` queued is announced: nothing
/// queued so far says that the file goes away or was just created.
pub open spec fn remove_notice(d: Option<Dominant>) -> bool {
    d is None || d == Some(Dominant::Write) || d == Some(Dominant::Chmod)
}

/// What is queued for the source of a rename that was not completed, given
/// what was queued, whether the entry came from a rename itself, and
/// whether the source exists.
pub open spec fn settle_cell(d: Dominant, renamed_before: bool, source_exists: bool) -> Option<
    Dominant,
> {
    if source_exists {
        match d {
            Dominant::Rename => if renamed_before {
                Some(Dominant::Write)
            } else {
                Some(Dominant::Create)
            },
            Dominant::Remove => Some(Dominant::Write),
            _ => Some(d),
        }
    } else {
        match d {
            Dominant::Create => None,
            _ => Some(Dominant::Remove),
        }
    }
}

/// Settling the source of a rename with `d` queued is announced as a removal.
pub open spec fn settle_notice(d: Dominant, source_exists: bool) -> bool {
    !source_exists && (d == Dominant::Write || d == Dominant::Chmod)
}

// ---------------------------------------------------------------------------
// The transitions, one per primitive operation
// ---------------------------------------------------------------------------

/// A creation is seen on `path`. It queues a creation where nothing is
/// queued, and turns a queued removal into a write. Anything else that is
/// queued says that the file exists: the creation cannot be, and nothing
/// changes.
#[verifier::opaque]
pub open spec fn on_create(o: Outcome, path: PathView, now: nat) -> Outcome {
    match dominant_of(o.state, path) {
        None => with_state(o, put(o.state, path, Dominant::Create, None, now)),
        Some(Dominant::Remove) => with_state(o, retag(o.state, path, Dominant::Write, now)),
        Some(_) => o,
    }
}

/// A write is seen on `path`. It is announced unless a creation or a write
/// is queued already, and the timer of the entry is rearmed. A write to a
/// file whose removal is queued cannot be: nothing changes then.
#[verifier::opaque]
pub open spec fn on_write(o: Outcome, path: PathView, now: nat) -> Outcome {
    match dominant_of(o.state, path) {
        None => emit(
            with_state(o, put(o.state, path, Dominant::Write, None, now)),
            EventView::NoticeWrite(path),
        ),
        Some(Dominant::Create) | Some(Dominant::Write) => with_state(
            o,
            rearm(o.state, path, now),
        ),
        Some(Dominant::Chmod) | Some(Dominant::Rename) => emit(
            with_state(o, retag(o.state, path, Dominant::Write, now)),
            EventView::NoticeWrite(path),
        ),
        Some(Dominant::Remove) => o,
    }
}

/// A change of attributes is seen on `path`. It is queued where nothing
/// or a rename is; a queued creation, write or change stays, with its timer
/// rearmed. On a queued removal it cannot be, and nothing changes.
#[verifier::opaque]
pub open spec fn on_chmod(o: Outcome, path: PathView, now: nat) -> Outcome {
    match dominant_of(o.state, path) {
        None => with_state(o, put(o.state, path, Dominant::Chmod, None, now)),
        Some(Dominant::Create) | Some(Dominant::Write) | Some(Dominant::Chmod) => with_state(
            o,
            rearm(o.state, path, now),
        ),
        Some(Dominant::Rename) => with_state(o, retag(o.state, path, Dominant::Chmod, now)),
        Some(Dominant::Remove) => o,
    }
}

/// A rename on `path` with this cookie is the second half of the awaited
/// rename.
pub open spec fn completes_rename(s: State, cookie: Option<u32>) -> bool {
    s.rename_path is Some && s.rename_cookie is Some && s.rename_cookie == cookie
}

/// The first half of a rename is seen on `path`: the path and the cookie
/// are remembered for the second half, and the removal of the path is
/// announced unless what is queued implies it or is a creation. A queued
/// removal cannot be renamed: nothing changes then, and nothing is awaited.
pub open spec fn on_rename_source(o: Outcome, path: PathView, cookie: Option<u32>, now: nat) -> Outcome {
    let awaiting = State { rename_path: Some(path), rename_cookie: cookie, ..o.state };
    match dominant_of(o.state, path) {
        None => emit(
            with_state(o, put(awaiting, path, Dominant::Rename, None, now)),
            EventView::NoticeRemove(path),
        ),
        Some(Dominant::Create) | Some(Dominant::Rename) => with_state(
            o,
            rearm(awaiting, path, now),
        ),
        Some(Dominant::Write) | Some(Dominant::Chmod) => emit(
            with_state(o, rearm(awaiting, path, now)),
            EventView::NoticeRemove(path),
        ),
        Some(Dominant::Remove) => o,
    }
}

/// The second half of the awaited rename is seen on `path`: what was
/// queued for the source moves to `path`, and the path and the cookie
/// that were remembered are forgotten. A queued removal cannot be renamed:
/// it stays where it is, and the rename is no longer awaited.
pub open spec fn on_rename_target(o: Outcome, path: PathView, now: nat) -> Outcome {
    let source = o.state.rename_path->0;
    let moved = o.state.buffer[source];
    let origin = match moved.rename_from {
        Some(first) => Some(first),
        None => Some(source),
    };
    let without_source = State {
        rename_path: None,
        rename_cookie: None,
        ..discard(o.state, source)
    };
    match moved.dominant {
        Dominant::Create => with_state(o, put(without_source, path, Dominant::Create, None, now)),
        Dominant::Write | Dominant::Chmod | Dominant::Rename => with_state(
            o,
            put(without_source, path, moved.dominant, origin, now),
        ),
        Dominant::Remove => with_state(
            o,
            State { rename_path: None, rename_cookie: None, ..o.state },
        ),
    }
}

/// A rename is seen on `path`.
#[verifier::opaque]
pub open spec fn on_rename(o: Outcome, path: PathView, cookie: Option<u32>, now: nat) -> Outcome {
    if completes_rename(o.state, cookie) {
        on_rename_target(o, path, now)
    } else {
        on_rename_source(o, path, cookie, now)
    }
}

/// A removal is seen on `path`. A queued creation and the removal cancel
/// out: the entry is dropped. Otherwise a removal is queued, and
/// announced unless a rename or a removal was queued already; a second
/// removal changes nothing, not even the timer.
#[verifier::opaque]
pub open spec fn on_remove(o: Outcome, path: PathView, now: nat) -> Outcome {
    match dominant_of(o.state, path) {
        None => emit(
            with_state(o, put(o.state, path, Dominant::Remove, None, now)),
            EventView::NoticeRemove(path),
        ),
        Some(Dominant::Create) => with_state(o, discard(o.state, path)),
        Some(Dominant::Write) | Some(Dominant::Chmod) => emit(
            with_state(o, retag(o.state, path, Dominant::Remove, now)),
            EventView::NoticeRemove(path),
        ),
        Some(Dominant::Rename) => with_state(o, retag(o.state, path, Dominant::Remove, now)),
        Some(Dominant::Remove) => o,
    }
}

// ---------------------------------------------------------------------------
// Partial renames
// ---------------------------------------------------------------------------

/// The event is the second half of the awaited rename: a rename and nothing
/// else, with the cookie that was remembered.
pub open spec fn is_second_half(s: State, op: Op, cookie: Option<u32>) -> bool {
    op == Op::spec_rename() && s.rename_cookie is Some && s.rename_cookie == cookie
}

/// A rename is awaited and the event at hand is not its second half: the
/// entry of the source is reinterpreted by whether the source still exists,
/// as [`settle_cell`] says, and the rename is no longer awaited. Where the
/// source exists, a queued rename becomes a creation, or a write if the file
/// was renamed before, and a queued removal becomes a write. Where it is
/// gone, a queued creation is dropped and anything else becomes a removal,
/// announced if a write or a change of attributes was queued. An entry
/// that stays has its timer rearmed.
pub open spec fn reconcile(o: Outcome, source_exists: bool, now: nat) -> Outcome {
    let source = o.state.rename_path->0;
    let entry = o.state.buffer[source];
    let settled = match settle_cell(entry.dominant, entry.rename_from is Some, source_exists) {
        Some(dominant) => retag(o.state, source, dominant, now),
        None => discard(o.state, source),
    };
    let r = with_state(o, State { rename_path: None, ..settled });
    if settle_notice(entry.dominant, source_exists) {
        emit(r, EventView::NoticeRemove(source))
    } else {
        r
    }
}

/// What `check_partial_rename` does: nothing unless a rename is awaited and
/// the event is not its second half.
#[verifier::opaque]
pub open spec fn check_partial(
    o: Outcome,
    op: Op,
    cookie: Option<u32>,
    source_exists: bool,
    now: nat,
) -> Outcome {
    if o.state.rename_path is Some && !is_second_half(o.state, op, cookie) {
        reconcile(o, source_exists, now)
    } else {
        o
    }
}

// ---------------------------------------------------------------------------
// One raw event
// ---------------------------------------------------------------------------

/// The operations of `op` handled one after the other, in the order
/// creation, write, change of attributes, rename, removal.
pub open spec fn apply_op(o: Outcome, path: PathView, op: Op, cookie: Option<u32>, now: nat) -> Outcome {
    let o1 = if op.create { on_create(o, path, now) } else { o };
    let o2 = if op.write { on_write(o1, path, now) } else { o1 };
    let o3 = if op.chmod { on_chmod(o2, path, now) } else { o2 };
    let o4 = if op.rename { on_rename(o3, path, cookie, now) } else { o3 };
    if op.remove { on_remove(o4, path, now) } else { o4 }
}

/// One raw event: the state after it, and the events emitted at once.
pub open spec fn ingest(
    s: State,
    path: PathView,
    op: Op,
    cookie: Option<u32>,
    source_exists: bool,
    path_exists: bool,
    now: nat,
) -> Outcome {
    let start = Outcome {
        state: s,
        out: if op.rescan { seq![EventView::Rescan] } else { Seq::empty() },
    };
    let checked = check_partial(start, op, cookie, source_exists, now);
    let effective = effective_op(checked.state, path, op, path_exists);
    apply_op(checked, path, effective, cookie, now)
}

/// The most timers that one raw event arms.
pub open spec fn timers_per_event() -> int {
    6
}

/// There is room for the timers of one more raw event at time `now`.
pub open spec fn can_ingest(s: State, now: nat) -> bool {
    s.timer.next_id + timers_per_event() <= u64::MAX && now + s.timer.delay <= u64::MAX
}

// ---------------------------------------------------------------------------
// Firing
// ---------------------------------------------------------------------------

/// The head of the queue leaves it. Unless it was cancelled, the entry of
/// its path is drained and released as an event; a rename that was awaited
/// from that path is then no longer awaited.
pub open spec fn fire_head(s: State) -> Outcome {
    let head = s.timer.queue[0];
    let popped = State { timer: TimerView { queue: s.timer.queue.drop_first(), ..s.timer }, ..s };
    if !head.cancelled && s.buffer.contains_key(head.path) {
        let entry = s.buffer[head.path];
        Outcome {
            state: State {
                buffer: s.buffer.remove(head.path),
                rename_path: if s.rename_path == Some(head.path) {
                    None
                } else {
                    s.rename_path
                },
                ..popped
            },
            out: seq![emission(head.path, entry.dominant, entry.rename_from)],
        }
    } else {
        Outcome { state: popped, out: Seq::empty() }
    }
}

/// Every firing whose deadline is at most `now` leaves the queue, in
/// firing order.
pub open spec fn fire(s: State, now: nat) -> Outcome
    decreases s.timer.queue.len(),
{
    if s.timer.queue.len() > 0 && s.timer.queue[0].deadline <= now {
        let first = fire_head(s);
        let rest = fire(first.state, now);
        Outcome { state: rest.state, out: first.out + rest.out }
    } else {
        Outcome { state: s, out: Seq::empty() }
    }
}

} // verus!
