//! Every rule keeps the invariant of the state.

use vstd::prelude::*;
use crate::event::EventView;
use crate::event::PathView;
use crate::model::Outcome;
use crate::model::State;
use crate::model::apply_op;
use crate::model::check_partial;
use crate::model::chmod_cell;
use crate::model::completes_rename;
use crate::model::create_cell;
use crate::model::dominant_of;
use crate::model::is_second_half;
use crate::model::remove_cell;
use crate::model::remove_notice;
use crate::model::rename_cell;
use crate::model::settle_cell;
use crate::model::settle_notice;
use crate::model::write_cell;
use crate::model::write_notice;
use crate::model::effective_op;
use crate::model::fire;
use crate::model::ingest;
use crate::model::on_chmod;
use crate::model::on_create;
use crate::model::on_remove;
use crate::model::on_rename;
use crate::model::on_write;
use crate::model::retag;
use crate::model::schedule;
use crate::model::discard;
use crate::model::due_prefix;
use crate::model::fire_head;
use crate::model::fires_before;
use crate::model::ignore;
use crate::model::links_wf;
use crate::model::live;
use crate::model::put;
use crate::model::state_wf;
use crate::op::Dominant;
use crate::op::Op;
use crate::timer::lemma_due_prefix_bounds;
use crate::timer::lemma_ignore_wf;
use crate::timer::lemma_schedule_wf;

verus! {

/// Two entries never share a timer.
pub proof fn lemma_timers_differ(s: State, p: PathView, q: PathView)
    requires
        links_wf(s),
        s.buffer.contains_key(p),
        s.buffer.contains_key(q),
        p != q,
    ensures
        s.buffer[p].timer_id != s.buffer[q].timer_id,
{
    assert(live(s.timer, s.buffer[p].timer_id, p));
    assert(live(s.timer, s.buffer[q].timer_id, q));
    let a = choose|k: int|
        0 <= k < s.timer.queue.len() && (#[trigger] s.timer.queue[k]).id == s.buffer[p].timer_id
            && s.timer.queue[k].path == p && !s.timer.queue[k].cancelled;
    let b = choose|k: int|
        0 <= k < s.timer.queue.len() && (#[trigger] s.timer.queue[k]).id == s.buffer[q].timer_id
            && s.timer.queue[k].path == q && !s.timer.queue[k].cancelled;
    if a < b {
        assert(s.timer.queue[a].id != s.timer.queue[b].id);
    } else if b < a {
        assert(s.timer.queue[b].id != s.timer.queue[a].id);
    }
}

/// Queueing an operation keeps the timers and the entries linked, and uses
/// up one timer id.
#[verifier::rlimit(40)]
pub proof fn lemma_put(
    s: State,
    path: PathView,
    dominant: Dominant,
    rename_from: Option<PathView>,
    now: nat,
)
    requires
        links_wf(s),
    ensures
        links_wf(put(s, path, dominant, rename_from, now)),
        put(s, path, dominant, rename_from, now).timer.next_id == s.timer.next_id + 1,
        put(s, path, dominant, rename_from, now).timer.delay == s.timer.delay,
{
    reveal(schedule);
    reveal(ignore);
    let known = s.buffer.contains_key(path);
    let c = if known { ignore(s.timer, s.buffer[path].timer_id) } else { s.timer };
    if known {
        lemma_ignore_wf(s.timer, s.buffer[path].timer_id);
    }
    lemma_schedule_wf(c, path, now);
    let after = put(s, path, dominant, rename_from, now);
    let deadline = (now + c.delay) as nat;
    let at = due_prefix(c.queue, deadline) as int;
    lemma_due_prefix_bounds(c.queue, deadline);
    assert(after.timer.queue.len() == c.queue.len() + 1);
    assert(after.timer.queue[at].id == c.next_id);
    assert forall|p: PathView| #[trigger] after.buffer.contains_key(p) implies live(
        after.timer,
        after.buffer[p].timer_id,
        p,
    ) by {
        if p == path {
            assert(after.timer.queue[at].path == path && !after.timer.queue[at].cancelled);
        } else {
            assert(s.buffer.contains_key(p));
            assert(live(s.timer, s.buffer[p].timer_id, p));
            let k = choose|k: int|
                0 <= k < s.timer.queue.len() && (#[trigger] s.timer.queue[k]).id
                    == s.buffer[p].timer_id && s.timer.queue[k].path == p
                    && !s.timer.queue[k].cancelled;
            if known {
                lemma_timers_differ(s, p, path);
            }
            assert(c.queue[k] == s.timer.queue[k]);
            let k1 = if k < at { k } else { k + 1 };
            assert(after.timer.queue[k1] == c.queue[k]);
        }
    }
    assert forall|k1: int|
        0 <= k1 < after.timer.queue.len() && !(#[trigger] after.timer.queue[k1]).cancelled implies {
        &&& after.buffer.contains_key(after.timer.queue[k1].path)
        &&& after.buffer[after.timer.queue[k1].path].timer_id == after.timer.queue[k1].id
    } by {
        if k1 != at {
            let k = if k1 < at { k1 } else { k1 - 1 };
            assert(after.timer.queue[k1] == c.queue[k]);
            assert(!s.timer.queue[k].cancelled);
            assert(c.queue[k] == s.timer.queue[k]);
            assert(s.buffer.contains_key(s.timer.queue[k].path));
        }
    }
}

/// Dropping an entry keeps the invariant.
#[verifier::rlimit(40)]
pub proof fn lemma_discard(s: State, path: PathView)
    requires
        links_wf(s),
    ensures
        links_wf(discard(s, path)),
        state_wf(s) ==> state_wf(discard(s, path)),
        discard(s, path).timer.next_id == s.timer.next_id,
        discard(s, path).timer.delay == s.timer.delay,
{
    reveal(ignore);
    if s.buffer.contains_key(path) {
        let after = discard(s, path);
        lemma_ignore_wf(s.timer, s.buffer[path].timer_id);
        assert forall|p: PathView| #[trigger] after.buffer.contains_key(p) implies live(
            after.timer,
            after.buffer[p].timer_id,
            p,
        ) by {
            assert(live(s.timer, s.buffer[p].timer_id, p));
            let k = choose|k: int|
                0 <= k < s.timer.queue.len() && (#[trigger] s.timer.queue[k]).id
                    == s.buffer[p].timer_id && s.timer.queue[k].path == p
                    && !s.timer.queue[k].cancelled;
            lemma_timers_differ(s, p, path);
            assert(after.timer.queue[k] == s.timer.queue[k]);
        }
        assert forall|k: int|
            0 <= k < after.timer.queue.len() && !(#[trigger] after.timer.queue[k]).cancelled implies {
            &&& after.buffer.contains_key(after.timer.queue[k].path)
            &&& after.buffer[after.timer.queue[k].path].timer_id == after.timer.queue[k].id
        } by {
            assert(!s.timer.queue[k].cancelled);
            assert(after.timer.queue[k] == s.timer.queue[k]);
        }
    }
}

/// The head of the queue leaving keeps the invariant.
#[verifier::rlimit(40)]
pub proof fn lemma_fire_head(s: State)
    requires
        state_wf(s),
        s.timer.queue.len() > 0,
    ensures
        state_wf(fire_head(s).state),
        fire_head(s).state.timer.queue == s.timer.queue.drop_first(),
        fire_head(s).state.timer.next_id == s.timer.next_id,
        fire_head(s).state.timer.delay == s.timer.delay,
{
    let head = s.timer.queue[0];
    let after = fire_head(s).state;
    assert forall|i: int, j: int| 0 <= i < j < after.timer.queue.len() implies fires_before(
        #[trigger] after.timer.queue[i],
        #[trigger] after.timer.queue[j],
    ) && after.timer.queue[i].id != after.timer.queue[j].id by {
        assert(fires_before(s.timer.queue[i + 1], s.timer.queue[j + 1]));
    }
    assert forall|i: int| 0 <= i < after.timer.queue.len() implies (
    #[trigger] after.timer.queue[i]).id < after.timer.next_id by {
        assert(s.timer.queue[i + 1].id < s.timer.next_id);
    }
    assert forall|p: PathView| #[trigger] after.buffer.contains_key(p) implies live(
        after.timer,
        after.buffer[p].timer_id,
        p,
    ) by {
        assert(live(s.timer, s.buffer[p].timer_id, p));
        let k = choose|k: int|
            0 <= k < s.timer.queue.len() && (#[trigger] s.timer.queue[k]).id
                == s.buffer[p].timer_id && s.timer.queue[k].path == p
                && !s.timer.queue[k].cancelled;
        if k == 0 {
            assert(!head.cancelled && s.buffer.contains_key(head.path));
            assert(false);
        }
        assert(after.timer.queue[k - 1] == s.timer.queue[k]);
    }
    assert forall|k: int|
        0 <= k < after.timer.queue.len() && !(#[trigger] after.timer.queue[k]).cancelled implies {
        &&& after.buffer.contains_key(after.timer.queue[k].path)
        &&& after.buffer[after.timer.queue[k].path].timer_id == after.timer.queue[k].id
    } by {
        assert(after.timer.queue[k] == s.timer.queue[k + 1]);
        assert(!s.timer.queue[k + 1].cancelled);
        if !head.cancelled {
            assert(s.timer.queue[0].id != s.timer.queue[k + 1].id);
        }
    }
}

/// What one rule may do: it keeps the invariant, arms at most one timer,
/// only adds to the emitted events, and leaves every entry but those of
/// `path` and of the awaited rename source as it was.
pub open spec fn step_ok(before: Outcome, after: Outcome, path: PathView) -> bool {
    &&& state_wf(after.state)
    &&& after.state.timer.delay == before.state.timer.delay
    &&& before.state.timer.next_id <= after.state.timer.next_id <= before.state.timer.next_id + 1
    &&& before.out.is_prefix_of(after.out)
    &&& forall|q: PathView|
        q != path && Some(q) != before.state.rename_path ==> {
            &&& #[trigger] after.state.buffer.contains_key(q) == before.state.buffer.contains_key(q)
            &&& after.state.buffer.contains_key(q) ==> after.state.buffer[q]
                == before.state.buffer[q]
        }
}

/// The entry of `path` remembers the source it did before; a new entry
/// remembers none.
pub open spec fn keeps_source(before: State, after: State, path: PathView) -> bool {
    after.buffer.contains_key(path) ==> after.buffer[path].rename_from == if before.buffer.contains_key(
        path,
    ) {
        before.buffer[path].rename_from
    } else {
        None
    }
}

/// Changing the operation of an entry keeps the invariant.
pub proof fn lemma_retag(s: State, path: PathView, dominant: Dominant, now: nat)
    requires
        state_wf(s),
        s.buffer.contains_key(path),
    ensures
        state_wf(retag(s, path, dominant, now)),
        retag(s, path, dominant, now).timer.next_id == s.timer.next_id + 1,
        retag(s, path, dominant, now).timer.delay == s.timer.delay,
{
    lemma_put(s, path, dominant, s.buffer[path].rename_from, now);
}

/// The rule for a creation is a step.
#[verifier::rlimit(40)]
pub proof fn lemma_on_create(o: Outcome, path: PathView, now: nat)
    requires
        state_wf(o.state),
    ensures
        step_ok(o, on_create(o, path, now), path),
        dominant_of(on_create(o, path, now).state, path) == create_cell(dominant_of(o.state, path)),
        on_create(o, path, now).out == o.out,
        on_create(o, path, now).state.rename_path == o.state.rename_path,
        on_create(o, path, now).state.rename_cookie == o.state.rename_cookie,
        keeps_source(o.state, on_create(o, path, now).state, path),
{
    reveal(on_create);
    lemma_put(o.state, path, Dominant::Create, None, now);
    if o.state.buffer.contains_key(path) {
        lemma_retag(o.state, path, Dominant::Write, now);
    }
}

/// The rule for a write is a step.
#[verifier::rlimit(40)]
pub proof fn lemma_on_write(o: Outcome, path: PathView, now: nat)
    requires
        state_wf(o.state),
    ensures
        step_ok(o, on_write(o, path, now), path),
        dominant_of(on_write(o, path, now).state, path) == write_cell(dominant_of(o.state, path)),
        on_write(o, path, now).out == if write_notice(dominant_of(o.state, path)) {
            o.out.push(EventView::NoticeWrite(path))
        } else {
            o.out
        },
        on_write(o, path, now).state.rename_path == o.state.rename_path,
        on_write(o, path, now).state.rename_cookie == o.state.rename_cookie,
        keeps_source(o.state, on_write(o, path, now).state, path),
{
    reveal(on_write);
    lemma_put(o.state, path, Dominant::Write, None, now);
    if o.state.buffer.contains_key(path) {
        lemma_retag(o.state, path, Dominant::Write, now);
        lemma_retag(o.state, path, o.state.buffer[path].dominant, now);
    }
}

/// The rule for a change of attributes is a step.
#[verifier::rlimit(40)]
pub proof fn lemma_on_chmod(o: Outcome, path: PathView, now: nat)
    requires
        state_wf(o.state),
    ensures
        step_ok(o, on_chmod(o, path, now), path),
        dominant_of(on_chmod(o, path, now).state, path) == chmod_cell(dominant_of(o.state, path)),
        on_chmod(o, path, now).out == o.out,
        on_chmod(o, path, now).state.rename_path == o.state.rename_path,
        on_chmod(o, path, now).state.rename_cookie == o.state.rename_cookie,
        keeps_source(o.state, on_chmod(o, path, now).state, path),
{
    reveal(on_chmod);
    lemma_put(o.state, path, Dominant::Chmod, None, now);
    if o.state.buffer.contains_key(path) {
        lemma_retag(o.state, path, Dominant::Chmod, now);
        lemma_retag(o.state, path, o.state.buffer[path].dominant, now);
    }
}

/// The rule for a rename is a step.
#[verifier::rlimit(40)]
pub proof fn lemma_on_rename(o: Outcome, path: PathView, cookie: Option<u32>, now: nat)
    requires
        state_wf(o.state),
    ensures
        step_ok(o, on_rename(o, path, cookie, now), path),
        !completes_rename(o.state, cookie) ==> {
            let d = dominant_of(o.state, path);
            let r = on_rename(o, path, cookie, now);
            &&& dominant_of(r.state, path) == rename_cell(d)
            &&& r.out == if remove_notice(d) {
                o.out.push(EventView::NoticeRemove(path))
            } else {
                o.out
            }
            &&& d != Some(Dominant::Remove) ==> r.state.rename_path == Some(path)
                && r.state.rename_cookie == cookie
            &&& d == Some(Dominant::Remove) ==> r.state.rename_path == o.state.rename_path
                && r.state.rename_cookie == o.state.rename_cookie
        },
        completes_rename(o.state, cookie) ==> {
            let source = o.state.rename_path->0;
            let moved = o.state.buffer[source];
            let r = on_rename(o, path, cookie, now);
            &&& r.out == o.out
            &&& r.state.rename_path is None
            &&& r.state.rename_cookie is None
            &&& moved.dominant == Dominant::Remove ==> r.state == (State {
                rename_path: None,
                rename_cookie: None,
                ..o.state
            })
            &&& moved.dominant != Dominant::Remove ==> {
                &&& dominant_of(r.state, path) == Some(moved.dominant)
                &&& source != path ==> !r.state.buffer.contains_key(source)
                &&& r.state.buffer[path].rename_from == if moved.dominant == Dominant::Create {
                    None
                } else if moved.rename_from is Some {
                    moved.rename_from
                } else {
                    Some(source)
                }
            }
        },
        !completes_rename(o.state, cookie) ==> keeps_source(
            o.state,
            on_rename(o, path, cookie, now).state,
            path,
        ),
{
    reveal(on_rename);
    let s = o.state;
    if completes_rename(s, cookie) {
        let source = s.rename_path->0;
        let moved = s.buffer[source];
        let origin = match moved.rename_from {
            Some(first) => Some(first),
            None => Some(source),
        };
        lemma_discard(s, source);
        let without_source = State { rename_path: None, ..discard(s, source) };
        lemma_put(without_source, path, Dominant::Create, None, now);
        lemma_put(without_source, path, moved.dominant, origin, now);
    } else {
        let awaiting = State { rename_path: Some(path), rename_cookie: cookie, ..s };
        lemma_put(awaiting, path, Dominant::Rename, None, now);
        if s.buffer.contains_key(path) {
            lemma_put(awaiting, path, s.buffer[path].dominant, s.buffer[path].rename_from, now);
        }
    }
}

/// The rule for a removal is a step.
#[verifier::rlimit(40)]
pub proof fn lemma_on_remove(o: Outcome, path: PathView, now: nat)
    requires
        state_wf(o.state),
    ensures
        step_ok(o, on_remove(o, path, now), path),
        dominant_of(on_remove(o, path, now).state, path) == remove_cell(dominant_of(o.state, path)),
        on_remove(o, path, now).out == if remove_notice(dominant_of(o.state, path)) {
            o.out.push(EventView::NoticeRemove(path))
        } else {
            o.out
        },
        on_remove(o, path, now).state.rename_cookie == o.state.rename_cookie,
        on_remove(o, path, now).state.rename_path == if dominant_of(o.state, path) == Some(
            Dominant::Create,
        ) && o.state.rename_path == Some(path) {
            None
        } else {
            o.state.rename_path
        },
        keeps_source(o.state, on_remove(o, path, now).state, path),
{
    reveal(on_remove);
    lemma_put(o.state, path, Dominant::Remove, None, now);
    lemma_discard(o.state, path);
    if o.state.buffer.contains_key(path) {
        lemma_retag(o.state, path, Dominant::Remove, now);
    }
}

/// Settling a partial rename is a step on the source of the rename, and
/// moves what is queued there as the table says.
#[verifier::rlimit(40)]
pub proof fn lemma_check_partial(
    o: Outcome,
    op: Op,
    cookie: Option<u32>,
    source_exists: bool,
    now: nat,
)
    requires
        state_wf(o.state),
    ensures
        o.state.rename_path is None || is_second_half(o.state, op, cookie) ==> check_partial(
            o,
            op,
            cookie,
            source_exists,
            now,
        ) == o,
        o.state.rename_path is Some && !is_second_half(o.state, op, cookie) ==> {
            let source = o.state.rename_path->0;
            let entry = o.state.buffer[source];
            let r = check_partial(o, op, cookie, source_exists, now);
            &&& step_ok(o, r, source)
            &&& r.state.rename_path is None
            &&& r.state.rename_cookie == o.state.rename_cookie
            &&& dominant_of(r.state, source) == settle_cell(
                entry.dominant,
                entry.rename_from is Some,
                source_exists,
            )
            &&& r.state.buffer.contains_key(source) ==> r.state.buffer[source].rename_from
                == entry.rename_from
            &&& r.state.buffer.contains_key(source) ==> r.state
                == (State { rename_path: None, ..retag(
                    o.state,
                    source,
                    r.state.buffer[source].dominant,
                    now,
                ) })
            &&& !r.state.buffer.contains_key(source) ==> r.state == (State {
                rename_path: None,
                ..discard(o.state, source)
            })
            &&& r.out == if settle_notice(entry.dominant, source_exists) {
                o.out.push(EventView::NoticeRemove(source))
            } else {
                o.out
            }
        },
{
    reveal(check_partial);
    let s = o.state;
    if s.rename_path is Some {
        let source = s.rename_path->0;
        let entry = s.buffer[source];
        match settle_cell(entry.dominant, entry.rename_from is Some, source_exists) {
            Some(dominant) => {
                lemma_retag(s, source, dominant, now);
            },
            None => {
                lemma_discard(s, source);
            },
        }
    }
}

/// The rules of one raw event, one after the other, keep the invariant.
#[verifier::rlimit(40)]
pub proof fn lemma_apply_op(o: Outcome, path: PathView, op: Op, cookie: Option<u32>, now: nat)
    requires
        state_wf(o.state),
    ensures
        state_wf(apply_op(o, path, op, cookie, now).state),
        apply_op(o, path, op, cookie, now).state.timer.delay == o.state.timer.delay,
        o.state.timer.next_id <= apply_op(o, path, op, cookie, now).state.timer.next_id
            <= o.state.timer.next_id + 5,
        o.out.is_prefix_of(apply_op(o, path, op, cookie, now).out),
{
    let o1 = if op.create { on_create(o, path, now) } else { o };
    if op.create {
        lemma_on_create(o, path, now);
    }
    let o2 = if op.write { on_write(o1, path, now) } else { o1 };
    if op.write {
        lemma_on_write(o1, path, now);
    }
    let o3 = if op.chmod { on_chmod(o2, path, now) } else { o2 };
    if op.chmod {
        lemma_on_chmod(o2, path, now);
    }
    let o4 = if op.rename { on_rename(o3, path, cookie, now) } else { o3 };
    if op.rename {
        lemma_on_rename(o3, path, cookie, now);
    }
    if op.remove {
        lemma_on_remove(o4, path, now);
    }
}

/// One raw event keeps the invariant.
pub proof fn lemma_ingest(
    s: State,
    path: PathView,
    op: Op,
    cookie: Option<u32>,
    source_exists: bool,
    path_exists: bool,
    now: nat,
)
    requires
        state_wf(s),
    ensures
        state_wf(ingest(s, path, op, cookie, source_exists, path_exists, now).state),
        ingest(s, path, op, cookie, source_exists, path_exists, now).state.timer.delay
            == s.timer.delay,
        s.timer.next_id <= ingest(
            s,
            path,
            op,
            cookie,
            source_exists,
            path_exists,
            now,
        ).state.timer.next_id <= s.timer.next_id + 6,
{
    let start = Outcome {
        state: s,
        out: if op.rescan { seq![EventView::Rescan] } else { Seq::empty() },
    };
    lemma_check_partial(start, op, cookie, source_exists, now);
    let checked = check_partial(start, op, cookie, source_exists, now);
    lemma_apply_op(checked, path, effective_op(checked.state, path, op, path_exists), cookie, now);
}

/// Firing keeps the invariant, and arms nothing.
pub proof fn lemma_fire(s: State, now: nat)
    requires
        state_wf(s),
    ensures
        state_wf(fire(s, now).state),
        fire(s, now).state.timer.delay == s.timer.delay,
        fire(s, now).state.timer.next_id == s.timer.next_id,
    decreases s.timer.queue.len(),
{
    if s.timer.queue.len() > 0 && s.timer.queue[0].deadline <= now {
        lemma_fire_head(s);
        lemma_fire(fire_head(s).state, now);
    }
}

} // verus!
