//! What holds of the debouncer whatever it is fed.

use vstd::prelude::*;
use crate::event::EventView;
use crate::event::PathView;
use crate::event::RawEventView;
use crate::event::emission;
use crate::event_tx::EventTxView;
use crate::event_tx::SentView;
use crate::event_tx::is_rescan_signal;
use crate::event_tx::sent_output;
use crate::event_tx::sent_state;
use crate::model::Outcome;
use crate::model::PendingView;
use crate::model::State;
use crate::model::TimerSlot;
use crate::model::check_partial;
use crate::model::chmod_cell;
use crate::model::completes_rename;
use crate::model::create_cell;
use crate::model::discard;
use crate::model::dominant_of;
use crate::model::due_prefix;
use crate::model::effective_op;
use crate::model::fire;
use crate::model::fire_head;
use crate::model::fires_before;
use crate::model::ignore;
use crate::model::ingest;
use crate::model::initial;
use crate::model::is_second_half;
use crate::model::live;
use crate::model::on_chmod;
use crate::model::on_create;
use crate::model::on_remove;
use crate::model::on_rename;
use crate::model::on_write;
use crate::model::remove_cell;
use crate::model::remove_notice;
use crate::model::retag;
use crate::model::rename_cell;
use crate::model::settle_cell;
use crate::model::settle_notice;
use crate::model::state_wf;
use crate::model::write_cell;
use crate::model::write_notice;
use crate::op::Dominant;
use crate::op::Op;
use crate::preserve::keeps_source;
use crate::preserve::lemma_check_partial;
use crate::preserve::lemma_fire;
use crate::preserve::lemma_fire_head;
use crate::preserve::lemma_ingest;
use crate::preserve::lemma_on_chmod;
use crate::preserve::lemma_on_create;
use crate::preserve::lemma_on_remove;
use crate::preserve::lemma_on_rename;
use crate::preserve::lemma_on_write;
use crate::preserve::step_ok;

verus! {

/// One raw event as it is delivered: what the backend reports, the answers
/// of the two existence probes, and the time.
pub struct Delivery {
    pub path: PathView,
    pub op: Op,
    pub cookie: Option<u32>,
    pub source_exists: bool,
    pub path_exists: bool,
    pub now: nat,
}

/// The state after a delivery, and the events emitted at once.
pub open spec fn deliver(s: State, d: Delivery) -> Outcome {
    ingest(s, d.path, d.op, d.cookie, d.source_exists, d.path_exists, d.now)
}

/// How often `e` occurs in `events`.
pub open spec fn count(events: Seq<EventView>, e: EventView) -> nat
    decreases events.len(),
{
    if events.len() == 0 {
        0
    } else {
        count(events.drop_last(), e) + if events.last() == e {
            1nat
        } else {
            0nat
        }
    }
}

/// One more event adds one to its own count and nothing to the others.
pub proof fn lemma_count_push(events: Seq<EventView>, x: EventView, e: EventView)
    ensures
        count(events.push(x), e) == count(events, e) + if x == e {
            1nat
        } else {
            0nat
        },
{
    assert(events.push(x).drop_last() =~= events);
}

/// At most one live timer per path: two firings for one path that are both
/// queued and not cancelled are one and the same.
pub proof fn law_one_live_timer(s: State, path: PathView, i: int, j: int)
    requires
        state_wf(s),
        0 <= i < s.timer.queue.len(),
        0 <= j < s.timer.queue.len(),
        s.timer.queue[i].path == path,
        s.timer.queue[j].path == path,
        !s.timer.queue[i].cancelled,
        !s.timer.queue[j].cancelled,
    ensures
        i == j,
{
    assert(s.buffer[path].timer_id == s.timer.queue[i].id);
    assert(s.buffer[path].timer_id == s.timer.queue[j].id);
    if i < j {
        assert(s.timer.queue[i].id != s.timer.queue[j].id);
    } else if j < i {
        assert(s.timer.queue[j].id != s.timer.queue[i].id);
    }
}

/// The operations of a delivery that are handled.
pub open spec fn handled(s: State, d: Delivery) -> Op {
    effective_op(stage(s, d, 1).state, d.path, d.op, d.path_exists)
}

/// The outcomes on the way through one delivery: at 0 before anything but
/// the rescan, at 1 after the partial rename was settled, and from 2 to 6
/// after the rules for creation, write, change of attributes, rename and
/// removal.
pub open spec fn stage(s: State, d: Delivery, n: int) -> Outcome
    decreases
            if n <= 0 {
                0
            } else {
                n
            },
{
    if n <= 0 {
        Outcome {
            state: s,
            out: if d.op.rescan {
                seq![EventView::Rescan]
            } else {
                Seq::empty()
            },
        }
    } else if n == 1 {
        check_partial(stage(s, d, 0), d.op, d.cookie, d.source_exists, d.now)
    } else {
        let before = stage(s, d, n - 1);
        let op = effective_op(stage(s, d, 1).state, d.path, d.op, d.path_exists);
        if n == 2 && op.create {
            on_create(before, d.path, d.now)
        } else if n == 3 && op.write {
            on_write(before, d.path, d.now)
        } else if n == 4 && op.chmod {
            on_chmod(before, d.path, d.now)
        } else if n == 5 && op.rename {
            on_rename(before, d.path, d.cookie, d.now)
        } else if n == 6 && op.remove {
            on_remove(before, d.path, d.now)
        } else {
            before
        }
    }
}

/// What is queued for the path of the delivery at a stage.
pub open spec fn queued(s: State, d: Delivery, n: int) -> Option<Dominant> {
    dominant_of(stage(s, d, n).state, d.path)
}

/// A stage of a delivery keeps the invariant, and the stages up to it arm
/// at most one timer each.
#[verifier::rlimit(40)]
pub proof fn lemma_stage_wf(s: State, d: Delivery, n: int)
    requires
        state_wf(s),
        0 <= n <= 6,
    ensures
        state_wf(stage(s, d, n).state),
        stage(s, d, n).state.timer.delay == s.timer.delay,
        s.timer.next_id <= stage(s, d, n).state.timer.next_id <= s.timer.next_id + n,
    decreases n,
{
    reveal_with_fuel(stage, 2);
    if n > 0 {
        lemma_stage_wf(s, d, n - 1);
        let before = stage(s, d, n - 1);
        let op = handled(s, d);
        if n == 1 {
            lemma_check_partial(before, d.op, d.cookie, d.source_exists, d.now);
        } else if n == 2 && op.create {
            lemma_on_create(before, d.path, d.now);
        } else if n == 3 && op.write {
            lemma_on_write(before, d.path, d.now);
        } else if n == 4 && op.chmod {
            lemma_on_chmod(before, d.path, d.now);
        } else if n == 5 && op.rename {
            lemma_on_rename(before, d.path, d.cookie, d.now);
        } else if n == 6 && op.remove {
            lemma_on_remove(before, d.path, d.now);
        }
    }
}

/// The stages of a delivery lead to its outcome, and each keeps the
/// invariant and arms at most one timer.
pub proof fn lemma_stages_wf(s: State, d: Delivery)
    requires
        state_wf(s),
    ensures
        stage(s, d, 6) == deliver(s, d),
        forall|n: int|
            0 <= n <= 6 ==> {
                &&& state_wf(#[trigger] stage(s, d, n).state)
                &&& stage(s, d, n).state.timer.delay == s.timer.delay
                &&& s.timer.next_id <= stage(s, d, n).state.timer.next_id <= s.timer.next_id + n
            },
{
    assert(stage(s, d, 6) == deliver(s, d)) by {
        reveal_with_fuel(stage, 8);
    }
    assert forall|n: int| 0 <= n <= 6 implies {
        &&& state_wf(#[trigger] stage(s, d, n).state)
        &&& stage(s, d, n).state.timer.delay == s.timer.delay
        &&& s.timer.next_id <= stage(s, d, n).state.timer.next_id <= s.timer.next_id + n
    } by {
        lemma_stage_wf(s, d, n);
    }
}

/// What settling the awaited rename does: the first stage.
pub open spec fn settle_facts(s: State, d: Delivery) -> bool {
    &&& s.rename_path is None || is_second_half(s, d.op, d.cookie) ==> stage(s, d, 1) == stage(
        s,
        d,
        0,
    )
    &&& s.rename_path is Some && !is_second_half(s, d.op, d.cookie) ==> {
        let source = s.rename_path->0;
        let entry = s.buffer[source];
        &&& step_ok(stage(s, d, 0), stage(s, d, 1), source)
        &&& stage(s, d, 1).state.rename_path is None
        &&& stage(s, d, 1).state.rename_cookie == s.rename_cookie
        &&& dominant_of(stage(s, d, 1).state, source) == settle_cell(
            entry.dominant,
            entry.rename_from is Some,
            d.source_exists,
        )
        &&& keeps_source(s, stage(s, d, 1).state, source)
        &&& stage(s, d, 1).out == if settle_notice(entry.dominant, d.source_exists) {
            stage(s, d, 0).out.push(EventView::NoticeRemove(source))
        } else {
            stage(s, d, 0).out
        }
    }
}

/// Settling the partial rename: the first stage.
#[verifier::rlimit(40)]
pub proof fn lemma_stage_settle(s: State, d: Delivery)
    requires
        state_wf(s),
    ensures
        settle_facts(s, d),
{
    reveal_with_fuel(stage, 2);
    lemma_check_partial(stage(s, d, 0), d.op, d.cookie, d.source_exists, d.now);
}

/// The stage after stage `n` is a step on the path of the delivery that
/// leaves the awaited rename alone.
pub open spec fn quiet_step(s: State, d: Delivery, n: int) -> bool {
    &&& step_ok(stage(s, d, n), stage(s, d, n + 1), d.path)
    &&& keeps_source(stage(s, d, n).state, stage(s, d, n + 1).state, d.path)
    &&& stage(s, d, n + 1).state.rename_path == stage(s, d, n).state.rename_path
    &&& stage(s, d, n + 1).state.rename_cookie == stage(s, d, n).state.rename_cookie
}

/// What the rules for a creation, a write and a change of attributes do: the stages from the second to the fourth.
pub open spec fn content_facts(s: State, d: Delivery) -> bool {
    &&& quiet_step(s, d, 1)
    &&& quiet_step(s, d, 2)
    &&& quiet_step(s, d, 3)
    &&& queued(s, d, 2) == if handled(s, d).create {
        create_cell(queued(s, d, 1))
    } else {
        queued(s, d, 1)
    }
    &&& stage(s, d, 2).out == stage(s, d, 1).out
    &&& queued(s, d, 3) == if handled(s, d).write {
        write_cell(queued(s, d, 2))
    } else {
        queued(s, d, 2)
    }
    &&& stage(s, d, 3).out == if handled(s, d).write && write_notice(queued(s, d, 2)) {
        stage(s, d, 2).out.push(EventView::NoticeWrite(d.path))
    } else {
        stage(s, d, 2).out
    }
    &&& queued(s, d, 4) == if handled(s, d).chmod {
        chmod_cell(queued(s, d, 3))
    } else {
        queued(s, d, 3)
    }
    &&& stage(s, d, 4).out == stage(s, d, 3).out
}

/// The rules for a creation, a write and a change of attributes: the
/// stages from the second to the fourth.
#[verifier::rlimit(40)]
pub proof fn lemma_stage_content(s: State, d: Delivery)
    requires
        state_wf(s),
    ensures
        content_facts(s, d),
{
    lemma_stages_wf(s, d);
    reveal_with_fuel(stage, 6);
    let op = handled(s, d);
    assert(state_wf(stage(s, d, 1).state) && state_wf(stage(s, d, 2).state) && state_wf(
        stage(s, d, 3).state,
    ));
    if op.create {
        lemma_on_create(stage(s, d, 1), d.path, d.now);
    }
    if op.write {
        lemma_on_write(stage(s, d, 2), d.path, d.now);
    }
    if op.chmod {
        lemma_on_chmod(stage(s, d, 3), d.path, d.now);
    }
    assert(stage(s, d, 1).out.is_prefix_of(stage(s, d, 1).out));
    assert(stage(s, d, 2).out.is_prefix_of(stage(s, d, 2).out));
    assert(stage(s, d, 3).out.is_prefix_of(stage(s, d, 3).out));
}

/// What the rule for a rename does: the fifth stage.
pub open spec fn rename_facts(s: State, d: Delivery) -> bool {
    &&& step_ok(stage(s, d, 4), stage(s, d, 5), d.path)
    &&& !handled(s, d).rename ==> stage(s, d, 5) == stage(s, d, 4)
    &&& handled(s, d).rename && !completes_rename(stage(s, d, 4).state, d.cookie) ==> {
        &&& queued(s, d, 5) == rename_cell(queued(s, d, 4))
        &&& keeps_source(stage(s, d, 4).state, stage(s, d, 5).state, d.path)
        &&& stage(s, d, 5).out == if remove_notice(queued(s, d, 4)) {
            stage(s, d, 4).out.push(EventView::NoticeRemove(d.path))
        } else {
            stage(s, d, 4).out
        }
        &&& queued(s, d, 4) != Some(Dominant::Remove) ==> stage(s, d, 5).state.rename_path
            == Some(d.path) && stage(s, d, 5).state.rename_cookie == d.cookie
        &&& queued(s, d, 4) == Some(Dominant::Remove) ==> stage(s, d, 5).state.rename_path
            == stage(s, d, 4).state.rename_path && stage(s, d, 5).state.rename_cookie
            == stage(s, d, 4).state.rename_cookie
    }
    &&& handled(s, d).rename && completes_rename(stage(s, d, 4).state, d.cookie) ==> {
        let source = stage(s, d, 4).state.rename_path->0;
        let moved = stage(s, d, 4).state.buffer[source];
        let r = stage(s, d, 5);
        &&& r.out == stage(s, d, 4).out
        &&& r.state.rename_path is None
        &&& r.state.rename_cookie is None
        &&& moved.dominant == Dominant::Remove ==> r.state.buffer == stage(
            s,
            d,
            4,
        ).state.buffer
        &&& moved.dominant != Dominant::Remove ==> {
            &&& queued(s, d, 5) == Some(moved.dominant)
            &&& source != d.path ==> !r.state.buffer.contains_key(source)
            &&& r.state.buffer[d.path].rename_from == if moved.dominant == Dominant::Create {
                None
            } else if moved.rename_from is Some {
                moved.rename_from
            } else {
                Some(source)
            }
        }
    }
}

/// The rule for a rename: the fifth stage.
#[verifier::rlimit(40)]
pub proof fn lemma_stage_rename(s: State, d: Delivery)
    requires
        state_wf(s),
    ensures
        rename_facts(s, d),
{
    lemma_stages_wf(s, d);
    reveal_with_fuel(stage, 7);
    assert(state_wf(stage(s, d, 4).state));
    assert(stage(s, d, 4).out.is_prefix_of(stage(s, d, 4).out));
    if handled(s, d).rename {
        lemma_on_rename(stage(s, d, 4), d.path, d.cookie, d.now);
    }
}

/// What the rule for a removal does: the last stage.
pub open spec fn remove_facts(s: State, d: Delivery) -> bool {
    &&& step_ok(stage(s, d, 5), stage(s, d, 6), d.path)
    &&& keeps_source(stage(s, d, 5).state, stage(s, d, 6).state, d.path)
    &&& queued(s, d, 6) == if handled(s, d).remove {
        remove_cell(queued(s, d, 5))
    } else {
        queued(s, d, 5)
    }
    &&& stage(s, d, 6).out == if handled(s, d).remove && remove_notice(queued(s, d, 5)) {
        stage(s, d, 5).out.push(EventView::NoticeRemove(d.path))
    } else {
        stage(s, d, 5).out
    }
    &&& stage(s, d, 6).state.rename_cookie == stage(s, d, 5).state.rename_cookie
    &&& stage(s, d, 6).state.rename_path == if handled(s, d).remove && queued(s, d, 5) == Some(
        Dominant::Create,
    ) && stage(s, d, 5).state.rename_path == Some(d.path) {
        None
    } else {
        stage(s, d, 5).state.rename_path
    }
}

/// The rule for a removal: the last stage.
#[verifier::rlimit(40)]
pub proof fn lemma_stage_remove(s: State, d: Delivery)
    requires
        state_wf(s),
    ensures
        remove_facts(s, d),
{
    lemma_stages_wf(s, d);
    reveal_with_fuel(stage, 8);
    assert(state_wf(stage(s, d, 5).state));
    assert(stage(s, d, 5).out.is_prefix_of(stage(s, d, 5).out));
    if handled(s, d).remove {
        lemma_on_remove(stage(s, d, 5), d.path, d.now);
    }
}

/// The walk of a delivery through the transition table: settling the
/// awaited rename moves what is queued for its source by the cell for a
/// partial rename, each rule that is handled moves what is queued for the
/// path of the delivery by its cell, and a stage adds a notice exactly
/// where its cell asks for one. A rename that completes the awaited one is
/// the exception: it moves the entry of the source to the path, and emits
/// nothing.
pub open spec fn follows_table(s: State, d: Delivery) -> bool {
    &&& stage(s, d, 6) == deliver(s, d)
    &&& stage(s, d, 0).out == if d.op.rescan {
        seq![EventView::Rescan]
    } else {
        Seq::empty()
    }
    &&& stage(s, d, 1).out == if s.rename_path is Some && !is_second_half(s, d.op, d.cookie)
        && settle_notice(s.buffer[s.rename_path->0].dominant, d.source_exists) {
        stage(s, d, 0).out.push(EventView::NoticeRemove(s.rename_path->0))
    } else {
        stage(s, d, 0).out
    }
    &&& s.rename_path is Some && !is_second_half(s, d.op, d.cookie) ==> dominant_of(
        stage(s, d, 1).state,
        s.rename_path->0,
    ) == settle_cell(
        s.buffer[s.rename_path->0].dominant,
        s.buffer[s.rename_path->0].rename_from is Some,
        d.source_exists,
    )
    &&& s.rename_path is None || Some(d.path) != s.rename_path || is_second_half(
        s,
        d.op,
        d.cookie,
    ) ==> queued(s, d, 1) == dominant_of(s, d.path)
    &&& s.rename_path is Some && !is_second_half(s, d.op, d.cookie) ==> stage(
        s,
        d,
        1,
    ).state.rename_path is None
    &&& stage(s, d, 4).state.rename_path == stage(s, d, 1).state.rename_path
    &&& queued(s, d, 2) == if handled(s, d).create {
        create_cell(queued(s, d, 1))
    } else {
        queued(s, d, 1)
    }
    &&& stage(s, d, 2).out == stage(s, d, 1).out
    &&& queued(s, d, 3) == if handled(s, d).write {
        write_cell(queued(s, d, 2))
    } else {
        queued(s, d, 2)
    }
    &&& stage(s, d, 3).out == if handled(s, d).write && write_notice(queued(s, d, 2)) {
        stage(s, d, 2).out.push(EventView::NoticeWrite(d.path))
    } else {
        stage(s, d, 2).out
    }
    &&& queued(s, d, 4) == if handled(s, d).chmod {
        chmod_cell(queued(s, d, 3))
    } else {
        queued(s, d, 3)
    }
    &&& stage(s, d, 4).out == stage(s, d, 3).out
    &&& !(handled(s, d).rename && completes_rename(stage(s, d, 4).state, d.cookie)) ==> queued(
        s,
        d,
        5,
    ) == if handled(s, d).rename {
        rename_cell(queued(s, d, 4))
    } else {
        queued(s, d, 4)
    }
    &&& stage(s, d, 5).out == if handled(s, d).rename && !completes_rename(
        stage(s, d, 4).state,
        d.cookie,
    ) && remove_notice(queued(s, d, 4)) {
        stage(s, d, 4).out.push(EventView::NoticeRemove(d.path))
    } else {
        stage(s, d, 4).out
    }
    &&& queued(s, d, 6) == if handled(s, d).remove {
        remove_cell(queued(s, d, 5))
    } else {
        queued(s, d, 5)
    }
    &&& stage(s, d, 6).out == if handled(s, d).remove && remove_notice(queued(s, d, 5)) {
        stage(s, d, 5).out.push(EventView::NoticeRemove(d.path))
    } else {
        stage(s, d, 5).out
    }
}

/// A delivery walks the transition table: settling the awaited rename
/// moves what is queued for its source by the cell for a partial rename,
/// each rule that is handled moves what is queued for the path of the
/// delivery by its cell, and a stage adds a notice exactly where its cell
/// asks for one. A rename that completes the awaited one is the exception:
/// it moves the entry of the source to the path, and emits nothing.
#[verifier::rlimit(40)]
pub proof fn law_delivery_follows_table(s: State, d: Delivery)
    requires
        state_wf(s),
    ensures
        follows_table(s, d),
{
    lemma_stages_wf(s, d);
    lemma_stage_settle(s, d);
    lemma_stage_content(s, d);
    lemma_stage_rename(s, d);
    lemma_stage_remove(s, d);
    reveal_with_fuel(stage, 1);
}

/// Everything the stage lemmas say of a delivery.
pub open spec fn walk_facts(s: State, d: Delivery) -> bool {
    &&& stage(s, d, 6) == deliver(s, d)
    &&& forall|n: int|
        0 <= n <= 6 ==> {
            &&& state_wf(#[trigger] stage(s, d, n).state)
            &&& stage(s, d, n).state.timer.delay == s.timer.delay
            &&& s.timer.next_id <= stage(s, d, n).state.timer.next_id <= s.timer.next_id + n
        }
    &&& settle_facts(s, d)
    &&& content_facts(s, d)
    &&& rename_facts(s, d)
    &&& remove_facts(s, d)
    &&& follows_table(s, d)
}

/// The stage lemmas, all at once.
pub proof fn lemma_delivery(s: State, d: Delivery)
    requires
        state_wf(s),
    ensures
        walk_facts(s, d),
{
    lemma_stages_wf(s, d);
    lemma_stage_settle(s, d);
    lemma_stage_content(s, d);
    lemma_stage_rename(s, d);
    lemma_stage_remove(s, d);
    law_delivery_follows_table(s, d);
}

/// A rescan is passed on in the call that takes it in: the events emitted
/// for a delivery hold a rescan if and only if the delivery reports one, it
/// is emitted once, and it comes first.
#[verifier::rlimit(40)]
pub proof fn law_rescan_is_emitted(s: State, d: Delivery)
    requires
        state_wf(s),
    ensures
        d.op.rescan ==> deliver(s, d).out.len() > 0 && deliver(s, d).out[0] == EventView::Rescan,
        count(deliver(s, d).out, EventView::Rescan) == if d.op.rescan {
            1nat
        } else {
            0nat
        },
{
    let e = EventView::Rescan;
    lemma_delivery(s, d);
    lemma_count_push(Seq::empty(), e, e);
    assert(seq![e] =~= Seq::<EventView>::empty().push(e));
    if s.rename_path is Some {
        lemma_count_push(stage(s, d, 0).out, EventView::NoticeRemove(s.rename_path->0), e);
    }
    lemma_count_push(stage(s, d, 2).out, EventView::NoticeWrite(d.path), e);
    lemma_count_push(stage(s, d, 4).out, EventView::NoticeRemove(d.path), e);
    lemma_count_push(stage(s, d, 5).out, EventView::NoticeRemove(d.path), e);
}

/// The signal to scan everything again is passed on in the call that takes
/// it in, whatever cookie comes with it: both debounced modes emit one
/// rescan for it, and nothing else, and their state is as it was.
pub proof fn law_rescan_signal_is_forwarded(
    tx: EventTxView,
    raw: RawEventView,
    source_exists: bool,
    path_exists: bool,
    now: nat,
)
    requires
        !(tx is Raw),
        is_rescan_signal(raw),
    ensures
        sent_output(tx, raw, source_exists, path_exists, now) == SentView::Debounced(
            seq![EventView::Rescan],
        ),
        sent_state(tx, raw, source_exists, path_exists, now) == tx,
{
}

/// A write is announced at most once: a delivery emits the write notice
/// of a path at most once, only for its own path, and not at all where a
/// write is queued for the path already.
#[verifier::rlimit(40)]
pub proof fn law_notice_write_once(s: State, d: Delivery, q: PathView)
    requires
        state_wf(s),
    ensures
        count(deliver(s, d).out, EventView::NoticeWrite(q)) <= 1,
        q != d.path ==> count(deliver(s, d).out, EventView::NoticeWrite(q)) == 0,
        dominant_of(s, q) == Some(Dominant::Write) ==> count(
            deliver(s, d).out,
            EventView::NoticeWrite(q),
        ) == 0,
{
    let e = EventView::NoticeWrite(q);
    lemma_delivery(s, d);
    lemma_count_push(Seq::empty(), EventView::Rescan, e);
    assert(seq![EventView::Rescan] =~= Seq::<EventView>::empty().push(EventView::Rescan));
    if s.rename_path is Some {
        lemma_count_push(stage(s, d, 0).out, EventView::NoticeRemove(s.rename_path->0), e);
    }
    lemma_count_push(stage(s, d, 2).out, EventView::NoticeWrite(d.path), e);
    lemma_count_push(stage(s, d, 4).out, EventView::NoticeRemove(d.path), e);
    lemma_count_push(stage(s, d, 5).out, EventView::NoticeRemove(d.path), e);
}

/// A notice is news: a stage of a delivery adds at most one event, and
/// only a notice that what was queued did not imply already. A write notice
/// for a path is added only where nothing, a change of attributes or a
/// rename was queued for it; a removal notice only where nothing, a write
/// or a change of attributes was.
#[verifier::rlimit(40)]
pub proof fn law_notice_is_news(s: State, d: Delivery, n: int)
    requires
        state_wf(s),
        1 <= n <= 6,
    ensures
        stage(s, d, n).out == stage(s, d, n - 1).out || {
            let notice = stage(s, d, n).out.last();
            &&& stage(s, d, n).out == stage(s, d, n - 1).out.push(notice)
            &&& match notice {
                EventView::NoticeWrite(p) => n == 3 && p == d.path && write_notice(
                    dominant_of(stage(s, d, n - 1).state, p),
                ),
                EventView::NoticeRemove(p) => {
                    &&& n == 1 || n == 5 || n == 6
                    &&& n == 1 ==> Some(p) == s.rename_path
                    &&& n != 1 ==> p == d.path
                    &&& remove_notice(dominant_of(stage(s, d, n - 1).state, p))
                },
                _ => false,
            }
        },
{
    lemma_delivery(s, d);
}

/// A delivery announces the removal of its path twice. Either the path is
/// the source of a rename that was not completed and has vanished, which
/// is announced, and the delivery reports a creation and a rename of it,
/// which is announced again. Or the delivery reports a rename and a
/// removal, the rename is a first half, and a write or a change of
/// attributes is queued when the rename is handled: both are announced.
pub open spec fn announces_removal_twice(s: State, d: Delivery) -> bool {
    ||| {
        &&& s.rename_path == Some(d.path)
        &&& !is_second_half(s, d.op, d.cookie)
        &&& settle_notice(s.buffer[d.path].dominant, d.source_exists)
        &&& d.op.create
        &&& d.op.rename
    }
    ||| {
        &&& handled(s, d).rename
        &&& handled(s, d).remove
        &&& !completes_rename(stage(s, d, 4).state, d.cookie)
        &&& (queued(s, d, 4) == Some(Dominant::Write) || queued(s, d, 4) == Some(Dominant::Chmod))
    }
}

/// A removal is announced once by a delivery, but for the deliveries
/// that [`announces_removal_twice`] describes, which announce it twice. No
/// delivery announces the removal of a path other than its own and the
/// source of the awaited rename.
#[verifier::rlimit(40)]
pub proof fn law_notice_remove_once(s: State, d: Delivery, q: PathView)
    requires
        state_wf(s),
    ensures
        count(deliver(s, d).out, EventView::NoticeRemove(q)) <= 2,
        count(deliver(s, d).out, EventView::NoticeRemove(q)) == 2 <==> q == d.path
            && announces_removal_twice(s, d),
        q != d.path && Some(q) != s.rename_path ==> count(
            deliver(s, d).out,
            EventView::NoticeRemove(q),
        ) == 0,
{
    let e = EventView::NoticeRemove(q);
    lemma_delivery(s, d);
    lemma_count_push(Seq::empty(), EventView::Rescan, e);
    assert(seq![EventView::Rescan] =~= Seq::<EventView>::empty().push(EventView::Rescan));
    if s.rename_path is Some {
        lemma_count_push(stage(s, d, 0).out, EventView::NoticeRemove(s.rename_path->0), e);
    }
    lemma_count_push(stage(s, d, 2).out, EventView::NoticeWrite(d.path), e);
    lemma_count_push(stage(s, d, 4).out, EventView::NoticeRemove(d.path), e);
    lemma_count_push(stage(s, d, 5).out, EventView::NoticeRemove(d.path), e);
}

/// A creation followed by a removal leaves no trace: where nothing is
/// queued for a path, a delivery that reports its creation and one that
/// reports its removal emit nothing for it, and leave nothing queued for it
/// and no live timer. What the first of them emits is what settling an
/// awaited rename emits, and every other entry is as that left it.
#[verifier::rlimit(40)]
pub proof fn law_create_then_remove_is_silent(s: State, first: Delivery, second: Delivery)
    requires
        state_wf(s),
        first.op == Op::spec_create(),
        second.op == Op::spec_remove(),
        second.path == first.path,
        !s.buffer.contains_key(first.path),
    ensures
        deliver(s, first).out == stage(s, first, 1).out,
        s.rename_path is None ==> deliver(s, first).out == Seq::<EventView>::empty(),
        deliver(deliver(s, first).state, second).out == Seq::<EventView>::empty(),
        deliver(deliver(s, first).state, second).state.buffer == stage(s, first, 1).state.buffer,
        s.rename_path is None ==> deliver(deliver(s, first).state, second).state.buffer == s.buffer,
        forall|k: int|
            0 <= k < deliver(deliver(s, first).state, second).state.timer.queue.len() && (
            #[trigger] deliver(deliver(s, first).state, second).state.timer.queue[k]).path
                == first.path ==> deliver(
                deliver(s, first).state,
                second,
            ).state.timer.queue[k].cancelled,
{
    let path = first.path;
    let mid = deliver(s, first).state;
    let end = deliver(mid, second).state;
    lemma_delivery(s, first);
    assert(stage(s, first, 1).state.rename_path is None);
    assert(!stage(s, first, 1).state.buffer.contains_key(path));
    assert(handled(s, first) == Op::spec_create());
    assert(queued(s, first, 6) == Some(Dominant::Create));
    assert(mid.rename_path is None);
    lemma_delivery(mid, second);
    assert(handled(mid, second) == Op::spec_remove());
    assert(queued(mid, second, 6) is None);
    assert(end.buffer =~= stage(s, first, 1).state.buffer);
}

/// The removal of a file whose creation is queued drops the entry and
/// nothing else: where no rename is awaited, the delivery emits nothing,
/// cancels the timer of the entry and arms none, and leaves every other
/// entry as it was.
pub proof fn law_removal_of_created_drops_entry(s: State, d: Delivery)
    requires
        state_wf(s),
        s.rename_path is None,
        dominant_of(s, d.path) == Some(Dominant::Create),
        d.op == Op::spec_remove(),
    ensures
        deliver(s, d) == (Outcome { state: discard(s, d.path), out: Seq::empty() }),
        discard(s, d.path).buffer == s.buffer.remove(d.path),
        discard(s, d.path).timer == ignore(s.timer, s.buffer[d.path].timer_id),
{
    reveal(check_partial);
    reveal(on_remove);
}

/// The two halves of a rename pair when one follows the other: what was
/// queued for the source moves to the destination, which remembers the
/// first source of the chain, and nothing is emitted for the second half.
///
/// The first half must not itself complete a rename that is awaited, and
/// what is queued for its path must not be a removal.
#[verifier::rlimit(40)]
pub proof fn law_rename_halves_pair(s: State, first: Delivery, second: Delivery)
    requires
        state_wf(s),
        first.op == Op::spec_rename(),
        second.op == Op::spec_rename(),
        first.cookie is Some,
        second.cookie == first.cookie,
        !(s.rename_path is Some && s.rename_cookie == first.cookie),
        queued(s, first, 1) != Some(Dominant::Remove),
    ensures
        ({
            let mid = deliver(s, first).state;
            let end = deliver(mid, second);
            &&& mid.rename_path == Some(first.path)
            &&& mid.buffer.contains_key(first.path)
            &&& end.out == Seq::<EventView>::empty()
            &&& end.state.rename_path is None
            &&& first.path != second.path ==> !end.state.buffer.contains_key(first.path)
            &&& dominant_of(end.state, second.path) == Some(mid.buffer[first.path].dominant)
            &&& end.state.buffer[second.path].rename_from == if mid.buffer[first.path].dominant
                == Dominant::Create {
                None
            } else if mid.buffer[first.path].rename_from is Some {
                mid.buffer[first.path].rename_from
            } else {
                Some(first.path)
            }
        }),
{
    let mid = deliver(s, first).state;
    lemma_delivery(s, first);
    assert(handled(s, first) == Op::spec_rename());
    assert(!completes_rename(stage(s, first, 4).state, first.cookie));
    lemma_delivery(mid, second);
    assert(is_second_half(mid, second.op, second.cookie));
    assert(handled(mid, second) == Op::spec_rename());
    assert(stage(mid, second, 4).state.buffer[first.path] == mid.buffer[first.path]);
}

/// Any delivery but the second half settles the awaited rename: whatever
/// it is about, the rename is no longer awaited once it is settled, so a
/// second half that comes later finds nothing to pair with.
pub proof fn law_other_delivery_breaks_pair(s: State, d: Delivery)
    requires
        state_wf(s),
        s.rename_path is Some,
        !is_second_half(s, d.op, d.cookie),
    ensures
        stage(s, d, 1).state.rename_path is None,
        deliver(s, d).state.rename_path is Some ==> deliver(s, d).state.rename_path == Some(d.path)
            && d.op.rename,
{
    lemma_delivery(s, d);
    if !d.op.rename {
        assert(!handled(s, d).rename);
    }
}

/// A rename whose second half does not come surfaces: when another
/// delivery settles it, what is queued for the source becomes what the
/// table says, and stays queued with its old timer cancelled and a fresh
/// one armed. Only a file that was created and has vanished again leaves
/// nothing, and its timer is cancelled.
pub proof fn law_broken_rename_surfaces(s: State, d: Delivery)
    requires
        state_wf(s),
        s.rename_path is Some,
        !is_second_half(s, d.op, d.cookie),
    ensures
        ({
            let source = s.rename_path->0;
            let entry = s.buffer[source];
            let settled = stage(s, d, 1).state;
            &&& dominant_of(settled, source) == settle_cell(
                entry.dominant,
                entry.rename_from is Some,
                d.source_exists,
            )
            &&& entry.dominant == Dominant::Rename ==> dominant_of(settled, source) == Some(
                if !d.source_exists {
                    Dominant::Remove
                } else if entry.rename_from is None {
                    Dominant::Create
                } else {
                    Dominant::Write
                },
            )
            &&& dominant_of(settled, source) is None <==> entry.dominant == Dominant::Create
                && !d.source_exists
            &&& settled.buffer.contains_key(source) ==> live(
                settled.timer,
                settled.buffer[source].timer_id,
                source,
            )
            &&& settled.buffer.contains_key(source) ==> settled == (State {
                rename_path: None,
                ..retag(s, source, settled.buffer[source].dominant, d.now)
            })
            &&& !settled.buffer.contains_key(source) ==> settled == (State {
                rename_path: None,
                ..discard(s, source)
            })
        }),
{
    lemma_delivery(s, d);
    reveal_with_fuel(stage, 2);
    lemma_check_partial(stage(s, d, 0), d.op, d.cookie, d.source_exists, d.now);
}

/// A delivery leaves alone what is queued for every path but its own and
/// the source of the awaited rename.
#[verifier::rlimit(40)]
pub proof fn law_other_paths_untouched(s: State, d: Delivery, q: PathView)
    requires
        state_wf(s),
        q != d.path,
        Some(q) != s.rename_path,
    ensures
        deliver(s, d).state.buffer.contains_key(q) == s.buffer.contains_key(q),
        s.buffer.contains_key(q) ==> deliver(s, d).state.buffer[q] == s.buffer[q],
{
    lemma_delivery(s, d);
    assert(stage(s, d, 1).state.buffer.contains_key(q) == s.buffer.contains_key(q));
    assert(stage(s, d, 2).state.buffer.contains_key(q) == s.buffer.contains_key(q));
    assert(stage(s, d, 3).state.buffer.contains_key(q) == s.buffer.contains_key(q));
    assert(stage(s, d, 4).state.buffer.contains_key(q) == s.buffer.contains_key(q));
    assert(stage(s, d, 5).state.buffer.contains_key(q) == s.buffer.contains_key(q));
    assert(stage(s, d, 6).state.buffer.contains_key(q) == s.buffer.contains_key(q));
}

/// What the entries of a state will be released as, path by path.
pub open spec fn pending(s: State) -> Map<PathView, EventView> {
    Map::new(
        |p: PathView| s.buffer.contains_key(p),
        |p: PathView| emission(p, s.buffer[p].dominant, s.buffer[p].rename_from),
    )
}

/// The second delivery of a raw event to a debouncer that had seen nothing
/// before the first has no effect. Both deliveries report the same
/// operations on the same path with the same cookie; the answers of their
/// probes may differ.
///
/// A rescan is passed on each time. Without a rename, the repeat is
/// filtered unless a creation and a removal come together. With a rename,
/// the repeat settles or completes the rename that the first delivery
/// began, and what that does depends on the rest.
pub open spec fn repeat_is_absorbed(first: Delivery, second: Delivery) -> bool {
    let op = first.op;
    !op.rescan && if !op.rename {
        !(op.create && op.remove)
    } else if op.remove {
        !second.source_exists && (op.create ==> first.path_exists && second.path_exists)
    } else if op.create {
        true
    } else if op.write || op.chmod {
        false
    } else {
        first.cookie is None && second.source_exists
    }
}

/// The state that has seen nothing keeps the invariant.
pub proof fn lemma_initial_wf(delay: nat)
    requires
        delay > 0,
    ensures
        state_wf(initial(delay)),
{
}

/// The two deliveries of one raw event to a debouncer that has seen
/// nothing, and what is known of the one path they touch.
#[verifier::rlimit(40)]
proof fn lemma_repeat_setup(delay: nat, first: Delivery, second: Delivery)
    requires
        delay > 0,
        second.path == first.path,
        second.op == first.op,
        second.cookie == first.cookie,
    ensures
        ({
            let once = deliver(initial(delay), first);
            let twice = deliver(once.state, second);
            let path = first.path;
            &&& state_wf(once.state)
            &&& forall|q: PathView| q != path ==> !(#[trigger] once.state.buffer.contains_key(q))
            &&& forall|q: PathView| q != path ==> !(#[trigger] twice.state.buffer.contains_key(q))
            &&& once.state.rename_path is Some ==> once.state.rename_path == Some(path)
            &&& once.state.buffer.contains_key(path) ==> once.state.buffer[path].rename_from is None
            &&& (pending(twice.state) == pending(once.state)) <==> {
                &&& twice.state.buffer.contains_key(path) == once.state.buffer.contains_key(path)
                &&& once.state.buffer.contains_key(path) ==> emission(
                    path,
                    twice.state.buffer[path].dominant,
                    twice.state.buffer[path].rename_from,
                ) == emission(
                    path,
                    once.state.buffer[path].dominant,
                    once.state.buffer[path].rename_from,
                )
            }
        }),
{
    let s = initial(delay);
    let path = first.path;
    let once = deliver(s, first);
    let mid = once.state;
    let twice = deliver(mid, second);
    lemma_delivery(s, first);
    assert(!stage(s, first, 1).state.buffer.contains_key(path));
    assert(mid.rename_path is Some ==> mid.rename_path == Some(path));
    assert forall|q: PathView| q != path implies !(#[trigger] mid.buffer.contains_key(q)) by {
        law_other_paths_untouched(s, first, q);
    }
    assert forall|q: PathView| q != path implies !(#[trigger] twice.state.buffer.contains_key(
        q,
    )) by {
        law_other_paths_untouched(s, first, q);
        law_other_paths_untouched(mid, second, q);
    }
    if twice.state.buffer.contains_key(path) == mid.buffer.contains_key(path) && (
    mid.buffer.contains_key(path) ==> emission(
        path,
        twice.state.buffer[path].dominant,
        twice.state.buffer[path].rename_from,
    ) == emission(path, mid.buffer[path].dominant, mid.buffer[path].rename_from)) {
        assert(pending(twice.state) =~= pending(mid));
    } else {
        assert(pending(twice.state).contains_key(path) == twice.state.buffer.contains_key(path));
        assert(pending(mid).contains_key(path) == mid.buffer.contains_key(path));
        if mid.buffer.contains_key(path) && twice.state.buffer.contains_key(path) {
            assert(pending(twice.state)[path] != pending(mid)[path]);
        }
    }
}

/// Delivering a raw event twice to a debouncer that has seen nothing
/// gives what delivering it once gives: the second delivery emits nothing
/// and leaves what will be released as it was. This holds exactly of the
/// raw events that [`repeat_is_absorbed`] describes.
#[verifier::rlimit(100)]
pub proof fn law_repeat_is_absorbed(delay: nat, first: Delivery, second: Delivery)
    requires
        delay > 0,
        second.path == first.path,
        second.op == first.op,
        second.cookie == first.cookie,
    ensures
        ({
            let once = deliver(initial(delay), first);
            let twice = deliver(once.state, second);
            repeat_is_absorbed(first, second) <==> (
            twice.out == Seq::<EventView>::empty() && pending(twice.state) == pending(once.state))
        }),
{
    let s = initial(delay);
    let mid = deliver(s, first).state;
    lemma_repeat_setup(delay, first, second);
    lemma_delivery(s, first);
    lemma_delivery(mid, second);
}

/// What one firing releases: the entry of its path as an event, unless the
/// firing was cancelled.
pub open spec fn released_by(slot: TimerSlot, buffer: Map<PathView, PendingView>) -> Seq<
    EventView,
> {
    if !slot.cancelled && buffer.contains_key(slot.path) {
        seq![emission(slot.path, buffer[slot.path].dominant, buffer[slot.path].rename_from)]
    } else {
        Seq::empty()
    }
}

/// What the first `n` firings of a queue release, in the order of the
/// queue.
pub open spec fn released(queue: Seq<TimerSlot>, buffer: Map<PathView, PendingView>, n: nat) -> Seq<
    EventView,
>
    decreases n,
{
    if n == 0 {
        Seq::empty()
    } else {
        released(queue, buffer, (n - 1) as nat) + released_by(queue[n - 1], buffer)
    }
}

proof fn lemma_released_front(queue: Seq<TimerSlot>, buffer: Map<PathView, PendingView>, n: nat)
    requires
        1 <= n <= queue.len(),
    ensures
        released(queue, buffer, n) == released_by(queue[0], buffer) + released(
            queue.drop_first(),
            buffer,
            (n - 1) as nat,
        ),
    decreases n,
{
    let rest = queue.drop_first();
    if n == 1 {
        assert(released(queue, buffer, 0) == Seq::<EventView>::empty());
        assert(released(rest, buffer, 0) == Seq::<EventView>::empty());
        assert(released(queue, buffer, 1) == released(queue, buffer, 0) + released_by(
            queue[0],
            buffer,
        ));
        assert(Seq::<EventView>::empty() + released_by(queue[0], buffer) =~= released_by(
            queue[0],
            buffer,
        ) + Seq::<EventView>::empty());
    } else {
        lemma_released_front(queue, buffer, (n - 1) as nat);
        assert(rest[n - 2] == queue[n - 1]);
        assert(released(rest, buffer, (n - 1) as nat) == released(rest, buffer, (n - 2) as nat)
            + released_by(rest[n - 2], buffer));
        assert((released_by(queue[0], buffer) + released(rest, buffer, (n - 2) as nat))
            + released_by(queue[n - 1], buffer) =~= released_by(queue[0], buffer) + (released(
            rest,
            buffer,
            (n - 2) as nat,
        ) + released_by(queue[n - 1], buffer)));
    }
}

proof fn lemma_released_frame(
    queue: Seq<TimerSlot>,
    buffer: Map<PathView, PendingView>,
    gone: PathView,
    n: nat,
)
    requires
        n <= queue.len(),
        forall|k: int| 0 <= k < n && !(#[trigger] queue[k]).cancelled ==> queue[k].path != gone,
    ensures
        released(queue, buffer.remove(gone), n) == released(queue, buffer, n),
    decreases n,
{
    if n > 0 {
        lemma_released_frame(queue, buffer, gone, (n - 1) as nat);
        assert(!queue[n - 1].cancelled ==> queue[n - 1].path != gone);
    }
}

/// Firing releases what is due, in the order of the queue, which is by
/// deadline and then by timer id: the firings whose deadline is at most
/// `now` leave the queue, each one that was not cancelled releases the
/// entry of its path, and every firing that stays is due later.
pub proof fn law_fire_releases_due(s: State, now: nat)
    requires
        state_wf(s),
    ensures
        fire(s, now).out == released(s.timer.queue, s.buffer, due_prefix(s.timer.queue, now)),
        due_prefix(s.timer.queue, now) <= s.timer.queue.len(),
        fire(s, now).state.timer.queue == s.timer.queue.skip(
            due_prefix(s.timer.queue, now) as int,
        ),
        forall|k: int|
            0 <= k < fire(s, now).state.timer.queue.len() ==> (#[trigger] fire(
                s,
                now,
            ).state.timer.queue[k]).deadline > now,
    decreases s.timer.queue.len(),
{
    let queue = s.timer.queue;
    if queue.len() > 0 && queue[0].deadline <= now {
        let first = fire_head(s);
        let rest = queue.drop_first();
        lemma_fire_head(s);
        law_fire_releases_due(first.state, now);
        let n = due_prefix(queue, now);
        assert(n == 1 + due_prefix(rest, now));
        lemma_released_front(queue, s.buffer, n);
        assert(first.out == released_by(queue[0], s.buffer));
        if !queue[0].cancelled {
            assert forall|k: int| 0 <= k < n - 1 && !(#[trigger] rest[k]).cancelled implies rest[k].path
                != queue[0].path by {
                assert(rest[k] == queue[k + 1]);
                assert(queue[0].id != queue[k + 1].id);
            }
            lemma_released_frame(rest, s.buffer, queue[0].path, (n - 1) as nat);
        }
        assert(first.state.timer.queue.skip(due_prefix(rest, now) as int) =~= queue.skip(n as int));
    } else {
        assert(due_prefix(queue, now) == 0);
        assert(queue.skip(0) =~= queue);
        assert forall|k: int| 0 <= k < queue.len() implies (#[trigger] queue[k]).deadline > now by {
            if k > 0 {
                assert(fires_before(queue[0], queue[k]));
            }
        }
    }
}

/// What is done to a debouncer: a raw event is delivered, or what is due at
/// a time is fired.
pub enum Action {
    Deliver(Delivery),
    Fire(nat),
}

/// The state after an action.
pub open spec fn act(s: State, a: Action) -> State {
    match a {
        Action::Deliver(d) => deliver(s, d).state,
        Action::Fire(now) => fire(s, now).state,
    }
}

/// The state after the actions, one after the other.
pub open spec fn run(s: State, actions: Seq<Action>) -> State
    decreases actions.len(),
{
    if actions.len() == 0 {
        s
    } else {
        act(run(s, actions.drop_last()), actions.last())
    }
}

/// The invariant holds at every instant: after any deliveries and firings,
/// in any order, from a debouncer that has seen nothing. With
/// [`law_one_live_timer`], no path ever has two live timers.
pub proof fn law_invariant_always(delay: nat, actions: Seq<Action>)
    requires
        delay > 0,
    ensures
        state_wf(run(initial(delay), actions)),
    decreases actions.len(),
{
    if actions.len() > 0 {
        law_invariant_always(delay, actions.drop_last());
        let before = run(initial(delay), actions.drop_last());
        match actions.last() {
            Action::Deliver(d) => {
                lemma_ingest(before, d.path, d.op, d.cookie, d.source_exists, d.path_exists, d.now);
            },
            Action::Fire(now) => {
                lemma_fire(before, now);
            },
        }
    }
}

/// How often the deliveries among the actions emit `e`.
pub open spec fn delivered(s: State, actions: Seq<Action>, e: EventView) -> nat
    decreases actions.len(),
{
    if actions.len() == 0 {
        0
    } else {
        delivered(s, actions.drop_last(), e) + match actions.last() {
            Action::Deliver(d) => count(deliver(run(s, actions.drop_last()), d).out, e),
            Action::Fire(_) => 0,
        }
    }
}

/// A write is queued for `path` before each of the actions.
pub open spec fn stays_written(s: State, actions: Seq<Action>, path: PathView) -> bool
    decreases actions.len(),
{
    actions.len() > 0 ==> stays_written(s, actions.drop_last(), path) && dominant_of(
        run(s, actions.drop_last()),
        path,
    ) == Some(Dominant::Write)
}

/// While a write stays queued for a path, it is not announced again: the
/// deliveries of a run emit no write notice for a path for which a write
/// is queued before each of them.
pub proof fn law_queued_write_is_not_announced(
    delay: nat,
    before: Seq<Action>,
    actions: Seq<Action>,
    path: PathView,
)
    requires
        delay > 0,
        stays_written(run(initial(delay), before), actions, path),
    ensures
        delivered(run(initial(delay), before), actions, EventView::NoticeWrite(path)) == 0,
    decreases actions.len(),
{
    let s = run(initial(delay), before);
    if actions.len() > 0 {
        law_queued_write_is_not_announced(delay, before, actions.drop_last(), path);
        lemma_run_wf(delay, before, actions.drop_last());
        match actions.last() {
            Action::Deliver(d) => {
                law_notice_write_once(run(s, actions.drop_last()), d, path);
            },
            Action::Fire(_) => {},
        }
    }
}

/// What is queued for `path` implies a removal notice, or says that the
/// file was only just created, at every stage of the delivery at which a
/// removal can be announced.
pub open spec fn stays_gone(s: State, d: Delivery, path: PathView) -> bool {
    forall|n: int|
        0 <= n < 6 ==> !remove_notice(dominant_of((#[trigger] stage(s, d, n)).state, path))
}

/// A removal that what is queued implies is not announced again: a delivery
/// emits no removal notice for a path that stays queued as a creation, a
/// rename or a removal through its stages.
pub proof fn law_implied_removal_is_not_announced(s: State, d: Delivery, path: PathView)
    requires
        state_wf(s),
        stays_gone(s, d, path),
    ensures
        count(deliver(s, d).out, EventView::NoticeRemove(path)) == 0,
{
    let e = EventView::NoticeRemove(path);
    lemma_delivery(s, d);
    assert(!remove_notice(dominant_of(stage(s, d, 0).state, path)));
    assert(!remove_notice(dominant_of(stage(s, d, 4).state, path)));
    assert(!remove_notice(dominant_of(stage(s, d, 5).state, path)));
    lemma_count_push(Seq::empty(), EventView::Rescan, e);
    assert(seq![EventView::Rescan] =~= Seq::<EventView>::empty().push(EventView::Rescan));
    if s.rename_path is Some {
        lemma_count_push(stage(s, d, 0).out, EventView::NoticeRemove(s.rename_path->0), e);
    }
    lemma_count_push(stage(s, d, 2).out, EventView::NoticeWrite(d.path), e);
    lemma_count_push(stage(s, d, 4).out, EventView::NoticeRemove(d.path), e);
    lemma_count_push(stage(s, d, 5).out, EventView::NoticeRemove(d.path), e);
}

/// The path stays queued as a creation, a rename or a removal through
/// every delivery among the actions.
pub open spec fn gone_throughout(s: State, actions: Seq<Action>, path: PathView) -> bool
    decreases actions.len(),
{
    actions.len() > 0 ==> gone_throughout(s, actions.drop_last(), path) && match actions.last() {
        Action::Deliver(d) => stays_gone(run(s, actions.drop_last()), d, path),
        Action::Fire(_) => true,
    }
}

/// Over any run, the removal of a path is not announced again while what
/// is queued for it implies the notice: the deliveries of a run through
/// which the path stays queued as a creation, a rename or a removal emit
/// no removal notice for it.
pub proof fn law_queued_removal_is_not_announced(
    delay: nat,
    before: Seq<Action>,
    actions: Seq<Action>,
    path: PathView,
)
    requires
        delay > 0,
        gone_throughout(run(initial(delay), before), actions, path),
    ensures
        delivered(run(initial(delay), before), actions, EventView::NoticeRemove(path)) == 0,
    decreases actions.len(),
{
    let s = run(initial(delay), before);
    if actions.len() > 0 {
        law_queued_removal_is_not_announced(delay, before, actions.drop_last(), path);
        lemma_run_wf(delay, before, actions.drop_last());
        match actions.last() {
            Action::Deliver(d) => {
                law_implied_removal_is_not_announced(run(s, actions.drop_last()), d, path);
            },
            Action::Fire(_) => {},
        }
    }
}

/// The invariant holds after a run that follows another.
pub proof fn lemma_run_wf(delay: nat, before: Seq<Action>, actions: Seq<Action>)
    requires
        delay > 0,
    ensures
        state_wf(run(run(initial(delay), before), actions)),
    decreases actions.len(),
{
    let s = run(initial(delay), before);
    if actions.len() == 0 {
        law_invariant_always(delay, before);
    } else {
        lemma_run_wf(delay, before, actions.drop_last());
        let at = run(s, actions.drop_last());
        match actions.last() {
            Action::Deliver(d) => {
                lemma_ingest(at, d.path, d.op, d.cookie, d.source_exists, d.path_exists, d.now);
            },
            Action::Fire(now) => {
                lemma_fire(at, now);
            },
        }
    }
}

} // verus!
