//! The sending side: what becomes of a raw event in each mode.

use vstd::prelude::*;
use crate::debounce::Debounce;
use crate::event::ErrorView;
use crate::event::Event;
use crate::event::EventView;
use crate::event::RawEvent;
use crate::event::RawEventView;
use crate::event::events_view;
use crate::model::State;
use crate::model::can_ingest;
use crate::model::ingest;
use crate::op::Op;

verus! {

/// The three modes of the sending side.
pub enum EventTx {
    /// Raw events are passed on as they are.
    Raw,
    /// Raw events are coalesced.
    Debounced { debounce: Debounce },
    /// Rescans and errors are passed on; nothing is coalesced.
    DebouncedTx,
}

/// The mathematical value of an [`EventTx`].
pub enum EventTxView {
    Raw,
    Debounced(State),
    DebouncedTx,
}

impl View for EventTx {
    type V = EventTxView;

    open spec fn view(&self) -> EventTxView {
        match self {
            EventTx::Raw => EventTxView::Raw,
            EventTx::Debounced { debounce } => EventTxView::Debounced(debounce@),
            EventTx::DebouncedTx => EventTxView::DebouncedTx,
        }
    }
}

/// What a call of [`EventTx::send`] puts on the output channel.
#[derive(Debug)]
pub enum Sent {
    /// The raw event, unchanged.
    Raw(RawEvent),
    /// Debounced events, in the order they are to be emitted.
    Debounced(Vec<Event>),
}

/// The mathematical value of a [`Sent`].
pub enum SentView {
    Raw(RawEventView),
    Debounced(Seq<EventView>),
}

impl View for Sent {
    type V = SentView;

    open spec fn view(&self) -> SentView {
        match self {
            Sent::Raw(raw) => SentView::Raw(raw@),
            Sent::Debounced(events) => SentView::Debounced(events_view(events@)),
        }
    }
}

/// The raw event is the signal to scan everything again: a rescan and
/// nothing else, with no path. A cookie that comes with it is of no
/// account.
pub open spec fn is_rescan_signal(raw: RawEventView) -> bool {
    raw.path is None && raw.op == Ok::<Op, ErrorView>(Op::spec_rescan())
}

/// What the debounced modes pass on at once for a raw event that is not
/// coalesced: a rescan signal as a rescan, a failure as an error event with
/// the path it came with, and nothing for anything else.
pub open spec fn forwarded(raw: RawEventView) -> Seq<EventView> {
    match raw.op {
        Err(e) => seq![EventView::Error(e, raw.path)],
        Ok(_) => if is_rescan_signal(raw) {
            seq![EventView::Rescan]
        } else {
            Seq::empty()
        },
    }
}

/// The raw event is coalesced in debounced mode: it has a path and is no
/// failure.
pub open spec fn is_coalesced(raw: RawEventView) -> bool {
    raw.path is Some && raw.op is Ok
}

/// The mode after a raw event was sent.
pub open spec fn sent_state(
    tx: EventTxView,
    raw: RawEventView,
    source_exists: bool,
    path_exists: bool,
    now: nat,
) -> EventTxView {
    match tx {
        EventTxView::Debounced(s) => if is_coalesced(raw) {
            EventTxView::Debounced(
                ingest(
                    s,
                    raw.path->0,
                    raw.op->Ok_0,
                    raw.cookie,
                    source_exists,
                    path_exists,
                    now,
                ).state,
            )
        } else {
            tx
        },
        _ => tx,
    }
}

/// What goes on the output channel when a raw event is sent.
pub open spec fn sent_output(
    tx: EventTxView,
    raw: RawEventView,
    source_exists: bool,
    path_exists: bool,
    now: nat,
) -> SentView {
    match tx {
        EventTxView::Raw => SentView::Raw(raw),
        EventTxView::Debounced(s) => if is_coalesced(raw) {
            SentView::Debounced(
                ingest(
                    s,
                    raw.path->0,
                    raw.op->Ok_0,
                    raw.cookie,
                    source_exists,
                    path_exists,
                    now,
                ).out,
            )
        } else {
            SentView::Debounced(forwarded(raw))
        },
        EventTxView::DebouncedTx => if is_coalesced(raw) {
            SentView::Debounced(Seq::empty())
        } else {
            SentView::Debounced(forwarded(raw))
        },
    }
}

fn forward(event: RawEvent) -> (out: Vec<Event>)
    requires
        !is_coalesced(event@),
    ensures
        events_view(out@) == forwarded(event@),
{
    let mut out: Vec<Event> = Vec::new();
    match event.op {
        Err(e) => {
            out.push(Event::Error(e, event.path));
        },
        Ok(op) => {
            let only_rescan = op.rescan && !op.create && !op.write && !op.chmod && !op.rename
                && !op.remove;
            if only_rescan && event.path.is_none() {
                out.push(Event::Rescan);
            }
        },
    }
    assert(events_view(out@) =~= forwarded(event@));
    out
}

impl EventTx {
    /// The debouncer of the debounced mode keeps its invariant.
    pub open spec fn wf(&self) -> bool {
        match self {
            EventTx::Debounced { debounce } => debounce.wf(),
            _ => true,
        }
    }

    /// There is room for the timers of one more raw event at time `now`.
    /// Only an event that is coalesced arms timers.
    pub open spec fn spec_can_send(&self, now: u64) -> bool {
        match self {
            EventTx::Debounced { debounce } => can_ingest(debounce@, now as nat),
            _ => true,
        }
    }

    #[verifier::when_used_as_spec(spec_can_send)]
    pub fn can_send(&self, now: u64) -> (r: bool)
        ensures
            r == self.spec_can_send(now),
    {
        match self {
            EventTx::Debounced { debounce } => debounce.can_ingest(now),
            _ => true,
        }
    }

    /// Sends one raw event, at time `now`, and returns what goes on the
    /// output channel.
    ///
    /// In raw mode that is the event itself. In debounced mode an event
    /// with a path and no failure is coalesced, and the notices come back;
    /// `source_exists` and `path_exists` are the answers that
    /// [`Debounce::event`] asks for. Of the other events a rescan signal
    /// and a failure are passed on, and the rest is dropped.
    pub fn send(&mut self, event: RawEvent, source_exists: bool, path_exists: bool, now: u64) -> (r:
        Sent)
        requires
            old(self).wf(),
            is_coalesced(event@) ==> old(self).spec_can_send(now),
        ensures
            final(self).wf(),
            final(self)@ == sent_state(old(self)@, event@, source_exists, path_exists, now as nat),
            r@ == sent_output(old(self)@, event@, source_exists, path_exists, now as nat),
    {
        match self {
            EventTx::Raw => Sent::Raw(event),
            EventTx::Debounced { debounce } => {
                if event.path.is_some() && event.op.is_ok() {
                    let RawEvent { path, op, cookie } = event;
                    match (path, op) {
                        (Some(path), Ok(op)) => Sent::Debounced(
                            debounce.event(path, op, cookie, source_exists, path_exists, now),
                        ),
                        _ => Sent::Debounced(Vec::new()),
                    }
                } else {
                    Sent::Debounced(forward(event))
                }
            },
            EventTx::DebouncedTx => {
                if event.path.is_some() && event.op.is_ok() {
                    let out: Vec<Event> = Vec::new();
                    assert(events_view(out@) =~= Seq::empty());
                    Sent::Debounced(out)
                } else {
                    Sent::Debounced(forward(event))
                }
            },
        }
    }
}

} // verus!
