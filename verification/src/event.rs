//! The events that go in and come out.

use vstd::prelude::*;
use crate::op::Dominant;
use crate::op::Op;

verus! {

/// A path, as the sequence of its characters.
pub type PathView = Seq<char>;

/// What a backend reports when it could not deliver an operation.
#[derive(Debug)]
pub enum Error {
    /// A failure described by a message.
    Generic(String),
    /// An input or output failure, by its message.
    Io(String),
    /// The path does not exist.
    PathNotFound,
    /// The path is not watched.
    WatchNotFound,
}

/// The mathematical value of an [`Error`].
pub enum ErrorView {
    Generic(Seq<char>),
    Io(Seq<char>),
    PathNotFound,
    WatchNotFound,
}

impl View for Error {
    type V = ErrorView;

    open spec fn view(&self) -> ErrorView {
        match self {
            Error::Generic(m) => ErrorView::Generic(m@),
            Error::Io(m) => ErrorView::Io(m@),
            Error::PathNotFound => ErrorView::PathNotFound,
            Error::WatchNotFound => ErrorView::WatchNotFound,
        }
    }
}

/// A debounced event.
#[derive(Debug)]
pub enum Event {
    /// Emitted at once when a write to the path is first seen.
    NoticeWrite(String),
    /// Emitted at once when a removal or a rename of the path is first seen.
    NoticeRemove(String),
    /// The path was created, and then stayed quiet for the delay.
    Create(String),
    /// The path was written to, and then stayed quiet for the delay.
    Write(String),
    /// The attributes of the path changed, and then it stayed quiet for the delay.
    Chmod(String),
    /// The path was removed, and then stayed quiet for the delay.
    Remove(String),
    /// The first path was moved to the second, which then stayed quiet for the delay.
    Rename(String, String),
    /// The watched directories have to be scanned again.
    Rescan,
    /// A backend failure, with the path it was detected for, if any.
    Error(Error, Option<String>),
}

/// The mathematical value of an [`Event`].
pub enum EventView {
    NoticeWrite(PathView),
    NoticeRemove(PathView),
    Create(PathView),
    Write(PathView),
    Chmod(PathView),
    Remove(PathView),
    Rename(PathView, PathView),
    Rescan,
    Error(ErrorView, Option<PathView>),
}

/// The value of an optional path.
pub open spec fn opt_path_view(p: Option<String>) -> Option<PathView> {
    match p {
        Some(s) => Some(s@),
        None => None,
    }
}

impl View for Event {
    type V = EventView;

    open spec fn view(&self) -> EventView {
        match self {
            Event::NoticeWrite(p) => EventView::NoticeWrite(p@),
            Event::NoticeRemove(p) => EventView::NoticeRemove(p@),
            Event::Create(p) => EventView::Create(p@),
            Event::Write(p) => EventView::Write(p@),
            Event::Chmod(p) => EventView::Chmod(p@),
            Event::Remove(p) => EventView::Remove(p@),
            Event::Rename(a, b) => EventView::Rename(a@, b@),
            Event::Rescan => EventView::Rescan,
            Event::Error(e, p) => EventView::Error(e@, opt_path_view(*p)),
        }
    }
}

/// Two events compare equal when they are the same event and no error:
/// an error event equals nothing, itself included.
pub open spec fn events_equal(a: EventView, b: EventView) -> bool {
    a == b && !(a is Error)
}

impl PartialEq for Event {
    fn eq(&self, other: &Event) -> (r: bool) {
        match (self, other) {
            (Event::NoticeWrite(a), Event::NoticeWrite(b)) => *a == *b,
            (Event::NoticeRemove(a), Event::NoticeRemove(b)) => *a == *b,
            (Event::Create(a), Event::Create(b)) => *a == *b,
            (Event::Write(a), Event::Write(b)) => *a == *b,
            (Event::Chmod(a), Event::Chmod(b)) => *a == *b,
            (Event::Remove(a), Event::Remove(b)) => *a == *b,
            (Event::Rename(a1, a2), Event::Rename(b1, b2)) => *a1 == *b1 && *a2 == *b2,
            (Event::Rescan, Event::Rescan) => true,
            _ => false,
        }
    }
}

impl vstd::std_specs::cmp::PartialEqSpecImpl for Event {
    open spec fn obeys_eq_spec() -> bool {
        true
    }

    open spec fn eq_spec(&self, other: &Event) -> bool {
        events_equal(self@, other@)
    }
}

/// The values of a sequence of events, one by one.
pub open spec fn events_view(events: Seq<Event>) -> Seq<EventView> {
    Seq::new(events.len(), |i: int| events[i]@)
}

/// The event that a drained entry is released as.
pub open spec fn emission(path: PathView, dominant: Dominant, rename_from: Option<PathView>) -> EventView {
    match dominant {
        Dominant::Create => EventView::Create(path),
        Dominant::Write => EventView::Write(path),
        Dominant::Chmod => EventView::Chmod(path),
        Dominant::Remove => EventView::Remove(path),
        Dominant::Rename => match rename_from {
            Some(source) => EventView::Rename(source, path),
            None => EventView::Create(path),
        },
    }
}

/// A notification as a backend delivers it.
#[derive(Debug)]
pub struct RawEvent {
    /// The path the notification is about, if it is about one.
    pub path: Option<String>,
    /// The operations seen, or the failure.
    pub op: Result<Op, Error>,
    /// The identifier that links the two halves of a rename.
    pub cookie: Option<u32>,
}

/// The mathematical value of a [`RawEvent`].
pub struct RawEventView {
    pub path: Option<PathView>,
    pub op: Result<Op, ErrorView>,
    pub cookie: Option<u32>,
}

impl View for RawEvent {
    type V = RawEventView;

    open spec fn view(&self) -> RawEventView {
        RawEventView {
            path: opt_path_view(self.path),
            op: match self.op {
                Ok(op) => Ok(op),
                Err(e) => Err(e@),
            },
            cookie: self.cookie,
        }
    }
}

} // verus!
