//! Debouncing core for filesystem change notifications.
//!
//! Raw change notifications arrive in bursts. This library coalesces the
//! operations seen on each path into one pending operation, pairs the two
//! halves of a rename by their cookie, hands out immediate notices for
//! writes and removals, and releases the coalesced event once a path has been
//! quiet for the configured delay.
//!
//! The library holds no clock and touches no file system: callers pass the
//! current time in milliseconds and the answers of the existence probes that
//! the rules ask for.

pub mod buffer;
pub mod debounce;
pub mod event;
pub mod event_tx;
pub mod preserve;
pub mod laws;
pub mod model;
pub mod op;
pub mod timer;

pub use crate::debounce::Debounce;
pub use crate::event::Error;
pub use crate::event::Event;
pub use crate::event::RawEvent;
pub use crate::event_tx::EventTx;
pub use crate::event_tx::Sent;
pub use crate::op::Dominant;
pub use crate::op::Op;
pub use crate::timer::WatchTimer;
