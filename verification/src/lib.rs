//! A verified core for observing media-playback sessions.
//!
//! An operating-system service (the *provider*) knows which applications
//! currently control media playback. This crate holds the decisions that
//! sit between that provider and any number of observers:
//!
//! * [`media`] and [`projection`]: the normalized snapshot of one session
//!   and how it is derived from what the provider let us read;
//! * [`registry`]: the record of the sessions this system is subscribed to;
//! * [`reconciler`]: the difference between the provider's live sessions
//!   and the registry, and what one pass over it leaves behind;
//! * [`dispatcher`]: the five append-only subscriber lists and the
//!   fan-out of one event;
//! * [`queries`]: answers about the live sessions, past the registry;
//! * [`monitor`]: the facade that ties them together;
//! * [`guarantees`]: what holds of every reconciliation pass.
//!
//! The crate performs no input or output. Callers talk to the provider,
//! hand over what they read as plain values, and carry out the deliveries
//! that the functions here return.
pub mod dispatcher;
pub mod guarantees;
pub mod media;
pub mod monitor;
pub mod projection;
pub mod queries;
pub mod reconciler;
pub mod registry;

pub use dispatcher::{Dispatch, Dispatcher, Event, EventKind};
pub use media::{MediaInfo, PlaybackStatus, PlaybackType};
pub use monitor::{Arrival, MonitorError, Pass, PropertyChange, Provided, SMTCMonitor};
pub use projection::{GenreListing, ProjectionError, Property, RawProperties, ThumbnailTransfer};
pub use reconciler::Delta;
pub use registry::{Registry, SessionEntry};
