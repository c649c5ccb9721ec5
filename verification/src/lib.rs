//! The core of a tracing sink that turns selected spans and events into the
//! records of a compact trace log.
//!
//! The host hands each hook to the [`FtfLayer`] as plain values. The layer
//! decides whether the span or event is recorded and under which category,
//! interns the strings and the thread it names, and answers with an
//! [`Emission`]: the intern records to write, and the event record that
//! depends on them. The caller writes, and tells the layer what became of
//! the intern records. Where one could not be written, the event record
//! carries the value inline, and the record is sent again with the next
//! reference: no record of the log names an id that the log has not
//! introduced.

pub mod consistency;
pub mod draft;
pub mod emission;
pub mod field;
pub mod filter;
pub mod intern;
pub mod laws;
pub mod layer;
pub mod record;
pub mod session;
pub mod text;
pub mod visitor;

pub use crate::emission::{
    Delivery, Emission, PendingArgument, PendingEvent, PendingString, PendingThread,
};
pub use crate::field::{Field, FieldValue};
pub use crate::filter::{FtfFilter, SpanMetadata};
pub use crate::intern::{Interned, StringCache, ThreadCache, ThreadRegistry};
pub use crate::layer::{FtfLayer, FtfLayerConfig};
pub use crate::record::{Argument, Event, EventKind, Record, StringRef, ThreadRef};
pub use crate::visitor::ArgumentVisitor;
