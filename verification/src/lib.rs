//! A bounded, fixed-slot message channel between one writer and one reader.
//!
//! A [`QueueingPort`] keeps fixed-width byte messages in a circular buffer
//! of `capacity` slots. `enqueue` fills the slot under the write cursor,
//! `dequeue` hands out and clears the slot under the read cursor, and both
//! return at once: a full or empty port is reported as an error value, never
//! waited for.
//!
//! Both operations take the port by `&mut`, so the capacity check, the slot
//! access, the cursor advance and the occupancy update of one call are a
//! single step for every other caller. Contexts that share a port wrap it in
//! a lock of their choice and retry on `QueueFull` / `QueueEmpty` as they
//! see fit.

pub mod error;
pub mod history;
pub mod message;
pub mod model;
pub mod port;
pub mod store;

pub use error::QueueError;
pub use message::Message;
pub use model::{PortModel, PortPhase};
pub use port::QueueingPort;
pub use store::BackingStore;
