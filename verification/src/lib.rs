//! Embedded database layer with counters and unified write buffers.
//!
//! # Architecture
//!
//! - **Counters**: an array of numbers, persisted as a single blob.
//! - **Buffers**: two unified buffers (regular + TTL) for all tables, no per-table
//!   pools.
//! - **Read-through**: a lookup checks the buffers before it asks for the database.
//! - **No I/O**: an operation that needs something stored says what, and goes on
//!   when it is told how that went. Flushes are triggered manually or by size
//!   threshold.

pub mod buffer;
pub mod counter;
pub mod disk;
pub mod error;
pub mod laws;
pub mod path;
pub mod steps;
pub mod value;
pub mod wrapper;

pub use error::DbError;
pub use value::{serialize_value, strip_varint, StoredValue};
pub use wrapper::DBWrapper;
