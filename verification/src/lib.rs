//! A small data-collector library: sensor readings arrive as JSON over HTTP,
//! are stamped with a server-side timestamp, and are turned into a single
//! write operation against a time-series store.
//!
//! Field values travel as JSON number tokens end to end, so the library keeps
//! each of the eight sensor fields as the bytes of its number token; the
//! surrounding binary converts tokens to the store client's field type when it
//! submits a write.

pub mod clock;
pub mod reading;
pub mod service;
pub mod wire;
