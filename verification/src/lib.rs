//! Verified core of a field data logger for a positioning daemon.
//!
//! The crate accumulates typed daemon reports into per-window observation
//! snapshots, keeps them in an append-only log, and encodes that log for
//! durable storage. Transport, file handling and argument parsing live
//! outside this library; the library works on plain values.

pub mod codec;
pub mod logbook;
pub mod observation;
pub mod report;
pub mod schedule;
