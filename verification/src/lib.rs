//! A small key-value store that speaks a RESP-like wire protocol.
//!
//! The crate holds the parts of the store that decide what bytes mean and
//! what survives a restart: the wire codec, the command grammar, the table
//! with its expiry rule, the framing of the durability log, and the
//! schedule of the maintenance jobs. Sockets, files and timers belong to the
//! program that embeds it.

mod clock;
pub mod commands;
pub mod error;
pub mod persistence;
pub mod resp;
pub mod round_trip;
pub mod scheduler;
pub mod server;
pub mod text;
