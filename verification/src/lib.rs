//! A small key-value server core speaking a subset of the Redis
//! serialization protocol: the wire codec, the command layer and an
//! expiring in-memory store, each with a machine-checked contract.
//!
//! Payloads, keys and values are byte strings. A request buffer is
//! decoded into a [`DataType`], planned into requests, carried out
//! against a [`DataMap`] at a reading of the [`Clock`], and answered by
//! the wire forms of the resulting [`Command`]s.

pub mod ascii;
pub mod clock;
pub mod command;
pub mod config;
pub mod decimal;
pub mod decode;
pub mod laws;
pub mod request;
pub mod roundtrip;
pub mod server;
pub mod store;
pub mod value;

pub use crate::clock::Clock;
pub use crate::command::{Command, CommandError};
pub use crate::decode::DecodeError;
pub use crate::request::{Plan, Request};
pub use crate::server::HandleError;
pub use crate::store::{DataMap, MapEntry, MapValue, MapValueTimer};
pub use crate::value::DataType;
