//! Decoding of the Informal Trace Format: JSON traces of model checkers, read
//! into typed values.
//!
//! - `wire`: the JSON document tree and how values are written in it.
//! - `value`: the value model, one node of a document.
//! - `bigint`: integers of any size.
//! - `decode`: the decode engine, from a value to a chosen Rust type.
//! - `trace`: trace documents, read and decoded state by state.
//! - `runner`: replaying a decoded trace against a live implementation.
pub mod bigint;
pub mod decode;
pub mod runner;
pub mod trace;
pub mod value;
pub mod wire;

pub use bigint::BigInt;
pub use decode::{decode_value, DecodeError, DecodeItfValue};
pub use runner::{RunError, Runner};
pub use trace::{from_str, json_from_str, trace_from_json, trace_from_str, Error, State, Trace};
pub use value::Value;
