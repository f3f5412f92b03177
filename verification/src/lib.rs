//! Decoding of a compact binary encoding that does not describe itself, guided
//! by a schema that was recorded from the type that produced it.
//!
//! A schema is recorded once, from the requests that a type makes while it
//! describes itself ([`schema_recorder`]). Later, bytes that were written by
//! that type are decoded under the schema into a value that can be inspected
//! without the type ([`deserialize`]).

pub mod codec;
pub mod deserialize;
pub mod encoding;
pub mod error;
pub mod round_trip;
pub mod schema;
pub mod schema_recorder;
pub mod theorems;
pub mod value;

pub use crate::deserialize::{bincode_read_dynamic, read_dynamic};
pub use crate::error::{DecodeError, IoCause, RecorderError};
pub use crate::schema::{Schema, StructSchema};
pub use crate::schema_recorder::{record_schema, Kind, Request};
pub use crate::value::DynamicValue;
