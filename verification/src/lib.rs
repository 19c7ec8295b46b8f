//! Decoding of vendor specific parameters.
//!
//! A header parser hands over an ordered list of name/value pairs. This crate
//! reads such a list in a single forward pass and builds the value that a
//! [`Shape`] asks for: a string, a boolean, an optional value or a record of
//! named fields.
//!
//! Every function states what it returns as a contract, over the
//! mathematical model in [`model`], and Verus proves each body against it.

pub mod text;
pub mod error;
pub mod pair;
pub mod shape;
pub mod model;
pub mod de;
pub mod laws;

pub use de::{from_header_array, HeaderDeserializer, KeyValueList};
pub use error::Error;
pub use pair::Pair;
pub use shape::{Field, Record, Shape, UnknownFields, Value};
