//! NSON is a compact, self-describing binary serialization of JSON-like
//! documents.  Like JSON it nests maps and arrays inside other maps and
//! arrays; unlike JSON it distinguishes 8/16/32/64-bit signed and unsigned
//! integers and 32/64-bit floating payloads, and adds binary blobs,
//! timestamps and opaque 12-byte identifiers.
//!
//! The crate is organised around a small wire grammar:
//! [`wire`] fixes the one-byte type tags, [`model`] gives the mathematical
//! model of a value tree, [`format`] states the exact bytes every value
//! encodes to and how a byte buffer parses back, and [`encode`] / [`decode`]
//! are the executable codec, each proved against that statement.
//! [`roundtrip`] holds the public laws: decoding an encoding yields the
//! original tree, and the declared size accounting is exact.
//! [`bridge`] converts between structured data (structs, tuples,
//! enumerations, sequences, optional values) and value trees, including the
//! sigil-map escape that carries timestamps, identifiers and binary blobs
//! through that generic path.

use vstd::prelude::*;

pub mod array;
pub mod bridge;
pub mod cursor;
pub mod decode;
pub mod encode;
pub mod format;
pub mod hex;
pub mod id;
pub mod message;
pub mod model;
pub mod roundtrip;
pub mod util;
pub mod value;
pub mod wire;

pub use array::Array;
pub use id::Id;
pub use message::Message;
pub use value::{Binary, TimeStamp, Value};

verus! {

/// Largest length a wire-level length field may declare, in bytes.
pub const MAX_NSON_SIZE: u32 = 64 * 1024 * 1024;

/// Smallest length a container's length field may declare: the field itself
/// plus the terminator byte.
pub const MIN_NSON_SIZE: u32 = 4 + 1;

} // verus!
