//! Codec for ISO 8583 financial transaction messages in their hex/ASCII wire
//! form: a 4-digit message type indicator, a 64- or 128-bit presence bitmap
//! packed as hex digits, and a sequence of fixed-width or length-prefixed
//! data fields whose boundaries are computed from a field specification.

pub mod converter;
pub mod errors;
pub mod iso8583;
pub mod laws;
pub mod model;
pub mod specfile;
pub mod strpad;
pub mod validators;
