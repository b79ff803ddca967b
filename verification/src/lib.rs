//! Codec for the legacy 8-byte date/time column layout of a tabular
//! database wire protocol.
//!
//! A native calendar value (date, time of day, or both) is serialized as a
//! signed little-endian 32-bit day count relative to 1900-01-01 followed by
//! an unsigned little-endian 32-bit count of 1/300-second ticks since
//! midnight.  Each native type declares the wire type tag and byte width it
//! expects, and a compatibility predicate decides whether a column's
//! reported descriptor may be decoded as that type.

pub mod codec;
pub mod date;
pub mod time_of_day;
pub mod wire;
