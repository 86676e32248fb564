//! The wire form of the protocol's messages: DER values, the encodings of
//! the basic types, and the calendar time that the messages carry.

pub mod der;
pub mod leaf;
pub mod time;
