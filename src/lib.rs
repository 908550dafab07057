//! Packed arithmetic over the binary tower of fields GF(2), GF(2^2), GF(2^4), ...,
//! GF(2^128), with many scalars held in one 128-bit word.

pub mod lanes;
pub mod constants;
pub mod tower;
pub mod packed;
pub mod field;
pub mod underlier;
pub mod serialization;
pub mod circuit;
