//! IEEE 754 binary32 numbers as 32-bit patterns.
//!
//! Every finite binary32 value is an integer multiple of 2^-149. The modules
//! below read a pattern as that integer, state each operation as "compute
//! exactly, then round to the nearest representable value, ties to even" and
//! prove the integer code against that statement.

pub mod layout;
pub mod exact;
pub mod lemmas;
pub mod round;
pub mod arith;
pub mod order;
pub mod root;
pub mod convert;
pub mod laws;
pub mod error;
pub mod monotone;
