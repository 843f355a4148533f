//! JSON values, their compact text, and a reader for JSON text.

pub mod value;
pub mod writer;
pub mod parser;
pub mod round_trip;
pub mod access;
