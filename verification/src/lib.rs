//! A minimal, allocation-conscious formatted-output engine: a format string
//! is compiled once into a bounded sequence of literal and conversion
//! chunks, then merged with a cursor of tagged argument values into a
//! caller-owned, fixed-size, NUL-terminated output buffer.

pub mod atoi;
pub mod printf;
pub mod variadic;
