//! Value translation for a binding to a native display object.
//!
//! The native display library speaks in C integers and NUL-terminated byte
//! strings. This crate holds the pure conversions between those raw values
//! and Rust values, each with a contract that pins its result.

pub mod translate;
