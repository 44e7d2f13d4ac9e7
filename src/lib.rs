//! Addressing and searching locations inside a JSON document tree.
//!
//! A [`json_path::JsonPath`] names one exact location; a
//! [`json_search::JsonSearch`] is a pattern that may hold wildcards and
//! resolves to every location that matches it.

pub mod json_path;
pub mod json_search;
pub mod json_value;
pub mod text;
