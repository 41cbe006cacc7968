//! Holding what a program did against what it was expected to do.

pub mod binary_string;
pub mod expected;
pub mod hashmap;
pub mod log;
pub mod numbers;
pub mod serde_regex;
pub mod serialize_as_regex_string;
pub mod string;
