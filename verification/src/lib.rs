//! A JSON encoder core for Python values: a text writer with the indented
//! layout of Python's `json` module and configurable separators, the
//! decisions of how each kind of value is written, and the formatters that
//! those values need.

mod strings;
pub mod writer;
pub mod json_text;
pub mod numbers;
pub mod base64;
pub mod temporal;
pub mod ordering;
pub mod errors;
pub mod decode;
pub mod plan;
pub mod document;
pub mod convert;
pub mod reading;
