//! Parsing and validation of XML Schema primitive datatypes over borrowed input.
//!
//! Value-space parsers read a scalar from the start of a string slice and hand
//! back the value with the unconsumed remainder; element-space parsers read
//! from a transactional token cursor. Both report "no match" as `Ok(None)` and
//! a facet or protocol violation as `Err`.

pub mod content;
pub mod context;
pub mod facets;
pub mod laws;
pub mod names;
pub mod numbers;
pub mod primitives;
pub mod stream;
