//! A parser for URLs and relative references: it validates a byte sequence
//! against the generic URI grammar and splits it into scheme, userinfo, host,
//! port, path, query and fragment.
//!
//! The grammar is that of generic URI references, not the WHATWG URL
//! standard: no component is normalized but the scheme, which is put in
//! lower case; nothing is percent-decoded; no default port is inferred; and
//! a `%` passes through unchecked. Every component but the scheme is a slice
//! of the input, and an absent component is told apart from an empty one.
pub mod scan;
pub mod model;
pub mod encoding;
pub mod url;
pub mod laws;

pub use model::ParseError;
pub use url::{parse_bytes, parse_url, ParsedUrl};
