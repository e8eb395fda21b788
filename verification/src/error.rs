//! Why reading a KiCad file failed.

use vstd::prelude::*;

verus! {

#[derive(Debug, Clone, PartialEq, Eq)]
pub enum ParseError {
    InvalidSExpr(String),
    MissingField(String),
    InvalidValue(String),
    /// An I/O failure, with its message.
    IoError(String),
    UnsupportedVersion(String),
}

/// A bare message is a malformed S-expression.
impl From<String> for ParseError {
    fn from(s: String) -> (r: ParseError) {
        ParseError::InvalidSExpr(s)
    }
}

impl vstd::std_specs::convert::FromSpecImpl<String> for ParseError {
    open spec fn obeys_from_spec() -> bool {
        true
    }

    open spec fn from_spec(s: String) -> ParseError {
        ParseError::InvalidSExpr(s)
    }
}

} // verus!
