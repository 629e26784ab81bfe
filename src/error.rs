//! The ways a parse can fail.

use vstd::prelude::*;

verus! {

/// Why a request or a header line could not be parsed.
#[derive(Debug, Clone, Copy, PartialEq, Eq, Structural)]
pub enum ParseError {
    /// A header line has no colon, or nothing but whitespace before it.
    MalformedHeader,
    /// The request line has a method but no target.
    MalformedRequestLine,
    /// The request line holds no token at all.
    NoRequestLine,
}

} // verus!
