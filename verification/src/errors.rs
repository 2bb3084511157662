//! The error taxonomy of the proxy pipeline. Every failure terminates only
//! the connection being processed; the variants say which stage failed.

use vstd::prelude::*;

verus! {

/// What can go wrong while one captured segment is processed.
#[derive(Clone, Copy, PartialEq, Eq, Structural, Debug)]
pub enum ProxyError {
    /// The buffer is too short or its declared lengths are inconsistent
    /// with the buffer size.
    ParseError,
    /// The resulting TCP header would exceed the 60-byte maximum.
    EncodeError,
    /// The injected options cannot fit within the header-size budget.
    OptionOverflow,
    /// The upstream peer is unreachable.
    ConnectError,
    /// A read or write failed, including a short read on the response relay.
    IoError,
}

} // verus!
