//! The error kinds shared by the codec, the parser and the proxy cycle.

use vstd::prelude::*;

verus! {

/// Everything that can go wrong while decoding a message or running one
/// query/response cycle. None of these is fatal: each aborts one cycle only.
#[derive(Clone, Copy, Debug, PartialEq, Eq, Structural)]
pub enum DnsError {
    /// Not enough bytes remain for the variable-length field being read
    /// (a label, a compression pointer or the data of a record).
    TruncatedBuffer,
    /// A length byte names a label longer than 63 bytes without being the
    /// first byte of a compression pointer.
    InvalidLabel,
    /// A compression pointer does not lead strictly backwards, leads to an
    /// offset already visited while decoding the same name, or the chain of
    /// pointers is longer than the permitted number of hops.
    CompressionLoop,
    /// A read of a fixed-width field would move the cursor to `offset`, past
    /// the `len` bytes of the buffer.
    OutOfBounds { offset: usize, len: usize },
    /// A section count in the header disagrees with the number of entries
    /// that are there: bytes are left behind the last entry counted, or a
    /// message to be written holds a section of another length than its
    /// header says.
    MalformedCounts,
    /// No matching response arrived before the deadline.
    UpstreamTimeout,
    /// A send on the transport failed.
    TransportError,
}

} // verus!
