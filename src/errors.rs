//! Error kinds of discovery and of the wire codec.
use vstd::prelude::*;

verus! {

/// Why a DNS message could not be decoded.
#[derive(Debug, Clone, Copy, PartialEq, Eq, Structural)]
pub enum ParseError {
    /// The buffer ended inside a header, name, record or question.
    Truncated,
    /// A length byte that is neither a label length (0 to 63) nor a pointer.
    BadLabel,
    /// A label whose bytes are not UTF-8.
    BadUtf8,
    /// A compression pointer that does not point strictly backwards.
    BadPointer,
    /// Record data whose length does not fit its type.
    BadRdata,
}

/// Errors of the discovery service.
#[derive(Debug)]
pub enum MdnsError {
    /// Socket creation, bind, multicast join, send or receive failed.
    NetworkError(String),
    /// A malformed DNS packet.
    Parse(ParseError),
    /// A name with an empty label, a label over 63 bytes, or over 255 bytes in all.
    InvalidName,
    /// A node already holds this address under another id.
    IpConflict { ip: String, holder: String },
    /// A service whose node id is not its origin without trailing dots.
    InvalidRecord,
    /// Any other failure, with a message.
    Generic(String),
}

} // verus!
