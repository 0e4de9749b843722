use vstd::prelude::*;

verus! {

/// The failure taxonomy of the library.
///
/// Every layer reports a typed failure instead of aborting: transport
/// failures, a reply that is not UTF-8, an unrecognizable envelope,
/// malformed markup, well-formed markup whose content has the wrong type,
/// an error message reported by the daemon itself, and a rejected or
/// failed authentication.
#[derive(Debug, PartialEq)]
pub enum Error {
    /// The daemon returned an explicit error message in its reply.
    Client(String),
    /// A reply parsed as markup but did not fit the expected shape.
    Deserialization(String),
    /// Well-formed markup whose text cannot be converted to the field's type.
    InvalidFormat,
    /// Malformed markup, with a human-readable description.
    InvalidXml(String),
    /// A transport failure, reported by the caller that owns the socket.
    Io(String),
    /// The reply envelope markers were not found.
    Rpc(String),
    /// The daemon rejected the call, or authentication failed.
    Unauthorized,
    /// A reply held bytes that are not valid UTF-8.
    UnsupportedEncoding,
}

} // verus!
