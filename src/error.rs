use vstd::prelude::*;

verus! {

/// The failures that the secure transport reports to its caller.
#[derive(Debug, PartialEq, Eq)]
pub enum Error {
    /// The URL cannot be parsed as an absolute URL, or cannot be written back.
    MalformedUrl,
    /// The upgrade request could not be built.
    RequestBuildError,
    /// The TLS, TCP or HTTP upgrade handshake failed; the cause is attached.
    ConnectError(String),
    /// Sending, receiving or upgrading failed on an open connection.
    TransportError(String),
}

} // verus!
