use vstd::prelude::*;

verus! {

/// The error taxonomy of the client. Errors propagate unchanged; only the
/// program driver maps them to exit codes and messages.
#[derive(Clone, Copy, Debug, PartialEq, Eq, Structural)]
pub enum Error {
    /// An underlying socket I/O error (raised by the unverified I/O shell).
    TCPConnection,
    /// A short or zero-byte read: the peer truncated the stream.
    MissingRead,
    /// A short write.
    MissingWrite,
    /// The tagged completion line was not `OK`.
    CommandFailed,
    /// A FETCH operation's `CommandFailed`, mapped for the user.
    MessageNotFound,
    /// A header field lacks `": "`, or carries an unknown field name.
    MalformedHeader,
    /// No recognized `text/plain` part in a BODYSTRUCTURE response.
    MimeMatchFail,
    /// The MIME-Version or Content-Type header did not match.
    MimeHeaderMatchFail,
    /// An internal invariant was violated; surfaced rather than crashing.
    Infallible,
}

} // verus!
