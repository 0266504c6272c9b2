use vstd::prelude::*;

verus! {

/// Every failure the engine reports; none is retried or replaced by a default.
#[derive(Debug, PartialEq, Eq)]
pub enum BrocaError {
    /// No configuration file was found.
    ConfigMissing,
    /// The configuration is malformed or names an unknown language.
    ConfigInvalid(String),
    /// A data operation was asked for before setup or a configuration load.
    NotConfigured,
    /// A workspace file or directory could not be read or written.
    WorkspaceIO(String),
    /// The index store could not be read or written.
    IndexIO(String),
    /// No row or file for the query.
    NotFound,
    /// The completion service rejected the credential.
    UpstreamUnauthorized,
    /// The completion service throttled the request.
    UpstreamRateLimited,
    /// The completion service's reply does not have the expected shape.
    UpstreamShapeMismatch,
    /// The answer inside the reply is not the expected JSON; holds the raw answer.
    UpstreamParseFailure(String),
    /// Any other non-success status, with the body of the reply.
    UpstreamOther(u16, String),
    /// Speech was asked for but no speech credentials are configured.
    SpeechNotConfigured,
    /// The speech service failed, with its message.
    SpeechUpstreamFailed(String),
}

} // verus!
