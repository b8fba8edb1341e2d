//! Error taxonomy of the client: every externally observable failure is a
//! value of this type, never a panic.

use vstd::prelude::*;

verus! {

/// Failures a client operation can surface.
///
/// - `Config`: unrecoverable startup misconfiguration.
/// - `Auth`: the authentication or refresh exchange failed; the caller must
///   re-authenticate.
/// - `Transport`: network-level failure; safely retryable.
/// - `Api`: the server answered with a non-2xx status.
/// - `ApiBody`: the server answered 2xx but the JSON body carried an `error`
///   field.
/// - `Decode`: the response did not match the expected shape.
/// - `Cancelled`: the user aborted the operation; distinct from failure.
#[derive(Debug, Clone, PartialEq, Eq)]
pub enum ClientError {
    Config(String),
    Auth(String),
    Transport(String),
    Api { status: u16, body: String },
    ApiBody { message: String },
    Decode(String),
    Cancelled,
}

impl ClientError {
    /// Short label naming the error category, for diagnostics.
    pub fn category(&self) -> (r: &'static str)
        ensures
            r@ == (match self {
                ClientError::Config(_) => "config"@,
                ClientError::Auth(_) => "auth"@,
                ClientError::Transport(_) => "transport"@,
                ClientError::Api { .. } => "api"@,
                ClientError::ApiBody { .. } => "api"@,
                ClientError::Decode(_) => "decode"@,
                ClientError::Cancelled => "cancelled"@,
            }),
    {
        match self {
            ClientError::Config(_) => "config",
            ClientError::Auth(_) => "auth",
            ClientError::Transport(_) => "transport",
            ClientError::Api { .. } => "api",
            ClientError::ApiBody { .. } => "api",
            ClientError::Decode(_) => "decode",
            ClientError::Cancelled => "cancelled",
        }
    }
}

} // verus!
