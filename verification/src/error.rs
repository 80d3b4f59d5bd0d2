use vstd::prelude::*;

verus! {

/// Errors surfaced by the gateway client and the orchestration layers.
///
/// `NotConfigured` reports missing or unusable client setup, `Transport` a
/// network-level failure, `Api` a non-2xx gateway response carrying the HTTP
/// status and response body, and `ParseFailure` a malformed JSON body in an
/// otherwise successful response.
#[derive(Debug, Clone, PartialEq, Eq)]
pub enum SoulseekError {
    NotConfigured,
    Transport(String),
    Api { status: u16, message: String },
    ParseFailure(String),
}

impl SoulseekError {
    /// True exactly when this is a gateway response with HTTP status 404.
    pub fn is_not_found(&self) -> (r: bool)
        ensures
            r == (self matches SoulseekError::Api { status, .. } && status == 404u16),
    {
        match self {
            SoulseekError::Api { status, .. } => *status == 404u16,
            _ => false,
        }
    }
}

} // verus!
