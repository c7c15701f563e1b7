//! The error taxonomy of the core.  Every fatal error aborts the
//! current invocation without partial effect; a codec tag mismatch is
//! surfaced as an absent value instead, never through this type.
use vstd::prelude::*;

verus! {

/// Why a core operation refused to proceed.
#[derive(Clone, Copy, Debug, PartialEq, Eq, Structural)]
pub enum CrossChainError {
    /// The caller is not the owner, or an inbound sender is not
    /// permitted to invoke the action.
    AuthorizationError,
    /// No destination entry exists for the requested pair, or no
    /// pending record matches an inbound response.
    NotRegisteredError,
    /// The relay collaborator failed to dispatch the call; no pending
    /// record is created.
    RelayDispatchError,
    /// An input that should denote bytes or a typed field does not.
    CodecMismatchError,
    /// The permission was already granted; double grants are refused
    /// so that they surface.
    AlreadyGrantedError,
}

impl CrossChainError {
    /// A short name for the error, for callers that print it.
    pub fn describe(&self) -> (r: &'static str)
        ensures
            r@ == match self {
                CrossChainError::AuthorizationError => "unauthorized"@,
                CrossChainError::NotRegisteredError => "not registered"@,
                CrossChainError::RelayDispatchError => "relay dispatch failed"@,
                CrossChainError::CodecMismatchError => "codec mismatch"@,
                CrossChainError::AlreadyGrantedError => "already granted"@,
            },
    {
        match self {
            CrossChainError::AuthorizationError => "unauthorized",
            CrossChainError::NotRegisteredError => "not registered",
            CrossChainError::RelayDispatchError => "relay dispatch failed",
            CrossChainError::CodecMismatchError => "codec mismatch",
            CrossChainError::AlreadyGrantedError => "already granted",
        }
    }
}

} // verus!
