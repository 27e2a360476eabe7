use vstd::prelude::*;

verus! {

/// The kind of identity that a request referred to and that does not exist.
#[derive(Debug, Clone, Copy, PartialEq, Eq, Structural)]
pub enum Entity {
    User { uuid: u128 },
    Device { uuid: u128 },
}

/// Failures that are never shown to the client in detail.
#[derive(Debug, Clone, Copy, PartialEq, Eq, Structural)]
pub enum InternalError {
    /// The store refused a write (a key that must be unique was taken, an id ran out).
    DatabaseError,
    /// No connection to the store could be had in time.
    PoolError,
    /// A blocking task was cancelled before it finished.
    AsyncError,
    /// The randomness source failed.
    RNGError,
    /// Shared server state that a handler needs was not set up.
    ServerDataError,
    /// Any other failure.
    JustAnError,
}

/// Every way in which a request can be rejected.
#[derive(Debug, Clone)]
pub enum HandlerError {
    SessionExpired,
    /// The nonce is absent, expired or already consumed.
    SessionInvalid,
    UnknownEntity { entity: Entity },
    /// The signature over the nonce does not verify.
    AuthenticationError,
    MalformedHeader { name: String },
    MalformedBody { error_message: String },
    InternalError { error: InternalError },
    /// A signed prekey does not verify against the identity key.
    SignatureMismatch,
    RecordMustBeUnique { name: String },
    /// The user has no one-time prekey left to hand out.
    InsufficientPrekeys,
}

impl HandlerError {
    /// The HTTP status that a rejection with this error carries.
    pub open spec fn status_spec(&self) -> u16 {
        match self {
            HandlerError::SessionExpired => 401,
            HandlerError::SessionInvalid => 401,
            HandlerError::UnknownEntity { .. } => 400,
            HandlerError::AuthenticationError => 401,
            HandlerError::MalformedHeader { .. } => 400,
            HandlerError::MalformedBody { .. } => 400,
            HandlerError::InternalError { .. } => 500,
            HandlerError::SignatureMismatch => 400,
            HandlerError::RecordMustBeUnique { .. } => 409,
            HandlerError::InsufficientPrekeys => 404,
        }
    }

    pub fn status_code(&self) -> (r: u16)
        ensures
            r == self.status_spec(),
    {
        match self {
            HandlerError::SessionExpired => 401,
            HandlerError::SessionInvalid => 401,
            HandlerError::UnknownEntity { .. } => 400,
            HandlerError::AuthenticationError => 401,
            HandlerError::MalformedHeader { .. } => 400,
            HandlerError::MalformedBody { .. } => 400,
            HandlerError::InternalError { .. } => 500,
            HandlerError::SignatureMismatch => 400,
            HandlerError::RecordMustBeUnique { .. } => 409,
            HandlerError::InsufficientPrekeys => 404,
        }
    }

    /// A header that is missing or cannot be decoded.
    pub fn malformed_header(name: &str) -> (r: HandlerError)
        ensures
            r matches HandlerError::MalformedHeader { name: n } && n@ == name@,
    {
        HandlerError::MalformedHeader { name: name.to_string() }
    }
}

impl From<InternalError> for HandlerError {
    fn from(e: InternalError) -> (r: HandlerError)
        ensures
            r == (HandlerError::InternalError { error: e }),
    {
        HandlerError::InternalError { error: e }
    }
}

impl vstd::std_specs::convert::FromSpecImpl<InternalError> for HandlerError {
    open spec fn obeys_from_spec() -> bool {
        true
    }

    open spec fn from_spec(e: InternalError) -> HandlerError {
        HandlerError::InternalError { error: e }
    }
}

} // verus!
