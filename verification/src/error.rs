//! The client's error taxonomy: exactly the four conditions an operation can
//! surface, each carrying enough detail to diagnose without re-issuing the call.

use vstd::prelude::*;

verus! {

/// Everything that can go wrong in one template-API round trip.
#[derive(Debug)]
pub enum SendgridError {
    /// The API key contains a character that is illegal in an HTTP header
    /// value, so no request could be built.
    InvalidCredential,
    /// The network or TLS layer failed before any response was obtained; the
    /// payload is the transport's own description of the failure.
    TransportFailure(String),
    /// The server answered with a non-2xx status; carries that status code and
    /// the raw response body text.
    RequestNotSuccessful(u16, String),
    /// A 2xx response body did not decode into the expected record shape;
    /// carries the raw body text.
    DeserializationFailure(String),
}

/// Result alias used by every operation of the client.
pub type SendgridResult<T> = Result<T, SendgridError>;

/// Model of a [`SendgridError`]: the same four conditions over character
/// sequences.
pub enum SpecError {
    InvalidCredential,
    TransportFailure(Seq<char>),
    RequestNotSuccessful(u16, Seq<char>),
    DeserializationFailure(Seq<char>),
}

impl View for SendgridError {
    type V = SpecError;

    open spec fn view(&self) -> SpecError {
        match self {
            SendgridError::InvalidCredential => SpecError::InvalidCredential,
            SendgridError::TransportFailure(m) => SpecError::TransportFailure(m@),
            SendgridError::RequestNotSuccessful(s, b) => SpecError::RequestNotSuccessful(*s, b@),
            SendgridError::DeserializationFailure(b) => SpecError::DeserializationFailure(b@),
        }
    }
}

} // verus!
