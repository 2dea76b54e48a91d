//! Why a command could not be served, and how that is told to the user.

use vstd::prelude::*;
use vstd::string::StringExecFns;

verus! {

/// Why a command could not be served. Each variant holds the message of its cause.
#[derive(Debug)]
pub enum HandlerError {
    /// The chat transport failed.
    TelegramError(String),
    /// The user's arguments are malformed.
    InvalidArguments(String),
    /// The pricing service could not be reached or understood.
    NetworkError(String),
    /// The call to the pricing service failed on this side.
    ApiError(String),
}

/// A `HandlerError` with its message as a sequence of characters.
pub enum Failure {
    TelegramError(Seq<char>),
    InvalidArguments(Seq<char>),
    NetworkError(Seq<char>),
    ApiError(Seq<char>),
}

impl View for HandlerError {
    type V = Failure;

    open spec fn view(&self) -> Failure {
        match self {
            HandlerError::TelegramError(m) => Failure::TelegramError(m@),
            HandlerError::InvalidArguments(m) => Failure::InvalidArguments(m@),
            HandlerError::NetworkError(m) => Failure::NetworkError(m@),
            HandlerError::ApiError(m) => Failure::ApiError(m@),
        }
    }
}

/// A result with both sides taken by their views.
pub open spec fn outcome<T: View>(r: Result<T, HandlerError>) -> Result<T::V, Failure> {
    match r {
        Ok(v) => Ok(v@),
        Err(e) => Err(e@),
    }
}

/// A complaint about the user's arguments, with the literal `message`.
pub fn invalid(message: &str) -> (r: HandlerError)
    ensures
        r@ == Failure::InvalidArguments(message@),
{
    HandlerError::InvalidArguments(String::from_str(message))
}

/// A complaint about the user's arguments: `message` followed by the offending `text`.
pub fn invalid_with(message: &str, text: &str) -> (r: HandlerError)
    ensures
        r@ == Failure::InvalidArguments(message@ + text@),
{
    HandlerError::InvalidArguments(String::from_str(message).concat(text))
}

impl HandlerError {
    /// The text shown to the user.
    pub open spec fn text(self) -> Seq<char> {
        match self {
            HandlerError::TelegramError(m) => "Telegram Error: "@ + m@,
            HandlerError::InvalidArguments(m) => "Invalid Arguments: "@ + m@,
            HandlerError::NetworkError(m) => "API call error: "@ + m@,
            HandlerError::ApiError(m) => "API call return error response: "@ + m@,
        }
    }

    /// The text shown to the user.
    pub fn message(&self) -> (r: String)
        ensures
            r@ == self.text(),
    {
        match self {
            HandlerError::TelegramError(m) => String::from_str("Telegram Error: ").concat(
                m.as_str(),
            ),
            HandlerError::InvalidArguments(m) => String::from_str("Invalid Arguments: ").concat(
                m.as_str(),
            ),
            HandlerError::NetworkError(m) => String::from_str("API call error: ").concat(
                m.as_str(),
            ),
            HandlerError::ApiError(m) => String::from_str(
                "API call return error response: ",
            ).concat(m.as_str()),
        }
    }
}

/// Turns a failure with a message into a complaint about the user's arguments.
pub trait AsClientError<T> {
    spec fn client_outcome(self) -> Result<T, HandlerError> where Self: Sized;

    fn as_client_err(self) -> (r: Result<T, HandlerError>) where Self: Sized
        ensures
            r == self.client_outcome(),
    ;
}

/// Turns a failure with a message into a failure of the call to the pricing service.
pub trait AsInternalError<T> {
    spec fn internal_outcome(self) -> Result<T, HandlerError> where Self: Sized;

    fn as_internal_err(self) -> (r: Result<T, HandlerError>) where Self: Sized
        ensures
            r == self.internal_outcome(),
    ;
}

impl<T> AsClientError<T> for Result<T, String> {
    open spec fn client_outcome(self) -> Result<T, HandlerError> {
        match self {
            Ok(v) => Ok(v),
            Err(m) => Err(HandlerError::InvalidArguments(m)),
        }
    }

    fn as_client_err(self) -> (r: Result<T, HandlerError>) {
        match self {
            Ok(v) => Ok(v),
            Err(m) => Err(HandlerError::InvalidArguments(m)),
        }
    }
}

impl<T> AsInternalError<T> for Result<T, String> {
    open spec fn internal_outcome(self) -> Result<T, HandlerError> {
        match self {
            Ok(v) => Ok(v),
            Err(m) => Err(HandlerError::ApiError(m)),
        }
    }

    fn as_internal_err(self) -> (r: Result<T, HandlerError>) {
        match self {
            Ok(v) => Ok(v),
            Err(m) => Err(HandlerError::ApiError(m)),
        }
    }
}

} // verus!
