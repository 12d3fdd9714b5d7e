//! Errors of the chat session.
use vstd::prelude::*;

verus! {

#[verifier::external_type_specification]
#[verifier::external_body]
pub struct ExIoError(std::io::Error);

/// What went wrong in a chat session.
#[derive(Debug)]
pub enum ClientError {
    /// Reading from or writing to the connection failed.
    IOError(std::io::Error),
    /// The operation needs a connected session.
    InvalidStateError(&'static str),
    /// A received line is not a well-formed message.
    ParsingError,
}

pub type ClientResult<T> = Result<T, ClientError>;

/// Relies on the `Display` impl of `std::io::Error`, for the text of an I/O error.
#[verifier::external_body]
fn io_error_text(e: &std::io::Error) -> (r: String) {
    e.to_string()
}

impl ClientError {
    /// The kind of the error followed by its details, as a line of text.
    pub fn to_message(&self) -> (r: String)
        ensures
            self is ParsingError ==> r@ == "ParsingError"@,
            self is InvalidStateError ==> r@ == "InvalidStateError: "@ + self->InvalidStateError_0@,
            self is IOError ==> "IOError: "@.is_prefix_of(r@),
    {
        match self {
            ClientError::IOError(e) => {
                let mut r = String::from_str("IOError: ");
                let t = io_error_text(e);
                r.append(t.as_str());
                r
            },
            ClientError::InvalidStateError(s) => {
                let mut r = String::from_str("InvalidStateError: ");
                r.append(s);
                r
            },
            ClientError::ParsingError => String::from_str("ParsingError"),
        }
    }

    /// A short description of the error.
    pub fn description(&self) -> (r: String)
        ensures
            self is ParsingError ==> r@ == "Error parsing IRC line"@,
            self is InvalidStateError ==> r@ == self->InvalidStateError_0@,
    {
        match self {
            ClientError::IOError(e) => io_error_text(e),
            ClientError::InvalidStateError(s) => String::from_str(s),
            ClientError::ParsingError => String::from_str("Error parsing IRC line"),
        }
    }

    /// The I/O error underneath, if there is one.
    pub fn cause(&self) -> (r: Option<&std::io::Error>)
        ensures
            r is Some <==> self is IOError,
            self is IOError ==> r == Some(&self->IOError_0),
    {
        match self {
            ClientError::IOError(e) => Some(e),
            _ => None,
        }
    }

    /// Wraps an I/O error.
    pub fn from(e: std::io::Error) -> (r: ClientError)
        ensures
            r == ClientError::IOError(e),
    {
        ClientError::IOError(e)
    }
}

} // verus!
