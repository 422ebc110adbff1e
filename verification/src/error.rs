//! What can go wrong, and how each failure is reported to a client.

use vstd::prelude::*;
use vstd::string::StringExecFns;

verus! {

/// An [`Error`] with its texts taken as sequences of characters.
pub enum ErrorView {
    InvalidInput(Seq<char>),
    Conflict,
    NotFound(Seq<char>),
    IoFailure,
    CapacityExhausted,
}

/// The failures of the service.
#[derive(Debug, PartialEq, Eq)]
pub enum Error {
    /// The submitted target is not a well-formed absolute URL. Holds the
    /// reason, in words.
    InvalidInput(String),
    /// The table already holds a link with the id that was to be inserted.
    /// The create handler answers it with another id and never reports it.
    Conflict,
    /// No link has the id that was looked up. Holds that id.
    NotFound(String),
    /// Storage could not be reached, or refused the operation.
    IoFailure,
    /// Every id that was tried for a new link was already in use.
    CapacityExhausted,
}

impl View for Error {
    type V = ErrorView;

    open spec fn view(&self) -> ErrorView {
        match self {
            Error::InvalidInput(reason) => ErrorView::InvalidInput(reason@),
            Error::Conflict => ErrorView::Conflict,
            Error::NotFound(id) => ErrorView::NotFound(id@),
            Error::IoFailure => ErrorView::IoFailure,
            Error::CapacityExhausted => ErrorView::CapacityExhausted,
        }
    }
}

impl Clone for Error {
    fn clone(&self) -> (copy: Self)
        ensures
            copy@ == self@,
    {
        match self {
            Error::InvalidInput(reason) => Error::InvalidInput(reason.clone()),
            Error::Conflict => Error::Conflict,
            Error::NotFound(id) => Error::NotFound(id.clone()),
            Error::IoFailure => Error::IoFailure,
            Error::CapacityExhausted => Error::CapacityExhausted,
        }
    }
}

impl ErrorView {
    /// The sentence that a client reads. Faults of the input name what was
    /// wrong with it; faults of the service say nothing of its insides.
    pub open spec fn message(self) -> Seq<char> {
        match self {
            ErrorView::InvalidInput(reason) => "Invalid url: "@ + reason,
            ErrorView::Conflict => "Id already in use"@,
            ErrorView::NotFound(id) => "No links match with "@ + id,
            ErrorView::IoFailure => "Storage failure"@,
            ErrorView::CapacityExhausted => "No free id left"@,
        }
    }

    /// Whether the client is at fault (a status of the 4xx class) rather than
    /// the service (5xx).
    pub open spec fn is_client_fault(self) -> bool {
        self is InvalidInput || self is NotFound
    }

    /// The HTTP status under which the failure is reported.
    pub open spec fn status(self) -> int {
        match self {
            ErrorView::InvalidInput(_) => 400,
            ErrorView::NotFound(_) => 404,
            ErrorView::Conflict => 500,
            ErrorView::IoFailure => 500,
            ErrorView::CapacityExhausted => 503,
        }
    }
}

impl Error {
    /// The sentence that goes into the `error` field of a failure body.
    pub fn message(&self) -> (text: String)
        ensures
            text@ == self@.message(),
    {
        match self {
            Error::InvalidInput(reason) => {
                let mut text = String::from_str("Invalid url: ");
                text.append(reason.as_str());
                text
            },
            Error::Conflict => String::from_str("Id already in use"),
            Error::NotFound(id) => {
                let mut text = String::from_str("No links match with ");
                text.append(id.as_str());
                text
            },
            Error::IoFailure => String::from_str("Storage failure"),
            Error::CapacityExhausted => String::from_str("No free id left"),
        }
    }

    /// Whether the failure is the client's fault.
    pub fn is_client_fault(&self) -> (client: bool)
        ensures
            client == self@.is_client_fault(),
    {
        match self {
            Error::InvalidInput(_) => true,
            Error::NotFound(_) => true,
            _ => false,
        }
    }

    /// The HTTP status under which the failure is reported.
    pub fn status(&self) -> (code: u16)
        ensures
            code == self@.status(),
            400 <= code < 600,
            code < 500 <==> self@.is_client_fault(),
    {
        match self {
            Error::InvalidInput(_) => 400,
            Error::NotFound(_) => 404,
            Error::Conflict => 500,
            Error::IoFailure => 500,
            Error::CapacityExhausted => 503,
        }
    }
}

} // verus!
