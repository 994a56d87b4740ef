use vstd::prelude::*;

verus! {

#[verifier::external_type_specification]
#[verifier::external_body]
pub struct ExIoError(std::io::Error);

/// What kind of error an `ErrorWrapper` carries.
#[derive(Clone, Copy, Debug, PartialEq, Eq, Structural)]
pub enum ErrorType {
    /// An error that can be shown to the player.
    DISPLAYABLE,
    /// An internal error message.
    INTERNAL,
    /// An input/output error.
    IO,
}

/// An error of the game: a message for the player, an internal message, or an
/// input/output error.
#[derive(Debug)]
pub struct ErrorWrapper {
    pub displayable_message: Option<String>,
    pub internal_message: Option<String>,
    pub io_error: Option<std::io::Error>,
    pub error_type: ErrorType,
}

impl ErrorWrapper {
    /// The message its type names is present.
    pub open spec fn wf(&self) -> bool {
        match self.error_type {
            ErrorType::INTERNAL => self.internal_message.is_some(),
            ErrorType::DISPLAYABLE => self.displayable_message.is_some(),
            ErrorType::IO => self.io_error.is_some(),
        }
    }

    /// The text of an internal or displayable error.
    pub open spec fn text(&self) -> Seq<char> {
        match self.error_type {
            ErrorType::INTERNAL => self.internal_message.unwrap()@,
            _ => self.displayable_message.unwrap()@,
        }
    }

    /// An internal error with the given message.
    pub fn new_internal(message: String) -> (e: ErrorWrapper)
        ensures
            e.wf(),
            e.error_type == ErrorType::INTERNAL,
            e.internal_message == Some(message),
            e.displayable_message == None::<String>,
            e.io_error.is_none(),
    {
        ErrorWrapper { displayable_message: None, internal_message: Some(message), io_error: None, error_type: ErrorType::INTERNAL }
    }

    /// An error for the player, with an internal message beside it.
    pub fn new_displayable(player_message: String, internal_message: String) -> (e: ErrorWrapper)
        ensures
            e.wf(),
            e.error_type == ErrorType::DISPLAYABLE,
            e.displayable_message == Some(player_message),
            e.internal_message == Some(internal_message),
            e.io_error.is_none(),
    {
        ErrorWrapper {
            displayable_message: Some(player_message),
            internal_message: Some(internal_message),
            io_error: None,
            error_type: ErrorType::DISPLAYABLE,
        }
    }

    /// A failed result carrying an internal error with the given message.
    pub fn internal_result<T>(message: String) -> (r: Result<T, ErrorWrapper>)
        ensures
            r matches Err(e) && e.wf() && e.error_type == ErrorType::INTERNAL && e.internal_message == Some(message)
                && e.displayable_message.is_none() && e.io_error.is_none(),
    {
        Err(ErrorWrapper::new_internal(message))
    }

    /// A failed result carrying an input/output error.
    pub fn io_error_result<T>(error: std::io::Error) -> (r: Result<T, ErrorWrapper>)
        ensures
            r matches Err(e) && e.wf() && e.error_type == ErrorType::IO && e.io_error == Some(error),
    {
        Err(ErrorWrapper::from(error))
    }

    /// The message of the error: the internal message, the player's message,
    /// or the text of the input/output error.
    pub fn to_string(&self) -> (s: String)
        requires
            self.wf(),
        ensures
            self.error_type != ErrorType::IO ==> s@ == self.text(),
    {
        match self.error_type {
            ErrorType::INTERNAL => self.internal_message.as_ref().unwrap().clone(),
            ErrorType::DISPLAYABLE => self.displayable_message.as_ref().unwrap().clone(),
            ErrorType::IO => self.io_error.as_ref().unwrap().to_string(),
        }
    }
}

/// The error carrying an input/output error.
pub open spec fn io_error_wrapper(io_error: std::io::Error) -> ErrorWrapper {
    ErrorWrapper { displayable_message: None, internal_message: None, io_error: Some(io_error), error_type: ErrorType::IO }
}

impl From<std::io::Error> for ErrorWrapper {
    fn from(io_error: std::io::Error) -> (e: ErrorWrapper) {
        ErrorWrapper { displayable_message: None, internal_message: None, io_error: Some(io_error), error_type: ErrorType::IO }
    }
}

impl vstd::std_specs::convert::FromSpecImpl<std::io::Error> for ErrorWrapper {
    open spec fn obeys_from_spec() -> bool {
        true
    }

    open spec fn from_spec(v: std::io::Error) -> ErrorWrapper {
        io_error_wrapper(v)
    }
}

/// A failed result carrying an internal error with the given message.
pub fn error_result<T>(message: String) -> (r: Result<T, ErrorWrapper>)
    ensures
        r matches Err(e) && e.wf() && e.error_type == ErrorType::INTERNAL && e.internal_message == Some(message)
            && e.displayable_message.is_none() && e.io_error.is_none(),
{
    Err(ErrorWrapper::new_internal(message))
}

} // verus!
