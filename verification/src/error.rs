//! The library's error type.
use vstd::prelude::*;

verus! {

/// Errors of the library. The variants carry their user-facing message.
#[derive(Debug)]
pub enum AQBotError {
    /// Something the caller asked for does not exist.
    NotFound(String),
    /// An I/O operation failed; the message is the operating system's.
    Io(String),
    /// A remote service, a file format or a database refused the request.
    Gateway(String),
}

/// An error as a value: its kind and message.
pub enum Failure {
    NotFound(Seq<char>),
    Io(Seq<char>),
    Gateway(Seq<char>),
}

impl View for AQBotError {
    type V = Failure;

    open spec fn view(&self) -> Failure {
        match self {
            AQBotError::NotFound(m) => Failure::NotFound(m@),
            AQBotError::Io(m) => Failure::Io(m@),
            AQBotError::Gateway(m) => Failure::Gateway(m@),
        }
    }
}

impl AQBotError {
    /// A copy of the error: the same kind and message.
    pub fn duplicate(&self) -> (r: AQBotError)
        ensures
            r@ == self@,
    {
        match self {
            AQBotError::NotFound(m) => AQBotError::NotFound(m.clone()),
            AQBotError::Io(m) => AQBotError::Io(m.clone()),
            AQBotError::Gateway(m) => AQBotError::Gateway(m.clone()),
        }
    }

    /// The message carried by the error.
    pub fn message(&self) -> (r: &String)
        ensures
            r == match self {
                AQBotError::NotFound(m) => m,
                AQBotError::Io(m) => m,
                AQBotError::Gateway(m) => m,
            },
    {
        match self {
            AQBotError::NotFound(m) => m,
            AQBotError::Io(m) => m,
            AQBotError::Gateway(m) => m,
        }
    }
}

} // verus!
