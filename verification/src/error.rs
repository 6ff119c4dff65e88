//! The library's error type.
use vstd::prelude::*;

verus! {

/// An error shown to the user as its message.
#[derive(Debug)]
pub enum AppError {
    Message(String),
}

impl AppError {
    /// The message of the error.
    pub open spec fn msg(&self) -> Seq<char> {
        match self {
            AppError::Message(m) => m@,
        }
    }

    /// The message of the error, as a `String`.
    pub fn message(&self) -> (r: String)
        ensures
            r@ == self.msg(),
    {
        match self {
            AppError::Message(m) => m.clone(),
        }
    }
}

/// An error whose message is the given literal.
pub fn app_error(text: &str) -> (e: AppError)
    ensures
        e.msg() == text@,
{
    AppError::Message(text.to_owned())
}

pub type AppResult<T> = Result<T, AppError>;

} // verus!
