//! The errors of the shell.

use vstd::prelude::*;

verus! {

/// A failure reported by the operating system: the value of `errno` and the
/// system's description of it.
#[derive(Debug, Clone, PartialEq, Eq)]
pub struct Errno {
    pub code: i32,
    pub text: String,
}

/// What an [`Errno`] stands for in contracts.
pub struct ErrnoModel {
    pub code: int,
    pub text: Seq<char>,
}

impl DeepView for Errno {
    type V = ErrnoModel;

    open spec fn deep_view(&self) -> ErrnoModel {
        ErrnoModel { code: self.code as int, text: self.text@ }
    }
}

impl Errno {
    /// Wraps an `errno` value and its description.
    pub fn new(code: i32, text: String) -> (errno: Errno)
        ensures
            errno.code == code,
            errno.text == text,
    {
        Errno { code, text }
    }

    /// The system's description of the failure.
    pub fn message(&self) -> (text: String)
        ensures
            text@ == self.text@,
    {
        self.text.clone()
    }
}

/// Everything that can go wrong in the shell.
#[derive(Debug, Clone, PartialEq, Eq)]
pub enum Error {
    /// A string meant for a native call holds a NUL byte.
    InvalidCString,
    /// Bytes handed over by the system are not UTF-8.
    InvalidUnicode,
    /// A variable, file, command or redirection operand is missing or
    /// malformed.
    NotFound,
    /// The operating system reported a failure.
    Errno(Errno),
}

/// What an [`Error`] stands for in contracts.
pub enum ErrorModel {
    InvalidCString,
    InvalidUnicode,
    NotFound,
    Errno(ErrnoModel),
}

impl DeepView for Error {
    type V = ErrorModel;

    open spec fn deep_view(&self) -> ErrorModel {
        match self {
            Error::InvalidCString => ErrorModel::InvalidCString,
            Error::InvalidUnicode => ErrorModel::InvalidUnicode,
            Error::NotFound => ErrorModel::NotFound,
            Error::Errno(errno) => ErrorModel::Errno(errno.deep_view()),
        }
    }
}

/// The text shown to the user for each error.
pub open spec fn message_of(error: ErrorModel) -> Seq<char> {
    match error {
        ErrorModel::InvalidCString => "Fail to produce valid C string"@,
        ErrorModel::InvalidUnicode => "Fail to produce valid Unicode string"@,
        ErrorModel::NotFound => "Value was not found"@,
        ErrorModel::Errno(errno) => errno.text,
    }
}

impl Error {
    /// The error for a failed system call, from the `errno` value it left
    /// behind and the system's description of that value.
    pub fn from_errno(code: i32, text: String) -> (error: Error)
        ensures
            error == Error::Errno(Errno { code, text }),
    {
        Error::Errno(Errno::new(code, text))
    }

    /// The text shown to the user for this error.
    pub fn message(&self) -> (text: String)
        ensures
            text@ == message_of(self.deep_view()),
    {
        match self {
            Error::InvalidCString => "Fail to produce valid C string".to_string(),
            Error::InvalidUnicode => "Fail to produce valid Unicode string".to_string(),
            Error::NotFound => "Value was not found".to_string(),
            Error::Errno(errno) => errno.message(),
        }
    }
}

} // verus!
