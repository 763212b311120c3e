//! Errors of the storage commands.
use crate::text::{owned, push_text};
use vstd::prelude::*;

verus! {

#[derive(Debug)]
pub enum StorageError {
    IncorrectRequest,
    CommandNotAvaliable(String),
    CommandSyntaxError(String),
}

pub type StorageResult<T> = Result<T, StorageError>;

impl StorageError {
    /// The message shown for the error.
    pub open spec fn text(&self) -> Seq<char> {
        match self {
            StorageError::IncorrectRequest => "IncorrectRequest"@,
            StorageError::CommandNotAvaliable(command) => "CommandNotAvaliable: "@ + command@,
            StorageError::CommandSyntaxError(command) => "CommandSyntaxError: "@ + command@,
        }
    }

    /// The message shown for the error.
    pub fn to_string(&self) -> (s: String)
        ensures
            s@ == self.text(),
    {
        match self {
            StorageError::IncorrectRequest => owned("IncorrectRequest"),
            StorageError::CommandNotAvaliable(command) => {
                let mut s = owned("CommandNotAvaliable: ");
                push_text(&mut s, command.as_str());
                s
            },
            StorageError::CommandSyntaxError(command) => {
                let mut s = owned("CommandSyntaxError: ");
                push_text(&mut s, command.as_str());
                s
            },
        }
    }
}

} // verus!
