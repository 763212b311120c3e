//! Errors of the RESP reader.
use crate::text::{dec_chars, owned, push_decimal, push_text, signed_dec_chars, signed_decimal_string};
use std::string::FromUtf8Error;
use vstd::prelude::*;

verus! {

/// A length field of the protocol.
pub type RESPLenth = i32;

#[derive(Debug, PartialEq, Eq, Structural)]
pub enum RESPError {
    FromUtf8,
    IncorrectLength(RESPLenth),
    OutOfBounds(usize),
    WrongType,
    ParseInt,
    Unkonwn,
}

pub type RESPResult<T> = Result<T, RESPError>;

impl RESPError {
    /// The message shown for the error.
    pub open spec fn text(&self) -> Seq<char> {
        match self {
            RESPError::OutOfBounds(index) => "Out of bounds at index "@ + dec_chars(*index as nat),
            RESPError::FromUtf8 => "Cannot convert from UTF-8"@,
            RESPError::WrongType => "Wrong type"@,
            RESPError::Unkonwn => "Unkonwn error"@,
            RESPError::ParseInt => "Cannot parse int"@,
            RESPError::IncorrectLength(length) => "Incorrect length: "@ + signed_dec_chars(
                *length as int,
            ),
        }
    }

    /// The message shown for the error.
    pub fn to_string(&self) -> (s: String)
        ensures
            s@ == self.text(),
    {
        match self {
            RESPError::OutOfBounds(index) => {
                let mut s = owned("Out of bounds at index ");
                push_decimal(&mut s, *index as u64);
                s
            },
            RESPError::FromUtf8 => owned("Cannot convert from UTF-8"),
            RESPError::WrongType => owned("Wrong type"),
            RESPError::Unkonwn => owned("Unkonwn error"),
            RESPError::ParseInt => owned("Cannot parse int"),
            RESPError::IncorrectLength(length) => {
                let mut s = owned("Incorrect length: ");
                let n = signed_decimal_string(*length as i64);
                push_text(&mut s, n.as_str());
                s
            },
        }
    }
}

impl From<FromUtf8Error> for RESPError {
    fn from(_err: FromUtf8Error) -> (r: Self) {
        RESPError::FromUtf8
    }
}

impl vstd::std_specs::convert::FromSpecImpl<FromUtf8Error> for RESPError {
    open spec fn obeys_from_spec() -> bool {
        true
    }

    open spec fn from_spec(v: FromUtf8Error) -> Self {
        RESPError::FromUtf8
    }
}

} // verus!
