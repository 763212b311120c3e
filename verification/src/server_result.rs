//! What the server answers a request with.
use crate::resp::{RESP, RespModel};
use crate::text::{owned, push_text};
use vstd::prelude::*;

verus! {

#[derive(Debug, PartialEq, Eq)]
pub enum ServerError {
    CommandInternalError(String),
    CommandSyntaxError(String),
    IncorrectData,
    StorageNotInititalised,
    HandshakeFailed(String),
}

/// The mathematical value of a `ServerError`.
pub enum ServerErrorModel {
    CommandInternalError(Seq<char>),
    CommandSyntaxError(Seq<char>),
    IncorrectData,
    StorageNotInititalised,
    HandshakeFailed(Seq<char>),
}

impl View for ServerError {
    type V = ServerErrorModel;

    open spec fn view(&self) -> ServerErrorModel {
        match self {
            ServerError::CommandInternalError(s) => ServerErrorModel::CommandInternalError(s@),
            ServerError::CommandSyntaxError(s) => ServerErrorModel::CommandSyntaxError(s@),
            ServerError::IncorrectData => ServerErrorModel::IncorrectData,
            ServerError::StorageNotInititalised => ServerErrorModel::StorageNotInititalised,
            ServerError::HandshakeFailed(s) => ServerErrorModel::HandshakeFailed(s@),
        }
    }
}

impl ServerError {
    /// The message shown for the error.
    pub open spec fn text(&self) -> Seq<char> {
        match self {
            ServerError::CommandInternalError(s) => "Internal error: "@ + s@,
            ServerError::CommandSyntaxError(s) => "Syntax error: "@ + s@,
            ServerError::IncorrectData => "Incorrect data"@,
            ServerError::StorageNotInititalised => "Storage not initialised"@,
            ServerError::HandshakeFailed(s) => "Handshake failed: "@ + s@,
        }
    }

    /// The message shown for the error.
    pub fn to_string(&self) -> (r: String)
        ensures
            r@ == self.text(),
    {
        match self {
            ServerError::CommandInternalError(s) => {
                let mut r = owned("Internal error: ");
                push_text(&mut r, s.as_str());
                r
            },
            ServerError::CommandSyntaxError(s) => {
                let mut r = owned("Syntax error: ");
                push_text(&mut r, s.as_str());
                r
            },
            ServerError::IncorrectData => owned("Incorrect data"),
            ServerError::StorageNotInititalised => owned("Storage not initialised"),
            ServerError::HandshakeFailed(s) => {
                let mut r = owned("Handshake failed: ");
                push_text(&mut r, s.as_str());
                r
            },
        }
    }
}

#[derive(Debug)]
pub enum ServerValue {
    RESP(RESP),
    Binary(Vec<u8>),
    Nothing,
}

pub type ServerResult = Result<ServerValue, ServerError>;

#[derive(Debug)]
pub enum ServerMessage {
    Data(ServerValue),
    Error(ServerError),
}

/// The message sends the value `m`.
pub open spec fn sends_resp(msg: ServerMessage, m: RespModel) -> bool {
    msg matches ServerMessage::Data(ServerValue::RESP(v)) && v@ == m
}

/// The message sends the bytes `b` as they are.
pub open spec fn sends_bytes(msg: ServerMessage, b: Seq<u8>) -> bool {
    msg matches ServerMessage::Data(ServerValue::Binary(v)) && v@ == b
}

/// The message reports the error `e`.
pub open spec fn reports(msg: ServerMessage, e: ServerErrorModel) -> bool {
    msg matches ServerMessage::Error(x) && x@ == e
}

} // verus!
