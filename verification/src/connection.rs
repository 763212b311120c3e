//! What a client connection does with the bytes it reads and the messages
//! the server hands it.
use crate::resp::{bytes_to_resp, parse_value_spec, resp_bytes, RESP};
use crate::server_result::{ServerError, ServerMessage, ServerValue};
use crate::text::{owned, push_text};
use vstd::prelude::*;

verus! {

#[derive(Debug)]
pub enum ConnectionError {
    ServerError(ServerError),
    CannotWriteToStream(String),
    CannotReadFromStream(String),
    MalformedRESP(String),
    ReuquestError(String, String),
}

pub type ConnectionResult<T> = Result<T, ConnectionError>;

impl ConnectionError {
    /// The message shown for the error.
    pub open spec fn text(&self) -> Seq<char> {
        match self {
            ConnectionError::ServerError(e) => e.text(),
            ConnectionError::CannotWriteToStream(e) => "Cannot write to stream: "@ + e@,
            ConnectionError::CannotReadFromStream(e) => "Cannot read from stream: "@ + e@,
            ConnectionError::MalformedRESP(e) => "Malformed RESP: "@ + e@,
            ConnectionError::ReuquestError(request, e) => "ReuquestError: "@ + request@ + " "@ + e@,
        }
    }

    /// The message shown for the error.
    pub fn to_string(&self) -> (r: String)
        ensures
            r@ == self.text(),
    {
        match self {
            ConnectionError::ServerError(e) => e.to_string(),
            ConnectionError::CannotWriteToStream(e) => {
                let mut r = owned("Cannot write to stream: ");
                push_text(&mut r, e.as_str());
                r
            },
            ConnectionError::CannotReadFromStream(e) => {
                let mut r = owned("Cannot read from stream: ");
                push_text(&mut r, e.as_str());
                r
            },
            ConnectionError::MalformedRESP(e) => {
                let mut r = owned("Malformed RESP: ");
                push_text(&mut r, e.as_str());
                r
            },
            ConnectionError::ReuquestError(request, e) => {
                let mut r = owned("ReuquestError: ");
                push_text(&mut r, request.as_str());
                push_text(&mut r, " ");
                push_text(&mut r, e.as_str());
                r
            },
        }
    }
}

/// The value read from the bytes that one read from the stream gave: an
/// error where the peer closed the stream (no bytes) or the bytes are not a
/// value.
pub fn resp_from_received(bytes: &[u8]) -> (r: ConnectionResult<RESP>)
    requires
        bytes@.len() == 0 || parse_value_spec(bytes@, 0) is Some,
    ensures
        bytes@.len() == 0 ==> (r matches Err(ConnectionError::CannotReadFromStream(s)) && s@
            == "connection closed by peer"@),
        bytes@.len() > 0 ==> match parse_value_spec(bytes@, 0) {
            Some((Ok(m), _)) => r matches Ok(v) && v@ == m,
            Some((Err(e), _)) => r matches Err(ConnectionError::MalformedRESP(s)) && s@ == e.text(),
            None => false,
        },
{
    if bytes.len() == 0 {
        return Err(ConnectionError::CannotReadFromStream(owned("connection closed by peer")));
    }
    let mut index: usize = 0;
    match bytes_to_resp(bytes, &mut index) {
        Ok(v) => Ok(v),
        Err(error) => Err(ConnectionError::MalformedRESP(error.to_string())),
    }
}

/// What the connection does with a message from the server.
pub enum ConnectionAction {
    /// Writes the bytes to the stream.
    Write(Vec<u8>),
    /// Writes nothing.
    Nothing,
    /// Reports the error and closes the connection.
    Close(ServerError),
}

/// What the connection does with a message from the server: values are
/// written in their wire form, bytes as they are; an error closes the
/// connection.
pub fn action_for(message: ServerMessage) -> (r: ConnectionAction)
    ensures
        match message {
            ServerMessage::Data(ServerValue::RESP(v)) => r matches ConnectionAction::Write(b) && b@
                == resp_bytes(v@),
            ServerMessage::Data(ServerValue::Binary(bytes)) => r matches ConnectionAction::Write(b)
                && b@ == bytes@,
            ServerMessage::Data(ServerValue::Nothing) => r is Nothing,
            ServerMessage::Error(e) => r matches ConnectionAction::Close(x) && x == e,
        },
{
    match message {
        ServerMessage::Data(ServerValue::RESP(v)) => ConnectionAction::Write(v.to_bytes()),
        ServerMessage::Data(ServerValue::Binary(bytes)) => ConnectionAction::Write(bytes),
        ServerMessage::Data(ServerValue::Nothing) => ConnectionAction::Nothing,
        ServerMessage::Error(e) => ConnectionAction::Close(e),
    }
}

} // verus!
