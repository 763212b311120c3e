//! PING: replies PONG.
use crate::resp::{RESP, RespModel};
use crate::server_result::{sends_resp, ServerMessage, ServerValue};
use crate::text::owned;
use vstd::prelude::*;

verus! {

/// The reply to `PING`.
pub fn reply() -> (r: ServerMessage)
    ensures
        sends_resp(r, RespModel::SimpleString("PONG"@)),
{
    ServerMessage::Data(ServerValue::RESP(RESP::SimpleString(owned("PONG"))))
}

} // verus!
