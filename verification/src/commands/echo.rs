//! ECHO: replies with its argument.
use crate::resp::{RESP, RespModel};
use crate::server_result::{sends_resp, ServerMessage, ServerValue};
use vstd::prelude::*;

verus! {

/// The reply to `ECHO message`.
pub fn reply(command: &Vec<String>) -> (r: ServerMessage)
    requires
        command.len() >= 2,
    ensures
        sends_resp(r, RespModel::SimpleString(command@[1]@)),
{
    ServerMessage::Data(ServerValue::RESP(RESP::SimpleString(command[1].clone())))
}

} // verus!
