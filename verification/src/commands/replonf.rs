//! REPLCONF: accepts the listening port and the capabilities of a replica.
use crate::resp::{RESP, RespModel};
use crate::server_result::{sends_resp, ServerMessage, ServerValue};
use crate::text::{eq_ignore_ascii_case, eq_ignore_ascii_case_spec, owned, parse_int_spec, parse_u16};
use vstd::prelude::*;

verus! {

/// Whether the arguments are `REPLCONF listening-port <port>` with a port
/// other than 0, or `REPLCONF capa psync2`, in any case of letters.
pub open spec fn replconf_valid(command: Seq<Seq<char>>) -> bool {
    &&& command.len() == 3
    &&& eq_ignore_ascii_case_spec(command[0], "replconf"@)
    &&& if eq_ignore_ascii_case_spec(command[1], "listening-port"@) {
        parse_int_spec(command[2], false, 0, u16::MAX as int) matches Some(p) && p > 0
    } else {
        eq_ignore_ascii_case_spec(command[1], "capa"@) && eq_ignore_ascii_case_spec(
            command[2],
            "psync2"@,
        )
    }
}

/// The reply to `REPLCONF ...`: OK for valid arguments, an error otherwise.
pub fn reply(command: &[String]) -> (r: ServerMessage)
    ensures
        sends_resp(
            r,
            if replconf_valid(crate::text::texts(command@)) {
                RespModel::SimpleString("OK"@)
            } else {
                RespModel::Error("ERR invalid REPLCONF arguments"@)
            },
        ),
{
    let valid: bool = if command.len() != 3 {
        false
    } else if !eq_ignore_ascii_case(command[0].as_str(), "replconf") {
        false
    } else if eq_ignore_ascii_case(command[1].as_str(), "listening-port") {
        match parse_u16(command[2].as_str()) {
            Some(port) => port > 0,
            None => false,
        }
    } else {
        eq_ignore_ascii_case(command[1].as_str(), "capa") && eq_ignore_ascii_case(
            command[2].as_str(),
            "psync2",
        )
    };
    proof {
        let t = crate::text::texts(command@);
        if command.len() == 3 {
            assert(t[0] == command@[0]@);
            assert(t[1] == command@[1]@);
            assert(t[2] == command@[2]@);
        }
    }
    let response = if valid {
        RESP::SimpleString(owned("OK"))
    } else {
        RESP::Error(owned("ERR invalid REPLCONF arguments"))
    };
    ServerMessage::Data(ServerValue::RESP(response))
}

} // verus!
