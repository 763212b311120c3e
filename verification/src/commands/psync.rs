//! PSYNC: starts a full resynchronisation with an empty snapshot.
use crate::resp::{RESP, RespModel};
use crate::server::Server;
use crate::server_result::{reports, sends_bytes, sends_resp, ServerError, ServerErrorModel, ServerMessage, ServerValue};
use crate::text::{dec_chars, join, join_spec, owned, push_decimal, push_text, texts};
use vstd::prelude::*;

verus! {

/// The bytes that carry the (empty) snapshot: `$0\r\n\r\n`.
pub open spec fn empty_rdb_bytes() -> Seq<u8> {
    seq![36u8, 48u8, 13u8, 10u8, 13u8, 10u8]
}

/// The reply to `PSYNC replid offset`: `FULLRESYNC` with this server's id and
/// offset, then the empty snapshot.
pub fn reply(command: &Vec<String>, server: &Server) -> (r: Vec<ServerMessage>)
    ensures
        command.len() != 3 ==> r@.len() == 1 && reports(
            r@[0],
            ServerErrorModel::CommandSyntaxError(join_spec(texts(command@), " "@)),
        ),
        command.len() == 3 ==> r@.len() == 2 && sends_resp(
            r@[0],
            RespModel::SimpleString(
                "FULLRESYNC "@ + server.replication.reolid@ + " "@ + dec_chars(
                    server.replication.repl_offset as nat,
                ),
            ),
        ) && sends_bytes(r@[1], empty_rdb_bytes()),
{
    let mut out: Vec<ServerMessage> = Vec::new();
    if command.len() != 3 {
        out.push(ServerMessage::Error(ServerError::CommandSyntaxError(join(command.as_slice(), " "))));
        return out;
    }
    let mut response = owned("FULLRESYNC ");
    push_text(&mut response, server.replication.reolid.as_str());
    push_text(&mut response, " ");
    push_decimal(&mut response, server.replication.repl_offset as u64);
    out.push(ServerMessage::Data(ServerValue::RESP(RESP::SimpleString(response))));
    let rdb_payload: Vec<u8> = Vec::new();
    let mut rdb: Vec<u8> = Vec::new();
    rdb.push(36);
    crate::text::push_decimal_bytes(&mut rdb, rdb_payload.len() as u64);
    rdb.push(13);
    rdb.push(10);
    rdb.push(13);
    rdb.push(10);
    assert(rdb@ =~= empty_rdb_bytes());
    out.push(ServerMessage::Data(ServerValue::Binary(rdb)));
    out
}

} // verus!
