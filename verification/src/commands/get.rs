//! GET: replies with the value of a key, or null.
use crate::resp::{RESP, RespModel};
use crate::server::Server;
use crate::server_result::{reports, sends_resp, ServerError, ServerErrorModel, ServerMessage, ServerValue};
use crate::storage::{lookup_in, purge, unchanged, Storage};
use crate::text::{join, join_spec, texts};
use vstd::prelude::*;

verus! {

/// How `GET key` at `now` changes the store from `pre` to `post`, and its
/// reply `r`.
pub open spec fn get_post(
    pre: Storage,
    post: Storage,
    command: Seq<Seq<char>>,
    now: i128,
    r: ServerMessage,
) -> bool {
    if command.len() < 2 {
        &&& unchanged(pre, post)
        &&& reports(r, ServerErrorModel::CommandSyntaxError(join_spec(command, " "@)))
    } else {
        let key = command[1];
        &&& post.active() == pre.active()
        &&& (post.entries(), post.deadlines()) == purge(pre.entries(), pre.deadlines(), key, now)
        &&& sends_resp(
            r,
            match lookup_in(post.entries(), key) {
                Some(t) => RespModel::BulkString(t),
                None => RespModel::Null,
            },
        )
    }
}

/// The reply to `GET key` at `now`.
pub fn reply_at(server: &mut Server, command: &Vec<String>, now: i128) -> (r: ServerMessage)
    requires
        old(server).wf(),
    ensures
        final(server).wf(),
        final(server).info == old(server).info,
        final(server).replication == old(server).replication,
        old(server).storage is None ==> final(server).storage is None && reports(
            r,
            ServerErrorModel::StorageNotInititalised,
        ),
        old(server).storage matches Some(pre) ==> final(server).storage matches Some(post)
            && get_post(pre, post, texts(command@), now, r),
{
    let storage = match server.storage.as_mut() {
        Some(storage) => storage,
        None => {
            return ServerMessage::Error(ServerError::StorageNotInititalised);
        },
    };
    assert(command.len() >= 2 ==> texts(command@)[1] == command@[1]@);
    if command.len() < 2 {
        return ServerMessage::Error(ServerError::CommandSyntaxError(join(command.as_slice(), " ")));
    }
    match storage.get_at(command[1].clone(), now) {
        Ok(Some(v)) => ServerMessage::Data(ServerValue::RESP(RESP::BulkString(v))),
        Ok(None) => ServerMessage::Data(ServerValue::RESP(RESP::Null)),
        Err(_) => ServerMessage::Error(ServerError::CommandSyntaxError(join(command.as_slice(), " "))),
    }
}

} // verus!
