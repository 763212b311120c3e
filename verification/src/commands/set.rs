//! SET: stores a value under a key.
use crate::resp::{RESP, RespModel};
use crate::server::Server;
use crate::server_result::{reports, sends_resp, ServerError, ServerErrorModel, ServerMessage, ServerValue};
use crate::set::{parse_set_arguments, set_args_spec};
use crate::storage::{is_clock_reading, set_post, tail_from, unchanged, Storage};
use crate::text::{join, join_spec, texts};
use vstd::prelude::*;

verus! {

/// How `SET key value options...` at `now` changes the store from `pre` to
/// `post`, and its reply `r`: OK, also where NX or XX keeps the value from
/// being stored.
pub open spec fn set_command_post(
    pre: Storage,
    post: Storage,
    command: Seq<Seq<char>>,
    now: i128,
    r: ServerMessage,
) -> bool {
    match set_args_spec(command.subrange(3, command.len() as int)) {
        None => {
            &&& unchanged(pre, post)
            &&& reports(r, ServerErrorModel::CommandSyntaxError(join_spec(command, " "@)))
        },
        Some(args) => {
            &&& set_post(pre, post, command[1], command[2], args, now)
            &&& sends_resp(r, RespModel::SimpleString("OK"@))
        },
    }
}

/// The reply to `SET key value options...` at `now`.
pub fn reply_at(server: &mut Server, command: &Vec<String>, now: i128) -> (r: ServerMessage)
    requires
        old(server).wf(),
        is_clock_reading(now as int),
        old(server).storage is Some ==> command.len() >= 3,
    ensures
        final(server).wf(),
        final(server).info == old(server).info,
        final(server).replication == old(server).replication,
        old(server).storage is None ==> final(server).storage is None && reports(
            r,
            ServerErrorModel::StorageNotInititalised,
        ),
        old(server).storage matches Some(pre) ==> final(server).storage matches Some(post)
            && set_command_post(pre, post, texts(command@), now, r),
{
    let storage = match server.storage.as_mut() {
        Some(storage) => storage,
        None => {
            return ServerMessage::Error(ServerError::StorageNotInititalised);
        },
    };
    proof {
        let t = texts(command@);
        assert(t[1] == command@[1]@);
        assert(t[2] == command@[2]@);
        assert(texts(command@.subrange(3, command@.len() as int)) =~= t.subrange(3, t.len() as int));
    }
    let key = command[1].clone();
    let value = command[2].clone();
    let options = tail_from(command, 3);
    let args = match parse_set_arguments(&options) {
        Ok(args) => args,
        Err(_) => {
            return ServerMessage::Error(
                ServerError::CommandSyntaxError(join(command.as_slice(), " ")),
            );
        },
    };
    if let Err(_) = storage.set_at(key, value, args, now) {
        ServerMessage::Error(ServerError::CommandInternalError(join(command.as_slice(), " ")))
    } else {
        ServerMessage::Data(ServerValue::RESP(RESP::SimpleString(crate::text::owned("OK"))))
    }
}

} // verus!
