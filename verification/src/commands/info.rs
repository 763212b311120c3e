//! INFO: the replication section.
use crate::replication::Role;
use crate::resp::{bulk_string_from_vec, RespModel};
use crate::server::Server;
use crate::server_result::{sends_resp, ServerMessage, ServerValue};
use crate::text::{dec_chars, join_spec, owned, push_decimal, push_text};
use vstd::prelude::*;

verus! {

/// The lines of the replication section.
pub open spec fn info_lines(server: Server) -> Seq<Seq<char>> {
    seq![
        "# Replication"@,
        if server.replication.master is Some {
            "role:slave"@
        } else {
            "role:master"@
        },
        "master_replid:"@ + server.replication.reolid@,
        "master_repl_offset:"@ + dec_chars(server.replication.repl_offset as nat),
    ]
}

/// The reply to `INFO`: the lines of the replication section joined with
/// `\r\n`, as a bulk string.
pub fn reply(server: &Server) -> (r: ServerMessage)
    ensures
        sends_resp(r, RespModel::BulkString(join_spec(info_lines(*server), "\r\n"@))),
{
    let replication_info = server.replication.info();
    let mut output: Vec<String> = Vec::new();
    output.push(owned("# Replication"));
    match replication_info.role {
        Role::Master => {
            output.push(owned("role:master"));
        },
        Role::Replica => {
            output.push(owned("role:slave"));
        },
    }
    let mut id = owned("master_replid:");
    push_text(&mut id, replication_info.reolid.as_str());
    output.push(id);
    let mut offset = owned("master_repl_offset:");
    push_decimal(&mut offset, replication_info.repl_offset as u64);
    output.push(offset);
    proof {
        assert(crate::text::texts(output@) =~= info_lines(*server));
    }
    ServerMessage::Data(ServerValue::RESP(bulk_string_from_vec(output)))
}

/// Whatever the role, the INFO reply holds the replication id and the
/// offset: its text is the section header, the role line (`role:slave`
/// where a master is set, `role:master` otherwise), the line
/// `master_replid:` with the replication id and the line
/// `master_repl_offset:` with the offset, separated by CRLF.
pub proof fn law_info_reports_replication(server: Server)
    ensures
        join_spec(info_lines(server), "\r\n"@) == "# Replication"@ + "\r\n"@ + (if server.replication.master is Some {
            "role:slave"@
        } else {
            "role:master"@
        }) + "\r\n"@ + "master_replid:"@ + server.replication.reolid@ + "\r\n"@ + "master_repl_offset:"@
            + dec_chars(server.replication.repl_offset as nat),
{
    let l = info_lines(server);
    let sep = "\r\n"@;
    assert(l.drop_last().drop_last().drop_last() =~= seq![l[0]]);
    assert(join_spec(l.drop_last().drop_last().drop_last(), sep) == l[0]);
    assert(l.drop_last().drop_last().last() == l[1]);
    assert(l.drop_last().last() == l[2]);
    assert(join_spec(l.drop_last().drop_last(), sep) == l[0] + sep + l[1]);
    assert(join_spec(l.drop_last(), sep) == l[0] + sep + l[1] + sep + l[2]);
    assert(join_spec(l, sep) == l[0] + sep + l[1] + sep + l[2] + sep + l[3]);
    assert(l[0] + sep + l[1] + sep + l[2] + sep + l[3] =~= "# Replication"@ + "\r\n"@ + (
    if server.replication.master is Some {
        "role:slave"@
    } else {
        "role:master"@
    }) + "\r\n"@ + "master_replid:"@ + server.replication.reolid@ + "\r\n"@ + "master_repl_offset:"@
        + dec_chars(server.replication.repl_offset as nat));
}

} // verus!
