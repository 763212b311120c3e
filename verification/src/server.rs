//! The server's state and the replica's handshake with its master.
use crate::commands::get::get_post;
use crate::commands::info::info_lines;
use crate::commands::psync::empty_rdb_bytes;
use crate::commands::replonf::replconf_valid;
use crate::commands::set::set_command_post;
use crate::replication::{is_replid, ReplicationConfig};
use crate::resp::{
    law_read_back_written, lemma_array_model, models, parse_value_spec, resp_bytes, RESP, RespModel,
};
use crate::server_result::{
    reports, sends_bytes, sends_resp, ServerError, ServerErrorModel, ServerMessage,
};
use crate::storage::{expire_post, is_clock_reading, now_nanos, Storage};
use crate::text::{
    join,
    dec_bytes, dec_chars, decimal_string, eq_ignore_ascii_case_spec, join_spec,
    lemma_parse_dec_chars, lowercase, owned, push_text, starts_with, str_eq, texts, to_lowercase,
};
use vstd::prelude::*;
use vstd::string::StrSliceExecFns;
use vstd::utf8::encode_utf8;

verus! {

pub struct Server {
    pub info: Serverinfo,
    pub storage: Option<Storage>,
    pub replication: ReplicationConfig,
}

pub struct Serverinfo {
    pub host: String,
    pub port: u16,
}

impl Server {
    /// The store, where there is one, keeps its invariant.
    pub open spec fn wf(&self) -> bool {
        self.storage matches Some(s) ==> s.wf()
    }

    /// A master server at `host`, `port`, without a store yet.
    pub fn new(host: String, port: u16) -> (r: Self)
        ensures
            r.info.host == host,
            r.info.port == port,
            r.storage is None,
            r.replication.master is None,
            is_replid(r.replication.reolid@),
            r.replication.repl_offset == 0,
            r.wf(),
    {
        Server {
            info: Serverinfo { host, port },
            storage: None,
            replication: ReplicationConfig::new_master(),
        }
    }

    pub fn set_storage(&mut self, storage: Storage)
        requires
            storage.wf(),
        ensures
            final(self).storage == Some(storage),
            final(self).info == old(self).info,
            final(self).replication == old(self).replication,
            final(self).wf(),
    {
        self.storage = Some(storage);
    }

    pub fn set_replication(&mut self, replication: ReplicationConfig)
        ensures
            final(self).replication == replication,
            final(self).info == old(self).info,
            final(self).storage == old(self).storage,
    {
        self.replication = replication;
    }

    /// Removes the expired keys of the store, if there is one; what the
    /// clock reads is not stated.
    pub fn expire_keys(&mut self)
        requires
            old(self).wf(),
        ensures
            final(self).wf(),
            final(self).info == old(self).info,
            final(self).replication == old(self).replication,
            old(self).storage is None ==> final(self).storage is None,
            old(self).storage matches Some(pre) ==> final(self).storage matches Some(post)
                && exists|now: i128| is_clock_reading(now as int) && #[trigger] expire_post(pre, post, now),
    {
        match self.storage.as_mut() {
            Some(storage) => storage.expire_keys(),
            None => {},
        }
    }

    /// The snapshot sent to a replica: the header of an empty RDB file.
    pub fn generate_rdb(&self) -> (r: Vec<u8>)
        ensures
            r@ == seq![0x52u8, 0x45u8, 0x44u8, 0x49u8, 0x53u8, 0x30u8, 0x30u8, 0x31u8],
    {
        let v: Vec<u8> = vec![0x52, 0x45, 0x44, 0x49, 0x53, 0x30, 0x30, 0x31];
        v
    }
}

// ---------------------------------------------------------------------------
// Handshake of a replica with its master
// ---------------------------------------------------------------------------

/// The steps of the handshake, in order.
#[derive(Debug, PartialEq, Eq, Clone, Copy, Structural)]
pub enum HandshakeStep {
    Ping,
    ListeningPort,
    Capabilities,
    Psync,
    Rdb,
}

/// An array of bulk strings with the given texts.
pub open spec fn command_model(words: Seq<Seq<char>>) -> RespModel {
    RespModel::Array(words.map_values(|w: Seq<char>| RespModel::BulkString(w)))
}

/// What the replica sends at each step (nothing at the last, where it only
/// reads the snapshot).
pub open spec fn handshake_request(step: HandshakeStep, port: u16) -> Option<RespModel> {
    match step {
        HandshakeStep::Ping => Some(command_model(seq!["PING"@])),
        HandshakeStep::ListeningPort => Some(
            command_model(seq!["REPLCONF"@, "listening-port"@, dec_chars(port as nat)]),
        ),
        HandshakeStep::Capabilities => Some(command_model(seq!["REPLCONF"@, "capa"@, "psync2"@])),
        HandshakeStep::Psync => Some(command_model(seq!["PSYNC"@, "?"@, "-1"@])),
        HandshakeStep::Rdb => None,
    }
}

/// Whether the master's reply at a step is the expected one.
pub open spec fn handshake_accepts(step: HandshakeStep, reply: RespModel) -> bool {
    match step {
        HandshakeStep::Ping => reply == RespModel::SimpleString("PONG"@),
        HandshakeStep::ListeningPort => reply == RespModel::SimpleString("OK"@),
        HandshakeStep::Capabilities => reply == RespModel::SimpleString("OK"@),
        HandshakeStep::Psync => reply matches RespModel::SimpleString(v) && "FULLRESYNC "@.len()
            <= v.len() && v.subrange(0, "FULLRESYNC "@.len() as int) == "FULLRESYNC "@,
        HandshakeStep::Rdb => reply == RespModel::BulkString(Seq::<char>::empty()),
    }
}

/// The step after `step`, if any.
pub open spec fn next_step(step: HandshakeStep) -> Option<HandshakeStep> {
    match step {
        HandshakeStep::Ping => Some(HandshakeStep::ListeningPort),
        HandshakeStep::ListeningPort => Some(HandshakeStep::Capabilities),
        HandshakeStep::Capabilities => Some(HandshakeStep::Psync),
        HandshakeStep::Psync => Some(HandshakeStep::Rdb),
        HandshakeStep::Rdb => None,
    }
}

/// The start of the message of a refused reply at a step.
pub open spec fn refusal_prefix(step: HandshakeStep) -> Seq<char> {
    match step {
        HandshakeStep::Ping => "PING expected PONG, got "@,
        HandshakeStep::ListeningPort => "REPLCONF listening-port expected OK, got "@,
        HandshakeStep::Capabilities => "REPLCONF capa expected OK, got "@,
        HandshakeStep::Psync => "PSYNC expected FULLRESYNC, got "@,
        HandshakeStep::Rdb => "PSYNC expected empty RDB payload, got "@,
    }
}

/// What the replica sends at `step`.
pub fn handshake_message(step: HandshakeStep, info: &Serverinfo) -> (r: Option<RESP>)
    ensures
        match r {
            Some(m) => handshake_request(step, info.port) == Some(m@),
            None => handshake_request(step, info.port) is None,
        },
{
    match step {
        HandshakeStep::Ping => {
            let mut items: Vec<RESP> = Vec::new();
            items.push(RESP::BulkString(owned("PING")));
            proof {
                lemma_array_model(items);
                assert(models(items@) =~= seq!["PING"@].map_values(|w: Seq<char>| RespModel::BulkString(w)));
            }
            let r = RESP::Array(items);
            Some(r)
        },
        HandshakeStep::ListeningPort => {
            let port = decimal_string(info.port as u64);
            let mut items: Vec<RESP> = Vec::new();
            items.push(RESP::BulkString(owned("REPLCONF")));
            items.push(RESP::BulkString(owned("listening-port")));
            items.push(RESP::BulkString(port));
            proof {
                lemma_array_model(items);
                assert(models(items@) =~= seq!["REPLCONF"@, "listening-port"@, dec_chars(info.port as nat)].map_values(
                    |w: Seq<char>| RespModel::BulkString(w),
                ));
            }
            let r = RESP::Array(items);
            Some(r)
        },
        HandshakeStep::Capabilities => {
            let mut items: Vec<RESP> = Vec::new();
            items.push(RESP::BulkString(owned("REPLCONF")));
            items.push(RESP::BulkString(owned("capa")));
            items.push(RESP::BulkString(owned("psync2")));
            proof {
                lemma_array_model(items);
                assert(models(items@) =~= seq!["REPLCONF"@, "capa"@, "psync2"@].map_values(
                    |w: Seq<char>| RespModel::BulkString(w),
                ));
            }
            let r = RESP::Array(items);
            Some(r)
        },
        HandshakeStep::Psync => {
            let mut items: Vec<RESP> = Vec::new();
            items.push(RESP::BulkString(owned("PSYNC")));
            items.push(RESP::BulkString(owned("?")));
            items.push(RESP::BulkString(owned("-1")));
            proof {
                lemma_array_model(items);
                assert(models(items@) =~= seq!["PSYNC"@, "?"@, "-1"@].map_values(
                    |w: Seq<char>| RespModel::BulkString(w),
                ));
            }
            let r = RESP::Array(items);
            Some(r)
        },
        HandshakeStep::Rdb => None,
    }
}

fn is_simple(reply: &RESP, text: &str) -> (r: bool)
    ensures
        r == (reply@ == RespModel::SimpleString(text@)),
{
    match reply {
        RESP::SimpleString(v) => crate::text::str_eq(v.as_str(), text),
        _ => false,
    }
}

/// Checks the master's reply at `step`: the next step (`None` after the
/// last), or the failed handshake with a message that shows the reply.
pub fn handshake_check(step: HandshakeStep, reply: &RESP) -> (r: Result<
    Option<HandshakeStep>,
    ServerError,
>)
    ensures
        match r {
            Ok(next) => handshake_accepts(step, reply@) && next == next_step(step),
            Err(e) => !handshake_accepts(step, reply@) && e@ == ServerErrorModel::HandshakeFailed(
                refusal_prefix(step) + reply.text(),
            ),
        },
{
    let accepted: bool = match step {
        HandshakeStep::Ping => is_simple(reply, "PONG"),
        HandshakeStep::ListeningPort => is_simple(reply, "OK"),
        HandshakeStep::Capabilities => is_simple(reply, "OK"),
        HandshakeStep::Psync => match reply {
            RESP::SimpleString(v) => starts_with(v.as_str(), "FULLRESYNC "),
            _ => false,
        },
        HandshakeStep::Rdb => match reply {
            RESP::BulkString(v) => {
                let empty: bool = v.as_str().unicode_len() == 0;
                assert(empty ==> v@ =~= Seq::<char>::empty());
                empty
            },
            _ => false,
        },
    };
    if accepted {
        return Ok(
            match step {
                HandshakeStep::Ping => Some(HandshakeStep::ListeningPort),
                HandshakeStep::ListeningPort => Some(HandshakeStep::Capabilities),
                HandshakeStep::Capabilities => Some(HandshakeStep::Psync),
                HandshakeStep::Psync => Some(HandshakeStep::Rdb),
                HandshakeStep::Rdb => None,
            },
        );
    }
    let mut message = match step {
        HandshakeStep::Ping => owned("PING expected PONG, got "),
        HandshakeStep::ListeningPort => owned("REPLCONF listening-port expected OK, got "),
        HandshakeStep::Capabilities => owned("REPLCONF capa expected OK, got "),
        HandshakeStep::Psync => owned("PSYNC expected FULLRESYNC, got "),
        HandshakeStep::Rdb => owned("PSYNC expected empty RDB payload, got "),
    };
    let shown = reply.to_string();
    push_text(&mut message, shown.as_str());
    Err(ServerError::HandshakeFailed(message))
}

// ---------------------------------------------------------------------------
// Requests
// ---------------------------------------------------------------------------

/// The words of a request: `Some` where it is an array of bulk strings.
pub open spec fn request_words(m: RespModel) -> Option<Seq<Seq<char>>> {
    match m {
        RespModel::Array(items) => if forall|i: int| 0 <= i < items.len() ==> #[trigger] items[i] is BulkString {
            Some(items.map_values(|x: RespModel| x->BulkString_0))
        } else {
            None
        },
        _ => None,
    }
}

/// The requests on which the server stops with a panic: no words at all,
/// ECHO without its argument, and SET with fewer than two arguments where a
/// store is set (after its error reply).
pub open spec fn request_panics(server: Server, m: RespModel) -> bool {
    match request_words(m) {
        Some(words) => words.len() == 0 || (lowercase(words[0]) == "echo"@ && words.len() < 2) || (
        lowercase(words[0]) == "set"@ && server.storage is Some && words.len() < 3),
        None => false,
    }
}

/// How a request (at `now`) changes the server from `pre` to `post`, and the
/// messages `r` it sends back, in order.
pub open spec fn request_post(
    pre: Server,
    post: Server,
    m: RespModel,
    now: i128,
    r: Seq<ServerMessage>,
) -> bool {
    match request_words(m) {
        None => post == pre && r.len() == 1 && reports(r[0], ServerErrorModel::IncorrectData),
        Some(words) => {
            let name = lowercase(words[0]);
            if name == "set"@ || name == "get"@ {
                &&& post.info == pre.info
                &&& post.replication == pre.replication
                &&& r.len() == 1
                &&& pre.storage is None ==> post.storage is None && reports(
                    r[0],
                    ServerErrorModel::StorageNotInititalised,
                )
                &&& pre.storage matches Some(ps) ==> post.storage matches Some(qs) && if name == "set"@ {
                    set_command_post(ps, qs, words, now, r[0])
                } else {
                    get_post(ps, qs, words, now, r[0])
                }
            } else {
                &&& post == pre
                &&& if name == "echo"@ {
                    r.len() == 1 && sends_resp(r[0], RespModel::SimpleString(words[1]))
                } else if name == "ping"@ {
                    r.len() == 1 && sends_resp(r[0], RespModel::SimpleString("PONG"@))
                } else if name == "info"@ {
                    r.len() == 1 && sends_resp(
                        r[0],
                        RespModel::BulkString(join_spec(info_lines(pre), "\r\n"@)),
                    )
                } else if name == "replconf"@ {
                    r.len() == 1 && sends_resp(
                        r[0],
                        if replconf_valid(words) {
                            RespModel::SimpleString("OK"@)
                        } else {
                            RespModel::Error("ERR invalid REPLCONF arguments"@)
                        },
                    )
                } else if name == "psync"@ {
                    if words.len() != 3 {
                        r.len() == 1 && reports(
                            r[0],
                            ServerErrorModel::CommandSyntaxError(join_spec(words, " "@)),
                        )
                    } else {
                        r.len() == 2 && sends_resp(
                            r[0],
                            RespModel::SimpleString(
                                "FULLRESYNC "@ + pre.replication.reolid@ + " "@ + dec_chars(
                                    pre.replication.repl_offset as nat,
                                ),
                            ),
                        ) && sends_bytes(r[1], empty_rdb_bytes())
                    }
                } else {
                    r.len() == 1 && reports(r[0], ServerErrorModel::CommandInternalError(name))
                }
            }
        },
    }
}

/// A request answered at some time: what the clock read is not stated.
pub open spec fn request_answered(pre: Server, post: Server, m: RespModel, r: Seq<ServerMessage>) -> bool {
    exists|now: i128| is_clock_reading(now as int) && #[trigger] request_post(pre, post, m, now, r)
}

/// The words of a request, where it is an array of bulk strings.
fn request_command(resp: &RESP) -> (r: Option<Vec<String>>)
    ensures
        match r {
            Some(command) => request_words(resp@) == Some(texts(command@)),
            None => request_words(resp@) is None,
        },
{
    let elements = match resp {
        RESP::Array(v) => v,
        _ => return None,
    };
    proof {
        lemma_array_model(*elements);
    }
    let mut command: Vec<String> = Vec::new();
    let mut i: usize = 0;
    while i < elements.len()
        invariant
            i <= elements@.len(),
            resp@ == RespModel::Array(models(elements@)),
            command@.len() == i,
            forall|k: int| 0 <= k < i ==> #[trigger] models(elements@)[k] is BulkString,
            forall|k: int| 0 <= k < i ==> #[trigger] command@[k]@ == models(elements@)[k]->BulkString_0,
        decreases elements@.len() - i,
    {
        match &elements[i] {
            RESP::BulkString(v) => command.push(v.clone()),
            _ => {
                assert(!(models(elements@)[i as int] is BulkString));
                return None;
            },
        }
        i = i + 1;
    }
    assert(texts(command@) =~= models(elements@).map_values(|x: RespModel| x->BulkString_0));
    Some(command)
}

/// Whether the server would stop with a panic on the request.
pub fn request_would_panic(server: &Server, resp: &RESP) -> (r: bool)
    ensures
        r == request_panics(*server, resp@),
{
    match request_command(resp) {
        None => false,
        Some(command) => {
            if command.len() == 0 {
                return true;
            }
            proof {
                assert(texts(command@)[0] == command@[0]@);
            }
            let name = to_lowercase(command[0].as_str());
            (str_eq(name.as_str(), "echo") && command.len() < 2) || (str_eq(name.as_str(), "set")
                && server.storage.is_some() && command.len() < 3)
        },
    }
}

/// The requests on which the server answers with a syntax error before it
/// stops with a panic: SET with fewer than two arguments where a store is
/// set.
pub open spec fn replies_before_panic(server: Server, m: RespModel) -> bool {
    match request_words(m) {
        Some(words) => words.len() >= 1 && lowercase(words[0]) == "set"@ && server.storage is Some
            && words.len() < 3,
        None => false,
    }
}

/// The messages that the server sends on a request before it stops with a
/// panic: the syntax error (with the words of the request) for a SET that
/// lacks its value, nothing otherwise.
pub fn messages_before_panic(server: &Server, resp: &RESP) -> (r: Vec<ServerMessage>)
    ensures
        replies_before_panic(*server, resp@) ==> r@.len() == 1 && (request_words(resp@) matches Some(
            words,
        ) && reports(r@[0], ServerErrorModel::CommandSyntaxError(join_spec(words, " "@)))),
        !replies_before_panic(*server, resp@) ==> r@.len() == 0,
{
    let mut out: Vec<ServerMessage> = Vec::new();
    match request_command(resp) {
        None => {},
        Some(command) => {
            if command.len() >= 1 && command.len() < 3 && server.storage.is_some() {
                proof {
                    assert(texts(command@)[0] == command@[0]@);
                }
                let name = to_lowercase(command[0].as_str());
                if str_eq(name.as_str(), "set") {
                    out.push(ServerMessage::Error(ServerError::CommandSyntaxError(join(command.as_slice(), " "))));
                }
            }
        },
    }
    out
}

/// The first letters and lengths of the command names, which tell them
/// apart.
proof fn lemma_command_names()
    ensures
        "set"@.len() == 3,
        "set"@[0] == 's',
        "get"@.len() == 3,
        "get"@[0] == 'g',
        "echo"@.len() == 4,
        "echo"@[0] == 'e',
        "ping"@.len() == 4,
        "ping"@[0] == 'p',
        "info"@.len() == 4,
        "info"@[0] == 'i',
        "replconf"@.len() == 8,
        "replconf"@[0] == 'r',
        "psync"@.len() == 5,
        "psync"@[0] == 'p',
{
    reveal_strlit("set");
    reveal_strlit("get");
    reveal_strlit("echo");
    reveal_strlit("ping");
    reveal_strlit("info");
    reveal_strlit("replconf");
    reveal_strlit("psync");
}

/// Answers a request at `now`: the messages to send back, in order.
pub fn process_request_at(server: &mut Server, resp: &RESP, now: i128) -> (r: Vec<ServerMessage>)
    requires
        old(server).wf(),
        is_clock_reading(now as int),
        !request_panics(*old(server), resp@),
    ensures
        final(server).wf(),
        request_post(*old(server), *final(server), resp@, now, r@),
{
    let mut out: Vec<ServerMessage> = Vec::new();
    let command = match request_command(resp) {
        Some(command) => command,
        None => {
            out.push(ServerMessage::Error(ServerError::IncorrectData));
            return out;
        },
    };
    proof {
        let t = texts(command@);
        assert(t[0] == command@[0]@);
        if command.len() >= 2 {
            assert(t[1] == command@[1]@);
        }
    }
    let command_name = to_lowercase(command[0].as_str());
    let name = command_name.as_str();
    proof {
        lemma_command_names();
    }
    if str_eq(name, "echo") {
        out.push(crate::commands::echo::reply(&command));
    } else if str_eq(name, "ping") {
        out.push(crate::commands::ping::reply());
    } else if str_eq(name, "set") {
        out.push(crate::commands::set::reply_at(server, &command, now));
    } else if str_eq(name, "get") {
        out.push(crate::commands::get::reply_at(server, &command, now));
    } else if str_eq(name, "info") {
        out.push(crate::commands::info::reply(server));
    } else if str_eq(name, "replconf") {
        out.push(crate::commands::replonf::reply(command.as_slice()));
    } else if str_eq(name, "psync") {
        out = crate::commands::psync::reply(&command, server);
    } else {
        out.push(ServerMessage::Error(ServerError::CommandInternalError(command_name)));
    }
    out
}

/// Answers a request, with the time read from the clock; what the clock
/// reads is not stated.
pub fn process_request(server: &mut Server, resp: &RESP) -> (r: Vec<ServerMessage>)
    requires
        old(server).wf(),
        !request_panics(*old(server), resp@),
    ensures
        final(server).wf(),
        request_answered(*old(server), *final(server), resp@, r@),
{
    let now = now_nanos();
    process_request_at(server, resp, now)
}

/// Answers a request unless it is one on which the server stops with a
/// panic (see `request_panics`): `None` there.
pub fn try_process_request(server: &mut Server, resp: &RESP) -> (r: Option<Vec<ServerMessage>>)
    requires
        old(server).wf(),
    ensures
        final(server).wf(),
        r is None ==> *final(server) == *old(server) && request_panics(*old(server), resp@),
        r matches Some(messages) ==> !request_panics(*old(server), resp@) && request_answered(
            *old(server),
            *final(server),
            resp@,
            messages@,
        ),
{
    if request_would_panic(server, resp) {
        return None;
    }
    Some(process_request(server, resp))
}

/// The replica's handshake goes on only on the reply that each step
/// expects, and fails on any other: at the REPLCONF steps (listening port
/// and capabilities) only the simple string OK is accepted, at PING only
/// PONG, at PSYNC only a simple string that begins with `FULLRESYNC `, and
/// for the snapshot only the empty bulk string.
pub proof fn law_handshake_refuses_other_replies(step: HandshakeStep, reply: RespModel)
    ensures
        (step == HandshakeStep::ListeningPort || step == HandshakeStep::Capabilities) && reply
            != RespModel::SimpleString("OK"@) ==> !handshake_accepts(step, reply),
        step == HandshakeStep::Ping && reply != RespModel::SimpleString("PONG"@) ==> !handshake_accepts(
            step,
            reply,
        ),
        step == HandshakeStep::Psync && !(reply matches RespModel::SimpleString(v) && "FULLRESYNC "@.len()
            <= v.len() && v.subrange(0, "FULLRESYNC "@.len() as int) == "FULLRESYNC "@)
            ==> !handshake_accepts(step, reply),
        step == HandshakeStep::Rdb && reply != RespModel::BulkString(Seq::<char>::empty())
            ==> !handshake_accepts(step, reply),
{
}

/// A replica's handshake succeeds against the replies of a master: PING
/// is answered with PONG; the replica's listening port (when not 0) and its
/// capabilities are valid REPLCONF arguments, answered with OK; the master's
/// FULLRESYNC answer to PSYNC is accepted; and the empty snapshot that the
/// master sends reads as the empty bulk string that the last step expects.
pub proof fn law_replica_accepts_master_replies(master: Server, port: u16)
    requires
        port > 0,
    ensures
        handshake_accepts(HandshakeStep::Ping, RespModel::SimpleString("PONG"@)),
        handshake_request(HandshakeStep::ListeningPort, port) matches Some(m) && request_words(m) matches Some(w)
            && replconf_valid(w),
        handshake_request(HandshakeStep::Capabilities, port) matches Some(m) && request_words(m) matches Some(w)
            && replconf_valid(w),
        handshake_accepts(HandshakeStep::ListeningPort, RespModel::SimpleString("OK"@)),
        handshake_accepts(HandshakeStep::Capabilities, RespModel::SimpleString("OK"@)),
        handshake_accepts(
            HandshakeStep::Psync,
            RespModel::SimpleString(
                "FULLRESYNC "@ + master.replication.reolid@ + " "@ + dec_chars(
                    master.replication.repl_offset as nat,
                ),
            ),
        ),
        parse_value_spec(empty_rdb_bytes(), 0) matches Some((Ok(m), _)) && handshake_accepts(
            HandshakeStep::Rdb,
            m,
        ),
{
    reveal_strlit("REPLCONF");
    reveal_strlit("replconf");
    reveal_strlit("listening-port");
    reveal_strlit("capa");
    reveal_strlit("psync2");
    reveal_strlit("FULLRESYNC ");
    let lp = seq!["REPLCONF"@, "listening-port"@, dec_chars(port as nat)];
    let lpm = command_model(lp);
    assert(request_words(lpm) == Some(lp)) by {
        assert(lpm->Array_0.map_values(|x: RespModel| x->BulkString_0) =~= lp);
    }
    lemma_parse_dec_chars(port as nat, false, 0, u16::MAX as int);
    assert(eq_ignore_ascii_case_spec(lp[0], "replconf"@));
    assert(eq_ignore_ascii_case_spec(lp[1], "listening-port"@));
    let cp = seq!["REPLCONF"@, "capa"@, "psync2"@];
    let cpm = command_model(cp);
    assert(request_words(cpm) == Some(cp)) by {
        assert(cpm->Array_0.map_values(|x: RespModel| x->BulkString_0) =~= cp);
    }
    assert(eq_ignore_ascii_case_spec(cp[0], "replconf"@));
    assert(eq_ignore_ascii_case_spec(cp[1], "capa"@));
    assert(eq_ignore_ascii_case_spec(cp[2], "psync2"@));
    assert(!eq_ignore_ascii_case_spec(cp[1], "listening-port"@));
    let v = "FULLRESYNC "@ + master.replication.reolid@ + " "@ + dec_chars(
        master.replication.repl_offset as nat,
    );
    assert(v.subrange(0, "FULLRESYNC "@.len() as int) =~= "FULLRESYNC "@);
    let empty = RespModel::BulkString(Seq::<char>::empty());
    assert(encode_utf8(Seq::<char>::empty()) =~= Seq::<u8>::empty());
    assert(dec_bytes(0) =~= seq![48u8]);
    assert(resp_bytes(empty) =~= empty_rdb_bytes());
    law_read_back_written(empty);
}

} // verus!
