use redis_lite::connection::{action_for, resp_from_received, ConnectionAction, ConnectionError};
use redis_lite::replication::{parse_replicaof, ReplicationConfig, Role};
use redis_lite::resp::RESP;
use redis_lite::server::{
    handshake_check, handshake_message, messages_before_panic, process_request, process_request_at, request_would_panic,
    HandshakeStep, Server, Serverinfo,
};
use redis_lite::server_result::{ServerError, ServerMessage, ServerValue};
use redis_lite::storage::Storage;

fn request(words: &[&str]) -> RESP {
    RESP::Array(words.iter().map(|w| RESP::BulkString(w.to_string())).collect())
}

fn only_resp(messages: Vec<ServerMessage>) -> RESP {
    assert_eq!(messages.len(), 1);
    match messages.into_iter().next().unwrap() {
        ServerMessage::Data(ServerValue::RESP(v)) => v,
        other => panic!("{:?}", other),
    }
}

fn only_error(messages: Vec<ServerMessage>) -> ServerError {
    assert_eq!(messages.len(), 1);
    match messages.into_iter().next().unwrap() {
        ServerMessage::Error(e) => e,
        other => panic!("{:?}", other),
    }
}

fn server_with_storage() -> Server {
    let mut server = Server::new(String::from("127.0.0.1"), 6379);
    server.set_storage(Storage::new());
    server
}

#[test]
fn new_server_is_a_master_without_storage() {
    let server = Server::new(String::from("127.0.0.1"), 6380);
    assert_eq!(server.info.host, "127.0.0.1");
    assert_eq!(server.info.port, 6380);
    assert!(server.storage.is_none());
    assert!(server.replication.master.is_none());
    assert_eq!(server.replication.reolid.len(), 40);
    assert!(server.replication.reolid.chars().all(|c| c.is_ascii_alphanumeric()));
    assert_eq!(server.replication.repl_offset, 0);
}

#[test]
fn rdb_header() {
    let server = Server::new(String::from("h"), 1);
    assert_eq!(server.generate_rdb(), b"REDIS001".to_vec());
}

#[test]
fn replication_info() {
    let master = ReplicationConfig::new_master();
    assert_eq!(master.info().role, Role::Master);
    assert_eq!(master.info().reolid, master.reolid);
    let replica = ReplicationConfig::new_replica(String::from("localhost"), 7000);
    assert_eq!(replica.info().role, Role::Replica);
    assert_eq!(replica.info().repl_offset, 0);
    assert_eq!(replica.master.as_ref().unwrap().port, 7000);
    assert_ne!(master.reolid, replica.reolid);
}

#[test]
fn replicaof_option() {
    let m = parse_replicaof("localhost 6380").unwrap();
    assert_eq!(m.host, "localhost");
    assert_eq!(m.port, 6380);
    let m = parse_replicaof("h notaport").unwrap();
    assert_eq!(m.port, 6379);
    assert!(parse_replicaof("localhost").is_none());
}

#[test]
fn ping_echo_and_unknown() {
    let mut server = server_with_storage();
    assert_eq!(only_resp(process_request_at(&mut server, &request(&["PING"]), 0)), RESP::SimpleString(String::from("PONG")));
    assert_eq!(only_resp(process_request_at(&mut server, &request(&["echo", "hey"]), 0)), RESP::SimpleString(String::from("hey")));
    assert_eq!(
        only_error(process_request_at(&mut server, &request(&["FOO", "bar"]), 0)),
        ServerError::CommandInternalError(String::from("foo"))
    );
}

#[test]
fn malformed_requests() {
    let mut server = server_with_storage();
    assert_eq!(only_error(process_request_at(&mut server, &RESP::SimpleString(String::from("PING")), 0)), ServerError::IncorrectData);
    let mixed = RESP::Array(vec![RESP::BulkString(String::from("GET")), RESP::Null]);
    assert_eq!(only_error(process_request_at(&mut server, &mixed, 0)), ServerError::IncorrectData);
    assert!(request_would_panic(&server, &RESP::Array(vec![])));
    assert!(request_would_panic(&server, &request(&["echo"])));
    assert!(request_would_panic(&server, &request(&["SET", "k"])));
    assert!(!request_would_panic(&Server::new(String::from("h"), 1), &request(&["SET", "k"])));
    assert!(!request_would_panic(&server, &request(&["get"])));
}

#[test]
fn syntax_error_sent_before_a_short_set_stops_the_server() {
    let server = server_with_storage();
    assert_eq!(
        only_error(messages_before_panic(&server, &request(&["Set", "k"]))),
        ServerError::CommandSyntaxError(String::from("Set k"))
    );
    assert_eq!(
        only_error(messages_before_panic(&server, &request(&["SET"]))),
        ServerError::CommandSyntaxError(String::from("SET"))
    );
    assert!(messages_before_panic(&server, &request(&["echo"])).is_empty());
    assert!(messages_before_panic(&server, &RESP::Array(vec![])).is_empty());
    assert!(messages_before_panic(&Server::new(String::from("h"), 1), &request(&["SET", "k"])).is_empty());
}

#[test]
fn set_and_get_through_the_server() {
    let mut server = server_with_storage();
    assert_eq!(only_resp(process_request_at(&mut server, &request(&["SET", "k", "v", "px", "10"]), 0)), RESP::SimpleString(String::from("OK")));
    assert_eq!(only_resp(process_request_at(&mut server, &request(&["GET", "k"]), 9_999_999)), RESP::BulkString(String::from("v")));
    assert_eq!(only_resp(process_request_at(&mut server, &request(&["GET", "k"]), 10_000_000)), RESP::Null);
    // NX that does not store still answers OK
    assert_eq!(only_resp(process_request_at(&mut server, &request(&["SET", "a", "1"]), 0)), RESP::SimpleString(String::from("OK")));
    assert_eq!(only_resp(process_request_at(&mut server, &request(&["SET", "a", "2", "NX"]), 0)), RESP::SimpleString(String::from("OK")));
    assert_eq!(only_resp(process_request_at(&mut server, &request(&["get", "a"]), 0)), RESP::BulkString(String::from("1")));
    assert_eq!(
        only_error(process_request_at(&mut server, &request(&["SET", "a", "2", "EX"]), 0)),
        ServerError::CommandSyntaxError(String::from("SET a 2 EX"))
    );
    assert_eq!(
        only_error(process_request_at(&mut server, &request(&["GET"]), 0)),
        ServerError::CommandSyntaxError(String::from("GET"))
    );
    assert_eq!(only_resp(process_request(&mut server, &request(&["get", "a"]))), RESP::BulkString(String::from("1")));
}

#[test]
fn storage_not_initialised() {
    let mut server = Server::new(String::from("h"), 1);
    assert_eq!(only_error(process_request_at(&mut server, &request(&["GET", "k"]), 0)), ServerError::StorageNotInititalised);
    assert_eq!(only_error(process_request_at(&mut server, &request(&["SET", "k"]), 0)), ServerError::StorageNotInititalised);
}

#[test]
fn info_reply() {
    let mut server = server_with_storage();
    let id = server.replication.reolid.clone();
    let expected = format!("# Replication\r\nrole:master\r\nmaster_replid:{}\r\nmaster_repl_offset:0", id);
    assert_eq!(only_resp(process_request_at(&mut server, &request(&["INFO", "replication"]), 0)), RESP::BulkString(expected));
    server.set_replication(ReplicationConfig::new_replica(String::from("m"), 1));
    let reply = only_resp(process_request_at(&mut server, &request(&["info"]), 0));
    match reply {
        RESP::BulkString(s) => assert!(s.contains("role:slave")),
        other => panic!("{:?}", other),
    }
}

#[test]
fn replconf_replies() {
    let mut server = server_with_storage();
    let ok = RESP::SimpleString(String::from("OK"));
    let bad = RESP::Error(String::from("ERR invalid REPLCONF arguments"));
    assert_eq!(only_resp(process_request_at(&mut server, &request(&["REPLCONF", "listening-port", "6380"]), 0)), ok);
    assert_eq!(only_resp(process_request_at(&mut server, &request(&["replconf", "CAPA", "PSYNC2"]), 0)), ok);
    assert_eq!(only_resp(process_request_at(&mut server, &request(&["REPLCONF", "listening-port", "0"]), 0)), bad);
    assert_eq!(only_resp(process_request_at(&mut server, &request(&["REPLCONF", "listening-port", "70000"]), 0)), bad);
    assert_eq!(only_resp(process_request_at(&mut server, &request(&["REPLCONF", "capa", "eof"]), 0)), bad);
    assert_eq!(only_resp(process_request_at(&mut server, &request(&["REPLCONF"]), 0)), bad);
}

#[test]
fn psync_replies() {
    let mut server = server_with_storage();
    let id = server.replication.reolid.clone();
    let messages = process_request_at(&mut server, &request(&["PSYNC", "?", "-1"]), 0);
    assert_eq!(messages.len(), 2);
    match &messages[0] {
        ServerMessage::Data(ServerValue::RESP(RESP::SimpleString(s))) => assert_eq!(*s, format!("FULLRESYNC {} 0", id)),
        other => panic!("{:?}", other),
    }
    match &messages[1] {
        ServerMessage::Data(ServerValue::Binary(b)) => assert_eq!(b.as_slice(), b"$0\r\n\r\n"),
        other => panic!("{:?}", other),
    }
    assert_eq!(
        only_error(process_request_at(&mut server, &request(&["PSYNC"]), 0)),
        ServerError::CommandSyntaxError(String::from("PSYNC"))
    );
}

#[test]
fn handshake_messages_and_checks() {
    let info = Serverinfo { host: String::from("127.0.0.1"), port: 6380 };
    assert_eq!(handshake_message(HandshakeStep::Ping, &info), Some(request(&["PING"])));
    assert_eq!(handshake_message(HandshakeStep::ListeningPort, &info), Some(request(&["REPLCONF", "listening-port", "6380"])));
    assert_eq!(handshake_message(HandshakeStep::Capabilities, &info), Some(request(&["REPLCONF", "capa", "psync2"])));
    assert_eq!(handshake_message(HandshakeStep::Psync, &info), Some(request(&["PSYNC", "?", "-1"])));
    assert_eq!(handshake_message(HandshakeStep::Rdb, &info), None);
    let pong = RESP::SimpleString(String::from("PONG"));
    assert_eq!(handshake_check(HandshakeStep::Ping, &pong), Ok(Some(HandshakeStep::ListeningPort)));
    assert_eq!(
        handshake_check(HandshakeStep::Ping, &RESP::SimpleString(String::from("OK"))),
        Err(ServerError::HandshakeFailed(String::from("PING expected PONG, got +OK\r\n")))
    );
    let full = RESP::SimpleString(String::from("FULLRESYNC abc 0"));
    assert_eq!(handshake_check(HandshakeStep::Psync, &full), Ok(Some(HandshakeStep::Rdb)));
    assert_eq!(handshake_check(HandshakeStep::Rdb, &RESP::BulkString(String::new())), Ok(None));
    assert_eq!(
        handshake_check(HandshakeStep::Rdb, &RESP::Null),
        Err(ServerError::HandshakeFailed(String::from("PSYNC expected empty RDB payload, got $-1\r\n")))
    );
}

#[test]
fn replica_handshake_against_this_master() {
    // the replies of this server to a replica's handshake pass the replica's checks
    let mut master = server_with_storage();
    let info = Serverinfo { host: String::from("127.0.0.1"), port: 6380 };
    let mut step = Some(HandshakeStep::Ping);
    let mut rounds = 0;
    while let Some(s) = step {
        rounds += 1;
        let reply = match handshake_message(s, &info) {
            Some(message) => {
                let mut replies = process_request_at(&mut master, &message, 0);
                if s == HandshakeStep::Psync {
                    let snapshot = replies.pop().unwrap();
                    let first = only_resp(replies);
                    assert_eq!(handshake_check(s, &first), Ok(Some(HandshakeStep::Rdb)));
                    match action_for(snapshot) {
                        ConnectionAction::Write(bytes) => {
                            step = Some(HandshakeStep::Rdb);
                            resp_from_received(&bytes).unwrap()
                        }
                        _ => panic!("snapshot not written"),
                    }
                } else {
                    only_resp(replies)
                }
            }
            None => unreachable!(),
        };
        if s == HandshakeStep::Psync {
            assert_eq!(handshake_check(HandshakeStep::Rdb, &reply), Ok(None));
            step = None;
        } else {
            step = handshake_check(s, &reply).unwrap();
        }
    }
    assert_eq!(rounds, 4);
}

#[test]
fn connection_actions_and_errors() {
    match action_for(ServerMessage::Data(ServerValue::RESP(RESP::Null))) {
        ConnectionAction::Write(b) => assert_eq!(b, b"$-1\r\n".to_vec()),
        _ => panic!(),
    }
    assert!(matches!(action_for(ServerMessage::Data(ServerValue::Nothing)), ConnectionAction::Nothing));
    assert!(matches!(
        action_for(ServerMessage::Error(ServerError::IncorrectData)),
        ConnectionAction::Close(ServerError::IncorrectData)
    ));
    match resp_from_received(b"") {
        Err(ConnectionError::CannotReadFromStream(s)) => assert_eq!(s, "connection closed by peer"),
        other => panic!("{:?}", other),
    }
    match resp_from_received(b"$x\r\n") {
        Err(ConnectionError::MalformedRESP(s)) => assert_eq!(s, "Cannot parse int"),
        other => panic!("{:?}", other),
    }
    assert_eq!(
        ConnectionError::ServerError(ServerError::HandshakeFailed(String::from("x"))).to_string(),
        "Handshake failed: x"
    );
    assert_eq!(ConnectionError::ReuquestError(String::from("a"), String::from("b")).to_string(), "ReuquestError: a b");
    assert_eq!(ConnectionError::CannotWriteToStream(String::from("c")).to_string(), "Cannot write to stream: c");
    assert_eq!(ServerError::CommandInternalError(String::from("d")).to_string(), "Internal error: d");
    assert_eq!(ServerError::CommandSyntaxError(String::from("e")).to_string(), "Syntax error: e");
    assert_eq!(ServerError::IncorrectData.to_string(), "Incorrect data");
    assert_eq!(ServerError::StorageNotInititalised.to_string(), "Storage not initialised");
}

#[test]
fn server_expire_keys() {
    let mut server = server_with_storage();
    process_request_at(&mut server, &request(&["SET", "k", "v", "PX", "1"]), 0);
    server.expire_keys();
    assert_eq!(server.storage.as_ref().unwrap().store_len(), 0);
    let mut bare = Server::new(String::from("h"), 1);
    bare.expire_keys();
    assert!(bare.storage.is_none());
}
