//! Replication settings: whether this server follows a master, and its
//! replication id and offset.
use crate::text::{owned, parse_int_spec, parse_u16};
use rand::distr::{Alphanumeric, SampleString};
use vstd::prelude::*;
use vstd::string::StrSliceExecFns;

verus! {

/// An ASCII letter or digit.
pub open spec fn is_ascii_alphanumeric(c: char) -> bool {
    ('0' <= c <= '9') || ('A' <= c <= 'Z') || ('a' <= c <= 'z')
}

/// `Alphanumeric.sample_string(&mut rand::rng(), len)`: the contract claims
/// that the text has `len` characters, each an ASCII letter or digit; which
/// ones is chance and is not stated.
#[verifier::external_body]
fn random_alphanumeric(len: usize) -> (s: String)
    ensures
        s@.len() == len,
        forall|i: int| 0 <= i < s@.len() ==> is_ascii_alphanumeric(#[trigger] s@[i]),
{
    Alphanumeric.sample_string(&mut rand::rng(), len)
}

#[derive(Debug, PartialEq, Clone)]
pub struct MasterConfig {
    pub host: String,
    pub port: u16,
}

#[derive(Debug, PartialEq, Clone)]
pub struct ReplicationConfig {
    pub master: Option<MasterConfig>,
    pub reolid: String,
    pub repl_offset: usize,
}

/// A replication id: 40 ASCII letters and digits.
pub open spec fn is_replid(s: Seq<char>) -> bool {
    &&& s.len() == 40
    &&& forall|i: int| 0 <= i < s.len() ==> is_ascii_alphanumeric(#[trigger] s[i])
}

#[derive(Debug, PartialEq, Eq, Structural)]
pub enum Role {
    Master,
    Replica,
}

#[derive(Debug, PartialEq)]
pub struct ReplicationInfo {
    pub role: Role,
    pub reolid: String,
    pub repl_offset: usize,
}

impl ReplicationConfig {
    /// The settings of a master: no master of its own, a fresh random id,
    /// offset 0.
    pub fn new_master() -> (r: Self)
        ensures
            r.master is None,
            is_replid(r.reolid@),
            r.repl_offset == 0,
    {
        ReplicationConfig { master: None, reolid: random_alphanumeric(40), repl_offset: 0 }
    }

    /// The settings of a replica of the master at `master_host`,
    /// `master_port`: a fresh random id, offset 0.
    pub fn new_replica(master_host: String, master_port: u16) -> (r: Self)
        ensures
            r.master == Some(MasterConfig { host: master_host, port: master_port }),
            is_replid(r.reolid@),
            r.repl_offset == 0,
    {
        ReplicationConfig {
            master: Some(MasterConfig { host: master_host, port: master_port }),
            reolid: random_alphanumeric(40),
            repl_offset: 0,
        }
    }

    /// The replication section of INFO: the role (replica where a master is
    /// set), the id and the offset.
    pub fn info(&self) -> (r: ReplicationInfo)
        ensures
            r.role == (if self.master is Some {
                Role::Replica
            } else {
                Role::Master
            }),
            r.reolid@ == self.reolid@,
            r.repl_offset == self.repl_offset,
    {
        ReplicationInfo {
            role: match self.master {
                Some(_) => Role::Replica,
                None => Role::Master,
            },
            reolid: self.reolid.clone(),
            repl_offset: self.repl_offset,
        }
    }
}

/// Reads the `--replicaof` option, `host port`: the text before the first
/// space is the host, the text after it the port (6379 where it is not a
/// port number); `None` where there is no space.
pub fn parse_replicaof(params: &str) -> (r: Option<MasterConfig>)
    ensures
        match r {
            None => forall|i: int| 0 <= i < params@.len() ==> params@[i] != ' ',
            Some(m) => exists|i: int|
                0 <= i < params@.len() && #[trigger] params@[i] == ' ' && (forall|j: int|
                    0 <= j < i ==> params@[j] != ' ') && m.host@ == params@.subrange(0, i)
                    && m.port == match parse_int_spec(
                    params@.subrange(i + 1, params@.len() as int),
                    false,
                    0,
                    u16::MAX as int,
                ) {
                    Some(p) => p as u16,
                    None => 6379u16,
                },
        },
{
    let n: usize = params.unicode_len();
    let mut i: usize = 0;
    while i < n
        invariant
            i <= n,
            n == params@.len(),
            forall|j: int| 0 <= j < i ==> params@[j] != ' ',
        decreases n - i,
    {
        if params.get_char(i) == ' ' {
            let host = params.substring_char(0, i);
            let rest = params.substring_char(i + 1, n);
            let port: u16 = match parse_u16(rest) {
                Some(p) => p,
                None => 6379,
            };
            let r = MasterConfig { host: owned(host), port };
            assert(params@[i as int] == ' ');
            return Some(r);
        }
        i = i + 1;
    }
    None
}

} // verus!
