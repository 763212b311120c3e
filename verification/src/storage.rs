//! The key-value store: string values, deadlines after which keys expire,
//! and the commands that read and write them.
use crate::resp::{RESP, RespModel};
use crate::set::{parse_set_arguments, set_args_spec, KeyExistence, KeyExpiry, SetArgs};
use crate::storage_result::{StorageError, StorageResult};
use crate::text::{join, join_spec, lowercase, owned, str_eq, texts, to_lowercase};
use std::time::{Duration, SystemTime, SystemTimeError, UNIX_EPOCH};
use vstd::hash_map::StringHashMap;
use vstd::prelude::*;
use vstd::std_specs::cmp::PartialEqSpecImpl;

verus! {

broadcast use vstd::hash_map::group_hash_map_axioms;

/// The largest number of nanoseconds that a `Duration` holds, plus one.
pub open spec fn clock_limit() -> int {
    18446744073709551616int * 1000000000int
}

/// A time as the clock gives it: nanoseconds from the Unix epoch, negative
/// before it, less than `clock_limit()` away from it either way.
pub open spec fn is_clock_reading(t: int) -> bool {
    -clock_limit() < t < clock_limit()
}

#[verifier::external_type_specification]
#[verifier::external_body]
pub struct ExSystemTime(SystemTime);

#[verifier::external_type_specification]
#[verifier::external_body]
pub struct ExSystemTimeError(SystemTimeError);

/// `SystemTime::now()`: what the clock reads is not stated.
#[verifier::external_body]
fn system_now() -> SystemTime {
    SystemTime::now()
}

/// `SystemTime::duration_since(UNIX_EPOCH)`: how long after the Unix epoch
/// `t` lies, or an error that holds how long before it. Nothing is stated of
/// the result: a `SystemTime` is opaque here.
#[verifier::external_body]
fn since_epoch(t: SystemTime) -> Result<Duration, SystemTimeError> {
    t.duration_since(UNIX_EPOCH)
}

/// `SystemTimeError::duration`: how far before the epoch the time lay.
/// Nothing is stated of the result: the error is opaque here.
#[verifier::external_body]
fn error_duration(e: SystemTimeError) -> Duration {
    e.duration()
}

/// `Duration::as_nanos`: the contract claims only that the result is below
/// `clock_limit()` (a `Duration` holds at most `u64::MAX` seconds and fewer
/// than 10^9 further nanoseconds); which value it is is not stated, as a
/// `Duration` is opaque here.
#[verifier::external_body]
fn duration_nanos(d: Duration) -> (n: u128)
    ensures
        n < clock_limit(),
{
    d.as_nanos()
}

/// The time now, in nanoseconds from the Unix epoch (negative before it).
pub(crate) fn now_nanos() -> (t: i128)
    ensures
        is_clock_reading(t as int),
{
    match since_epoch(system_now()) {
        Ok(d) => duration_nanos(d) as i128,
        Err(e) => -(duration_nanos(error_duration(e)) as i128),
    }
}

#[derive(Debug)]
pub enum StorageValue {
    String(String),
}

impl PartialEq for StorageValue {
    fn eq(&self, other: &Self) -> (r: bool) {
        match (self, other) {
            (StorageValue::String(a), StorageValue::String(b)) => str_eq(a.as_str(), b.as_str()),
        }
    }
}

impl PartialEqSpecImpl for StorageValue {
    open spec fn obeys_eq_spec() -> bool {
        true
    }

    open spec fn eq_spec(&self, other: &StorageValue) -> bool {
        match (self, other) {
            (StorageValue::String(a), StorageValue::String(b)) => a@ == b@,
        }
    }
}

/// A stored value, when it was stored (nanoseconds from the Unix epoch),
/// and how long it lives (nanoseconds), if it expires.
pub struct StorageDate {
    pub value: StorageValue,
    pub creation_time: i128,
    pub expiry: Option<u128>,
}

impl StorageDate {
    /// A value stored at `creation_time` that does not expire.
    pub fn created(s: String, creation_time: i128) -> (r: Self)
        ensures
            r == (StorageDate { value: StorageValue::String(s), creation_time, expiry: None }),
    {
        StorageDate { value: StorageValue::String(s), creation_time, expiry: None }
    }

    pub fn add_expiry(&mut self, expiry: u128)
        ensures
            *final(self) == (StorageDate {
                value: old(self).value,
                creation_time: old(self).creation_time,
                expiry: Some(expiry),
            }),
    {
        self.expiry = Some(expiry);
    }
}

/// Two stored values are equal where their texts and lifetimes are; when
/// they were stored does not matter.
impl PartialEq for StorageDate {
    fn eq(&self, other: &Self) -> (r: bool) {
        let same_expiry: bool = match (self.expiry, other.expiry) {
            (Some(a), Some(b)) => a == b,
            (None, None) => true,
            _ => false,
        };
        self.value == other.value && same_expiry
    }
}

impl PartialEqSpecImpl for StorageDate {
    open spec fn obeys_eq_spec() -> bool {
        true
    }

    open spec fn eq_spec(&self, other: &StorageDate) -> bool {
        self.model().value == other.model().value && self.expiry == other.expiry
    }
}

/// The mathematical value of a `StorageDate`.
pub struct DateModel {
    pub value: Seq<char>,
    pub creation_time: i128,
    pub expiry: Option<u128>,
}

impl StorageDate {
    pub open spec fn model(&self) -> DateModel {
        DateModel {
            value: match self.value {
                StorageValue::String(s) => s@,
            },
            creation_time: self.creation_time,
            expiry: self.expiry,
        }
    }
}

/// How long an expiry option lets a key live, in nanoseconds.
pub open spec fn expiry_nanos(e: KeyExpiry) -> nat {
    match e {
        KeyExpiry::EX(v) => (v * 1000000000) as nat,
        KeyExpiry::PX(v) => (v * 1000000) as nat,
    }
}

/// Whether `key` has a deadline that `now` has reached.
pub open spec fn is_expired(deadlines: Map<Seq<char>, i128>, key: Seq<char>, now: i128) -> bool {
    deadlines.contains_key(key) && deadlines[key] <= now
}

/// The keys whose deadline `now` has reached.
pub open spec fn expired_keys(deadlines: Map<Seq<char>, i128>, now: i128) -> Set<Seq<char>> {
    Set::new(|k: Seq<char>| is_expired(deadlines, k, now))
}

/// How removing the expired keys at `now` changes the store from `pre` to
/// `post`: nothing changes where removal is off.
pub open spec fn expire_post(pre: Storage, post: Storage, now: i128) -> bool {
    &&& post.active() == pre.active()
    &&& pre.active() ==> post.entries() == pre.entries().remove_keys(
        expired_keys(pre.deadlines(), now),
    )
    &&& pre.active() ==> post.deadlines() == pre.deadlines().remove_keys(
        expired_keys(pre.deadlines(), now),
    )
    &&& !pre.active() ==> post.entries() == pre.entries()
    &&& !pre.active() ==> post.deadlines() == pre.deadlines()
}

/// Whether the existence option stops a SET, given whether the key exists.
pub open spec fn set_blocked(existence: Option<KeyExistence>, exists: bool) -> bool {
    match existence {
        Some(KeyExistence::NX) => exists,
        Some(KeyExistence::XX) => !exists,
        None => false,
    }
}

/// The texts of the strings of a sequence, as a set.
pub open spec fn listed(keys: Seq<String>) -> Set<Seq<char>> {
    Set::new(|k: Seq<char>| exists|i: int| 0 <= i < keys.len() && #[trigger] keys[i]@ == k)
}

proof fn lemma_listed_push(keys: Seq<String>, x: String)
    ensures
        listed(keys.push(x)) == listed(keys).insert(x@),
{
    let s = keys.push(x);
    assert forall|k: Seq<char>| #[trigger] listed(s).contains(k) implies listed(keys).insert(x@).contains(k) by {
        let i = choose|i: int| 0 <= i < s.len() && #[trigger] s[i]@ == k;
        if i < keys.len() {
            assert(keys[i] == s[i]);
        }
    }
    assert forall|k: Seq<char>| #[trigger] listed(keys).insert(x@).contains(k) implies listed(s).contains(k) by {
        if k == x@ {
            assert(s[keys.len() as int]@ == k);
        } else {
            let i = choose|i: int| 0 <= i < keys.len() && #[trigger] keys[i]@ == k;
            assert(s[i] == keys[i]);
        }
    }
    assert(listed(s) =~= listed(keys).insert(x@));
}

/// The stored values and deadlines after a read of `key` at `now`: a key
/// whose deadline has come is removed.
pub open spec fn purge(
    entries: Map<Seq<char>, DateModel>,
    deadlines: Map<Seq<char>, i128>,
    key: Seq<char>,
    now: i128,
) -> (Map<Seq<char>, DateModel>, Map<Seq<char>, i128>) {
    if is_expired(deadlines, key, now) {
        (entries.remove(key), deadlines.remove(key))
    } else {
        (entries, deadlines)
    }
}

/// The text stored under `key`, if any.
pub open spec fn lookup_in(entries: Map<Seq<char>, DateModel>, key: Seq<char>) -> Option<Seq<char>> {
    if entries.contains_key(key) {
        Some(entries[key].value)
    } else {
        None
    }
}

pub open spec fn option_text(o: Option<String>) -> Option<Seq<char>> {
    match o {
        Some(s) => Some(s@),
        None => None,
    }
}

/// What a SET stores: the value, when it was stored and how long it lives.
pub open spec fn stored_date(value: Seq<char>, args: SetArgs, now: i128) -> DateModel {
    DateModel {
        value,
        creation_time: now,
        expiry: match args.expiry {
            Some(e) => Some(expiry_nanos(e) as u128),
            None => None,
        },
    }
}

/// The deadlines after a SET of `key` at `now`: the new deadline, or none.
pub open spec fn set_deadlines(deadlines: Map<Seq<char>, i128>, key: Seq<char>, args: SetArgs, now: i128) -> Map<
    Seq<char>,
    i128,
> {
    match args.expiry {
        Some(e) => deadlines.insert(key, (now + expiry_nanos(e)) as i128),
        None => deadlines.remove(key),
    }
}

/// Whether a SET of `key` at `now` stores its value: NX finds no key and
/// XX finds one, once an expired key is removed.
pub open spec fn set_applies(pre: Storage, key: Seq<char>, args: SetArgs, now: i128) -> bool {
    let (e1, d1) = purge(pre.entries(), pre.deadlines(), key, now);
    !set_blocked(args.existence, e1.contains_key(key))
}

/// How a SET of `key` to `value` at `now` changes the store from `pre` to
/// `post`.
pub open spec fn set_post(
    pre: Storage,
    post: Storage,
    key: Seq<char>,
    value: Seq<char>,
    args: SetArgs,
    now: i128,
) -> bool {
    let (e1, d1) = purge(pre.entries(), pre.deadlines(), key, now);
    &&& post.active() == pre.active()
    &&& if set_applies(pre, key, args, now) {
        &&& post.entries() == e1.insert(key, stored_date(value, args, now))
        &&& post.deadlines() == set_deadlines(d1, key, args, now)
    } else {
        &&& post.entries() == e1
        &&& post.deadlines() == d1
    }
}

/// What SET answers.
pub open spec fn set_reply(r: StorageResult<Option<String>>, applies: bool) -> bool {
    r matches Ok(o) && (o is Some <==> applies) && (o matches Some(s) ==> s@ == "OK"@)
}

/// The store is as it was.
pub open spec fn unchanged(pre: Storage, post: Storage) -> bool {
    &&& post.entries() == pre.entries()
    &&& post.deadlines() == pre.deadlines()
    &&& post.active() == pre.active()
}

/// The answer is `Ok` with the value `m`.
pub open spec fn reply_is(r: StorageResult<RESP>, m: RespModel) -> bool {
    r matches Ok(v) && v@ == m
}

/// How the command GET (`command`, at `now`) changes the store and what it
/// answers.
pub open spec fn command_get_post(
    pre: Storage,
    post: Storage,
    command: Seq<String>,
    now: i128,
    r: StorageResult<RESP>,
) -> bool {
    if command.len() != 2 {
        unchanged(pre, post) && r matches Err(StorageError::IncorrectRequest)
    } else {
        let key = command[1]@;
        &&& post.active() == pre.active()
        &&& (post.entries(), post.deadlines()) == purge(pre.entries(), pre.deadlines(), key, now)
        &&& reply_is(
            r,
            match lookup_in(post.entries(), key) {
                Some(t) => RespModel::BulkString(t),
                None => RespModel::Null,
            },
        )
    }
}

/// How the command SET (`command`, at `now`) changes the store and what it
/// answers.
pub open spec fn command_set_post(
    pre: Storage,
    post: Storage,
    command: Seq<String>,
    now: i128,
    r: StorageResult<RESP>,
) -> bool {
    if command.len() < 3 {
        unchanged(pre, post) && r matches Err(StorageError::IncorrectRequest)
    } else {
        let options = texts(command.subrange(3, command.len() as int));
        match set_args_spec(options) {
            None => {
                &&& unchanged(pre, post)
                &&& r matches Err(StorageError::CommandSyntaxError(s))
                &&& s@ == join_spec(options, " "@)
            },
            Some(args) => {
                &&& set_post(pre, post, command[1]@, command[2]@, args, now)
                &&& reply_is(
                    r,
                    if set_applies(pre, command[1]@, args, now) {
                        RespModel::SimpleString("OK"@)
                    } else {
                        RespModel::Null
                    },
                )
            },
        }
    }
}

/// How a command (at `now`) changes the store and what it answers.
pub open spec fn process_post(
    pre: Storage,
    post: Storage,
    command: Seq<String>,
    now: i128,
    r: StorageResult<RESP>,
) -> bool {
    let name = lowercase(command[0]@);
    if name == "ping"@ {
        unchanged(pre, post) && reply_is(r, RespModel::SimpleString("PONG"@))
    } else if name == "echo"@ {
        unchanged(pre, post) && reply_is(r, RespModel::SimpleString(command[1]@))
    } else if name == "info"@ {
        unchanged(pre, post) && reply_is(
            r,
            RespModel::BulkString("# Server\r\nredis_version:7.0.0\r\n"@),
        )
    } else if name == "quit"@ {
        unchanged(pre, post) && reply_is(r, RespModel::SimpleString("OK"@))
    } else if name == "set"@ {
        command_set_post(pre, post, command, now, r)
    } else if name == "get"@ {
        command_get_post(pre, post, command, now, r)
    } else {
        &&& unchanged(pre, post)
        &&& r matches Err(StorageError::CommandNotAvaliable(s))
        &&& s@ == command[0]@
    }
}

pub struct Storage {
    store: StringHashMap<StorageDate>,
    expiry: StringHashMap<i128>,
    expiry_keys: Vec<String>,
    active_expire: bool,
}

impl Storage {
    /// The stored values by key.
    pub closed spec fn entries(&self) -> Map<Seq<char>, DateModel> {
        self.store@.map_values(|d: StorageDate| d.model())
    }

    /// The deadlines by key, in nanoseconds from the Unix epoch.
    pub closed spec fn deadlines(&self) -> Map<Seq<char>, i128> {
        self.expiry@
    }

    /// Whether `expire_keys` removes expired keys.
    pub closed spec fn active(&self) -> bool {
        self.active_expire
    }

    /// Every key that has a deadline is listed in `expiry_keys` (which may
    /// also list keys that no longer have one).
    pub closed spec fn wf(&self) -> bool {
        self.expiry@.dom().subset_of(listed(self.expiry_keys@))
    }

    /// The value of `key` as a reply: `Some` with its text where it is
    /// stored.
    pub open spec fn lookup(&self, key: Seq<char>) -> Option<Seq<char>> {
        if self.entries().contains_key(key) {
            Some(self.entries()[key].value)
        } else {
            None
        }
    }

    pub fn new() -> (r: Self)
        ensures
            r.wf(),
            r.entries() == Map::<Seq<char>, DateModel>::empty(),
            r.deadlines() == Map::<Seq<char>, i128>::empty(),
            r.active(),
    {
        let stroe: StringHashMap<StorageDate> = StringHashMap::new();
        assert(stroe@.map_values(|d: StorageDate| d.model()) =~= Map::<Seq<char>, DateModel>::empty());
        Self {
            store: stroe,
            expiry: StringHashMap::new(),
            expiry_keys: Vec::new(),
            active_expire: true,
        }
    }

    /// The number of stored keys.
    pub fn store_len(&self) -> (r: usize)
        ensures
            r == self.entries().len(),
    {
        assert(self.store@.map_values(|d: StorageDate| d.model()).dom() =~= self.store@.dom());
        self.store.len()
    }

    /// The number of keys that have a deadline.
    pub fn expiry_len(&self) -> (r: usize)
        ensures
            r == self.deadlines().len(),
    {
        self.expiry.len()
    }

    /// Whether `expire_keys` removes expired keys.
    pub fn active_expire(&self) -> (r: bool)
        ensures
            r == self.active(),
    {
        self.active_expire
    }

    /// Turns the removal of expired keys by `expire_keys` on or off.
    pub fn set_active_expire(&mut self, active: bool)
        requires
            old(self).wf(),
        ensures
            final(self).wf(),
            final(self).active() == active,
            final(self).entries() == old(self).entries(),
            final(self).deadlines() == old(self).deadlines(),
    {
        self.active_expire = active;
    }

    /// Drops the deadline of `key`, if it has one.
    fn clear_deadline(&mut self, key: &str)
        requires
            old(self).wf(),
        ensures
            final(self).wf(),
            final(self).entries() == old(self).entries(),
            final(self).deadlines() == old(self).deadlines().remove(key@),
            final(self).active() == old(self).active(),
    {
        self.expiry.remove(key);
    }

    /// Gives `key` the deadline `deadline`.
    pub fn put_deadline(&mut self, key: String, deadline: i128)
        requires
            old(self).wf(),
        ensures
            final(self).wf(),
            final(self).entries() == old(self).entries(),
            final(self).deadlines() == old(self).deadlines().insert(key@, deadline),
            final(self).active() == old(self).active(),
    {
        let present: bool = self.expiry.contains_key(key.as_str());
        if !present {
            let k2 = key.clone();
            proof {
                lemma_listed_push(self.expiry_keys@, k2);
            }
            self.expiry_keys.push(k2);
        }
        self.expiry.insert(key, deadline);
    }

    /// Removes the keys whose deadline `now` has reached, where removal of
    /// expired keys is on.
    pub fn expire_keys_at(&mut self, now: i128)
        requires
            old(self).wf(),
        ensures
            final(self).wf(),
            final(self).active() == old(self).active(),
            old(self).active() ==> final(self).entries() == old(self).entries().remove_keys(
                expired_keys(old(self).deadlines(), now),
            ),
            old(self).active() ==> final(self).deadlines() == old(self).deadlines().remove_keys(
                expired_keys(old(self).deadlines(), now),
            ),
            !old(self).active() ==> final(self).entries() == old(self).entries(),
            !old(self).active() ==> final(self).deadlines() == old(self).deadlines(),
    {
        if !self.active_expire {
            return ;
        }
        let ghost expired = expired_keys(old(self).expiry@, now);
        let mut keys: Vec<String> = Vec::new();
        std::mem::swap(&mut keys, &mut self.expiry_keys);
        let mut kept: Vec<String> = Vec::new();
        let ghost mut removed: Set<Seq<char>> = Set::empty();
        let mut i: usize = 0;
        while i < keys.len()
            invariant
                i <= keys@.len(),
                self.active_expire == old(self).active_expire,
                old(self).expiry@.dom().subset_of(listed(keys@)),
                expired == expired_keys(old(self).expiry@, now),
                removed.subset_of(expired),
                forall|a: int| 0 <= a < i && expired.contains(#[trigger] keys@[a]@) ==> removed.contains(keys@[a]@),
                self.store@ == old(self).store@.remove_keys(removed),
                self.expiry@ == old(self).expiry@.remove_keys(removed),
                forall|a: int|
                    0 <= a < i && self.expiry@.contains_key(#[trigger] keys@[a]@) ==> listed(kept@).contains(keys@[a]@),
            decreases keys@.len() - i,
        {
            let key: &String = &keys[i];
            let ghost kv = key@;
            assert(keys@[i as int]@ == kv);
            let found: Option<i128> = match self.expiry.get(key.as_str()) {
                Some(d) => Some(*d),
                None => None,
            };
            match found {
                Some(d) => {
                    assert(!removed.contains(kv));
                    assert(old(self).expiry@.contains_key(kv) && old(self).expiry@[kv] == d);
                    if d <= now {
                        assert(expired.contains(kv));
                        self.store.remove(key.as_str());
                        self.expiry.remove(key.as_str());
                        proof {
                            assert(old(self).store@.remove_keys(removed).remove(kv) =~= old(self).store@.remove_keys(removed.insert(kv)));
                            assert(old(self).expiry@.remove_keys(removed).remove(kv) =~= old(self).expiry@.remove_keys(removed.insert(kv)));
                            removed = removed.insert(kv);
                        }
                    } else {
                        assert(!expired.contains(kv));
                        let k2 = key.clone();
                        proof {
                            lemma_listed_push(kept@, k2);
                        }
                        kept.push(k2);
                    }
                },
                None => {
                    assert(!expired.contains(kv) || removed.contains(kv));
                },
            }
            i = i + 1;
        }
        self.expiry_keys = kept;
        proof {
            assert(removed =~= expired) by {
                assert forall|k: Seq<char>| expired.contains(k) implies removed.contains(k) by {
                    assert(old(self).expiry@.dom().contains(k));
                    assert(listed(keys@).contains(k));
                    let a = choose|a: int| 0 <= a < keys@.len() && #[trigger] keys@[a]@ == k;
                }
            }
            assert forall|k: Seq<char>| self.expiry@.dom().contains(k) implies listed(self.expiry_keys@).contains(k) by {
                assert(old(self).expiry@.dom().contains(k));
                assert(listed(keys@).contains(k));
                let a = choose|a: int| 0 <= a < keys@.len() && #[trigger] keys@[a]@ == k;
                assert(self.expiry@.contains_key(keys@[a]@));
            }
        }
    }

    /// Removes the keys whose deadline has come, where removal of expired
    /// keys is on; what the clock reads is not stated.
    pub fn expire_keys(&mut self)
        requires
            old(self).wf(),
        ensures
            final(self).wf(),
            exists|now: i128|
                is_clock_reading(now as int) && #[trigger] expire_post(*old(self), *final(self), now),
    {
        let now = now_nanos();
        self.expire_keys_at(now);
        assert(expire_post(*old(self), *self, now));
    }

    /// Reads `key` at `now`, first removing it if its deadline has come.
    pub fn get_at(&mut self, key: String, now: i128) -> (r: StorageResult<Option<String>>)
        requires
            old(self).wf(),
        ensures
            final(self).wf(),
            final(self).active() == old(self).active(),
            (final(self).entries(), final(self).deadlines()) == purge(
                old(self).entries(),
                old(self).deadlines(),
                key@,
                now,
            ),
            r matches Ok(o) && option_text(o) == lookup_in(final(self).entries(), key@),
    {
        let found: Option<i128> = match self.expiry.get(key.as_str()) {
            Some(t) => Some(*t),
            None => None,
        };
        if let Some(expiry_time) = found {
            if expiry_time <= now {
                self.store.remove(key.as_str());
                self.clear_deadline(key.as_str());
                return Ok(None);
            }
        }
        match self.store.get(key.as_str()) {
            Some(StorageDate { value: StorageValue::String(v), .. }) => Ok(Some(v.clone())),
            None => Ok(None),
        }
    }

    /// Reads `key`, first removing it if its deadline has come; what the
    /// clock reads is not stated.
    pub fn get(&mut self, key: String) -> (r: StorageResult<Option<String>>)
        requires
            old(self).wf(),
        ensures
            final(self).wf(),
            final(self).active() == old(self).active(),
            exists|now: i128|
                is_clock_reading(now as int) && (final(self).entries(), final(self).deadlines())
                    == #[trigger] purge(
                    old(self).entries(),
                    old(self).deadlines(),
                    key@,
                    now,
                ),
            r matches Ok(o) && option_text(o) == lookup_in(final(self).entries(), key@),
    {
        let now = now_nanos();
        self.get_at(key, now)
    }

    /// SET at `now`: reads the key (removing it if its deadline has come);
    /// unless NX finds it or XX misses it, stores the value with its
    /// deadline, or drops its deadline where none is given.
    pub fn set_at(&mut self, key: String, value: String, args: SetArgs, now: i128) -> (r: StorageResult<
        Option<String>,
    >)
        requires
            old(self).wf(),
            is_clock_reading(now as int),
        ensures
            final(self).wf(),
            final(self).active() == old(self).active(),
            set_post(*old(self), *final(self), key@, value@, args, now),
            set_reply(r, set_applies(*old(self), key@, args, now)),
    {
        let key_exists: bool = match self.get_at(key.clone(), now) {
            Ok(found) => found.is_some(),
            Err(e) => return Err(e),
        };
        match args.existence {
            Some(KeyExistence::NX) => {
                if key_exists {
                    return Ok(None);
                }
            },
            Some(KeyExistence::XX) => {
                if !key_exists {
                    return Ok(None);
                }
            },
            None => {},
        }
        let mut data = StorageDate::created(value, now);
        if let Some(expiry) = args.expiry {
            let duration: u128 = match expiry {
                KeyExpiry::EX(v) => (v as u128) * 1000000000,
                KeyExpiry::PX(v) => (v as u128) * 1000000,
            };
            data.add_expiry(duration);
            self.put_deadline(key.clone(), now + (duration as i128));
        } else {
            self.clear_deadline(key.as_str());
        }
        let ghost before = self.store@;
        let ghost kv = key@;
        assert(data.model() == stored_date(value@, args, now));
        self.store.insert(key, data);
        assert(self.store@.map_values(|d: StorageDate| d.model()) =~= before.map_values(
            |d: StorageDate| d.model(),
        ).insert(kv, data.model()));
        Ok(Some(owned("OK")))
    }

    /// SET, with the time read from the clock; what the clock reads is not
    /// stated.
    pub fn set(&mut self, key: String, value: String, args: SetArgs) -> (r: StorageResult<
        Option<String>,
    >)
        requires
            old(self).wf(),
        ensures
            final(self).wf(),
            final(self).active() == old(self).active(),
            exists|now: i128|
                is_clock_reading(now as int) && #[trigger] set_post(*old(self), *final(self), key@, value@, args, now) && set_reply(
                    r,
                    set_applies(*old(self), key@, args, now),
                ),
    {
        let now = now_nanos();
        self.set_at(key, value, args, now)
    }

    fn command_ping(&mut self, command: Vec<String>) -> (r: StorageResult<RESP>)
        ensures
            *final(self) == *old(self),
            reply_is(r, RespModel::SimpleString("PONG"@)),
    {
        Ok(RESP::SimpleString(owned("PONG")))
    }

    fn command_echo(&mut self, command: Vec<String>) -> (r: StorageResult<RESP>)
        requires
            command.len() >= 2,
        ensures
            *final(self) == *old(self),
            reply_is(r, RespModel::SimpleString(command@[1]@)),
    {
        Ok(RESP::SimpleString(command[1].clone()))
    }

    /// SET at `now` from the words of the command.
    pub fn command_set_at(&mut self, command: Vec<String>, now: i128) -> (r: StorageResult<RESP>)
        requires
            old(self).wf(),
            is_clock_reading(now as int),
        ensures
            final(self).wf(),
            command_set_post(*old(self), *final(self), command@, now, r),
    {
        if command.len() < 3 {
            return Err(StorageError::IncorrectRequest);
        }
        let options = tail_from(&command, 3);
        let set_args = match parse_set_arguments(&options) {
            Ok(args) => args,
            Err(e) => return Err(e),
        };
        let result = match self.set_at(command[1].clone(), command[2].clone(), set_args, now) {
            Ok(result) => result,
            Err(e) => return Err(e),
        };
        match result {
            Some(_) => Ok(RESP::SimpleString(owned("OK"))),
            None => Ok(RESP::Null),
        }
    }

    /// GET at `now` from the words of the command.
    pub fn command_get_at(&mut self, command: Vec<String>, now: i128) -> (r: StorageResult<RESP>)
        requires
            old(self).wf(),
        ensures
            final(self).wf(),
            command_get_post(*old(self), *final(self), command@, now, r),
    {
        if command.len() != 2 {
            return Err(StorageError::IncorrectRequest);
        }
        let output = self.get_at(command[1].clone(), now);
        match output {
            Ok(Some(v)) => Ok(RESP::BulkString(v)),
            Ok(None) => Ok(RESP::Null),
            Err(_) => Err(StorageError::CommandNotAvaliable(join(command.as_slice(), " "))),
        }
    }

    /// Runs a command at `now`: PING, ECHO, INFO, QUIT, SET and GET, named in
    /// any case of letters.
    pub fn process_command_at(&mut self, command: Vec<String>, now: i128) -> (r: StorageResult<RESP>)
        requires
            old(self).wf(),
            is_clock_reading(now as int),
            command.len() >= 1,
            lowercase(command@[0]@) == "echo"@ ==> command.len() >= 2,
        ensures
            final(self).wf(),
            process_post(*old(self), *final(self), command@, now, r),
    {
        let name = to_lowercase(command[0].as_str());
        let n = name.as_str();
        if str_eq(n, "ping") {
            self.command_ping(command)
        } else if str_eq(n, "echo") {
            self.command_echo(command)
        } else if str_eq(n, "info") {
            Ok(RESP::BulkString(owned("# Server\r\nredis_version:7.0.0\r\n")))
        } else if str_eq(n, "quit") {
            Ok(RESP::SimpleString(owned("OK")))
        } else if str_eq(n, "set") {
            self.command_set_at(command, now)
        } else if str_eq(n, "get") {
            self.command_get_at(command, now)
        } else {
            Err(StorageError::CommandNotAvaliable(command[0].clone()))
        }
    }

    /// Runs a command, with the time read from the clock; what the clock
    /// reads is not stated.
    pub fn process_command(&mut self, command: Vec<String>) -> (r: StorageResult<RESP>)
        requires
            old(self).wf(),
            command.len() >= 1,
            lowercase(command@[0]@) == "echo"@ ==> command.len() >= 2,
        ensures
            final(self).wf(),
            exists|now: i128|
                is_clock_reading(now as int) && #[trigger] process_post(
                    *old(self),
                    *final(self),
                    command@,
                    now,
                    r,
                ),
    {
        let now = now_nanos();
        self.process_command_at(command, now)
    }

    /// Runs a command unless it is one on which the command runner stops
    /// with a panic (no words, or ECHO without its argument): `None` there.
    pub fn try_process_command(&mut self, command: Vec<String>) -> (r: Option<StorageResult<RESP>>)
        requires
            old(self).wf(),
        ensures
            final(self).wf(),
            match r {
                None => *final(self) == *old(self) && (command@.len() == 0 || (lowercase(
                    command@[0]@,
                ) == "echo"@ && command@.len() < 2)),
                Some(res) => command@.len() >= 1 && (lowercase(command@[0]@) == "echo"@
                    ==> command@.len() >= 2) && exists|now: i128|
                    is_clock_reading(now as int) && #[trigger]
                    process_post(*old(self), *final(self), command@, now, res),
            },
    {
        if command.len() == 0 {
            return None;
        }
        let name = to_lowercase(command[0].as_str());
        if str_eq(name.as_str(), "echo") && command.len() < 2 {
            return None;
        }
        Some(self.process_command(command))
    }
}

/// The strings of `v` from position `from` on.
pub(crate) fn tail_from(v: &Vec<String>, from: usize) -> (r: Vec<String>)
    requires
        from <= v@.len(),
    ensures
        r@ == v@.subrange(from as int, v@.len() as int),
{
    let mut out: Vec<String> = Vec::new();
    let mut i: usize = from;
    while i < v.len()
        invariant
            from <= i <= v@.len(),
            out@ == v@.subrange(from as int, i as int),
        decreases v@.len() - i,
    {
        out.push(v[i].clone());
        i = i + 1;
        assert(out@ =~= v@.subrange(from as int, i as int));
    }
    out
}

// ---------------------------------------------------------------------------
// Laws
// ---------------------------------------------------------------------------

/// A read returns what the last SET stored: after a SET of `key` to `value`
/// that is carried out at `now`, a GET of `key` at `later` (before the
/// deadline that the SET gave, if any) finds `value` and removes nothing.
pub proof fn law_get_after_set(
    pre: Storage,
    mid: Storage,
    key: Seq<char>,
    value: Seq<char>,
    args: SetArgs,
    now: i128,
    later: i128,
)
    requires
        set_post(pre, mid, key, value, args, now),
        set_applies(pre, key, args, now),
        is_clock_reading(now as int),
        args.expiry matches Some(e) ==> later < now + expiry_nanos(e),
    ensures
        purge(mid.entries(), mid.deadlines(), key, later) == (mid.entries(), mid.deadlines()),
        lookup_in(mid.entries(), key) == Some(value),
{
}

/// NX does not overwrite: a SET with NX of a key that is stored and has not
/// expired leaves the stored values as they were.
pub proof fn law_nx_keeps_live_key(
    pre: Storage,
    post: Storage,
    key: Seq<char>,
    value: Seq<char>,
    args: SetArgs,
    now: i128,
)
    requires
        set_post(pre, post, key, value, args, now),
        args.existence == Some(KeyExistence::NX),
        pre.entries().contains_key(key),
        !is_expired(pre.deadlines(), key, now),
    ensures
        post.entries() == pre.entries(),
        post.deadlines() == pre.deadlines(),
{
}

/// XX does not create: a SET with XX of a key that is not stored (or has
/// expired) leaves it absent.
pub proof fn law_xx_needs_live_key(
    pre: Storage,
    post: Storage,
    key: Seq<char>,
    value: Seq<char>,
    args: SetArgs,
    now: i128,
)
    requires
        set_post(pre, post, key, value, args, now),
        args.existence == Some(KeyExistence::XX),
        !pre.entries().contains_key(key) || is_expired(pre.deadlines(), key, now),
    ensures
        !post.entries().contains_key(key),
{
}

/// Removing expired keys keeps exactly the keys that have not expired, and
/// afterwards every deadline lies after `now`.
pub proof fn law_expire_keeps_live_keys(pre: Storage, post: Storage, now: i128)
    requires
        expire_post(pre, post, now),
        pre.active(),
    ensures
        forall|k: Seq<char>|
            #[trigger] post.entries().contains_key(k) <==> (pre.entries().contains_key(k)
                && !is_expired(pre.deadlines(), k, now)),
        forall|k: Seq<char>|
            #[trigger] post.deadlines().contains_key(k) ==> post.deadlines()[k] > now,
{
}

} // verus!
