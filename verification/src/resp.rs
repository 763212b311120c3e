//! The RESP values exchanged with clients, their wire form and the reader
//! that turns bytes back into values.
use crate::resp_result::{RESPError, RESPLenth, RESPResult};
use crate::text::{
    all_digits, dec_bytes, dec_chars, digits_value, join, join_spec, lemma_dec_bytes_digits,
    lemma_dec_chars_digits, lemma_dec_chars_no_leading_zero, lemma_parse_dec_chars,
    lemma_parse_signed_dec_chars, parse_i32, parse_int_spec, push_decimal_bytes, push_str_bytes,
    signed_dec_chars, string_from_utf8, texts,
};
use vstd::prelude::*;
use vstd::utf8::*;

verus! {

broadcast use vstd::utf8::group_utf8_lib;

#[derive(Debug, PartialEq)]
pub enum RESP {
    SimpleString(String),
    Null,
    BulkString(String),
    RDBPrefix(usize),
    Array(Vec<RESP>),
    Integer(i64),
    Error(String),
}

/// The mathematical value of a `RESP`: texts in place of strings and a
/// sequence in place of the vector.
pub enum RespModel {
    SimpleString(Seq<char>),
    Null,
    BulkString(Seq<char>),
    RDBPrefix(usize),
    Array(Seq<RespModel>),
    Integer(i64),
    Error(Seq<char>),
}

pub open spec fn resp_model(r: &RESP) -> RespModel
    decreases r,
{
    match r {
        RESP::SimpleString(s) => RespModel::SimpleString(s@),
        RESP::Null => RespModel::Null,
        RESP::BulkString(s) => RespModel::BulkString(s@),
        RESP::RDBPrefix(n) => RespModel::RDBPrefix(*n),
        RESP::Array(v) => RespModel::Array(
            Seq::new(
                v.len() as nat,
                |i: int|
                    if 0 <= i < v.len() {
                        resp_model(&v[i])
                    } else {
                        RespModel::Null
                    },
            ),
        ),
        RESP::Integer(n) => RespModel::Integer(*n),
        RESP::Error(s) => RespModel::Error(s@),
    }
}

impl View for RESP {
    type V = RespModel;

    open spec fn view(&self) -> RespModel {
        resp_model(self)
    }
}

/// The models of a sequence of values.
pub open spec fn models(v: Seq<RESP>) -> Seq<RespModel> {
    v.map_values(|r: RESP| r@)
}

pub proof fn lemma_array_model(v: Vec<RESP>)
    ensures
        RESP::Array(v)@ == RespModel::Array(models(v@)),
{
    assert(RESP::Array(v)@->Array_0 =~= models(v@));
}

// ---------------------------------------------------------------------------
// Wire form
// ---------------------------------------------------------------------------

pub open spec fn crlf() -> Seq<u8> {
    seq![13u8, 10u8]
}

/// The bytes of the decimal text of a signed value.
pub open spec fn signed_dec_bytes(i: int) -> Seq<u8> {
    if i < 0 {
        seq![45u8] + dec_bytes((-i) as nat)
    } else {
        dec_bytes(i as nat)
    }
}

/// The bytes that a value is written as.
pub open spec fn resp_bytes(m: RespModel) -> Seq<u8>
    decreases m,
{
    match m {
        RespModel::SimpleString(v) => seq![43u8] + encode_utf8(v) + crlf(),
        RespModel::Null => seq![36u8, 45u8, 49u8, 13u8, 10u8],
        RespModel::BulkString(v) => seq![36u8] + dec_bytes(encode_utf8(v).len()) + crlf()
            + encode_utf8(v) + crlf(),
        RespModel::RDBPrefix(n) => seq![42u8, 82u8, 68u8, 66u8, 80u8, 114u8, 101u8, 102u8, 105u8, 120u8, 32u8]
            + dec_bytes(n as nat) + crlf(),
        RespModel::Array(items) => seq![42u8] + dec_bytes(items.len()) + crlf() + items_bytes(items),
        RespModel::Integer(n) => seq![58u8] + signed_dec_bytes(n as int) + crlf(),
        RespModel::Error(v) => seq![45u8] + encode_utf8(v) + crlf(),
    }
}

/// The bytes of the values of a sequence, one after the other.
pub open spec fn items_bytes(items: Seq<RespModel>) -> Seq<u8>
    decreases items,
{
    if items.len() == 0 {
        seq![]
    } else {
        resp_bytes(items[0]) + items_bytes(items.subrange(1, items.len() as int))
    }
}

proof fn lemma_items_bytes_push(items: Seq<RespModel>, x: RespModel)
    ensures
        items_bytes(items.push(x)) == items_bytes(items) + resp_bytes(x),
    decreases items.len(),
{
    let s = items.push(x);
    if items.len() == 0 {
        assert(s.subrange(1, s.len() as int) =~= Seq::<RespModel>::empty());
        assert(items_bytes(Seq::<RespModel>::empty()) =~= Seq::<u8>::empty());
        assert(items_bytes(s) =~= resp_bytes(x));
    } else {
        let tail = items.subrange(1, items.len() as int);
        lemma_items_bytes_push(tail, x);
        assert(s.subrange(1, s.len() as int) =~= tail.push(x));
        assert(items_bytes(s) =~= items_bytes(items) + resp_bytes(x));
    }
}

proof fn lemma_ascii_bytes_valid(b: Seq<u8>)
    requires
        forall|i: int| 0 <= i < b.len() ==> b[i] < 128,
    ensures
        valid_utf8(b),
{
    let c = Seq::new(b.len(), |i: int| (b[i] as u32) as char);
    assert(is_ascii_chars(c)) by {
        assert forall|i: int| 0 <= i < c.len() implies '\0' <= #[trigger] c[i] <= '\u{7f}' by {
            assert(b[i] < 128);
        }
    }
    is_ascii_chars_encode_utf8(c);
    assert forall|i: int| 0 <= i < c.len() implies c[i] as u8 == b[i] by {
        let x = b[i];
        assert((((x as u32) as char) as u8) == x);
    }
    assert(encode_utf8(c) =~= b);
}

proof fn lemma_dec_bytes_valid(n: nat)
    ensures
        valid_utf8(dec_bytes(n)),
{
    lemma_dec_chars_digits(n);
}

proof fn lemma_valid3(a: Seq<u8>, b: Seq<u8>, c: Seq<u8>)
    requires
        valid_utf8(a),
        valid_utf8(b),
        valid_utf8(c),
    ensures
        valid_utf8(a + b + c),
{
    valid_utf8_concat(a, b);
    valid_utf8_concat(a + b, c);
}

proof fn lemma_resp_bytes_valid(m: RespModel)
    ensures
        valid_utf8(resp_bytes(m)),
    decreases m,
{
    let c = crlf();
    lemma_ascii_bytes_valid(c);
    match m {
        RespModel::SimpleString(v) => {
            lemma_ascii_bytes_valid(seq![43u8]);
            encode_utf8_valid_utf8(v);
            lemma_valid3(seq![43u8], encode_utf8(v), c);
        },
        RespModel::Null => {
            lemma_ascii_bytes_valid(seq![36u8, 45u8, 49u8, 13u8, 10u8]);
        },
        RespModel::BulkString(v) => {
            lemma_ascii_bytes_valid(seq![36u8]);
            lemma_dec_bytes_valid(encode_utf8(v).len());
            encode_utf8_valid_utf8(v);
            let a = seq![36u8] + dec_bytes(encode_utf8(v).len());
            lemma_valid3(seq![36u8], dec_bytes(encode_utf8(v).len()), c);
            lemma_valid3(a + c, encode_utf8(v), c);
        },
        RespModel::RDBPrefix(n) => {
            let p = seq![42u8, 82u8, 68u8, 66u8, 80u8, 114u8, 101u8, 102u8, 105u8, 120u8, 32u8];
            lemma_ascii_bytes_valid(p);
            lemma_dec_bytes_valid(n as nat);
            lemma_valid3(p, dec_bytes(n as nat), c);
        },
        RespModel::Array(items) => {
            lemma_ascii_bytes_valid(seq![42u8]);
            lemma_dec_bytes_valid(items.len());
            lemma_items_bytes_valid(items);
            lemma_valid3(seq![42u8], dec_bytes(items.len()), c);
            valid_utf8_concat(seq![42u8] + dec_bytes(items.len()) + c, items_bytes(items));
        },
        RespModel::Integer(n) => {
            lemma_ascii_bytes_valid(seq![58u8]);
            lemma_ascii_bytes_valid(seq![45u8]);
            if n < 0 {
                lemma_dec_bytes_valid((-n) as nat);
                valid_utf8_concat(seq![45u8], dec_bytes((-n) as nat));
            } else {
                lemma_dec_bytes_valid(n as nat);
            }
            lemma_valid3(seq![58u8], signed_dec_bytes(n as int), c);
        },
        RespModel::Error(v) => {
            lemma_ascii_bytes_valid(seq![45u8]);
            encode_utf8_valid_utf8(v);
            lemma_valid3(seq![45u8], encode_utf8(v), c);
        },
    }
}

proof fn lemma_items_bytes_valid(items: Seq<RespModel>)
    ensures
        valid_utf8(items_bytes(items)),
    decreases items,
{
    if items.len() == 0 {
        lemma_ascii_bytes_valid(Seq::<u8>::empty());
    } else {
        lemma_resp_bytes_valid(items[0]);
        lemma_items_bytes_valid(items.subrange(1, items.len() as int));
        valid_utf8_concat(resp_bytes(items[0]), items_bytes(items.subrange(1, items.len() as int)));
    }
}

impl RESP {
    /// The text that the value is written as.
    pub open spec fn text(&self) -> Seq<char> {
        decode_utf8(resp_bytes(self@))
    }

    /// Appends the wire form of the value to `out`.
    pub fn write_bytes(&self, out: &mut Vec<u8>)
        ensures
            final(out)@ == old(out)@ + resp_bytes(self@),
        decreases self,
    {
        match self {
            RESP::SimpleString(value) => {
                out.push(43);
                push_str_bytes(out, value.as_str());
                out.push(13);
                out.push(10);
            },
            RESP::Null => {
                out.push(36);
                out.push(45);
                out.push(49);
                out.push(13);
                out.push(10);
            },
            RESP::BulkString(value) => {
                out.push(36);
                let len: usize = value.as_str().as_bytes().len();
                push_decimal_bytes(out, len as u64);
                out.push(13);
                out.push(10);
                push_str_bytes(out, value.as_str());
                out.push(13);
                out.push(10);
            },
            RESP::RDBPrefix(value) => {
                push_str_bytes(out, "*RDBPrefix ");
                proof {
                    reveal_strlit("*RDBPrefix ");
                    lemma_ascii_literal("*RDBPrefix "@);
                }
                push_decimal_bytes(out, *value as u64);
                out.push(13);
                out.push(10);
            },
            RESP::Array(values) => {
                out.push(42);
                push_decimal_bytes(out, values.len() as u64);
                out.push(13);
                out.push(10);
                let ghost start = out@;
                let mut i: usize = 0;
                while i < values.len()
                    invariant
                        i <= values@.len(),
                        *self is Array,
                        (*self)->Array_0 == *values,
                        out@ == start + items_bytes(models(values@.subrange(0, i as int))),
                    decreases values@.len() - i,
                {
                    proof {
                        assert(decreases_to!(*self => (*self)->Array_0));
                        assert((*self)->Array_0 == *values);
                        assert(decreases_to!(*values => values[i as int]));
                        assert(decreases_to!(*self => values[i as int]));
                    }
                    values[i].write_bytes(out);
                    proof {
                        let pre = models(values@.subrange(0, i as int));
                        assert(models(values@.subrange(0, i + 1)) =~= pre.push(values@[i as int]@));
                        lemma_items_bytes_push(pre, values@[i as int]@);
                    }
                    i = i + 1;
                }
                proof {
                    assert(values@.subrange(0, i as int) =~= values@);
                    lemma_array_model(*values);
                }
            },
            RESP::Integer(value) => {
                out.push(58);
                if *value < 0 {
                    out.push(45);
                    let m: u64 = if *value == i64::MIN {
                        9223372036854775808u64
                    } else {
                        (-*value) as u64
                    };
                    push_decimal_bytes(out, m);
                } else {
                    push_decimal_bytes(out, *value as u64);
                }
                out.push(13);
                out.push(10);
            },
            RESP::Error(value) => {
                out.push(45);
                push_str_bytes(out, value.as_str());
                out.push(13);
                out.push(10);
            },
        }
        assert(final(out)@ =~= old(out)@ + resp_bytes(self@));
    }

    /// The wire form of the value.
    pub fn to_bytes(&self) -> (r: Vec<u8>)
        ensures
            r@ == resp_bytes(self@),
    {
        let mut out: Vec<u8> = Vec::new();
        self.write_bytes(&mut out);
        assert(out@ =~= resp_bytes(self@));
        out
    }

    /// The value written out as text, as it goes on the wire.
    pub fn to_string(&self) -> (s: String)
        ensures
            s@ == self.text(),
            valid_utf8(resp_bytes(self@)),
    {
        let bytes = self.to_bytes();
        proof {
            lemma_resp_bytes_valid(self@);
        }
        match string_from_utf8(bytes) {
            Ok(s) => s,
            Err(_) => {
                proof {
                    assert(false);
                }
                String::new()
            },
        }
    }
}

proof fn lemma_ascii_literal(s: Seq<char>)
    requires
        is_ascii_chars(s),
    ensures
        encode_utf8(s) =~= Seq::new(s.len(), |i: int| s[i] as u8),
{
    is_ascii_chars_encode_utf8(s);
}

// ---------------------------------------------------------------------------
// Reader: what each step does, on the bytes and a position in them
// ---------------------------------------------------------------------------

/// The position `j` (searching from `j` on) of the first `\n` that follows a
/// `\r`, if any.
pub open spec fn crlf_search(buf: Seq<u8>, j: int) -> Option<int>
    decreases buf.len() - j,
{
    if j >= buf.len() {
        None
    } else if j >= 1 && buf[j - 1] == 13 && buf[j] == 10 {
        Some(j)
    } else {
        crlf_search(buf, j + 1)
    }
}

/// Reading a line that starts at `idx`: the bytes up to the first `\r\n`
/// after `idx`, and the position after that `\r\n`.
pub open spec fn extract_line_spec(buf: Seq<u8>, idx: int) -> (RESPResult<Seq<u8>>, int) {
    if idx >= buf.len() {
        (Err(RESPError::OutOfBounds(idx as usize)), idx)
    } else {
        match crlf_search(buf, idx + 1) {
            None => (Err(RESPError::OutOfBounds(buf.len() as usize)), buf.len() as int),
            Some(j) => (Ok(buf.subrange(idx, j - 1)), j + 1),
        }
    }
}

/// Reading a line as text.
pub open spec fn extract_line_string_spec(buf: Seq<u8>, idx: int) -> (RESPResult<Seq<char>>, int) {
    let (r, i) = extract_line_spec(buf, idx);
    match r {
        Ok(b) => if valid_utf8(b) {
            (Ok(decode_utf8(b)), i)
        } else {
            (Err(RESPError::FromUtf8), i)
        },
        Err(e) => (Err(e), i),
    }
}

/// Taking `length` bytes at `idx`.
pub open spec fn extract_bytes_spec(buf: Seq<u8>, idx: int, length: int) -> (RESPResult<Seq<u8>>, int) {
    if idx + length > buf.len() {
        (Err(RESPError::OutOfBounds(idx as usize)), idx)
    } else {
        (Ok(buf.subrange(idx, idx + length)), idx + length)
    }
}

/// Checking the type byte at `idx`.
pub open spec fn remove_type_spec(value: char, buf: Seq<u8>, idx: int) -> (RESPResult<()>, int) {
    if idx >= buf.len() {
        (Err(RESPError::OutOfBounds(idx as usize)), idx)
    } else if buf[idx] != value as u8 {
        (Err(RESPError::WrongType), idx)
    } else {
        (Ok(()), idx + 1)
    }
}

/// Reading a length line.
pub open spec fn extract_length_spec(buf: Seq<u8>, idx: int) -> (RESPResult<RESPLenth>, int) {
    let (r, i) = extract_line_string_spec(buf, idx);
    match r {
        Ok(s) => match parse_int_spec(s, true, i32::MIN as int, i32::MAX as int) {
            Some(n) => (Ok(n as i32), i),
            None => (Err(RESPError::ParseInt), i),
        },
        Err(e) => (Err(e), i),
    }
}

/// Reading a simple string (`+text\r\n`).
pub open spec fn simple_string_spec(buf: Seq<u8>, idx: int) -> (RESPResult<RespModel>, int) {
    let (r, i) = remove_type_spec('+', buf, idx);
    match r {
        Err(e) => (Err(e), i),
        Ok(_) => {
            let (t, j) = extract_line_string_spec(buf, i);
            match t {
                Ok(s) => (Ok(RespModel::SimpleString(s)), j),
                Err(e) => (Err(e), j),
            }
        },
    }
}

/// Reading a bulk string (`$length\r\nbytes\r\n`, or `$-1\r\n` for null).
pub open spec fn bulk_string_spec(buf: Seq<u8>, idx: int) -> (RESPResult<RespModel>, int) {
    let (r, i) = remove_type_spec('$', buf, idx);
    match r {
        Err(e) => (Err(e), i),
        Ok(_) => {
            let (l, j) = extract_length_spec(buf, i);
            match l {
                Err(e) => (Err(e), j),
                Ok(n) => if n == -1 {
                    (Ok(RespModel::Null), j)
                } else if n < -1 {
                    (Err(RESPError::IncorrectLength(n)), j)
                } else {
                    let (b, k) = extract_bytes_spec(buf, j, n as int);
                    match b {
                        Err(e) => (Err(e), k),
                        Ok(bytes) => if k + 2 > buf.len() || buf[k] != 13 || buf[k + 1] != 10 {
                            (Err(RESPError::OutOfBounds(k as usize)), k)
                        } else if valid_utf8(bytes) {
                            (Ok(RespModel::BulkString(decode_utf8(bytes))), k + 2)
                        } else {
                            (Err(RESPError::FromUtf8), k + 2)
                        },
                    }
                },
            }
        },
    }
}

/// Reading any value at `idx`: `None` where the reader would look at a type
/// byte past the end of the buffer.
pub open spec fn parse_value_spec(buf: Seq<u8>, idx: int) -> Option<(RESPResult<RespModel>, int)>
    decreases buf.len() - idx, 1int, 0int,
{
    if idx < 0 || idx >= buf.len() {
        None
    } else if buf[idx] == 43 {
        Some(simple_string_spec(buf, idx))
    } else if buf[idx] == 36 {
        Some(bulk_string_spec(buf, idx))
    } else if buf[idx] == 42 {
        array_spec(buf, idx)
    } else {
        Some((Err(RESPError::Unkonwn), idx))
    }
}

/// Reading an array (`*count\r\n` and that many values).
pub open spec fn array_spec(buf: Seq<u8>, idx: int) -> Option<(RESPResult<RespModel>, int)>
    decreases buf.len() - idx, 0int, 0int,
{
    let (r, i) = remove_type_spec('*', buf, idx);
    match r {
        Err(e) => Some((Err(e), i)),
        Ok(_) => {
            let (l, j) = extract_length_spec(buf, i);
            match l {
                Err(e) => Some((Err(e), j)),
                Ok(n) => if n < 0 {
                    Some((Err(RESPError::IncorrectLength(n)), j))
                } else if idx < j <= buf.len() {
                    array_items_spec(buf, j, n as nat, seq![])
                } else {
                    None
                },
            }
        },
    }
}

/// Reading `n` more values of an array at `j`, after the values `acc`.
pub open spec fn array_items_spec(buf: Seq<u8>, j: int, n: nat, acc: Seq<RespModel>) -> Option<
    (RESPResult<RespModel>, int),
>
    decreases buf.len() - j, 2int, n,
{
    if n == 0 {
        Some((Ok(RespModel::Array(acc)), j))
    } else {
        match parse_value_spec(buf, j) {
            None => None,
            Some((Err(e), k)) => Some((Err(e), k)),
            Some((Ok(v), k)) => if j < k <= buf.len() {
                array_items_spec(buf, k, (n - 1) as nat, acc.push(v))
            } else {
                None
            },
        }
    }
}

pub open spec fn bytes_outcome(r: RESPResult<Vec<u8>>) -> RESPResult<Seq<u8>> {
    match r {
        Ok(v) => Ok(v@),
        Err(e) => Err(e),
    }
}

pub open spec fn string_outcome(r: RESPResult<String>) -> RESPResult<Seq<char>> {
    match r {
        Ok(v) => Ok(v@),
        Err(e) => Err(e),
    }
}

pub open spec fn resp_outcome(r: RESPResult<RESP>) -> RESPResult<RespModel> {
    match r {
        Ok(v) => Ok(v@),
        Err(e) => Err(e),
    }
}

// ---------------------------------------------------------------------------
// Bounds of the reader's positions
// ---------------------------------------------------------------------------

proof fn lemma_crlf_search_bounds(buf: Seq<u8>, j: int)
    ensures
        crlf_search(buf, j) matches Some(k) ==> (j <= k < buf.len() && k >= 1 && buf[k - 1] == 13
            && buf[k] == 10),
    decreases buf.len() - j,
{
    if j < buf.len() && !(j >= 1 && buf[j - 1] == 13 && buf[j] == 10) {
        lemma_crlf_search_bounds(buf, j + 1);
    }
}

proof fn lemma_line_bounds(buf: Seq<u8>, idx: int)
    requires
        0 <= idx,
    ensures
        idx <= extract_line_spec(buf, idx).1,
        idx < buf.len() ==> idx < extract_line_spec(buf, idx).1 <= buf.len(),
        idx >= buf.len() ==> extract_line_spec(buf, idx).1 == idx,
        extract_line_spec(buf, idx).0 is Ok ==> idx < buf.len(),
{
    if idx < buf.len() {
        lemma_crlf_search_bounds(buf, idx + 1);
    }
}

proof fn lemma_simple_bulk_bounds(buf: Seq<u8>, idx: int)
    requires
        0 <= idx < buf.len(),
    ensures
        idx <= simple_string_spec(buf, idx).1 <= buf.len(),
        simple_string_spec(buf, idx).0 is Ok ==> idx < simple_string_spec(buf, idx).1,
        idx <= bulk_string_spec(buf, idx).1 <= buf.len(),
        bulk_string_spec(buf, idx).0 is Ok ==> idx < bulk_string_spec(buf, idx).1,
        idx <= extract_length_spec(buf, idx + 1).1 <= buf.len(),
{
    lemma_line_bounds(buf, idx + 1);
    let j = extract_length_spec(buf, idx + 1).1;
    lemma_line_bounds(buf, j);
}

proof fn lemma_parse_value_bounds(buf: Seq<u8>, idx: int)
    ensures
        parse_value_spec(buf, idx) matches Some((r, k)) ==> (0 <= idx <= k <= buf.len() && (r is Ok
            ==> idx < k)),
    decreases buf.len() - idx, 1int, 0int,
{
    if 0 <= idx < buf.len() {
        lemma_simple_bulk_bounds(buf, idx);
        if buf[idx] == 42 {
            lemma_array_bounds(buf, idx);
        }
    }
}

proof fn lemma_array_bounds(buf: Seq<u8>, idx: int)
    requires
        0 <= idx < buf.len(),
    ensures
        array_spec(buf, idx) matches Some((r, k)) ==> (idx <= k <= buf.len() && (r is Ok ==> idx
            < k)),
    decreases buf.len() - idx, 0int, 0int,
{
    lemma_simple_bulk_bounds(buf, idx);
    let (l, j) = extract_length_spec(buf, idx + 1);
    if buf[idx] == 42 && l is Ok && l->Ok_0 >= 0 && idx < j <= buf.len() {
        lemma_items_bounds(buf, j, l->Ok_0 as nat, seq![]);
    }
}

proof fn lemma_items_bounds(buf: Seq<u8>, j: int, n: nat, acc: Seq<RespModel>)
    requires
        0 <= j <= buf.len(),
    ensures
        array_items_spec(buf, j, n, acc) matches Some((r, k)) ==> j <= k <= buf.len(),
    decreases buf.len() - j, 2int, n,
{
    if n > 0 {
        lemma_parse_value_bounds(buf, j);
        if let Some((Ok(v), k)) = parse_value_spec(buf, j) {
            if j < k <= buf.len() {
                lemma_items_bounds(buf, k, (n - 1) as nat, acc.push(v));
            }
        }
    }
}

// ---------------------------------------------------------------------------
// Reader
// ---------------------------------------------------------------------------

fn copy_range(buffer: &[u8], from: usize, to: usize) -> (r: Vec<u8>)
    requires
        from <= to <= buffer@.len(),
    ensures
        r@ == buffer@.subrange(from as int, to as int),
{
    let mut out: Vec<u8> = Vec::new();
    let mut i: usize = from;
    while i < to
        invariant
            from <= i <= to,
            to <= buffer@.len(),
            out@ == buffer@.subrange(from as int, i as int),
        decreases to - i,
    {
        out.push(buffer[i]);
        i = i + 1;
        assert(out@ =~= buffer@.subrange(from as int, i as int));
    }
    out
}

/// Reads the line that starts at `*index`: its bytes without the closing
/// `\r\n`, leaving `*index` after it.
pub fn binary_extract_line(buffer: &[u8], index: &mut usize) -> (r: RESPResult<Vec<u8>>)
    ensures
        bytes_outcome(r) == extract_line_spec(buffer@, *old(index) as int).0,
        *final(index) == extract_line_spec(buffer@, *old(index) as int).1,
{
    let start: usize = *index;
    if start >= buffer.len() {
        return Err(RESPError::OutOfBounds(start));
    }
    let mut j: usize = start + 1;
    while j < buffer.len() && !(buffer[j - 1] == 13 && buffer[j] == 10)
        invariant
            start < j <= buffer@.len(),
            crlf_search(buffer@, start + 1) == crlf_search(buffer@, j as int),
        decreases buffer@.len() - j,
    {
        j = j + 1;
    }
    if j >= buffer.len() {
        *index = buffer.len();
        return Err(RESPError::OutOfBounds(buffer.len()));
    }
    let output = copy_range(buffer, start, j - 1);
    *index = j + 1;
    Ok(output)
}

/// Reads the line that starts at `*index` as text.
pub fn binary_extract_line_as_string(buffer: &[u8], index: &mut usize) -> (r: RESPResult<String>)
    ensures
        string_outcome(r) == extract_line_string_spec(buffer@, *old(index) as int).0,
        *final(index) == extract_line_string_spec(buffer@, *old(index) as int).1,
{
    let line = match binary_extract_line(buffer, index) {
        Ok(line) => line,
        Err(e) => return Err(e),
    };
    match string_from_utf8(line) {
        Ok(s) => Ok(s),
        Err(e) => Err(RESPError::from(e)),
    }
}

/// Checks that the byte at `*index` is the type byte `value` and steps over
/// it.
pub fn resp_remove_type(value: char, buffer: &[u8], index: &mut usize) -> (r: RESPResult<()>)
    ensures
        r == remove_type_spec(value, buffer@, *old(index) as int).0,
        *final(index) == remove_type_spec(value, buffer@, *old(index) as int).1,
{
    if *index >= buffer.len() {
        return Err(RESPError::OutOfBounds(*index));
    }
    if buffer[*index] != value as u8 {
        return Err(RESPError::WrongType);
    }
    *index = *index + 1;
    Ok(())
}

/// Reads a simple string at `*index`.
pub fn parse_simple_string(buffer: &[u8], index: &mut usize) -> (r: RESPResult<RESP>)
    ensures
        resp_outcome(r) == simple_string_spec(buffer@, *old(index) as int).0,
        *final(index) == simple_string_spec(buffer@, *old(index) as int).1,
{
    match resp_remove_type('+', buffer, index) {
        Ok(_) => {},
        Err(e) => return Err(e),
    }
    let value = match binary_extract_line_as_string(buffer, index) {
        Ok(value) => value,
        Err(e) => return Err(e),
    };
    Ok(RESP::SimpleString(value))
}

/// The readers that a type byte selects.
enum ParserKind {
    SimpleString,
    BulkString,
    Array,
}

/// The reader for the type byte at `index`.
fn parser_router(buffer: &[u8], index: usize) -> (r: Option<ParserKind>)
    requires
        index < buffer@.len(),
    ensures
        match r {
            Some(ParserKind::SimpleString) => buffer@[index as int] == 43,
            Some(ParserKind::BulkString) => buffer@[index as int] == 36,
            Some(ParserKind::Array) => buffer@[index as int] == 42,
            None => buffer@[index as int] != 43 && buffer@[index as int] != 36
                && buffer@[index as int] != 42,
        },
{
    match buffer[index] {
        43 => Some(ParserKind::SimpleString),
        36 => Some(ParserKind::BulkString),
        42 => Some(ParserKind::Array),
        _ => None,
    }
}

/// Reads a value at `*index`, or `None` where the reader would look at a type
/// byte past the end of the buffer.
pub fn bytes_to_resp_checked(buffer: &[u8], index: &mut usize) -> (r: Option<RESPResult<RESP>>)
    ensures
        match r {
            None => parse_value_spec(buffer@, *old(index) as int) is None,
            Some(res) => parse_value_spec(buffer@, *old(index) as int) == Some(
                (resp_outcome(res), *final(index) as int),
            ),
        },
    decreases buffer@.len() - *old(index), 1int,
{
    if *index >= buffer.len() {
        return None;
    }
    match parser_router(buffer, *index) {
        Some(ParserKind::SimpleString) => Some(parse_simple_string(buffer, index)),
        Some(ParserKind::BulkString) => Some(parse_bulk_string(buffer, index)),
        Some(ParserKind::Array) => parse_array(buffer, index),
        None => Some(Err(RESPError::Unkonwn)),
    }
}

/// Reads a value at `*index`.
pub fn bytes_to_resp(buffer: &[u8], index: &mut usize) -> (r: RESPResult<RESP>)
    requires
        parse_value_spec(buffer@, *old(index) as int) is Some,
    ensures
        parse_value_spec(buffer@, *old(index) as int) == Some(
            (resp_outcome(r), *final(index) as int),
        ),
{
    match bytes_to_resp_checked(buffer, index) {
        Some(r) => r,
        None => {
            proof {
                assert(false);
            }
            Err(RESPError::Unkonwn)
        },
    }
}

/// Takes `length` bytes at `*index`.
pub fn binary_extract_bytes(buffer: &[u8], index: &mut usize, length: usize) -> (r: RESPResult<
    Vec<u8>,
>)
    ensures
        bytes_outcome(r) == extract_bytes_spec(buffer@, *old(index) as int, length as int).0,
        *final(index) == extract_bytes_spec(buffer@, *old(index) as int, length as int).1,
{
    if *index > buffer.len() || length > buffer.len() - *index {
        return Err(RESPError::OutOfBounds(*index));
    }
    let output = copy_range(buffer, *index, *index + length);
    *index = *index + length;
    Ok(output)
}

/// Reads a length line at `*index`.
pub fn resp_extract_length(buffer: &[u8], index: &mut usize) -> (r: RESPResult<RESPLenth>)
    ensures
        r == extract_length_spec(buffer@, *old(index) as int).0,
        *final(index) == extract_length_spec(buffer@, *old(index) as int).1,
{
    let length_str = match binary_extract_line_as_string(buffer, index) {
        Ok(s) => s,
        Err(e) => return Err(e),
    };
    match parse_i32(length_str.as_str()) {
        Some(length) => Ok(length),
        None => Err(RESPError::ParseInt),
    }
}

/// Reads a bulk string (or null) at `*index`.
pub fn parse_bulk_string(buffer: &[u8], index: &mut usize) -> (r: RESPResult<RESP>)
    ensures
        resp_outcome(r) == bulk_string_spec(buffer@, *old(index) as int).0,
        *final(index) == bulk_string_spec(buffer@, *old(index) as int).1,
{
    match resp_remove_type('$', buffer, index) {
        Ok(_) => {},
        Err(e) => return Err(e),
    }
    let length = match resp_extract_length(buffer, index) {
        Ok(length) => length,
        Err(e) => return Err(e),
    };
    if length == -1 {
        return Ok(RESP::Null);
    }
    if length < -1 {
        return Err(RESPError::IncorrectLength(length));
    }
    let bytes = match binary_extract_bytes(buffer, index, length as usize) {
        Ok(bytes) => bytes,
        Err(e) => return Err(e),
    };
    if *index > buffer.len() || 2 > buffer.len() - *index || buffer[*index] != 13 || buffer[*index
        + 1] != 10 {
        return Err(RESPError::OutOfBounds(*index));
    }
    *index = *index + 2;
    match string_from_utf8(bytes) {
        Ok(value) => Ok(RESP::BulkString(value)),
        Err(e) => Err(RESPError::from(e)),
    }
}

/// Reads an array at `*index`, or `None` where the reader would look at a
/// type byte past the end of the buffer.
fn parse_array(buffer: &[u8], index: &mut usize) -> (r: Option<RESPResult<RESP>>)
    requires
        *old(index) < buffer@.len(),
    ensures
        match r {
            None => array_spec(buffer@, *old(index) as int) is None,
            Some(res) => array_spec(buffer@, *old(index) as int) == Some(
                (resp_outcome(res), *final(index) as int),
            ),
        },
    decreases buffer@.len() - *old(index), 0int,
{
    let start: usize = *index;
    let ghost idx0: int = *index as int;
    proof {
        lemma_simple_bulk_bounds(buffer@, idx0);
    }
    match resp_remove_type('*', buffer, index) {
        Ok(_) => {},
        Err(e) => return Some(Err(e)),
    }
    let length = match resp_extract_length(buffer, index) {
        Ok(length) => length,
        Err(e) => return Some(Err(e)),
    };
    if length < 0 {
        return Some(Err(RESPError::IncorrectLength(length)));
    }
    let ghost j0: int = *index as int;
    if *index <= start {
        return None;
    }
    let mut output: Vec<RESP> = Vec::new();
    let mut count: i32 = 0;
    assert(models(output@) =~= Seq::<RespModel>::empty());
    while count < length
        invariant
            0 <= count <= length,
            idx0 == *old(index) as int,
            idx0 < *index <= buffer@.len(),
            idx0 < j0 <= buffer@.len(),
            array_spec(buffer@, idx0) == array_items_spec(buffer@, j0, length as nat, seq![]),
            array_items_spec(buffer@, j0, length as nat, seq![]) == array_items_spec(
                buffer@,
                *index as int,
                (length - count) as nat,
                models(output@),
            ),
        decreases length - count,
    {
        let ghost j: int = *index as int;
        match bytes_to_resp_checked(buffer, index) {
            None => return None,
            Some(Err(e)) => return Some(Err(e)),
            Some(Ok(value)) => {
                proof {
                    lemma_parse_value_bounds(buffer@, j);
                    assert(models(output@.push(value)) =~= models(output@).push(value@));
                }
                output.push(value);
            },
        }
        count = count + 1;
    }
    proof {
        lemma_array_model(output);
    }
    Some(Ok(RESP::Array(output)))
}

/// A bulk string of the lines joined with `\r\n`.
pub fn bulk_string_from_vec(string: Vec<String>) -> (r: RESP)
    ensures
        r@ == RespModel::BulkString(join_spec(texts(string@), "\r\n"@)),
{
    RESP::BulkString(join(string.as_slice(), "\r\n"))
}

// ---------------------------------------------------------------------------
// Reading back what was written
// ---------------------------------------------------------------------------

/// Whether `b` holds a `\r` directly followed by a `\n`.
pub open spec fn has_crlf(b: Seq<u8>) -> bool {
    exists|i: int| 0 <= i && i + 1 < b.len() && #[trigger] b[i] == 13 && b[i + 1] == 10
}

/// The values that the reader reads back from their wire form: simple
/// strings whose bytes hold no `\r\n`, null, bulk strings and arrays that fit
/// the length field, and arrays of such values.
pub open spec fn readable(m: RespModel) -> bool
    decreases m,
{
    match m {
        RespModel::SimpleString(v) => !has_crlf(encode_utf8(v)),
        RespModel::Null => true,
        RespModel::BulkString(v) => encode_utf8(v).len() <= i32::MAX,
        RespModel::Array(items) => items.len() <= i32::MAX && forall|i: int|
            0 <= i < items.len() ==> readable(#[trigger] items[i]),
        _ => false,
    }
}

/// `seg` stands in `buf` at position `p`.
pub open spec fn stands_at(buf: Seq<u8>, p: int, seg: Seq<u8>) -> bool {
    &&& 0 <= p
    &&& p + seg.len() <= buf.len()
    &&& buf.subrange(p, p + seg.len()) == seg
}

proof fn lemma_stands_split(buf: Seq<u8>, p: int, a: Seq<u8>, b: Seq<u8>)
    requires
        stands_at(buf, p, a + b),
    ensures
        stands_at(buf, p, a),
        stands_at(buf, p + a.len(), b),
{
    let whole = buf.subrange(p, p + a.len() + b.len());
    assert(whole == a + b);
    assert forall|k: int| 0 <= k < a.len() implies buf.subrange(p, p + a.len())[k] == a[k] by {
        assert(whole[k] == (a + b)[k]);
    }
    assert(buf.subrange(p, p + a.len()) =~= a);
    assert forall|k: int| 0 <= k < b.len() implies buf.subrange(p + a.len(), p + a.len() + b.len())[k]
        == b[k] by {
        assert(whole[a.len() + k] == (a + b)[a.len() + k]);
    }
    assert(buf.subrange(p + a.len(), p + a.len() + b.len()) =~= b);
}

proof fn lemma_stands_byte(buf: Seq<u8>, p: int, seg: Seq<u8>, k: int)
    requires
        stands_at(buf, p, seg),
        0 <= k < seg.len(),
    ensures
        buf[p + k] == seg[k],
{
    assert(buf.subrange(p, p + seg.len())[k] == seg[k]);
}

proof fn lemma_crlf_found(buf: Seq<u8>, i: int, x: Seq<u8>, j: int)
    requires
        stands_at(buf, i, x + crlf()),
        !has_crlf(x),
        i + 1 <= j <= i + x.len() + 1,
    ensures
        crlf_search(buf, j) == Some(i + x.len() + 1),
    decreases i + x.len() + 1 - j,
{
    lemma_stands_split(buf, i, x, crlf());
    lemma_stands_byte(buf, i + x.len(), crlf(), 0);
    lemma_stands_byte(buf, i + x.len(), crlf(), 1);
    if j < i + x.len() + 1 {
        lemma_stands_byte(buf, i, x, j - 1 - i);
        if j < i + x.len() {
            lemma_stands_byte(buf, i, x, j - i);
            if buf[j - 1] == 13 && buf[j] == 10 {
                assert(x[j - 1 - i] == 13 && x[j - 1 - i + 1] == 10);
                assert(has_crlf(x));
            }
        }
        lemma_crlf_found(buf, i, x, j + 1);
    }
}

proof fn lemma_read_line(buf: Seq<u8>, i: int, x: Seq<u8>)
    requires
        stands_at(buf, i, x + crlf()),
        !has_crlf(x),
    ensures
        extract_line_spec(buf, i) == (Ok::<Seq<u8>, RESPError>(x), i + x.len() + 2),
{
    lemma_crlf_found(buf, i, x, i + 1);
    lemma_stands_split(buf, i, x, crlf());
    assert(buf.subrange(i, i + x.len()) == x);
}

proof fn lemma_read_text_line(buf: Seq<u8>, i: int, v: Seq<char>)
    requires
        stands_at(buf, i, encode_utf8(v) + crlf()),
        !has_crlf(encode_utf8(v)),
    ensures
        extract_line_string_spec(buf, i) == (Ok::<Seq<char>, RESPError>(v), i + encode_utf8(v).len()
            + 2),
{
    lemma_read_line(buf, i, encode_utf8(v));
    encode_utf8_valid_utf8(v);
    encode_utf8_decode_utf8(v);
}

proof fn lemma_dec_no_crlf(n: nat)
    ensures
        !has_crlf(dec_bytes(n)),
{
    lemma_dec_bytes_digits(n);
}

proof fn lemma_read_length(buf: Seq<u8>, i: int, n: nat)
    requires
        stands_at(buf, i, dec_bytes(n) + crlf()),
        n <= i32::MAX,
    ensures
        extract_length_spec(buf, i) == (Ok::<RESPLenth, RESPError>(n as i32), i + dec_bytes(n).len()
            + 2),
{
    lemma_dec_chars_digits(n);
    lemma_dec_no_crlf(n);
    lemma_read_text_line(buf, i, dec_chars(n));
    lemma_parse_dec_chars(n, true, i32::MIN as int, i32::MAX as int);
}

proof fn lemma_read_minus_one(buf: Seq<u8>, i: int)
    requires
        stands_at(buf, i, seq![45u8, 49u8] + crlf()),
    ensures
        extract_length_spec(buf, i) == (Ok::<RESPLenth, RESPError>(-1i32), i + 4),
{
    let v = seq!['-', '1'];
    assert(is_ascii_chars(v));
    is_ascii_chars_encode_utf8(v);
    assert(encode_utf8(v) =~= seq![45u8, 49u8]);
    assert(!has_crlf(seq![45u8, 49u8]));
    lemma_read_text_line(buf, i, v);
    let body = v.drop_first();
    assert(body =~= seq!['1']);
    assert(body.drop_last() =~= Seq::<char>::empty());
    assert(digits_value(Seq::<char>::empty()) == 0);
    assert(digits_value(body) == 1);
    assert(all_digits(body));
}

/// Reading at `p` gives back the value whose wire form stands there.
proof fn lemma_read_value(buf: Seq<u8>, p: int, m: RespModel)
    requires
        readable(m),
        stands_at(buf, p, resp_bytes(m)),
    ensures
        parse_value_spec(buf, p) == Some((Ok::<RespModel, RESPError>(m), p + resp_bytes(m).len())),
    decreases m,
{
    let c = crlf();
    match m {
        RespModel::SimpleString(v) => {
            let e = encode_utf8(v);
            assert(resp_bytes(m) == seq![43u8] + (e + c));
            lemma_stands_split(buf, p, seq![43u8], e + c);
            lemma_stands_byte(buf, p, seq![43u8], 0);
            lemma_read_text_line(buf, p + 1, v);
        },
        RespModel::Null => {
            assert(resp_bytes(m) =~= seq![36u8] + (seq![45u8, 49u8] + c));
            lemma_stands_split(buf, p, seq![36u8], seq![45u8, 49u8] + c);
            lemma_stands_byte(buf, p, seq![36u8], 0);
            lemma_read_minus_one(buf, p + 1);
        },
        RespModel::BulkString(v) => {
            let e = encode_utf8(v);
            let d = dec_bytes(e.len());
            assert(resp_bytes(m) =~= seq![36u8] + ((d + c) + (e + c)));
            lemma_stands_split(buf, p, seq![36u8], (d + c) + (e + c));
            lemma_stands_byte(buf, p, seq![36u8], 0);
            lemma_stands_split(buf, p + 1, d + c, e + c);
            lemma_read_length(buf, p + 1, e.len());
            let k = p + 1 + d.len() + 2;
            lemma_stands_split(buf, k, e, c);
            lemma_stands_byte(buf, k + e.len(), c, 0);
            lemma_stands_byte(buf, k + e.len(), c, 1);
            encode_utf8_valid_utf8(v);
            encode_utf8_decode_utf8(v);
        },
        RespModel::Array(items) => {
            let d = dec_bytes(items.len());
            let ib = items_bytes(items);
            assert(resp_bytes(m) =~= seq![42u8] + ((d + c) + ib));
            lemma_stands_split(buf, p, seq![42u8], (d + c) + ib);
            lemma_stands_byte(buf, p, seq![42u8], 0);
            lemma_stands_split(buf, p + 1, d + c, ib);
            lemma_read_length(buf, p + 1, items.len());
            let j = p + 1 + d.len() + 2;
            lemma_read_items(buf, j, items, seq![]);
            assert(Seq::<RespModel>::empty() + items =~= items);
        },
        _ => {},
    }
}

/// Reading the values of an array gives back the values whose wire forms
/// stand one after the other at `j`.
proof fn lemma_read_items(buf: Seq<u8>, j: int, items: Seq<RespModel>, acc: Seq<RespModel>)
    requires
        forall|i: int| 0 <= i < items.len() ==> readable(#[trigger] items[i]),
        stands_at(buf, j, items_bytes(items)),
    ensures
        array_items_spec(buf, j, items.len(), acc) == Some(
            (Ok::<RespModel, RESPError>(RespModel::Array(acc + items)), j + items_bytes(items).len()),
        ),
    decreases items,
{
    if items.len() == 0 {
        assert(acc + items =~= acc);
    } else {
        let first = items[0];
        let rest = items.subrange(1, items.len() as int);
        lemma_stands_split(buf, j, resp_bytes(first), items_bytes(rest));
        lemma_read_value(buf, j, first);
        lemma_resp_bytes_nonempty(first);
        assert forall|i: int| 0 <= i < rest.len() implies readable(#[trigger] rest[i]) by {
            assert(rest[i] == items[i + 1]);
        }
        lemma_read_items(buf, j + resp_bytes(first).len(), rest, acc.push(first));
        assert(acc.push(first) + rest =~= acc + items);
        assert((items.len() - 1) as nat == rest.len());
    }
}

proof fn lemma_resp_bytes_nonempty(m: RespModel)
    ensures
        resp_bytes(m).len() > 0,
{
}

/// What is written is read back: reading the wire form of a readable value
/// gives that value and stops at the end of it.
pub proof fn law_read_back_written(m: RespModel)
    requires
        readable(m),
    ensures
        parse_value_spec(resp_bytes(m), 0) == Some(
            (Ok::<RespModel, RESPError>(m), resp_bytes(m).len() as int),
        ),
{
    let b = resp_bytes(m);
    assert(b.subrange(0, b.len() as int) =~= b);
    lemma_read_value(b, 0, m);
}

/// An integer goes out as `:`, its decimal text and CRLF, for every `i64`:
/// the text reads back (as `str::parse::<i64>` reads it) as the integer
/// itself, begins with `-` exactly when the integer is negative, never with
/// `+`, and has no leading zero.
pub proof fn law_integer_wire_form(n: i64)
    ensures
        exists|t: Seq<char>|
            {
                &&& resp_bytes(RespModel::Integer(n)) == seq![58u8] + #[trigger] encode_utf8(t) + crlf()
                &&& parse_int_spec(t, true, i64::MIN as int, i64::MAX as int) == Some(n as int)
                &&& t.len() > 0
                &&& t[0] != '+'
                &&& (t[0] == '-' <==> n < 0)
                &&& (n < 0 ==> t.len() > 1 && t[1] != '0')
                &&& (n >= 0 && t.len() > 1 ==> t[0] != '0')
            },
{
    let t = signed_dec_chars(n as int);
    lemma_parse_signed_dec_chars(n as int, i64::MIN as int, i64::MAX as int);
    let m: nat = if n < 0 {
        (-(n as int)) as nat
    } else {
        n as nat
    };
    lemma_dec_chars_digits(m);
    lemma_dec_chars_no_leading_zero(m);
    assert(crate::text::is_digit(dec_chars(m)[0]));
    let e = encode_utf8(t);
    if n < 0 {
        assert(t[1] == dec_chars(m)[0]);
        assert(e =~= seq![45u8] + dec_bytes(m)) by {
            assert forall|k: int| 0 <= k < e.len() implies e[k] == (seq![45u8] + dec_bytes(m))[k] by {
                if k > 0 {
                    assert(t[k] == dec_chars(m)[k - 1]);
                    assert(encode_utf8(dec_chars(m))[k - 1] == dec_chars(m)[k - 1] as u8);
                }
            }
        }
    } else {
        assert(e == dec_bytes(m));
    }
    assert(resp_bytes(RespModel::Integer(n)) == seq![58u8] + e + crlf());
}

// ---------------------------------------------------------------------------
// Reading does not look past the value
// ---------------------------------------------------------------------------

proof fn lemma_crlf_search_extend(buf: Seq<u8>, extra: Seq<u8>, j: int)
    requires
        crlf_search(buf, j) is Some,
    ensures
        crlf_search(buf + extra, j) == crlf_search(buf, j),
    decreases buf.len() - j,
{
    let b2 = buf + extra;
    if j < buf.len() {
        if j >= 1 {
            assert(b2[j - 1] == buf[j - 1] && b2[j] == buf[j]);
        }
        if !(j >= 1 && buf[j - 1] == 13 && buf[j] == 10) {
            lemma_crlf_search_extend(buf, extra, j + 1);
        }
    }
}

proof fn lemma_line_extend(buf: Seq<u8>, extra: Seq<u8>, idx: int)
    requires
        0 <= idx,
        extract_line_spec(buf, idx).0 is Ok,
    ensures
        extract_line_spec(buf + extra, idx) == extract_line_spec(buf, idx),
        extract_line_string_spec(buf + extra, idx) == extract_line_string_spec(buf, idx),
        extract_length_spec(buf + extra, idx) == extract_length_spec(buf, idx),
{
    lemma_crlf_search_extend(buf, extra, idx + 1);
    lemma_crlf_search_bounds(buf, idx + 1);
    let j = crlf_search(buf, idx + 1)->Some_0;
    assert((buf + extra).subrange(idx, j - 1) =~= buf.subrange(idx, j - 1));
}

proof fn lemma_simple_bulk_extend(buf: Seq<u8>, extra: Seq<u8>, idx: int)
    requires
        0 <= idx < buf.len(),
    ensures
        simple_string_spec(buf, idx).0 is Ok ==> simple_string_spec(buf + extra, idx)
            == simple_string_spec(buf, idx),
        bulk_string_spec(buf, idx).0 is Ok ==> bulk_string_spec(buf + extra, idx)
            == bulk_string_spec(buf, idx),
        extract_line_spec(buf, idx + 1).0 is Ok ==> extract_length_spec(buf + extra, idx + 1)
            == extract_length_spec(buf, idx + 1),
{
    let b2 = buf + extra;
    assert(b2[idx] == buf[idx]);
    if extract_line_spec(buf, idx + 1).0 is Ok {
        lemma_line_extend(buf, extra, idx + 1);
    }
    if bulk_string_spec(buf, idx).0 is Ok {
        let (l, j) = extract_length_spec(buf, idx + 1);
        if let Ok(n) = l {
            lemma_line_bounds(buf, idx + 1);
            let k = j + n;
            if n >= 0 && k + 2 <= buf.len() {
                assert(b2.subrange(j, k) =~= buf.subrange(j, k));
                assert(b2[k] == buf[k] && b2[k + 1] == buf[k + 1]);
            }
        }
    }
}

proof fn lemma_parse_value_extend(buf: Seq<u8>, extra: Seq<u8>, idx: int)
    requires
        parse_value_spec(buf, idx) matches Some((Ok(_), _)),
    ensures
        parse_value_spec(buf + extra, idx) == parse_value_spec(buf, idx),
    decreases buf.len() - idx, 1int, 0int,
{
    let b2 = buf + extra;
    assert(b2[idx] == buf[idx]);
    lemma_simple_bulk_extend(buf, extra, idx);
    if buf[idx] == 42 {
        lemma_array_extend(buf, extra, idx);
    }
}

proof fn lemma_array_extend(buf: Seq<u8>, extra: Seq<u8>, idx: int)
    requires
        0 <= idx < buf.len(),
        array_spec(buf, idx) matches Some((Ok(_), _)),
    ensures
        array_spec(buf + extra, idx) == array_spec(buf, idx),
    decreases buf.len() - idx, 0int, 0int,
{
    let b2 = buf + extra;
    assert(b2[idx] == buf[idx]);
    lemma_simple_bulk_extend(buf, extra, idx);
    let (l, j) = extract_length_spec(buf, idx + 1);
    let n = l->Ok_0;
    lemma_items_extend(buf, extra, j, n as nat, seq![]);
}

proof fn lemma_items_extend(buf: Seq<u8>, extra: Seq<u8>, j: int, n: nat, acc: Seq<RespModel>)
    requires
        array_items_spec(buf, j, n, acc) matches Some((Ok(_), _)),
    ensures
        array_items_spec(buf + extra, j, n, acc) == array_items_spec(buf, j, n, acc),
    decreases buf.len() - j, 2int, n,
{
    if n > 0 {
        lemma_parse_value_extend(buf, extra, j);
        let (v, k) = parse_value_spec(buf, j)->Some_0;
        lemma_items_extend(buf, extra, k, (n - 1) as nat, acc.push(v->Ok_0));
    }
}

/// Reading stays in the buffer: where the reader ends, it ends at or after
/// where it began and not past the end; a value read takes at least one
/// byte.
pub proof fn law_reader_stays_in_buffer(buf: Seq<u8>, idx: int)
    ensures
        parse_value_spec(buf, idx) matches Some((r, k)) ==> (0 <= idx <= k <= buf.len() && (r is Ok
            ==> idx < k)),
{
    lemma_parse_value_bounds(buf, idx);
}

/// A value is read the same whatever bytes follow it: where reading at `idx`
/// gives a value, reading with more bytes appended gives the same value and
/// ends at the same place.
pub proof fn law_read_ignores_what_follows(buf: Seq<u8>, extra: Seq<u8>, idx: int)
    requires
        parse_value_spec(buf, idx) matches Some((Ok(_), _)),
    ensures
        parse_value_spec(buf + extra, idx) == parse_value_spec(buf, idx),
{
    lemma_parse_value_extend(buf, extra, idx);
}

} // verus!
