//! Text helpers shared by the protocol, the command parser and the storage:
//! decimal numbers, joining, ASCII case folding and UTF-8 decoding.
use vstd::prelude::*;
use vstd::string::*;
use vstd::utf8::*;
use std::string::FromUtf8Error;

verus! {

broadcast use vstd::utf8::group_utf8_lib;

// ---------------------------------------------------------------------------
// Decimal numbers
// ---------------------------------------------------------------------------

/// The ASCII digit for `d` (for `d < 10`).
pub open spec fn digit_char(d: nat) -> char {
    if d == 0 {
        '0'
    } else if d == 1 {
        '1'
    } else if d == 2 {
        '2'
    } else if d == 3 {
        '3'
    } else if d == 4 {
        '4'
    } else if d == 5 {
        '5'
    } else if d == 6 {
        '6'
    } else if d == 7 {
        '7'
    } else if d == 8 {
        '8'
    } else {
        '9'
    }
}

/// The decimal digits of `n`, most significant first, without sign.
pub open spec fn dec_chars(n: nat) -> Seq<char>
    decreases n,
{
    if n < 10 {
        seq![digit_char(n)]
    } else {
        dec_chars(n / 10).push(digit_char(n % 10))
    }
}

/// The decimal text of a signed integer: a `-` in front of negative values.
pub open spec fn signed_dec_chars(i: int) -> Seq<char> {
    if i < 0 {
        seq!['-'] + dec_chars((-i) as nat)
    } else {
        dec_chars(i as nat)
    }
}

/// The bytes of the decimal digits of `n`.
pub open spec fn dec_bytes(n: nat) -> Seq<u8>
    decreases n,
{
    if n < 10 {
        seq![(n + 48) as u8]
    } else {
        dec_bytes(n / 10).push((n % 10 + 48) as u8)
    }
}

pub open spec fn is_digit(c: char) -> bool {
    '0' <= c <= '9'
}

pub open spec fn all_digits(s: Seq<char>) -> bool {
    forall|i: int| 0 <= i < s.len() ==> #[trigger] is_digit(s[i])
}

/// The value of a run of decimal digits.
pub open spec fn digits_value(s: Seq<char>) -> nat
    decreases s.len(),
{
    if s.len() == 0 {
        0
    } else {
        digits_value(s.drop_last()) * 10 + ((s.last() as int - 48) as nat)
    }
}

/// What `str::parse` gives for an integer type whose values are `lo..=hi`:
/// an optional sign (`-` only where the type is signed) followed by at least
/// one decimal digit and nothing else, with a value in range.
pub open spec fn parse_int_spec(s: Seq<char>, signed: bool, lo: int, hi: int) -> Option<int> {
    let has_sign = s.len() > 0 && (s[0] == '+' || (signed && s[0] == '-'));
    let negative = s.len() > 0 && signed && s[0] == '-';
    let body = if has_sign {
        s.drop_first()
    } else {
        s
    };
    if body.len() == 0 || !all_digits(body) {
        None
    } else {
        let v: int = if negative {
            -(digits_value(body) as int)
        } else {
            digits_value(body) as int
        };
        if lo <= v <= hi {
            Some(v)
        } else {
            None
        }
    }
}

proof fn lemma_digit_char(d: nat)
    requires
        d < 10,
    ensures
        digit_char(d) as int == d + 48,
        is_digit(digit_char(d)),
{
}

pub proof fn lemma_dec_chars_digits(n: nat)
    ensures
        all_digits(dec_chars(n)),
        dec_chars(n).len() > 0,
        digits_value(dec_chars(n)) == n,
        is_ascii_chars(dec_chars(n)),
        encode_utf8(dec_chars(n)) == dec_bytes(n),
    decreases n,
{
    if n < 10 {
        lemma_digit_char(n);
        assert(dec_chars(n).drop_last() =~= Seq::<char>::empty());
        assert(digits_value(Seq::<char>::empty()) == 0);
        assert(digits_value(dec_chars(n)) == n);
    } else {
        lemma_dec_chars_digits(n / 10);
        lemma_digit_char(n % 10);
        let s = dec_chars(n);
        assert(s.drop_last() =~= dec_chars(n / 10));
        assert(s.last() == digit_char(n % 10));
        assert(digits_value(s) == digits_value(dec_chars(n / 10)) * 10 + (n % 10));
        assert(n == (n / 10) * 10 + n % 10);
        assert forall|i: int| 0 <= i < s.len() implies #[trigger] is_digit(s[i]) by {
            if i < s.len() - 1 {
                assert(s[i] == dec_chars(n / 10)[i]);
            }
        }
    }
    let s = dec_chars(n);
    assert(is_ascii_chars(s)) by {
        assert forall|i: int| 0 <= i < s.len() implies '\0' <= #[trigger] s[i] <= '\u{7f}' by {
            assert(is_digit(s[i]));
        }
    }
    is_ascii_chars_encode_utf8(s);
    lemma_dec_bytes_len(n);
    assert(encode_utf8(s) =~= dec_bytes(n)) by {
        lemma_dec_bytes_chars(n);
    }
}

/// The decimal bytes are ASCII digits, and there is at least one.
pub proof fn lemma_dec_bytes_digits(n: nat)
    ensures
        dec_bytes(n).len() > 0,
        forall|i: int| 0 <= i < dec_bytes(n).len() ==> 48 <= #[trigger] dec_bytes(n)[i] <= 57,
    decreases n,
{
    if n >= 10 {
        lemma_dec_bytes_digits(n / 10);
        let s = dec_bytes(n);
        assert forall|i: int| 0 <= i < s.len() implies 48 <= #[trigger] s[i] <= 57 by {
            if i < s.len() - 1 {
                assert(s[i] == dec_bytes(n / 10)[i]);
            }
        }
    }
}

proof fn lemma_dec_bytes_len(n: nat)
    ensures
        dec_bytes(n).len() == dec_chars(n).len(),
    decreases n,
{
    if n >= 10 {
        lemma_dec_bytes_len(n / 10);
    }
}

proof fn lemma_dec_bytes_chars(n: nat)
    ensures
        dec_bytes(n).len() == dec_chars(n).len(),
        forall|i: int| 0 <= i < dec_bytes(n).len() ==> dec_bytes(n)[i] == dec_chars(n)[i] as u8,
    decreases n,
{
    lemma_dec_bytes_len(n);
    if n >= 10 {
        lemma_dec_bytes_chars(n / 10);
    }
}

/// The decimal text of a value in range parses back to it.
pub proof fn lemma_parse_dec_chars(n: nat, signed: bool, lo: int, hi: int)
    requires
        lo <= n <= hi,
    ensures
        parse_int_spec(dec_chars(n), signed, lo, hi) == Some(n as int),
{
    lemma_dec_chars_digits(n);
    let s = dec_chars(n);
    assert(is_digit(s[0]));
}

/// The decimal text of a value has no leading zero: only 0 itself starts
/// with the digit 0.
pub proof fn lemma_dec_chars_no_leading_zero(n: nat)
    ensures
        dec_chars(n).len() > 1 ==> dec_chars(n)[0] != '0',
        dec_chars(n)[0] == '0' <==> n == 0,
    decreases n,
{
    if n < 10 {
        lemma_digit_char(n);
    } else {
        lemma_dec_chars_no_leading_zero(n / 10);
        assert(dec_chars(n)[0] == dec_chars(n / 10)[0]);
    }
}

/// The text of a signed value reads back as that value (as `str::parse`
/// reads a signed type whose range holds it).
pub proof fn lemma_parse_signed_dec_chars(i: int, lo: int, hi: int)
    requires
        lo <= i <= hi,
    ensures
        parse_int_spec(signed_dec_chars(i), true, lo, hi) == Some(i),
        is_ascii_chars(signed_dec_chars(i)),
{
    if i >= 0 {
        lemma_parse_dec_chars(i as nat, true, lo, hi);
        lemma_dec_chars_digits(i as nat);
    } else {
        let m = (-i) as nat;
        lemma_dec_chars_digits(m);
        let s = signed_dec_chars(i);
        assert(s.drop_first() =~= dec_chars(m));
        assert(is_digit(dec_chars(m)[0]));
        assert(is_ascii_chars(s)) by {
            assert forall|k: int| 0 <= k < s.len() implies '\0' <= #[trigger] s[k] <= '\u{7f}' by {
                if k > 0 {
                    assert(s[k] == dec_chars(m)[k - 1]);
                }
            }
        }
    }
}

/// Appends the UTF-8 bytes of `s` to `out`.
pub fn push_str_bytes(out: &mut Vec<u8>, s: &str)
    ensures
        final(out)@ == old(out)@ + encode_utf8(s@),
{
    let bytes: &[u8] = s.as_bytes();
    let mut i: usize = 0;
    while i < bytes.len()
        invariant
            i <= bytes@.len(),
            bytes@ == encode_utf8(s@),
            out@ == old(out)@ + bytes@.subrange(0, i as int),
        decreases bytes@.len() - i,
    {
        out.push(bytes[i]);
        i = i + 1;
        assert(out@ =~= old(out)@ + bytes@.subrange(0, i as int));
    }
    assert(bytes@.subrange(0, i as int) =~= bytes@);
}

/// Appends the decimal digits of `n` to `out`.
pub fn push_decimal_bytes(out: &mut Vec<u8>, n: u64)
    ensures
        final(out)@ == old(out)@ + dec_bytes(n as nat),
    decreases n,
{
    if n >= 10 {
        push_decimal_bytes(out, n / 10);
    }
    let d: u8 = (n % 10) as u8;
    out.push(d + 48);
    assert(final(out)@ =~= old(out)@ + dec_bytes(n as nat)) by {
        if n >= 10 {
            assert(dec_bytes(n as nat) =~= dec_bytes((n / 10) as nat).push((n % 10 + 48) as u8));
        }
    }
}

/// Appends `c` to `s` with `String::push`; the contract claims that the
/// text of `s` grows by exactly `c` at its end.
#[verifier::external_body]
fn push_char(s: &mut String, c: char)
    ensures
        final(s)@ == old(s)@.push(c),
{
    s.push(c);
}

/// Appends the decimal digits of `n` to `s`.
pub fn push_decimal(s: &mut String, n: u64)
    ensures
        final(s)@ == old(s)@ + dec_chars(n as nat),
    decreases n,
{
    if n >= 10 {
        push_decimal(s, n / 10);
    }
    let c: char = digit(n % 10);
    push_char(s, c);
    assert(final(s)@ =~= old(s)@ + dec_chars(n as nat));
}

fn digit(d: u64) -> (c: char)
    requires
        d < 10,
    ensures
        c == digit_char(d as nat),
{
    if d == 0 {
        '0'
    } else if d == 1 {
        '1'
    } else if d == 2 {
        '2'
    } else if d == 3 {
        '3'
    } else if d == 4 {
        '4'
    } else if d == 5 {
        '5'
    } else if d == 6 {
        '6'
    } else if d == 7 {
        '7'
    } else if d == 8 {
        '8'
    } else {
        '9'
    }
}

/// The decimal text of an unsigned value.
pub fn decimal_string(n: u64) -> (s: String)
    ensures
        s@ == dec_chars(n as nat),
{
    let mut s = String::new();
    push_decimal(&mut s, n);
    assert(s@ =~= dec_chars(n as nat));
    s
}

/// The decimal text of a signed value.
pub fn signed_decimal_string(n: i64) -> (s: String)
    ensures
        s@ == signed_dec_chars(n as int),
{
    let mut s = String::new();
    if n < 0 {
        push_char(&mut s, '-');
        let m: u64 = if n == i64::MIN {
            9223372036854775808u64
        } else {
            (-n) as u64
        };
        push_decimal(&mut s, m);
        assert(s@ =~= signed_dec_chars(n as int));
    } else {
        push_decimal(&mut s, n as u64);
        assert(s@ =~= signed_dec_chars(n as int));
    }
    s
}

/// Appends the text of `t` to `s`.
pub fn push_text(s: &mut String, t: &str)
    ensures
        final(s)@ == old(s)@ + t@,
{
    s.append(t);
}

// ---------------------------------------------------------------------------
// Parsing integers
// ---------------------------------------------------------------------------

proof fn lemma_digits_value_prefix(s: Seq<char>, i: int)
    requires
        0 <= i <= s.len(),
        all_digits(s),
    ensures
        digits_value(s.subrange(0, i)) <= digits_value(s),
    decreases s.len() - i,
{
    if i < s.len() {
        lemma_digits_value_prefix(s, i + 1);
        let t = s.subrange(0, i + 1);
        assert(t.drop_last() =~= s.subrange(0, i));
        assert(is_digit(s[i]));
    } else {
        assert(s.subrange(0, i) =~= s);
    }
}

/// Reads the digits of `t[start..]` as long as their value stays within
/// `limit`: `Some` with the value when they are all digits (at least one) and
/// it fits, `None` otherwise.
fn read_digits(t: &str, start: usize, limit: u128) -> (r: Option<u128>)
    requires
        start <= t@.len(),
    ensures
        match r {
            Some(v) => {
                let body = t@.subrange(start as int, t@.len() as int);
                &&& body.len() > 0
                &&& all_digits(body)
                &&& v == digits_value(body)
                &&& v <= limit
            },
            None => {
                let body = t@.subrange(start as int, t@.len() as int);
                body.len() == 0 || !all_digits(body) || digits_value(body) > limit
            },
        },
{
    let len: usize = t.unicode_len();
    if start >= len {
        return None;
    }
    let ghost body = t@.subrange(start as int, t@.len() as int);
    let mut acc: u128 = 0;
    let mut i: usize = start;
    while i < len
        invariant
            start <= i <= len,
            len == t@.len(),
            body == t@.subrange(start as int, t@.len() as int),
            all_digits(t@.subrange(start as int, i as int)),
            acc == digits_value(t@.subrange(start as int, i as int)),
            acc <= limit,
        decreases len - i,
    {
        let c: char = t.get_char(i);
        if c < '0' || c > '9' {
            proof {
                assert(body[i - start] == c);
                assert(!is_digit(body[i - start]));
            }
            return None;
        }
        let d: u128 = ((c as u32) - 48) as u128;
        proof {
            let pre = t@.subrange(start as int, i as int);
            let nxt = t@.subrange(start as int, i + 1);
            assert(nxt.drop_last() =~= pre);
            assert(nxt.last() == c);
            assert forall|k: int| 0 <= k < nxt.len() implies #[trigger] is_digit(nxt[k]) by {
                if k < pre.len() {
                    assert(nxt[k] == pre[k]);
                }
            }
        }
        if d > limit || acc > (limit - d) / 10 {
            proof {
                let nxt = t@.subrange(start as int, i + 1);
                assert(digits_value(nxt) == acc * 10 + d);
                assert(acc * 10 + d > limit) by (nonlinear_arith)
                    requires
                        d > limit || acc > (limit - d) / 10,
                        d <= 9,
                ;
                if all_digits(body) {
                    assert(nxt =~= body.subrange(0, i + 1 - start));
                    lemma_digits_value_prefix(body, i + 1 - start);
                }
            }
            return None;
        }
        proof {
            assert(acc * 10 + d <= limit) by (nonlinear_arith)
                requires
                    acc <= (limit - d) / 10,
                    d <= limit,
            ;
        }
        acc = acc * 10 + d;
        i = i + 1;
    }
    assert(t@.subrange(start as int, i as int) =~= body);
    Some(acc)
}

/// `str::parse` for an integer type whose values are `lo..=hi`, written out:
/// see `parse_int_spec`.
pub fn parse_int(t: &str, signed: bool, lo: i128, hi: i128) -> (r: Option<i128>)
    requires
        lo <= 0 <= hi,
        -lo <= u64::MAX + 1,
        hi <= u64::MAX,
    ensures
        match r {
            Some(v) => parse_int_spec(t@, signed, lo as int, hi as int) == Some(v as int),
            None => parse_int_spec(t@, signed, lo as int, hi as int) is None,
        },
{
    let len: usize = t.unicode_len();
    let mut start: usize = 0;
    let mut negative: bool = false;
    if len > 0 {
        let c: char = t.get_char(0);
        if c == '+' {
            start = 1;
        } else if signed && c == '-' {
            start = 1;
            negative = true;
        }
    }
    let ghost body = t@.subrange(start as int, t@.len() as int);
    proof {
        if start == 0 {
            assert(body =~= t@);
        } else {
            assert(body =~= t@.drop_first());
        }
    }
    let limit: u128 = if negative {
        (-lo) as u128
    } else {
        hi as u128
    };
    match read_digits(t, start, limit) {
        Some(v) => {
            if negative {
                Some(-(v as i128))
            } else {
                Some(v as i128)
            }
        },
        None => None,
    }
}

pub fn parse_i32(t: &str) -> (r: Option<i32>)
    ensures
        match r {
            Some(v) => parse_int_spec(t@, true, i32::MIN as int, i32::MAX as int) == Some(v as int),
            None => parse_int_spec(t@, true, i32::MIN as int, i32::MAX as int) is None,
        },
{
    match parse_int(t, true, i32::MIN as i128, i32::MAX as i128) {
        Some(v) => Some(v as i32),
        None => None,
    }
}

pub fn parse_u64(t: &str) -> (r: Option<u64>)
    ensures
        match r {
            Some(v) => parse_int_spec(t@, false, 0, u64::MAX as int) == Some(v as int),
            None => parse_int_spec(t@, false, 0, u64::MAX as int) is None,
        },
{
    match parse_int(t, false, 0, u64::MAX as i128) {
        Some(v) => Some(v as u64),
        None => None,
    }
}

pub fn parse_u16(t: &str) -> (r: Option<u16>)
    ensures
        match r {
            Some(v) => parse_int_spec(t@, false, 0, u16::MAX as int) == Some(v as int),
            None => parse_int_spec(t@, false, 0, u16::MAX as int) is None,
        },
{
    match parse_int(t, false, 0, u16::MAX as i128) {
        Some(v) => Some(v as u16),
        None => None,
    }
}

// ---------------------------------------------------------------------------
// Strings
// ---------------------------------------------------------------------------

#[verifier::external_type_specification]
#[verifier::external_body]
pub struct ExFromUtf8Error(FromUtf8Error);

/// `String::from_utf8`: succeeds exactly when the bytes are valid UTF-8, and
/// then the text is what the bytes encode.
#[verifier::external_body]
pub(crate) fn string_from_utf8(bytes: Vec<u8>) -> (r: Result<String, FromUtf8Error>)
    ensures
        match r {
            Ok(s) => valid_utf8(bytes@) && s@ == decode_utf8(bytes@),
            Err(_) => !valid_utf8(bytes@),
        },
{
    String::from_utf8(bytes)
}

/// What `str::to_lowercase` gives for a text: its Unicode lowercase form.
pub uninterp spec fn unicode_lowercase(s: Seq<char>) -> Seq<char>;

/// A character with the ASCII capitals `A` to `Z` turned into `a` to `z`.
pub open spec fn ascii_lower_char(c: char) -> char {
    if 'A' <= c && c <= 'Z' {
        (c as int + 32) as char
    } else {
        c
    }
}

/// A text with its ASCII capitals turned into small letters.
pub open spec fn ascii_lowercase(s: Seq<char>) -> Seq<char> {
    Seq::new(s.len(), |i: int| ascii_lower_char(s[i]))
}

/// The lowercase form of a text: for a text made of ASCII characters alone,
/// its capitals `A` to `Z` become `a` to `z` and the rest stays; otherwise
/// its Unicode lowercase form.
pub open spec fn lowercase(s: Seq<char>) -> Seq<char> {
    if is_ascii_chars(s) {
        ascii_lowercase(s)
    } else {
        unicode_lowercase(s)
    }
}

/// `str::to_lowercase`; the contract claims that its result is
/// `unicode_lowercase` of the text, a function of the text alone, and that
/// on a text of ASCII characters alone it maps `A` to `Z` to `a` to `z` and
/// keeps every other character (the lowercase mappings of Unicode do so on
/// ASCII). What it gives on other texts is not stated.
#[verifier::external_body]
pub(crate) fn to_lowercase(s: &str) -> (r: String)
    ensures
        r@ == unicode_lowercase(s@),
        is_ascii_chars(s@) ==> r@ == ascii_lowercase(s@),
{
    s.to_lowercase()
}

/// A copy of a string literal.
pub fn owned(s: &str) -> (r: String)
    ensures
        r@ == s@,
{
    s.to_owned()
}

/// Whether two texts are equal.
pub fn str_eq(a: &str, b: &str) -> (r: bool)
    ensures
        r == (a@ == b@),
{
    let n: usize = a.unicode_len();
    if n != b.unicode_len() {
        return false;
    }
    let mut i: usize = 0;
    while i < n
        invariant
            i <= n,
            n == a@.len(),
            n == b@.len(),
            forall|k: int| 0 <= k < i ==> a@[k] == b@[k],
        decreases n - i,
    {
        if a.get_char(i) != b.get_char(i) {
            return false;
        }
        i = i + 1;
    }
    assert(a@ =~= b@);
    true
}

/// Whether `s` begins with `prefix`.
pub fn starts_with(s: &str, prefix: &str) -> (r: bool)
    ensures
        r == (prefix@.len() <= s@.len() && s@.subrange(0, prefix@.len() as int) == prefix@),
{
    let n: usize = prefix.unicode_len();
    if n > s.unicode_len() {
        return false;
    }
    let mut i: usize = 0;
    while i < n
        invariant
            i <= n,
            n == prefix@.len(),
            n <= s@.len(),
            forall|k: int| 0 <= k < i ==> s@[k] == prefix@[k],
        decreases n - i,
    {
        if s.get_char(i) != prefix.get_char(i) {
            assert(s@.subrange(0, n as int)[i as int] != prefix@[i as int]);
            return false;
        }
        i = i + 1;
    }
    assert(s@.subrange(0, n as int) =~= prefix@);
    true
}

/// The code of a character with ASCII capitals mapped to small letters.
pub open spec fn ascii_lower_code(c: char) -> u32 {
    if 'A' <= c <= 'Z' {
        (c as u32 + 32) as u32
    } else {
        c as u32
    }
}

/// Equality of two texts where ASCII letters match regardless of case.
pub open spec fn eq_ignore_ascii_case_spec(a: Seq<char>, b: Seq<char>) -> bool {
    &&& a.len() == b.len()
    &&& forall|i: int| 0 <= i < a.len() ==> ascii_lower_code(a[i]) == ascii_lower_code(b[i])
}

fn lower_code(c: char) -> (r: u32)
    ensures
        r == ascii_lower_code(c),
{
    if 'A' <= c && c <= 'Z' {
        (c as u32) + 32
    } else {
        c as u32
    }
}

/// `str::eq_ignore_ascii_case`, written out.
pub fn eq_ignore_ascii_case(a: &str, b: &str) -> (r: bool)
    ensures
        r == eq_ignore_ascii_case_spec(a@, b@),
{
    let n: usize = a.unicode_len();
    if n != b.unicode_len() {
        return false;
    }
    let mut i: usize = 0;
    while i < n
        invariant
            i <= n,
            n == a@.len(),
            n == b@.len(),
            forall|k: int| 0 <= k < i ==> ascii_lower_code(a@[k]) == ascii_lower_code(b@[k]),
        decreases n - i,
    {
        if lower_code(a.get_char(i)) != lower_code(b.get_char(i)) {
            return false;
        }
        i = i + 1;
    }
    true
}

/// The texts of a sequence of strings.
pub open spec fn texts(v: Seq<String>) -> Seq<Seq<char>> {
    v.map_values(|s: String| s@)
}

/// The texts joined with `sep` between neighbours, as `join` on a slice of
/// strings does.
pub open spec fn join_spec(parts: Seq<Seq<char>>, sep: Seq<char>) -> Seq<char>
    decreases parts.len(),
{
    if parts.len() == 0 {
        seq![]
    } else if parts.len() == 1 {
        parts[0]
    } else {
        join_spec(parts.drop_last(), sep) + sep + parts.last()
    }
}

/// `[String]::join`, written out.
pub fn join(parts: &[String], sep: &str) -> (r: String)
    ensures
        r@ == join_spec(texts(parts@), sep@),
{
    let mut out = String::new();
    let mut i: usize = 0;
    while i < parts.len()
        invariant
            i <= parts@.len(),
            out@ == join_spec(texts(parts@.subrange(0, i as int)), sep@),
        decreases parts@.len() - i,
    {
        let ghost before = out@;
        if i > 0 {
            push_text(&mut out, sep);
        }
        push_text(&mut out, parts[i].as_str());
        proof {
            let t = texts(parts@.subrange(0, i + 1));
            assert(t.drop_last() =~= texts(parts@.subrange(0, i as int)));
            assert(t.last() == parts@[i as int]@);
            if i == 0 {
                assert(before =~= Seq::<char>::empty());
                assert(out@ =~= join_spec(t, sep@));
            } else {
                assert(out@ =~= join_spec(t, sep@));
            }
        }
        i = i + 1;
    }
    assert(parts@.subrange(0, i as int) =~= parts@);
    out
}

} // verus!
