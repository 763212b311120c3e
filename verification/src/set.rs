//! The options of the SET command.
use crate::storage_result::{StorageError, StorageResult};
use crate::text::{
    ascii_lowercase, join, join_spec, lowercase, parse_int_spec, parse_u64, str_eq, texts, to_lowercase,
};
use vstd::prelude::*;
use vstd::string::*;
use vstd::utf8::*;

verus! {

#[derive(Debug, PartialEq, Eq, Clone, Copy)]
pub enum KeyExistence {
    NX,
    XX,
}

#[derive(Debug, PartialEq, Eq, Clone, Copy)]
pub enum KeyExpiry {
    EX(u64),
    PX(u64),
}

#[derive(Debug, PartialEq, Eq)]
pub struct SetArgs {
    pub expiry: Option<KeyExpiry>,
    pub existence: Option<KeyExistence>,
    pub get: bool,
}

impl SetArgs {
    pub fn new() -> (r: Self)
        ensures
            r == (SetArgs { expiry: None, existence: None, get: false }),
    {
        SetArgs { expiry: None, existence: None, get: false }
    }
}

/// Reading the options from position `idx` on, with the options read so far
/// in `acc`: `None` where the options are refused.
pub open spec fn set_args_from(args: Seq<Seq<char>>, idx: int, acc: SetArgs) -> Option<SetArgs>
    decreases args.len() - idx,
{
    if idx < 0 || idx >= args.len() {
        Some(acc)
    } else {
        let word = lowercase(args[idx]);
        if word == "nx"@ {
            if acc.existence == Some(KeyExistence::XX) {
                None
            } else {
                set_args_from(
                    args,
                    idx + 1,
                    SetArgs { expiry: acc.expiry, existence: Some(KeyExistence::NX), get: acc.get },
                )
            }
        } else if word == "xx"@ {
            if acc.existence == Some(KeyExistence::NX) {
                None
            } else {
                set_args_from(
                    args,
                    idx + 1,
                    SetArgs { expiry: acc.expiry, existence: Some(KeyExistence::XX), get: acc.get },
                )
            }
        } else if word == "ex"@ || word == "px"@ {
            let is_ex = word == "ex"@;
            let conflicting = if is_ex {
                acc.expiry matches Some(KeyExpiry::PX(_))
            } else {
                acc.expiry matches Some(KeyExpiry::EX(_))
            };
            if conflicting || idx + 1 >= args.len() {
                None
            } else {
                match parse_int_spec(args[idx + 1], false, 0, u64::MAX as int) {
                    None => None,
                    Some(v) => set_args_from(
                        args,
                        idx + 2,
                        SetArgs {
                            expiry: Some(
                                if is_ex {
                                    KeyExpiry::EX(v as u64)
                                } else {
                                    KeyExpiry::PX(v as u64)
                                },
                            ),
                            existence: acc.existence,
                            get: acc.get,
                        },
                    ),
                }
            }
        } else if word == "get"@ {
            set_args_from(
                args,
                idx + 1,
                SetArgs { expiry: acc.expiry, existence: acc.existence, get: true },
            )
        } else {
            None
        }
    }
}

/// What `parse_set_arguments` reads from the options.
pub open spec fn set_args_spec(args: Seq<Seq<char>>) -> Option<SetArgs> {
    set_args_from(args, 0, SetArgs { expiry: None, existence: None, get: false })
}

/// Reads the options that follow the key and value of a SET command: NX or
/// XX, EX or PX with a number, and GET, in any case of letters.
pub fn parse_set_arguments(agruments: &Vec<String>) -> (r: StorageResult<SetArgs>)
    ensures
        match r {
            Ok(args) => set_args_spec(texts(agruments@)) == Some(args),
            Err(StorageError::CommandSyntaxError(s)) => set_args_spec(texts(agruments@)) is None
                && s@ == join_spec(texts(agruments@), " "@),
            Err(_) => false,
        },
{
    let ghost words = texts(agruments@);
    let mut args = SetArgs::new();
    let mut idx: usize = 0;
    while idx < agruments.len()
        invariant
            idx <= agruments@.len(),
            words == texts(agruments@),
            set_args_spec(words) == set_args_from(words, idx as int, args),
        decreases agruments@.len() - idx,
    {
        let word = to_lowercase(agruments[idx].as_str());
        let w = word.as_str();
        assert(words[idx as int] == agruments@[idx as int]@);
        if str_eq(w, "nx") {
            if matches!(args.existence, Some(KeyExistence::XX)) {
                return Err(StorageError::CommandSyntaxError(join(agruments.as_slice(), " ")));
            }
            args.existence = Some(KeyExistence::NX);
            idx = idx + 1;
        } else if str_eq(w, "xx") {
            if matches!(args.existence, Some(KeyExistence::NX)) {
                return Err(StorageError::CommandSyntaxError(join(agruments.as_slice(), " ")));
            }
            args.existence = Some(KeyExistence::XX);
            idx = idx + 1;
        } else if str_eq(w, "ex") {
            if matches!(args.expiry, Some(KeyExpiry::PX(_))) {
                return Err(StorageError::CommandSyntaxError(join(agruments.as_slice(), " ")));
            }
            if idx + 1 >= agruments.len() {
                return Err(StorageError::CommandSyntaxError(join(agruments.as_slice(), " ")));
            }
            assert(words[idx + 1] == agruments@[idx + 1]@);
            let value: u64 = match parse_u64(agruments[idx + 1].as_str()) {
                Some(v) => v,
                None => {
                    return Err(StorageError::CommandSyntaxError(join(agruments.as_slice(), " ")));
                },
            };
            args.expiry = Some(KeyExpiry::EX(value));
            idx = idx + 2;
        } else if str_eq(w, "px") {
            if matches!(args.expiry, Some(KeyExpiry::EX(_))) {
                return Err(StorageError::CommandSyntaxError(join(agruments.as_slice(), " ")));
            }
            if idx + 1 >= agruments.len() {
                return Err(StorageError::CommandSyntaxError(join(agruments.as_slice(), " ")));
            }
            assert(words[idx + 1] == agruments@[idx + 1]@);
            let value: u64 = match parse_u64(agruments[idx + 1].as_str()) {
                Some(v) => v,
                None => {
                    return Err(StorageError::CommandSyntaxError(join(agruments.as_slice(), " ")));
                },
            };
            args.expiry = Some(KeyExpiry::PX(value));
            idx = idx + 2;
        } else if str_eq(w, "get") {
            args.get = true;
            idx = idx + 1;
        } else {
            return Err(StorageError::CommandSyntaxError(join(agruments.as_slice(), " ")));
        }
    }
    Ok(args)
}

proof fn lemma_set_args_from_same(a: Seq<Seq<char>>, b: Seq<Seq<char>>, idx: int, acc: SetArgs)
    requires
        a.len() == b.len(),
        forall|i: int|
            0 <= i < a.len() ==> lowercase(#[trigger] a[i]) == lowercase(b[i]) && parse_int_spec(
                a[i],
                false,
                0,
                u64::MAX as int,
            ) == parse_int_spec(b[i], false, 0, u64::MAX as int),
    ensures
        set_args_from(a, idx, acc) == set_args_from(b, idx, acc),
    decreases a.len() - idx,
{
    if 0 <= idx < a.len() {
        assert(lowercase(a[idx]) == lowercase(b[idx]));
        if idx + 1 < a.len() {
            assert(parse_int_spec(a[idx + 1], false, 0, u64::MAX as int) == parse_int_spec(
                b[idx + 1],
                false,
                0,
                u64::MAX as int,
            ));
        }
        let word = lowercase(a[idx]);
        if word == "nx"@ {
            lemma_set_args_from_same(
                a,
                b,
                idx + 1,
                SetArgs { expiry: acc.expiry, existence: Some(KeyExistence::NX), get: acc.get },
            );
        } else if word == "xx"@ {
            lemma_set_args_from_same(
                a,
                b,
                idx + 1,
                SetArgs { expiry: acc.expiry, existence: Some(KeyExistence::XX), get: acc.get },
            );
        } else if word == "ex"@ || word == "px"@ {
            if idx + 1 < a.len() {
                match parse_int_spec(a[idx + 1], false, 0, u64::MAX as int) {
                    Some(v) => {
                        let e = if word == "ex"@ {
                            KeyExpiry::EX(v as u64)
                        } else {
                            KeyExpiry::PX(v as u64)
                        };
                        lemma_set_args_from_same(
                            a,
                            b,
                            idx + 2,
                            SetArgs { expiry: Some(e), existence: acc.existence, get: acc.get },
                        );
                    },
                    None => {},
                }
            }
        } else if word == "get"@ {
            lemma_set_args_from_same(
                a,
                b,
                idx + 1,
                SetArgs { expiry: acc.expiry, existence: acc.existence, get: true },
            );
        }
    }
}

/// The options are read without regard to the case of their letters: two
/// lists of options whose words have the same lowercase forms, and read as
/// the same numbers, give the same options.
pub proof fn law_set_options_ignore_case(a: Seq<Seq<char>>, b: Seq<Seq<char>>)
    requires
        a.len() == b.len(),
        forall|i: int|
            0 <= i < a.len() ==> lowercase(#[trigger] a[i]) == lowercase(b[i]) && parse_int_spec(
                a[i],
                false,
                0,
                u64::MAX as int,
            ) == parse_int_spec(b[i], false, 0, u64::MAX as int),
    ensures
        set_args_spec(a) == set_args_spec(b),
{
    lemma_set_args_from_same(a, b, 0, SetArgs { expiry: None, existence: None, get: false });
}

/// Whether some word of `args` from position `from` on reads, in
/// lowercase, as `w`.
pub open spec fn has_word(args: Seq<Seq<char>>, from: int, w: Seq<char>) -> bool {
    exists|i: int| from <= i < args.len() && lowercase(#[trigger] args[i]) == w
}

/// Whether a word is EX or PX, in any case of letters.
pub open spec fn is_expiry_word(w: Seq<char>) -> bool {
    lowercase(w) == "ex"@ || lowercase(w) == "px"@
}

/// Whether the word at `i` is the last EX or PX of `args`.
pub open spec fn last_expiry_word(args: Seq<Seq<char>>, i: int) -> bool {
    &&& 0 <= i < args.len()
    &&& is_expiry_word(args[i])
    &&& forall|k: int| i < k < args.len() ==> !is_expiry_word(#[trigger] args[k])
}

/// The expiry that the EX or PX at `i` gives with the number after it, if
/// a number follows it.
pub open spec fn expiry_at(args: Seq<Seq<char>>, i: int) -> Option<KeyExpiry> {
    if 0 <= i && i + 1 < args.len() {
        match parse_int_spec(args[i + 1], false, 0, u64::MAX as int) {
            Some(v) => Some(
                if lowercase(args[i]) == "ex"@ {
                    KeyExpiry::EX(v as u64)
                } else {
                    KeyExpiry::PX(v as u64)
                },
            ),
            None => None,
        }
    } else {
        None
    }
}

/// The option names differ from one another.
proof fn lemma_option_names_differ()
    ensures
        "nx"@ != "xx"@,
        "nx"@ != "ex"@,
        "nx"@ != "px"@,
        "nx"@ != "get"@,
        "xx"@ != "ex"@,
        "xx"@ != "px"@,
        "xx"@ != "get"@,
        "ex"@ != "px"@,
        "ex"@ != "get"@,
        "px"@ != "get"@,
{
    reveal_strlit("nx");
    reveal_strlit("xx");
    reveal_strlit("ex");
    reveal_strlit("px");
    reveal_strlit("get");
    assert("nx"@[0] != "xx"@[0]);
    assert("nx"@[0] != "ex"@[0]);
    assert("nx"@[0] != "px"@[0]);
    assert("nx"@.len() != "get"@.len());
    assert("xx"@[0] != "ex"@[0]);
    assert("xx"@[0] != "px"@[0]);
    assert("xx"@.len() != "get"@.len());
    assert("ex"@[0] != "px"@[0]);
    assert("ex"@.len() != "get"@.len());
    assert("px"@.len() != "get"@.len());
}

/// A word that reads as a number is none of the option names.
proof fn lemma_number_is_no_option(w: Seq<char>)
    requires
        parse_int_spec(w, false, 0, u64::MAX as int) is Some,
    ensures
        lowercase(w) != "nx"@,
        lowercase(w) != "xx"@,
        lowercase(w) != "ex"@,
        lowercase(w) != "px"@,
        lowercase(w) != "get"@,
{
    reveal_strlit("nx");
    reveal_strlit("xx");
    reveal_strlit("ex");
    reveal_strlit("px");
    reveal_strlit("get");
    let has_sign = w[0] == '+';
    let body = if has_sign {
        w.drop_first()
    } else {
        w
    };
    assert(crate::text::all_digits(body));
    assert(is_ascii_chars(w)) by {
        assert forall|k: int| 0 <= k < w.len() implies '\0' <= #[trigger] w[k] <= '\u{7f}' by {
            if has_sign && k > 0 {
                assert(w[k] == body[k - 1]);
                assert(crate::text::is_digit(body[k - 1]));
            } else if !has_sign {
                assert(crate::text::is_digit(body[k]));
            }
        }
    }
    if !has_sign {
        assert(crate::text::is_digit(body[0]));
    }
    assert(lowercase(w) == ascii_lowercase(w));
    assert(lowercase(w)[0] == w[0]);
}

/// What reading the options from `idx` on keeps of each field: the last NX
/// or XX sets the existence, any GET sets `get`, and the last EX or PX sets
/// the expiry; what no word sets stays as in `acc`.
proof fn lemma_set_args_fields(args: Seq<Seq<char>>, idx: int, acc: SetArgs, r: SetArgs)
    requires
        0 <= idx <= args.len(),
        set_args_from(args, idx, acc) == Some(r),
    ensures
        has_word(args, idx, "nx"@) ==> r.existence == Some(KeyExistence::NX),
        has_word(args, idx, "xx"@) ==> r.existence == Some(KeyExistence::XX),
        !has_word(args, idx, "nx"@) && !has_word(args, idx, "xx"@) ==> r.existence == acc.existence,
        acc.existence == Some(KeyExistence::NX) ==> !has_word(args, idx, "xx"@),
        acc.existence == Some(KeyExistence::XX) ==> !has_word(args, idx, "nx"@),
        r.get == (acc.get || has_word(args, idx, "get"@)),
        (forall|k: int| idx <= k < args.len() ==> !is_expiry_word(#[trigger] args[k])) ==> r.expiry
            == acc.expiry,
        forall|i: int|
            idx <= i && #[trigger] last_expiry_word(args, i) ==> expiry_at(args, i) is Some && r.expiry
                == expiry_at(args, i),
    decreases args.len() - idx,
{
    lemma_option_names_differ();
    if idx >= args.len() {
        return;
    }
    let word = lowercase(args[idx]);
    if word == "nx"@ || word == "xx"@ || word == "get"@ {
        let next = if word == "nx"@ {
            SetArgs { expiry: acc.expiry, existence: Some(KeyExistence::NX), get: acc.get }
        } else if word == "xx"@ {
            SetArgs { expiry: acc.expiry, existence: Some(KeyExistence::XX), get: acc.get }
        } else {
            SetArgs { expiry: acc.expiry, existence: acc.existence, get: true }
        };
        assert(set_args_from(args, idx + 1, next) == Some(r));
        lemma_set_args_fields(args, idx + 1, next, r);
        assert(!is_expiry_word(args[idx]));
        if has_word(args, idx, "nx"@) && word != "nx"@ {
            let i = choose|i: int| idx <= i < args.len() && lowercase(#[trigger] args[i]) == "nx"@;
            assert(has_word(args, idx + 1, "nx"@));
        }
        if has_word(args, idx, "xx"@) && word != "xx"@ {
            let i = choose|i: int| idx <= i < args.len() && lowercase(#[trigger] args[i]) == "xx"@;
            assert(has_word(args, idx + 1, "xx"@));
        }
        if has_word(args, idx, "get"@) && word != "get"@ {
            let i = choose|i: int| idx <= i < args.len() && lowercase(#[trigger] args[i]) == "get"@;
            assert(has_word(args, idx + 1, "get"@));
        }
        if has_word(args, idx + 1, "nx"@) {
            let i = choose|i: int| idx + 1 <= i < args.len() && lowercase(#[trigger] args[i]) == "nx"@;
            assert(has_word(args, idx, "nx"@));
        }
        if has_word(args, idx + 1, "xx"@) {
            let i = choose|i: int| idx + 1 <= i < args.len() && lowercase(#[trigger] args[i]) == "xx"@;
            assert(has_word(args, idx, "xx"@));
        }
        if has_word(args, idx + 1, "get"@) {
            let i = choose|i: int| idx + 1 <= i < args.len() && lowercase(#[trigger] args[i]) == "get"@;
            assert(has_word(args, idx, "get"@));
        }
        if word == "nx"@ {
            assert(has_word(args, idx, "nx"@));
        }
        if word == "xx"@ {
            assert(has_word(args, idx, "xx"@));
        }
        if word == "get"@ {
            assert(has_word(args, idx, "get"@));
        }
    } else {
        assert(word == "ex"@ || word == "px"@);
        let v = parse_int_spec(args[idx + 1], false, 0, u64::MAX as int)->Some_0;
        let e = if word == "ex"@ {
            KeyExpiry::EX(v as u64)
        } else {
            KeyExpiry::PX(v as u64)
        };
        let next = SetArgs { expiry: Some(e), existence: acc.existence, get: acc.get };
        assert(set_args_from(args, idx + 2, next) == Some(r));
        lemma_set_args_fields(args, idx + 2, next, r);
        lemma_number_is_no_option(args[idx + 1]);
        assert(is_expiry_word(args[idx]));
        assert(!is_expiry_word(args[idx + 1]));
        assert forall|w: Seq<char>| w == "nx"@ || w == "xx"@ || w == "get"@ implies (has_word(args, idx, w)
            <==> has_word(args, idx + 2, w)) by {
            if has_word(args, idx, w) {
                let i = choose|i: int| idx <= i < args.len() && lowercase(#[trigger] args[i]) == w;
                assert(i != idx && i != idx + 1);
            }
            if has_word(args, idx + 2, w) {
                let i = choose|i: int| idx + 2 <= i < args.len() && lowercase(#[trigger] args[i]) == w;
                assert(has_word(args, idx, w));
            }
        }
        assert(has_word(args, idx, "nx"@) <==> has_word(args, idx + 2, "nx"@));
        assert(has_word(args, idx, "xx"@) <==> has_word(args, idx + 2, "xx"@));
        assert(has_word(args, idx, "get"@) <==> has_word(args, idx + 2, "get"@));
        assert forall|i: int| idx <= i && #[trigger] last_expiry_word(args, i) implies expiry_at(args, i) is Some
            && r.expiry == expiry_at(args, i) by {
            if i == idx {
                if exists|k: int| idx + 2 <= k < args.len() && is_expiry_word(#[trigger] args[k]) {
                    let k = choose|k: int| idx + 2 <= k < args.len() && is_expiry_word(#[trigger] args[k]);
                    assert(!is_expiry_word(args[k]));
                }
                assert(r.expiry == Some(e));
            } else {
                assert(i != idx + 1);
                assert(idx + 2 <= i);
            }
        }
    }
}

/// Each option sets its own field, whatever order the options come in: in
/// options that are accepted, the existence is NX where an NX is among the
/// words, XX where an XX is, and none otherwise; GET is set where a GET is
/// among the words; the expiry is none where no EX or PX is among the words,
/// and otherwise the last EX or PX with the number that follows it.
pub proof fn law_set_options_independent(args: Seq<Seq<char>>)
    ensures
        set_args_spec(args) matches Some(r) ==> {
            &&& (r.existence == Some(KeyExistence::NX) <==> has_word(args, 0, "nx"@))
            &&& (r.existence == Some(KeyExistence::XX) <==> has_word(args, 0, "xx"@))
            &&& (r.existence is None <==> !has_word(args, 0, "nx"@) && !has_word(args, 0, "xx"@))
            &&& (r.get <==> has_word(args, 0, "get"@))
            &&& (r.expiry is None <==> forall|k: int| 0 <= k < args.len() ==> !is_expiry_word(#[trigger] args[k]))
            &&& forall|i: int|
                #[trigger] last_expiry_word(args, i) ==> expiry_at(args, i) is Some && r.expiry == expiry_at(
                    args,
                    i,
                )
        },
{
    if let Some(r) = set_args_spec(args) {
        let acc = SetArgs { expiry: None, existence: None, get: false };
        lemma_set_args_fields(args, 0, acc, r);
        lemma_option_names_differ();
        if !(forall|k: int| 0 <= k < args.len() ==> !is_expiry_word(#[trigger] args[k])) {
            lemma_last_expiry_exists(args, 0);
            let i = choose|i: int| 0 <= i && #[trigger] last_expiry_word(args, i);
            assert(last_expiry_word(args, i));
        }
    }
}

/// Where some word from `from` on is EX or PX, one of them is the last.
proof fn lemma_last_expiry_exists(args: Seq<Seq<char>>, from: int)
    requires
        0 <= from,
        exists|k: int| from <= k < args.len() && is_expiry_word(#[trigger] args[k]),
    ensures
        exists|i: int| from <= i && #[trigger] last_expiry_word(args, i),
    decreases args.len() - from,
{
    if exists|k: int| from + 1 <= k < args.len() && is_expiry_word(#[trigger] args[k]) {
        lemma_last_expiry_exists(args, from + 1);
        let i = choose|i: int| from + 1 <= i && #[trigger] last_expiry_word(args, i);
        assert(from <= i && last_expiry_word(args, i));
    } else {
        let k = choose|k: int| from <= k < args.len() && is_expiry_word(#[trigger] args[k]);
        assert(k == from);
        assert(last_expiry_word(args, from));
    }
}

} // verus!
