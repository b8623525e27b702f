//! Parsing wire text into structured JSON values.
//!
//! The grammar is standard JSON restricted to integer-valued numbers:
//! fractions and exponents are refused, since the protocol's payloads
//! carry only integers and plain text.  String escapes cover the named
//! ones and `\uXXXX` for any plain scalar value; surrogate pairs are
//! refused.  The parser is lenient about unescaped control characters
//! inside strings, matching the serializer, which writes the named
//! escapes only.  Every function here is proved equal to its
//! specification-level mirror, so the contract of the public entry point
//! pins the parse of every input.

use crate::json::{
    arr_seq, dec_digit, dec_rec, dec_seq, digit_val, esc_char, esc_seq, is_digit, json_seq,
    lemma_rep_arr_len, lemma_rep_obj_len, num_seq, obj_seq, rep, rep_arr, rep_obj, str_seq,
    string_from_chars, JsonData, JsonVal,
};
use vstd::prelude::*;
use vstd::string::*;

verus! {

/// True for the whitespace JSON permits between tokens.
pub open spec fn is_ws(c: char) -> bool {
    c == ' ' || c == '\t' || c == '\n' || c == '\r'
}

/// The first position at or after `i` that does not hold whitespace.
pub open spec fn sp_ws(s: Seq<char>, i: int) -> int
    decreases s.len() - i,
{
    if 0 <= i < s.len() && is_ws(s[i]) {
        sp_ws(s, i + 1)
    } else {
        i
    }
}

/// True when the word stands at position `i`.
pub open spec fn sp_lit(s: Seq<char>, i: int, w: Seq<char>) -> bool {
    i + w.len() <= s.len() && s.subrange(i, i + w.len()) == w
}

/// The end of the run of decimal digits starting at `i`.
pub open spec fn digits_end(s: Seq<char>, i: int) -> int
    decreases s.len() - i,
{
    if 0 <= i < s.len() && is_digit(s[i]) {
        digits_end(s, i + 1)
    } else {
        i
    }
}

/// The value of a run of decimal digits.
pub open spec fn dec_value(s: Seq<char>) -> int
    decreases s.len(),
{
    if s.len() == 0 {
        0
    } else {
        dec_value(s.drop_last()) * 10 + digit_val(s.last())
    }
}

/// Parse a number at position `i`: an optional minus sign, then digits,
/// refused when the value falls outside what the engine's numbers carry.
pub open spec fn sp_num(s: Seq<char>, i: int) -> Option<(JsonData, int)> {
    let neg = 0 <= i < s.len() && s[i] == '-';
    let d0 = if neg {
        i + 1
    } else {
        i
    };
    let de = digits_end(s, d0);
    if de == d0 {
        None
    } else {
        let mag = dec_value(s.subrange(d0, de));
        let bound: int = if neg {
            i128::MAX + 1
        } else {
            i128::MAX as int
        };
        if mag <= bound {
            Some((JsonData::Num(if neg { -mag } else { mag }), de))
        } else {
            None
        }
    }
}

/// The value of a hexadecimal digit character, either case, and 16 for
/// any other character.
pub open spec fn hex_val(c: char) -> int {
    if c == 'a' || c == 'A' {
        10
    } else if c == 'b' || c == 'B' {
        11
    } else if c == 'c' || c == 'C' {
        12
    } else if c == 'd' || c == 'D' {
        13
    } else if c == 'e' || c == 'E' {
        14
    } else if c == 'f' || c == 'F' {
        15
    } else if digit_val(c) < 10 {
        digit_val(c)
    } else {
        16
    }
}

/// True for a hexadecimal digit character.
pub open spec fn is_hex(c: char) -> bool {
    hex_val(c) < 16
}

/// True for a scalar value some character carries: not a surrogate, not
/// beyond the last scalar.
pub open spec fn valid_scalar(v: u32) -> bool {
    v < 0xD800 || (0xE000 <= v && v <= 0x10FFFF)
}

/// The character with a given scalar value.
pub open spec fn char_of(v: u32) -> char {
    v as char
}

/// The character an escape introducer at `i` stands for, and the position
/// after the escape: one character for the named escapes, four
/// hexadecimal digits for `\u`, refused when they name a surrogate.
pub open spec fn sp_escape(s: Seq<char>, i: int) -> Option<(char, int)> {
    if 0 <= i < s.len() {
        let c = s[i];
        if c == '"' {
            Some(('"', i + 1))
        } else if c == '\\' {
            Some(('\\', i + 1))
        } else if c == '/' {
            Some(('/', i + 1))
        } else if c == 'n' {
            Some(('\n', i + 1))
        } else if c == 'r' {
            Some(('\r', i + 1))
        } else if c == 't' {
            Some(('\t', i + 1))
        } else if c == 'b' {
            Some(('\u{8}', i + 1))
        } else if c == 'f' {
            Some(('\u{c}', i + 1))
        } else if c == 'u' {
            if i + 5 <= s.len() && is_hex(s[i + 1]) && is_hex(s[i + 2]) && is_hex(s[i + 3])
                && is_hex(s[i + 4]) {
                let code = (hex_val(s[i + 1]) * 4096 + hex_val(s[i + 2]) * 256 + hex_val(
                    s[i + 3],
                ) * 16 + hex_val(s[i + 4])) as u32;
                if valid_scalar(code) {
                    Some((char_of(code), i + 5))
                } else {
                    None
                }
            } else {
                None
            }
        } else {
            None
        }
    } else {
        None
    }
}

/// Parse a string body from position `i` (just past the opening quote) to
/// its closing quote: the decoded characters and the position after the
/// quote.
pub open spec fn sp_str_body(s: Seq<char>, i: int) -> Option<(Seq<char>, int)>
    decreases s.len() - i,
{
    if 0 <= i < s.len() {
        let c = s[i];
        if c == '"' {
            Some((Seq::empty(), i + 1))
        } else if c == '\\' {
            match sp_escape(s, i + 1) {
                Some((e, i2)) => if i + 1 < i2 <= s.len() {
                    match sp_str_body(s, i2) {
                        Some((rest, j)) => Some((seq![e] + rest, j)),
                        None => None,
                    }
                } else {
                    None
                },
                None => None,
            }
        } else {
            match sp_str_body(s, i + 1) {
                Some((rest, j)) => Some((seq![c] + rest, j)),
                None => None,
            }
        }
    } else {
        None
    }
}

/// Parse one value at position `i`, leading whitespace skipped.
pub open spec fn sp_value(s: Seq<char>, i: int) -> Option<(JsonData, int)>
    decreases s.len() - i, 0int,
{
    let j = sp_ws(s, i);
    if i <= j && j < s.len() {
        let c = s[j];
        if c == 'n' {
            if sp_lit(s, j, "null"@) {
                Some((JsonData::Null, j + "null"@.len()))
            } else {
                None
            }
        } else if c == 't' {
            if sp_lit(s, j, "true"@) {
                Some((JsonData::Bool(true), j + "true"@.len()))
            } else {
                None
            }
        } else if c == 'f' {
            if sp_lit(s, j, "false"@) {
                Some((JsonData::Bool(false), j + "false"@.len()))
            } else {
                None
            }
        } else if c == '"' {
            match sp_str_body(s, j + 1) {
                Some((cs, k)) => Some((JsonData::Str(cs), k)),
                None => None,
            }
        } else if c == '-' || is_digit(c) {
            sp_num(s, j)
        } else if c == '[' {
            sp_arr(s, j + 1, Seq::empty())
        } else if c == '{' {
            sp_obj(s, j + 1, Seq::empty())
        } else {
            None
        }
    } else {
        None
    }
}

/// Parse the remainder of an array from position `i`: either the closing
/// bracket of an empty array, or elements separated by commas.
pub open spec fn sp_arr(s: Seq<char>, i: int, acc: Seq<JsonData>) -> Option<(JsonData, int)>
    decreases s.len() - i, 1int,
{
    let j = sp_ws(s, i);
    if acc.len() == 0 && i <= j && j < s.len() && s[j] == ']' {
        Some((JsonData::Arr(acc), j + 1))
    } else {
        match sp_value(s, i) {
            Some((v, i2)) => if i < i2 <= s.len() {
                let k = sp_ws(s, i2);
                if i2 <= k && k < s.len() {
                    if s[k] == ']' {
                        Some((JsonData::Arr(acc.push(v)), k + 1))
                    } else if s[k] == ',' {
                        sp_arr(s, k + 1, acc.push(v))
                    } else {
                        None
                    }
                } else {
                    None
                }
            } else {
                None
            },
            None => None,
        }
    }
}

/// Parse the remainder of an object from position `i`: either the closing
/// brace of an empty object, or quoted keys with values separated by
/// commas.
pub open spec fn sp_obj(s: Seq<char>, i: int, acc: Seq<(Seq<char>, JsonData)>) -> Option<
    (JsonData, int),
>
    decreases s.len() - i, 1int,
{
    let j = sp_ws(s, i);
    if acc.len() == 0 && i <= j && j < s.len() && s[j] == '}' {
        Some((JsonData::Obj(acc), j + 1))
    } else if i <= j && j < s.len() && s[j] == '"' {
        match sp_str_body(s, j + 1) {
            Some((key, i2)) => if j + 1 < i2 <= s.len() {
                let k = sp_ws(s, i2);
                if i2 <= k && k < s.len() && s[k] == ':' {
                    match sp_value(s, k + 1) {
                        Some((v, i3)) => if k + 1 < i3 <= s.len() {
                            let l = sp_ws(s, i3);
                            if i3 <= l && l < s.len() {
                                if s[l] == '}' {
                                    Some((JsonData::Obj(acc.push((key, v))), l + 1))
                                } else if s[l] == ',' {
                                    sp_obj(s, l + 1, acc.push((key, v)))
                                } else {
                                    None
                                }
                            } else {
                                None
                            }
                        } else {
                            None
                        },
                        None => None,
                    }
                } else {
                    None
                }
            } else {
                None
            },
            None => None,
        }
    } else {
        None
    }
}

/// Parse a whole document: one value, with nothing but whitespace after
/// it.
pub open spec fn sp_doc(s: Seq<char>) -> Option<JsonData> {
    match sp_value(s, 0) {
        Some((v, i)) => if 0 <= i <= s.len() && sp_ws(s, i) == s.len() {
            Some(v)
        } else {
            None
        },
        None => None,
    }
}

/// Appending a parsed element appends its model.
proof fn lemma_rep_arr_push(items: Seq<JsonVal>, v: JsonVal)
    ensures
        rep_arr(items.push(v)) == rep_arr(items).push(rep(v)),
{
    lemma_rep_arr_len(items.push(v));
    lemma_rep_arr_len(items);
    assert(rep_arr(items.push(v)) =~= rep_arr(items).push(rep(v)));
}

/// Appending a parsed member appends its model.
proof fn lemma_rep_obj_push(ms: Seq<(String, JsonVal)>, m: (String, JsonVal))
    ensures
        rep_obj(ms.push(m)) == rep_obj(ms).push((m.0@, rep(m.1))),
{
    lemma_rep_obj_len(ms.push(m));
    lemma_rep_obj_len(ms);
    assert(rep_obj(ms.push(m)) =~= rep_obj(ms).push((m.0@, rep(m.1))));
}

/// The characters of a string slice.
fn chars_vec(s: &str) -> (r: Vec<char>)
    ensures
        r@ == s@,
{
    let len = s.unicode_len();
    let mut r: Vec<char> = Vec::new();
    let mut i: usize = 0;
    while i < len
        invariant
            len == s@.len(),
            i <= len,
            r@ == s@.take(i as int),
        decreases len - i,
    {
        r.push(s.get_char(i));
        proof {
            assert(s@.take(i as int).push(s@[i as int]) =~= s@.take(i as int + 1));
        }
        i += 1;
    }
    proof {
        assert(s@.take(len as int) =~= s@);
    }
    r
}

/// Advance past whitespace.
fn skip_ws_exec(chars: &Vec<char>, i: usize) -> (j: usize)
    requires
        i <= chars@.len(),
    ensures
        i <= j <= chars@.len(),
        j as int == sp_ws(chars@, i as int),
{
    let mut j = i;
    while j < chars.len() && (chars[j] == ' ' || chars[j] == '\t' || chars[j] == '\n' || chars[j]
        == '\r')
        invariant
            i <= j <= chars@.len(),
            sp_ws(chars@, i as int) == sp_ws(chars@, j as int),
        decreases chars@.len() - j,
    {
        j += 1;
    }
    j
}

/// True when the word stands at position `j`.
fn has_lit(chars: &Vec<char>, j: usize, w: &str) -> (r: bool)
    requires
        j <= chars@.len(),
    ensures
        r == sp_lit(chars@, j as int, w@),
{
    let wlen = w.unicode_len();
    if wlen > chars.len() - j {
        return false;
    }
    let mut k: usize = 0;
    while k < wlen
        invariant
            wlen == w@.len(),
            j + wlen <= chars@.len(),
            chars@.len() <= usize::MAX,
            k <= wlen,
            forall|t: int| 0 <= t < k ==> chars@[j + t] == w@[t],
        decreases wlen - k,
    {
        if chars[j + k] != w.get_char(k) {
            proof {
                assert(chars@.subrange(j as int, j as int + w@.len())[k as int] == chars@[j
                    + k]);
            }
            return false;
        }
        k += 1;
    }
    proof {
        assert(chars@.subrange(j as int, j as int + w@.len()) =~= w@);
    }
    true
}

/// True for a decimal digit character.
fn is_digit_ex(c: char) -> (r: bool)
    ensures
        r == is_digit(c),
{
    c == '0' || c == '1' || c == '2' || c == '3' || c == '4' || c == '5' || c == '6' || c == '7'
        || c == '8' || c == '9'
}

/// The value of a decimal digit character.
fn digit_of(c: char) -> (d: u8)
    requires
        is_digit(c),
    ensures
        d as int == digit_val(c),
        d < 10,
{
    if c == '0' {
        0
    } else if c == '1' {
        1
    } else if c == '2' {
        2
    } else if c == '3' {
        3
    } else if c == '4' {
        4
    } else if c == '5' {
        5
    } else if c == '6' {
        6
    } else if c == '7' {
        7
    } else if c == '8' {
        8
    } else {
        9
    }
}

/// The value of a hexadecimal digit character, either case.
fn hex_of(c: char) -> (r: Option<u8>)
    ensures
        match r {
            Some(x) => is_hex(c) && x as int == hex_val(c),
            None => !is_hex(c),
        },
{
    if c == '0' {
        Some(0)
    } else if c == '1' {
        Some(1)
    } else if c == '2' {
        Some(2)
    } else if c == '3' {
        Some(3)
    } else if c == '4' {
        Some(4)
    } else if c == '5' {
        Some(5)
    } else if c == '6' {
        Some(6)
    } else if c == '7' {
        Some(7)
    } else if c == '8' {
        Some(8)
    } else if c == '9' {
        Some(9)
    } else if c == 'a' || c == 'A' {
        Some(10)
    } else if c == 'b' || c == 'B' {
        Some(11)
    } else if c == 'c' || c == 'C' {
        Some(12)
    } else if c == 'd' || c == 'D' {
        Some(13)
    } else if c == 'e' || c == 'E' {
        Some(14)
    } else if c == 'f' || c == 'F' {
        Some(15)
    } else {
        None
    }
}

/// Relies on `char::from_u32`: present exactly for a scalar value that is
/// not a surrogate and not beyond the last scalar, and the character
/// carries exactly that value.
#[verifier::external_body]
fn char_from_u32(v: u32) -> (r: Option<char>)
    ensures
        r matches Some(c) ==> c as u32 == v,
        r is Some <==> valid_scalar(v),
{
    char::from_u32(v)
}

/// Parse a number at position `i`.
fn parse_num(chars: &Vec<char>, i: usize) -> (r: Option<(JsonVal, usize)>)
    requires
        i <= chars@.len(),
    ensures
        match r {
            Some((v, j)) => i < j <= chars@.len() && sp_num(chars@, i as int) == Some(
                (v@, j as int),
            ),
            None => sp_num(chars@, i as int) is None,
        },
{
    let neg = i < chars.len() && chars[i] == '-';
    let d0 = if neg {
        i + 1
    } else {
        i
    };
    let limit: u128 = if neg {
        (i128::MAX as u128) + 1
    } else {
        i128::MAX as u128
    };
    let mut j = d0;
    let mut acc: u128 = 0;
    let mut over = false;
    while j < chars.len() && is_digit_ex(chars[j])
        invariant
            d0 <= j <= chars@.len(),
            d0 == (if (i < chars@.len() && chars@[i as int] == '-') {
                i + 1
            } else {
                i as int
            }),
            limit as int == (if (i < chars@.len() && chars@[i as int] == '-') {
                i128::MAX + 1
            } else {
                i128::MAX as int
            }),
            digits_end(chars@, d0 as int) == digits_end(chars@, j as int),
            !over ==> acc as int == dec_value(chars@.subrange(d0 as int, j as int)) && acc
                <= limit,
            over ==> dec_value(chars@.subrange(d0 as int, j as int)) > limit,
        decreases chars@.len() - j,
    {
        let c = chars[j];
        let d = digit_of(c);
        proof {
            let pre = chars@.subrange(d0 as int, j as int);
            let cur = chars@.subrange(d0 as int, j as int + 1);
            assert(cur.drop_last() =~= pre);
            assert(cur.last() == chars@[j as int]);
        }
        if !over {
            if acc <= (limit - d as u128) / 10 {
                acc = acc * 10 + d as u128;
            } else {
                over = true;
            }
        }
        j += 1;
    }
    if j == d0 {
        return None;
    }
    if over {
        return None;
    }
    let v: i128 = if neg {
        if acc == (i128::MAX as u128) + 1 {
            i128::MIN
        } else {
            -(acc as i128)
        }
    } else {
        acc as i128
    };
    Some((JsonVal::Num(v), j))
}

/// Parse a string body from `i` (just past the opening quote).
fn parse_str_body(chars: &Vec<char>, i: usize) -> (r: Option<(String, usize)>)
    requires
        i <= chars@.len(),
    ensures
        match r {
            Some((cs, j)) => i < j <= chars@.len() && sp_str_body(chars@, i as int) == Some(
                (cs@, j as int),
            ),
            None => sp_str_body(chars@, i as int) is None,
        },
{
    let mut out: Vec<char> = Vec::new();
    let mut j = i;
    while j < chars.len()
        invariant
            i <= j <= chars@.len(),
            match sp_str_body(chars@, j as int) {
                Some((rest, e)) => sp_str_body(chars@, i as int) == Some((out@ + rest, e)),
                None => sp_str_body(chars@, i as int) is None,
            },
        decreases chars@.len() - j,
    {
        let c = chars[j];
        if c == '"' {
            proof {
                assert(out@ + Seq::<char>::empty() =~= out@);
            }
            return Some((string_from_chars(out), j + 1));
        } else if c == '\\' {
            if j + 1 < chars.len() {
                let e = chars[j + 1];
                if e == 'u' {
                    if chars.len() - j >= 6 {
                        let h1 = match hex_of(chars[j + 2]) {
                            Some(x) => x,
                            None => {
                                return None;
                            },
                        };
                        let h2 = match hex_of(chars[j + 3]) {
                            Some(x) => x,
                            None => {
                                return None;
                            },
                        };
                        let h3 = match hex_of(chars[j + 4]) {
                            Some(x) => x,
                            None => {
                                return None;
                            },
                        };
                        let h4 = match hex_of(chars[j + 5]) {
                            Some(x) => x,
                            None => {
                                return None;
                            },
                        };
                        let code: u32 = (h1 as u32) * 4096 + (h2 as u32) * 256 + (h3 as u32)
                            * 16 + (h4 as u32);
                        let dec = match char_from_u32(code) {
                            Some(d) => d,
                            None => {
                                return None;
                            },
                        };
                        proof {
                            vstd::utf8::char_u32_cast(dec, code);
                            assert(char_of(code) == dec);
                            match sp_str_body(chars@, j as int + 6) {
                                Some((rest2, e2)) => {
                                    assert(out@ + (seq![dec] + rest2) =~= (out@ + seq![dec])
                                        + rest2);
                                },
                                None => {},
                            }
                        }
                        let ghost out0 = out@;
                        out.push(dec);
                        proof {
                            assert(out@ =~= out0 + seq![dec]);
                        }
                        j += 6;
                    } else {
                        return None;
                    }
                } else {
                    let dec: char = if e == '"' {
                        '"'
                    } else if e == '\\' {
                        '\\'
                    } else if e == '/' {
                        '/'
                    } else if e == 'n' {
                        '\n'
                    } else if e == 'r' {
                        '\r'
                    } else if e == 't' {
                        '\t'
                    } else if e == 'b' {
                        '\u{8}'
                    } else if e == 'f' {
                        '\u{c}'
                    } else {
                        return None;
                    };
                    proof {
                        match sp_str_body(chars@, j as int + 2) {
                            Some((rest2, e2)) => {
                                assert(out@ + (seq![dec] + rest2) =~= (out@ + seq![dec])
                                    + rest2);
                            },
                            None => {},
                        }
                    }
                    let ghost out0 = out@;
                    out.push(dec);
                    proof {
                        assert(out@ =~= out0 + seq![dec]);
                    }
                    j += 2;
                }
            } else {
                return None;
            }
        } else {
            proof {
                match sp_str_body(chars@, j as int + 1) {
                    Some((rest2, e2)) => {
                        assert(out@ + (seq![c] + rest2) =~= (out@ + seq![c]) + rest2);
                    },
                    None => {},
                }
            }
            let ghost out0 = out@;
            out.push(c);
            proof {
                assert(out@ =~= out0 + seq![c]);
            }
            j += 1;
        }
    }
    None
}

/// Parse one value at position `i`.
fn parse_value(chars: &Vec<char>, i: usize) -> (r: Option<(JsonVal, usize)>)
    requires
        i <= chars@.len(),
    ensures
        match r {
            Some((v, j)) => i < j <= chars@.len() && sp_value(chars@, i as int) == Some(
                (v@, j as int),
            ),
            None => sp_value(chars@, i as int) is None,
        },
    decreases chars@.len() - i, 0int,
{
    let j = skip_ws_exec(chars, i);
    if j < chars.len() {
        let c = chars[j];
        if c == 'n' {
            if has_lit(chars, j, "null") {
                proof {
                    reveal_strlit("null");
                }
                Some((JsonVal::Null, j + 4))
            } else {
                None
            }
        } else if c == 't' {
            if has_lit(chars, j, "true") {
                proof {
                    reveal_strlit("true");
                }
                Some((JsonVal::Bool(true), j + 4))
            } else {
                None
            }
        } else if c == 'f' {
            if has_lit(chars, j, "false") {
                proof {
                    reveal_strlit("false");
                }
                Some((JsonVal::Bool(false), j + 5))
            } else {
                None
            }
        } else if c == '"' {
            match parse_str_body(chars, j + 1) {
                Some((cs, k)) => Some((JsonVal::Str(cs), k)),
                None => None,
            }
        } else if c == '-' || is_digit_ex(c) {
            parse_num(chars, j)
        } else if c == '[' {
            let acc: Vec<JsonVal> = Vec::new();
            parse_arr(chars, j + 1, acc)
        } else if c == '{' {
            let acc: Vec<(String, JsonVal)> = Vec::new();
            parse_obj(chars, j + 1, acc)
        } else {
            None
        }
    } else {
        None
    }
}

/// Parse the remainder of an array from position `i`.
fn parse_arr(chars: &Vec<char>, i: usize, acc: Vec<JsonVal>) -> (r: Option<(JsonVal, usize)>)
    requires
        i <= chars@.len(),
    ensures
        match r {
            Some((v, j)) => i < j <= chars@.len() && sp_arr(chars@, i as int, rep_arr(acc@))
                == Some((v@, j as int)),
            None => sp_arr(chars@, i as int, rep_arr(acc@)) is None,
        },
    decreases chars@.len() - i, 1int,
{
    proof {
        lemma_rep_arr_len(acc@);
    }
    let j = skip_ws_exec(chars, i);
    if acc.len() == 0 && j < chars.len() && chars[j] == ']' {
        return Some((JsonVal::Arr(acc), j + 1));
    }
    match parse_value(chars, i) {
        Some((v, i2)) => {
            let k = skip_ws_exec(chars, i2);
            if k < chars.len() {
                let c = chars[k];
                if c == ']' {
                    proof {
                        lemma_rep_arr_push(acc@, v);
                    }
                    let mut acc2 = acc;
                    acc2.push(v);
                    Some((JsonVal::Arr(acc2), k + 1))
                } else if c == ',' {
                    proof {
                        lemma_rep_arr_push(acc@, v);
                    }
                    let mut acc2 = acc;
                    acc2.push(v);
                    parse_arr(chars, k + 1, acc2)
                } else {
                    None
                }
            } else {
                None
            }
        },
        None => None,
    }
}

/// Parse the remainder of an object from position `i`.
fn parse_obj(chars: &Vec<char>, i: usize, acc: Vec<(String, JsonVal)>) -> (r: Option<
    (JsonVal, usize),
>)
    requires
        i <= chars@.len(),
    ensures
        match r {
            Some((v, j)) => i < j <= chars@.len() && sp_obj(chars@, i as int, rep_obj(acc@))
                == Some((v@, j as int)),
            None => sp_obj(chars@, i as int, rep_obj(acc@)) is None,
        },
    decreases chars@.len() - i, 1int,
{
    proof {
        lemma_rep_obj_len(acc@);
    }
    let j = skip_ws_exec(chars, i);
    if acc.len() == 0 && j < chars.len() && chars[j] == '}' {
        return Some((JsonVal::Obj(acc), j + 1));
    }
    if j < chars.len() && chars[j] == '"' {
        match parse_str_body(chars, j + 1) {
            Some((key, i2)) => {
                let k = skip_ws_exec(chars, i2);
                if k < chars.len() && chars[k] == ':' {
                    match parse_value(chars, k + 1) {
                        Some((v, i3)) => {
                            let l = skip_ws_exec(chars, i3);
                            if l < chars.len() {
                                let c = chars[l];
                                if c == '}' {
                                    proof {
                                        lemma_rep_obj_push(acc@, (key, v));
                                    }
                                    let mut acc2 = acc;
                                    acc2.push((key, v));
                                    Some((JsonVal::Obj(acc2), l + 1))
                                } else if c == ',' {
                                    proof {
                                        lemma_rep_obj_push(acc@, (key, v));
                                    }
                                    let mut acc2 = acc;
                                    acc2.push((key, v));
                                    parse_obj(chars, l + 1, acc2)
                                } else {
                                    None
                                }
                            } else {
                                None
                            }
                        },
                        None => None,
                    }
                } else {
                    None
                }
            },
            None => None,
        }
    } else {
        None
    }
}

/// True of a value whose numbers the engine's number type can carry, so
/// its canonical text stays parseable.
pub open spec fn json_wf(d: JsonData) -> bool
    decreases d,
{
    match d {
        JsonData::Num(n) => i128::MIN as int <= n <= i128::MAX as int,
        JsonData::Arr(items) => json_wf_arr(items),
        JsonData::Obj(members) => json_wf_obj(members),
        _ => true,
    }
}

/// Every element is well formed.
pub open spec fn json_wf_arr(items: Seq<JsonData>) -> bool
    decreases items,
{
    items.len() == 0 || (json_wf(items[0]) && json_wf_arr(items.drop_first()))
}

/// Every member's value is well formed.
pub open spec fn json_wf_obj(members: Seq<(Seq<char>, JsonData)>) -> bool
    decreases members,
{
    members.len() == 0 || (json_wf(members[0].1) && json_wf_obj(members.drop_first()))
}

/// Every value the engine can hold is well formed: its numbers all fit
/// the engine's number type, so by the canonical-parse law its wire text
/// always parses back to it.
pub proof fn lemma_rep_wf(v: JsonVal)
    ensures
        json_wf(rep(v)),
    decreases v, 0int,
{
    match v {
        JsonVal::Arr(items) => {
            lemma_rep_wf_arr(items@);
        },
        JsonVal::Obj(members) => {
            lemma_rep_wf_obj(members@);
        },
        _ => {},
    }
}

/// The models of an array's elements are all well formed.
proof fn lemma_rep_wf_arr(items: Seq<JsonVal>)
    ensures
        json_wf_arr(rep_arr(items)),
    decreases items, 1int,
{
    if items.len() > 0 {
        lemma_rep_wf(items[0]);
        lemma_rep_wf_arr(items.drop_first());
        assert(rep_arr(items)[0] == rep(items[0]));
        assert(rep_arr(items).drop_first() =~= rep_arr(items.drop_first()));
    }
}

/// The models of an object's member values are all well formed.
proof fn lemma_rep_wf_obj(members: Seq<(String, JsonVal)>)
    ensures
        json_wf_obj(rep_obj(members)),
    decreases members, 1int,
{
    if members.len() > 0 {
        lemma_rep_wf(members[0].1);
        lemma_rep_wf_obj(members.drop_first());
        assert(rep_obj(members)[0] == (members[0].0@, rep(members[0].1)));
        assert(rep_obj(members).drop_first() =~= rep_obj(members.drop_first()));
    }
}

/// An array of well-formed elements is well formed.
pub proof fn lemma_wf_arr_all(items: Seq<JsonData>)
    requires
        forall|k: int| 0 <= k < items.len() ==> json_wf(#[trigger] items[k]),
    ensures
        json_wf_arr(items),
    decreases items.len(),
{
    if items.len() > 0 {
        assert(forall|k: int|
            0 <= k < items.drop_first().len() ==> #[trigger] items.drop_first()[k] == items[k
                + 1]);
        lemma_wf_arr_all(items.drop_first());
    }
}

/// An object of well-formed member values is well formed.
pub proof fn lemma_wf_obj_all(members: Seq<(Seq<char>, JsonData)>)
    requires
        forall|k: int| 0 <= k < members.len() ==> json_wf(#[trigger] members[k].1),
    ensures
        json_wf_obj(members),
    decreases members.len(),
{
    if members.len() > 0 {
        assert(forall|k: int|
            0 <= k < members.drop_first().len() ==> #[trigger] members.drop_first()[k]
                == members[k + 1]);
        lemma_wf_obj_all(members.drop_first());
    }
}

/// The digits of a positive number are digits.
proof fn lemma_dec_rec_digits(n: int)
    requires
        n >= 0,
    ensures
        forall|k: int| 0 <= k < dec_rec(n).len() ==> is_digit(#[trigger] dec_rec(n)[k]),
    decreases n,
{
    if n > 0 {
        lemma_dec_rec_digits(n / 10);
        assert(is_digit(dec_digit(n % 10)));
        assert forall|k: int| 0 <= k < dec_rec(n).len() implies is_digit(
            #[trigger] dec_rec(n)[k],
        ) by {
            if k < dec_rec(n).len() - 1 {
                assert(dec_rec(n)[k] == dec_rec(n / 10)[k]);
            } else {
                assert(dec_rec(n)[k] == dec_digit(n % 10));
            }
        }
    }
}

/// The digits of a positive number read back as that number.
proof fn lemma_dec_rec_value(n: int)
    requires
        n >= 0,
    ensures
        dec_value(dec_rec(n)) == n,
        n > 0 ==> dec_rec(n).len() > 0,
    decreases n,
{
    if n > 0 {
        lemma_dec_rec_value(n / 10);
        assert(dec_rec(n).drop_last() =~= dec_rec(n / 10));
        assert(dec_rec(n).last() == dec_digit(n % 10));
        assert(digit_val(dec_digit(n % 10)) == n % 10);
    }
}

/// A non-negative number's canonical digits: nonempty, digits only, and
/// they read back as the number.
proof fn lemma_dec_seq_canon(n: int)
    requires
        n >= 0,
    ensures
        dec_seq(n).len() > 0,
        forall|k: int| 0 <= k < dec_seq(n).len() ==> is_digit(#[trigger] dec_seq(n)[k]),
        dec_value(dec_seq(n)) == n,
{
    if n == 0 {
        assert(dec_seq(0) =~= seq!['0']);
        assert(seq!['0'].drop_last() =~= Seq::<char>::empty());
        assert(dec_value(Seq::<char>::empty()) == 0);
        assert(seq!['0'].last() == '0');
        assert(dec_value(seq!['0']) == dec_value(seq!['0'].drop_last()) * 10 + digit_val(
            seq!['0'].last(),
        ));
        assert(dec_value(seq!['0']) == 0);
    } else {
        lemma_dec_rec_digits(n);
        lemma_dec_rec_value(n);
    }
}

/// A run of digits bounded by a non-digit (or the end) ends exactly
/// there.
proof fn lemma_digits_end_at(s: Seq<char>, i: int, j: int)
    requires
        0 <= i <= j <= s.len(),
        forall|k: int| i <= k < j ==> is_digit(#[trigger] s[k]),
        j == s.len() || !is_digit(s[j]),
    ensures
        digits_end(s, i) == j,
    decreases j - i,
{
    if i < j {
        lemma_digits_end_at(s, i + 1, j);
    }
}

/// The canonical text of a number, standing at `i` and bounded by a
/// non-digit, parses to exactly that number.
proof fn lemma_num_canon(s: Seq<char>, i: int, n: int)
    requires
        i128::MIN as int <= n <= i128::MAX as int,
        0 <= i,
        i + num_seq(n).len() <= s.len(),
        s.subrange(i, i + num_seq(n).len()) == num_seq(n),
        i + num_seq(n).len() == s.len() || !is_digit(s[i + num_seq(n).len()]),
    ensures
        sp_num(s, i) == Some((JsonData::Num(n), i + num_seq(n).len())),
{
    let w = num_seq(n);
    let e = i + w.len();
    if n < 0 {
        lemma_dec_seq_canon(-n);
        assert(w == seq!['-'] + dec_seq(-n));
        assert(s.subrange(i, e)[0] == w[0]);
        assert(s[i] == '-');
        assert forall|k: int| i + 1 <= k < e implies is_digit(#[trigger] s[k]) by {
            assert(s.subrange(i, e)[k - i] == w[k - i]);
            assert(w[k - i] == dec_seq(-n)[k - i - 1]);
        }
        lemma_digits_end_at(s, i + 1, e);
        assert(s.subrange(i + 1, e) =~= dec_seq(-n)) by {
            assert forall|k: int| 0 <= k < e - i - 1 implies #[trigger] s.subrange(i + 1, e)[k]
                == dec_seq(-n)[k] by {
                assert(s.subrange(i, e)[k + 1] == w[k + 1]);
            }
        }
    } else {
        lemma_dec_seq_canon(n);
        assert(w == dec_seq(n));
        assert forall|k: int| i <= k < e implies is_digit(#[trigger] s[k]) by {
            assert(s.subrange(i, e)[k - i] == w[k - i]);
        }
        assert(s[i] != '-');
        lemma_digits_end_at(s, i, e);
        assert(s.subrange(i, e) =~= dec_seq(n));
    }
}

/// The escaped body of a string, standing at `i` and closed by a quote,
/// parses back to exactly the body.
proof fn lemma_str_body_canon(s: Seq<char>, i: int, body: Seq<char>)
    requires
        0 <= i,
        i + esc_seq(body).len() + 1 <= s.len(),
        s.subrange(i, i + esc_seq(body).len()) == esc_seq(body),
        s[i + esc_seq(body).len()] == '"',
    ensures
        sp_str_body(s, i) == Some((body, i + esc_seq(body).len() + 1)),
    decreases body.len(),
{
    let w = esc_seq(body);
    if body.len() == 0 {
        assert(s[i] == '"');
    } else {
        let c = body[0];
        let e = esc_char(c);
        let tail = body.drop_first();
        assert(w == e + esc_seq(tail));
        assert(s.subrange(i + e.len(), i + w.len()) =~= esc_seq(tail)) by {
            assert forall|k: int|
                0 <= k < esc_seq(tail).len() implies #[trigger] s.subrange(
                i + e.len(),
                i + w.len(),
            )[k] == esc_seq(tail)[k] by {
                assert(s.subrange(i, i + w.len())[e.len() + k] == w[e.len() + k]);
                assert(w[e.len() + k] == esc_seq(tail)[k]);
            }
        }
        lemma_str_body_canon(s, i + e.len(), tail);
        assert(seq![c] + tail =~= body);
        assert(s.subrange(i, i + w.len())[0] == w[0]);
        if e.len() == 2 {
            assert(s[i] == '\\');
            assert(s.subrange(i, i + w.len())[1] == w[1]);
            assert(s[i + 1] == e[1]);
            assert(sp_escape(s, i + 1) == Some((c, i + 2)));
        } else {
            assert(e == seq![c]);
            assert(s[i] == c);
            assert(c != '"' && c != '\\');
        }
    }
}

/// Skipping whitespace at a non-whitespace character stays put.
proof fn lemma_ws_none(s: Seq<char>, i: int)
    requires
        i >= s.len() || 0 <= i < s.len() && !is_ws(s[i]),
    ensures
        sp_ws(s, i) == i,
{
}

/// The canonical text of a value is nonempty, opens with the character
/// its shape dictates, and never opens or closes with whitespace.
proof fn lemma_json_seq_shape(d: JsonData)
    ensures
        json_seq(d).len() > 0,
        !is_ws(json_seq(d)[0]),
        !is_ws(json_seq(d).last()),
        !is_digit(json_seq(d).last()) || d matches JsonData::Num(_),
        match d {
            JsonData::Null => json_seq(d)[0] == 'n',
            JsonData::Bool(b) => json_seq(d)[0] == (if b {
                't'
            } else {
                'f'
            }),
            JsonData::Num(n) => json_seq(d)[0] == '-' || is_digit(json_seq(d)[0]),
            JsonData::Str(_) => json_seq(d)[0] == '"' && json_seq(d).last() == '"',
            JsonData::Arr(_) => json_seq(d)[0] == '[' && json_seq(d).last() == ']',
            JsonData::Obj(_) => json_seq(d)[0] == '{' && json_seq(d).last() == '}',
        },
{
    match d {
        JsonData::Num(n) => {
            if n < 0 {
                lemma_dec_seq_canon(-n);
                assert(json_seq(d)[0] == '-');
                assert(json_seq(d).last() == dec_seq(-n).last());
                assert(is_digit(json_seq(d).last()));
            } else {
                lemma_dec_seq_canon(n);
                assert(json_seq(d)[0] == dec_seq(n)[0]);
                assert(json_seq(d).last() == dec_seq(n).last());
                assert(is_digit(json_seq(d).last()));
            }
        },
        JsonData::Str(cs) => {
            assert(json_seq(d)[0] == '"');
            assert(json_seq(d).last() == '"');
        },
        _ => {},
    }
}

/// The canonical text of a value, standing at `i` and bounded by a
/// non-digit (or the end), parses to exactly that value.
proof fn lemma_value_canon(s: Seq<char>, i: int, d: JsonData)
    requires
        json_wf(d),
        0 <= i,
        i + json_seq(d).len() <= s.len(),
        s.subrange(i, i + json_seq(d).len()) == json_seq(d),
        i + json_seq(d).len() == s.len() || !is_digit(s[i + json_seq(d).len()]),
    ensures
        sp_value(s, i) == Some((d, i + json_seq(d).len())),
    decreases d, 0int,
{
    let w = json_seq(d);
    let e = i + w.len();
    lemma_json_seq_shape(d);
    assert(s.subrange(i, e)[0] == w[0]);
    assert(s[i] == w[0]);
    assert(sp_ws(s, i) == i);
    match d {
        JsonData::Null => {
            reveal_strlit("null");
            assert("null"@ =~= seq!['n', 'u', 'l', 'l']);
            assert(w == seq!['n', 'u', 'l', 'l']);
            assert(s.subrange(i, i + 4) == "null"@);
            assert(sp_lit(s, i, "null"@));
        },
        JsonData::Bool(b) => {
            if b {
                reveal_strlit("true");
                assert("true"@ =~= seq!['t', 'r', 'u', 'e']);
                assert(w == seq!['t', 'r', 'u', 'e']);
                assert(s.subrange(i, i + 4) == "true"@);
                assert(sp_lit(s, i, "true"@));
            } else {
                reveal_strlit("false");
                assert("false"@ =~= seq!['f', 'a', 'l', 's', 'e']);
                assert(w == seq!['f', 'a', 'l', 's', 'e']);
                assert(s.subrange(i, i + 5) == "false"@);
                assert(sp_lit(s, i, "false"@));
            }
        },
        JsonData::Num(n) => {
            assert(w == num_seq(n));
            lemma_num_canon(s, i, n);
        },
        JsonData::Str(cs) => {
            assert(w == str_seq(cs));
            let el = esc_seq(cs).len() as int;
            assert(w.len() == el + 2);
            assert(s.subrange(i + 1, i + 1 + el) =~= esc_seq(cs)) by {
                assert forall|k: int|
                    0 <= k < el implies #[trigger] s.subrange(i + 1, i + 1 + el)[k]
                    == esc_seq(cs)[k] by {
                    assert(s.subrange(i, e)[k + 1] == w[k + 1]);
                    assert(w[k + 1] == esc_seq(cs)[k]);
                }
            }
            assert(s.subrange(i, e)[el + 1] == w[el + 1]);
            assert(s[i + 1 + el] == '"');
            lemma_str_body_canon(s, i + 1, cs);
        },
        JsonData::Arr(items) => {
            let aw = arr_seq(items);
            assert(w == seq!['['] + aw + seq![']']);
            assert(s.subrange(i + 1, i + 1 + aw.len()) =~= aw) by {
                assert forall|k: int|
                    0 <= k < aw.len() implies #[trigger] s.subrange(i + 1, i + 1 + aw.len())[k]
                    == aw[k] by {
                    assert(s.subrange(i, e)[k + 1] == w[k + 1]);
                    assert(w[k + 1] == aw[k]);
                }
            }
            assert(s.subrange(i, e)[aw.len() as int + 1] == w[aw.len() as int + 1]);
            assert(s[i + 1 + aw.len()] == ']');
            lemma_arr_canon(s, i + 1, items, Seq::empty());
            assert(Seq::<JsonData>::empty() + items =~= items);
        },
        JsonData::Obj(members) => {
            let ow = obj_seq(members);
            assert(w == seq!['{'] + ow + seq!['}']);
            assert(s.subrange(i + 1, i + 1 + ow.len()) =~= ow) by {
                assert forall|k: int|
                    0 <= k < ow.len() implies #[trigger] s.subrange(i + 1, i + 1 + ow.len())[k]
                    == ow[k] by {
                    assert(s.subrange(i, e)[k + 1] == w[k + 1]);
                    assert(w[k + 1] == ow[k]);
                }
            }
            assert(s.subrange(i, e)[ow.len() as int + 1] == w[ow.len() as int + 1]);
            assert(s[i + 1 + ow.len()] == '}');
            lemma_obj_canon(s, i + 1, members, Seq::empty());
            assert(Seq::<(Seq<char>, JsonData)>::empty() + members =~= members);
        },
    }
}

/// The canonical comma-separated texts of the remaining elements, closed
/// by a bracket, continue an array parse to exactly those elements.
proof fn lemma_arr_canon(s: Seq<char>, i: int, items: Seq<JsonData>, acc: Seq<JsonData>)
    requires
        json_wf_arr(items),
        items.len() == 0 ==> acc.len() == 0,
        0 <= i,
        i + arr_seq(items).len() + 1 <= s.len(),
        s.subrange(i, i + arr_seq(items).len()) == arr_seq(items),
        s[i + arr_seq(items).len()] == ']',
    ensures
        sp_arr(s, i, acc) == Some((JsonData::Arr(acc + items), i + arr_seq(items).len() + 1)),
    decreases items, 1int,
{
    let aw = arr_seq(items);
    let e = i + aw.len();
    if items.len() == 0 {
        assert(e == i);
        assert(sp_ws(s, i) == i);
        assert(acc + items =~= acc);
    } else {
        let hd = items[0];
        let hw = json_seq(hd);
        lemma_json_seq_shape(hd);
        assert(json_wf(hd) && json_wf_arr(items.drop_first()));
        // The opening character of the first element: never the bracket.
        if items.len() == 1 {
            assert(aw == hw);
        } else {
            assert(aw == hw + seq![','] + arr_seq(items.drop_first()));
        }
        assert(s.subrange(i, i + hw.len()) =~= hw) by {
            assert forall|k: int|
                0 <= k < hw.len() implies #[trigger] s.subrange(i, i + hw.len())[k] == hw[k] by {
                assert(s.subrange(i, e)[k] == aw[k]);
            }
        }
        assert(s.subrange(i, i + hw.len())[0] == hw[0]);
        assert(s[i] == hw[0]);
        assert(s[i] != ']');
        assert(sp_ws(s, i) == i);
        if items.len() == 1 {
            lemma_value_canon(s, i, hd);
            assert(sp_ws(s, e) == e);
            assert(acc.push(hd) =~= acc + items);
        } else {
            let i2 = i + hw.len();
            assert(s.subrange(i, e)[hw.len() as int] == aw[hw.len() as int]);
            assert(s[i2] == ',');
            lemma_value_canon(s, i, hd);
            assert(sp_ws(s, i2) == i2);
            let rest = items.drop_first();
            let rw = arr_seq(rest);
            assert(s.subrange(i2 + 1, i2 + 1 + rw.len()) =~= rw) by {
                assert forall|k: int|
                    0 <= k < rw.len() implies #[trigger] s.subrange(i2 + 1, i2 + 1 + rw.len())[k]
                    == rw[k] by {
                    assert(s.subrange(i, e)[hw.len() + 1 + k] == aw[hw.len() + 1 + k]);
                    assert(aw[hw.len() + 1 + k] == rw[k]);
                }
            }
            assert(i2 + 1 + rw.len() == e);
            lemma_arr_canon(s, i2 + 1, rest, acc.push(hd));
            assert(acc.push(hd) + rest =~= acc + items);
        }
    }
}

/// The canonical comma-separated texts of the remaining members, closed
/// by a brace, continue an object parse to exactly those members.
proof fn lemma_obj_canon(
    s: Seq<char>,
    i: int,
    members: Seq<(Seq<char>, JsonData)>,
    acc: Seq<(Seq<char>, JsonData)>,
)
    requires
        json_wf_obj(members),
        members.len() == 0 ==> acc.len() == 0,
        0 <= i,
        i + obj_seq(members).len() + 1 <= s.len(),
        s.subrange(i, i + obj_seq(members).len()) == obj_seq(members),
        s[i + obj_seq(members).len()] == '}',
    ensures
        sp_obj(s, i, acc) == Some(
            (JsonData::Obj(acc + members), i + obj_seq(members).len() + 1),
        ),
    decreases members, 1int,
{
    let ow = obj_seq(members);
    let e = i + ow.len();
    if members.len() == 0 {
        assert(e == i);
        assert(sp_ws(s, i) == i);
        assert(acc + members =~= acc);
    } else {
        let key = members[0].0;
        let val = members[0].1;
        let kw = str_seq(key);
        let vw = json_seq(val);
        let hw = kw + seq![':'] + vw;
        lemma_json_seq_shape(val);
        assert(json_wf(val) && json_wf_obj(members.drop_first()));
        if members.len() == 1 {
            assert(ow == hw);
        } else {
            assert(ow == hw + seq![','] + obj_seq(members.drop_first()));
        }
        assert(s.subrange(i, i + hw.len()) =~= hw) by {
            assert forall|k: int|
                0 <= k < hw.len() implies #[trigger] s.subrange(i, i + hw.len())[k] == hw[k] by {
                assert(s.subrange(i, e)[k] == ow[k]);
            }
        }
        assert(s.subrange(i, i + hw.len())[0] == hw[0]);
        assert(s[i] == '"');
        assert(sp_ws(s, i) == i);
        // The key's escaped body sits just past the opening quote.
        let el = esc_seq(key).len() as int;
        assert(kw.len() == el + 2);
        assert(s.subrange(i + 1, i + 1 + el) =~= esc_seq(key)) by {
            assert forall|k: int|
                0 <= k < el implies #[trigger] s.subrange(i + 1, i + 1 + el)[k]
                == esc_seq(key)[k] by {
                assert(s.subrange(i, i + hw.len())[k + 1] == hw[k + 1]);
                assert(hw[k + 1] == kw[k + 1]);
                assert(kw[k + 1] == esc_seq(key)[k]);
            }
        }
        assert(s.subrange(i, i + hw.len())[el + 1] == hw[el + 1]);
        assert(hw[el + 1] == kw[el + 1]);
        assert(s[i + 1 + el] == '"');
        lemma_str_body_canon(s, i + 1, key);
        let i2 = i + kw.len();
        assert(sp_str_body(s, i + 1) == Some((key, i2)));
        assert(s.subrange(i, i + hw.len())[kw.len() as int] == hw[kw.len() as int]);
        assert(s[i2] == ':');
        assert(sp_ws(s, i2) == i2);
        // The member's value follows the colon.
        let i3 = i2 + 1 + vw.len();
        assert(s.subrange(i2 + 1, i3) =~= vw) by {
            assert forall|k: int|
                0 <= k < vw.len() implies #[trigger] s.subrange(i2 + 1, i3)[k] == vw[k] by {
                assert(s.subrange(i, i + hw.len())[kw.len() + 1 + k] == hw[kw.len() + 1 + k]);
                assert(hw[kw.len() + 1 + k] == vw[k]);
            }
        }
        assert(i3 == i + hw.len());
        if members.len() == 1 {
            assert(i3 == e);
            assert(s[i3] == '}');
            lemma_value_canon(s, i2 + 1, val);
            assert(sp_ws(s, i3) == i3);
            assert(acc.push((key, val)) =~= acc + members);
        } else {
            assert(s.subrange(i, e)[hw.len() as int] == ow[hw.len() as int]);
            assert(s[i3] == ',');
            lemma_value_canon(s, i2 + 1, val);
            assert(sp_ws(s, i3) == i3);
            let rest = members.drop_first();
            let rw = obj_seq(rest);
            assert(s.subrange(i3 + 1, i3 + 1 + rw.len()) =~= rw) by {
                assert forall|k: int|
                    0 <= k < rw.len() implies #[trigger] s.subrange(i3 + 1, i3 + 1 + rw.len())[k]
                    == rw[k] by {
                    assert(s.subrange(i, e)[hw.len() + 1 + k] == ow[hw.len() + 1 + k]);
                    assert(ow[hw.len() + 1 + k] == rw[k]);
                }
            }
            assert(i3 + 1 + rw.len() == e);
            lemma_obj_canon(s, i3 + 1, rest, acc.push((key, val)));
            assert(acc.push((key, val)) + rest =~= acc + members);
        }
    }
}

/// Round trip over the wire: the canonical text of any value whose
/// numbers the engine can carry parses back to exactly that value —
/// alone, and with the framer's line terminator appended.
pub proof fn lemma_canonical_parse(d: JsonData)
    requires
        json_wf(d),
    ensures
        sp_doc(json_seq(d)) == Some(d),
        sp_doc(json_seq(d).push('\n')) == Some(d),
{
    let w = json_seq(d);
    lemma_json_seq_shape(d);
    assert(w.subrange(0, w.len() as int) =~= w);
    lemma_value_canon(w, 0, d);
    assert(sp_ws(w, w.len() as int) == w.len());
    let s2 = w.push('\n');
    assert(s2.subrange(0, w.len() as int) =~= w);
    assert(!is_digit(s2[w.len() as int]));
    lemma_value_canon(s2, 0, d);
    assert(is_ws(s2[w.len() as int]));
    assert(sp_ws(s2, w.len() as int) == sp_ws(s2, w.len() as int + 1));
    assert(sp_ws(s2, w.len() as int + 1) == s2.len());
}

/// Parse a whole line of wire text into a structured value: the value it
/// holds, or nothing when the text is not a single well-formed document.
pub fn parse_json(s: &str) -> (r: Option<JsonVal>)
    ensures
        match r {
            Some(v) => sp_doc(s@) == Some(v@),
            None => sp_doc(s@) is None,
        },
{
    let chars = chars_vec(s);
    match parse_value(&chars, 0) {
        Some((v, j)) => {
            let k = skip_ws_exec(&chars, j);
            if k == chars.len() {
                Some(v)
            } else {
                None
            }
        },
        None => None,
    }
}

} // verus!
