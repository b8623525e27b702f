//! Structured JSON values as this engine transports them, their
//! mathematical model, and the canonical wire text each value serializes to.
//!
//! The engine carries integer-valued numbers, strings, booleans, null,
//! arrays, and objects with ordered members — the vocabulary the stratum
//! protocol needs.  The canonical text places no whitespace between tokens
//! and escapes the quote, the backslash, and the named control characters
//! (`\n`, `\r`, `\t`, `\b`, `\f`) inside strings.

use vstd::prelude::*;

verus! {

/// A structured JSON value as carried in an envelope's params, result or
/// error position.
#[derive(Debug)]
pub enum JsonVal {
    Null,
    Bool(bool),
    Num(i128),
    Str(String),
    Arr(Vec<JsonVal>),
    Obj(Vec<(String, JsonVal)>),
}

/// The mathematical model of a JSON value: numbers are unbounded integers,
/// strings are character sequences, arrays and objects are sequences.
pub enum JsonData {
    Null,
    Bool(bool),
    Num(int),
    Str(Seq<char>),
    Arr(Seq<JsonData>),
    Obj(Seq<(Seq<char>, JsonData)>),
}

/// The model of a value.
pub open spec fn rep(v: JsonVal) -> JsonData
    decreases v,
{
    match v {
        JsonVal::Null => JsonData::Null,
        JsonVal::Bool(b) => JsonData::Bool(b),
        JsonVal::Num(n) => JsonData::Num(n as int),
        JsonVal::Str(s) => JsonData::Str(s@),
        JsonVal::Arr(items) => JsonData::Arr(rep_arr(items@)),
        JsonVal::Obj(members) => JsonData::Obj(rep_obj(members@)),
    }
}

/// The models of an array's elements, in order.
pub open spec fn rep_arr(items: Seq<JsonVal>) -> Seq<JsonData>
    decreases items,
{
    if items.len() == 0 {
        Seq::empty()
    } else {
        seq![rep(items[0])] + rep_arr(items.drop_first())
    }
}

/// The models of an object's members, in order.
pub open spec fn rep_obj(members: Seq<(String, JsonVal)>) -> Seq<(Seq<char>, JsonData)>
    decreases members,
{
    if members.len() == 0 {
        Seq::empty()
    } else {
        seq![(members[0].0@, rep(members[0].1))] + rep_obj(members.drop_first())
    }
}

impl View for JsonVal {
    type V = JsonData;

    open spec fn view(&self) -> JsonData {
        rep(*self)
    }
}

impl JsonVal {
    /// A copy with the same model.
    pub fn duplicate(&self) -> (r: JsonVal)
        ensures
            r@ == self@,
        decreases *self,
    {
        match self {
            JsonVal::Null => JsonVal::Null,
            JsonVal::Bool(b) => JsonVal::Bool(*b),
            JsonVal::Num(n) => JsonVal::Num(*n),
            JsonVal::Str(s) => JsonVal::Str(s.clone()),
            JsonVal::Arr(items) => {
                let mut out: Vec<JsonVal> = Vec::new();
                let mut i: usize = 0;
                while i < items.len()
                    invariant
                        *self == JsonVal::Arr(*items),
                        i <= items@.len(),
                        out@.len() == i,
                        forall|k: int| 0 <= k < i ==> rep(#[trigger] out@[k]) == rep(items@[k]),
                    decreases items@.len() - i,
                {
                    proof {
                        assert(decreases_to!(*self => self->Arr_0));
                        assert(decreases_to!(self->Arr_0 => self->Arr_0@));
                        assert(decreases_to!(self->Arr_0@ => self->Arr_0@[i as int]));
                        assert(items@[i as int] == self->Arr_0@[i as int]);
                        assert(decreases_to!(*self => items@[i as int]));
                    }
                    let d = items[i].duplicate();
                    out.push(d);
                    i += 1;
                }
                proof {
                    lemma_rep_arr_len(out@);
                    lemma_rep_arr_len(items@);
                    assert(rep_arr(out@) =~= rep_arr(items@));
                }
                JsonVal::Arr(out)
            },
            JsonVal::Obj(members) => {
                let mut out: Vec<(String, JsonVal)> = Vec::new();
                let mut i: usize = 0;
                while i < members.len()
                    invariant
                        *self == JsonVal::Obj(*members),
                        i <= members@.len(),
                        out@.len() == i,
                        forall|k: int|
                            0 <= k < i ==> (#[trigger] out@[k]).0@ == members@[k].0@ && rep(
                                out@[k].1,
                            ) == rep(members@[k].1),
                    decreases members@.len() - i,
                {
                    proof {
                        assert(decreases_to!(*self => self->Obj_0));
                        assert(decreases_to!(self->Obj_0 => self->Obj_0@));
                        assert(decreases_to!(self->Obj_0@ => self->Obj_0@[i as int]));
                        assert(decreases_to!(self->Obj_0@[i as int] => self->Obj_0@[i as int].1));
                        assert(members@[i as int].1 == self->Obj_0@[i as int].1);
                        assert(decreases_to!(*self => members@[i as int].1));
                    }
                    let d = members[i].1.duplicate();
                    let key = members[i].0.clone();
                    out.push((key, d));
                    i += 1;
                }
                proof {
                    lemma_rep_obj_len(out@);
                    lemma_rep_obj_len(members@);
                    assert(rep_obj(out@) =~= rep_obj(members@));
                }
                JsonVal::Obj(out)
            },
        }
    }
}

/// The decimal digit character for a digit value.
pub open spec fn dec_digit(d: int) -> char {
    if d == 0 {
        '0'
    } else if d == 1 {
        '1'
    } else if d == 2 {
        '2'
    } else if d == 3 {
        '3'
    } else if d == 4 {
        '4'
    } else if d == 5 {
        '5'
    } else if d == 6 {
        '6'
    } else if d == 7 {
        '7'
    } else if d == 8 {
        '8'
    } else {
        '9'
    }
}

/// The digit value of a decimal digit character, and 10 for any other
/// character.
pub open spec fn digit_val(c: char) -> int {
    if c == '0' {
        0
    } else if c == '1' {
        1
    } else if c == '2' {
        2
    } else if c == '3' {
        3
    } else if c == '4' {
        4
    } else if c == '5' {
        5
    } else if c == '6' {
        6
    } else if c == '7' {
        7
    } else if c == '8' {
        8
    } else if c == '9' {
        9
    } else {
        10
    }
}

/// True for a decimal digit character.
pub open spec fn is_digit(c: char) -> bool {
    digit_val(c) < 10
}

/// The decimal digits of a non-negative integer, empty for zero.
pub open spec fn dec_rec(n: int) -> Seq<char>
    decreases n,
{
    if n <= 0 {
        Seq::empty()
    } else {
        dec_rec(n / 10).push(dec_digit(n % 10))
    }
}

/// The decimal digits of a non-negative integer, `"0"` for zero.
pub open spec fn dec_seq(n: int) -> Seq<char> {
    if n == 0 {
        seq!['0']
    } else {
        dec_rec(n)
    }
}

/// The canonical text of an integer: a minus sign for negative values,
/// then the decimal digits.
pub open spec fn num_seq(n: int) -> Seq<char> {
    if n < 0 {
        seq!['-'] + dec_seq(-n)
    } else {
        dec_seq(n)
    }
}

/// The canonical text of one string character: the named escapes for the
/// quote, the backslash, and the five control characters JSON names; any
/// other character stands for itself.
pub open spec fn esc_char(c: char) -> Seq<char> {
    if c == '"' {
        seq!['\\', '"']
    } else if c == '\\' {
        seq!['\\', '\\']
    } else if c == '\n' {
        seq!['\\', 'n']
    } else if c == '\r' {
        seq!['\\', 'r']
    } else if c == '\t' {
        seq!['\\', 't']
    } else if c == '\u{8}' {
        seq!['\\', 'b']
    } else if c == '\u{c}' {
        seq!['\\', 'f']
    } else {
        seq![c]
    }
}

/// The canonical text of a string body, character by character.
pub open spec fn esc_seq(s: Seq<char>) -> Seq<char>
    decreases s.len(),
{
    if s.len() == 0 {
        Seq::empty()
    } else {
        esc_char(s[0]) + esc_seq(s.drop_first())
    }
}

/// The canonical text of a string: the escaped body between quotes.
pub open spec fn str_seq(s: Seq<char>) -> Seq<char> {
    seq!['"'] + esc_seq(s) + seq!['"']
}

/// The canonical text of a value: no inter-token whitespace, members and
/// elements in order.
pub open spec fn json_seq(d: JsonData) -> Seq<char>
    decreases d,
{
    match d {
        JsonData::Null => seq!['n', 'u', 'l', 'l'],
        JsonData::Bool(b) => if b {
            seq!['t', 'r', 'u', 'e']
        } else {
            seq!['f', 'a', 'l', 's', 'e']
        },
        JsonData::Num(n) => num_seq(n),
        JsonData::Str(s) => str_seq(s),
        JsonData::Arr(items) => seq!['['] + arr_seq(items) + seq![']'],
        JsonData::Obj(members) => seq!['{'] + obj_seq(members) + seq!['}'],
    }
}

/// The comma-separated canonical texts of an array's elements.
pub open spec fn arr_seq(items: Seq<JsonData>) -> Seq<char>
    decreases items,
{
    if items.len() == 0 {
        Seq::empty()
    } else if items.len() == 1 {
        json_seq(items[0])
    } else {
        json_seq(items[0]) + seq![','] + arr_seq(items.drop_first())
    }
}

/// The comma-separated canonical texts of an object's members, each a
/// quoted key, a colon, and the member's value.
pub open spec fn obj_seq(members: Seq<(Seq<char>, JsonData)>) -> Seq<char>
    decreases members,
{
    if members.len() == 0 {
        Seq::empty()
    } else {
        let head = str_seq(members[0].0) + seq![':'] + json_seq(members[0].1);
        if members.len() == 1 {
            head
        } else {
            head + seq![','] + obj_seq(members.drop_first())
        }
    }
}

/// Relies on `String::from_iter`: the built string holds exactly the given
/// characters, in order.
#[verifier::external_body]
pub(crate) fn string_from_chars(v: Vec<char>) -> (r: String)
    ensures
        r@ == v@,
{
    String::from_iter(v)
}

/// The exec decimal digit character for a digit value.
fn digit_char(d: u8) -> (c: char)
    requires
        d < 10,
    ensures
        c == dec_digit(d as int),
{
    if d == 0 {
        '0'
    } else if d == 1 {
        '1'
    } else if d == 2 {
        '2'
    } else if d == 3 {
        '3'
    } else if d == 4 {
        '4'
    } else if d == 5 {
        '5'
    } else if d == 6 {
        '6'
    } else if d == 7 {
        '7'
    } else if d == 8 {
        '8'
    } else {
        '9'
    }
}

/// Append the decimal digits of a positive integer (nothing for zero).
fn push_dec_rec(out: &mut Vec<char>, m: u128)
    ensures
        final(out)@ == old(out)@ + dec_rec(m as int),
    decreases m,
{
    if m > 0 {
        push_dec_rec(out, m / 10);
        out.push(digit_char((m % 10) as u8));
        assert(out@ =~= old(out)@ + dec_rec(m as int));
    } else {
        assert(out@ =~= old(out)@ + dec_rec(0));
    }
}

/// Append the decimal digits of a non-negative integer.
fn push_dec(out: &mut Vec<char>, m: u128)
    ensures
        final(out)@ == old(out)@ + dec_seq(m as int),
{
    if m == 0 {
        out.push('0');
        assert(out@ =~= old(out)@ + dec_seq(0));
    } else {
        push_dec_rec(out, m);
    }
}

/// Append the canonical text of an integer.
fn push_num(out: &mut Vec<char>, n: i128)
    ensures
        final(out)@ == old(out)@ + num_seq(n as int),
{
    if n < 0 {
        out.push('-');
        let m: u128 = ((-(n + 1)) as u128) + 1;
        assert(m as int == -(n as int));
        push_dec(out, m);
        assert(out@ =~= old(out)@ + num_seq(n as int));
    } else {
        push_dec(out, n as u128);
    }
}

/// Append the canonical text of one string character.
fn push_esc_char(out: &mut Vec<char>, c: char)
    ensures
        final(out)@ == old(out)@ + esc_char(c),
{
    if c == '"' {
        out.push('\\');
        out.push('"');
    } else if c == '\\' {
        out.push('\\');
        out.push('\\');
    } else if c == '\n' {
        out.push('\\');
        out.push('n');
    } else if c == '\r' {
        out.push('\\');
        out.push('r');
    } else if c == '\t' {
        out.push('\\');
        out.push('t');
    } else if c == '\u{8}' {
        out.push('\\');
        out.push('b');
    } else if c == '\u{c}' {
        out.push('\\');
        out.push('f');
    } else {
        out.push(c);
    }
    assert(out@ =~= old(out)@ + esc_char(c));
}

/// Splitting a string body splits its canonical text.
proof fn lemma_esc_seq_append(a: Seq<char>, b: Seq<char>)
    ensures
        esc_seq(a + b) == esc_seq(a) + esc_seq(b),
    decreases a.len(),
{
    if a.len() == 0 {
        assert(a + b =~= b);
        assert(esc_seq(a) + esc_seq(b) =~= esc_seq(b));
    } else {
        lemma_esc_seq_append(a.drop_first(), b);
        assert((a + b).drop_first() =~= a.drop_first() + b);
        assert(esc_char(a[0]) + (esc_seq(a.drop_first()) + esc_seq(b)) =~= (esc_char(a[0])
            + esc_seq(a.drop_first())) + esc_seq(b));
    }
}

/// Append the canonical text of a string, quotes included.
fn push_str_lit(out: &mut Vec<char>, s: &str)
    ensures
        final(out)@ == old(out)@ + str_seq(s@),
{
    out.push('"');
    let len = s.unicode_len();
    let mut i: usize = 0;
    while i < len
        invariant
            len == s@.len(),
            i <= len,
            out@ == old(out)@ + seq!['"'] + esc_seq(s@.take(i as int)),
        decreases len - i,
    {
        let c = s.get_char(i);
        push_esc_char(out, c);
        proof {
            lemma_esc_seq_append(s@.take(i as int), seq![c]);
            assert(s@.take(i as int) + seq![c] =~= s@.take(i as int + 1));
            assert(seq![c].drop_first() =~= Seq::<char>::empty());
            assert(esc_seq(seq![c]) == esc_char(c) + esc_seq(Seq::<char>::empty()));
            assert(esc_seq(seq![c]) =~= esc_char(c));
            assert(out@ =~= old(out)@ + seq!['"'] + esc_seq(s@.take(i as int + 1)));
        }
        i += 1;
    }
    out.push('"');
    proof {
        assert(s@.take(len as int) =~= s@);
        assert(out@ =~= old(out)@ + str_seq(s@));
    }
}

/// Append the canonical text of a value.
fn push_json(out: &mut Vec<char>, v: &JsonVal)
    ensures
        final(out)@ == old(out)@ + json_seq(v@),
    decreases *v, 0int,
{
    match v {
        JsonVal::Null => {
            out.push('n');
            out.push('u');
            out.push('l');
            out.push('l');
            assert(out@ =~= old(out)@ + json_seq(v@));
        },
        JsonVal::Bool(b) => {
            if *b {
                out.push('t');
                out.push('r');
                out.push('u');
                out.push('e');
            } else {
                out.push('f');
                out.push('a');
                out.push('l');
                out.push('s');
                out.push('e');
            }
            assert(out@ =~= old(out)@ + json_seq(v@));
        },
        JsonVal::Num(n) => {
            push_num(out, *n);
        },
        JsonVal::Str(s) => {
            push_str_lit(out, s.as_str());
        },
        JsonVal::Arr(items) => {
            out.push('[');
            push_arr(out, items, 0);
            out.push(']');
            assert(rep_arr(items@.skip(0)) =~= rep_arr(items@)) by {
                assert(items@.skip(0) =~= items@);
            }
            assert(out@ =~= old(out)@ + json_seq(v@));
        },
        JsonVal::Obj(members) => {
            out.push('{');
            push_obj(out, members, 0);
            out.push('}');
            assert(rep_obj(members@.skip(0)) =~= rep_obj(members@)) by {
                assert(members@.skip(0) =~= members@);
            }
            assert(out@ =~= old(out)@ + json_seq(v@));
        },
    }
}

/// Append the comma-separated canonical texts of the elements from a given
/// position on.
fn push_arr(out: &mut Vec<char>, items: &Vec<JsonVal>, i: usize)
    requires
        i <= items@.len(),
    ensures
        final(out)@ == old(out)@ + arr_seq(rep_arr(items@.skip(i as int))),
    decreases *items, items@.len() - i,
{
    if i < items.len() {
        push_json(out, &items[i]);
        proof {
            assert(items@.skip(i as int)[0] == items@[i as int]);
        }
        if i + 1 < items.len() {
            out.push(',');
            push_arr(out, items, i + 1);
            proof {
                assert(items@.skip(i as int).drop_first() =~= items@.skip(i as int + 1));
                let rest = rep_arr(items@.skip(i as int));
                assert(rest.len() == items@.skip(i as int).len()) by {
                    lemma_rep_arr_len(items@.skip(i as int));
                }
                assert(rest.drop_first() =~= rep_arr(items@.skip(i as int + 1)));
                assert(rest[0] == rep(items@[i as int]));
                assert(out@ =~= old(out)@ + arr_seq(rest));
            }
        } else {
            proof {
                assert(items@.skip(i as int).len() == 1);
                let rest = rep_arr(items@.skip(i as int));
                assert(rest.len() == 1) by {
                    lemma_rep_arr_len(items@.skip(i as int));
                }
                assert(rest[0] == rep(items@[i as int]));
                assert(out@ =~= old(out)@ + arr_seq(rest));
            }
        }
    } else {
        proof {
            assert(items@.skip(i as int).len() == 0);
            assert(out@ =~= old(out)@ + arr_seq(rep_arr(items@.skip(i as int))));
        }
    }
}

/// An array model has one element per array element.
pub proof fn lemma_rep_arr_len(items: Seq<JsonVal>)
    ensures
        rep_arr(items).len() == items.len(),
        forall|i: int| 0 <= i < items.len() ==> rep_arr(items)[i] == rep(items[i]),
    decreases items,
{
    if items.len() > 0 {
        lemma_rep_arr_len(items.drop_first());
    }
}

/// An object model has one member per object member.
pub proof fn lemma_rep_obj_len(members: Seq<(String, JsonVal)>)
    ensures
        rep_obj(members).len() == members.len(),
        forall|i: int|
            0 <= i < members.len() ==> rep_obj(members)[i] == (members[i].0@, rep(members[i].1)),
    decreases members,
{
    if members.len() > 0 {
        lemma_rep_obj_len(members.drop_first());
    }
}

/// Append the comma-separated canonical texts of the members from a given
/// position on.
fn push_obj(out: &mut Vec<char>, members: &Vec<(String, JsonVal)>, i: usize)
    requires
        i <= members@.len(),
    ensures
        final(out)@ == old(out)@ + obj_seq(rep_obj(members@.skip(i as int))),
    decreases *members, members@.len() - i,
{
    if i < members.len() {
        push_str_lit(out, members[i].0.as_str());
        out.push(':');
        push_json(out, &members[i].1);
        proof {
            assert(members@.skip(i as int)[0] == members@[i as int]);
        }
        if i + 1 < members.len() {
            out.push(',');
            push_obj(out, members, i + 1);
            proof {
                assert(members@.skip(i as int).drop_first() =~= members@.skip(i as int + 1));
                let rest = rep_obj(members@.skip(i as int));
                assert(rest.len() == members@.skip(i as int).len()) by {
                    lemma_rep_obj_len(members@.skip(i as int));
                }
                assert(rest.drop_first() =~= rep_obj(members@.skip(i as int + 1)));
                assert(rest[0] == (members@[i as int].0@, rep(members@[i as int].1)));
                assert(out@ =~= old(out)@ + obj_seq(rest));
            }
        } else {
            proof {
                assert(members@.skip(i as int).len() == 1);
                let rest = rep_obj(members@.skip(i as int));
                assert(rest.len() == 1) by {
                    lemma_rep_obj_len(members@.skip(i as int));
                }
                assert(rest[0] == (members@[i as int].0@, rep(members@[i as int].1)));
                assert(out@ =~= old(out)@ + obj_seq(rest));
            }
        }
    } else {
        proof {
            assert(members@.skip(i as int).len() == 0);
            assert(out@ =~= old(out)@ + obj_seq(rep_obj(members@.skip(i as int))));
        }
    }
}

/// The value of the first member carrying a key, if any: the lookup a
/// decoder performs on an object, insensitive to member order.
pub open spec fn obj_index(ms: Seq<(Seq<char>, JsonData)>, k: Seq<char>) -> Option<JsonData>
    decreases ms.len(),
{
    if ms.len() == 0 {
        None
    } else if ms[0].0 == k {
        Some(ms[0].1)
    } else {
        obj_index(ms.drop_first(), k)
    }
}

/// A key first found at position `i` indexes to that member's value.
pub proof fn lemma_obj_index_at(ms: Seq<(Seq<char>, JsonData)>, k: Seq<char>, i: int)
    requires
        0 <= i < ms.len(),
        ms[i].0 == k,
        forall|j: int| 0 <= j < i ==> ms[j].0 != k,
    ensures
        obj_index(ms, k) == Some(ms[i].1),
    decreases i,
{
    if i > 0 {
        assert(ms.drop_first()[i - 1] == ms[i]);
        assert(forall|j: int| 0 <= j < i - 1 ==> ms.drop_first()[j] == ms[j + 1]);
        lemma_obj_index_at(ms.drop_first(), k, i - 1);
    }
}

/// A key no member carries indexes to nothing.
pub proof fn lemma_obj_index_none(ms: Seq<(Seq<char>, JsonData)>, k: Seq<char>)
    requires
        forall|j: int| 0 <= j < ms.len() ==> ms[j].0 != k,
    ensures
        obj_index(ms, k) is None,
    decreases ms.len(),
{
    if ms.len() > 0 {
        assert(forall|j: int| 0 <= j < ms.len() - 1 ==> ms.drop_first()[j] == ms[j + 1]);
        lemma_obj_index_none(ms.drop_first(), k);
    }
}

/// Character-for-character string equality.
pub fn str_eq(a: &str, b: &str) -> (r: bool)
    ensures
        r == (a@ == b@),
{
    let alen = a.unicode_len();
    let blen = b.unicode_len();
    if alen != blen {
        return false;
    }
    let mut i: usize = 0;
    while i < alen
        invariant
            alen == a@.len(),
            blen == b@.len(),
            alen == blen,
            i <= alen,
            forall|j: int| 0 <= j < i ==> a@[j] == b@[j],
        decreases alen - i,
    {
        if a.get_char(i) != b.get_char(i) {
            return false;
        }
        i += 1;
    }
    proof {
        assert(a@ =~= b@);
    }
    true
}

/// Find the first member carrying a key, scanning in order.
pub fn obj_find(members: &Vec<(String, JsonVal)>, key: &str) -> (r: Option<usize>)
    ensures
        match r {
            Some(i) => i < members@.len() && members@[i as int].0@ == key@ && obj_index(
                rep_obj(members@),
                key@,
            ) == Some(rep(members@[i as int].1)),
            None => obj_index(rep_obj(members@), key@) is None,
        },
{
    proof {
        lemma_rep_obj_len(members@);
    }
    let mut i: usize = 0;
    while i < members.len()
        invariant
            i <= members@.len(),
            rep_obj(members@).len() == members@.len(),
            forall|j: int|
                0 <= j < members@.len() ==> rep_obj(members@)[j] == (
                members@[j].0@,
                rep(members@[j].1),
            ),
            forall|j: int| 0 <= j < i ==> members@[j].0@ != key@,
        decreases members@.len() - i,
    {
        if str_eq(members[i].0.as_str(), key) {
            proof {
                lemma_obj_index_at(rep_obj(members@), key@, i as int);
            }
            return Some(i);
        }
        i += 1;
    }
    proof {
        lemma_obj_index_none(rep_obj(members@), key@);
    }
    None
}

/// True when the looked-up member holds a number a `u64` field can carry.
pub open spec fn opt_u64_num(d: Option<JsonData>) -> bool {
    d matches Some(JsonData::Num(n)) && 0 <= n <= u64::MAX
}

/// True when the looked-up member holds a number a `u32` field can carry.
pub open spec fn opt_u32_num(d: Option<JsonData>) -> bool {
    d matches Some(JsonData::Num(n)) && 0 <= n <= u32::MAX
}

/// True when the looked-up member holds a number an `i32` field can carry.
pub open spec fn opt_i32_num(d: Option<JsonData>) -> bool {
    d matches Some(JsonData::Num(n)) && i32::MIN <= n <= i32::MAX
}

/// True when the looked-up member holds a string.
pub open spec fn opt_str(d: Option<JsonData>) -> bool {
    d matches Some(JsonData::Str(_))
}

/// The models of a sequence of unsigned numbers.
pub open spec fn nums_of(xs: Seq<u64>) -> Seq<JsonData> {
    Seq::new(xs.len(), |i: int| JsonData::Num(xs[i] as int))
}

/// True when every element is a number a `u64` can carry.
pub open spec fn u64_elems(items: Seq<JsonData>) -> bool {
    forall|i: int|
        0 <= i < items.len() ==> ((#[trigger] items[i]) matches JsonData::Num(n) && 0 <= n
            <= u64::MAX)
}

/// True when the looked-up member holds an array of numbers `u64` fields
/// can carry.
pub open spec fn opt_u64_arr(d: Option<JsonData>) -> bool {
    d matches Some(JsonData::Arr(items)) && u64_elems(items)
}

/// Fetch a member's value as a `u64`, refusing any other shape.
pub fn get_u64(members: &Vec<(String, JsonVal)>, key: &str) -> (r: Option<u64>)
    ensures
        r is Some <==> opt_u64_num(obj_index(rep_obj(members@), key@)),
        r matches Some(x) ==> obj_index(rep_obj(members@), key@) == Some(
            JsonData::Num(x as int),
        ),
{
    match obj_find(members, key) {
        Some(i) => match &members[i].1 {
            JsonVal::Num(n) => {
                if 0 <= *n && *n <= u64::MAX as i128 {
                    Some(*n as u64)
                } else {
                    None
                }
            },
            _ => None,
        },
        None => None,
    }
}

/// Fetch a member's value as a `u32`, refusing any other shape.
pub fn get_u32(members: &Vec<(String, JsonVal)>, key: &str) -> (r: Option<u32>)
    ensures
        r is Some <==> opt_u32_num(obj_index(rep_obj(members@), key@)),
        r matches Some(x) ==> obj_index(rep_obj(members@), key@) == Some(
            JsonData::Num(x as int),
        ),
{
    match obj_find(members, key) {
        Some(i) => match &members[i].1 {
            JsonVal::Num(n) => {
                if 0 <= *n && *n <= u32::MAX as i128 {
                    Some(*n as u32)
                } else {
                    None
                }
            },
            _ => None,
        },
        None => None,
    }
}

/// Fetch a member's value as an `i32`, refusing any other shape.
pub fn get_i32(members: &Vec<(String, JsonVal)>, key: &str) -> (r: Option<i32>)
    ensures
        r is Some <==> opt_i32_num(obj_index(rep_obj(members@), key@)),
        r matches Some(x) ==> obj_index(rep_obj(members@), key@) == Some(
            JsonData::Num(x as int),
        ),
{
    match obj_find(members, key) {
        Some(i) => match &members[i].1 {
            JsonVal::Num(n) => {
                if i32::MIN as i128 <= *n && *n <= i32::MAX as i128 {
                    Some(*n as i32)
                } else {
                    None
                }
            },
            _ => None,
        },
        None => None,
    }
}

/// Fetch a member's value as a string, refusing any other shape.
pub fn get_string(members: &Vec<(String, JsonVal)>, key: &str) -> (r: Option<String>)
    ensures
        r is Some <==> opt_str(obj_index(rep_obj(members@), key@)),
        r matches Some(s) ==> obj_index(rep_obj(members@), key@) == Some(JsonData::Str(s@)),
{
    match obj_find(members, key) {
        Some(i) => match &members[i].1 {
            JsonVal::Str(s) => Some(s.clone()),
            _ => None,
        },
        None => None,
    }
}

/// Fetch a member's value as an array of `u64`, refusing any other shape.
pub fn get_u64_arr(members: &Vec<(String, JsonVal)>, key: &str) -> (r: Option<Vec<u64>>)
    ensures
        r is Some <==> opt_u64_arr(obj_index(rep_obj(members@), key@)),
        r matches Some(xs) ==> obj_index(rep_obj(members@), key@) == Some(
            JsonData::Arr(nums_of(xs@)),
        ),
{
    match obj_find(members, key) {
        Some(i) => match &members[i].1 {
            JsonVal::Arr(items) => {
                proof {
                    lemma_rep_arr_len(items@);
                }
                let mut xs: Vec<u64> = Vec::new();
                let mut j: usize = 0;
                while j < items.len()
                    invariant
                        j <= items@.len(),
                        xs@.len() == j,
                        obj_index(rep_obj(members@), key@) == Some(
                            JsonData::Arr(rep_arr(items@)),
                        ),
                        rep_arr(items@).len() == items@.len(),
                        forall|k: int|
                            0 <= k < items@.len() ==> rep_arr(items@)[k] == rep(items@[k]),
                        forall|k: int|
                            0 <= k < j ==> rep_arr(items@)[k] == JsonData::Num(xs@[k] as int),
                    decreases items@.len() - j,
                {
                    match &items[j] {
                        JsonVal::Num(n) => {
                            if 0 <= *n && *n <= u64::MAX as i128 {
                                xs.push(*n as u64);
                            } else {
                                assert(rep_arr(items@)[j as int] == JsonData::Num(*n as int));
                                assert(!u64_elems(rep_arr(items@)));
                                return None;
                            }
                        },
                        _ => {
                            assert(rep_arr(items@)[j as int] == rep(items@[j as int]));
                            assert(!(rep_arr(items@)[j as int] matches JsonData::Num(_)));
                            assert(!u64_elems(rep_arr(items@)));
                            return None;
                        },
                    }
                    j += 1;
                }
                proof {
                    assert(rep_arr(items@) =~= nums_of(xs@));
                }
                Some(xs)
            },
            _ => None,
        },
        None => None,
    }
}

/// The canonical text of a value.
pub fn json_text(v: &JsonVal) -> (r: String)
    ensures
        r@ == json_seq(v@),
{
    let mut out: Vec<char> = Vec::new();
    push_json(&mut out, v);
    proof {
        assert(out@ =~= json_seq(v@));
    }
    string_from_chars(out)
}

} // verus!
