//! Pool configuration: the structured settings the process starts with,
//! and the environment-override rules applied after the file is loaded.
//!
//! Reading the file and the environment is the host program's business;
//! this module holds the data and the rules: each recognized override is
//! parsed from its text and replaces the corresponding field, and an
//! override that fails to parse is a startup-fatal error.

use crate::json::{digit_val, is_digit};
use crate::parse::dec_value;
use vstd::prelude::*;
use vstd::string::*;

verus! {

/// A listen port paired with the difficulty offered on it.
#[derive(Clone, Debug, PartialEq, Eq)]
pub struct PortDifficulty {
    pub port: u64,
    pub difficulty: u64,
}

/// Pool-wide settings.
#[derive(Clone, Debug, PartialEq, Eq)]
pub struct PoolConfig {
    pub edge_bits: u32,
    pub log_dir: String,
    pub data_dir: String,
    pub data_temp_dir: String,
    pub pool: String,
}

/// Worker-facing settings.
#[derive(Clone, Debug, PartialEq, Eq)]
pub struct WorkerConfig {
    pub listen_address: String,
    pub port_difficulty: PortDifficulty,
    pub diff_adjust: bool,
    pub expect_shares_1m: u64,
}

/// Upstream node settings.
#[derive(Clone, Debug, PartialEq, Eq)]
pub struct NodeConfig {
    pub address: String,
    pub stratum_port: u64,
    pub login: String,
    pub password: String,
}

/// API endpoint settings.
#[derive(Clone, Debug, PartialEq, Eq)]
pub struct ApiConfig {
    pub listen_address: String,
    pub api_port: u64,
}

/// The whole configuration.
#[derive(Clone, Debug, PartialEq, Eq)]
pub struct Config {
    pub grin_pool: PoolConfig,
    pub grin_node: NodeConfig,
    pub workers: WorkerConfig,
    pub api: ApiConfig,
}

/// The recognized environment overrides, each still text, present when
/// the variable was set.
pub struct ConfigOverrides {
    pub difficulty: Option<String>,
    pub expect_shares: Option<String>,
    pub grin_address: Option<String>,
    pub edge_bits: Option<String>,
    pub pool: Option<String>,
}

/// True when every character is a decimal digit.
pub open spec fn all_digits(s: Seq<char>) -> bool {
    forall|i: int| 0 <= i < s.len() ==> is_digit(#[trigger] s[i])
}

/// The digits an unsigned parse reads: the text with one optional leading
/// plus sign removed.
pub open spec fn unsigned_body(s: Seq<char>) -> Seq<char> {
    if s.len() > 0 && s[0] == '+' {
        s.drop_first()
    } else {
        s
    }
}

/// What parsing an unsigned decimal yields: the value of the digits when
/// the text is one optional plus sign and then digits, nothing otherwise.
pub open spec fn parsed_unsigned(s: Seq<char>) -> Option<int> {
    let body = unsigned_body(s);
    if body.len() > 0 && all_digits(body) {
        Some(dec_value(body))
    } else {
        None
    }
}

/// A digit string's value is non-negative.
proof fn lemma_dec_value_nonneg(s: Seq<char>)
    requires
        all_digits(s),
    ensures
        dec_value(s) >= 0,
    decreases s.len(),
{
    if s.len() > 0 {
        assert(all_digits(s.drop_last())) by {
            assert(forall|i: int| 0 <= i < s.len() - 1 ==> is_digit(#[trigger] s[i]));
        }
        lemma_dec_value_nonneg(s.drop_last());
    }
}

/// A digit string's value only grows as digits are appended.
proof fn lemma_dec_value_mono(s: Seq<char>, k: int)
    requires
        0 <= k <= s.len(),
        all_digits(s),
    ensures
        dec_value(s.take(k)) <= dec_value(s),
    decreases s.len() - k,
{
    if k < s.len() {
        lemma_dec_value_mono(s, k + 1);
        assert(s.take(k + 1).drop_last() =~= s.take(k));
        assert(s.take(k + 1).last() == s[k]);
        assert(all_digits(s.take(k))) by {
            assert(forall|i: int| 0 <= i < k ==> s.take(k)[i] == s[i]);
        }
        lemma_dec_value_nonneg(s.take(k));
        assert(dec_value(s.take(k + 1)) == dec_value(s.take(k)) * 10 + digit_val(s[k]));
        assert(digit_val(s[k]) >= 0);
        assert(dec_value(s.take(k)) * 10 >= dec_value(s.take(k)));
        assert(dec_value(s.take(k)) <= dec_value(s.take(k + 1)));
    } else {
        assert(s.take(k) =~= s);
    }
}

/// Parse an unsigned decimal that must fit a `u64`: exactly the texts of
/// one optional plus sign and then digits, valued at most `u64::MAX`.
pub fn parse_u64(s: &str) -> (r: Option<u64>)
    ensures
        match r {
            Some(x) => parsed_unsigned(s@) == Some(x as int),
            None => parsed_unsigned(s@) is None || (parsed_unsigned(s@) matches Some(v) && v
                > u64::MAX),
        },
        (parsed_unsigned(s@) matches Some(v) && v <= u64::MAX) ==> r is Some,
{
    let len = s.unicode_len();
    let start: usize = if len > 0 && s.get_char(0) == '+' {
        1
    } else {
        0
    };
    proof {
        assert(unsigned_body(s@) =~= s@.skip(start as int));
    }
    if start == len {
        return None;
    }
    let mut j = start;
    let mut acc: u64 = 0;
    while j < len
        invariant
            start <= j <= len,
            len == s@.len(),
            start == (if (s@.len() > 0 && s@[0] == '+') {
                1int
            } else {
                0int
            }),
            all_digits(s@.skip(start as int).take(j - start)),
            acc as int == dec_value(s@.skip(start as int).take(j - start)),
        decreases len - j,
    {
        let c = s.get_char(j);
        let d: u64 = if c == '0' {
            0
        } else if c == '1' {
            1
        } else if c == '2' {
            2
        } else if c == '3' {
            3
        } else if c == '4' {
            4
        } else if c == '5' {
            5
        } else if c == '6' {
            6
        } else if c == '7' {
            7
        } else if c == '8' {
            8
        } else if c == '9' {
            9
        } else {
            proof {
                assert(unsigned_body(s@) =~= s@.skip(start as int));
                assert(s@.skip(start as int)[j - start] == s@[j as int]);
                assert(!all_digits(s@.skip(start as int)));
            }
            return None;
        };
        proof {
            let body = s@.skip(start as int);
            assert(body.take(j - start + 1).drop_last() =~= body.take(j - start));
            assert(body.take(j - start + 1).last() == s@[j as int]);
        }
        if acc > (u64::MAX - d) / 10 {
            proof {
                let body = s@.skip(start as int);
                assert(unsigned_body(s@) =~= body);
                assert(digit_val(s@[j as int]) == d as int);
                assert(acc * 10 + d > u64::MAX) by {
                    let q = (u64::MAX - d as int) / 10;
                    assert(q * 10 <= u64::MAX - (d as int) && (u64::MAX - (d as int)) < q * 10 + 10) by (nonlinear_arith)
                        requires
                            q == (u64::MAX - d as int) / 10,
                            0 <= d < 10,
                    ;
                    assert(acc as int >= q + 1);
                    assert(acc * 10 >= (q + 1) * 10) by (nonlinear_arith)
                        requires
                            acc as int >= q + 1,
                    ;
                };
                if all_digits(body) {
                    lemma_dec_value_mono(body, j - start + 1);
                    assert(dec_value(body.take(j - start + 1)) == dec_value(
                        body.take(j - start),
                    ) * 10 + digit_val(s@[j as int]));
                    assert(dec_value(body) > u64::MAX);
                }
            }
            return None;
        }
        acc = acc * 10 + d;
        j += 1;
    }
    proof {
        assert(s@.skip(start as int).take(len - start) =~= s@.skip(start as int));
    }
    Some(acc)
}

/// Parse an unsigned decimal that must fit a `u32`.
pub fn parse_u32(s: &str) -> (r: Option<u32>)
    ensures
        match r {
            Some(x) => parsed_unsigned(s@) == Some(x as int),
            None => parsed_unsigned(s@) is None || (parsed_unsigned(s@) matches Some(v) && v
                > u32::MAX),
        },
        (parsed_unsigned(s@) matches Some(v) && v <= u32::MAX) ==> r is Some,
{
    match parse_u64(s) {
        Some(x) => if x <= u32::MAX as u64 {
            Some(x as u32)
        } else {
            None
        },
        None => None,
    }
}

/// True for the characters Unicode marks as whitespace, the set trimming
/// removes.
pub open spec fn is_trim_ws(c: char) -> bool {
    c == '\u{9}' || c == '\u{A}' || c == '\u{B}' || c == '\u{C}' || c == '\u{D}' || c == ' '
        || c == '\u{85}' || c == '\u{A0}' || c == '\u{1680}' || c == '\u{2000}' || c
        == '\u{2001}' || c == '\u{2002}' || c == '\u{2003}' || c == '\u{2004}' || c
        == '\u{2005}' || c == '\u{2006}' || c == '\u{2007}' || c == '\u{2008}' || c
        == '\u{2009}' || c == '\u{200A}' || c == '\u{2028}' || c == '\u{2029}' || c
        == '\u{202F}' || c == '\u{205F}' || c == '\u{3000}'
}

/// The first position at or after `i` that does not hold whitespace.
pub open spec fn trim_start_idx(s: Seq<char>, i: int) -> int
    decreases s.len() - i,
{
    if 0 <= i < s.len() && is_trim_ws(s[i]) {
        trim_start_idx(s, i + 1)
    } else {
        i
    }
}

/// The index just past the last non-whitespace character.
pub open spec fn trim_end_idx(s: Seq<char>, j: int) -> int
    decreases j,
{
    if 0 < j <= s.len() && is_trim_ws(s[j - 1]) {
        trim_end_idx(s, j - 1)
    } else {
        j
    }
}

/// Trimming the end never moves the index up, nor below zero.
proof fn lemma_trim_end_le(s: Seq<char>, j: int)
    requires
        0 <= j,
    ensures
        0 <= trim_end_idx(s, j) <= j,
    decreases j,
{
    if 0 < j <= s.len() && is_trim_ws(s[j - 1]) {
        lemma_trim_end_le(s, j - 1);
    }
}

/// The text with leading and trailing whitespace removed.
pub open spec fn trimmed(s: Seq<char>) -> Seq<char> {
    let a = trim_start_idx(s, 0);
    let b = trim_end_idx(s, s.len() as int);
    if 0 <= a <= b <= s.len() {
        s.subrange(a, b)
    } else {
        Seq::empty()
    }
}

/// True for a whitespace character.
fn is_space(c: char) -> (r: bool)
    ensures
        r == is_trim_ws(c),
{
    c == '\u{9}' || c == '\u{A}' || c == '\u{B}' || c == '\u{C}' || c == '\u{D}' || c == ' '
        || c == '\u{85}' || c == '\u{A0}' || c == '\u{1680}' || c == '\u{2000}' || c
        == '\u{2001}' || c == '\u{2002}' || c == '\u{2003}' || c == '\u{2004}' || c
        == '\u{2005}' || c == '\u{2006}' || c == '\u{2007}' || c == '\u{2008}' || c
        == '\u{2009}' || c == '\u{200A}' || c == '\u{2028}' || c == '\u{2029}' || c
        == '\u{202F}' || c == '\u{205F}' || c == '\u{3000}'
}

/// Remove leading and trailing whitespace.
pub fn trim_text(s: &str) -> (r: String)
    ensures
        r@ == trimmed(s@),
{
    let len = s.unicode_len();
    let mut a: usize = 0;
    while a < len && is_space(s.get_char(a))
        invariant
            0 <= a <= len,
            len == s@.len(),
            trim_start_idx(s@, 0) == trim_start_idx(s@, a as int),
        decreases len - a,
    {
        a += 1;
    }
    let mut b: usize = len;
    while b > a && is_space(s.get_char(b - 1))
        invariant
            a <= b <= len,
            len == s@.len(),
            a as int == trim_start_idx(s@, 0),
            trim_end_idx(s@, len as int) == trim_end_idx(s@, b as int),
        decreases b,
    {
        b -= 1;
    }
    proof {
        if b > a {
            assert(!is_trim_ws(s@[b - 1]));
            assert(trim_end_idx(s@, b as int) == b as int);
            assert(trimmed(s@) == s@.subrange(a as int, b as int));
        } else {
            assert(b == a);
            lemma_trim_end_le(s@, b as int);
            assert(trimmed(s@) =~= Seq::<char>::empty());
            assert(s@.subrange(a as int, b as int) =~= Seq::<char>::empty());
        }
    }
    let piece = s.substring_char(a, b);
    String::from_str(piece)
}

/// Apply the recognized environment overrides to a loaded configuration.
///
/// The difficulty and expected-shares overrides parse as `u64`, the
/// proof-of-work size override as `u32`; the node address replaces its
/// field as given, and the pool name replaces its field trimmed.  Every
/// other field is kept.  The first override that fails to parse refuses
/// the whole configuration — a startup-fatal condition for the host.
pub fn apply_overrides(config: Config, ov: ConfigOverrides) -> (r: Result<Config, String>)
    ensures
        r is Ok <==> ((ov.difficulty matches Some(s) ==> (parsed_unsigned(s@) matches Some(v)
            && v <= u64::MAX)) && (ov.expect_shares matches Some(s) ==> (parsed_unsigned(s@)
            matches Some(v) && v <= u64::MAX)) && (ov.edge_bits matches Some(s) ==> (
        parsed_unsigned(s@) matches Some(v) && v <= u32::MAX))),
        r matches Ok(c) ==> (match ov.difficulty {
            Some(s) => parsed_unsigned(s@) == Some(
                c.workers.port_difficulty.difficulty as int,
            ),
            None => c.workers.port_difficulty.difficulty
                == config.workers.port_difficulty.difficulty,
        }) && (match ov.expect_shares {
            Some(s) => parsed_unsigned(s@) == Some(c.workers.expect_shares_1m as int),
            None => c.workers.expect_shares_1m == config.workers.expect_shares_1m,
        }) && (match ov.grin_address {
            Some(s) => c.grin_node.address == s,
            None => c.grin_node.address == config.grin_node.address,
        }) && (match ov.edge_bits {
            Some(s) => parsed_unsigned(s@) == Some(c.grin_pool.edge_bits as int),
            None => c.grin_pool.edge_bits == config.grin_pool.edge_bits,
        }) && (match ov.pool {
            Some(s) => c.grin_pool.pool@ == trimmed(s@),
            None => c.grin_pool.pool == config.grin_pool.pool,
        }) && c.grin_pool.log_dir == config.grin_pool.log_dir && c.grin_pool.data_dir
            == config.grin_pool.data_dir && c.grin_pool.data_temp_dir
            == config.grin_pool.data_temp_dir && c.grin_node.stratum_port
            == config.grin_node.stratum_port && c.grin_node.login == config.grin_node.login
            && c.grin_node.password == config.grin_node.password && c.workers.listen_address
            == config.workers.listen_address && c.workers.port_difficulty.port
            == config.workers.port_difficulty.port && c.workers.diff_adjust
            == config.workers.diff_adjust && c.api == config.api,
{
    let mut c = config;
    match ov.difficulty {
        Some(s) => match parse_u64(s.as_str()) {
            Some(x) => {
                c.workers.port_difficulty.difficulty = x;
            },
            None => {
                return Err(String::from_str("invalid difficulty override"));
            },
        },
        None => {},
    }
    match ov.expect_shares {
        Some(s) => match parse_u64(s.as_str()) {
            Some(x) => {
                c.workers.expect_shares_1m = x;
            },
            None => {
                return Err(String::from_str("invalid expected-shares override"));
            },
        },
        None => {},
    }
    match ov.grin_address {
        Some(s) => {
            c.grin_node.address = s;
        },
        None => {},
    }
    match ov.edge_bits {
        Some(s) => match parse_u32(s.as_str()) {
            Some(x) => {
                c.grin_pool.edge_bits = x;
            },
            None => {
                return Err(String::from_str("invalid proof-of-work size override"));
            },
        },
        None => {},
    }
    match ov.pool {
        Some(s) => {
            c.grin_pool.pool = trim_text(s.as_str());
        },
        None => {},
    }
    Ok(c)
}

} // verus!
