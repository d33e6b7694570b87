//! Database configuration, built from environment-style key/value pairs.
//!
//! The caller collects the process environment into plain pairs and hands
//! them in; this module owns the lookup of the `DATABASE_`-prefixed keys
//! and the decimal parse of the pool size.

use vstd::prelude::*;
use vstd::string::StringSliceAdditionalSpecFns;
use vstd::utf8::{is_ascii_chars, is_ascii_chars_encode_utf8};

verus! {

/// Used database configuration.
#[derive(Debug, Default, Clone, PartialEq, Eq)]
pub struct DBConfig {
    /// Amount of open connections to the database held by server in the pool.
    pub pool_size: usize,
    /// Database URL.
    pub url: String,
}

/// Value of the first pair of `vars` whose key reads `key`.
pub open spec fn lookup(vars: Seq<(String, String)>, key: Seq<char>) -> Option<String>
    decreases vars.len(),
{
    if vars.len() == 0 {
        None
    } else if vars[0].0@ == key {
        Some(vars[0].1)
    } else {
        lookup(vars.drop_first(), key)
    }
}

/// An ASCII decimal digit.
pub open spec fn is_dec_digit(c: char) -> bool {
    '0' <= c <= '9'
}

/// A non-empty, all-digit character sequence.
pub open spec fn is_dec_string(s: Seq<char>) -> bool {
    s.len() > 0 && forall|i: int| 0 <= i < s.len() ==> is_dec_digit(#[trigger] s[i])
}

/// Value of a decimal digit sequence, most significant digit first.
pub open spec fn dec_value(s: Seq<char>) -> int
    decreases s.len(),
{
    if s.len() == 0 {
        0
    } else {
        dec_value(s.drop_last()) * 10 + (s.last() as int - 48)
    }
}

/// A decimal value never decreases when digits are appended.
proof fn lemma_dec_value_nonneg(s: Seq<char>)
    requires
        forall|i: int| 0 <= i < s.len() ==> is_dec_digit(#[trigger] s[i]),
    ensures
        dec_value(s) >= 0,
    decreases s.len(),
{
    if s.len() > 0 {
        lemma_dec_value_nonneg(s.drop_last());
    }
}

/// The value of a prefix of a digit string is at most the whole value.
proof fn lemma_dec_value_prefix(s: Seq<char>, i: int)
    requires
        forall|j: int| 0 <= j < s.len() ==> is_dec_digit(#[trigger] s[j]),
        0 <= i <= s.len(),
    ensures
        dec_value(s.take(i)) <= dec_value(s),
    decreases s.len(),
{
    if i == s.len() {
        assert(s.take(i) =~= s);
    } else {
        assert(s.drop_last().take(i) =~= s.take(i));
        lemma_dec_value_prefix(s.drop_last(), i);
        lemma_dec_value_nonneg(s.drop_last());
    }
}

/// Decimal value of a digit-only string, proved equal to [`dec_value`] of
/// its characters.
fn parse_pool_size(value: &String) -> (r: usize)
    requires
        is_dec_string(value@),
        dec_value(value@) <= usize::MAX,
    ensures
        r == dec_value(value@),
{
    let s = value.as_str();
    let bytes = s.as_bytes();
    proof {
        assert(is_ascii_chars(s@));
        is_ascii_chars_encode_utf8(s@);
    }
    let n = bytes.len();
    let mut acc: usize = 0;
    let mut i: usize = 0;
    while i < n
        invariant
            is_dec_string(value@),
            dec_value(value@) <= usize::MAX,
            s@ == value@,
            bytes@ == s.spec_bytes(),
            n == bytes@.len(),
            bytes@.len() == value@.len(),
            forall|j: int|
                #![trigger value@[j]]
                0 <= j < value@.len() ==> value@[j] as u8 == bytes@[j],
            i <= n,
            acc == dec_value(value@.take(i as int)),
        decreases n - i,
    {
        let d = bytes[i];
        proof {
            assert(value@.take(i + 1).drop_last() =~= value@.take(i as int));
            assert(value@.take(i + 1).last() == value@[i as int]);
            lemma_dec_value_prefix(value@, i + 1);
        }
        acc = acc * 10 + (d - 48) as usize;
        i += 1;
    }
    proof {
        assert(value@.take(value@.len() as int) =~= value@);
    }
    acc
}

/// Value of the first pair whose key reads `key`, as a copy.
fn find_value(vars: &Vec<(String, String)>, key: &String) -> (r: Option<String>)
    ensures
        r == lookup(vars@, key@),
{
    let mut i: usize = 0;
    proof {
        assert(vars@.skip(0) =~= vars@);
    }
    while i < vars.len()
        invariant
            i <= vars@.len(),
            lookup(vars@, key@) == lookup(vars@.skip(i as int), key@),
        decreases vars@.len() - i,
    {
        proof {
            assert(vars@.skip(i as int).drop_first() =~= vars@.skip(i + 1));
            assert(vars@.skip(i as int)[0] == vars@[i as int]);
        }
        let pair = &vars[i];
        if pair.0 == *key {
            return Some(pair.1.clone());
        }
        i += 1;
    }
    None
}

impl DBConfig {
    /// Builds the configuration from environment entries: the database URL
    /// is the value under `DATABASE_URL`, and the pool size is the decimal
    /// value under `DATABASE_POOL_SIZE`.  The first occurrence of each key
    /// wins.
    pub fn from_env(vars: &Vec<(String, String)>) -> (r: Self)
        requires
            lookup(vars@, "DATABASE_URL"@) is Some,
            lookup(vars@, "DATABASE_POOL_SIZE"@) matches Some(v) && is_dec_string(v@) && dec_value(
                v@,
            ) <= usize::MAX,
        ensures
            lookup(vars@, "DATABASE_URL"@) matches Some(u) && r.url == u,
            lookup(vars@, "DATABASE_POOL_SIZE"@) matches Some(v) && r.pool_size == dec_value(v@),
    {
        let url_key: String = "DATABASE_URL".to_owned();
        let pool_key: String = "DATABASE_POOL_SIZE".to_owned();
        let url = match find_value(vars, &url_key) {
            Some(u) => u,
            None => unreached(),
        };
        let pool_value = match find_value(vars, &pool_key) {
            Some(v) => v,
            None => unreached(),
        };
        let pool_size = parse_pool_size(&pool_value);
        DBConfig { pool_size, url }
    }
}

} // verus!
