use vstd::prelude::*;
use vstd::string::StringSliceAdditionalSpecFns;

use crate::keys::{is_key_hex, hex_of_key, Digest, PublicKey};
use crate::schema::{Timestamp, TimestampSchema};

verus! {

/// Reply to a submission: the hash of the submitted transaction.
#[derive(Clone, Copy, Debug, PartialEq, Eq)]
pub struct TimestampResponse {
    pub tx_hash: Digest,
}

/// What a client sent that cannot be served.
#[derive(Clone, Copy, Debug, PartialEq, Eq)]
pub enum RequestError {
    /// The `pub_key` parameter is not 64 hexadecimal digits.
    InvalidPubKey,
}

/// Looks up the entry for the key written in hexadecimal in `pub_key`:
/// an error when the text is no key, `None` when no entry is recorded for it.
pub fn timestamp_by_hex(schema: &TimestampSchema, pub_key: &str) -> (r: Result<
    Option<Timestamp>,
    RequestError,
>)
    requires
        schema.wf(),
    ensures
        r == Err::<Option<Timestamp>, RequestError>(RequestError::InvalidPubKey) <==> !is_key_hex(
            pub_key.spec_bytes(),
        ),
        r is Ok ==> exists|k: Seq<u8>|
            hex_of_key(pub_key.spec_bytes(), k) && r == Ok::<Option<Timestamp>, RequestError>(
                if schema@.contains_key(k) {
                    Some(schema@[k])
                } else {
                    None
                },
            ),
{
    match PublicKey::from_hex(pub_key) {
        Some(key) => Ok(schema.timestamp(&key)),
        None => Err(RequestError::InvalidPubKey),
    }
}

/// Whether `c` is an ASCII decimal digit.
pub open spec fn is_digit(c: u8) -> bool {
    48 <= c <= 57
}

/// The number written by the decimal digits `s`.
pub open spec fn decimal_value(s: Seq<u8>) -> nat
    decreases s.len(),
{
    if s.len() == 0 {
        0
    } else {
        decimal_value(s.drop_last()) * 10 + (s.last() - 48) as nat
    }
}

/// The digits of a number written with an optional leading `+`.
pub open spec fn unsigned_digits(s: Seq<u8>) -> Seq<u8> {
    if s.len() > 0 && s[0] == 43 {
        s.drop_first()
    } else {
        s
    }
}

/// `s` is a non-empty run of decimal digits.
pub open spec fn is_decimal(s: Seq<u8>) -> bool {
    s.len() > 0 && forall|i: int| 0 <= i < s.len() ==> is_digit(#[trigger] s[i])
}

proof fn lemma_decimal_value_grows(s: Seq<u8>, i: int, j: int)
    requires
        0 <= i <= j <= s.len(),
        forall|k: int| 0 <= k < s.len() ==> is_digit(#[trigger] s[k]),
    ensures
        decimal_value(s.subrange(0, i)) <= decimal_value(s.subrange(0, j)),
    decreases j - i,
{
    if i < j {
        lemma_decimal_value_grows(s, i, j - 1);
        assert(s.subrange(0, j).drop_last() == s.subrange(0, j - 1));
    }
}

/// Reads a block height: decimal digits, optionally after a `+`, whose value
/// fits in 64 bits.
pub fn parse_height(text: &str) -> (r: Option<u64>)
    ensures
        r.is_some() <==> is_decimal(unsigned_digits(text.spec_bytes())) && decimal_value(
            unsigned_digits(text.spec_bytes()),
        ) <= u64::MAX,
        r.is_some() ==> r.unwrap() == decimal_value(unsigned_digits(text.spec_bytes())),
{
    let b = text.as_bytes();
    let ghost d = unsigned_digits(b@);
    let start: usize = if b.len() > 0 && b[0] == 43 {
        1
    } else {
        0
    };
    if start >= b.len() {
        return None;
    }
    let mut acc: u64 = 0;
    let mut i: usize = start;
    while i < b.len()
        invariant
            b@ == text.spec_bytes(),
            d == unsigned_digits(b@),
            start <= i <= b@.len(),
            start < b@.len(),
            d == b@.subrange(start as int, b@.len() as int),
            forall|k: int| 0 <= k < i - start ==> is_digit(#[trigger] d[k]),
            acc == decimal_value(d.subrange(0, i - start)),
        decreases b@.len() - i,
    {
        let c = b[i];
        if c < 48 || c > 57 {
            assert(!is_digit(d[i - start]));
            return None;
        }
        let ghost n = (i - start) as int;
        assert(d.subrange(0, n + 1).drop_last() == d.subrange(0, n));
        assert(d.subrange(0, n + 1).last() == c);
        match acc.checked_mul(10) {
            Some(m) => match m.checked_add((c - 48) as u64) {
                Some(v) => {
                    acc = v;
                },
                None => {
                    proof {
                        if is_decimal(d) {
                            lemma_decimal_value_grows(d, n + 1, d.len() as int);
                            assert(d.subrange(0, d.len() as int) == d);
                        }
                    }
                    return None;
                },
            },
            None => {
                proof {
                    if is_decimal(d) {
                        lemma_decimal_value_grows(d, n + 1, d.len() as int);
                        assert(d.subrange(0, d.len() as int) == d);
                    }
                }
                return None;
            },
        }
        i = i + 1;
    }
    assert(d.subrange(0, d.len() as int) == d);
    Some(acc)
}

} // verus!
