//! Decimal integer leaves: what the integer serialization of the client
//! library produces and what its parsing accepts, stated exactly, with the
//! round trip between the two proved.
use vstd::arithmetic::div_mod::lemma_fundamental_div_mod;
use vstd::prelude::*;

verus! {

/// An ASCII decimal digit.
pub open spec fn is_digit(b: u8) -> bool {
    48 <= b && b <= 57
}

/// The decimal digits of a natural number, most significant first.
pub open spec fn dec_digits(n: nat) -> Seq<u8>
    decreases n,
{
    if n < 10 {
        seq![(48 + n) as u8]
    } else {
        dec_digits(n / 10).push((48 + n % 10) as u8)
    }
}

/// The decimal representation of an integer: a leading `-` for negatives,
/// digits with no leading zeros otherwise.
pub open spec fn dec_bytes(v: int) -> Seq<u8> {
    if v < 0 {
        seq![45u8] + dec_digits((-v) as nat)
    } else {
        dec_digits(v as nat)
    }
}

/// The value of a digit string, most significant first.
pub open spec fn digits_value(s: Seq<u8>) -> nat
    decreases s.len(),
{
    if s.len() == 0 {
        0
    } else {
        digits_value(s.drop_last()) * 10 + (s.last() - 48) as nat
    }
}

/// Whether every byte is an ASCII decimal digit.
pub open spec fn all_digits(s: Seq<u8>) -> bool {
    forall|i: int| 0 <= i < s.len() ==> is_digit(s[i])
}

/// What std's signed 64-bit integer parsing accepts, as the client library
/// applies it to a binary string: an optional `+` or `-` sign, then one or
/// more digits, with the value in range; anything else is rejected.
pub open spec fn parse_decimal(s: Seq<u8>) -> Option<int> {
    let neg = s.len() > 0 && s[0] == 45;
    let digits = if s.len() > 0 && (s[0] == 45 || s[0] == 43) {
        s.drop_first()
    } else {
        s
    };
    if digits.len() == 0 || !all_digits(digits) {
        None
    } else {
        let v = if neg {
            -(digits_value(digits) as int)
        } else {
            digits_value(digits) as int
        };
        if i64::MIN <= v && v <= i64::MAX {
            Some(v)
        } else {
            None
        }
    }
}

/// The digit string of `n` is made of digits and evaluates back to `n`.
pub proof fn lemma_dec_digits_value(n: nat)
    ensures
        all_digits(dec_digits(n)),
        digits_value(dec_digits(n)) == n,
        dec_digits(n).len() >= 1,
    decreases n,
{
    if n < 10 {
        let s = dec_digits(n);
        assert(s.drop_last() =~= Seq::<u8>::empty());
        assert(digits_value(Seq::<u8>::empty()) == 0);
        assert(s.last() == (48 + n) as u8);
        assert(digits_value(s) == digits_value(s.drop_last()) * 10 + (s.last() - 48) as nat);
    } else {
        lemma_dec_digits_value(n / 10);
        lemma_fundamental_div_mod(n as int, 10);
        let prefix = dec_digits(n / 10);
        let d = (48 + n % 10) as u8;
        let s = prefix.push(d);
        assert(s.drop_last() =~= prefix);
        assert(s.last() == d);
        assert(digits_value(s) == (n / 10) * 10 + n % 10);
        assert(forall|i: int|
            0 <= i < s.len() ==> is_digit(#[trigger] s[i]) == (if i < prefix.len() {
                is_digit(prefix[i])
            } else {
                is_digit(d)
            }));
    }
}

/// Parsing the decimal representation of a 64-bit integer gives it back.
pub proof fn lemma_parse_of_dec_bytes(v: i64)
    ensures
        parse_decimal(dec_bytes(v as int)) == Some(v as int),
{
    if v < 0 {
        let m = (-(v as int)) as nat;
        lemma_dec_digits_value(m);
        let s = seq![45u8] + dec_digits(m);
        assert(s[0] == 45);
        assert(s.drop_first() =~= dec_digits(m));
    } else {
        let m = v as nat;
        lemma_dec_digits_value(m);
        let s = dec_digits(m);
        assert(is_digit(s[0]));
    }
}

/// Relies on the client library's integer serialization (its `ToRedisArgs`
/// for `i64`, which formats with itoa): exactly one argument holding the
/// decimal representation, `-`-prefixed for negatives.
#[verifier::external_body]
pub fn int_to_decimal(v: i64) -> (r: Vec<u8>)
    ensures
        r@ == dec_bytes(v as int),
{
    let mut args = redis::ToRedisArgs::to_redis_args(&v);
    args.pop().unwrap_or_default()
}

/// Relies on the client library's integer parsing (its `FromRedisValue` for
/// `i64` on a binary string): UTF-8 decoding followed by std's integer
/// parsing, which accepts an optional sign and digits within range. A
/// binary string that is not valid UTF-8 cannot be all sign-and-digit
/// bytes, so the two reject the same inputs.
#[verifier::external_body]
pub fn decimal_to_int(b: &Vec<u8>) -> (r: Option<i64>)
    ensures
        match r {
            Some(v) => parse_decimal(b@) == Some(v as int),
            None => parse_decimal(b@) is None,
        },
{
    let value: redis::RedisResult<i64> = redis::FromRedisValue::from_redis_value(
        &redis::Value::BulkString(b.clone()),
    );
    value.ok()
}

/// The wire bytes of a truth value.
pub open spec fn truth_bytes(b: bool) -> Seq<u8> {
    if b {
        seq![49u8]
    } else {
        seq![48u8]
    }
}

/// Builds the wire bytes of a truth value.
pub fn truth_to_decimal(b: bool) -> (r: Vec<u8>)
    ensures
        r@ == truth_bytes(b),
{
    let mut out: Vec<u8> = Vec::new();
    if b {
        out.push(49);
    } else {
        out.push(48);
    }
    proof {
        assert(out@ =~= truth_bytes(b));
    }
    out
}

} // verus!
