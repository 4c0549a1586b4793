//! Exact serialization of values to their SQL textual form.

use vstd::prelude::*;
use vstd::string::StringSliceAdditionalSpecFns;

use crate::value::{SpecValue, Value};

verus! {

/// The decimal digit byte for `0 <= d <= 9`.
pub open spec fn digit_byte(d: nat) -> u8 {
    (48 + d) as u8
}

/// Decimal form of a natural number, most significant digit first.
pub open spec fn dec_nat(n: nat) -> Seq<u8>
    decreases n,
{
    if n < 10 {
        seq![digit_byte(n)]
    } else {
        dec_nat(n / 10) + seq![digit_byte(n % 10)]
    }
}

/// Decimal form of an integer, with a leading `-` when negative.
pub open spec fn dec_int(i: int) -> Seq<u8> {
    if i < 0 {
        seq![45u8] + dec_nat((-i) as nat)
    } else {
        dec_nat(i as nat)
    }
}

/// The uppercase hexadecimal digit byte for `0 <= d <= 15`.
pub open spec fn hex_digit_byte(d: nat) -> u8 {
    if d < 10 {
        (48 + d) as u8
    } else {
        (55 + d) as u8
    }
}

/// Two uppercase hexadecimal digits for one byte.
pub open spec fn hex_byte(b: u8) -> Seq<u8> {
    seq![hex_digit_byte((b / 16) as nat), hex_digit_byte((b % 16) as nat)]
}

/// Uppercase hexadecimal form of a byte string.
pub open spec fn hex_bytes(b: Seq<u8>) -> Seq<u8>
    decreases b.len(),
{
    if b.len() == 0 {
        Seq::empty()
    } else {
        hex_bytes(b.drop_last()) + hex_byte(b.last())
    }
}

/// The SQL literal of a value: `NULL`, a decimal, a single-quoted string or
/// an `X'..'` blob.
pub open spec fn value_sql(v: SpecValue) -> Seq<u8> {
    match v {
        SpecValue::Null => "NULL".spec_bytes(),
        SpecValue::Int(i) => dec_int(i),
        SpecValue::Real(i) => dec_int(i),
        SpecValue::Text(b) => seq![39u8] + b + seq![39u8],
        SpecValue::Blob(b) => "X'".spec_bytes() + hex_bytes(b) + seq![39u8],
    }
}

/// Appends the decimal form of `n`.
pub fn push_dec_u64(out: &mut Vec<u8>, n: u64)
    ensures
        final(out)@ == old(out)@ + dec_nat(n as nat),
    decreases n,
{
    if n >= 10 {
        push_dec_u64(out, n / 10);
    }
    out.push(48 + (n % 10) as u8);
    proof {
        if n < 10 {
            assert(out@ =~= old(out)@ + dec_nat(n as nat));
        } else {
            assert(out@ =~= old(out)@ + dec_nat(n as nat));
        }
    }
}

/// Appends the decimal form of `i`, `-` first when negative.
pub fn push_dec_i64(out: &mut Vec<u8>, i: i64)
    ensures
        final(out)@ == old(out)@ + dec_int(i as int),
{
    if i >= 0 {
        push_dec_u64(out, i as u64);
    } else {
        out.push(45);
        let mag: u64 = if i == i64::MIN {
            9223372036854775808u64
        } else {
            (-i) as u64
        };
        proof {
            assert(mag as int == -(i as int));
        }
        push_dec_u64(out, mag);
        proof {
            assert(out@ =~= old(out)@ + dec_int(i as int));
        }
    }
}

/// Appends the two uppercase hexadecimal digits of one byte.
fn push_hex_byte(out: &mut Vec<u8>, b: u8)
    ensures
        final(out)@ == old(out)@ + hex_byte(b),
{
    let hi = b / 16;
    let lo = b % 16;
    out.push(if hi < 10 { 48 + hi } else { 55 + hi });
    out.push(if lo < 10 { 48 + lo } else { 55 + lo });
    proof {
        assert(out@ =~= old(out)@ + hex_byte(b));
    }
}

/// Appends the SQL literal of `v`.
pub fn push_value_sql(out: &mut Vec<u8>, v: &Value)
    ensures
        final(out)@ == old(out)@ + value_sql(v@),
{
    match v {
        Value::Null => {
            out.extend_from_slice("NULL".as_bytes());
            proof {
                assert(out@ =~= old(out)@ + value_sql(v@));
            }
        },
        Value::Integer(i) => {
            push_dec_i64(out, *i);
        },
        Value::Float(i) => {
            push_dec_i64(out, *i);
        },
        Value::Text(b) => {
            out.push(39);
            out.extend_from_slice(b.as_slice());
            out.push(39);
            proof {
                assert(out@ =~= old(out)@ + value_sql(v@));
            }
        },
        Value::Blob(b) => {
            out.extend_from_slice("X'".as_bytes());
            let ghost start = out@;
            let n = b.len();
            let mut i: usize = 0;
            proof {
                assert(b@.take(0) =~= Seq::<u8>::empty());
                assert(hex_bytes(b@.take(0)) =~= Seq::<u8>::empty());
                assert(out@ =~= start + hex_bytes(b@.take(0)));
            }
            while i < n
                invariant
                    n == b@.len(),
                    i <= n,
                    out@ == start + hex_bytes(b@.take(i as int)),
                decreases n - i,
            {
                push_hex_byte(out, b[i]);
                proof {
                    let t = b@.take(i + 1);
                    assert(t.drop_last() =~= b@.take(i as int));
                    assert(t.last() == b@[i as int]);
                    assert(out@ =~= start + hex_bytes(b@.take(i + 1)));
                }
                i += 1;
            }
            out.push(39);
            proof {
                assert(b@.take(n as int) =~= b@);
                assert(out@ =~= old(out)@ + value_sql(v@));
            }
        },
    }
}

} // verus!
