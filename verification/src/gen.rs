//! Random derivation of values: arbitrary values of a type, values picked
//! from existing rows, and values strictly below or above a given one.
//!
//! Text values are kept inside a constrained alphabet — printable ASCII
//! without the single quote — so that every value embeds into SQL text
//! without escaping. Where no strictly smaller or larger value exists inside
//! a kind's range, the derivation is not defined; callers test
//! [`can_lower`] / [`can_raise`] first.

use vstd::prelude::*;

use crate::rng::{rng_i64_between, rng_index, rng_ratio, rng_u64_between, readable_name};
use crate::value::{
    lemma_lex_prefix_lt, lemma_lex_lt_at, same_kind, spec_lt, ColumnType, SpecValue, Value,
};

verus! {

/// A byte the text alphabet allows: printable ASCII, no single quote.
pub open spec fn text_byte_ok(c: u8) -> bool {
    32 <= c <= 126 && c != 39
}

/// All bytes of a text value lie in the constrained alphabet.
pub open spec fn text_ok(b: Seq<u8>) -> bool {
    forall|i: int| 0 <= i < b.len() ==> text_byte_ok(b[i])
}

/// A value the generator may emit: reals stay inside the generated range and
/// text stays inside the constrained alphabet.
pub open spec fn value_ok(v: SpecValue) -> bool {
    match v {
        SpecValue::Real(x) => crate::value::REAL_LO <= x <= crate::value::REAL_HI,
        SpecValue::Text(b) => text_ok(b),
        _ => true,
    }
}

/// A strictly smaller value of the same kind exists and can be derived.
pub open spec fn can_lower(v: SpecValue) -> bool {
    match v {
        SpecValue::Null => false,
        SpecValue::Int(i) => i > i64::MIN,
        SpecValue::Real(x) => x > crate::value::REAL_LO,
        SpecValue::Text(b) => b.len() > 0,
        SpecValue::Blob(b) => b.len() > 0,
    }
}

/// A strictly larger value of the same kind exists and can be derived.
pub open spec fn can_raise(v: SpecValue) -> bool {
    match v {
        SpecValue::Null => false,
        SpecValue::Int(i) => i < i64::MAX,
        SpecValue::Real(x) => x < crate::value::REAL_HI,
        SpecValue::Text(_) => true,
        SpecValue::Blob(_) => true,
    }
}

/// Checks [`can_lower`].
pub fn can_lower_check(v: &Value) -> (r: bool)
    ensures
        r == can_lower(v@),
{
    match v {
        Value::Null => false,
        Value::Integer(i) => *i > i64::MIN,
        Value::Float(x) => *x > crate::value::REAL_LO,
        Value::Text(b) => b.len() > 0,
        Value::Blob(b) => b.len() > 0,
    }
}

/// Checks [`can_raise`].
pub fn can_raise_check(v: &Value) -> (r: bool)
    ensures
        r == can_raise(v@),
{
    match v {
        Value::Null => false,
        Value::Integer(i) => *i < i64::MAX,
        Value::Float(x) => *x < crate::value::REAL_HI,
        Value::Text(_) => true,
        Value::Blob(_) => true,
    }
}

impl Clone for Value {
    /// An exact copy.
    fn clone(&self) -> (r: Value)
        ensures
            r@ == self@,
    {
        match self {
            Value::Null => Value::Null,
            Value::Integer(i) => Value::Integer(*i),
            Value::Float(x) => Value::Float(*x),
            Value::Text(b) => Value::Text(b.clone()),
            Value::Blob(b) => Value::Blob(b.clone()),
        }
    }
}

/// A uniform byte of the constrained text alphabet.
fn rand_text_byte(rng: &mut rand_chacha::ChaCha8Rng) -> (r: u8)
    ensures
        text_byte_ok(r),
{
    let d = rng_index(rng, 94);
    let b = 32 + (d as u8);
    if b >= 39 {
        b + 1
    } else {
        b
    }
}

/// A readable name normalized into the constrained text alphabet (`-`
/// becomes `_`, as does every byte outside the alphabet); an empty draw
/// becomes `_`.
fn gen_small_text(rng: &mut rand_chacha::ChaCha8Rng) -> (r: Vec<u8>)
    ensures
        text_ok(r@),
        r@.len() > 0,
{
    let mut candidate = readable_name(rng);
    let n = candidate.len();
    let mut i: usize = 0;
    while i < n
        invariant
            n == candidate@.len(),
            i <= n,
            forall|j: int| 0 <= j < i ==> text_byte_ok(candidate@[j]),
        decreases n - i,
    {
        let c = candidate[i];
        if c == 45 || !(32 <= c && c <= 126 && c != 39) {
            candidate.set(i, 95);
        }
        i += 1;
    }
    if candidate.len() == 0 {
        candidate.push(95);
    }
    candidate
}

/// Random text: with probability 1/1000 a large block of repeating `A..Z`
/// whose size is drawn from `[1 KiB, 2 GiB)`, to exercise overflow pages;
/// otherwise a readable name.
pub fn gen_random_text(rng: &mut rand_chacha::ChaCha8Rng) -> (r: Vec<u8>)
    ensures
        text_ok(r@),
        r@.len() > 0,
{
    if rng_ratio(rng, 1, 1000) {
        let size = rng_u64_between(rng, 1024, 2147483647);
        let mut out: Vec<u8> = Vec::new();
        let mut i: u64 = 0;
        while i < size
            invariant
                i <= size,
                out@.len() == i,
                forall|j: int| 0 <= j < out@.len() ==> text_byte_ok(out@[j]),
            decreases size - i,
        {
            out.push(65 + (i % 26) as u8);
            i += 1;
        }
        out
    } else {
        gen_small_text(rng)
    }
}

/// An arbitrary value of the given type; never `Null`.
pub fn arbitrary_value(rng: &mut rand_chacha::ChaCha8Rng, t: ColumnType) -> (r: Value)
    ensures
        crate::value::matches_type(r@, t),
        !(r@ is Null),
        value_ok(r@),
{
    match t {
        ColumnType::Integer => Value::Integer(rng_i64_between(rng, i64::MIN, i64::MAX - 1)),
        ColumnType::Float => Value::Float(
            rng_i64_between(rng, crate::value::REAL_LO, crate::value::REAL_HI),
        ),
        ColumnType::Text => Value::Text(gen_random_text(rng)),
        ColumnType::Blob => Value::Blob(gen_random_text(rng)),
    }
}

/// A value picked uniformly from the given column of the given rows; `Null`
/// when there are no rows.
pub fn pick_value(rng: &mut rand_chacha::ChaCha8Rng, rows: &Vec<Vec<Value>>, col: usize) -> (r:
    Value)
    requires
        forall|i: int| 0 <= i < rows@.len() ==> col < rows@[i]@.len(),
    ensures
        rows@.len() == 0 ==> r@ == (SpecValue::Null),
        rows@.len() > 0 ==> exists|i: int|
            0 <= i < rows@.len() && r@ == #[trigger] rows@[i]@[col as int]@,
{
    if rows.len() == 0 {
        return Value::Null;
    }
    let i = rng_index(rng, rows.len());
    let r = rows[i][col].clone();
    proof {
        assert(r@ == rows@[i as int]@[col as int]@);
    }
    r
}

/// A value strictly below `v` in the value model's order, of the same kind.
pub fn strictly_less(rng: &mut rand_chacha::ChaCha8Rng, v: &Value) -> (r: Value)
    requires
        can_lower(v@),
        value_ok(v@),
    ensures
        spec_lt(r@, v@),
        same_kind(r@, v@),
        value_ok(r@),
{
    match v {
        Value::Integer(i) => Value::Integer(rng_i64_between(rng, i64::MIN, *i - 1)),
        Value::Float(x) => Value::Float(rng_i64_between(rng, crate::value::REAL_LO, *x - 1)),
        Value::Text(b) => {
            let idx = rng_index(rng, b.len());
            if rng_ratio(rng, 1, 100) || b[idx] <= 32 {
                // Drop the last byte: a strict prefix sorts first.
                let mut out = b.clone();
                out.pop();
                proof {
                    assert(out@ =~= b@.drop_last());
                    lemma_lex_prefix_lt(out@, b@);
                }
                Value::Text(out)
            } else {
                Value::Text(mutate_down(rng, b, idx, true))
            }
        },
        Value::Blob(b) => {
            let idx = rng_index(rng, b.len());
            if rng_ratio(rng, 1, 100) || b[idx] == 0 {
                let mut out = b.clone();
                out.pop();
                proof {
                    assert(out@ =~= b@.drop_last());
                    lemma_lex_prefix_lt(out@, b@);
                }
                Value::Blob(out)
            } else {
                Value::Blob(mutate_down(rng, b, idx, false))
            }
        },
        Value::Null => {
            proof {
                assert(false);
            }
            Value::Null
        },
    }
}

/// Copies `b`, makes the byte at `idx` strictly smaller and randomizes every
/// byte after it; in text mode the result stays inside the text alphabet.
fn mutate_down(rng: &mut rand_chacha::ChaCha8Rng, b: &Vec<u8>, idx: usize, text: bool) -> (r: Vec<
    u8,
>)
    requires
        idx < b@.len(),
        text ==> text_ok(b@) && b@[idx as int] > 32,
        !text ==> b@[idx as int] > 0,
    ensures
        crate::value::lex_lt(r@, b@),
        text ==> text_ok(r@),
{
    let mut out = b.clone();
    let c = b[idx];
    let nc = if text && c - 1 == 39 {
        38
    } else {
        c - 1
    };
    out.set(idx, nc);
    let n = out.len();
    let mut j: usize = idx + 1;
    while j < n
        invariant
            n == out@.len() == b@.len(),
            idx < j,
            j <= n,
            out@[idx as int] == nc,
            nc < b@[idx as int],
            forall|k: int| 0 <= k < idx ==> out@[k] == b@[k],
            text ==> forall|k: int| 0 <= k < out@.len() ==> text_byte_ok(#[trigger] out@[k]),
        decreases n - j,
    {
        let nb = if text {
            rand_text_byte(rng)
        } else {
            rng_index(rng, 256) as u8
        };
        out.set(j, nb);
        j += 1;
    }
    proof {
        lemma_lex_lt_at(out@, b@, idx as int);
    }
    out
}

/// A value strictly above `v` in the value model's order, of the same kind.
pub fn strictly_greater(rng: &mut rand_chacha::ChaCha8Rng, v: &Value) -> (r: Value)
    requires
        can_raise(v@),
        value_ok(v@),
    ensures
        spec_lt(v@, r@),
        same_kind(r@, v@),
        value_ok(r@),
{
    match v {
        Value::Integer(i) => Value::Integer(rng_i64_between(rng, *i + 1, i64::MAX)),
        Value::Float(x) => Value::Float(rng_i64_between(rng, *x + 1, crate::value::REAL_HI)),
        Value::Text(b) => {
            if rng_ratio(rng, 1, 100) || b.len() == 0 {
                // Append a byte: the original is a strict prefix and sorts
                // first.
                let mut out = b.clone();
                out.push(rand_text_byte(rng));
                proof {
                    lemma_lex_prefix_lt(b@, out@);
                }
                Value::Text(out)
            } else {
                let idx = rng_index(rng, b.len());
                if b[idx] >= 126 {
                    let mut out = b.clone();
                    out.push(rand_text_byte(rng));
                    proof {
                        lemma_lex_prefix_lt(b@, out@);
                    }
                    Value::Text(out)
                } else {
                    Value::Text(mutate_up(rng, b, idx, true))
                }
            }
        },
        Value::Blob(b) => {
            if rng_ratio(rng, 1, 100) || b.len() == 0 {
                let mut out = b.clone();
                out.push(rng_index(rng, 256) as u8);
                proof {
                    lemma_lex_prefix_lt(b@, out@);
                }
                Value::Blob(out)
            } else {
                let idx = rng_index(rng, b.len());
                if b[idx] == 255 {
                    let mut out = b.clone();
                    out.push(rng_index(rng, 256) as u8);
                    proof {
                        lemma_lex_prefix_lt(b@, out@);
                    }
                    Value::Blob(out)
                } else {
                    Value::Blob(mutate_up(rng, b, idx, false))
                }
            }
        },
        Value::Null => {
            proof {
                assert(false);
            }
            Value::Null
        },
    }
}

/// Copies `b`, makes the byte at `idx` strictly larger and randomizes every
/// byte after it; in text mode the result stays inside the text alphabet.
fn mutate_up(rng: &mut rand_chacha::ChaCha8Rng, b: &Vec<u8>, idx: usize, text: bool) -> (r: Vec<
    u8,
>)
    requires
        idx < b@.len(),
        text ==> text_ok(b@) && b@[idx as int] < 126,
        !text ==> b@[idx as int] < 255,
    ensures
        crate::value::lex_lt(b@, r@),
        text ==> text_ok(r@),
{
    let mut out = b.clone();
    let c = b[idx];
    let nc = if text && c + 1 == 39 {
        40
    } else {
        c + 1
    };
    out.set(idx, nc);
    let n = out.len();
    let mut j: usize = idx + 1;
    while j < n
        invariant
            n == out@.len() == b@.len(),
            idx < j,
            j <= n,
            out@[idx as int] == nc,
            nc > b@[idx as int],
            forall|k: int| 0 <= k < idx ==> out@[k] == b@[k],
            text ==> forall|k: int| 0 <= k < out@.len() ==> text_byte_ok(#[trigger] out@[k]),
        decreases n - j,
    {
        let nb = if text {
            rand_text_byte(rng)
        } else {
            rng_index(rng, 256) as u8
        };
        out.set(j, nb);
        j += 1;
    }
    proof {
        lemma_lex_lt_at(b@, out@, idx as int);
    }
    out
}

} // verus!
