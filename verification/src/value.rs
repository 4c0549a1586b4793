//! The typed SQL value universe and its exact equality and order.

use vstd::prelude::*;

verus! {

/// Lowest real value the generator emits.
pub const REAL_LO: i64 = -10_000_000_000;

/// Highest real value the generator emits.
pub const REAL_HI: i64 = 10_000_000_000;

/// A SQL value.
///
/// `Real` carries an integer: the simulator works only with REAL values that
/// have a zero fractional part, so that equality stays bit-exact and the
/// order within the kind is exact integer order.
#[derive(Debug)]
pub enum Value {
    Null,
    Integer(i64),
    Float(i64),
    Text(Vec<u8>),
    Blob(Vec<u8>),
}

/// The mathematical model of a [`Value`].
pub enum SpecValue {
    Null,
    Int(int),
    Real(int),
    Text(Seq<u8>),
    Blob(Seq<u8>),
}

impl View for Value {
    type V = SpecValue;

    open spec fn view(&self) -> SpecValue {
        match *self {
            Value::Null => SpecValue::Null,
            Value::Integer(i) => SpecValue::Int(i as int),
            Value::Float(i) => SpecValue::Real(i as int),
            Value::Text(b) => SpecValue::Text(b@),
            Value::Blob(b) => SpecValue::Blob(b@),
        }
    }
}

/// The model of one row.
pub open spec fn row_model(r: Vec<Value>) -> Seq<SpecValue> {
    r@.map_values(|v: Value| v@)
}

/// The model of a sequence of rows.
pub open spec fn rows_model(rs: Vec<Vec<Value>>) -> Seq<Seq<SpecValue>> {
    rs@.map_values(|r: Vec<Value>| row_model(r))
}

/// Strict lexicographic order on byte strings.
pub open spec fn lex_lt(a: Seq<u8>, b: Seq<u8>) -> bool
    decreases a.len(),
{
    if b.len() == 0 {
        false
    } else if a.len() == 0 {
        true
    } else if a[0] < b[0] {
        true
    } else if a[0] > b[0] {
        false
    } else {
        lex_lt(a.drop_first(), b.drop_first())
    }
}

/// Two values of the same kind (`Null` has no kind).
pub open spec fn same_kind(a: SpecValue, b: SpecValue) -> bool {
    match (a, b) {
        (SpecValue::Int(_), SpecValue::Int(_)) => true,
        (SpecValue::Real(_), SpecValue::Real(_)) => true,
        (SpecValue::Text(_), SpecValue::Text(_)) => true,
        (SpecValue::Blob(_), SpecValue::Blob(_)) => true,
        _ => false,
    }
}

/// The value model's strict total order within a kind; values of different
/// kinds (and `Null`) are never ordered.
pub open spec fn spec_lt(a: SpecValue, b: SpecValue) -> bool {
    match (a, b) {
        (SpecValue::Int(x), SpecValue::Int(y)) => x < y,
        (SpecValue::Real(x), SpecValue::Real(y)) => x < y,
        (SpecValue::Text(x), SpecValue::Text(y)) => lex_lt(x, y),
        (SpecValue::Blob(x), SpecValue::Blob(y)) => lex_lt(x, y),
        _ => false,
    }
}

/// A value of the given kind, or `Null`, may sit in a column of that type.
pub open spec fn matches_type(v: SpecValue, t: ColumnType) -> bool {
    match v {
        SpecValue::Null => true,
        SpecValue::Int(_) => t == ColumnType::Integer,
        SpecValue::Real(_) => t == ColumnType::Float,
        SpecValue::Text(_) => t == ColumnType::Text,
        SpecValue::Blob(_) => t == ColumnType::Blob,
    }
}

/// A column's declared SQL type.
#[derive(Clone, Copy, Debug, PartialEq, Eq, Structural)]
pub enum ColumnType {
    Integer,
    Float,
    Text,
    Blob,
}

impl ColumnType {
    /// The textual form used when the type is embedded in DDL.
    pub fn as_str(&self) -> (r: &'static str)
        ensures
            r@ == match *self {
                ColumnType::Integer => "INTEGER"@,
                ColumnType::Float => "FLOAT"@,
                ColumnType::Text => "TEXT"@,
                ColumnType::Blob => "BLOB"@,
            },
    {
        match self {
            ColumnType::Integer => "INTEGER",
            ColumnType::Float => "FLOAT",
            ColumnType::Text => "TEXT",
            ColumnType::Blob => "BLOB",
        }
    }
}

/// Exact byte-string equality.
pub fn bytes_eq(a: &Vec<u8>, b: &Vec<u8>) -> (r: bool)
    ensures
        r == (a@ == b@),
{
    if a.len() != b.len() {
        assert(a@.len() != b@.len());
        return false;
    }
    let n = a.len();
    let mut i: usize = 0;
    while i < n
        invariant
            n == a@.len() == b@.len(),
            i <= n,
            forall|j: int| 0 <= j < i ==> a@[j] == b@[j],
        decreases n - i,
    {
        if a[i] != b[i] {
            return false;
        }
        i += 1;
    }
    proof {
        assert(a@ =~= b@);
    }
    true
}

/// Exact lexicographic comparison on byte strings.
pub fn bytes_lt(a: &Vec<u8>, b: &Vec<u8>) -> (r: bool)
    ensures
        r == lex_lt(a@, b@),
{
    let mut i: usize = 0;
    proof {
        assert(a@.skip(0) =~= a@);
        assert(b@.skip(0) =~= b@);
    }
    loop
        invariant
            i <= a@.len(),
            i <= b@.len(),
            forall|j: int| 0 <= j < i ==> a@[j] == b@[j],
            lex_lt(a@, b@) == lex_lt(a@.skip(i as int), b@.skip(i as int)),
        decreases a@.len() - i,
    {
        if i == b.len() {
            proof {
                assert(b@.skip(i as int).len() == 0);
            }
            return false;
        }
        if i == a.len() {
            proof {
                assert(a@.skip(i as int).len() == 0);
                assert(b@.skip(i as int).len() > 0);
            }
            return true;
        }
        let x = a[i];
        let y = b[i];
        proof {
            let sa = a@.skip(i as int);
            let sb = b@.skip(i as int);
            assert(sa[0] == a@[i as int]);
            assert(sb[0] == b@[i as int]);
            assert(sa.drop_first() =~= a@.skip(i as int + 1));
            assert(sb.drop_first() =~= b@.skip(i as int + 1));
        }
        if x < y {
            return true;
        }
        if x > y {
            return false;
        }
        i += 1;
    }
}

impl PartialEq for Value {
    /// Structural equality: same kind and same payload.
    fn eq(&self, other: &Value) -> (r: bool) {
        match (self, other) {
            (Value::Null, Value::Null) => true,
            (Value::Integer(a), Value::Integer(b)) => a == b,
            (Value::Float(a), Value::Float(b)) => a == b,
            (Value::Text(a), Value::Text(b)) => bytes_eq(a, b),
            (Value::Blob(a), Value::Blob(b)) => bytes_eq(a, b),
            _ => false,
        }
    }
}

impl vstd::std_specs::cmp::PartialEqSpecImpl for Value {
    open spec fn obeys_eq_spec() -> bool {
        true
    }

    open spec fn eq_spec(&self, other: &Value) -> bool {
        self@ == other@
    }
}

/// Exact strict comparison in the value model's order.
pub fn value_lt(a: &Value, b: &Value) -> (r: bool)
    ensures
        r == spec_lt(a@, b@),
{
    match (a, b) {
        (Value::Integer(x), Value::Integer(y)) => x < y,
        (Value::Float(x), Value::Float(y)) => x < y,
        (Value::Text(x), Value::Text(y)) => bytes_lt(x, y),
        (Value::Blob(x), Value::Blob(y)) => bytes_lt(x, y),
        _ => false,
    }
}

/// The order is irreflexive and asymmetric: `a < b` excludes `b < a` and
/// `a == b`.
pub proof fn lemma_lt_asymmetric(a: SpecValue, b: SpecValue)
    ensures
        spec_lt(a, b) ==> !spec_lt(b, a),
        spec_lt(a, b) ==> a != b,
{
    match (a, b) {
        (SpecValue::Text(x), SpecValue::Text(y)) => lemma_lex_lt_asymmetric(x, y),
        (SpecValue::Blob(x), SpecValue::Blob(y)) => lemma_lex_lt_asymmetric(x, y),
        _ => {},
    }
}

pub proof fn lemma_lex_lt_asymmetric(a: Seq<u8>, b: Seq<u8>)
    ensures
        lex_lt(a, b) ==> !lex_lt(b, a),
        lex_lt(a, b) ==> a != b,
    decreases a.len(),
{
    if b.len() == 0 || a.len() == 0 {
    } else if a[0] == b[0] {
        lemma_lex_lt_asymmetric(a.drop_first(), b.drop_first());
        if lex_lt(a, b) {
            assert(a.drop_first() != b.drop_first());
            assert(a != b) by {
                if a == b {
                    assert(a.drop_first() =~= b.drop_first());
                }
            }
        }
    }
}

/// A strict prefix is lexicographically smaller.
pub proof fn lemma_lex_prefix_lt(a: Seq<u8>, b: Seq<u8>)
    requires
        a.len() < b.len(),
        forall|i: int| 0 <= i < a.len() ==> a[i] == b[i],
    ensures
        lex_lt(a, b),
    decreases a.len(),
{
    if a.len() > 0 {
        lemma_lex_prefix_lt(a.drop_first(), b.drop_first());
    }
}

/// Equal prefixes up to a position where `a` has the smaller byte: `a` is
/// lexicographically smaller, whatever follows.
pub proof fn lemma_lex_lt_at(a: Seq<u8>, b: Seq<u8>, i: int)
    requires
        0 <= i < a.len(),
        i < b.len(),
        forall|j: int| 0 <= j < i ==> a[j] == b[j],
        a[i] < b[i],
    ensures
        lex_lt(a, b),
    decreases i,
{
    if i > 0 {
        lemma_lex_lt_at(a.drop_first(), b.drop_first(), i - 1);
    }
}

} // verus!
