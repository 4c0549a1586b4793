//! Tables and columns: well-formedness, random generation, DDL rendering.

use vstd::prelude::*;
use vstd::string::StringSliceAdditionalSpecFns;

use crate::rng::{readable_name, rng_index};
use crate::value::{matches_type, row_model, ColumnType, Value};

verus! {

/// Bytes allowed in a generated identifier: lowercase ASCII letters, digits
/// and underscore.
pub open spec fn ident_byte(c: u8) -> bool {
    (97 <= c <= 122) || (48 <= c <= 57) || c == 95
}

/// An identifier-safe lowercase token: nonempty, made of [`ident_byte`]s,
/// not starting with a digit.
pub open spec fn ident_safe(b: Seq<u8>) -> bool {
    &&& b.len() > 0
    &&& forall|i: int| 0 <= i < b.len() ==> ident_byte(b[i])
    &&& !(48 <= b[0] <= 57)
}

/// One declared column.
#[derive(Clone, Debug)]
pub struct Column {
    pub name: Vec<u8>,
    pub column_type: ColumnType,
    pub primary: bool,
    pub unique: bool,
}

/// A table with its declared columns and the simulator-side log of its rows.
#[derive(Clone, Debug)]
pub struct Table {
    pub rows: Vec<Vec<Value>>,
    pub name: Vec<u8>,
    pub columns: Vec<Column>,
}

/// One row fits a schema: one value per column, each of the column's kind
/// and inside the generator's ranges.
pub open spec fn row_matches(row: Seq<crate::value::SpecValue>, columns: Seq<Column>) -> bool {
    &&& row.len() == columns.len()
    &&& forall|j: int|
        0 <= j < row.len() ==> matches_type(row[j], columns[j].column_type)
    &&& forall|j: int| 0 <= j < row.len() ==> crate::gen::value_ok(#[trigger] row[j])
}

/// Schema well-formedness: between 1 and 127 columns, identifier-safe names,
/// no repeated column name.
pub open spec fn schema_wf(columns: Seq<Column>) -> bool {
    &&& 1 <= columns.len() <= 127
    &&& forall|i: int| 0 <= i < columns.len() ==> ident_safe(columns[i].name@)
    &&& forall|i: int, j: int|
        0 <= i < j < columns.len() ==> columns[i].name@ != columns[j].name@
}

/// Table well-formedness: a safe name, a well-formed schema, and every row
/// fitting the schema.
pub open spec fn table_wf(t: Table) -> bool {
    &&& ident_safe(t.name@)
    &&& schema_wf(t.columns@)
    &&& forall|i: int|
        0 <= i < t.rows.len() ==> row_matches(#[trigger] row_model(t.rows[i]), t.columns@)
}

/// Checks [`ident_safe`] on a byte string.
pub fn ident_safe_check(b: &Vec<u8>) -> (r: bool)
    ensures
        r == ident_safe(b@),
{
    if b.len() == 0 {
        return false;
    }
    if 48 <= b[0] && b[0] <= 57 {
        return false;
    }
    let n = b.len();
    let mut i: usize = 0;
    while i < n
        invariant
            n == b@.len(),
            i <= n,
            forall|j: int| 0 <= j < i ==> ident_byte(b@[j]),
        decreases n - i,
    {
        let c = b[i];
        if !((97 <= c && c <= 122) || (48 <= c && c <= 57) || c == 95) {
            return false;
        }
        i += 1;
    }
    true
}

/// Draws a readable name and normalizes it into an identifier-safe token:
/// `-` becomes `_` (as do all other bytes outside the identifier alphabet),
/// uppercase ASCII is lowercased, a leading digit becomes `_`, and an empty
/// draw becomes `_`.
pub fn gen_random_name(rng: &mut rand_chacha::ChaCha8Rng) -> (r: Vec<u8>)
    ensures
        ident_safe(r@),
{
    let mut candidate = readable_name(rng);
    let n = candidate.len();
    let mut i: usize = 0;
    while i < n
        invariant
            n == candidate@.len(),
            i <= n,
            forall|j: int| 0 <= j < i ==> ident_byte(candidate@[j]),
        decreases n - i,
    {
        let c = candidate[i];
        if 65 <= c && c <= 90 {
            candidate.set(i, c + 32);
        } else if !((97 <= c && c <= 122) || (48 <= c && c <= 57) || c == 95) {
            candidate.set(i, 95);
        }
        i += 1;
    }
    if candidate.len() == 0 {
        candidate.push(95);
    } else if 48 <= candidate[0] && candidate[0] <= 57 {
        candidate.set(0, 95);
    }
    candidate
}

/// Looks a name up among columns already generated.
fn name_taken(columns: &Vec<Column>, name: &Vec<u8>) -> (r: bool)
    ensures
        r == exists|i: int| 0 <= i < columns@.len() && columns@[i].name@ == name@,
{
    let n = columns.len();
    let mut i: usize = 0;
    while i < n
        invariant
            n == columns@.len(),
            i <= n,
            forall|j: int| 0 <= j < i ==> columns@[j].name@ != name@,
        decreases n - i,
    {
        if crate::value::bytes_eq(&columns[i].name, name) {
            return true;
        }
        i += 1;
    }
    false
}

impl ColumnType {
    /// Draws one of the four column types uniformly.
    pub fn arbitrary(rng: &mut rand_chacha::ChaCha8Rng) -> ColumnType {
        match rng_index(rng, 4) {
            0 => ColumnType::Integer,
            1 => ColumnType::Float,
            2 => ColumnType::Text,
            _ => ColumnType::Blob,
        }
    }
}

impl Column {
    /// Draws a column: a fresh readable name and a uniform type; the
    /// `primary` and `unique` flags stay off.
    pub fn arbitrary(rng: &mut rand_chacha::ChaCha8Rng) -> (c: Column)
        ensures
            ident_safe(c.name@),
            !c.primary,
            !c.unique,
    {
        let name = gen_random_name(rng);
        let column_type = ColumnType::arbitrary(rng);
        Column { name, column_type, primary: false, unique: false }
    }
}

/// The longest name among columns already generated.
fn max_name_len(columns: &Vec<Column>) -> (r: usize)
    ensures
        forall|i: int| 0 <= i < columns@.len() ==> columns@[i].name@.len() <= r,
{
    let n = columns.len();
    let mut m: usize = 0;
    let mut i: usize = 0;
    while i < n
        invariant
            n == columns@.len(),
            i <= n,
            forall|j: int| 0 <= j < i ==> columns@[j].name@.len() <= m,
        decreases n - i,
    {
        if columns[i].name.len() > m {
            m = columns[i].name.len();
        }
        i += 1;
    }
    m
}

/// Draws between 1 and 127 columns with pairwise distinct names; a drawn
/// name already in use grows a `_` suffix until it is fresh.
pub fn gen_columns(rng: &mut rand_chacha::ChaCha8Rng) -> (r: Vec<Column>)
    ensures
        schema_wf(r@),
        forall|i: int| 0 <= i < r@.len() ==> !(#[trigger] r@[i]).primary && !r@[i].unique,
{
    let count = rng_index(rng, 127) + 1;
    let mut columns: Vec<Column> = Vec::new();
    let mut left = count;
    while left > 0
        invariant
            columns@.len() + left == count,
            count <= 127,
            forall|i: int| 0 <= i < columns@.len() ==> ident_safe(columns@[i].name@),
            forall|i: int|
                0 <= i < columns@.len() ==> !(#[trigger] columns@[i]).primary
                    && !columns@[i].unique,
            forall|i: int, j: int|
                0 <= i < j < columns@.len() ==> columns@[i].name@ != columns@[j].name@,
        decreases left,
    {
        let mut c = Column::arbitrary(rng);
        let bound = max_name_len(&columns);
        while name_taken(&columns, &c.name)
            invariant
                ident_safe(c.name@),
                !c.primary,
                !c.unique,
                forall|i: int| 0 <= i < columns@.len() ==> columns@[i].name@.len() <= bound,
            decreases bound + 1 - c.name@.len(),
        {
            proof {
                let k = choose|i: int|
                    0 <= i < columns@.len() && columns@[i].name@ == c.name@;
                assert(c.name@.len() <= bound);
            }
            c.name.push(95);
        }
        columns.push(c);
        left -= 1;
    }
    columns
}

impl Table {
    /// Draws a fresh empty table: a readable name and arbitrary columns.
    pub fn arbitrary(rng: &mut rand_chacha::ChaCha8Rng) -> (t: Table)
        ensures
            table_wf(t),
            t.rows@.len() == 0,
            forall|i: int|
                0 <= i < t.columns@.len() ==> !(#[trigger] t.columns@[i]).primary
                    && !t.columns@[i].unique,
    {
        let name = gen_random_name(rng);
        let columns = gen_columns(rng);
        Table { rows: Vec::new(), name, columns }
    }
}

/// The `CREATE TABLE` statement of a schema:
/// `CREATE TABLE <name> (<col> <TYPE>,...);` with the trailing comma removed.
pub open spec fn create_sql(name: Seq<u8>, columns: Seq<Column>) -> Seq<u8> {
    "CREATE TABLE ".spec_bytes() + name + " (".spec_bytes() + columns_sql(columns)
        + ");".spec_bytes()
}

/// The comma-separated column list of a `CREATE TABLE` statement.
pub open spec fn columns_sql(columns: Seq<Column>) -> Seq<u8>
    decreases columns.len(),
{
    if columns.len() == 0 {
        Seq::empty()
    } else if columns.len() == 1 {
        column_sql(columns[0])
    } else {
        columns_sql(columns.drop_last()) + ",".spec_bytes() + column_sql(columns.last())
    }
}

/// One column declaration: `<name> <TYPE>`.
pub open spec fn column_sql(c: Column) -> Seq<u8> {
    c.name@ + " ".spec_bytes() + type_sql(c.column_type)
}

/// The DDL keyword of a column type.
pub open spec fn type_sql(t: ColumnType) -> Seq<u8> {
    match t {
        ColumnType::Integer => "INTEGER".spec_bytes(),
        ColumnType::Float => "FLOAT".spec_bytes(),
        ColumnType::Text => "TEXT".spec_bytes(),
        ColumnType::Blob => "BLOB".spec_bytes(),
    }
}

impl Table {
    /// Renders this table's `CREATE TABLE` statement.
    pub fn to_create_str(&self) -> (r: Vec<u8>)
        requires
            self.columns@.len() >= 1,
        ensures
            r@ == create_sql(self.name@, self.columns@),
    {
        let mut out: Vec<u8> = Vec::new();
        out.extend_from_slice("CREATE TABLE ".as_bytes());
        out.extend_from_slice(self.name.as_slice());
        out.extend_from_slice(" (".as_bytes());
        let ghost start = out@;
        let n = self.columns.len();
        let mut i: usize = 0;
        proof {
            assert(columns_sql(self.columns@.take(0)) =~= Seq::<u8>::empty());
            assert(out@ =~= start + columns_sql(self.columns@.take(0)));
        }
        while i < n
            invariant
                n == self.columns@.len(),
                i <= n,
                out@ == start + columns_sql(self.columns@.take(i as int)),
            decreases n - i,
        {
            if i > 0 {
                out.extend_from_slice(",".as_bytes());
            }
            let c = &self.columns[i];
            out.extend_from_slice(c.name.as_slice());
            out.extend_from_slice(" ".as_bytes());
            let ts = c.column_type.as_str();
            out.extend_from_slice(ts.as_bytes());
            proof {
                let t = self.columns@.take(i + 1);
                assert(t.last() == self.columns@[i as int]);
                assert(t.drop_last() =~= self.columns@.take(i as int));
                assert(ts.spec_bytes() == type_sql(c.column_type));
                assert(out@ =~= start + columns_sql(self.columns@.take(i + 1)));
            }
            i += 1;
        }
        out.extend_from_slice(");".as_bytes());
        proof {
            assert(self.columns@.take(n as int) =~= self.columns@);
            assert(out@ =~= create_sql(self.name@, self.columns@));
        }
        out
    }
}

} // verus!
