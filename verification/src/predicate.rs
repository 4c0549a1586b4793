//! Boolean predicates over one table: their evaluation semantics and their
//! generation with a target truth value known by construction.

use vstd::prelude::*;

use crate::gen::{
    arbitrary_value, can_lower, can_lower_check, can_raise_check, pick_value,
    strictly_greater, strictly_less, value_ok,
};
use crate::rng::{rng_index, rng_ratio};
use crate::schema::{row_matches, schema_wf, table_wf, Column, Table};
use crate::value::{
    lemma_lt_asymmetric, matches_type, row_model, spec_lt, SpecValue, Value,
};

verus! {

/// A compound boolean predicate: conjunctions and disjunctions over single
/// comparisons of one column against a constant.
#[derive(Debug)]
pub enum Predicate {
    And(Vec<Predicate>),
    Or(Vec<Predicate>),
    Eq(Vec<u8>, Value),
    Gt(Vec<u8>, Value),
    Lt(Vec<u8>, Value),
}

/// The mathematical model of a [`Predicate`].
pub enum SpecPred {
    And(Seq<SpecPred>),
    Or(Seq<SpecPred>),
    Eq(Seq<u8>, SpecValue),
    Gt(Seq<u8>, SpecValue),
    Lt(Seq<u8>, SpecValue),
}

impl View for Predicate {
    type V = SpecPred;

    open spec fn view(&self) -> SpecPred
        decreases self,
    {
        match *self {
            Predicate::And(cs) => SpecPred::And(views_of(cs@)),
            Predicate::Or(cs) => SpecPred::Or(views_of(cs@)),
            Predicate::Eq(name, v) => SpecPred::Eq(name@, v@),
            Predicate::Gt(name, v) => SpecPred::Gt(name@, v@),
            Predicate::Lt(name, v) => SpecPred::Lt(name@, v@),
        }
    }
}

/// The models of a sequence of predicates, in order.
pub open spec fn views_of(cs: Seq<Predicate>) -> Seq<SpecPred>
    decreases cs,
{
    if cs.len() == 0 {
        Seq::empty()
    } else {
        views_of(cs.drop_last()).push(cs.last()@)
    }
}

/// [`views_of`] is the elementwise model.
pub proof fn lemma_views_of(cs: Seq<Predicate>)
    ensures
        views_of(cs).len() == cs.len(),
        forall|i: int| 0 <= i < cs.len() ==> views_of(cs)[i] == cs[i]@,
    decreases cs.len(),
{
    if cs.len() > 0 {
        lemma_views_of(cs.drop_last());
        assert(views_of(cs) == views_of(cs.drop_last()).push(cs.last()@));
        assert forall|i: int| 0 <= i < cs.len() implies views_of(cs)[i] == cs[i]@ by {
            if i < cs.len() - 1 {
                assert(views_of(cs)[i] == views_of(cs.drop_last())[i]);
                assert(cs.drop_last()[i] == cs[i]);
            } else {
                assert(views_of(cs)[i] == cs.last()@);
            }
        }
    }
}

/// Some column carries this name.
pub open spec fn has_col(cols: Seq<Column>, name: Seq<u8>) -> bool {
    exists|i: int| 0 <= i < cols.len() && cols[i].name@ == name
}

/// The index of the column carrying this name (unique under [`schema_wf`]).
pub open spec fn col_of(cols: Seq<Column>, name: Seq<u8>) -> int {
    choose|i: int| 0 <= i < cols.len() && cols[i].name@ == name
}

/// Predicate evaluation on one row: `And`/`Or` are plain boolean logic, a
/// comparison resolves its column by name and compares in the value model's
/// order; a comparison against a differently-kinded value (or `Null`) is
/// false.
pub open spec fn eval_pred(p: SpecPred, cols: Seq<Column>, row: Seq<SpecValue>) -> bool
    decreases p,
{
    match p {
        SpecPred::And(cs) => forall|i: int| 0 <= i < cs.len() ==> eval_pred(#[trigger] cs[i], cols, row),
        SpecPred::Or(cs) => exists|i: int| 0 <= i < cs.len() && eval_pred(#[trigger] cs[i], cols, row),
        SpecPred::Eq(name, v) => has_col(cols, name) && row[col_of(cols, name)] == v,
        SpecPred::Gt(name, v) => has_col(cols, name) && spec_lt(v, row[col_of(cols, name)]),
        SpecPred::Lt(name, v) => has_col(cols, name) && spec_lt(row[col_of(cols, name)], v),
    }
}

/// `And` means: every child holds.
pub proof fn lemma_eval_and(cs: Seq<SpecPred>, cols: Seq<Column>, row: Seq<SpecValue>)
    ensures
        eval_pred(SpecPred::And(cs), cols, row) == (forall|i: int|
            0 <= i < cs.len() ==> eval_pred(#[trigger] cs[i], cols, row)),
{
    let v = SpecPred::And(cs);
    if eval_pred(v, cols, row) {
        assert forall|i: int| 0 <= i < cs.len() implies eval_pred(#[trigger] cs[i], cols, row) by {
            assert(v->And_0[i] == cs[i]);
        }
    } else {
        assert(!(forall|i: int| 0 <= i < cs.len() ==> eval_pred(#[trigger] cs[i], cols, row)))
            by {
            let k = choose|k: int| 0 <= k < v->And_0.len() && !eval_pred(#[trigger] v->And_0[k], cols, row);
            assert(v->And_0[k] == cs[k]);
        }
    }
}

/// `Or` means: some child holds.
pub proof fn lemma_eval_or(cs: Seq<SpecPred>, cols: Seq<Column>, row: Seq<SpecValue>)
    ensures
        eval_pred(SpecPred::Or(cs), cols, row) == (exists|i: int|
            0 <= i < cs.len() && eval_pred(#[trigger] cs[i], cols, row)),
{
    let v = SpecPred::Or(cs);
    if eval_pred(v, cols, row) {
        let k = choose|k: int| 0 <= k < v->Or_0.len() && eval_pred(#[trigger] v->Or_0[k], cols, row);
        assert(v->Or_0[k] == cs[k]);
        assert(0 <= k < cs.len() && eval_pred(cs[k], cols, row));
    } else {
        assert forall|i: int| 0 <= i < cs.len() implies !eval_pred(#[trigger] cs[i], cols, row) by {
            assert(v->Or_0[i] == cs[i]);
        }
    }
}

/// Structural soundness of a predicate against a schema: children counts lie
/// in `[1, 3]`, every comparison names a column of the schema and carries a
/// constant of that column's kind (or `Null`), inside the generator's
/// ranges.
pub open spec fn pred_wf(p: SpecPred, cols: Seq<Column>) -> bool
    decreases p,
{
    match p {
        SpecPred::And(cs) => 1 <= cs.len() <= 3 && forall|i: int|
            0 <= i < cs.len() ==> pred_wf(#[trigger] cs[i], cols),
        SpecPred::Or(cs) => 1 <= cs.len() <= 3 && forall|i: int|
            0 <= i < cs.len() ==> pred_wf(#[trigger] cs[i], cols),
        SpecPred::Eq(name, v) => cmp_wf(name, v, cols),
        SpecPred::Gt(name, v) => cmp_wf(name, v, cols),
        SpecPred::Lt(name, v) => cmp_wf(name, v, cols),
    }
}

/// Soundness of one comparison against a schema.
pub open spec fn cmp_wf(name: Seq<u8>, v: SpecValue, cols: Seq<Column>) -> bool {
    &&& has_col(cols, name)
    &&& matches_type(v, cols[col_of(cols, name)].column_type)
    &&& value_ok(v)
}

/// A single comparison: one of `Eq`, `Gt`, `Lt`.
pub open spec fn simple_shape(p: SpecPred) -> bool {
    p is Eq || p is Gt || p is Lt
}

/// A conjunction or disjunction of one to three single comparisons.
pub open spec fn compound_shape(p: SpecPred) -> bool {
    match p {
        SpecPred::And(cs) => 1 <= cs.len() <= 3 && forall|i: int|
            0 <= i < cs.len() ==> simple_shape(#[trigger] cs[i]),
        SpecPred::Or(cs) => 1 <= cs.len() <= 3 && forall|i: int|
            0 <= i < cs.len() ==> simple_shape(#[trigger] cs[i]),
        _ => false,
    }
}

/// Every row of the table has the same model.
pub open spec fn rows_all_equal(rows: Seq<Vec<Value>>) -> bool {
    forall|i: int, j: int|
        0 <= i < rows.len() && 0 <= j < rows.len() ==> row_model(rows[i]) == row_model(rows[j])
}

/// Under distinct column names, a name found at `i` resolves to `i`.
proof fn lemma_col_of_unique(cols: Seq<Column>, i: int)
    requires
        schema_wf(cols),
        0 <= i < cols.len(),
    ensures
        has_col(cols, cols[i].name@),
        col_of(cols, cols[i].name@) == i,
{
    assert(has_col(cols, cols[i].name@));
    let k = col_of(cols, cols[i].name@);
    if k != i {
        if k < i {
            assert(cols[k].name@ != cols[i].name@);
        } else {
            assert(cols[i].name@ != cols[k].name@);
        }
    }
}

/// Finds the first column carrying this name.
fn find_col(cols: &Vec<Column>, name: &Vec<u8>) -> (r: Option<usize>)
    ensures
        match r {
            Some(i) => i < cols@.len() && cols@[i as int].name@ == name@,
            None => !has_col(cols@, name@),
        },
{
    let n = cols.len();
    let mut i: usize = 0;
    while i < n
        invariant
            n == cols@.len(),
            i <= n,
            forall|j: int| 0 <= j < i ==> cols@[j].name@ != name@,
        decreases n - i,
    {
        if crate::value::bytes_eq(&cols[i].name, name) {
            return Some(i);
        }
        i += 1;
    }
    None
}

/// Evaluates a predicate on one row of a table with this schema.
pub fn eval_predicate(p: &Predicate, cols: &Vec<Column>, row: &Vec<Value>) -> (r: bool)
    requires
        schema_wf(cols@),
        row@.len() == cols@.len(),
    ensures
        r == eval_pred(p@, cols@, row_model(*row)),
    decreases *p,
{
    match p {
        Predicate::And(cs) => {
            let ghost m = views_of(cs@);
            proof {
                lemma_views_of(cs@);
            }
            let n = cs.len();
            let mut i: usize = 0;
            while i < n
                invariant
                    n == cs@.len(),
                    i <= n,
                    schema_wf(cols@),
                    row@.len() == cols@.len(),
                    *p == Predicate::And(*cs),
                    m == views_of(cs@),
                    m.len() == cs@.len(),
                    forall|j: int| 0 <= j < cs@.len() ==> m[j] == cs@[j]@,
                    forall|j: int|
                        0 <= j < i ==> eval_pred(#[trigger] m[j], cols@, row_model(*row)),
                decreases n - i,
            {
                proof {
                    assert(decreases_to!(*p => *cs));
                    assert(decreases_to!(*cs => cs@[i as int]));
                }
                if !eval_predicate(&cs[i], cols, row) {
                    proof {
                        assert(m[i as int] == cs@[i as int]@);
                        assert(p@ == SpecPred::And(m));
                        assert(!eval_pred(m[i as int], cols@, row_model(*row)));
                        lemma_eval_and(m, cols@, row_model(*row));
                    }
                    return false;
                }
                proof {
                    assert(m[i as int] == cs@[i as int]@);
                }
                i += 1;
            }
            proof {
                assert(p@ == SpecPred::And(m));
                lemma_eval_and(m, cols@, row_model(*row));
            }
            true
        },
        Predicate::Or(cs) => {
            let ghost m = views_of(cs@);
            proof {
                lemma_views_of(cs@);
            }
            let n = cs.len();
            let mut i: usize = 0;
            while i < n
                invariant
                    n == cs@.len(),
                    i <= n,
                    schema_wf(cols@),
                    row@.len() == cols@.len(),
                    *p == Predicate::Or(*cs),
                    m == views_of(cs@),
                    m.len() == cs@.len(),
                    forall|j: int| 0 <= j < cs@.len() ==> m[j] == cs@[j]@,
                    forall|j: int|
                        0 <= j < i ==> !eval_pred(#[trigger] m[j], cols@, row_model(*row)),
                decreases n - i,
            {
                proof {
                    assert(decreases_to!(*p => *cs));
                    assert(decreases_to!(*cs => cs@[i as int]));
                }
                if eval_predicate(&cs[i], cols, row) {
                    proof {
                        assert(m[i as int] == cs@[i as int]@);
                        assert(p@ == SpecPred::Or(m));
                        assert(eval_pred(m[i as int], cols@, row_model(*row)));
                        lemma_eval_or(m, cols@, row_model(*row));
                    }
                    return true;
                }
                proof {
                    assert(m[i as int] == cs@[i as int]@);
                }
                i += 1;
            }
            proof {
                assert(p@ == SpecPred::Or(m));
                lemma_eval_or(m, cols@, row_model(*row));
            }
            false
        },
        Predicate::Eq(name, v) => {
            match find_col(cols, name) {
                Some(i) => {
                    proof {
                        lemma_col_of_unique(cols@, i as int);
                        assert(row_model(*row)[i as int] == row@[i as int]@);
                    }
                    &row[i] == v
                },
                None => false,
            }
        },
        Predicate::Gt(name, v) => {
            match find_col(cols, name) {
                Some(i) => {
                    proof {
                        lemma_col_of_unique(cols@, i as int);
                        assert(row_model(*row)[i as int] == row@[i as int]@);
                    }
                    crate::value::value_lt(v, &row[i])
                },
                None => false,
            }
        },
        Predicate::Lt(name, v) => {
            match find_col(cols, name) {
                Some(i) => {
                    proof {
                        lemma_col_of_unique(cols@, i as int);
                        assert(row_model(*row)[i as int] == row@[i as int]@);
                    }
                    crate::value::value_lt(&row[i], v)
                },
                None => false,
            }
        },
    }
}

} // verus!

verus! {

/// Two values of one kind fit the same column types.
proof fn lemma_kind_matches(a: SpecValue, b: SpecValue, ty: crate::value::ColumnType)
    requires
        crate::value::same_kind(a, b),
        matches_type(b, ty),
    ensures
        matches_type(a, ty),
{
}

/// Is the value present in this column of any row?
fn present_in_col(rows: &Vec<Vec<Value>>, col: usize, v: &Value) -> (r: bool)
    requires
        forall|i: int| 0 <= i < rows@.len() ==> col < rows@[i]@.len(),
    ensures
        r == exists|i: int|
            0 <= i < rows@.len() && row_model(#[trigger] rows@[i])[col as int] == v@,
{
    let n = rows.len();
    let mut i: usize = 0;
    while i < n
        invariant
            n == rows@.len(),
            i <= n,
            forall|i2: int| 0 <= i2 < rows@.len() ==> col < rows@[i2]@.len(),
            forall|j: int|
                0 <= j < i ==> row_model(#[trigger] rows@[j])[col as int] != v@,
        decreases n - i,
    {
        if &rows[i][col] == v {
            proof {
                assert(row_model(rows@[i as int])[col as int] == rows@[i as int]@[col as int]@);
            }
            return true;
        }
        proof {
            assert(row_model(rows@[i as int])[col as int] == rows@[i as int]@[col as int]@);
        }
        i += 1;
    }
    false
}

/// A right-hand side for an equality meant to be false: drawn arbitrarily
/// and redrawn a bounded number of times while it collides with an existing
/// value of the column; if the draws keep colliding, a value that differs
/// from the first row's is derived from it instead.
fn eq_false_value(rng: &mut rand_chacha::ChaCha8Rng, t: &Table, col: usize) -> (r: Value)
    requires
        table_wf(*t),
        col < t.columns@.len(),
    ensures
        matches_type(r@, t.columns@[col as int].column_type),
        value_ok(r@),
        !(r@ is Null),
        t.rows@.len() > 0 ==> r@ != row_model(t.rows@[0])[col as int],
{
    let ty = t.columns[col].column_type;
    proof {
        assert(forall|i: int|
            0 <= i < t.rows@.len() ==> col < (#[trigger] t.rows@[i])@.len()) by {
            assert(forall|i: int|
                0 <= i < t.rows@.len() ==> row_matches(row_model(#[trigger] t.rows@[i]), t.columns@));
        }
    }
    let mut v = arbitrary_value(rng, ty);
    let mut k: usize = 0;
    while k < 9 && present_in_col(&t.rows, col, &v)
        invariant
            table_wf(*t),
            col < t.columns@.len(),
            forall|i: int| 0 <= i < t.rows@.len() ==> col < (#[trigger] t.rows@[i])@.len(),
            matches_type(v@, t.columns@[col as int].column_type),
            value_ok(v@),
            !(v@ is Null),
            ty == t.columns@[col as int].column_type,
        decreases 9 - k,
    {
        v = arbitrary_value(rng, ty);
        k += 1;
    }
    if t.rows.len() == 0 {
        return v;
    }
    let u = &t.rows[0][col];
    proof {
        assert(row_matches(row_model(t.rows@[0]), t.columns@));
        assert(row_model(t.rows@[0])[col as int] == t.rows@[0]@[col as int]@);
    }
    if !(&v == u) {
        return v;
    }
    // The draw equals the first row's value: derive one that differs.
    match u {
        Value::Null => v,
        _ => {
            if can_raise_check(u) {
                let w = strictly_greater(rng, u);
                proof {
                    lemma_lt_asymmetric(u@, w@);
                    lemma_kind_matches(w@, u@, t.columns@[col as int].column_type);
                }
                w
            } else {
                proof {
                    assert(can_lower(u@));
                }
                let w = strictly_less(rng, u);
                proof {
                    lemma_lt_asymmetric(w@, u@);
                    lemma_kind_matches(w@, u@, t.columns@[col as int].column_type);
                }
                w
            }
        },
    }
}

/// Builds one comparison over a random column whose truth value on at least
/// one current row is `want` by construction: a true equality picks an
/// existing value, a false one avoids the first row's value; a true (false)
/// strict comparison bounds a picked value from the right (wrong) side.
/// Where the picked value sits at the edge of its kind's range, so that no
/// strictly smaller or larger value exists, the builder falls back to the
/// equality form with the same target truth value.
pub fn simple_predicate(rng: &mut rand_chacha::ChaCha8Rng, t: &Table, want: bool) -> (p: Predicate)
    requires
        table_wf(*t),
    ensures
        pred_wf(p@, t.columns@),
        simple_shape(p@),
        t.rows@.len() > 0 ==> exists|i: int|
            0 <= i < t.rows@.len() && eval_pred(
                p@,
                t.columns@,
                row_model(#[trigger] t.rows@[i]),
            ) == want,
{
    let col = rng_index(rng, t.columns.len());
    let name = t.columns[col].name.clone();
    proof {
        lemma_col_of_unique(t.columns@, col as int);
        assert(forall|i: int|
            0 <= i < t.rows@.len() ==> col < (#[trigger] t.rows@[i])@.len()) by {
            assert(forall|i: int|
                0 <= i < t.rows@.len() ==> row_matches(row_model(#[trigger] t.rows@[i]), t.columns@));
        }
    }
    let op = rng_index(rng, 3);
    if op == 0 {
        if want {
            let picked = pick_value(rng, &t.rows, col);
            let ghost wi: int = if t.rows@.len() > 0 {
                choose|i: int| 0 <= i < t.rows@.len() && picked@ == t.rows@[i]@[col as int]@
            } else {
                0
            };
            proof {
                if t.rows@.len() > 0 {
                    assert(row_model(t.rows@[wi])[col as int] == t.rows@[wi]@[col as int]@);
                    assert(row_matches(row_model(t.rows@[wi]), t.columns@));
                }
            }
            Predicate::Eq(name, picked)
        } else {
            let rhs = eq_false_value(rng, t, col);
            proof {
                if t.rows@.len() > 0 {
                    assert(row_model(t.rows@[0])[col as int] != rhs@);
                }
            }
            Predicate::Eq(name, rhs)
        }
    } else {
        let picked = pick_value(rng, &t.rows, col);
        if t.rows.len() == 0 {
            proof {
                assert(picked@ is Null);
            }
            if op == 1 {
                return Predicate::Gt(name, picked);
            } else {
                return Predicate::Lt(name, picked);
            }
        }
        let ghost wi: int = choose|i: int|
            0 <= i < t.rows@.len() && picked@ == t.rows@[i]@[col as int]@;
        proof {
            assert(row_model(t.rows@[wi])[col as int] == t.rows@[wi]@[col as int]@);
            assert(row_matches(row_model(t.rows@[wi]), t.columns@));
            assert(matches_type(picked@, t.columns@[col as int].column_type));
            assert(value_ok(picked@));
        }
        let toward_less = (op == 1) == want;
        // Gt with want, and Lt against it, bound the picked value from
        // below; the mirrored cases bound it from above.
        if toward_less {
            if can_lower_check(&picked) {
                let rhs = strictly_less(rng, &picked);
                proof {
                    lemma_kind_matches(rhs@, picked@, t.columns@[col as int].column_type);
                    lemma_lt_asymmetric(rhs@, picked@);
                }
                if op == 1 {
                    Predicate::Gt(name, rhs)
                } else {
                    Predicate::Lt(name, rhs)
                }
            } else {
                eq_fallback(rng, t, col, want, name, picked)
            }
        } else {
            if can_raise_check(&picked) {
                let rhs = strictly_greater(rng, &picked);
                proof {
                    lemma_kind_matches(rhs@, picked@, t.columns@[col as int].column_type);
                    lemma_lt_asymmetric(picked@, rhs@);
                }
                if op == 1 {
                    Predicate::Gt(name, rhs)
                } else {
                    Predicate::Lt(name, rhs)
                }
            } else {
                eq_fallback(rng, t, col, want, name, picked)
            }
        }
    }
}

/// The equality fallback of [`simple_predicate`] for a picked value at the
/// edge of its range: an equality with the picked value where the target is
/// true, an equality avoiding the first row where it is false.
fn eq_fallback(
    rng: &mut rand_chacha::ChaCha8Rng,
    t: &Table,
    col: usize,
    want: bool,
    name: Vec<u8>,
    picked: Value,
) -> (p: Predicate)
    requires
        table_wf(*t),
        col < t.columns@.len(),
        name@ == t.columns@[col as int].name@,
        t.rows@.len() > 0,
        exists|i: int| 0 <= i < t.rows@.len() && picked@ == (#[trigger] t.rows@[i])@[col as int]@,
        matches_type(picked@, t.columns@[col as int].column_type),
        value_ok(picked@),
    ensures
        pred_wf(p@, t.columns@),
        simple_shape(p@),
        exists|i: int|
            0 <= i < t.rows@.len() && eval_pred(
                p@,
                t.columns@,
                row_model(#[trigger] t.rows@[i]),
            ) == want,
{
    proof {
        lemma_col_of_unique(t.columns@, col as int);
    }
    if want {
        let ghost wi: int = choose|i: int|
            0 <= i < t.rows@.len() && picked@ == (#[trigger] t.rows@[i])@[col as int]@;
        proof {
            assert(row_model(t.rows@[wi])[col as int] == t.rows@[wi]@[col as int]@);
        }
        Predicate::Eq(name, picked)
    } else {
        let rhs = eq_false_value(rng, t, col);
        proof {
            assert(row_model(t.rows@[0])[col as int] != rhs@);
        }
        Predicate::Eq(name, rhs)
    }
}

} // verus!

verus! {

/// Builds a compound predicate whose truth value on the table is `want` by
/// construction: with probability 0.7 a conjunction, else a disjunction, of
/// one to three simple predicates. A true conjunction makes every child
/// true; a false one forces at least one false child; disjunctions mirror
/// this. On a table whose rows are all equal — in particular on tables with
/// at most one row — the predicate evaluates to `want` on every row. (On
/// rows with differing values an equality child only pins the row it
/// picked, so the guarantee is per-child existential there.)
pub fn compound_predicate(
    rng: &mut rand_chacha::ChaCha8Rng,
    t: &Table,
    want: bool,
) -> (p: Predicate)
    requires
        table_wf(*t),
    ensures
        pred_wf(p@, t.columns@),
        compound_shape(p@),
        (t.rows@.len() > 0 && rows_all_equal(t.rows@)) ==> forall|i: int|
            0 <= i < t.rows@.len() ==> eval_pred(
                p@,
                t.columns@,
                row_model(#[trigger] t.rows@[i]),
            ) == want,
{
    let is_and = rng_ratio(rng, 7, 10);
    let n = rng_index(rng, 3) + 1;
    let mut flags: Vec<bool> = Vec::new();
    if is_and == want {
        // A true conjunction needs every child true; a false disjunction
        // needs every child false.
        let mut k: usize = 0;
        while k < n
            invariant
                flags@.len() == k,
                k <= n,
                forall|j: int| 0 <= j < k ==> flags@[j] == want,
            decreases n - k,
        {
            flags.push(want);
            k += 1;
        }
        proof {
            assert(flags@[0] == want);
        }
    } else {
        // Draw the children's truth values, then force one to `want`'s
        // deciding side when none came up there.
        let mut k: usize = 0;
        while k < n
            invariant
                flags@.len() == k,
                k <= n,
            decreases n - k,
        {
            flags.push(rng_ratio(rng, 1, 2));
            k += 1;
        }
        let mut any: bool = false;
        let mut k2: usize = 0;
        while k2 < n
            invariant
                flags@.len() == n,
                k2 <= n,
                any == exists|j: int| 0 <= j < k2 && flags@[j] == want,
            decreases n - k2,
        {
            if flags[k2] == want {
                any = true;
            }
            k2 += 1;
        }
        if !any {
            let fix = rng_index(rng, n);
            flags.set(fix, want);
            proof {
                assert(flags@[fix as int] == want);
            }
        }
    }
    proof {
        assert(exists|j: int| 0 <= j < flags@.len() && flags@[j] == want);
        assert(flags@.len() == n);
    }
    let mut children: Vec<Predicate> = Vec::new();
    let mut k: usize = 0;
    while k < n
        invariant
            table_wf(*t),
            flags@.len() == n,
            children@.len() == k,
            k <= n,
            exists|j: int| 0 <= j < flags@.len() && flags@[j] == want,
            is_and == want ==> forall|j: int| 0 <= j < flags@.len() ==> flags@[j] == want,
            forall|j: int| 0 <= j < k ==> pred_wf((#[trigger] children@[j])@, t.columns@),
            forall|j: int| 0 <= j < k ==> simple_shape((#[trigger] children@[j])@),
            forall|j: int|
                0 <= j < k ==> (t.rows@.len() > 0 ==> exists|i: int|
                    0 <= i < t.rows@.len() && eval_pred(
                        (#[trigger] children@[j])@,
                        t.columns@,
                        row_model(#[trigger] t.rows@[i]),
                    ) == flags@[j]),
        decreases n - k,
    {
        let c = simple_predicate(rng, t, flags[k]);
        children.push(c);
        k += 1;
    }
    let ghost m = views_of(children@);
    proof {
        lemma_views_of(children@);
    }
    let p = if is_and {
        Predicate::And(children)
    } else {
        Predicate::Or(children)
    };
    proof {
        assert(compound_shape(p@)) by {
            assert(m.len() == n && 1 <= n <= 3);
            assert(forall|j: int| 0 <= j < m.len() ==> simple_shape(#[trigger] m[j]));
        }
        if t.rows@.len() > 0 && rows_all_equal(t.rows@) {
            assert forall|i: int| 0 <= i < t.rows@.len() implies eval_pred(
                p@,
                t.columns@,
                row_model(#[trigger] t.rows@[i]),
            ) == want by {
                let rm = row_model(t.rows@[i]);
                assert forall|j: int| 0 <= j < m.len() implies eval_pred(
                    #[trigger] m[j],
                    t.columns@,
                    rm,
                ) == flags@[j] by {
                    let w = choose|w: int|
                        0 <= w < t.rows@.len() && eval_pred(
                            m[j],
                            t.columns@,
                            row_model(#[trigger] t.rows@[w]),
                        ) == flags@[j];
                    assert(row_model(t.rows@[w]) == rm);
                };
                if is_and {
                    lemma_eval_and(m, t.columns@, rm);
                    if want {
                        assert(eval_pred(p@, t.columns@, rm));
                    } else {
                        let j = choose|j: int| 0 <= j < flags@.len() && flags@[j] == want;
                        assert(!eval_pred(m[j], t.columns@, rm));
                    }
                } else {
                    lemma_eval_or(m, t.columns@, rm);
                    if want {
                        let j = choose|j: int| 0 <= j < flags@.len() && flags@[j] == want;
                        assert(eval_pred(m[j], t.columns@, rm));
                    } else {
                        assert(!eval_pred(p@, t.columns@, rm)) by {
                            if exists|j: int|
                                0 <= j < m.len() && eval_pred(#[trigger] m[j], t.columns@, rm) {
                                let j = choose|j: int|
                                    0 <= j < m.len() && eval_pred(#[trigger] m[j], t.columns@, rm);
                                assert(eval_pred(m[j], t.columns@, rm) == flags@[j]);
                            }
                        }
                    }
                }
            };
        }
    }
    p
}

impl Predicate {
    /// Draws the target truth value uniformly and builds a compound
    /// predicate for it: on a table whose rows are all equal, some truth
    /// value holds on every row.
    pub fn arbitrary_of(rng: &mut rand_chacha::ChaCha8Rng, t: &Table) -> (p: Predicate)
        requires
            table_wf(*t),
        ensures
            pred_wf(p@, t.columns@),
            compound_shape(p@),
            (t.rows@.len() > 0 && rows_all_equal(t.rows@)) ==> (forall|i: int|
                0 <= i < t.rows@.len() ==> eval_pred(
                    p@,
                    t.columns@,
                    row_model(#[trigger] t.rows@[i]),
                )) || (forall|i: int|
                0 <= i < t.rows@.len() ==> !eval_pred(
                    p@,
                    t.columns@,
                    row_model(#[trigger] t.rows@[i]),
                )),
    {
        let want = rng_ratio(rng, 1, 2);
        let p = compound_predicate(rng, t, want);
        proof {
            if t.rows@.len() > 0 && rows_all_equal(t.rows@) {
                assert(forall|i: int|
                    0 <= i < t.rows@.len() ==> eval_pred(
                        p@,
                        t.columns@,
                        row_model(#[trigger] t.rows@[i]),
                    ) == want);
            }
        }
        p
    }
}

} // verus!
