//! The shadow model: an in-memory authoritative copy of every table's
//! schema and rows, kept in lock-step with the statements sent to the
//! engine.

use vstd::prelude::*;

use crate::predicate::{eval_pred, eval_predicate, Predicate, SpecPred};
use crate::schema::{row_matches, table_wf, Column, Table};
use crate::value::{row_model, rows_model, SpecValue, Value};

verus! {

/// The well-formed shadow: every table well-formed, no repeated table name.
pub open spec fn tables_wf(ts: Seq<Table>) -> bool {
    &&& forall|i: int| 0 <= i < ts.len() ==> table_wf(#[trigger] ts[i])
    &&& forall|i: int, j: int| 0 <= i < j < ts.len() ==> ts[i].name@ != ts[j].name@
}

/// Some shadow table carries this name.
pub open spec fn has_table(ts: Seq<Table>, name: Seq<u8>) -> bool {
    exists|i: int| 0 <= i < ts.len() && ts[i].name@ == name
}

/// The index of the table carrying this name (unique under [`tables_wf`]).
pub open spec fn table_of(ts: Seq<Table>, name: Seq<u8>) -> int {
    choose|i: int| 0 <= i < ts.len() && ts[i].name@ == name
}

/// The models of the rows a filter keeps: those on which the predicate
/// evaluates to `want`, in their original order.
pub open spec fn kept_rows(
    rms: Seq<Seq<SpecValue>>,
    cols: Seq<Column>,
    p: SpecPred,
    want: bool,
) -> Seq<Seq<SpecValue>>
    decreases rms.len(),
{
    if rms.len() == 0 {
        Seq::empty()
    } else {
        let rest = kept_rows(rms.drop_last(), cols, p, want);
        if eval_pred(p, cols, rms.last()) == want {
            rest.push(rms.last())
        } else {
            rest
        }
    }
}

/// Every kept row is one of the original rows.
pub proof fn lemma_kept_rows_sub(
    rms: Seq<Seq<SpecValue>>,
    cols: Seq<Column>,
    p: SpecPred,
    want: bool,
)
    ensures
        forall|k: int|
            0 <= k < kept_rows(rms, cols, p, want).len() ==> exists|j: int|
                0 <= j < rms.len() && #[trigger] kept_rows(rms, cols, p, want)[k] == rms[j],
    decreases rms.len(),
{
    if rms.len() > 0 {
        lemma_kept_rows_sub(rms.drop_last(), cols, p, want);
        let kept = kept_rows(rms, cols, p, want);
        let rest = kept_rows(rms.drop_last(), cols, p, want);
        assert forall|k: int| 0 <= k < kept.len() implies exists|j: int|
            0 <= j < rms.len() && #[trigger] kept[k] == rms[j] by {
            if k < rest.len() {
                let j = choose|j: int|
                    0 <= j < rms.drop_last().len() && rest[k] == rms.drop_last()[j];
                assert(rms.drop_last()[j] == rms[j]);
                assert(kept[k] == rms[j]);
            } else {
                assert(kept[k] == rms.last());
                assert(rms.last() == rms[rms.len() - 1]);
            }
        }
    }
}

/// Copies one row, value by value.
pub fn clone_row(row: &Vec<Value>) -> (r: Vec<Value>)
    ensures
        row_model(r) == row_model(*row),
{
    let n = row.len();
    let mut out: Vec<Value> = Vec::new();
    let mut i: usize = 0;
    while i < n
        invariant
            n == row@.len(),
            i <= n,
            out@.len() == i,
            forall|j: int| 0 <= j < i ==> (#[trigger] out@[j])@ == row@[j]@,
        decreases n - i,
    {
        out.push(row[i].clone());
        i += 1;
    }
    proof {
        assert(row_model(out) =~= row_model(*row));
    }
    out
}

/// The rows the engine and the shadow agree on, compared value by value in
/// order.
pub fn compare_equal_rows(a: &Vec<Vec<Value>>, b: &Vec<Vec<Value>>) -> (r: bool)
    ensures
        r == (rows_model(*a) == rows_model(*b)),
{
    if a.len() != b.len() {
        proof {
            assert(rows_model(*a).len() != rows_model(*b).len());
        }
        return false;
    }
    let n = a.len();
    let mut i: usize = 0;
    while i < n
        invariant
            n == a@.len() == b@.len(),
            i <= n,
            forall|j: int| 0 <= j < i ==> row_model(#[trigger] a@[j]) == row_model(b@[j]),
        decreases n - i,
    {
        if !row_equal(&a[i], &b[i]) {
            proof {
                assert(rows_model(*a)[i as int] == row_model(a@[i as int]));
                assert(rows_model(*b)[i as int] == row_model(b@[i as int]));
            }
            return false;
        }
        i += 1;
    }
    proof {
        assert forall|j: int| 0 <= j < n implies rows_model(*a)[j] == rows_model(*b)[j] by {
            assert(rows_model(*a)[j] == row_model(a@[j]));
            assert(rows_model(*b)[j] == row_model(b@[j]));
        }
        assert(rows_model(*a) =~= rows_model(*b));
    }
    true
}

/// Value-by-value equality of two rows.
pub fn row_equal(a: &Vec<Value>, b: &Vec<Value>) -> (r: bool)
    ensures
        r == (row_model(*a) == row_model(*b)),
{
    if a.len() != b.len() {
        proof {
            assert(row_model(*a).len() != row_model(*b).len());
        }
        return false;
    }
    let n = a.len();
    let mut i: usize = 0;
    while i < n
        invariant
            n == a@.len() == b@.len(),
            i <= n,
            forall|j: int| 0 <= j < i ==> (#[trigger] a@[j])@ == b@[j]@,
        decreases n - i,
    {
        if !(&a[i] == &b[i]) {
            proof {
                assert(row_model(*a)[i as int] == a@[i as int]@);
                assert(row_model(*b)[i as int] == b@[i as int]@);
            }
            return false;
        }
        i += 1;
    }
    proof {
        assert forall|j: int| 0 <= j < n implies row_model(*a)[j] == row_model(*b)[j] by {
            assert(row_model(*a)[j] == a@[j]@);
            assert(row_model(*b)[j] == b@[j]@);
        }
        assert(row_model(*a) =~= row_model(*b));
    }
    true
}

/// Copies the rows on which the predicate evaluates to `want`, in order.
fn filter_rows(p: &Predicate, cols: &Vec<Column>, rows: &Vec<Vec<Value>>, want: bool) -> (r: Vec<
    Vec<Value>,
>)
    requires
        crate::schema::schema_wf(cols@),
        forall|i: int| 0 <= i < rows@.len() ==> row_matches(row_model(#[trigger] rows@[i]), cols@),
    ensures
        rows_model(r) == kept_rows(rows_model(*rows), cols@, p@, want),
{
    let ghost rms = rows_model(*rows);
    let n = rows.len();
    let mut out: Vec<Vec<Value>> = Vec::new();
    let mut i: usize = 0;
    proof {
        assert(rms.take(0) =~= Seq::<Seq<SpecValue>>::empty());
        assert(rows_model(out) =~= kept_rows(rms.take(0), cols@, p@, want));
    }
    while i < n
        invariant
            n == rows@.len(),
            i <= n,
            rms == rows_model(*rows),
            rms.len() == n,
            crate::schema::schema_wf(cols@),
            forall|i2: int|
                0 <= i2 < rows@.len() ==> row_matches(row_model(#[trigger] rows@[i2]), cols@),
            rows_model(out) == kept_rows(rms.take(i as int), cols@, p@, want),
        decreases n - i,
    {
        proof {
            assert(rms[i as int] == row_model(rows@[i as int]));
            assert(row_matches(row_model(rows@[i as int]), cols@));
        }
        let keep = eval_predicate(p, cols, &rows[i]) == want;
        if keep {
            let c = clone_row(&rows[i]);
            out.push(c);
            proof {
                assert(rows_model(out) =~= rows_model(out).drop_last().push(row_model(c)));
            }
        }
        proof {
            let t = rms.take(i + 1);
            assert(t.last() == rms[i as int]);
            assert(t.drop_last() =~= rms.take(i as int));
            assert(rows_model(out) =~= kept_rows(rms.take(i + 1), cols@, p@, want));
        }
        i += 1;
    }
    proof {
        assert(rms.take(n as int) =~= rms);
    }
    out
}

/// The shadow of all tables.
#[derive(Debug)]
pub struct ShadowTables {
    pub tables: Vec<Table>,
}

impl ShadowTables {
    /// An empty shadow.
    pub fn new() -> (r: ShadowTables)
        ensures
            r.tables@.len() == 0,
            tables_wf(r.tables@),
    {
        ShadowTables { tables: Vec::new() }
    }

    /// Finds the index of the table carrying this name.
    pub fn find(&self, name: &Vec<u8>) -> (r: Option<usize>)
        requires
            tables_wf(self.tables@),
        ensures
            match r {
                Some(i) => i < self.tables@.len() && self.tables@[i as int].name@ == name@
                    && table_of(self.tables@, name@) == i,
                None => !has_table(self.tables@, name@),
            },
    {
        let n = self.tables.len();
        let mut i: usize = 0;
        while i < n
            invariant
                tables_wf(self.tables@),
                n == self.tables@.len(),
                i <= n,
                forall|j: int| 0 <= j < i ==> (#[trigger] self.tables@[j]).name@ != name@,
            decreases n - i,
        {
            if crate::value::bytes_eq(&self.tables[i].name, name) {
                proof {
                    let k = table_of(self.tables@, name@);
                    assert(self.tables@[i as int].name@ == name@);
                    if k != i {
                        assert(self.tables@[k].name@ != self.tables@[i as int].name@);
                    }
                }
                return Some(i);
            }
            i += 1;
        }
        None
    }

    /// Appends a row to the named table's shadow log; refused when no table
    /// of that name exists.
    pub fn shadow_insert(&mut self, name: &Vec<u8>, row: Vec<Value>) -> (r: bool)
        requires
            tables_wf(old(self).tables@),
            has_table(old(self).tables@, name@) ==> row_matches(
                row_model(row),
                old(self).tables@[table_of(old(self).tables@, name@)].columns@,
            ),
        ensures
            tables_wf(final(self).tables@),
            r == has_table(old(self).tables@, name@),
            !r ==> final(self).tables@ == old(self).tables@,
            r ==> {
                let i = table_of(old(self).tables@, name@);
                &&& final(self).tables@.len() == old(self).tables@.len()
                &&& forall|j: int|
                    0 <= j < old(self).tables@.len() && j != i ==> final(self).tables@[j]
                        == old(self).tables@[j]
                &&& final(self).tables@[i].name@ == old(self).tables@[i].name@
                &&& final(self).tables@[i].columns@ == old(self).tables@[i].columns@
                &&& rows_model(final(self).tables@[i].rows) == rows_model(
                    old(self).tables@[i].rows,
                ).push(row_model(row))
            },
    {
        match self.find(name) {
            None => false,
            Some(i) => {
                let ghost oldtabs = self.tables@;
                let mut t = self.tables.remove(i);
                t.rows.push(row);
                proof {
                    assert(rows_model(t.rows) =~= rows_model(oldtabs[i as int].rows).push(
                        row_model(row),
                    ));
                    assert(table_wf(t)) by {
                        assert(forall|k: int|
                            0 <= k < t.rows@.len() - 1 ==> row_model(#[trigger] t.rows@[k])
                                == rows_model(oldtabs[i as int].rows)[k]);
                        assert(forall|k: int|
                            0 <= k < t.rows@.len() - 1 ==> row_model(#[trigger] t.rows@[k])
                                == row_model(oldtabs[i as int].rows@[k]));
                        assert(row_model(t.rows@[t.rows@.len() - 1]) == row_model(row));
                    }
                }
                self.tables.insert(i, t);
                proof {
                    assert(self.tables@ =~= oldtabs.update(i as int, t));
                }
                true
            },
        }
    }

    /// Removes from the named table every row on which the predicate
    /// evaluates true; refused when no table of that name exists.
    pub fn shadow_delete(&mut self, name: &Vec<u8>, p: &Predicate) -> (r: bool)
        requires
            tables_wf(old(self).tables@),
        ensures
            tables_wf(final(self).tables@),
            r == has_table(old(self).tables@, name@),
            !r ==> final(self).tables@ == old(self).tables@,
            r ==> {
                let i = table_of(old(self).tables@, name@);
                &&& final(self).tables@.len() == old(self).tables@.len()
                &&& forall|j: int|
                    0 <= j < old(self).tables@.len() && j != i ==> final(self).tables@[j]
                        == old(self).tables@[j]
                &&& final(self).tables@[i].name@ == old(self).tables@[i].name@
                &&& final(self).tables@[i].columns@ == old(self).tables@[i].columns@
                &&& rows_model(final(self).tables@[i].rows) == kept_rows(
                    rows_model(old(self).tables@[i].rows),
                    old(self).tables@[i].columns@,
                    p@,
                    false,
                )
            },
    {
        match self.find(name) {
            None => false,
            Some(i) => {
                let ghost oldtabs = self.tables@;
                let mut t = self.tables.remove(i);
                let kept = filter_rows(p, &t.columns, &t.rows, false);
                t.rows = kept;
                proof {
                    lemma_kept_rows_sub(
                        rows_model(oldtabs[i as int].rows),
                        oldtabs[i as int].columns@,
                        p@,
                        false,
                    );
                    assert(table_wf(t)) by {
                        assert(forall|k: int|
                            0 <= k < t.rows@.len() ==> row_model(#[trigger] t.rows@[k])
                                == rows_model(t.rows)[k]);
                        assert(forall|k: int|
                            0 <= k < oldtabs[i as int].rows@.len() ==> row_model(
                                #[trigger] oldtabs[i as int].rows@[k],
                            ) == rows_model(oldtabs[i as int].rows)[k]);
                    }
                }
                self.tables.insert(i, t);
                proof {
                    assert(self.tables@ =~= oldtabs.update(i as int, t));
                }
                true
            },
        }
    }

    /// The rows of the named table on which the predicate evaluates true, in
    /// insertion order; `None` when no table of that name exists.
    pub fn shadow_select(&self, name: &Vec<u8>, p: &Predicate) -> (r: Option<Vec<Vec<Value>>>)
        requires
            tables_wf(self.tables@),
        ensures
            match r {
                Some(rows) => has_table(self.tables@, name@) && rows_model(rows) == kept_rows(
                    rows_model(self.tables@[table_of(self.tables@, name@)].rows),
                    self.tables@[table_of(self.tables@, name@)].columns@,
                    p@,
                    true,
                ),
                None => !has_table(self.tables@, name@),
            },
    {
        match self.find(name) {
            None => None,
            Some(i) => {
                let t = &self.tables[i];
                Some(filter_rows(p, &t.columns, &t.rows, true))
            },
        }
    }

    /// Appends a new table; refused when one of that name already exists.
    pub fn shadow_create(&mut self, t: Table) -> (r: bool)
        requires
            tables_wf(old(self).tables@),
            table_wf(t),
        ensures
            tables_wf(final(self).tables@),
            r == !has_table(old(self).tables@, t.name@),
            r ==> final(self).tables@ == old(self).tables@.push(t),
            !r ==> final(self).tables@ == old(self).tables@,
    {
        match self.find(&t.name) {
            Some(_) => false,
            None => {
                self.tables.push(t);
                true
            },
        }
    }
}

} // verus!
