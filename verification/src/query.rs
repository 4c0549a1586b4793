//! Queries over one table: their generation and their SQL text.

use vstd::prelude::*;
use vstd::string::StringSliceAdditionalSpecFns;

use crate::gen::arbitrary_value;
use crate::predicate::{pred_wf, Predicate, SpecPred, views_of, lemma_views_of};
use crate::rng::rng_index;
use crate::schema::{create_sql, row_matches, table_wf, Table};
use crate::sql::{push_value_sql, value_sql};
use crate::value::{row_model, SpecValue, Value};

verus! {

/// One statement against the engine.
#[derive(Debug)]
pub enum Query {
    Create { table: Table },
    Select { table: Vec<u8>, guard: Predicate },
    Insert { table: Vec<u8>, values: Vec<Value> },
    Delete { table: Vec<u8>, guard: Predicate },
}

/// The SQL text of a predicate: comparisons are `name op value`, compounds
/// wrap their children in parentheses around ` AND ` / ` OR `.
pub open spec fn pred_sql(p: SpecPred) -> Seq<u8>
    decreases p,
{
    match p {
        SpecPred::And(cs) => "(".spec_bytes() + preds_sql(cs, " AND ".spec_bytes())
            + ")".spec_bytes(),
        SpecPred::Or(cs) => "(".spec_bytes() + preds_sql(cs, " OR ".spec_bytes())
            + ")".spec_bytes(),
        SpecPred::Eq(name, v) => name + " = ".spec_bytes() + value_sql(v),
        SpecPred::Gt(name, v) => name + " > ".spec_bytes() + value_sql(v),
        SpecPred::Lt(name, v) => name + " < ".spec_bytes() + value_sql(v),
    }
}

/// The children of a compound, joined by a separator.
pub open spec fn preds_sql(cs: Seq<SpecPred>, sep: Seq<u8>) -> Seq<u8>
    decreases cs,
{
    if cs.len() == 0 {
        Seq::empty()
    } else if cs.len() == 1 {
        pred_sql(cs[0])
    } else {
        preds_sql(cs.drop_last(), sep) + sep + pred_sql(cs.last())
    }
}

/// Comma-separated SQL literals of a row of values.
pub open spec fn values_sql(vs: Seq<SpecValue>) -> Seq<u8>
    decreases vs.len(),
{
    if vs.len() == 0 {
        Seq::empty()
    } else if vs.len() == 1 {
        value_sql(vs[0])
    } else {
        values_sql(vs.drop_last()) + ", ".spec_bytes() + value_sql(vs.last())
    }
}

/// The SQL text of a query.
pub open spec fn query_sql(q: Query) -> Seq<u8> {
    match q {
        Query::Create { table } => create_sql(table.name@, table.columns@),
        Query::Select { table, guard } => "SELECT * FROM ".spec_bytes() + table@
            + " WHERE ".spec_bytes() + pred_sql(guard@),
        Query::Insert { table, values } => "INSERT INTO ".spec_bytes() + table@
            + " VALUES (".spec_bytes() + values_sql(row_model(values)) + ")".spec_bytes(),
        Query::Delete { table, guard } => "DELETE FROM ".spec_bytes() + table@
            + " WHERE ".spec_bytes() + pred_sql(guard@),
    }
}

/// A query generated against table `t`: a `Create` brings a fresh
/// well-formed table; the others address `t` with a sound guard or a row
/// fitting its schema.
pub open spec fn query_wf(q: Query, t: Table) -> bool {
    match q {
        Query::Create { table } => table_wf(table) && table.rows@.len() == 0,
        Query::Select { table, guard } => table@ == t.name@ && pred_wf(guard@, t.columns@),
        Query::Insert { table, values } => table@ == t.name@ && row_matches(
            row_model(values),
            t.columns@,
        ),
        Query::Delete { table, guard } => table@ == t.name@ && pred_wf(guard@, t.columns@),
    }
}

/// Appends the SQL text of a predicate.
pub fn push_pred_sql(out: &mut Vec<u8>, p: &Predicate)
    ensures
        final(out)@ == old(out)@ + pred_sql(p@),
    decreases *p,
{
    match p {
        Predicate::And(cs) => {
            push_children_sql(out, cs, true);
        },
        Predicate::Or(cs) => {
            push_children_sql(out, cs, false);
        },
        Predicate::Eq(name, v) => {
            out.extend_from_slice(name.as_slice());
            out.extend_from_slice(" = ".as_bytes());
            push_value_sql(out, v);
            proof {
                assert(out@ =~= old(out)@ + pred_sql(p@));
            }
        },
        Predicate::Gt(name, v) => {
            out.extend_from_slice(name.as_slice());
            out.extend_from_slice(" > ".as_bytes());
            push_value_sql(out, v);
            proof {
                assert(out@ =~= old(out)@ + pred_sql(p@));
            }
        },
        Predicate::Lt(name, v) => {
            out.extend_from_slice(name.as_slice());
            out.extend_from_slice(" < ".as_bytes());
            push_value_sql(out, v);
            proof {
                assert(out@ =~= old(out)@ + pred_sql(p@));
            }
        },
    }
}

/// Appends `(child1 SEP child2 ...)` for a compound's children.
fn push_children_sql(out: &mut Vec<u8>, cs: &Vec<Predicate>, conj: bool)
    ensures
        conj ==> final(out)@ == old(out)@ + pred_sql(SpecPred::And(views_of(cs@))),
        !conj ==> final(out)@ == old(out)@ + pred_sql(SpecPred::Or(views_of(cs@))),
    decreases *cs,
{
    let ghost m = views_of(cs@);
    proof {
        lemma_views_of(cs@);
    }
    out.extend_from_slice("(".as_bytes());
    let ghost start = out@;
    let n = cs.len();
    let mut i: usize = 0;
    proof {
        assert(m.take(0) =~= Seq::<SpecPred>::empty());
        if conj {
            assert(out@ =~= start + preds_sql(m.take(0), " AND ".spec_bytes()));
        } else {
            assert(out@ =~= start + preds_sql(m.take(0), " OR ".spec_bytes()));
        }
    }
    while i < n
        invariant
            n == cs@.len(),
            i <= n,
            m == views_of(cs@),
            m.len() == cs@.len(),
            forall|j: int| 0 <= j < cs@.len() ==> m[j] == cs@[j]@,
            conj ==> out@ == start + preds_sql(m.take(i as int), " AND ".spec_bytes()),
            !conj ==> out@ == start + preds_sql(m.take(i as int), " OR ".spec_bytes()),
        decreases n - i,
    {
        if i > 0 {
            if conj {
                out.extend_from_slice(" AND ".as_bytes());
            } else {
                out.extend_from_slice(" OR ".as_bytes());
            }
        }
        proof {
            assert(decreases_to!(*cs => cs@[i as int]));
        }
        push_pred_sql(out, &cs[i]);
        proof {
            let t = m.take(i + 1);
            assert(t.last() == m[i as int]);
            assert(t.drop_last() =~= m.take(i as int));
            assert(m[i as int] == cs@[i as int]@);
            if conj {
                assert(out@ =~= start + preds_sql(m.take(i + 1), " AND ".spec_bytes()));
            } else {
                assert(out@ =~= start + preds_sql(m.take(i + 1), " OR ".spec_bytes()));
            }
        }
        i += 1;
    }
    out.extend_from_slice(")".as_bytes());
    proof {
        assert(m.take(n as int) =~= m);
        if conj {
            assert(out@ =~= old(out)@ + pred_sql(SpecPred::And(m)));
        } else {
            assert(out@ =~= old(out)@ + pred_sql(SpecPred::Or(m)));
        }
    }
}

/// Draws one row for the table: one arbitrary value per column, each of the
/// column's type.
pub fn arbitrary_row(rng: &mut rand_chacha::ChaCha8Rng, t: &Table) -> (values: Vec<Value>)
    requires
        table_wf(*t),
    ensures
        row_matches(row_model(values), t.columns@),
{
    let n = t.columns.len();
    let mut values: Vec<Value> = Vec::new();
    let mut i: usize = 0;
    while i < n
        invariant
            n == t.columns@.len(),
            table_wf(*t),
            i <= n,
            values@.len() == i,
            forall|j: int|
                0 <= j < i ==> crate::value::matches_type(
                    (#[trigger] values@[j])@,
                    t.columns@[j].column_type,
                ),
            forall|j: int| 0 <= j < i ==> crate::gen::value_ok((#[trigger] values@[j])@),
        decreases n - i,
    {
        let v = arbitrary_value(rng, t.columns[i].column_type);
        values.push(v);
        i += 1;
    }
    proof {
        assert(forall|j: int| 0 <= j < n ==> #[trigger] row_model(values)[j] == values@[j]@);
        assert(row_matches(row_model(values), t.columns@));
    }
    values
}

impl Query {
    /// Renders this query's SQL text.
    pub fn to_sql(&self) -> (r: Vec<u8>)
        requires
            self matches Query::Create { table } ==> table.columns@.len() >= 1,
        ensures
            r@ == query_sql(*self),
    {
        match self {
            Query::Create { table } => table.to_create_str(),
            Query::Select { table, guard } => {
                let mut out: Vec<u8> = Vec::new();
                out.extend_from_slice("SELECT * FROM ".as_bytes());
                out.extend_from_slice(table.as_slice());
                out.extend_from_slice(" WHERE ".as_bytes());
                push_pred_sql(&mut out, guard);
                proof {
                    assert(out@ =~= query_sql(*self));
                }
                out
            },
            Query::Delete { table, guard } => {
                let mut out: Vec<u8> = Vec::new();
                out.extend_from_slice("DELETE FROM ".as_bytes());
                out.extend_from_slice(table.as_slice());
                out.extend_from_slice(" WHERE ".as_bytes());
                push_pred_sql(&mut out, guard);
                proof {
                    assert(out@ =~= query_sql(*self));
                }
                out
            },
            Query::Insert { table, values } => {
                let mut out: Vec<u8> = Vec::new();
                out.extend_from_slice("INSERT INTO ".as_bytes());
                out.extend_from_slice(table.as_slice());
                out.extend_from_slice(" VALUES (".as_bytes());
                let ghost start = out@;
                let ghost rm = row_model(*values);
                let n = values.len();
                let mut i: usize = 0;
                proof {
                    assert(rm.take(0) =~= Seq::<SpecValue>::empty());
                    assert(out@ =~= start + values_sql(rm.take(0)));
                }
                while i < n
                    invariant
                        n == values@.len(),
                        rm == row_model(*values),
                        rm.len() == n,
                        i <= n,
                        out@ == start + values_sql(rm.take(i as int)),
                    decreases n - i,
                {
                    if i > 0 {
                        out.extend_from_slice(", ".as_bytes());
                    }
                    push_value_sql(&mut out, &values[i]);
                    proof {
                        let t = rm.take(i + 1);
                        assert(t.last() == rm[i as int]);
                        assert(t.drop_last() =~= rm.take(i as int));
                        assert(rm[i as int] == values@[i as int]@);
                        assert(out@ =~= start + values_sql(rm.take(i + 1)));
                    }
                    i += 1;
                }
                out.extend_from_slice(")".as_bytes());
                proof {
                    assert(rm.take(n as int) =~= rm);
                    assert(out@ =~= query_sql(*self));
                }
                out
            },
        }
    }

    /// Draws a query against `t`, weighted over 301 buckets: `Create` 1,
    /// `Select` 100, `Insert` 100, `Delete` 100.
    pub fn arbitrary_of(rng: &mut rand_chacha::ChaCha8Rng, t: &Table) -> (q: Query)
        requires
            table_wf(*t),
        ensures
            query_wf(q, *t),
    {
        let bucket = rng_index(rng, 301);
        if bucket == 0 {
            Query::Create { table: Table::arbitrary(rng) }
        } else if bucket <= 100 {
            Query::Select {
                table: t.name.clone(),
                guard: Predicate::arbitrary_of(rng, t),
            }
        } else if bucket <= 200 {
            let values = arbitrary_row(rng, t);
            Query::Insert { table: t.name.clone(), values }
        } else {
            Query::Delete {
                table: t.name.clone(),
                guard: Predicate::arbitrary_of(rng, t),
            }
        }
    }
}

} // verus!
