//! The tick loop's decisions: connection lifecycle, workload choice, table
//! creation with its DDL round-trip check, and shadowing of applied queries.
//!
//! The loop itself runs outside, against the engine; each tick it asks this
//! module what to do, performs the engine calls, and hands the results back.

use vstd::prelude::*;
use vstd::string::StringSliceAdditionalSpecFns;

use crate::query::{query_sql, query_wf, Query};
use crate::rng::{rng_index, rng_ratio};
use crate::schema::{create_sql, row_matches, table_wf, Table};
use crate::shadow::{has_table, kept_rows, table_of, tables_wf, ShadowTables};
use crate::value::{row_model, rows_model, Value};

verus! {

/// The run's dimensions, drawn once from the seeded RNG at startup.
#[derive(Debug)]
pub struct SimulatorOpts {
    pub ticks: usize,
    pub max_connections: usize,
    pub max_tables: usize,
    pub read_percent: usize,
    pub write_percent: usize,
    pub delete_percent: usize,
    pub page_size: usize,
}

impl SimulatorOpts {
    /// Draws the run's dimensions: the three workload percentages sum to
    /// 100, one connection, up to 4095 ticks and 127 tables, 4096-byte
    /// pages.
    pub fn arbitrary(rng: &mut rand_chacha::ChaCha8Rng) -> (r: SimulatorOpts)
        ensures
            r.read_percent + r.write_percent + r.delete_percent == 100,
            r.max_connections == 1,
            r.page_size == 4096,
            r.ticks < 4096,
            r.max_tables < 128,
    {
        let read_percent = rng_index(rng, 101);
        let write_percent = rng_index(rng, 101 - read_percent);
        let delete_percent = 100 - read_percent - write_percent;
        let ticks = rng_index(rng, 4096);
        let max_tables = rng_index(rng, 128);
        SimulatorOpts {
            ticks,
            max_connections: 1,
            max_tables,
            read_percent,
            write_percent,
            delete_percent,
            page_size: 4096,
        }
    }
}

/// The model of one connection slot; the engine handle itself lives outside.
#[derive(Clone, Copy, Debug, PartialEq, Eq, Structural)]
pub enum SimConnection {
    Connected,
    Disconnected,
}

/// The driver's whole state: options, the shadow tables, the connection
/// slots and the driver RNG.
pub struct SimulatorEnv {
    pub opts: SimulatorOpts,
    pub tables: ShadowTables,
    pub connections: Vec<SimConnection>,
    pub rng: rand_chacha::ChaCha8Rng,
}

/// Environment well-formedness: a well-formed shadow, one slot per allowed
/// connection, at least one slot.
pub open spec fn env_wf(env: SimulatorEnv) -> bool {
    &&& tables_wf(env.tables.tables@)
    &&& env.connections@.len() == env.opts.max_connections
    &&& env.opts.max_connections >= 1
}

impl SimulatorEnv {
    /// A fresh environment for a seeded run: no tables, all slots
    /// disconnected.
    pub fn new(opts: SimulatorOpts, rng: rand_chacha::ChaCha8Rng) -> (r: SimulatorEnv)
        requires
            opts.max_connections >= 1,
        ensures
            env_wf(r),
            r.opts == opts,
            r.tables.tables@.len() == 0,
            forall|i: int|
                0 <= i < r.connections@.len() ==> r.connections@[i] == SimConnection::Disconnected,
    {
        let n = opts.max_connections;
        let mut connections: Vec<SimConnection> = Vec::new();
        let mut i: usize = 0;
        while i < n
            invariant
                i <= n,
                connections@.len() == i,
                forall|j: int|
                    0 <= j < i ==> connections@[j] == SimConnection::Disconnected,
            decreases n - i,
        {
            connections.push(SimConnection::Disconnected);
            i += 1;
        }
        SimulatorEnv { opts, tables: ShadowTables::new(), connections, rng }
    }
}

/// What the loop outside must do for one tick.
pub enum TickAction {
    /// Open a connection and store it at the slot.
    Connect { slot: usize },
    /// Close and drop the connection at the slot.
    Disconnect { slot: usize },
    /// Issue the table's DDL, then look its stored form up and hand both to
    /// [`confirm_add_table`].
    AddTable { table: Table, ddl: Vec<u8>, lookup: Vec<u8> },
    /// Run the statement and, on success, hand the query to [`apply_query`].
    RunQuery { query: Query, sql: Vec<u8> },
    /// Nothing this tick.
    Nothing,
}

/// The statement that looks a table's stored DDL up in the schema table.
pub open spec fn schema_lookup_sql(name: Seq<u8>) -> Seq<u8> {
    "SELECT sql FROM sqlite_schema WHERE type IN ('table', 'index') AND name = '".spec_bytes()
        + name + "';".spec_bytes()
}

/// Renders [`schema_lookup_sql`].
pub fn schema_lookup(name: &Vec<u8>) -> (r: Vec<u8>)
    ensures
        r@ == schema_lookup_sql(name@),
{
    let mut out: Vec<u8> = Vec::new();
    out.extend_from_slice(
        "SELECT sql FROM sqlite_schema WHERE type IN ('table', 'index') AND name = '".as_bytes(),
    );
    out.extend_from_slice(name.as_slice());
    out.extend_from_slice("';".as_bytes());
    proof {
        assert(out@ =~= schema_lookup_sql(name@));
    }
    out
}

/// Decides one tick, mirroring the drawn branch in the environment: an
/// empty slot connects; a connected one disconnects with probability 1/100;
/// otherwise, with probability 1/100 or while no table exists, a table is
/// proposed (nothing happens when the shadow is full), else a query against
/// the first table is drawn.
pub fn plan_tick(env: &mut SimulatorEnv) -> (a: TickAction)
    requires
        env_wf(*old(env)),
    ensures
        env_wf(*final(env)),
        final(env).opts == old(env).opts,
        final(env).tables.tables@ == old(env).tables.tables@,
        match a {
            TickAction::Connect { slot } => {
                &&& slot < old(env).connections@.len()
                &&& old(env).connections@[slot as int] == SimConnection::Disconnected
                &&& final(env).connections@ == old(env).connections@.update(
                    slot as int,
                    SimConnection::Connected,
                )
            },
            TickAction::Disconnect { slot } => {
                &&& slot < old(env).connections@.len()
                &&& old(env).connections@[slot as int] == SimConnection::Connected
                &&& final(env).connections@ == old(env).connections@.update(
                    slot as int,
                    SimConnection::Disconnected,
                )
            },
            TickAction::AddTable { table, ddl, lookup } => {
                &&& final(env).connections@ == old(env).connections@
                &&& table_wf(table)
                &&& table.rows@.len() == 0
                &&& table.columns@.len() >= 1
                &&& old(env).tables.tables@.len() < old(env).opts.max_tables
                &&& ddl@ == create_sql(table.name@, table.columns@)
                &&& lookup@ == schema_lookup_sql(table.name@)
            },
            TickAction::RunQuery { query, sql } => {
                &&& final(env).connections@ == old(env).connections@
                &&& old(env).tables.tables@.len() > 0
                &&& query_wf(query, old(env).tables.tables@[0])
                &&& sql@ == query_sql(query)
            },
            TickAction::Nothing => final(env).connections@ == old(env).connections@ && old(
                env,
            ).tables.tables@.len() >= old(env).opts.max_tables,
        },
{
    let slot = rng_index(&mut env.rng, env.opts.max_connections);
    match env.connections[slot] {
        SimConnection::Disconnected => {
            env.connections.set(slot, SimConnection::Connected);
            TickAction::Connect { slot }
        },
        SimConnection::Connected => {
            if rng_ratio(&mut env.rng, 1, 100) {
                env.connections.set(slot, SimConnection::Disconnected);
                TickAction::Disconnect { slot }
            } else {
                let management = rng_ratio(&mut env.rng, 1, 100);
                if management || env.tables.tables.len() == 0 {
                    if env.tables.tables.len() < env.opts.max_tables {
                        let table = Table::arbitrary(&mut env.rng);
                        let ddl = table.to_create_str();
                        let lookup = schema_lookup(&table.name);
                        TickAction::AddTable { table, ddl, lookup }
                    } else {
                        TickAction::Nothing
                    }
                } else {
                    let query = Query::arbitrary_of(&mut env.rng, &env.tables.tables[0]);
                    let sql = query.to_sql();
                    TickAction::RunQuery { query, sql }
                }
            }
        },
    }
}

/// The DDL round-trip check: the schema lookup returned exactly one row
/// whose first value is the issued DDL as text.
pub fn ddl_round_trip_ok(expected: &Vec<u8>, rows: &Vec<Vec<Value>>) -> (r: bool)
    ensures
        r == (rows@.len() == 1 && rows@[0]@.len() >= 1 && rows@[0]@[0]@
            == crate::value::SpecValue::Text(expected@)),
{
    if rows.len() != 1 {
        return false;
    }
    let row = &rows[0];
    if row.len() < 1 {
        return false;
    }
    match &row[0] {
        Value::Text(t) => crate::value::bytes_eq(t, expected),
        _ => false,
    }
}

/// Accepts a proposed table once its DDL round-trips: exactly one schema row
/// equal to the issued DDL, and no shadow table of that name yet. Only then
/// does the table enter the shadow.
pub fn confirm_add_table(env: &mut SimulatorEnv, table: Table, returned: &Vec<Vec<Value>>) -> (ok:
    bool)
    requires
        env_wf(*old(env)),
        table_wf(table),
        table.columns@.len() >= 1,
    ensures
        env_wf(*final(env)),
        final(env).connections@ == old(env).connections@,
        final(env).opts == old(env).opts,
        ok == ((returned@.len() == 1 && returned@[0]@.len() >= 1 && returned@[0]@[0]@
            == crate::value::SpecValue::Text(create_sql(table.name@, table.columns@)))
            && !has_table(old(env).tables.tables@, table.name@)),
        ok ==> final(env).tables.tables@ == old(env).tables.tables@.push(table),
        !ok ==> final(env).tables.tables@ == old(env).tables.tables@,
{
    let ddl = table.to_create_str();
    if ddl_round_trip_ok(&ddl, returned) {
        env.tables.shadow_create(table)
    } else {
        false
    }
}

/// A query's shadow obligations are consistent with the shadow's state.
pub open spec fn query_applicable(q: Query, ts: Seq<Table>) -> bool {
    match q {
        Query::Insert { table, values } => has_table(ts, table@) ==> row_matches(
            row_model(values),
            ts[table_of(ts, table@)].columns@,
        ),
        _ => true,
    }
}

/// Shadows one successfully executed query: a created table is appended, an
/// inserted row is logged, a delete removes the rows its guard selects; a
/// select leaves the shadow unchanged.
pub fn apply_query(env: &mut SimulatorEnv, q: Query) -> (applied: bool)
    requires
        env_wf(*old(env)),
        query_applicable(q, old(env).tables.tables@),
        q matches Query::Create { table } ==> table_wf(table),
    ensures
        env_wf(*final(env)),
        final(env).connections@ == old(env).connections@,
        final(env).opts == old(env).opts,
        match q {
            Query::Create { table } => {
                &&& applied == !has_table(old(env).tables.tables@, table.name@)
                &&& (applied ==> final(env).tables.tables@ == old(env).tables.tables@.push(table))
                &&& (!applied ==> final(env).tables.tables@ == old(env).tables.tables@)
            },
            Query::Select { .. } => applied && final(env).tables.tables@
                == old(env).tables.tables@,
            Query::Insert { table, values } => {
                &&& applied == has_table(old(env).tables.tables@, table@)
                &&& (!applied ==> final(env).tables.tables@ == old(env).tables.tables@)
                &&& (applied ==> {
                    let i = table_of(old(env).tables.tables@, table@);
                    &&& final(env).tables.tables@.len() == old(env).tables.tables@.len()
                    &&& forall|j: int|
                        0 <= j < old(env).tables.tables@.len() && j != i
                            ==> final(env).tables.tables@[j] == old(env).tables.tables@[j]
                    &&& final(env).tables.tables@[i].name@ == old(env).tables.tables@[i].name@
                    &&& final(env).tables.tables@[i].columns@
                        == old(env).tables.tables@[i].columns@
                    &&& rows_model(final(env).tables.tables@[i].rows) == rows_model(
                        old(env).tables.tables@[i].rows,
                    ).push(row_model(values))
                })
            },
            Query::Delete { table, guard } => {
                &&& applied == has_table(old(env).tables.tables@, table@)
                &&& (!applied ==> final(env).tables.tables@ == old(env).tables.tables@)
                &&& (applied ==> {
                    let i = table_of(old(env).tables.tables@, table@);
                    &&& final(env).tables.tables@.len() == old(env).tables.tables@.len()
                    &&& forall|j: int|
                        0 <= j < old(env).tables.tables@.len() && j != i
                            ==> final(env).tables.tables@[j] == old(env).tables.tables@[j]
                    &&& final(env).tables.tables@[i].name@ == old(env).tables.tables@[i].name@
                    &&& final(env).tables.tables@[i].columns@
                        == old(env).tables.tables@[i].columns@
                    &&& rows_model(final(env).tables.tables@[i].rows) == kept_rows(
                        rows_model(old(env).tables.tables@[i].rows),
                        old(env).tables.tables@[i].columns@,
                        guard@,
                        false,
                    )
                })
            },
        },
{
    match q {
        Query::Create { table } => env.tables.shadow_create(table),
        Query::Select { .. } => true,
        Query::Insert { table, values } => env.tables.shadow_insert(&table, values),
        Query::Delete { table, guard } => env.tables.shadow_delete(&table, &guard),
    }
}

/// Picks a random table and renders the plain `SELECT * FROM <name>` whose
/// rows the engine must answer with the shadow's rows.
pub fn plan_full_select(env: &mut SimulatorEnv) -> (r: (usize, Vec<u8>))
    requires
        env_wf(*old(env)),
        old(env).tables.tables@.len() > 0,
    ensures
        env_wf(*final(env)),
        final(env).tables.tables@ == old(env).tables.tables@,
        final(env).connections@ == old(env).connections@,
        final(env).opts == old(env).opts,
        r.0 < old(env).tables.tables@.len(),
        r.1@ == "SELECT * FROM ".spec_bytes() + old(env).tables.tables@[r.0 as int].name@,
{
    let idx = rng_index(&mut env.rng, env.tables.tables.len());
    let mut sql: Vec<u8> = Vec::new();
    sql.extend_from_slice("SELECT * FROM ".as_bytes());
    sql.extend_from_slice(env.tables.tables[idx].name.as_slice());
    proof {
        assert(sql@ =~= "SELECT * FROM ".spec_bytes() + env.tables.tables@[idx as int].name@);
    }
    (idx, sql)
}

/// The comparison behind a full select: the engine's rows equal the shadow's
/// rows, value by value, in order.
pub fn check_full_select(env: &SimulatorEnv, idx: usize, got: &Vec<Vec<Value>>) -> (r: bool)
    requires
        idx < env.tables.tables@.len(),
    ensures
        r == (rows_model(*got) == rows_model(env.tables.tables@[idx as int].rows)),
{
    crate::shadow::compare_equal_rows(got, &env.tables.tables[idx].rows)
}

/// Picks a random table and draws an insert against it: the row, already
/// fitting the schema, goes to [`apply_query`] once the engine accepts the
/// statement.
pub fn plan_insert(env: &mut SimulatorEnv) -> (r: (Query, Vec<u8>))
    requires
        env_wf(*old(env)),
        old(env).tables.tables@.len() > 0,
    ensures
        env_wf(*final(env)),
        final(env).tables.tables@ == old(env).tables.tables@,
        final(env).connections@ == old(env).connections@,
        final(env).opts == old(env).opts,
        r.0 matches Query::Insert { .. },
        exists|i: int|
            0 <= i < old(env).tables.tables@.len() && #[trigger] query_wf(
                r.0,
                old(env).tables.tables@[i],
            ),
        r.1@ == query_sql(r.0),
{
    let idx = rng_index(&mut env.rng, env.tables.tables.len());
    let table = &env.tables.tables[idx];
    let values = crate::query::arbitrary_row(&mut env.rng, table);
    let q = Query::Insert { table: table.name.clone(), values };
    let sql = q.to_sql();
    proof {
        assert(env.tables.tables@ == old(env).tables.tables@);
        assert(query_wf(q, old(env).tables.tables@[idx as int]));
    }
    (q, sql)
}

/// The row stream's per-step fault-injection draw: 1 in 10000.
pub fn stream_fault_decision(rng: &mut rand_chacha::ChaCha8Rng) -> bool {
    rng_ratio(rng, 1, 10000)
}

/// A generation context for code paths that are never meant to generate
/// anything: the surrounding program aborts if it is ever consulted.
#[derive(Clone, Copy, Debug)]
pub struct PanicGenerationContext;

} // verus!
