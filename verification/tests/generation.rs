use rand::SeedableRng;
use rand_chacha::ChaCha8Rng;

use sqlsim::driver::{
    confirm_add_table, plan_full_select, plan_insert, check_full_select, apply_query,
    SimConnection, SimulatorEnv, SimulatorOpts, TickAction,
};
use sqlsim::gen::{arbitrary_value, gen_random_text};
use sqlsim::query::Query;
use sqlsim::schema::{gen_columns, gen_random_name, ident_safe_check, Table};
use sqlsim::value::{ColumnType, Value};

#[test]
fn generated_names_are_identifier_safe() {
    let mut rng = ChaCha8Rng::seed_from_u64(1);
    for _ in 0..200 {
        let name = gen_random_name(&mut rng);
        assert!(ident_safe_check(&name));
        assert!(!name.is_empty());
        assert!(name
            .iter()
            .all(|c| c.is_ascii_lowercase() || c.is_ascii_digit() || *c == b'_'));
        assert!(!name[0].is_ascii_digit());
    }
}

#[test]
fn generated_text_is_printable_and_quote_free() {
    let mut rng = ChaCha8Rng::seed_from_u64(2);
    for _ in 0..200 {
        let text = gen_random_text(&mut rng);
        assert!(!text.is_empty());
        assert!(text.iter().all(|c| (32..=126).contains(c) && *c != b'\''));
    }
}

#[test]
fn generated_columns_have_distinct_names() {
    let mut rng = ChaCha8Rng::seed_from_u64(3);
    for _ in 0..10 {
        let cols = gen_columns(&mut rng);
        assert!((1..=127).contains(&cols.len()));
        for i in 0..cols.len() {
            for j in i + 1..cols.len() {
                assert_ne!(cols[i].name, cols[j].name);
            }
        }
    }
}

#[test]
fn arbitrary_values_match_their_type() {
    let mut rng = ChaCha8Rng::seed_from_u64(5);
    for _ in 0..500 {
        match arbitrary_value(&mut rng, ColumnType::Integer) {
            Value::Integer(_) => {},
            other => panic!("wrong kind: {:?}", other),
        }
        match arbitrary_value(&mut rng, ColumnType::Float) {
            Value::Float(i) => {
                assert!((-10_000_000_000..=10_000_000_000).contains(&i));
                let f = i as f64;
                assert!((-1e10..=1e10).contains(&f));
            },
            other => panic!("wrong kind: {:?}", other),
        }
    }
    // Texts and blobs can draw the rare huge overflow-page block, so only a
    // few are sampled here.
    let mut rng = ChaCha8Rng::seed_from_u64(6);
    for _ in 0..20 {
        match arbitrary_value(&mut rng, ColumnType::Text) {
            Value::Text(b) => assert!(!b.is_empty()),
            other => panic!("wrong kind: {:?}", other),
        }
        match arbitrary_value(&mut rng, ColumnType::Blob) {
            Value::Blob(b) => assert!(!b.is_empty()),
            other => panic!("wrong kind: {:?}", other),
        }
    }
}

#[test]
fn opts_percentages_sum_to_one_hundred() {
    for seed in 0..50 {
        let mut rng = ChaCha8Rng::seed_from_u64(seed);
        let opts = SimulatorOpts::arbitrary(&mut rng);
        assert_eq!(opts.read_percent + opts.write_percent + opts.delete_percent, 100);
        assert_eq!(opts.max_connections, 1);
        assert_eq!(opts.page_size, 4096);
        assert!(opts.ticks < 4096);
        assert!(opts.max_tables < 128);
    }
}

fn fixed_opts(ticks: usize, max_tables: usize) -> SimulatorOpts {
    SimulatorOpts {
        ticks,
        max_connections: 1,
        max_tables,
        read_percent: 50,
        write_percent: 30,
        delete_percent: 20,
        page_size: 4096,
    }
}

#[test]
fn s1_empty_run() {
    // Zero ticks: the loop body never runs, no table is ever created.
    let rng = ChaCha8Rng::seed_from_u64(1);
    let env = SimulatorEnv::new(fixed_opts(0, 0), rng);
    for _ in 0..env.opts.ticks {
        unreachable!();
    }
    assert!(env.tables.tables.is_empty());
    assert_eq!(env.connections, vec![SimConnection::Disconnected]);
}

#[test]
fn s2_single_create() {
    let rng = ChaCha8Rng::seed_from_u64(2);
    let mut env = SimulatorEnv::new(fixed_opts(1, 1), rng);
    // First tick: the only slot is empty, so it connects.
    match sqlsim::driver::plan_tick(&mut env) {
        TickAction::Connect { slot } => assert_eq!(slot, 0),
        _ => panic!("first tick must connect"),
    }
    assert_eq!(env.connections, vec![SimConnection::Connected]);
    // Second tick: no tables yet, so a table is proposed; once its DDL
    // round-trips, exactly one table exists.
    match sqlsim::driver::plan_tick(&mut env) {
        TickAction::AddTable { table, ddl, lookup } => {
            assert!(String::from_utf8(lookup).unwrap().starts_with("SELECT sql FROM sqlite_schema"));
            let returned = vec![vec![Value::Text(ddl.clone())]];
            assert!(confirm_add_table(&mut env, table, &returned));
        },
        _ => panic!("second tick must propose a table"),
    }
    assert_eq!(env.tables.tables.len(), 1);
}

#[test]
fn apply_query_keeps_shadow_in_step() {
    let rng = ChaCha8Rng::seed_from_u64(9);
    let mut env = SimulatorEnv::new(fixed_opts(10, 10), rng);
    let t = Table {
        rows: vec![],
        name: b"t".to_vec(),
        columns: vec![sqlsim::schema::Column {
            name: b"x".to_vec(),
            column_type: ColumnType::Integer,
            primary: false,
            unique: false,
        }],
    };
    assert!(apply_query(&mut env, Query::Create { table: t }));
    assert!(apply_query(
        &mut env,
        Query::Insert { table: b"t".to_vec(), values: vec![Value::Integer(7)] }
    ));
    assert!(apply_query(
        &mut env,
        Query::Insert { table: b"t".to_vec(), values: vec![Value::Integer(9)] }
    ));
    let (idx, sql) = plan_full_select(&mut env);
    assert_eq!(sql, b"SELECT * FROM t".to_vec());
    let engine_rows = vec![vec![Value::Integer(7)], vec![Value::Integer(9)]];
    assert!(check_full_select(&env, idx, &engine_rows));
    let fewer = vec![vec![Value::Integer(7)]];
    assert!(!check_full_select(&env, idx, &fewer));
    // A delete removes what its guard selects.
    assert!(apply_query(
        &mut env,
        Query::Delete {
            table: b"t".to_vec(),
            guard: sqlsim::predicate::Predicate::Gt(b"x".to_vec(), Value::Integer(8)),
        }
    ));
    assert_eq!(env.tables.tables[0].rows, vec![vec![Value::Integer(7)]]);
}

#[test]
fn planned_insert_is_well_formed() {
    let rng = ChaCha8Rng::seed_from_u64(13);
    let mut env = SimulatorEnv::new(fixed_opts(10, 10), rng);
    let t = Table {
        rows: vec![],
        name: b"w".to_vec(),
        columns: vec![sqlsim::schema::Column {
            name: b"x".to_vec(),
            column_type: ColumnType::Integer,
            primary: false,
            unique: false,
        }],
    };
    assert!(apply_query(&mut env, Query::Create { table: t }));
    let (q, sql) = plan_insert(&mut env);
    let text = String::from_utf8(sql).unwrap();
    assert!(text.starts_with("INSERT INTO w VALUES ("));
    assert!(apply_query(&mut env, q));
    assert_eq!(env.tables.tables[0].rows.len(), 1);
}

#[test]
fn seed_determinism_of_generation() {
    // The same seed yields the same tables, the same plans and the same
    // statement text, draw for draw.
    let small = Table {
        rows: vec![vec![Value::Integer(3)]],
        name: b"d".to_vec(),
        columns: vec![sqlsim::schema::Column {
            name: b"x".to_vec(),
            column_type: ColumnType::Integer,
            primary: false,
            unique: false,
        }],
    };
    for seed in [0u64, 1, 17, 123456789] {
        let mut a = ChaCha8Rng::seed_from_u64(seed);
        let mut b = ChaCha8Rng::seed_from_u64(seed);
        let ta = Table::arbitrary(&mut a);
        let tb = Table::arbitrary(&mut b);
        assert_eq!(ta.name, tb.name);
        assert_eq!(ta.to_create_str(), tb.to_create_str());
        assert_eq!(gen_random_name(&mut a), gen_random_name(&mut b));
        for _ in 0..20 {
            let qa = Query::arbitrary_of(&mut a, &small);
            let qb = Query::arbitrary_of(&mut b, &small);
            assert_eq!(qa.to_sql(), qb.to_sql());
        }
    }
}

#[test]
fn arbitrary_query_addresses_the_table() {
    let mut rng = ChaCha8Rng::seed_from_u64(21);
    let t = Table {
        rows: vec![vec![Value::Integer(1)], vec![Value::Integer(2)]],
        name: b"q".to_vec(),
        columns: vec![sqlsim::schema::Column {
            name: b"x".to_vec(),
            column_type: ColumnType::Integer,
            primary: false,
            unique: false,
        }],
    };
    let mut seen_select = false;
    let mut seen_insert = false;
    let mut seen_delete = false;
    for _ in 0..200 {
        match Query::arbitrary_of(&mut rng, &t) {
            Query::Create { table } => assert!(!table.columns.is_empty()),
            Query::Select { table, .. } => {
                assert_eq!(table, b"q".to_vec());
                seen_select = true;
            },
            Query::Insert { table, values } => {
                assert_eq!(table, b"q".to_vec());
                assert_eq!(values.len(), 1);
                seen_insert = true;
            },
            Query::Delete { table, .. } => {
                assert_eq!(table, b"q".to_vec());
                seen_delete = true;
            },
        }
    }
    assert!(seen_select && seen_insert && seen_delete);
}
