use rand::SeedableRng;
use rand_chacha::ChaCha8Rng;

use sqlsim::driver::ddl_round_trip_ok;
use sqlsim::gen::{strictly_greater, strictly_less};
use sqlsim::iostate::{FileStats, IoState};
use sqlsim::predicate::{compound_predicate, eval_predicate, Predicate};
use sqlsim::query::Query;
use sqlsim::schema::{Column, Table};
use sqlsim::shadow::{compare_equal_rows, ShadowTables};
use sqlsim::sql::push_value_sql;
use sqlsim::value::{value_lt, ColumnType, Value};

fn int_table(name: &str, col: &str, ints: &[i64]) -> Table {
    Table {
        rows: ints.iter().map(|i| vec![Value::Integer(*i)]).collect(),
        name: name.as_bytes().to_vec(),
        columns: vec![Column {
            name: col.as_bytes().to_vec(),
            column_type: ColumnType::Integer,
            primary: false,
            unique: false,
        }],
    }
}

#[test]
fn value_sql_literals() {
    let mut out = Vec::new();
    push_value_sql(&mut out, &Value::Null);
    assert_eq!(out, b"NULL".to_vec());

    let mut out = Vec::new();
    push_value_sql(&mut out, &Value::Integer(-5));
    assert_eq!(out, b"-5".to_vec());

    let mut out = Vec::new();
    push_value_sql(&mut out, &Value::Integer(i64::MIN));
    assert_eq!(out, b"-9223372036854775808".to_vec());

    let mut out = Vec::new();
    push_value_sql(&mut out, &Value::Float(100));
    assert_eq!(out, b"100".to_vec());

    let mut out = Vec::new();
    push_value_sql(&mut out, &Value::Text(b"hello".to_vec()));
    assert_eq!(out, b"'hello'".to_vec());

    let mut out = Vec::new();
    push_value_sql(&mut out, &Value::Blob(vec![0x0A, 0xFF, 0x00]));
    assert_eq!(out, b"X'0AFF00'".to_vec());
}

#[test]
fn create_table_sql() {
    let t = Table {
        rows: vec![],
        name: b"t".to_vec(),
        columns: vec![
            Column {
                name: b"x".to_vec(),
                column_type: ColumnType::Integer,
                primary: false,
                unique: false,
            },
            Column {
                name: b"y".to_vec(),
                column_type: ColumnType::Text,
                primary: false,
                unique: false,
            },
        ],
    };
    assert_eq!(t.to_create_str(), b"CREATE TABLE t (x INTEGER,y TEXT);".to_vec());
}

#[test]
fn insert_sql_single_value() {
    let q = Query::Insert { table: b"t".to_vec(), values: vec![Value::Integer(7)] };
    assert_eq!(q.to_sql(), b"INSERT INTO t VALUES (7)".to_vec());
}

#[test]
fn select_sql_with_guard() {
    let q = Query::Select {
        table: b"t".to_vec(),
        guard: Predicate::And(vec![
            Predicate::Eq(b"x".to_vec(), Value::Integer(1)),
            Predicate::Gt(b"y".to_vec(), Value::Integer(2)),
        ]),
    };
    assert_eq!(q.to_sql(), b"SELECT * FROM t WHERE (x = 1 AND y > 2)".to_vec());
}

#[test]
fn delete_sql_with_or_guard() {
    let q = Query::Delete {
        table: b"t".to_vec(),
        guard: Predicate::Or(vec![
            Predicate::Lt(b"x".to_vec(), Value::Integer(3)),
            Predicate::Eq(b"x".to_vec(), Value::Text(b"abc".to_vec())),
        ]),
    };
    assert_eq!(q.to_sql(), b"DELETE FROM t WHERE (x < 3 OR x = 'abc')".to_vec());
}

#[test]
fn value_equality_is_structural() {
    assert_eq!(Value::Integer(3), Value::Integer(3));
    assert_ne!(Value::Integer(3), Value::Float(3));
    assert_ne!(Value::Null, Value::Integer(0));
    assert_eq!(Value::Text(b"a".to_vec()), Value::Text(b"a".to_vec()));
    assert_ne!(Value::Text(b"a".to_vec()), Value::Text(b"b".to_vec()));
}

#[test]
fn value_order_within_kind() {
    assert!(value_lt(&Value::Integer(1), &Value::Integer(2)));
    assert!(!value_lt(&Value::Integer(2), &Value::Integer(2)));
    assert!(value_lt(&Value::Text(b"ab".to_vec()), &Value::Text(b"b".to_vec())));
    assert!(value_lt(&Value::Text(b"a".to_vec()), &Value::Text(b"ab".to_vec())));
    assert!(value_lt(&Value::Blob(vec![1]), &Value::Blob(vec![1, 0])));
    // Different kinds are never ordered.
    assert!(!value_lt(&Value::Integer(1), &Value::Float(2)));
    assert!(!value_lt(&Value::Null, &Value::Integer(1)));
}

#[test]
fn s4_value_ordering() {
    // Integer: strictly_less(100) stays below 100 across many draws.
    let mut rng = ChaCha8Rng::seed_from_u64(4);
    let v = Value::Integer(100);
    for _ in 0..10_000 {
        match strictly_less(&mut rng, &v) {
            Value::Integer(i) => assert!(i < 100),
            other => panic!("wrong kind: {:?}", other),
        }
    }
    // Real: strictly_greater(0.0) is above 0.0.
    let zero = Value::Float(0);
    for _ in 0..10_000 {
        match strictly_greater(&mut rng, &zero) {
            Value::Float(i) => {
                assert!(i > 0);
                assert!((i as f64) > 0.0);
            },
            other => panic!("wrong kind: {:?}", other),
        }
    }
}

#[test]
fn strict_order_on_text_values() {
    let mut rng = ChaCha8Rng::seed_from_u64(11);
    let v = Value::Text(b"hello_world".to_vec());
    for _ in 0..2_000 {
        let lo = strictly_less(&mut rng, &v);
        assert!(value_lt(&lo, &v));
        if let Value::Text(b) = &lo {
            assert!(std::str::from_utf8(b).is_ok());
            assert!(b.iter().all(|c| (32..=126).contains(c) && *c != b'\''));
        } else {
            panic!("wrong kind");
        }
        let hi = strictly_greater(&mut rng, &v);
        assert!(value_lt(&v, &hi));
    }
}

#[test]
fn strict_order_on_blob_values() {
    let mut rng = ChaCha8Rng::seed_from_u64(12);
    let v = Value::Blob(vec![9, 0, 255]);
    for _ in 0..2_000 {
        let lo = strictly_less(&mut rng, &v);
        assert!(value_lt(&lo, &v));
        let hi = strictly_greater(&mut rng, &v);
        assert!(value_lt(&v, &hi));
    }
}

#[test]
fn s3_predicate_truth() {
    // Rows with distinct values: under some fixed seed the compound builder
    // with want=true yields a predicate true on every row.
    let t = int_table("t", "x", &[1, 2, 3]);
    let mut found = None;
    for seed in 0..64 {
        let mut rng = ChaCha8Rng::seed_from_u64(seed);
        let p = compound_predicate(&mut rng, &t, true);
        if t.rows.iter().all(|r| eval_predicate(&p, &t.columns, r)) {
            found = Some(seed);
            break;
        }
    }
    assert!(found.is_some());
}

#[test]
fn predicate_truth_on_equal_rows() {
    // On a table whose rows are all equal the guarantee is unconditional.
    let t = int_table("t", "x", &[5, 5, 5]);
    for seed in 0..64 {
        let mut rng = ChaCha8Rng::seed_from_u64(seed);
        let p = compound_predicate(&mut rng, &t, true);
        for r in &t.rows {
            assert!(eval_predicate(&p, &t.columns, r));
        }
        let q = compound_predicate(&mut rng, &t, false);
        for r in &t.rows {
            assert!(!eval_predicate(&q, &t.columns, r));
        }
    }
}

#[test]
fn predicate_truth_on_single_row() {
    let t = int_table("u", "y", &[42]);
    for seed in 0..64 {
        let mut rng = ChaCha8Rng::seed_from_u64(seed);
        let p = compound_predicate(&mut rng, &t, true);
        assert!(eval_predicate(&p, &t.columns, &t.rows[0]));
        let q = compound_predicate(&mut rng, &t, false);
        assert!(!eval_predicate(&q, &t.columns, &t.rows[0]));
    }
}

#[test]
fn ddl_round_trip_check() {
    let ddl = b"CREATE TABLE t (x INTEGER);".to_vec();
    let good = vec![vec![Value::Text(ddl.clone())]];
    assert!(ddl_round_trip_ok(&ddl, &good));
    // Wrong text.
    let bad = vec![vec![Value::Text(b"CREATE TABLE t (y INTEGER);".to_vec())]];
    assert!(!ddl_round_trip_ok(&ddl, &bad));
    // Wrong row count.
    assert!(!ddl_round_trip_ok(&ddl, &vec![]));
    let two = vec![vec![Value::Text(ddl.clone())], vec![Value::Text(ddl.clone())]];
    assert!(!ddl_round_trip_ok(&ddl, &two));
    // Wrong kind.
    let kind = vec![vec![Value::Integer(1)]];
    assert!(!ddl_round_trip_ok(&ddl, &kind));
}

#[test]
fn s6_insert_shadow() {
    let mut shadow = ShadowTables::new();
    let t = int_table("t", "x", &[]);
    assert!(shadow.shadow_create(t));
    assert!(shadow.shadow_insert(&b"t".to_vec(), vec![Value::Integer(7)]));
    let engine_rows = vec![vec![Value::Integer(7)]];
    assert!(compare_equal_rows(&engine_rows, &shadow.tables[0].rows));
}

#[test]
fn shadow_create_rejects_duplicate() {
    let mut shadow = ShadowTables::new();
    assert!(shadow.shadow_create(int_table("t", "x", &[])));
    assert!(!shadow.shadow_create(int_table("t", "y", &[])));
    assert_eq!(shadow.tables.len(), 1);
}

#[test]
fn shadow_insert_requires_table() {
    let mut shadow = ShadowTables::new();
    assert!(!shadow.shadow_insert(&b"missing".to_vec(), vec![Value::Integer(1)]));
}

#[test]
fn shadow_delete_and_select_by_predicate() {
    let mut shadow = ShadowTables::new();
    assert!(shadow.shadow_create(int_table("t", "x", &[1, 2, 3, 4])));
    let gt2 = Predicate::Gt(b"x".to_vec(), Value::Integer(2));
    let selected = shadow.shadow_select(&b"t".to_vec(), &gt2).unwrap();
    assert_eq!(selected, vec![vec![Value::Integer(3)], vec![Value::Integer(4)]]);
    assert!(shadow.shadow_delete(&b"t".to_vec(), &gt2));
    assert_eq!(
        shadow.tables[0].rows,
        vec![vec![Value::Integer(1)], vec![Value::Integer(2)]]
    );
    assert!(shadow.shadow_select(&b"missing".to_vec(), &gt2).is_none());
    assert!(!shadow.shadow_delete(&b"missing".to_vec(), &gt2));
}

#[test]
fn s5_fault_injection() {
    let mut f = FileStats::new();
    f.inject_fault(true);
    let injected = f.record_pread();
    assert!(injected);
    assert_eq!(f.pread_faults, 1);
    assert_eq!(f.reads, 0);
    f.inject_fault(false);
    assert!(!f.record_pread());
    assert_eq!(f.pread_faults, 1);
    assert_eq!(f.reads, 1);
}

#[test]
fn fault_accounting_over_attempts() {
    // Faults plus successes equals attempts, for reads and writes alike.
    let mut f = FileStats::new();
    let mut attempts = 0u64;
    for i in 0..1000u64 {
        f.inject_fault(i % 3 == 0);
        f.record_pread();
        f.record_pwrite();
        attempts += 1;
    }
    assert_eq!(f.pread_faults + f.reads, attempts);
    assert_eq!(f.pwrite_faults + f.writes, attempts);
    f.record_sync();
    assert_eq!(f.syncs, 1);
}

#[test]
fn file_stats_line() {
    let f = FileStats::new();
    assert_eq!(
        f.stats_line(),
        b"pread faults: 0, pwrite faults: 0, reads: 0, writes: 0, syncs: 0".to_vec()
    );
}

#[test]
fn io_state_frozen_clock_and_gate() {
    let mut io = IoState::new(7, 4096);
    assert_eq!(io.get_current_time(), "2024-01-01 00:00:00");
    assert!(!io.run_once_gate());
    assert_eq!(io.run_once_faults, 0);
    io.inject_fault(true);
    assert!(io.run_once_gate());
    assert_eq!(io.run_once_faults, 1);
    assert_eq!(io.stats_line(), b"run_once faults: 1".to_vec());
    // The dedicated RNG is deterministic per seed.
    let mut a = IoState::new(42, 4096);
    let mut b = IoState::new(42, 4096);
    assert_eq!(a.generate_random_number(), b.generate_random_number());
}
