//! Core of a deterministic, randomized simulator for stress-testing an
//! embedded SQL engine.
//!
//! The library holds the verified logic: the typed value model and its total
//! order, reproducible generation of schemas, values, predicates and queries,
//! the shadow copy of every table, and the accounting of the fault-injecting
//! I/O layer. The unverifiable rim — the engine itself, the host I/O and the
//! process scaffolding — lives outside and talks to this crate in plain
//! values.

pub mod driver;
pub mod gen;
pub mod iostate;
pub mod predicate;
pub mod query;
pub mod rng;
pub mod schema;
pub mod shadow;
pub mod sql;
pub mod value;
