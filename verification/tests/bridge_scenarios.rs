//! Boundary scenarios against the real engine: handle lifecycles, local
//! databases, transactions, cursors, and failure surfacing.

use libsql_bridge::bridge::Bridge;
use libsql_bridge::codec::{decode_row, encode_params};
use libsql_bridge::error::ErrorKind;
use libsql_bridge::values::{ParamSet, Scalar};

fn scalar_eq(a: &Scalar, b: &Scalar) -> bool {
    match (a, b) {
        (Scalar::Null, Scalar::Null) => true,
        (Scalar::Integer(x), Scalar::Integer(y)) => x == y,
        (Scalar::Real(x), Scalar::Real(y)) => x == y,
        (Scalar::Text(x), Scalar::Text(y)) => x == y,
        (Scalar::Blob(x), Scalar::Blob(y)) => x == y,
        _ => false,
    }
}

fn no_params() -> Vec<u8> {
    encode_params(&ParamSet::Absent)
}

/// Open a fresh in-memory database with one connected session.
fn fresh_connection(b: &mut Bridge) -> (u64, u64) {
    let db = b.open_local(":memory:").expect("open local database");
    assert_ne!(db, 0);
    let conn = b.connect(db).expect("connect");
    assert_ne!(conn, 0);
    (db, conn)
}

#[test]
fn local_create_insert_query() {
    // Open a local database at a fresh path, create a table, insert one
    // row without parameters, and read it back: one row [1, "a"], then
    // the no-more-rows signal.
    let mut b = Bridge::new().expect("bridge");
    let (db, conn) = fresh_connection(&mut b);
    b.execute(conn, "CREATE TABLE t(id INTEGER, name TEXT)", &no_params()).expect("create");
    let affected = b.execute(conn, "INSERT INTO t VALUES (1, 'a')", &no_params()).expect("insert");
    assert_eq!(affected, 1);
    let cur = b.query(conn, "SELECT id, name FROM t", &no_params()).expect("query");
    let row = b.next_row(cur).expect("advance").expect("one row");
    let values = decode_row(&row).expect("row must decode");
    assert_eq!(values.len(), 2);
    assert!(scalar_eq(&values[0], &Scalar::Integer(1)));
    assert!(scalar_eq(&values[1], &Scalar::Text(b"a".to_vec())));
    assert!(b.next_row(cur).expect("advance past end").is_none());
    b.close(cur).expect("close cursor");
    b.close(conn).expect("close connection");
    b.close(db).expect("close database");
}

#[test]
fn named_parameters_insert() {
    // Insert through a named parameter set, then confirm two rows total.
    let mut b = Bridge::new().expect("bridge");
    let (_db, conn) = fresh_connection(&mut b);
    b.execute(conn, "CREATE TABLE t(id INTEGER, name TEXT)", &no_params()).expect("create");
    b.execute(conn, "INSERT INTO t VALUES (1, 'a')", &no_params()).expect("first insert");
    let named = encode_params(&ParamSet::Named(vec![
        (b":id".to_vec(), Scalar::Integer(2)),
        (b":name".to_vec(), Scalar::Text(b"b".to_vec())),
    ]));
    let affected = b.execute(conn, "INSERT INTO t VALUES (:id, :name)", &named).expect("insert");
    assert_eq!(affected, 1);
    let cur = b.query(conn, "SELECT COUNT(*) FROM t", &no_params()).expect("count");
    let row = b.next_row(cur).expect("advance").expect("count row");
    let values = decode_row(&row).expect("row must decode");
    assert!(scalar_eq(&values[0], &Scalar::Integer(2)));
}

#[test]
fn positional_parameters_and_value_kinds() {
    // Every scalar kind survives the trip into the engine and back out.
    let mut b = Bridge::new().expect("bridge");
    let (_db, conn) = fresh_connection(&mut b);
    b.execute(conn, "CREATE TABLE v(a INTEGER, r REAL, t TEXT, bl BLOB, n TEXT)", &no_params())
        .expect("create");
    let bits = 2.5f64.to_bits();
    let positional = encode_params(&ParamSet::Positional(vec![
        Scalar::Integer(-42),
        Scalar::Real(bits),
        Scalar::Text("grüße".as_bytes().to_vec()),
        Scalar::Blob(vec![0, 1, 2, 255]),
        Scalar::Null,
    ]));
    let affected = b.execute(conn, "INSERT INTO v VALUES (?, ?, ?, ?, ?)", &positional)
        .expect("insert");
    assert_eq!(affected, 1);
    let cur = b.query(conn, "SELECT a, r, t, bl, n FROM v", &no_params()).expect("query");
    let row = b.next_row(cur).expect("advance").expect("one row");
    let values = decode_row(&row).expect("row must decode");
    assert!(scalar_eq(&values[0], &Scalar::Integer(-42)));
    assert!(scalar_eq(&values[1], &Scalar::Real(bits)));
    assert!(scalar_eq(&values[2], &Scalar::Text("grüße".as_bytes().to_vec())));
    assert!(scalar_eq(&values[3], &Scalar::Blob(vec![0, 1, 2, 255])));
    assert!(scalar_eq(&values[4], &Scalar::Null));
    assert!(b.next_row(cur).expect("advance past end").is_none());
}

#[test]
fn drain_yields_each_row_once_in_order() {
    // A query over N rows yields exactly N row messages, in the
    // statement's order, then one no-more-rows signal.
    let mut b = Bridge::new().expect("bridge");
    let (_db, conn) = fresh_connection(&mut b);
    b.execute(conn, "CREATE TABLE t(id INTEGER)", &no_params()).expect("create");
    for i in 1..=3i64 {
        let p = encode_params(&ParamSet::Positional(vec![Scalar::Integer(i)]));
        b.execute(conn, "INSERT INTO t VALUES (?)", &p).expect("insert");
    }
    let cur = b.query(conn, "SELECT id FROM t ORDER BY id", &no_params()).expect("query");
    let mut seen: Vec<i64> = Vec::new();
    while let Some(bytes) = b.next_row(cur).expect("advance") {
        let values = decode_row(&bytes).expect("row must decode");
        assert_eq!(values.len(), 1);
        match values[0] {
            Scalar::Integer(v) => seen.push(v),
            _ => panic!("integer expected"),
        }
    }
    assert_eq!(seen, vec![1, 2, 3]);
}

#[test]
fn execute_reports_affected_row_count() {
    // An update touching K rows reports exactly K.
    let mut b = Bridge::new().expect("bridge");
    let (_db, conn) = fresh_connection(&mut b);
    b.execute(conn, "CREATE TABLE t(id INTEGER)", &no_params()).expect("create");
    for i in 1..=5i64 {
        let p = encode_params(&ParamSet::Positional(vec![Scalar::Integer(i)]));
        b.execute(conn, "INSERT INTO t VALUES (?)", &p).expect("insert");
    }
    let affected = b.execute(conn, "UPDATE t SET id = id + 10 WHERE id <= 2", &no_params())
        .expect("update");
    assert_eq!(affected, 2);
    let affected = b.execute(conn, "DELETE FROM t", &no_params()).expect("delete");
    assert_eq!(affected, 5);
}

#[test]
fn rollback_discards_the_insert() {
    // Begin a transaction, insert inside it, roll back: the insert does
    // not persist.
    let mut b = Bridge::new().expect("bridge");
    let (_db, conn) = fresh_connection(&mut b);
    b.execute(conn, "CREATE TABLE t(id INTEGER)", &no_params()).expect("create");
    let tx = b.begin_transaction(conn).expect("begin");
    let affected = b.execute(tx, "INSERT INTO t VALUES (7)", &no_params()).expect("insert in tx");
    assert_eq!(affected, 1);
    b.rollback(tx).expect("rollback");
    // Rolling back consumed the handle: it is dead afterwards.
    let err = b.execute(tx, "SELECT 1", &no_params()).expect_err("consumed handle");
    assert_eq!(err.kind, ErrorKind::Protocol);
    let cur = b.query(conn, "SELECT COUNT(*) FROM t", &no_params()).expect("count");
    let row = b.next_row(cur).expect("advance").expect("count row");
    let values = decode_row(&row).expect("row must decode");
    assert!(scalar_eq(&values[0], &Scalar::Integer(0)));
}

#[test]
fn commit_keeps_the_insert() {
    let mut b = Bridge::new().expect("bridge");
    let (_db, conn) = fresh_connection(&mut b);
    b.execute(conn, "CREATE TABLE t(id INTEGER)", &no_params()).expect("create");
    let tx = b.begin_transaction(conn).expect("begin");
    b.execute(tx, "INSERT INTO t VALUES (7)", &no_params()).expect("insert in tx");
    b.commit(tx).expect("commit");
    // Committing consumed the handle: it is dead afterwards.
    let err = b.execute(tx, "SELECT 1", &no_params()).expect_err("consumed handle");
    assert_eq!(err.kind, ErrorKind::Protocol);
    let cur = b.query(conn, "SELECT COUNT(*) FROM t", &no_params()).expect("count");
    let row = b.next_row(cur).expect("advance").expect("count row");
    let values = decode_row(&row).expect("row must decode");
    assert!(scalar_eq(&values[0], &Scalar::Integer(1)));
}

#[test]
fn queries_run_inside_a_transaction() {
    let mut b = Bridge::new().expect("bridge");
    let (_db, conn) = fresh_connection(&mut b);
    b.execute(conn, "CREATE TABLE t(id INTEGER)", &no_params()).expect("create");
    let tx = b.begin_transaction(conn).expect("begin");
    b.execute(tx, "INSERT INTO t VALUES (1)", &no_params()).expect("insert in tx");
    let cur = b.query(tx, "SELECT id FROM t", &no_params()).expect("query in tx");
    let row = b.next_row(cur).expect("advance").expect("row");
    let values = decode_row(&row).expect("row must decode");
    assert!(scalar_eq(&values[0], &Scalar::Integer(1)));
    b.close(cur).expect("close cursor");
    b.commit(tx).expect("commit");
}

#[test]
fn execute_batch_runs_several_statements() {
    let mut b = Bridge::new().expect("bridge");
    let (_db, conn) = fresh_connection(&mut b);
    b.execute_batch(conn, "CREATE TABLE t(id INTEGER); INSERT INTO t VALUES (1); INSERT INTO t VALUES (2);")
        .expect("batch");
    let cur = b.query(conn, "SELECT COUNT(*) FROM t", &no_params()).expect("count");
    let row = b.next_row(cur).expect("advance").expect("count row");
    let values = decode_row(&row).expect("row must decode");
    assert!(scalar_eq(&values[0], &Scalar::Integer(2)));
}

#[test]
fn stale_handle_is_refused() {
    // Closing a handle kills it: a later call through it is answered
    // with a protocol error and changes nothing.
    let mut b = Bridge::new().expect("bridge");
    let (db, conn) = fresh_connection(&mut b);
    b.close(conn).expect("close connection");
    let err = b.execute(conn, "SELECT 1", &no_params()).expect_err("stale handle");
    assert_eq!(err.kind, ErrorKind::Protocol);
    assert!(!err.message.is_empty());
    let err = b.close(conn).expect_err("second close");
    assert_eq!(err.kind, ErrorKind::Protocol);
    // The database handle is untouched by all of that.
    let conn2 = b.connect(db).expect("connect again");
    assert_ne!(conn2, 0);
}

#[test]
fn mistyped_handle_is_refused() {
    let mut b = Bridge::new().expect("bridge");
    let (db, conn) = fresh_connection(&mut b);
    let err = b.execute(db, "SELECT 1", &no_params()).expect_err("database is not a session");
    assert_eq!(err.kind, ErrorKind::Protocol);
    let err = b.connect(conn).expect_err("connection is not a database");
    assert_eq!(err.kind, ErrorKind::Protocol);
    let err = b.commit(conn).expect_err("connection is not a transaction");
    assert_eq!(err.kind, ErrorKind::Protocol);
    let err = b.next_row(conn).expect_err("connection is not a cursor");
    assert_eq!(err.kind, ErrorKind::Protocol);
}

#[test]
fn zero_is_never_a_valid_handle() {
    let mut b = Bridge::new().expect("bridge");
    let err = b.close(0).expect_err("null sentinel");
    assert_eq!(err.kind, ErrorKind::Protocol);
}

#[test]
fn malformed_parameter_buffer_is_a_decoding_error() {
    let mut b = Bridge::new().expect("bridge");
    let (_db, conn) = fresh_connection(&mut b);
    let err = b.execute(conn, "SELECT 1", &[0x2A, 0x00]).expect_err("bad buffer");
    assert_eq!(err.kind, ErrorKind::ArgumentDecoding);
}

#[test]
fn invalid_utf8_text_parameter_is_a_decoding_error() {
    // The text scalar's bytes are not valid UTF-8, so the conversion into
    // the engine's string value must refuse them.
    let mut b = Bridge::new().expect("bridge");
    let (_db, conn) = fresh_connection(&mut b);
    b.execute(conn, "CREATE TABLE t(x TEXT)", &no_params()).expect("create");
    let bad = encode_params(&ParamSet::Positional(vec![Scalar::Text(vec![0xFF, 0xFE])]));
    let err = b.execute(conn, "INSERT INTO t VALUES (?)", &bad).expect_err("bad text");
    assert_eq!(err.kind, ErrorKind::ArgumentDecoding);
}

#[test]
fn invalid_utf8_parameter_name_is_a_decoding_error() {
    let mut b = Bridge::new().expect("bridge");
    let (_db, conn) = fresh_connection(&mut b);
    let bad = encode_params(&ParamSet::Named(vec![(vec![0xC0], Scalar::Integer(1))]));
    let err = b.execute(conn, "SELECT 1", &bad).expect_err("bad name");
    assert_eq!(err.kind, ErrorKind::ArgumentDecoding);
}

#[test]
fn sql_failure_is_an_operation_error_and_keeps_the_handle() {
    // A failing statement surfaces as an operation error; the connection
    // stays usable for the identical call pattern afterwards.
    let mut b = Bridge::new().expect("bridge");
    let (_db, conn) = fresh_connection(&mut b);
    let err = b.execute(conn, "NOT REALLY SQL", &no_params()).expect_err("syntax error");
    assert_eq!(err.kind, ErrorKind::Operation);
    assert!(!err.message.is_empty());
    b.execute(conn, "CREATE TABLE t(id INTEGER)", &no_params()).expect("still usable");
}

#[test]
fn construction_failure_yields_error_and_no_handle() {
    // An embedded replica must reach its sync source while opening; an
    // unreachable one surfaces as a construction error, and no database
    // handle exists that a connection could be obtained from.
    let mut b = Bridge::new().expect("bridge");
    let err = b
        .open_embedded_replica(
            "/tmp/libsql_bridge_replica_test.db",
            "http://127.0.0.1:1".to_owned(),
            String::new(),
        )
        .expect_err("unreachable sync source");
    assert_eq!(err.kind, ErrorKind::Construction);
}

#[test]
fn remote_database_with_unreachable_url_fails_on_use() {
    // The engine builds a remote client lazily, so the open itself
    // returns a handle; the first statement over the unreachable
    // transport fails as an operation error, and every handle stays
    // managed by the registry.
    let mut b = Bridge::new().expect("bridge");
    let db = b.open_remote("http://127.0.0.1:1".to_owned(), String::new()).expect("lazy open");
    let conn = b.connect(db).expect("lazy connect");
    let err = b.execute(conn, "SELECT 1", &no_params()).expect_err("unreachable host");
    assert_eq!(err.kind, ErrorKind::Operation);
    b.close(conn).expect("close connection");
    b.close(db).expect("close database");
}

#[test]
fn nested_begin_is_the_engines_decision() {
    // The boundary accepts "begin transaction" on a transaction handle;
    // this engine refuses to nest and the refusal surfaces as an error,
    // with the outer transaction left usable. Savepoints, if the engine
    // ever grows them, would arrive through the same call.
    let mut b = Bridge::new().expect("bridge");
    let (_db, conn) = fresh_connection(&mut b);
    b.execute(conn, "CREATE TABLE t(id INTEGER)", &no_params()).expect("create");
    let outer = b.begin_transaction(conn).expect("outer");
    b.execute(outer, "INSERT INTO t VALUES (1)", &no_params()).expect("outer insert");
    let err = b.begin_transaction(outer).expect_err("engine refuses nesting");
    assert_eq!(err.kind, ErrorKind::Construction);
    b.execute(outer, "SAVEPOINT s1", &no_params()).expect("savepoint inside tx");
    b.execute(outer, "INSERT INTO t VALUES (2)", &no_params()).expect("insert after savepoint");
    b.execute(outer, "ROLLBACK TO s1", &no_params()).expect("rollback to savepoint");
    b.commit(outer).expect("commit outer");
    let cur = b.query(conn, "SELECT COUNT(*) FROM t", &no_params()).expect("count");
    let row = b.next_row(cur).expect("advance").expect("count row");
    let values = decode_row(&row).expect("row must decode");
    assert!(scalar_eq(&values[0], &Scalar::Integer(1)));
}

#[test]
fn sync_is_refused_on_a_plain_local_database() {
    let mut b = Bridge::new().expect("bridge");
    let (db, _conn) = fresh_connection(&mut b);
    let err = b.sync(db).expect_err("no sync source");
    assert_eq!(err.kind, ErrorKind::Operation);
}

#[test]
fn handles_stay_independent() {
    // Two databases, two sessions: closing one chain leaves the other
    // untouched.
    let mut b = Bridge::new().expect("bridge");
    let (db1, conn1) = fresh_connection(&mut b);
    let (_db2, conn2) = fresh_connection(&mut b);
    b.execute(conn2, "CREATE TABLE u(x INTEGER)", &no_params()).expect("create on second");
    b.close(conn1).expect("close first connection");
    b.close(db1).expect("close first database");
    b.execute(conn2, "INSERT INTO u VALUES (1)", &no_params()).expect("second still usable");
    // A slot may be reused, but never under a handle that was closed.
    let (_db3, conn3) = fresh_connection(&mut b);
    assert_ne!(conn3, conn1);
    let err = b.execute(conn1, "SELECT 1", &no_params()).expect_err("old handle stays dead");
    assert_eq!(err.kind, ErrorKind::Protocol);
}
