//! Trusted declarations for the engine and the executor.
//!
//! Everything the bridge takes on faith stands here: the opaque engine
//! types and one thin wrapper per outside call. Each wrapper's body only
//! makes the call and converts values one for one; its contract states no
//! more than the engine's own source and documentation show. In
//! particular, no wrapper promises that an engine operation succeeds:
//! whether a statement runs, a row arrives or a remote answers is the
//! engine's decision, and the verified callers state what holds of the
//! bridge whatever came back.

use vstd::prelude::*;

use crate::values::{scalar_text_ok, Scalar};

verus! {

#[verifier::external_type_specification]
#[verifier::external_body]
pub struct ExRuntime(tokio::runtime::Runtime);

#[verifier::external_type_specification]
#[verifier::external_body]
pub struct ExEngineValue(libsql::Value);

#[verifier::external_type_specification]
#[verifier::external_body]
pub struct ExEngineParams(libsql::params::Params);

#[verifier::external_type_specification]
#[verifier::external_body]
pub struct ExDatabase(libsql::Database);

#[verifier::external_type_specification]
#[verifier::external_body]
pub struct ExConnection(libsql::Connection);

#[verifier::external_type_specification]
#[verifier::external_body]
pub struct ExTransaction(libsql::Transaction);

#[verifier::external_type_specification]
#[verifier::external_body]
pub struct ExRows(libsql::Rows);

#[verifier::external_type_specification]
#[verifier::external_body]
pub struct ExRow(libsql::Row);

/// Relies on tokio's Runtime::new: builds the blocking executor that every
/// boundary call schedules its engine operation on.
#[verifier::external_body]
pub(crate) fn runtime_new() -> (r: Result<tokio::runtime::Runtime, String>) {
    match tokio::runtime::Runtime::new() {
        Ok(rt) => Ok(rt),
        Err(e) => Err(e.to_string()),
    }
}

/// Relies on String::from_utf8, which succeeds exactly on valid UTF-8 and
/// keeps the bytes, to restore a text scalar, and on bytes::Buf::get_f64_le,
/// which reads an IEEE 754 double out of its eight little-endian bytes, to
/// restore a real from its bit pattern.
#[verifier::external_body]
pub(crate) fn scalar_to_engine(v: &Scalar) -> (r: Option<libsql::Value>)
    ensures
        r is Some <==> scalar_text_ok(v@),
{
    Some(match v {
        Scalar::Null => libsql::Value::Null,
        Scalar::Integer(i) => libsql::Value::Integer(*i),
        Scalar::Real(bits) => libsql::Value::Real(
            bytes::Buf::get_f64_le(&mut &bits.to_le_bytes()[..]),
        ),
        Scalar::Text(b) => match String::from_utf8(b.clone()) {
            Ok(s) => libsql::Value::Text(s),
            Err(_) => return None,
        },
        Scalar::Blob(b) => libsql::Value::Blob(b.clone()),
    })
}

/// Relies on bytes::BufMut::put_f64_le and bytes::Buf::get_u64_le, which
/// write an IEEE 754 double as its eight little-endian bytes and read those
/// bytes back as an integer, to capture a real's bit pattern, and on
/// String::into_bytes, which hands back a string's UTF-8 bytes.
#[verifier::external_body]
pub(crate) fn scalar_from_engine(v: libsql::Value) -> Scalar {
    match v {
        libsql::Value::Null => Scalar::Null,
        libsql::Value::Integer(i) => Scalar::Integer(i),
        libsql::Value::Real(r) => {
            let mut b: Vec<u8> = Vec::new();
            bytes::BufMut::put_f64_le(&mut b, r);
            let mut rest: &[u8] = &b;
            Scalar::Real(bytes::Buf::get_u64_le(&mut rest))
        },
        libsql::Value::Text(s) => Scalar::Text(s.into_bytes()),
        libsql::Value::Blob(b) => Scalar::Blob(b),
    }
}

/// Relies on String::from_utf8, which succeeds exactly on valid UTF-8 and
/// keeps the bytes: a parameter name crosses into the engine as a string.
#[verifier::external_body]
pub(crate) fn key_to_string(k: &Vec<u8>) -> (r: Option<String>)
    ensures
        r is Some <==> vstd::utf8::valid_utf8(k@),
{
    match String::from_utf8(k.clone()) {
        Ok(s) => Some(s),
        Err(_) => None,
    }
}

/// Builds the engine's empty parameter set.
#[verifier::external_body]
pub(crate) fn engine_params_none() -> libsql::params::Params {
    libsql::params::Params::None
}

/// Builds the engine's positional parameter set.
#[verifier::external_body]
pub(crate) fn engine_params_positional(values: Vec<libsql::Value>) -> libsql::params::Params {
    libsql::params::Params::Positional(values)
}

/// Builds the engine's named parameter set.
#[verifier::external_body]
pub(crate) fn engine_params_named(
    entries: Vec<(String, libsql::Value)>,
) -> libsql::params::Params {
    libsql::params::Params::Named(entries)
}

/// Relies on libsql's Builder::new_local(path).build(): opens or creates a
/// local database file.
#[verifier::external_body]
pub(crate) fn engine_open_local(
    rt: &tokio::runtime::Runtime,
    path: &str,
) -> (r: Result<libsql::Database, String>) {
    match rt.block_on(libsql::Builder::new_local(path).build()) {
        Ok(db) => Ok(db),
        Err(e) => Err(e.to_string()),
    }
}

/// Relies on libsql's Builder::new_remote(url, token).connector(..).build():
/// a remote database client over an HTTPS transport trusting the
/// web-standard root store (hyper_rustls with webpki roots).
#[verifier::external_body]
pub(crate) fn engine_open_remote(
    rt: &tokio::runtime::Runtime,
    url: String,
    auth_token: String,
) -> (r: Result<libsql::Database, String>) {
    let connector = hyper_rustls::HttpsConnectorBuilder::new()
        .with_webpki_roots()
        .https_or_http()
        .enable_http1()
        .build();
    match rt.block_on(libsql::Builder::new_remote(url, auth_token).connector(connector).build()) {
        Ok(db) => Ok(db),
        Err(e) => Err(e.to_string()),
    }
}

/// Relies on libsql's Builder::new_remote_replica(path, url, token): a
/// local file paired with a remote sync source, over the same HTTPS
/// transport as the remote case.
#[verifier::external_body]
pub(crate) fn engine_open_replica(
    rt: &tokio::runtime::Runtime,
    path: &str,
    url: String,
    auth_token: String,
) -> (r: Result<libsql::Database, String>) {
    let connector = hyper_rustls::HttpsConnectorBuilder::new()
        .with_webpki_roots()
        .https_or_http()
        .enable_http1()
        .build();
    let builder = libsql::Builder::new_remote_replica(path, url, auth_token).connector(connector);
    match rt.block_on(builder.build()) {
        Ok(db) => Ok(db),
        Err(e) => Err(e.to_string()),
    }
}

/// Relies on libsql's Database::connect: produces a new session on the
/// database without consuming or altering the database value.
#[verifier::external_body]
pub(crate) fn engine_connect(db: &libsql::Database) -> (r: Result<libsql::Connection, String>) {
    match db.connect() {
        Ok(conn) => Ok(conn),
        Err(e) => Err(e.to_string()),
    }
}

/// Relies on libsql's Database::sync: pulls remote changes into the local
/// file of an embedded replica; fails on a database without a sync source.
#[verifier::external_body]
pub(crate) fn engine_sync(
    rt: &tokio::runtime::Runtime,
    db: &libsql::Database,
) -> (r: Result<(), String>) {
    match rt.block_on(db.sync()) {
        Ok(_) => Ok(()),
        Err(e) => Err(e.to_string()),
    }
}

/// Relies on libsql's Connection::execute: runs one statement and returns
/// the number of rows it affected.
#[verifier::external_body]
pub(crate) fn engine_execute(
    rt: &tokio::runtime::Runtime,
    conn: &libsql::Connection,
    sql: &str,
    params: libsql::params::Params,
) -> (r: Result<u64, String>) {
    match rt.block_on(conn.execute(sql, params)) {
        Ok(n) => Ok(n),
        Err(e) => Err(e.to_string()),
    }
}

/// Relies on libsql's Connection::query: runs one statement and returns
/// its result stream.
#[verifier::external_body]
pub(crate) fn engine_query(
    rt: &tokio::runtime::Runtime,
    conn: &libsql::Connection,
    sql: &str,
    params: libsql::params::Params,
) -> (r: Result<libsql::Rows, String>) {
    match rt.block_on(conn.query(sql, params)) {
        Ok(rows) => Ok(rows),
        Err(e) => Err(e.to_string()),
    }
}

/// Relies on libsql's Connection::execute_batch: runs several statements;
/// any result rows the batch produces are discarded.
#[verifier::external_body]
pub(crate) fn engine_execute_batch(
    rt: &tokio::runtime::Runtime,
    conn: &libsql::Connection,
    sql: &str,
) -> (r: Result<(), String>) {
    match rt.block_on(conn.execute_batch(sql)) {
        Ok(_) => Ok(()),
        Err(e) => Err(e.to_string()),
    }
}

/// Relies on libsql's Connection::transaction: begins a transaction (a
/// savepoint when nested) on the session.
#[verifier::external_body]
pub(crate) fn engine_transaction(
    rt: &tokio::runtime::Runtime,
    conn: &libsql::Connection,
) -> (r: Result<libsql::Transaction, String>) {
    match rt.block_on(conn.transaction()) {
        Ok(tx) => Ok(tx),
        Err(e) => Err(e.to_string()),
    }
}

/// Relies on libsql's Deref impl for Transaction: a transaction exposes
/// the connection it runs on.
#[verifier::external_body]
pub(crate) fn engine_tx_conn(tx: &libsql::Transaction) -> &libsql::Connection {
    tx
}

/// Relies on libsql's Transaction::commit, which consumes the transaction
/// whatever the outcome.
#[verifier::external_body]
pub(crate) fn engine_commit(
    rt: &tokio::runtime::Runtime,
    tx: libsql::Transaction,
) -> (r: Result<(), String>) {
    match rt.block_on(tx.commit()) {
        Ok(_) => Ok(()),
        Err(e) => Err(e.to_string()),
    }
}

/// Relies on libsql's Transaction::rollback, which consumes the
/// transaction whatever the outcome.
#[verifier::external_body]
pub(crate) fn engine_rollback(
    rt: &tokio::runtime::Runtime,
    tx: libsql::Transaction,
) -> (r: Result<(), String>) {
    match rt.block_on(tx.rollback()) {
        Ok(_) => Ok(()),
        Err(e) => Err(e.to_string()),
    }
}

/// Relies on libsql's Rows::next: either the next row of the stream, or
/// None once the stream is exhausted, advancing the stream by one row.
#[verifier::external_body]
pub(crate) fn engine_rows_next(
    rt: &tokio::runtime::Runtime,
    rows: &mut libsql::Rows,
) -> (r: Result<Option<libsql::Row>, String>) {
    match rt.block_on(rows.next()) {
        Ok(row) => Ok(row),
        Err(e) => Err(e.to_string()),
    }
}

/// Relies on libsql's Rows::column_count: how many columns each row of
/// this stream carries.
#[verifier::external_body]
pub(crate) fn engine_column_count(rows: &libsql::Rows) -> i32 {
    rows.column_count()
}

/// Relies on libsql's Row::get_value: the value in one column of a
/// fetched row.
#[verifier::external_body]
pub(crate) fn engine_row_value(
    row: &libsql::Row,
    idx: i32,
) -> (r: Result<libsql::Value, String>) {
    match row.get_value(idx) {
        Ok(v) => Ok(v),
        Err(e) => Err(e.to_string()),
    }
}

} // verus!
