//! A synchronous, handle-based bridge over the asynchronous libsql client.
//!
//! A managed host runtime drives the engine through flat boundary calls:
//! opaque integer handles stand for databases, connections, transactions and
//! row cursors, query parameters and result rows cross the boundary in a
//! small binary wire format, and every call blocks until the underlying
//! asynchronous engine operation resolves.

pub mod bridge;
pub mod codec;
pub mod engine;
pub mod error;
pub mod values;
pub mod wire;
