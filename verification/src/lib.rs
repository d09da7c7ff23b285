//! Incremental replication client core: a durable sync state machine that
//! keeps "sync everything" and "sync selected scopes" mutually exclusive, a
//! compiler that turns abstract change records into parameterized SQL while
//! rejecting unsafe identifiers, and an applier that advances watermarks and
//! applies a batch of changes as one atomic unit.

pub mod argument_parser;
pub mod compile;
pub mod config;
pub mod errors;
pub mod ident;
pub mod kv;
pub mod scalar;
pub mod storage;
pub mod store;
pub mod sync_requests;
