//! The trusted boundary to the relational store.
//!
//! Everything the library knows about the durable state is expressed through
//! content names over one connection — for each sync-state table, the rows
//! the connection's statements see (`all_marks` and friends) and the rows
//! durably committed (`committed_all_marks` and friends) — plus whether a
//! transaction is open, and a small set of wrappers, one per statement the
//! library issues. Each wrapper states over those names exactly what its
//! statement does: outside a transaction a statement commits immediately
//! (the two layers coincide), inside one it changes only what the
//! connection sees, and `ROLLBACK` discards the pending changes. The store
//! is assumed single-writer: one sync agent operates against a connection
//! at a time, so two reads of an unchanged connection see the same
//! contents. The schema is assumed trigger-free, as the provisioning
//! collaborator defines it.

use vstd::prelude::*;
use vstd::multiset::Multiset;
use crate::compile::safe_statement;
use crate::scalar::SqlParam;
use crate::sync_requests::{School, Term};

verus! {

#[verifier::external_type_specification]
#[verifier::external_body]
pub struct ExConnection(rusqlite::Connection);

#[verifier::external_type_specification]
#[verifier::external_body]
pub struct ExRusqliteError(rusqlite::Error);

/// What the global watermark history table holds: one sequence per row.
pub uninterp spec fn all_marks(c: rusqlite::Connection) -> Multiset<u64>;

/// What the registered-scope table holds: one (school, optional term) row
/// per registration.
pub uninterp spec fn scope_rows(c: rusqlite::Connection) -> Multiset<(Seq<char>, Option<Seq<char>>)>;

/// What the per-school watermark history table holds.
pub uninterp spec fn school_marks(c: rusqlite::Connection) -> Multiset<(Seq<char>, u64)>;

/// What the per-term watermark history table holds.
pub uninterp spec fn term_marks(c: rusqlite::Connection) -> Multiset<(Seq<char>, Seq<char>, u64)>;

/// The durably committed rows of the global watermark history table.
pub uninterp spec fn committed_all_marks(c: rusqlite::Connection) -> Multiset<u64>;

/// The durably committed rows of the registered-scope table.
pub uninterp spec fn committed_scope_rows(c: rusqlite::Connection) -> Multiset<
    (Seq<char>, Option<Seq<char>>),
>;

/// The durably committed rows of the per-school watermark history table.
pub uninterp spec fn committed_school_marks(c: rusqlite::Connection) -> Multiset<(Seq<char>, u64)>;

/// The durably committed rows of the per-term watermark history table.
pub uninterp spec fn committed_term_marks(c: rusqlite::Connection) -> Multiset<
    (Seq<char>, Seq<char>, u64),
>;

/// Whether the connection has a transaction open.
pub uninterp spec fn tx_open(c: rusqlite::Connection) -> bool;

/// The two connections see the same sync state.
pub open spec fn same_contents(a: rusqlite::Connection, b: rusqlite::Connection) -> bool {
    &&& all_marks(a) == all_marks(b)
    &&& scope_rows(a) == scope_rows(b)
    &&& school_marks(a) == school_marks(b)
    &&& term_marks(a) == term_marks(b)
}

/// The two connections hold the same durably committed sync state.
pub open spec fn same_committed(a: rusqlite::Connection, b: rusqlite::Connection) -> bool {
    &&& committed_all_marks(a) == committed_all_marks(b)
    &&& committed_scope_rows(a) == committed_scope_rows(b)
    &&& committed_school_marks(a) == committed_school_marks(b)
    &&& committed_term_marks(a) == committed_term_marks(b)
}

/// What the connection sees is durably committed, table for table — the
/// state of a connection with no transaction open.
pub open spec fn committed_matches(c: rusqlite::Connection) -> bool {
    &&& committed_all_marks(c) == all_marks(c)
    &&& committed_scope_rows(c) == scope_rows(c)
    &&& committed_school_marks(c) == school_marks(c)
    &&& committed_term_marks(c) == term_marks(c)
}

/// The view of one scope row as read from the store.
pub open spec fn scope_row_view(p: (String, Option<String>)) -> (Seq<char>, Option<Seq<char>>) {
    (
        p.0@,
        match p.1 {
            Some(t) => Some(t@),
            None => None,
        },
    )
}

/// Relies on rusqlite's `Connection::query_row` running `SELECT EXISTS` over
/// the global watermark table: true exactly when the table has a row.
#[verifier::external_body]
pub(crate) fn has_all_rows(c: &rusqlite::Connection) -> (r: Result<bool, rusqlite::Error>)
    ensures
        r matches Ok(b) ==> b == !all_marks(*c).is_empty(),
{
    c.query_row(
        "SELECT EXISTS (SELECT 1 FROM _previous_all_collections);",
        (),
        |row| row.get(0),
    )
}

/// Relies on rusqlite's `Connection::query_row` running `SELECT EXISTS` over
/// the registered-scope table: true exactly when any scope is registered.
#[verifier::external_body]
pub(crate) fn has_scope_rows(c: &rusqlite::Connection) -> (r: Result<bool, rusqlite::Error>)
    ensures
        r matches Ok(b) ==> b == !scope_rows(*c).is_empty(),
{
    c.query_row(
        "SELECT EXISTS (SELECT 1 FROM _school_strategies);",
        (),
        |row| row.get(0),
    )
}

/// Relies on rusqlite's `Statement::query_map`: a plain `SELECT` returns the
/// global watermark rows, in some unspecified order.
#[verifier::external_body]
pub(crate) fn read_all_marks(c: &rusqlite::Connection) -> (r: Result<Vec<u64>, rusqlite::Error>)
    ensures
        r matches Ok(v) ==> v@.to_multiset() == all_marks(*c),
{
    let mut stmt = c.prepare("SELECT synced_at FROM _previous_all_collections;")?;
    let rows = stmt.query_map((), |row| row.get(0))?;
    rows.collect()
}

/// Relies on rusqlite's `Statement::query_map`: a plain `SELECT` returns the
/// registered-scope rows, in some unspecified order.
#[verifier::external_body]
pub(crate) fn read_scope_rows(c: &rusqlite::Connection) -> (r: Result<
    Vec<(String, Option<String>)>,
    rusqlite::Error,
>)
    ensures
        r matches Ok(v) ==> v@.map_values(|p: (String, Option<String>)| scope_row_view(
            p,
        )).to_multiset() == scope_rows(*c),
{
    let mut stmt = c.prepare("SELECT school_id, term_collection_id FROM _school_strategies;")?;
    let rows = stmt.query_map((), |row| Ok((row.get(0)?, row.get(1)?)))?;
    rows.collect()
}

/// Relies on rusqlite's `Statement::query_map`: a plain `SELECT` returns the
/// per-school watermark rows, in some unspecified order.
#[verifier::external_body]
pub(crate) fn read_school_marks(c: &rusqlite::Connection) -> (r: Result<
    Vec<(String, u64)>,
    rusqlite::Error,
>)
    ensures
        r matches Ok(v) ==> v@.map_values(|p: (String, u64)| (p.0@, p.1)).to_multiset()
            == school_marks(*c),
{
    let mut stmt = c.prepare("SELECT school_id, synced_at FROM _previous_school_collections;")?;
    let rows = stmt.query_map((), |row| Ok((row.get(0)?, row.get(1)?)))?;
    rows.collect()
}

/// Relies on rusqlite's `Statement::query_map`: a plain `SELECT` returns the
/// per-term watermark rows, in some unspecified order.
#[verifier::external_body]
pub(crate) fn read_term_marks(c: &rusqlite::Connection) -> (r: Result<
    Vec<(String, String, u64)>,
    rusqlite::Error,
>)
    ensures
        r matches Ok(v) ==> v@.map_values(|p: (String, String, u64)| (p.0@, p.1@, p.2))
            .to_multiset() == term_marks(*c),
{
    let mut stmt = c.prepare(
        "SELECT school_id, term_collection_id, synced_at FROM _previous_term_collections;",
    )?;
    let rows = stmt.query_map((), |row| Ok((row.get(0)?, row.get(1)?, row.get(2)?)))?;
    rows.collect()
}

/// Relies on rusqlite's `Connection::execute_batch` running `BEGIN`: opening
/// a transaction changes nothing this connection sees, commits nothing, and
/// on success leaves a transaction open; a failed `BEGIN` (one is already
/// open) changes nothing.
#[verifier::external_body]
pub(crate) fn begin(c: &mut rusqlite::Connection) -> (r: Result<(), rusqlite::Error>)
    ensures
        same_contents(*old(c), *final(c)),
        same_committed(*old(c), *final(c)),
        r is Ok ==> tx_open(*final(c)),
        r is Err ==> tx_open(*final(c)) == tx_open(*old(c)),
{
    c.execute_batch("BEGIN;")
}

/// Relies on rusqlite's `Connection::execute_batch` running `COMMIT`: a
/// successful commit keeps everything this connection already saw, makes it
/// durable, and closes the transaction; a failed commit makes nothing
/// durable.
#[verifier::external_body]
pub(crate) fn commit(c: &mut rusqlite::Connection) -> (r: Result<(), rusqlite::Error>)
    ensures
        r is Ok ==> same_contents(*old(c), *final(c)) && !tx_open(*final(c)) && committed_matches(
            *final(c),
        ),
        r is Err ==> same_committed(*old(c), *final(c)),
{
    c.execute_batch("COMMIT;")
}

/// Relies on rusqlite's `Connection::execute_batch` running `ROLLBACK`: the
/// pending changes of an open transaction are discarded and the transaction
/// ends, so the connection is back to the durably committed contents; when
/// no transaction is open the statement fails having changed nothing, and
/// the connection already sees the committed contents. Either way, nothing
/// becomes or stops being durable, no transaction remains open, and what
/// the connection sees is the committed state.
#[verifier::external_body]
pub(crate) fn rollback(c: &mut rusqlite::Connection) -> (r: Result<(), rusqlite::Error>)
    ensures
        committed_all_marks(*final(c)) == committed_all_marks(*old(c)),
        committed_scope_rows(*final(c)) == committed_scope_rows(*old(c)),
        committed_school_marks(*final(c)) == committed_school_marks(*old(c)),
        committed_term_marks(*final(c)) == committed_term_marks(*old(c)),
        !tx_open(*final(c)),
        committed_matches(*final(c)),
{
    c.execute_batch("ROLLBACK;")
}

/// Relies on rusqlite's `Connection::execute_batch` running `ROLLBACK`, as
/// above, ignoring the failure that means no transaction was open: used to
/// bring a connection of unknown state to a settled one.
#[verifier::external_body]
pub(crate) fn clear_transaction(c: &mut rusqlite::Connection)
    ensures
        same_committed(*old(c), *final(c)),
        !tx_open(*final(c)),
        committed_matches(*final(c)),
{
    let _ = c.execute_batch("ROLLBACK;");
}

/// Relies on rusqlite's `Connection::execute`: a single `INSERT` into the
/// global watermark table adds exactly that row and touches no other
/// sync-state table. A failed statement commits nothing; outside a
/// transaction it also changes nothing (inside one, a failing statement may
/// trigger the automatic rollback the database documents, so nothing is
/// claimed then of what the connection sees).
#[verifier::external_body]
pub(crate) fn insert_all_mark(c: &mut rusqlite::Connection, seq: u64) -> (r: Result<
    (),
    rusqlite::Error,
>)
    ensures
        r is Ok ==> all_marks(*final(c)) == all_marks(*old(c)).insert(seq) && scope_rows(*final(c))
            == scope_rows(*old(c)) && school_marks(*final(c)) == school_marks(*old(c)) && term_marks(
            *final(c),
        ) == term_marks(*old(c)),
        r is Err && !tx_open(*old(c)) ==> same_contents(*old(c), *final(c)),
        r is Ok ==> tx_open(*final(c)) == tx_open(*old(c)),
        r is Err && !tx_open(*old(c)) ==> tx_open(*final(c)) == tx_open(*old(c)),
        tx_open(*old(c)) ==> same_committed(*old(c), *final(c)),
        !tx_open(*old(c)) ==> committed_matches(*final(c)),
{
    let n = c.execute("INSERT INTO _previous_all_collections (synced_at) VALUES (?);", (seq,))?;
    let _ = n;
    Ok(())
}

/// Relies on rusqlite's `Connection::execute`: a single `INSERT` into the
/// registered-scope table adds exactly that row (a `NULL` term for a
/// whole-school scope) and touches no other sync-state table; a failed
/// statement changes nothing.
#[verifier::external_body]
pub(crate) fn insert_scope_row(
    c: &mut rusqlite::Connection,
    school: &String,
    term: &Option<String>,
) -> (r: Result<(), rusqlite::Error>)
    ensures
        r is Ok ==> scope_rows(*final(c)) == scope_rows(*old(c)).insert(
            scope_row_view((*school, *term)),
        ) && all_marks(*final(c)) == all_marks(*old(c)) && school_marks(*final(c)) == school_marks(
            *old(c),
        ) && term_marks(*final(c)) == term_marks(*old(c)),
        r is Err && !tx_open(*old(c)) ==> same_contents(*old(c), *final(c)),
        r is Ok ==> tx_open(*final(c)) == tx_open(*old(c)),
        r is Err && !tx_open(*old(c)) ==> tx_open(*final(c)) == tx_open(*old(c)),
        tx_open(*old(c)) ==> same_committed(*old(c), *final(c)),
        !tx_open(*old(c)) ==> committed_matches(*final(c)),
{
    let n = c.execute(
        "INSERT INTO _school_strategies (school_id, term_collection_id) VALUES (?, ?);",
        (school, term),
    )?;
    let _ = n;
    Ok(())
}

/// Relies on rusqlite's `Connection::execute`: a single `INSERT` into the
/// per-school watermark table adds exactly that row and touches no other
/// sync-state table. A failed statement commits nothing; outside a
/// transaction it also changes nothing (inside one, a failing statement may
/// trigger the automatic rollback the database documents, so nothing is
/// claimed then of what the connection sees).
#[verifier::external_body]
pub(crate) fn insert_school_mark(
    c: &mut rusqlite::Connection,
    school: &String,
    seq: u64,
) -> (r: Result<(), rusqlite::Error>)
    ensures
        r is Ok ==> school_marks(*final(c)) == school_marks(*old(c)).insert((school@, seq))
            && all_marks(*final(c)) == all_marks(*old(c)) && scope_rows(*final(c)) == scope_rows(
            *old(c),
        ) && term_marks(*final(c)) == term_marks(*old(c)),
        r is Err && !tx_open(*old(c)) ==> same_contents(*old(c), *final(c)),
        r is Ok ==> tx_open(*final(c)) == tx_open(*old(c)),
        r is Err && !tx_open(*old(c)) ==> tx_open(*final(c)) == tx_open(*old(c)),
        tx_open(*old(c)) ==> same_committed(*old(c), *final(c)),
        !tx_open(*old(c)) ==> committed_matches(*final(c)),
{
    let n = c.execute(
        "INSERT INTO _previous_school_collections (synced_at, school_id) VALUES (?, ?);",
        (seq, school),
    )?;
    let _ = n;
    Ok(())
}

/// Relies on rusqlite's `Connection::execute`: a single `INSERT` into the
/// per-term watermark table adds exactly that row and touches no other
/// sync-state table. A failed statement commits nothing; outside a
/// transaction it also changes nothing (inside one, a failing statement may
/// trigger the automatic rollback the database documents, so nothing is
/// claimed then of what the connection sees).
#[verifier::external_body]
pub(crate) fn insert_term_mark(
    c: &mut rusqlite::Connection,
    school: &String,
    term: &String,
    seq: u64,
) -> (r: Result<(), rusqlite::Error>)
    ensures
        r is Ok ==> term_marks(*final(c)) == term_marks(*old(c)).insert((school@, term@, seq))
            && all_marks(*final(c)) == all_marks(*old(c)) && scope_rows(*final(c)) == scope_rows(
            *old(c),
        ) && school_marks(*final(c)) == school_marks(*old(c)),
        r is Err && !tx_open(*old(c)) ==> same_contents(*old(c), *final(c)),
        r is Ok ==> tx_open(*final(c)) == tx_open(*old(c)),
        r is Err && !tx_open(*old(c)) ==> tx_open(*final(c)) == tx_open(*old(c)),
        tx_open(*old(c)) ==> same_committed(*old(c), *final(c)),
        !tx_open(*old(c)) ==> committed_matches(*final(c)),
{
    let n = c.execute(
        "INSERT INTO _previous_term_collections (synced_at, school_id, term_collection_id) VALUES (?, ?, ?);",
        (seq, school, term),
    )?;
    let _ = n;
    Ok(())
}

/// Converts one already-collapsed parameter into the driver's value type; a
/// real is passed through as the driver value it already carries.
#[verifier::external_body]
fn sql_value_of(p: &SqlParam) -> rusqlite::types::Value {
    match p {
        SqlParam::Null => rusqlite::types::Value::Null,
        SqlParam::Integer(i) => rusqlite::types::Value::Integer(*i),
        SqlParam::Real(v) => v.clone(),
        SqlParam::Text(t) => rusqlite::types::Value::Text(t.clone()),
    }
}

/// Relies on rusqlite's `Connection::prepare_cached` and
/// `Statement::execute` (prepared statements are cached keyed by the
/// statement text): runs one statement compiled from an allow-listed change
/// record, with every value bound as a positional parameter, and returns the
/// affected row count. Binding parameters never alters statement text, and a
/// successful single statement against an allow-listed data table (the
/// schema has no triggers) leaves every sync-state table unchanged; a failed
/// one commits nothing (inside a transaction, a failing statement may
/// trigger the automatic rollback the database documents, so nothing is
/// claimed then of what the connection sees).
#[verifier::external_body]
pub(crate) fn exec_record_sql(
    c: &mut rusqlite::Connection,
    sql: &String,
    params: &Vec<SqlParam>,
) -> (r: Result<usize, rusqlite::Error>)
    requires
        safe_statement(sql@),
    ensures
        r is Ok ==> same_contents(*old(c), *final(c)),
        r is Err && !tx_open(*old(c)) ==> same_contents(*old(c), *final(c)),
        r is Ok ==> tx_open(*final(c)) == tx_open(*old(c)),
        r is Err && !tx_open(*old(c)) ==> tx_open(*final(c)) == tx_open(*old(c)),
        tx_open(*old(c)) ==> same_committed(*old(c), *final(c)),
        !tx_open(*old(c)) ==> committed_matches(*final(c)),
{
    let mut vals: Vec<rusqlite::types::Value> = Vec::new();
    for p in params.iter() {
        vals.push(sql_value_of(p));
    }
    let mut stmt = c.prepare_cached(sql.as_str())?;
    stmt.execute(rusqlite::params_from_iter(vals))
}

/// Relies on rusqlite's `Connection::execute`: a single `DELETE` removes
/// exactly the whole-school scope rows of that school and touches no other
/// sync-state table. A failed statement commits nothing; outside a
/// transaction it also changes nothing (inside one, a failing statement may
/// trigger the automatic rollback the database documents, so nothing is
/// claimed then of what the connection sees).
#[verifier::external_body]
pub(crate) fn delete_school_scope(c: &mut rusqlite::Connection, school: &String) -> (r: Result<
    (),
    rusqlite::Error,
>)
    ensures
        r is Ok ==> scope_rows(*final(c)) == scope_rows(*old(c)).filter(
            (|row: (Seq<char>, Option<Seq<char>>)| !(row.0 == school@ && row.1 is None)),
        ) && all_marks(*final(c)) == all_marks(*old(c)) && school_marks(*final(c)) == school_marks(
            *old(c),
        ) && term_marks(*final(c)) == term_marks(*old(c)),
        r is Err && !tx_open(*old(c)) ==> same_contents(*old(c), *final(c)),
        r is Ok ==> tx_open(*final(c)) == tx_open(*old(c)),
        r is Err && !tx_open(*old(c)) ==> tx_open(*final(c)) == tx_open(*old(c)),
        tx_open(*old(c)) ==> same_committed(*old(c), *final(c)),
        !tx_open(*old(c)) ==> committed_matches(*final(c)),
{
    let n = c.execute(
        "DELETE FROM _school_strategies WHERE school_id = ? AND term_collection_id IS NULL;",
        (school,),
    )?;
    let _ = n;
    Ok(())
}

/// Relies on rusqlite's `Connection::execute`: a single `DELETE` removes
/// exactly the scope rows of that (school, term) pair and touches no other
/// sync-state table. A failed statement commits nothing; outside a
/// transaction it also changes nothing (inside one, a failing statement may
/// trigger the automatic rollback the database documents, so nothing is
/// claimed then of what the connection sees).
#[verifier::external_body]
pub(crate) fn delete_term_scope(
    c: &mut rusqlite::Connection,
    school: &String,
    term: &String,
) -> (r: Result<(), rusqlite::Error>)
    ensures
        r is Ok ==> scope_rows(*final(c)) == scope_rows(*old(c)).filter(
            (|row: (Seq<char>, Option<Seq<char>>)| !(row.0 == school@ && row.1 == Some(term@))),
        ) && all_marks(*final(c)) == all_marks(*old(c)) && school_marks(*final(c)) == school_marks(
            *old(c),
        ) && term_marks(*final(c)) == term_marks(*old(c)),
        r is Err && !tx_open(*old(c)) ==> same_contents(*old(c), *final(c)),
        r is Ok ==> tx_open(*final(c)) == tx_open(*old(c)),
        r is Err && !tx_open(*old(c)) ==> tx_open(*final(c)) == tx_open(*old(c)),
        tx_open(*old(c)) ==> same_committed(*old(c), *final(c)),
        !tx_open(*old(c)) ==> committed_matches(*final(c)),
{
    let n = c.execute(
        "DELETE FROM _school_strategies WHERE school_id = ? AND term_collection_id = ?;",
        (school, term),
    )?;
    let _ = n;
    Ok(())
}

/// Relies on rusqlite's `Connection::execute`: a single `DELETE` removes
/// exactly the per-school watermark rows of that school and touches no other
/// sync-state table. A failed statement commits nothing; outside a
/// transaction it also changes nothing (inside one, a failing statement may
/// trigger the automatic rollback the database documents, so nothing is
/// claimed then of what the connection sees).
#[verifier::external_body]
pub(crate) fn delete_school_marks(c: &mut rusqlite::Connection, school: &String) -> (r: Result<
    (),
    rusqlite::Error,
>)
    ensures
        r is Ok ==> school_marks(*final(c)) == school_marks(*old(c)).filter(
            (|row: (Seq<char>, u64)| row.0 != school@),
        ) && all_marks(*final(c)) == all_marks(*old(c)) && scope_rows(*final(c)) == scope_rows(
            *old(c),
        ) && term_marks(*final(c)) == term_marks(*old(c)),
        r is Err && !tx_open(*old(c)) ==> same_contents(*old(c), *final(c)),
        r is Ok ==> tx_open(*final(c)) == tx_open(*old(c)),
        r is Err && !tx_open(*old(c)) ==> tx_open(*final(c)) == tx_open(*old(c)),
        tx_open(*old(c)) ==> same_committed(*old(c), *final(c)),
        !tx_open(*old(c)) ==> committed_matches(*final(c)),
{
    let n = c.execute(
        "DELETE FROM _previous_school_collections WHERE school_id = ?;",
        (school,),
    )?;
    let _ = n;
    Ok(())
}

/// Relies on rusqlite's `Connection::execute`: a single `DELETE` removes
/// exactly the per-term watermark rows of that (school, term) pair and
/// touches no other sync-state table. A failed statement commits nothing;
/// outside a transaction it also changes nothing (inside one, a failing
/// statement may trigger the automatic rollback the database documents, so
/// nothing is claimed then of what the connection sees).
#[verifier::external_body]
pub(crate) fn delete_term_marks(
    c: &mut rusqlite::Connection,
    school: &String,
    term: &String,
) -> (r: Result<(), rusqlite::Error>)
    ensures
        r is Ok ==> term_marks(*final(c)) == term_marks(*old(c)).filter(
            (|row: (Seq<char>, Seq<char>, u64)| !(row.0 == school@ && row.1 == term@)),
        ) && all_marks(*final(c)) == all_marks(*old(c)) && scope_rows(*final(c)) == scope_rows(
            *old(c),
        ) && school_marks(*final(c)) == school_marks(*old(c)),
        r is Err && !tx_open(*old(c)) ==> same_contents(*old(c), *final(c)),
        r is Ok ==> tx_open(*final(c)) == tx_open(*old(c)),
        r is Err && !tx_open(*old(c)) ==> tx_open(*final(c)) == tx_open(*old(c)),
        tx_open(*old(c)) ==> same_committed(*old(c), *final(c)),
        !tx_open(*old(c)) ==> committed_matches(*final(c)),
{
    let n = c.execute(
        "DELETE FROM _previous_term_collections WHERE school_id = ? AND term_collection_id = ?;",
        (school, term),
    )?;
    let _ = n;
    Ok(())
}

/// Relies on rusqlite's `Connection::execute`: a single `DELETE` without a
/// condition empties the global watermark table and touches no other
/// sync-state table. A failed statement commits nothing; outside a
/// transaction it also changes nothing (inside one, a failing statement may
/// trigger the automatic rollback the database documents, so nothing is
/// claimed then of what the connection sees).
#[verifier::external_body]
pub(crate) fn delete_all_marks(c: &mut rusqlite::Connection) -> (r: Result<(), rusqlite::Error>)
    ensures
        r is Ok ==> all_marks(*final(c)) == Multiset::<u64>::empty() && scope_rows(*final(c))
            == scope_rows(*old(c)) && school_marks(*final(c)) == school_marks(*old(c)) && term_marks(
            *final(c),
        ) == term_marks(*old(c)),
        r is Err && !tx_open(*old(c)) ==> same_contents(*old(c), *final(c)),
        r is Ok ==> tx_open(*final(c)) == tx_open(*old(c)),
        r is Err && !tx_open(*old(c)) ==> tx_open(*final(c)) == tx_open(*old(c)),
        tx_open(*old(c)) ==> same_committed(*old(c), *final(c)),
        !tx_open(*old(c)) ==> committed_matches(*final(c)),
{
    let n = c.execute("DELETE FROM _previous_all_collections;", ())?;
    let _ = n;
    Ok(())
}

/// Relies on rusqlite's `Connection::execute`: a single `INSERT` into the
/// `schools` data table leaves every sync-state table unchanged when it
/// succeeds, and commits nothing when it fails.
#[verifier::external_body]
pub(crate) fn insert_school_row(c: &mut rusqlite::Connection, school: &School) -> (r: Result<
    (),
    rusqlite::Error,
>)
    ensures
        r is Ok ==> same_contents(*old(c), *final(c)),
        r is Err && !tx_open(*old(c)) ==> same_contents(*old(c), *final(c)),
        r is Ok ==> tx_open(*final(c)) == tx_open(*old(c)),
        r is Err && !tx_open(*old(c)) ==> tx_open(*final(c)) == tx_open(*old(c)),
        tx_open(*old(c)) ==> same_committed(*old(c), *final(c)),
        !tx_open(*old(c)) ==> committed_matches(*final(c)),
{
    let n = c.execute(
        "INSERT INTO schools (id, name) VALUES (?, ?);",
        (&school.id, &school.name),
    )?;
    let _ = n;
    Ok(())
}

/// Relies on rusqlite's `Connection::execute`: a single `INSERT` into the
/// `terms` data table leaves every sync-state table unchanged when it
/// succeeds, and commits nothing when it fails.
#[verifier::external_body]
pub(crate) fn insert_term_row(c: &mut rusqlite::Connection, term: &Term) -> (r: Result<
    (),
    rusqlite::Error,
>)
    ensures
        r is Ok ==> same_contents(*old(c), *final(c)),
        r is Err && !tx_open(*old(c)) ==> same_contents(*old(c), *final(c)),
        r is Ok ==> tx_open(*final(c)) == tx_open(*old(c)),
        r is Err && !tx_open(*old(c)) ==> tx_open(*final(c)) == tx_open(*old(c)),
        tx_open(*old(c)) ==> same_committed(*old(c), *final(c)),
        !tx_open(*old(c)) ==> committed_matches(*final(c)),
{
    let n = c.execute(
        "INSERT INTO terms (id, school_id, year, season, name, still_collecting) VALUES (?, ?, ?, ?, ?, ?);",
        (&term.id, &term.school_id, term.year, &term.season, &term.name, term.still_collecting),
    )?;
    let _ = n;
    Ok(())
}

/// Relies on rusqlite's `Error` `Display` implementation for a diagnostic
/// message.
#[verifier::external_body]
pub(crate) fn rusqlite_error_text(e: &rusqlite::Error) -> (r: String) {
    e.to_string()
}

} // verus!
