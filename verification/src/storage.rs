//! The sqlite-backed sync state store: mode resolution, scope registration,
//! request generation, and atomic result application.

use vstd::prelude::*;
use vstd::multiset::Multiset;
use crate::errors::{ConflictKind, DataStoreError, IntegrityKind};
use crate::store::{
    all_marks, begin, clear_transaction, commit, committed_all_marks, committed_matches,
    committed_school_marks, committed_scope_rows, committed_term_marks, delete_all_marks,
    delete_school_marks, delete_school_scope, delete_term_marks, delete_term_scope,
    exec_record_sql, has_all_rows, has_scope_rows, insert_all_mark, insert_school_mark,
    insert_school_row, insert_scope_row, insert_term_mark, insert_term_row, read_all_marks,
    read_school_marks, read_scope_rows, read_term_marks, rollback, rusqlite_error_text,
    same_committed, same_contents, school_marks, scope_row_view, scope_rows, term_marks, tx_open,
};
use crate::argument_parser::{CollectionType, CollectionView, SelectSyncOptions, SyncResources};
use crate::compile::{compile_record, is_noop_update};
use crate::sync_requests::{
    AllSync, AllSyncResult, ClassDataSync, School, SchoolEntry, SelectSync, SyncOptions, Term,
    TermSyncResult, DEFAULT_MAX_RECORDS,
};

verus! {

broadcast use vstd::multiset::group_multiset_axioms;

/// Explicit construction-time configuration: backend path (used by the
/// surrounding program to open the connection), strictness of row-count
/// checking, and the per-request record cap.
#[derive(Debug)]
pub struct SqliteConfig {
    pub db_path: Option<String>,
    pub is_strict: bool,
    pub max_records_for_syncs: u16,
}

impl Default for SqliteConfig {
    /// An unnamed (in-memory) database, strict execution, and the default
    /// record cap.
    fn default() -> (c: Self)
        ensures
            c.db_path is None,
            c.is_strict,
            c.max_records_for_syncs == DEFAULT_MAX_RECORDS,
    {
        SqliteConfig { db_path: None, is_strict: true, max_records_for_syncs: DEFAULT_MAX_RECORDS }
    }
}

/// The sqlite-backed store. All durable sync state is reached through the
/// connection; strictness and the record cap come from the configuration.
pub struct Sqlite {
    conn: rusqlite::Connection,
    is_strict: bool,
    max_records: u16,
}

impl Sqlite {
    /// The global watermark history rows.
    pub closed spec fn alls(self) -> Multiset<u64> {
        all_marks(self.conn)
    }

    /// The registered scope rows.
    pub closed spec fn scopes(self) -> Multiset<(Seq<char>, Option<Seq<char>>)> {
        scope_rows(self.conn)
    }

    /// The per-school watermark history rows.
    pub closed spec fn schools(self) -> Multiset<(Seq<char>, u64)> {
        school_marks(self.conn)
    }

    /// The per-term watermark history rows.
    pub closed spec fn terms(self) -> Multiset<(Seq<char>, Seq<char>, u64)> {
        term_marks(self.conn)
    }

    /// Whether an unexpected affected-row count is a hard failure.
    pub closed spec fn strict(self) -> bool {
        self.is_strict
    }

    /// The record cap attached to generated requests.
    pub closed spec fn max(self) -> u16 {
        self.max_records
    }

    /// The store is settled: no transaction is open and what the connection
    /// sees is durably committed. The constructor establishes it and every
    /// operation hands the store back settled, so a failed operation leaves
    /// the durable sync state exactly as it was.
    pub closed spec fn clean(self) -> bool {
        !tx_open(self.conn) && committed_matches(self.conn)
    }

    /// Wraps an already-provisioned connection, settling it first (any
    /// transaction left open is discarded). Schema provisioning belongs to
    /// the surrounding program; the store only requires that the sync state
    /// tables exist.
    pub fn new(conn: rusqlite::Connection, config: SqliteConfig) -> (s: Sqlite)
        ensures
            s.clean(),
            s.strict() == config.is_strict,
            s.max() == config.max_records_for_syncs,
            s.alls() == committed_all_marks(conn),
            s.scopes() == committed_scope_rows(conn),
            s.schools() == committed_school_marks(conn),
            s.terms() == committed_term_marks(conn),
    {
        let mut conn = conn;
        clear_transaction(&mut conn);
        Sqlite {
            conn,
            is_strict: config.is_strict,
            max_records: config.max_records_for_syncs,
        }
    }

    /// Hands the connection back, settled, for a caller that wants to
    /// inspect or reuse the underlying database.
    pub fn into_connection(self) -> (c: rusqlite::Connection)
        requires
            self.clean(),
        ensures
            all_marks(c) == self.alls(),
            scope_rows(c) == self.scopes(),
            school_marks(c) == self.schools(),
            term_marks(c) == self.terms(),
            !tx_open(c),
            committed_matches(c),
    {
        self.conn
    }

    /// Whether all-mode evidence (any global watermark) is present.
    pub fn is_all_sync(&self) -> (r: Result<bool, DataStoreError>)
        ensures
            r matches Ok(b) ==> b == !self.alls().is_empty(),
            r matches Err(e) ==> e matches DataStoreError::QueryExecution { .. },
    {
        match has_all_rows(&self.conn) {
            Ok(b) => Ok(b),
            Err(e) => Err(query_err("getting all sync", e)),
        }
    }

    /// Whether select-mode evidence (any registered scope) is present.
    pub fn is_select_sync(&self) -> (r: Result<bool, DataStoreError>)
        ensures
            r matches Ok(b) ==> b == !self.scopes().is_empty(),
            r matches Err(e) ==> e matches DataStoreError::QueryExecution { .. },
    {
        match has_scope_rows(&self.conn) {
            Ok(b) => Ok(b),
            Err(e) => Err(query_err("does select sync", e)),
        }
    }

    /// The all-mode request: the latest global watermark (`0` on a fresh
    /// store) and the record cap.
    fn get_all_request_options(&self) -> (r: Result<AllSync, DataStoreError>)
        ensures
            r matches Ok(a) ==> {
                &&& a.max_records_count == Some(self.max())
                &&& self.alls().is_empty() ==> a.last_sync == 0
                &&& !self.alls().is_empty() ==> self.alls().contains(a.last_sync)
                &&& forall|x: u64| self.alls().contains(x) ==> x <= a.last_sync
            },
            r matches Err(e) ==> e matches DataStoreError::QueryExecution { .. },
    {
        let marks = match read_all_marks(&self.conn) {
            Ok(v) => v,
            Err(e) => {
                return Err(query_err("getting latest all sync", e));
            },
        };
        let last_sync = max_or_zero(&marks);
        proof {
            broadcast use vstd::seq_lib::group_to_multiset_ensures;
            if !self.alls().is_empty() {
                assert(marks@.len() > 0) by {
                    if marks@.len() == 0 {
                        assert(marks@.to_multiset() =~= Multiset::<u64>::empty());
                    }
                }
            }
            assert forall|x: u64| self.alls().contains(x) implies x <= last_sync by {
                assert(marks@.to_multiset().count(x) > 0);
                assert(marks@.contains(x));
                let i = choose|i: int| 0 <= i < marks@.len() && marks@[i] == x;
            }
            if marks@.len() > 0 {
                assert(marks@.to_multiset().count(last_sync) > 0);
            }
        }
        Ok(AllSync { last_sync, max_records_count: Some(self.max_records) })
    }

    /// The select-mode request: every registered scope at its recorded
    /// maximum watermark, with term scopes of whole-school-covered schools
    /// emitted as exclusions.
    fn get_select_request_options(&self) -> (r: Result<SelectSync, DataStoreError>)
        ensures
            r matches Ok(sel) ==> sel.wf() && sel.spec_max_records() == Some(self.max())
                && select_request_reflects(sel, self.scopes(), self.schools(), self.terms()),
            r matches Err(e) ==> (e matches DataStoreError::QueryExecution { .. } || e.is_integrity(
                IntegrityKind::ConflictingRows,
            )),
            r matches Err(e) && e.is_integrity(IntegrityKind::ConflictingRows) ==> exists|
                row: (Seq<char>, Option<Seq<char>>),
            |
                self.scopes().count(row) >= 2,
    {
        let scope_list = match read_scope_rows(&self.conn) {
            Ok(v) => v,
            Err(e) => {
                return Err(query_err("get registered scopes", e));
            },
        };
        let school_list = match read_school_marks(&self.conn) {
            Ok(v) => v,
            Err(e) => {
                return Err(query_err("collecting school last sequence", e));
            },
        };
        let term_list = match read_term_marks(&self.conn) {
            Ok(v) => v,
            Err(e) => {
                return Err(query_err("getting term last sequence", e));
            },
        };
        let sel = match build_select_request(&scope_list, &school_list, &term_list, self.max_records) {
            Ok(sel) => sel,
            Err(e) => {
                proof {
                    if !scope_views(scope_list@).no_duplicates() {
                        lemma_dup_row_count(scope_views(scope_list@));
                        let x = choose|x: (Seq<char>, Option<Seq<char>>)|
                            scope_views(scope_list@).to_multiset().count(x) >= 2;
                        assert(self.scopes().count(x) >= 2);
                    }
                }
                return Err(e);
            },
        };
        proof {
            lemma_select_reflects(
                sel,
                scope_views(scope_list@),
                school_mark_views(school_list@),
                term_mark_views(term_list@),
            );
        }
        Ok(sel)
    }

    /// Resolves the next outbound request from the store: an all-mode
    /// request when only all-mode evidence is present, a select-mode request
    /// when only select-mode evidence is, an error when neither ("no
    /// strategy set") or both (dirty state) are observed.
    pub fn generate_sync_options(&self) -> (r: Result<SyncOptions, DataStoreError>)
        ensures
            r matches Ok(SyncOptions::All(a)) ==> {
                &&& self.scopes().is_empty()
                &&& !self.alls().is_empty()
                &&& a.max_records_count == Some(self.max())
                &&& self.alls().contains(a.last_sync)
                &&& forall|x: u64| self.alls().contains(x) ==> x <= a.last_sync
            },
            r matches Ok(SyncOptions::Select(sel)) ==> {
                &&& !self.scopes().is_empty()
                &&& self.alls().is_empty()
                &&& sel.wf()
                &&& sel.spec_max_records() == Some(self.max())
                &&& select_request_reflects(sel, self.scopes(), self.schools(), self.terms())
            },
            r matches Err(e) ==> {
                &&& (e matches DataStoreError::QueryExecution { .. } || e matches
                    DataStoreError::DataIntegrity { .. })
                &&& e.is_integrity(IntegrityKind::DirtyState) ==> !self.scopes().is_empty()
                    && !self.alls().is_empty()
                &&& e.is_integrity(IntegrityKind::StrategyNotSet) ==> self.scopes().is_empty()
                    && self.alls().is_empty()
                &&& e.is_integrity(IntegrityKind::ConflictingRows) ==> !self.scopes().is_empty()
                    && self.alls().is_empty() && (exists|row: (Seq<char>, Option<Seq<char>>)|
                    self.scopes().count(row) >= 2)
            },
    {
        let select = match self.is_select_sync() {
            Ok(b) => b,
            Err(e) => {
                return Err(e);
            },
        };
        let all = match self.is_all_sync() {
            Ok(b) => b,
            Err(e) => {
                return Err(e);
            },
        };
        match (select, all) {
            (true, true) => Err(
                DataStoreError::DataIntegrity {
                    kind: IntegrityKind::DirtyState,
                    message: String::from_str(
                        "dirty state: both all-mode and select-mode evidence present",
                    ),
                },
            ),
            (true, false) => {
                match self.get_select_request_options() {
                    Ok(sel) => Ok(SyncOptions::Select(sel)),
                    Err(e) => Err(e),
                }
            },
            (false, true) => {
                match self.get_all_request_options() {
                    Ok(a) => Ok(SyncOptions::All(a)),
                    Err(e) => Err(e),
                }
            },
            (false, false) => Err(
                DataStoreError::DataIntegrity {
                    kind: IntegrityKind::StrategyNotSet,
                    message: String::from_str(
                        "sync strategy not set: set the resources to sync",
                    ),
                },
            ),
        }
    }

    /// Registers what to synchronize, enforcing the mutual exclusion
    /// between "sync everything" and "sync selected scopes". Setting
    /// Everything is idempotent and seeds the global watermark with `0`;
    /// a select registration adds one scope row per newly selected scope,
    /// atomically, and never touches anything else.
    #[verifier::loop_isolation(false)]
    pub fn set_request_sync_resources(&mut self, resources: SyncResources) -> (r: Result<
        (),
        DataStoreError,
    >)
        requires
            old(self).clean(),
            (resources matches SyncResources::Select(o) ==> o.wf()),
        ensures
            final(self).clean(),
            r is Err ==> same_sync_state(*old(self), *final(self)),
            final(self).strict() == old(self).strict() && final(self).max() == old(self).max(),
            resources is Everything ==> match r {
                Ok(()) => {
                    &&& old(self).scopes().is_empty()
                    &&& final(self).scopes() == old(self).scopes()
                    &&& final(self).schools() == old(self).schools()
                    &&& final(self).terms() == old(self).terms()
                    &&& !old(self).alls().is_empty() ==> final(self).alls() == old(self).alls()
                    &&& old(self).alls().is_empty() ==> final(self).alls() == old(
                        self,
                    ).alls().insert(0)
                },
                Err(e) => {
                    &&& same_sync_state(*old(self), *final(self))
                    &&& (e matches DataStoreError::StateConflict { .. } || e matches
                        DataStoreError::QueryExecution { .. })
                    &&& (e matches DataStoreError::StateConflict { kind, .. } ==> kind
                        == ConflictKind::SelectModeActive && !old(self).scopes().is_empty())
                },
            },
            resources matches SyncResources::Select(o) ==> match r {
                Ok(()) => {
                    &&& old(self).alls().is_empty()
                    &&& final(self).alls() == old(self).alls()
                    &&& final(self).schools() == old(self).schools()
                    &&& final(self).terms() == old(self).terms()
                    &&& forall|row: (Seq<char>, Option<Seq<char>>)|
                        !row_requested(o.view_map(), row) ==> #[trigger] final(self).scopes().count(
                            row,
                        ) == old(self).scopes().count(row)
                    &&& forall|row: (Seq<char>, Option<Seq<char>>)|
                        #[trigger] row_requested(o.view_map(), row) ==> final(self).scopes().count(
                            row,
                        ) == if old(self).scopes().contains(row) {
                            old(self).scopes().count(row)
                        } else {
                            old(self).scopes().count(row) + 1
                        }
                    &&& forall|sc: Seq<char>|
                        o.view_map().dom().contains(sc) && (#[trigger] o.view_map()[sc]) is
                            SelectTerms ==> !old(self).scopes().contains(
                            (sc, Option::<Seq<char>>::None),
                        )
                },
                Err(e) => {
                    &&& (e matches DataStoreError::StateConflict { .. } || e matches
                        DataStoreError::QueryExecution { .. })
                    &&& (e matches DataStoreError::StateConflict { kind, .. } ==> {
                        &&& (kind == ConflictKind::AllModeActive || kind
                            == ConflictKind::SchoolFullyCovered)
                        &&& (kind == ConflictKind::AllModeActive <==> !old(
                            self,
                        ).alls().is_empty())
                        &&& (kind == ConflictKind::SchoolFullyCovered <==> (old(
                            self,
                        ).alls().is_empty() && exists|sc: Seq<char>|
                            o.view_map().dom().contains(sc) && (#[trigger] o.view_map()[sc]) is
                                SelectTerms && old(self).scopes().contains(
                                (sc, Option::<Seq<char>>::None),
                            )))
                    })
                },
            },
    {
        match resources {
            SyncResources::Everything => {
                match self.is_select_sync() {
                    Err(e) => Err(e),
                    Ok(true) => Err(
                        DataStoreError::StateConflict {
                            kind: ConflictKind::SelectModeActive,
                            message: String::from_str(
                                "cannot sync all: select syncs are already registered",
                            ),
                        },
                    ),
                    Ok(false) => {
                        match self.is_all_sync() {
                            Err(e) => Err(e),
                            Ok(true) => Ok(()),
                            Ok(false) => {
                                match insert_all_mark(&mut self.conn, 0) {
                                    Ok(()) => Ok(()),
                                    Err(e) => Err(query_err("insert previous all collections", e)),
                                }
                            },
                        }
                    },
                }
            },
            SyncResources::Select(options) => {
                match self.is_all_sync() {
                    Err(e) => {
                        return Err(e);
                    },
                    Ok(true) => {
                        return Err(
                            DataStoreError::StateConflict {
                                kind: ConflictKind::AllModeActive,
                                message: String::from_str(
                                    "cannot sync select: sync all has already been run",
                                ),
                            },
                        );
                    },
                    Ok(false) => {},
                }
                let existing = match read_scope_rows(&self.conn) {
                    Ok(v) => v,
                    Err(e) => {
                        return Err(query_err("get registered scopes", e));
                    },
                };
                let plan = match plan_registrations(&existing, &options) {
                    Ok(p) => p,
                    Err(e) => {
                        proof {
                            broadcast use vstd::seq_lib::group_to_multiset_ensures;
                        }
                        return Err(e);
                    },
                };
                proof {
                    broadcast use vstd::seq_lib::group_to_multiset_ensures;
                    scope_views(plan@).lemma_multiset_has_no_duplicates();
                }
                match begin(&mut self.conn) {
                    Err(e) => {
                        return Err(query_err("begin registration", e));
                    },
                    Ok(()) => {},
                }
                let ghost base = *self;
                let n = plan.len();
                let mut j: usize = 0;
                while j < n
                    invariant
                        0 <= j <= n,
                        n == plan@.len(),
                        all_marks(self.conn) == base.alls(),
                        school_marks(self.conn) == base.schools(),
                        term_marks(self.conn) == base.terms(),
                        scope_rows(self.conn) == base.scopes().add(
                            scope_views(plan@).take(j as int).to_multiset(),
                        ),
                        tx_open(self.conn),
                        same_committed(old(self).conn, self.conn),
                        self.is_strict == base.is_strict,
                        self.max_records == base.max_records,
                    decreases n - j,
                {
                    proof {
                        broadcast use vstd::seq_lib::group_to_multiset_ensures;
                        assert(scope_views(plan@).take(j + 1) =~= scope_views(plan@).take(
                            j as int,
                        ).push(scope_views(plan@)[j as int]));
                    }
                    match insert_scope_row(&mut self.conn, &plan[j].0, &plan[j].1) {
                        Ok(()) => {
                            proof {
                                assert(scope_rows(self.conn) =~= base.scopes().add(
                                    scope_views(plan@).take(j + 1).to_multiset(),
                                ));
                            }
                        },
                        Err(e) => {
                            let _ = rollback(&mut self.conn);
                            return Err(query_err("insert scope registration", e));
                        },
                    }
                    j += 1;
                }
                match commit(&mut self.conn) {
                    Err(e) => {
                        let _ = rollback(&mut self.conn);
                        return Err(query_err("commit registration", e));
                    },
                    Ok(()) => {},
                }
                proof {
                    broadcast use vstd::seq_lib::group_to_multiset_ensures;
                    assert(scope_views(plan@).take(n as int) =~= scope_views(plan@));
                    lemma_set_select_counts(
                        old(self).scopes(),
                        self.scopes(),
                        scope_views(existing@),
                        scope_views(plan@),
                        options.view_map(),
                    );
                    assert forall|sc: Seq<char>|
                        options.view_map().dom().contains(sc) && (#[trigger] options.view_map()[sc])
                            is SelectTerms implies !old(self).scopes().contains(
                        (sc, Option::<Seq<char>>::None),
                    ) by {
                        assert(!scope_views(existing@).contains((sc, Option::<Seq<char>>::None)));
                    }
                }
                Ok(())
            },
        }
    }

    /// Validates, compiles and executes one change record inside the open
    /// transaction. A no-op update executes nothing; an invalid record is
    /// rejected before any statement is prepared; in strict mode an
    /// affected-row count other than one is a hard failure, in lenient mode
    /// it is treated as success. The sync-state tables are never touched and
    /// nothing becomes durable; on failure the caller rolls the transaction
    /// back.
    fn execute_sync(&mut self, sync: &ClassDataSync) -> (r: Result<(), DataStoreError>)
        requires
            tx_open(old(self).conn),
        ensures
            r is Ok ==> same_sync_state(*old(self), *final(self)),
            r is Ok ==> tx_open(final(self).conn),
            same_committed(old(self).conn, final(self).conn),
            final(self).strict() == old(self).strict() && final(self).max() == old(self).max(),
            !sync.wf() <==> (r matches Err(e) && e matches DataStoreError::InputValidation { .. }),
            sync.wf() && is_noop_update(*sync) ==> r is Ok,
            (r matches Err(e) && e matches DataStoreError::RowCountMismatch { .. }) ==> old(
                self,
            ).strict(),
    {
        match sync.verify_record() {
            Err(e) => Err(e),
            Ok(()) => {
                match compile_record(sync) {
                    None => Ok(()),
                    Some(c) => {
                        match exec_record_sql(&mut self.conn, &c.sql, &c.params) {
                            Err(e) => Err(
                                DataStoreError::QueryExecution {
                                    query_info: c.sql,
                                    detail: rusqlite_error_text(&e),
                                },
                            ),
                            Ok(n) => check_row_count(n, self.is_strict, c.sql),
                        }
                    },
                }
            },
        }
    }

    /// Applies an all-mode result atomically: the new global watermark and
    /// every contained change record commit together, or nothing commits.
    #[verifier::loop_isolation(false)]
    pub fn execute_all_request_sync(&mut self, all_sync_response: AllSyncResult) -> (r: Result<
        (),
        DataStoreError,
    >)
        requires
            old(self).clean(),
        ensures
            final(self).clean(),
            final(self).strict() == old(self).strict() && final(self).max() == old(self).max(),
            r is Ok ==> final(self).alls() == old(self).alls().insert(
                all_sync_response.new_latest_sync,
            ) && final(self).scopes() == old(self).scopes() && final(self).schools() == old(
                self,
            ).schools() && final(self).terms() == old(self).terms(),
            r is Ok ==> forall|k: int|
                0 <= k < all_sync_response.sync_data@.len() ==> (
                #[trigger] all_sync_response.sync_data@[k]).wf(),
            r is Err ==> same_sync_state(*old(self), *final(self)),
            r matches Err(e) ==> {
                &&& e matches DataStoreError::InputValidation { .. } ==> exists|k: int|
                    0 <= k < all_sync_response.sync_data@.len()
                        && !(#[trigger] all_sync_response.sync_data@[k]).wf()
                &&& e matches DataStoreError::RowCountMismatch { .. } ==> old(self).strict()
            },
    {
        match begin(&mut self.conn) {
            Err(e) => {
                return Err(query_err("begin all sync", e));
            },
            Ok(()) => {},
        }
        match insert_all_mark(&mut self.conn, all_sync_response.new_latest_sync) {
            Err(e) => {
                let _ = rollback(&mut self.conn);
                return Err(query_err("inserting previous all collections", e));
            },
            Ok(()) => {},
        }
        let records = &all_sync_response.sync_data;
        let n = records.len();
        let mut k: usize = 0;
        while k < n
            invariant
                0 <= k <= n,
                all_marks(self.conn) == old(self).alls().insert(
                    all_sync_response.new_latest_sync,
                ),
                scope_rows(self.conn) == old(self).scopes(),
                school_marks(self.conn) == old(self).schools(),
                term_marks(self.conn) == old(self).terms(),
                tx_open(self.conn),
                same_committed(old(self).conn, self.conn),
                forall|j: int| 0 <= j < k ==> (#[trigger] records@[j]).wf(),
                self.is_strict == old(self).is_strict,
                self.max_records == old(self).max_records,
            decreases n - k,
        {
            match self.execute_sync(&records[k]) {
                Err(e) => {
                    let _ = rollback(&mut self.conn);
                    return Err(e);
                },
                Ok(()) => {},
            }
            k += 1;
        }
        match commit(&mut self.conn) {
            Err(e) => {
                let _ = rollback(&mut self.conn);
                Err(query_err("commit all sync", e))
            },
            Ok(()) => Ok(()),
        }
    }

    /// Applies a select-mode result atomically: every new school and term
    /// watermark and every contained change record commit together, or
    /// nothing commits. The request echo is accepted for symmetry with the
    /// transport but not consulted.
    #[verifier::loop_isolation(false)]
    pub fn execute_select_request_sync(
        &mut self,
        select_sync_request: SelectSync,
        select_sync_response: TermSyncResult,
    ) -> (r: Result<(), DataStoreError>)
        requires
            old(self).clean(),
        ensures
            final(self).clean(),
            final(self).strict() == old(self).strict() && final(self).max() == old(self).max(),
            r is Ok ==> final(self).schools() == old(self).schools().add(
                payload_school_marks(select_sync_response.new_sync_term_sequences@),
            ) && final(self).terms() == old(self).terms().add(
                payload_term_marks(select_sync_response.new_sync_term_sequences@),
            ) && final(self).alls() == old(self).alls() && final(self).scopes() == old(
                self,
            ).scopes(),
            r is Ok ==> forall|k: int|
                0 <= k < select_sync_response.sync_data@.len() ==> (
                #[trigger] select_sync_response.sync_data@[k]).wf(),
            r is Err ==> same_sync_state(*old(self), *final(self)),
            r matches Err(e) ==> {
                &&& e matches DataStoreError::InputValidation { .. } ==> exists|k: int|
                    0 <= k < select_sync_response.sync_data@.len()
                        && !(#[trigger] select_sync_response.sync_data@[k]).wf()
                &&& e matches DataStoreError::RowCountMismatch { .. } ==> old(self).strict()
            },
    {
        let _ = select_sync_request;
        match begin(&mut self.conn) {
            Err(e) => {
                return Err(query_err("begin select sync", e));
            },
            Ok(()) => {},
        }
        let entries = &select_sync_response.new_sync_term_sequences;
        let n = entries.len();
        let mut i: usize = 0;
        while i < n
            invariant
                0 <= i <= n,
                school_marks(self.conn) == old(self).schools().add(
                    payload_school_marks(entries@.take(i as int)),
                ),
                term_marks(self.conn) == old(self).terms().add(
                    payload_term_marks(entries@.take(i as int)),
                ),
                all_marks(self.conn) == old(self).alls(),
                scope_rows(self.conn) == old(self).scopes(),
                tx_open(self.conn),
                same_committed(old(self).conn, self.conn),
                self.is_strict == old(self).is_strict,
                self.max_records == old(self).max_records,
            decreases n - i,
        {
            proof {
                assert(entries@.take(i + 1).drop_last() =~= entries@.take(i as int));
            }
            match &entries[i].1 {
                SchoolEntry::Sequence(seq) => {
                    match insert_school_mark(&mut self.conn, &entries[i].0, *seq) {
                        Err(e) => {
                            let _ = rollback(&mut self.conn);
                            return Err(query_err("insert previous school collections", e));
                        },
                        Ok(()) => {
                            proof {
                                assert(school_marks(self.conn) =~= old(self).schools().add(
                                    payload_school_marks(entries@.take(i + 1)),
                                ));
                                assert(term_marks(self.conn) =~= old(self).terms().add(
                                    payload_term_marks(entries@.take(i + 1)),
                                ));
                            }
                        },
                    }
                },
                SchoolEntry::TermToSequence(ts) => {
                    let m = ts.len();
                    let mut j: usize = 0;
                    while j < m
                        invariant
                            0 <= j <= m,
                            0 <= i < n,
                            entries@[i as int].1 == SchoolEntry::TermToSequence(*ts),
                            school_marks(self.conn) == old(self).schools().add(
                                payload_school_marks(entries@.take(i as int)),
                            ),
                            term_marks(self.conn) == old(self).terms().add(
                                payload_term_marks(entries@.take(i as int)),
                            ).add(school_term_marks(entries@[i as int].0@, ts@.take(j as int))),
                            all_marks(self.conn) == old(self).alls(),
                            scope_rows(self.conn) == old(self).scopes(),
                            tx_open(self.conn),
                            same_committed(old(self).conn, self.conn),
                            self.is_strict == old(self).is_strict,
                            self.max_records == old(self).max_records,
                        decreases m - j,
                    {
                        proof {
                            assert(ts@.take(j + 1).drop_last() =~= ts@.take(j as int));
                        }
                        match insert_term_mark(&mut self.conn, &entries[i].0, &ts[j].0, ts[j].1) {
                            Err(e) => {
                                let _ = rollback(&mut self.conn);
                                return Err(query_err("insert previous term collections", e));
                            },
                            Ok(()) => {
                                proof {
                                    assert(term_marks(self.conn) =~= old(self).terms().add(
                                        payload_term_marks(entries@.take(i as int)),
                                    ).add(
                                        school_term_marks(entries@[i as int].0@, ts@.take(j + 1)),
                                    ));
                                }
                            },
                        }
                        j += 1;
                    }
                    proof {
                        assert(ts@.take(m as int) =~= ts@);
                        assert(school_marks(self.conn) =~= old(self).schools().add(
                            payload_school_marks(entries@.take(i + 1)),
                        ));
                        assert(term_marks(self.conn) =~= old(self).terms().add(
                            payload_term_marks(entries@.take(i + 1)),
                        ));
                    }
                },
            }
            i += 1;
        }
        proof {
            assert(entries@.take(n as int) =~= entries@);
        }
        let records = &select_sync_response.sync_data;
        let rn = records.len();
        let mut k: usize = 0;
        while k < rn
            invariant
                0 <= k <= rn,
                school_marks(self.conn) == old(self).schools().add(payload_school_marks(entries@)),
                term_marks(self.conn) == old(self).terms().add(payload_term_marks(entries@)),
                all_marks(self.conn) == old(self).alls(),
                scope_rows(self.conn) == old(self).scopes(),
                tx_open(self.conn),
                same_committed(old(self).conn, self.conn),
                forall|j: int| 0 <= j < k ==> (#[trigger] records@[j]).wf(),
                self.is_strict == old(self).is_strict,
                self.max_records == old(self).max_records,
            decreases rn - k,
        {
            match self.execute_sync(&records[k]) {
                Err(e) => {
                    let _ = rollback(&mut self.conn);
                    return Err(e);
                },
                Ok(()) => {},
            }
            k += 1;
        }
        match commit(&mut self.conn) {
            Err(e) => {
                let _ = rollback(&mut self.conn);
                Err(query_err("commit select sync", e))
            },
            Ok(()) => Ok(()),
        }
    }

    /// Removes previously registered scopes and their watermark history:
    /// "everything" clears the global watermark history; a selection removes
    /// each named scope row together with its per-school or per-term
    /// watermark rows. Unregistering something never registered is a no-op.
    #[verifier::loop_isolation(false)]
    pub fn unset_request_sync_resources(&mut self, resources: SyncResources) -> (r: Result<
        (),
        DataStoreError,
    >)
        requires
            old(self).clean(),
            (resources matches SyncResources::Select(o) ==> o.wf()),
        ensures
            final(self).clean(),
            r is Err ==> same_sync_state(*old(self), *final(self)),
            r matches Err(e) ==> e matches DataStoreError::QueryExecution { .. },
            final(self).strict() == old(self).strict() && final(self).max() == old(self).max(),
            resources is Everything && r is Ok ==> final(self).alls() == Multiset::<u64>::empty()
                && final(self).scopes() == old(self).scopes() && final(self).schools() == old(
                self,
            ).schools() && final(self).terms() == old(self).terms(),
            resources is Everything && r is Err ==> same_sync_state(*old(self), *final(self)),
            resources matches SyncResources::Select(o) ==> (r is Ok ==> {
                &&& final(self).alls() == old(self).alls()
                &&& forall|row: (Seq<char>, Option<Seq<char>>)|
                    #[trigger] final(self).scopes().count(row) == if row_requested(
                        o.view_map(),
                        row,
                    ) {
                        0
                    } else {
                        old(self).scopes().count(row)
                    }
                &&& forall|row: (Seq<char>, u64)|
                    #[trigger] final(self).schools().count(row) == if o.view_map().dom().contains(
                        row.0,
                    ) && o.view_map()[row.0] is All {
                        0
                    } else {
                        old(self).schools().count(row)
                    }
                &&& forall|row: (Seq<char>, Seq<char>, u64)|
                    #[trigger] final(self).terms().count(row) == if term_unselected(
                        o.view_map(),
                        row,
                    ) {
                        0
                    } else {
                        old(self).terms().count(row)
                    }
            }),
    {
        match resources {
            SyncResources::Everything => {
                match delete_all_marks(&mut self.conn) {
                    Err(e) => Err(query_err("clear previous all collections", e)),
                    Ok(()) => Ok(()),
                }
            },
            SyncResources::Select(options) => {
                match begin(&mut self.conn) {
                    Err(e) => {
                        return Err(query_err("begin unset", e));
                    },
                    Ok(()) => {},
                }
                let list = &options.school_to_collection;
                let n = list.len();
                let mut i: usize = 0;
                while i < n
                    invariant
                        0 <= i <= n,
                        all_marks(self.conn) == old(self).alls(),
                        tx_open(self.conn),
                        same_committed(old(self).conn, self.conn),
                        self.is_strict == old(self).is_strict,
                        self.max_records == old(self).max_records,
                        forall|row: (Seq<char>, Option<Seq<char>>)|
                            #[trigger] scope_rows(self.conn).count(row) == if planned_by_prefix(
                                list@.take(i as int),
                                row,
                            ) {
                                0
                            } else {
                                old(self).scopes().count(row)
                            },
                        forall|row: (Seq<char>, u64)|
                            #[trigger] school_marks(self.conn).count(row) == if school_of_prefix(
                                list@.take(i as int),
                                row.0,
                            ) {
                                0
                            } else {
                                old(self).schools().count(row)
                            },
                        forall|row: (Seq<char>, Seq<char>, u64)|
                            #[trigger] term_marks(self.conn).count(row) == if term_pair_of_prefix(
                                list@.take(i as int),
                                row.0,
                                row.1,
                            ) {
                                0
                            } else {
                                old(self).terms().count(row)
                            },
                    decreases n - i,
                {
                    proof {
                        assert(list@.take(i + 1).drop_last() =~= list@.take(i as int));
                    }
                    match &list[i].1 {
                        CollectionType::AllSchoolData => {
                            match delete_school_scope(&mut self.conn, &list[i].0) {
                                Err(e) => {
                                    let _ = rollback(&mut self.conn);
                                    return Err(query_err("delete school scope", e));
                                },
                                Ok(()) => {},
                            }
                            match delete_school_marks(&mut self.conn, &list[i].0) {
                                Err(e) => {
                                    let _ = rollback(&mut self.conn);
                                    return Err(query_err("delete school watermarks", e));
                                },
                                Ok(()) => {},
                            }
                            proof {
                                lemma_prefix_snoc_all(list@, i as int);
                            }
                        },
                        CollectionType::SelectTermData(ts) => {
                            let m = ts.len();
                            let mut j: usize = 0;
                            while j < m
                                invariant
                                    0 <= j <= m,
                                    0 <= i < n,
                                    list@[i as int].1 == CollectionType::SelectTermData(*ts),
                                    all_marks(self.conn) == old(self).alls(),
                                    tx_open(self.conn),
                                    same_committed(old(self).conn, self.conn),
                                    self.is_strict == old(self).is_strict,
                                    self.max_records == old(self).max_records,
                                    forall|row: (Seq<char>, Option<Seq<char>>)|
                                        #[trigger] scope_rows(self.conn).count(row) == if
                                        planned_by_prefix(list@.take(i as int), row)
                                            || term_of_prefix(
                                            list@[i as int].0@,
                                            ts@.take(j as int),
                                            row,
                                        ) {
                                            0
                                        } else {
                                            old(self).scopes().count(row)
                                        },
                                    forall|row: (Seq<char>, u64)|
                                        #[trigger] school_marks(self.conn).count(row) == if
                                        school_of_prefix(list@.take(i as int), row.0) {
                                            0
                                        } else {
                                            old(self).schools().count(row)
                                        },
                                    forall|row: (Seq<char>, Seq<char>, u64)|
                                        #[trigger] term_marks(self.conn).count(row) == if
                                        term_pair_of_prefix(list@.take(i as int), row.0, row.1) || (
                                        row.0 == list@[i as int].0@ && term_in(
                                            ts@.take(j as int),
                                            row.1,
                                        )) {
                                            0
                                        } else {
                                            old(self).terms().count(row)
                                        },
                                decreases m - j,
                            {
                                proof {
                                    assert(ts@.take(j + 1).drop_last() =~= ts@.take(j as int));
                                }
                                match delete_term_scope(&mut self.conn, &list[i].0, &ts[j]) {
                                    Err(e) => {
                                        let _ = rollback(&mut self.conn);
                                        return Err(query_err("delete term scope", e));
                                    },
                                    Ok(()) => {},
                                }
                                match delete_term_marks(&mut self.conn, &list[i].0, &ts[j]) {
                                    Err(e) => {
                                        let _ = rollback(&mut self.conn);
                                        return Err(query_err("delete term watermarks", e));
                                    },
                                    Ok(()) => {},
                                }
                                proof {
                                    lemma_terms_snoc(list@[i as int].0@, ts@, j as int);
                                }
                                j += 1;
                            }
                            proof {
                                assert(ts@.take(m as int) =~= ts@);
                                lemma_prefix_snoc_terms(list@, i as int, *ts);
                            }
                        },
                    }
                    i += 1;
                }
                match commit(&mut self.conn) {
                    Err(e) => {
                        let _ = rollback(&mut self.conn);
                        return Err(query_err("commit unset", e));
                    },
                    Ok(()) => {},
                }
                proof {
                    assert(list@.take(n as int) =~= list@);
                    lemma_unset_full(list@, options.view_map(), options);
                }
                Ok(())
            },
        }
    }

    /// Inserts catalog school rows, all in one transaction. The sync-state
    /// tables are never touched.
    #[verifier::loop_isolation(false)]
    pub fn add_schools(&mut self, schools: Vec<School>) -> (r: Result<(), DataStoreError>)
        requires
            old(self).clean(),
        ensures
            final(self).clean(),
            same_sync_state(*old(self), *final(self)),
            final(self).strict() == old(self).strict() && final(self).max() == old(self).max(),
        {
        match begin(&mut self.conn) {
            Err(e) => {
                return Err(query_err("begin add schools", e));
            },
            Ok(()) => {},
        }
        let n = schools.len();
        let mut i: usize = 0;
        while i < n
            invariant
                0 <= i <= n,
                same_contents(old(self).conn, self.conn),
                tx_open(self.conn),
                same_committed(old(self).conn, self.conn),
                self.is_strict == old(self).is_strict,
                self.max_records == old(self).max_records,
            decreases n - i,
        {
            match insert_school_row(&mut self.conn, &schools[i]) {
                Err(e) => {
                    let _ = rollback(&mut self.conn);
                    return Err(query_err("insert schools", e));
                },
                Ok(()) => {},
            }
            i += 1;
        }
        match commit(&mut self.conn) {
            Err(e) => {
                let _ = rollback(&mut self.conn);
                Err(query_err("commit add schools", e))
            },
            Ok(()) => Ok(()),
        }
    }

    /// Inserts catalog term rows, all in one transaction. The sync-state
    /// tables are never touched.
    #[verifier::loop_isolation(false)]
    pub fn add_terms(&mut self, terms: Vec<Term>) -> (r: Result<(), DataStoreError>)
        requires
            old(self).clean(),
        ensures
            final(self).clean(),
            same_sync_state(*old(self), *final(self)),
            final(self).strict() == old(self).strict() && final(self).max() == old(self).max(),
        {
        match begin(&mut self.conn) {
            Err(e) => {
                return Err(query_err("begin add terms", e));
            },
            Ok(()) => {},
        }
        let n = terms.len();
        let mut i: usize = 0;
        while i < n
            invariant
                0 <= i <= n,
                same_contents(old(self).conn, self.conn),
                tx_open(self.conn),
                same_committed(old(self).conn, self.conn),
                self.is_strict == old(self).is_strict,
                self.max_records == old(self).max_records,
            decreases n - i,
        {
            match insert_term_row(&mut self.conn, &terms[i]) {
                Err(e) => {
                    let _ = rollback(&mut self.conn);
                    return Err(query_err("insert terms", e));
                },
                Ok(()) => {},
            }
            i += 1;
        }
        match commit(&mut self.conn) {
            Err(e) => {
                let _ = rollback(&mut self.conn);
                Err(query_err("commit add terms", e))
            },
            Ok(()) => Ok(()),
        }
    }
}

/// Wraps a driver error with a description of the query that failed.
fn query_err(info: &str, e: rusqlite::Error) -> (r: DataStoreError)
    ensures
        r matches DataStoreError::QueryExecution { .. },
{
    DataStoreError::QueryExecution {
        query_info: String::from_str(info),
        detail: rusqlite_error_text(&e),
    }
}

/// The largest entry of the list, or zero when it is empty.
fn max_or_zero(v: &Vec<u64>) -> (m: u64)
    ensures
        v@.len() == 0 ==> m == 0,
        v@.len() > 0 ==> v@.contains(m),
        forall|i: int| 0 <= i < v@.len() ==> v@[i] <= m,
{
    let n = v.len();
    let mut m: u64 = 0;
    let mut i: usize = 0;
    let mut seen: bool = false;
    while i < n
        invariant
            0 <= i <= n,
            n == v@.len(),
            !seen ==> m == 0 && i == 0,
            seen ==> i > 0 && v@.take(i as int).contains(m),
            forall|j: int| 0 <= j < i ==> v@[j] <= m,
        decreases n - i,
    {
        if !seen || v[i] > m {
            m = v[i];
            seen = true;
            proof {
                assert(v@.take(i + 1)[i as int] == m);
            }
        } else {
            proof {
                let k = choose|k: int| 0 <= k < i && v@.take(i as int)[k] == m;
                assert(v@.take(i + 1)[k] == m);
            }
        }
        i += 1;
    }
    proof {
        if n > 0 {
            assert(v@.take(n as int) =~= v@);
        }
    }
    m
}

/// The two stores hold the same durable sync state.
pub open spec fn same_sync_state(a: Sqlite, b: Sqlite) -> bool {
    &&& a.alls() == b.alls()
    &&& a.scopes() == b.scopes()
    &&& a.schools() == b.schools()
    &&& a.terms() == b.terms()
}

/// Whether a selection asks for this scope row: a whole-school selection
/// asks for the school's `None` row, a term selection asks for each of its
/// term rows.
pub open spec fn row_requested(
    v: Map<Seq<char>, CollectionView>,
    row: (Seq<char>, Option<Seq<char>>),
) -> bool {
    v.dom().contains(row.0) && match (v[row.0], row.1) {
        (CollectionView::All, Option::None) => true,
        (CollectionView::SelectTerms(ts), Option::Some(t)) => ts.contains(t),
        _ => false,
    }
}

/// The views of raw scope rows.
pub open spec fn scope_views(rows: Seq<(String, Option<String>)>) -> Seq<
    (Seq<char>, Option<Seq<char>>),
> {
    rows.map_values(|p: (String, Option<String>)| scope_row_view(p))
}

/// Whether the list holds a whole-school row for this school.
fn contains_whole(rows: &Vec<(String, Option<String>)>, school: &String) -> (r: bool)
    ensures
        r == scope_views(rows@).contains((school@, Option::<Seq<char>>::None)),
{
    let n = rows.len();
    let mut i: usize = 0;
    while i < n
        invariant
            0 <= i <= n,
            n == rows@.len(),
            forall|j: int| 0 <= j < i ==> scope_views(rows@)[j] != (school@, Option::<Seq<char>>::None),
        decreases n - i,
    {
        if rows[i].1.is_none() && rows[i].0 == *school {
            proof {
                assert(scope_views(rows@)[i as int] == (school@, Option::<Seq<char>>::None));
            }
            return true;
        }
        proof {
            assert(scope_views(rows@)[i as int] == scope_row_view(rows@[i as int]));
        }
        i += 1;
    }
    proof {
        if scope_views(rows@).contains((school@, Option::<Seq<char>>::None)) {
            let j = choose|j: int|
                0 <= j < scope_views(rows@).len() && scope_views(rows@)[j] == (
                school@,
                Option::<Seq<char>>::None,
                );
        }
    }
    false
}

/// Whether the list holds a term row for this (school, term) pair.
fn contains_term_row(rows: &Vec<(String, Option<String>)>, school: &String, term: &String) -> (r:
    bool)
    ensures
        r == scope_views(rows@).contains((school@, Some(term@))),
    {
    let n = rows.len();
    let mut i: usize = 0;
    while i < n
        invariant
            0 <= i <= n,
            n == rows@.len(),
            forall|j: int| 0 <= j < i ==> scope_views(rows@)[j] != (school@, Some(term@)),
        decreases n - i,
    {
        let hit = match &rows[i].1 {
            Some(t) => *t == *term && rows[i].0 == *school,
            None => false,
        };
        if hit {
            proof {
                assert(scope_views(rows@)[i as int] == (school@, Some(term@)));
            }
            return true;
        }
        proof {
            assert(scope_views(rows@)[i as int] == scope_row_view(rows@[i as int]));
        }
        i += 1;
    }
    proof {
        if scope_views(rows@).contains((school@, Some(term@))) {
            let j = choose|j: int|
                0 <= j < scope_views(rows@).len() && scope_views(rows@)[j] == (school@, Some(term@));
        }
    }
    false
}

/// Computes the scope rows a selection would add on top of the existing
/// ones: a row per whole-school selection and per selected term, skipping
/// rows already registered (registration is idempotent). Fails when a term
/// selection names a school whose whole-school scope is already registered.
#[verifier::loop_isolation(false)]
fn plan_registrations(
    existing: &Vec<(String, Option<String>)>,
    options: &SelectSyncOptions,
) -> (r: Result<Vec<(String, Option<String>)>, DataStoreError>)
    requires
        options.wf(),
    ensures
        r matches Ok(plan) ==> {
            &&& scope_views(plan@).no_duplicates()
            &&& forall|k: int|
                0 <= k < plan@.len() ==> row_requested(
                    options.view_map(),
                    #[trigger] scope_views(plan@)[k],
                ) && !scope_views(existing@).contains(scope_views(plan@)[k])
            &&& forall|row: (Seq<char>, Option<Seq<char>>)|
                row_requested(options.view_map(), row) && !scope_views(existing@).contains(row)
                    ==> #[trigger] scope_views(plan@).contains(row)
            &&& forall|s: Seq<char>|
                options.view_map().dom().contains(s) && (#[trigger] options.view_map()[s]) is
                    SelectTerms ==> !scope_views(existing@).contains(
                    (s, Option::<Seq<char>>::None),
                )
        },
        r matches Err(e) ==> e.is_conflict(ConflictKind::SchoolFullyCovered) && (exists|s: Seq<char>|
            options.view_map().dom().contains(s) && (#[trigger] options.view_map()[s]) is
                SelectTerms && scope_views(existing@).contains((s, Option::<Seq<char>>::None))),
{
    let mut plan: Vec<(String, Option<String>)> = Vec::new();
    let list = &options.school_to_collection;
    let n = list.len();
    let mut i: usize = 0;
    proof {
        crate::kv::lemma_kv_map_dom(list@);
    }
    while i < n
        invariant
            0 <= i <= n,
            n == list@.len(),
            options.wf(),
            scope_views(plan@).no_duplicates(),
            forall|k: int|
                0 <= k < plan@.len() ==> planned_by_prefix(
                    list@.take(i as int),
                    #[trigger] scope_views(plan@)[k],
                ) && !scope_views(existing@).contains(scope_views(plan@)[k]),
            forall|row: (Seq<char>, Option<Seq<char>>)|
                planned_by_prefix(list@.take(i as int), row) && !scope_views(existing@).contains(
                    row,
                ) ==> #[trigger] scope_views(plan@).contains(row),
            forall|j: int|
                0 <= j < i ==> (#[trigger] list@[j].1 matches CollectionType::SelectTermData(ts)
                    ==> !scope_views(existing@).contains((list@[j].0@, Option::<Seq<char>>::None))),
        decreases n - i,
    {
        let ghost prefix = list@.take(i as int);
        proof {
            assert(list@.take(i + 1).drop_last() =~= prefix);
        }
        match &list[i].1 {
            CollectionType::AllSchoolData => {
                if !contains_whole(existing, &list[i].0) {
                    let ghost old_plan = plan@;
                    plan.push((list[i].0.clone(), None));
                    proof {
                        assert(scope_views(plan@) =~= scope_views(old_plan).push(
                            (list@[i as int].0@, Option::<Seq<char>>::None),
                        ));
                        lemma_planned_step_all(
                            list@,
                            i as int,
                            scope_views(existing@),
                            scope_views(old_plan),
                            scope_views(plan@),
                        );
                    }
                } else {
                    proof {
                        lemma_planned_step_all_skip(
                            list@,
                            i as int,
                            scope_views(existing@),
                            scope_views(plan@),
                        );
                    }
                }
            },
            CollectionType::SelectTermData(ts) => {
                if contains_whole(existing, &list[i].0) {
                    proof {
                        crate::kv::lemma_kv_map_index(list@, i as int);
                        let ghost s = list@[i as int].0@;
                        assert(options.view_map().dom().contains(s));
                        assert(options.view_map()[s] == crate::argument_parser::collection_view(
                            list@[i as int].1,
                        ));
                        assert(options.view_map()[s] is SelectTerms && scope_views(
                            existing@,
                        ).contains((s, Option::<Seq<char>>::None)));
                    }
                    return Err(
                        DataStoreError::StateConflict {
                            kind: ConflictKind::SchoolFullyCovered,
                            message: String::from_str(
                                "cannot select terms: the whole school is already synced",
                            ),
                        },
                    );
                }
                let m = ts.len();
                let mut k: usize = 0;
                while k < m
                    invariant
                        0 <= k <= m,
                        m == ts@.len(),
                        options.wf(),
                        n == list@.len(),
                        0 <= i < n,
                        list@[i as int].1 == CollectionType::SelectTermData(*ts),
                        unique_term_views(ts@),
                        !scope_views(existing@).contains(
                            (list@[i as int].0@, Option::<Seq<char>>::None),
                        ),
                        scope_views(plan@).no_duplicates(),
                        forall|q: int|
                            0 <= q < plan@.len() ==> (planned_by_prefix(
                                list@.take(i as int),
                                #[trigger] scope_views(plan@)[q],
                            ) || term_of_prefix(
                                list@[i as int].0@,
                                ts@.take(k as int),
                                scope_views(plan@)[q],
                            )) && !scope_views(existing@).contains(scope_views(plan@)[q]),
                        forall|row: (Seq<char>, Option<Seq<char>>)|
                            (planned_by_prefix(list@.take(i as int), row) || term_of_prefix(
                                list@[i as int].0@,
                                ts@.take(k as int),
                                row,
                            )) && !scope_views(existing@).contains(row)
                                ==> #[trigger] scope_views(plan@).contains(row),
                    decreases m - k,
                {
                    let ghost trow = (list@[i as int].0@, Some(ts@[k as int]@));
                    let ghost entry_plan = plan@;
                    if !contains_term_row(existing, &list[i].0, &ts[k]) {
                        let ghost old_plan = plan@;
                        let already = contains_term_row(&plan, &list[i].0, &ts[k]);
                        if !already {
                            plan.push((list[i].0.clone(), Some(ts[k].clone())));
                            proof {
                                assert(scope_views(plan@) =~= scope_views(old_plan).push(trow));
                                assert(scope_views(plan@)[scope_views(plan@).len() - 1] == trow);
                                assert(scope_views(plan@).contains(trow));
                                assert(scope_views(plan@).no_duplicates()) by {
                                    assert(forall|a: int|
                                        0 <= a < scope_views(old_plan).len()
                                            ==> #[trigger] scope_views(old_plan)[a] != trow);
                                }
                            }
                        } else {
                            proof {
                                assert(scope_views(plan@).contains(trow));
                            }
                        }
                    }
                    proof {
                        assert(!scope_views(existing@).contains(trow) ==> scope_views(
                            plan@,
                        ).contains(trow));
                        assert forall|row: (Seq<char>, Option<Seq<char>>)|
                            scope_views(entry_plan).contains(row) implies #[trigger] scope_views(
                            plan@,
                        ).contains(row) by {
                            let a = choose|a: int|
                                0 <= a < scope_views(entry_plan).len() && scope_views(entry_plan)[a]
                                    == row;
                            assert(scope_views(plan@)[a] == row);
                        }
                    }
                    proof {
                        assert(ts@.take(k + 1).drop_last() =~= ts@.take(k as int));
                        assert forall|q: int|
                            0 <= q < plan@.len() implies (planned_by_prefix(
                            list@.take(i as int),
                            #[trigger] scope_views(plan@)[q],
                        ) || term_of_prefix(
                            list@[i as int].0@,
                            ts@.take(k + 1),
                            scope_views(plan@)[q],
                        )) && !scope_views(existing@).contains(scope_views(plan@)[q]) by {
                            if scope_views(plan@)[q] == trow {
                                assert(ts@.take(k + 1).map_values(|x: String| x@)[k as int]
                                    == ts@[k as int]@);
                                assert(term_of_prefix(
                                    list@[i as int].0@,
                                    ts@.take(k + 1),
                                    trow,
                                ));
                            } else if term_of_prefix(
                                list@[i as int].0@,
                                ts@.take(k as int),
                                scope_views(plan@)[q],
                            ) {
                                lemma_terms_mono(
                                    list@[i as int].0@,
                                    ts@,
                                    k as int,
                                    scope_views(plan@)[q],
                                );
                            }
                        }
                        assert forall|row: (Seq<char>, Option<Seq<char>>)|
                            (planned_by_prefix(list@.take(i as int), row) || term_of_prefix(
                                list@[i as int].0@,
                                ts@.take(k + 1),
                                row,
                            )) && !scope_views(existing@).contains(row) implies #[trigger] scope_views(
                            plan@,
                        ).contains(row) by {
                            if planned_by_prefix(list@.take(i as int), row) || term_of_prefix(
                                list@[i as int].0@,
                                ts@.take(k as int),
                                row,
                            ) {
                                assert(scope_views(entry_plan).contains(row));
                            } else {
                                assert(term_of_prefix(list@[i as int].0@, ts@.take(k + 1), row));
                                let tv = row.1->Some_0;
                                let mm = ts@.take(k + 1).map_values(|x: String| x@);
                                let q = choose|q: int| 0 <= q < mm.len() && mm[q] == tv;
                                if q < k {
                                    assert(ts@.take(k as int).map_values(|x: String| x@)[q] == tv);
                                    assert(term_of_prefix(
                                        list@[i as int].0@,
                                        ts@.take(k as int),
                                        row,
                                    ));
                                } else {
                                    assert(mm[q] == ts@[k as int]@);
                                    assert(row == trow);
                                }
                            }
                        }
                    }
                    k += 1;
                }
                proof {
                    assert(ts@.take(m as int) =~= ts@);
                    lemma_planned_step_terms(
                        list@,
                        i as int,
                        *ts,
                        scope_views(existing@),
                        scope_views(plan@),
                    );
                }
            },
        }
        i += 1;
    }
    proof {
        assert(list@.take(n as int) =~= list@);
        lemma_planned_full(list@, options.view_map(), scope_views(existing@), *options);
        crate::kv::lemma_kv_map_dom(list@);
        assert forall|sc: Seq<char>|
            options.view_map().dom().contains(sc) && (#[trigger] options.view_map()[sc]) is
            SelectTerms implies !scope_views(existing@).contains(
            (sc, Option::<Seq<char>>::None),
        ) by {
            assert(crate::kv::has_key(list@, sc));
            let j = choose|j: int| 0 <= j < list@.len() && list@[j].0@ == sc;
            crate::kv::lemma_kv_map_index(list@, j);
            assert(options.view_map()[sc] == crate::argument_parser::collection_view(list@[j].1));
            assert(list@[j].1 is SelectTermData);
        }
    }
    Ok(plan)
}

/// Unique term views in a term list.
pub open spec fn unique_term_views(ts: Seq<String>) -> bool {
    crate::argument_parser::unique_keys_str(ts)
}

/// Whether a prefix of the selection list asks for this row.
pub open spec fn planned_by_prefix(
    prefix: Seq<(String, CollectionType)>,
    row: (Seq<char>, Option<Seq<char>>),
) -> bool {
    exists|j: int|
        0 <= j < prefix.len() && #[trigger] prefix[j].0@ == row.0 && match (prefix[j].1, row.1) {
            (CollectionType::AllSchoolData, Option::None) => true,
            (CollectionType::SelectTermData(ts), Option::Some(t)) => ts@.map_values(
                |x: String| x@,
            ).contains(t),
            _ => false,
        }
}

/// Whether this row is one of the given school's terms taken so far.
pub open spec fn term_of_prefix(
    school: Seq<char>,
    terms: Seq<String>,
    row: (Seq<char>, Option<Seq<char>>),
) -> bool {
    row.0 == school && (row.1 matches Some(t) && terms.map_values(|x: String| x@).contains(t))
}

/// A row planned from a list prefix is planned from any longer prefix.
proof fn lemma_prefix_mono(
    list: Seq<(String, CollectionType)>,
    i: int,
    row: (Seq<char>, Option<Seq<char>>),
)
    requires
        0 <= i < list.len(),
        planned_by_prefix(list.take(i), row),
    ensures
        planned_by_prefix(list.take(i + 1), row),
{
    let prefix = list.take(i);
    let j = choose|j: int|
        0 <= j < prefix.len() && #[trigger] prefix[j].0@ == row.0 && match (prefix[j].1, row.1) {
            (CollectionType::AllSchoolData, Option::None) => true,
            (CollectionType::SelectTermData(ts), Option::Some(t)) => ts@.map_values(
                |x: String| x@,
            ).contains(t),
            _ => false,
        };
    assert(list.take(i + 1)[j] == prefix[j]);
}

/// A term row of a term-list prefix is one of any longer prefix.
proof fn lemma_terms_mono(
    school: Seq<char>,
    ts: Seq<String>,
    k: int,
    row: (Seq<char>, Option<Seq<char>>),
)
    requires
        0 <= k < ts.len(),
        term_of_prefix(school, ts.take(k), row),
    ensures
        term_of_prefix(school, ts.take(k + 1), row),
{
    let t = row.1->Some_0;
    let m = ts.take(k).map_values(|x: String| x@);
    let q = choose|q: int| 0 <= q < m.len() && m[q] == t;
    assert(ts.take(k + 1).map_values(|x: String| x@)[q] == t);
}

/// Processing a whole-school selection entry whose row is new: pushing the
/// row keeps the plan exact for the longer prefix.
proof fn lemma_planned_step_all(
    list: Seq<(String, CollectionType)>,
    i: int,
    ex: Seq<(Seq<char>, Option<Seq<char>>)>,
    old_plan: Seq<(Seq<char>, Option<Seq<char>>)>,
    new_plan: Seq<(Seq<char>, Option<Seq<char>>)>,
)
    requires
        crate::kv::unique_keys(list),
        0 <= i < list.len(),
        list[i].1 is AllSchoolData,
        new_plan == old_plan.push((list[i].0@, Option::<Seq<char>>::None)),
        !ex.contains((list[i].0@, Option::<Seq<char>>::None)),
        old_plan.no_duplicates(),
        forall|k: int|
            0 <= k < old_plan.len() ==> planned_by_prefix(list.take(i), #[trigger] old_plan[k])
                && !ex.contains(old_plan[k]),
        forall|row: (Seq<char>, Option<Seq<char>>)|
            planned_by_prefix(list.take(i), row) && !ex.contains(row) ==> #[trigger] old_plan.contains(
                row,
            ),
    ensures
        new_plan.no_duplicates(),
        forall|k: int|
            0 <= k < new_plan.len() ==> planned_by_prefix(list.take(i + 1), #[trigger] new_plan[k])
                && !ex.contains(new_plan[k]),
        forall|row: (Seq<char>, Option<Seq<char>>)|
            planned_by_prefix(list.take(i + 1), row) && !ex.contains(row) ==> #[trigger] new_plan.contains(
                row,
            ),
{
    let srow = (list[i].0@, Option::<Seq<char>>::None);
    assert(!old_plan.contains(srow)) by {
        if old_plan.contains(srow) {
            let k = choose|k: int| 0 <= k < old_plan.len() && old_plan[k] == srow;
            assert(planned_by_prefix(list.take(i), srow));
            let prefix = list.take(i);
            let j = choose|j: int|
                0 <= j < prefix.len() && #[trigger] prefix[j].0@ == srow.0 && match (
                prefix[j].1,
                srow.1,
            ) {
                    (CollectionType::AllSchoolData, Option::None) => true,
                    (CollectionType::SelectTermData(ts), Option::Some(t)) => ts@.map_values(
                        |x: String| x@,
                    ).contains(t),
                    _ => false,
                };
            assert(list[j].0@ == list[i].0@);
        }
    }
    assert forall|k: int|
        0 <= k < new_plan.len() implies planned_by_prefix(list.take(i + 1), #[trigger] new_plan[k])
        && !ex.contains(new_plan[k]) by {
        if k < old_plan.len() {
            assert(new_plan[k] == old_plan[k]);
            lemma_prefix_mono(list, i, old_plan[k]);
        } else {
            assert(new_plan[k] == srow);
            assert(list.take(i + 1)[i] == list[i]);
            assert(planned_by_prefix(list.take(i + 1), srow));
        }
    }
    assert forall|row: (Seq<char>, Option<Seq<char>>)|
        planned_by_prefix(list.take(i + 1), row) && !ex.contains(row) implies #[trigger] new_plan.contains(
        row,
    ) by {
        let prefix = list.take(i + 1);
        let j = choose|j: int|
            0 <= j < prefix.len() && #[trigger] prefix[j].0@ == row.0 && match (
            prefix[j].1,
            row.1,
        ) {
                (CollectionType::AllSchoolData, Option::None) => true,
                (CollectionType::SelectTermData(ts), Option::Some(t)) => ts@.map_values(
                    |x: String| x@,
                ).contains(t),
                _ => false,
            };
        if j < i {
            assert(list.take(i)[j] == prefix[j]);
            assert(planned_by_prefix(list.take(i), row));
            assert(old_plan.contains(row));
            let k = choose|k: int| 0 <= k < old_plan.len() && old_plan[k] == row;
            assert(new_plan[k] == row);
        } else {
            assert(prefix[j] == list[i]);
            assert(row == srow);
            assert(new_plan[old_plan.len() as int] == srow);
        }
    }
}

/// Processing a whole-school selection entry whose row is already
/// registered: the plan is unchanged and stays exact for the longer prefix.
proof fn lemma_planned_step_all_skip(
    list: Seq<(String, CollectionType)>,
    i: int,
    ex: Seq<(Seq<char>, Option<Seq<char>>)>,
    plan: Seq<(Seq<char>, Option<Seq<char>>)>,
)
    requires
        0 <= i < list.len(),
        list[i].1 is AllSchoolData,
        ex.contains((list[i].0@, Option::<Seq<char>>::None)),
        forall|k: int|
            0 <= k < plan.len() ==> planned_by_prefix(list.take(i), #[trigger] plan[k])
                && !ex.contains(plan[k]),
        forall|row: (Seq<char>, Option<Seq<char>>)|
            planned_by_prefix(list.take(i), row) && !ex.contains(row) ==> #[trigger] plan.contains(
                row,
            ),
    ensures
        forall|k: int|
            0 <= k < plan.len() ==> planned_by_prefix(list.take(i + 1), #[trigger] plan[k])
                && !ex.contains(plan[k]),
        forall|row: (Seq<char>, Option<Seq<char>>)|
            planned_by_prefix(list.take(i + 1), row) && !ex.contains(row) ==> #[trigger] plan.contains(
                row,
            ),
{
    assert forall|k: int|
        0 <= k < plan.len() implies planned_by_prefix(list.take(i + 1), #[trigger] plan[k])
        && !ex.contains(plan[k]) by {
        lemma_prefix_mono(list, i, plan[k]);
    }
    assert forall|row: (Seq<char>, Option<Seq<char>>)|
        planned_by_prefix(list.take(i + 1), row) && !ex.contains(row) implies #[trigger] plan.contains(
        row,
    ) by {
        let prefix = list.take(i + 1);
        let j = choose|j: int|
            0 <= j < prefix.len() && #[trigger] prefix[j].0@ == row.0 && match (
            prefix[j].1,
            row.1,
        ) {
                (CollectionType::AllSchoolData, Option::None) => true,
                (CollectionType::SelectTermData(ts), Option::Some(t)) => ts@.map_values(
                    |x: String| x@,
                ).contains(t),
                _ => false,
            };
        if j < i {
            assert(list.take(i)[j] == prefix[j]);
            assert(planned_by_prefix(list.take(i), row));
        } else {
            assert(prefix[j] == list[i]);
            assert(row == (list[i].0@, Option::<Seq<char>>::None));
        }
    }
}

/// After every term of a term-level selection entry has been taken, the
/// mixed prefix-or-term form collapses to the longer list prefix.
proof fn lemma_planned_step_terms(
    list: Seq<(String, CollectionType)>,
    i: int,
    ts: Vec<String>,
    ex: Seq<(Seq<char>, Option<Seq<char>>)>,
    plan: Seq<(Seq<char>, Option<Seq<char>>)>,
)
    requires
        0 <= i < list.len(),
        list[i].1 == CollectionType::SelectTermData(ts),
        forall|k: int|
            0 <= k < plan.len() ==> (planned_by_prefix(list.take(i), #[trigger] plan[k])
                || term_of_prefix(list[i].0@, ts@, plan[k])) && !ex.contains(plan[k]),
        forall|row: (Seq<char>, Option<Seq<char>>)|
            (planned_by_prefix(list.take(i), row) || term_of_prefix(list[i].0@, ts@, row))
                && !ex.contains(row) ==> #[trigger] plan.contains(row),
    ensures
        forall|k: int|
            0 <= k < plan.len() ==> planned_by_prefix(list.take(i + 1), #[trigger] plan[k])
                && !ex.contains(plan[k]),
        forall|row: (Seq<char>, Option<Seq<char>>)|
            planned_by_prefix(list.take(i + 1), row) && !ex.contains(row) ==> #[trigger] plan.contains(
                row,
            ),
{
    assert forall|k: int|
        0 <= k < plan.len() implies planned_by_prefix(list.take(i + 1), #[trigger] plan[k])
        && !ex.contains(plan[k]) by {
        if planned_by_prefix(list.take(i), plan[k]) {
            lemma_prefix_mono(list, i, plan[k]);
        } else {
            assert(term_of_prefix(list[i].0@, ts@, plan[k]));
            assert(list.take(i + 1)[i] == list[i]);
            assert(planned_by_prefix(list.take(i + 1), plan[k]));
        }
    }
    assert forall|row: (Seq<char>, Option<Seq<char>>)|
        planned_by_prefix(list.take(i + 1), row) && !ex.contains(row) implies #[trigger] plan.contains(
        row,
    ) by {
        let prefix = list.take(i + 1);
        let j = choose|j: int|
            0 <= j < prefix.len() && #[trigger] prefix[j].0@ == row.0 && match (
            prefix[j].1,
            row.1,
        ) {
                (CollectionType::AllSchoolData, Option::None) => true,
                (CollectionType::SelectTermData(ws), Option::Some(t)) => ws@.map_values(
                    |x: String| x@,
                ).contains(t),
                _ => false,
            };
        if j < i {
            assert(list.take(i)[j] == prefix[j]);
            assert(planned_by_prefix(list.take(i), row));
        } else {
            assert(prefix[j] == list[i]);
            assert(term_of_prefix(list[i].0@, ts@, row));
        }
    }
}

/// Over the whole selection list, "planned by prefix" is exactly "requested
/// by the selection's map view".
proof fn lemma_planned_full(
    list: Seq<(String, CollectionType)>,
    v: Map<Seq<char>, CollectionView>,
    ex: Seq<(Seq<char>, Option<Seq<char>>)>,
    options: SelectSyncOptions,
)
    requires
        options.school_to_collection@ == list,
        options.wf(),
        v == options.view_map(),
    ensures
        forall|row: (Seq<char>, Option<Seq<char>>)|
            #[trigger] row_requested(v, row) <==> planned_by_prefix(list, row),
{
    crate::kv::lemma_kv_map_dom(list);
    assert forall|row: (Seq<char>, Option<Seq<char>>)|
        #[trigger] row_requested(v, row) implies planned_by_prefix(list, row) by {
        assert(crate::kv::has_key(list, row.0));
        let j = choose|j: int| 0 <= j < list.len() && list[j].0@ == row.0;
        crate::kv::lemma_kv_map_index(list, j);
        assert(v[row.0] == crate::argument_parser::collection_view(list[j].1));
        assert(list.take(list.len() as int) =~= list);
        match (list[j].1, row.1) {
            (CollectionType::AllSchoolData, Option::None) => {
                assert(planned_by_prefix(list, row));
            },
            (CollectionType::SelectTermData(ts), Option::Some(t)) => {
                assert(ts@.map_values(|x: String| x@).to_set().contains(t));
                assert(ts@.map_values(|x: String| x@).contains(t));
                assert(planned_by_prefix(list, row));
            },
            _ => {
                assert(false);
            },
        }
    }
    assert forall|row: (Seq<char>, Option<Seq<char>>)|
        planned_by_prefix(list, row) implies #[trigger] row_requested(v, row) by {
        let j = choose|j: int|
            0 <= j < list.len() && #[trigger] list[j].0@ == row.0 && match (list[j].1, row.1) {
                (CollectionType::AllSchoolData, Option::None) => true,
                (CollectionType::SelectTermData(ts), Option::Some(t)) => ts@.map_values(
                    |x: String| x@,
                ).contains(t),
                _ => false,
            };
        crate::kv::lemma_kv_map_index(list, j);
        assert(v.dom().contains(row.0));
        assert(v[row.0] == crate::argument_parser::collection_view(list[j].1));
    }
}

/// After registering exactly the planned rows, every requested row is
/// present once more than before (unless it was already registered), and
/// every other row's count is unchanged.
proof fn lemma_set_select_counts(
    before: Multiset<(Seq<char>, Option<Seq<char>>)>,
    after: Multiset<(Seq<char>, Option<Seq<char>>)>,
    ex: Seq<(Seq<char>, Option<Seq<char>>)>,
    plan: Seq<(Seq<char>, Option<Seq<char>>)>,
    v: Map<Seq<char>, CollectionView>,
)
    requires
        ex.to_multiset() == before,
        after == before.add(plan.to_multiset()),
        plan.no_duplicates(),
        forall|x: (Seq<char>, Option<Seq<char>>)|
            plan.to_multiset().contains(x) ==> plan.to_multiset().count(x) == 1,
        forall|k: int|
            0 <= k < plan.len() ==> row_requested(v, #[trigger] plan[k]) && !ex.contains(plan[k]),
        forall|row: (Seq<char>, Option<Seq<char>>)|
            row_requested(v, row) && !ex.contains(row) ==> #[trigger] plan.contains(row),
    ensures
        forall|row: (Seq<char>, Option<Seq<char>>)|
            !row_requested(v, row) ==> #[trigger] after.count(row) == before.count(row),
        forall|row: (Seq<char>, Option<Seq<char>>)|
            #[trigger] row_requested(v, row) ==> after.count(row) == if before.contains(row) {
                before.count(row)
            } else {
                before.count(row) + 1
            },
{
    broadcast use vstd::seq_lib::group_to_multiset_ensures;
    broadcast use vstd::multiset::group_multiset_axioms;

    assert forall|row: (Seq<char>, Option<Seq<char>>)|
        !row_requested(v, row) implies #[trigger] after.count(row) == before.count(row) by {
        assert(!plan.contains(row)) by {
            if plan.contains(row) {
                let k = choose|k: int| 0 <= k < plan.len() && plan[k] == row;
                assert(row_requested(v, plan[k]));
            }
        }
        assert(plan.to_multiset().count(row) == 0);
    }
    assert forall|row: (Seq<char>, Option<Seq<char>>)|
        #[trigger] row_requested(v, row) implies after.count(row) == if before.contains(row) {
        before.count(row)
    } else {
        before.count(row) + 1
    } by {
        if before.contains(row) {
            assert(ex.to_multiset().count(row) > 0);
            assert(ex.contains(row));
            assert(!plan.contains(row)) by {
                if plan.contains(row) {
                    let k = choose|k: int| 0 <= k < plan.len() && plan[k] == row;
                    assert(!ex.contains(plan[k]));
                }
            }
            assert(plan.to_multiset().count(row) == 0);
        } else {
            assert(ex.to_multiset().count(row) == 0);
            assert(!ex.contains(row)) by {
                if ex.contains(row) {
                    assert(ex.to_multiset().count(row) > 0);
                }
            }
            assert(plan.contains(row));
            assert(plan.to_multiset().contains(row));
            assert(plan.to_multiset().count(row) == 1);
        }
    }
}

/// The strict/lenient row-count contract: exactly one affected row is
/// expected per record; in strict mode any other count is a hard
/// row-count-mismatch failure carrying the statement text and both counts,
/// in lenient mode it is treated as success.
pub fn check_row_count(count: usize, strict: bool, query: String) -> (r: Result<
    (),
    DataStoreError,
>)
    ensures
        count == 1 ==> r is Ok,
        count != 1 && !strict ==> r is Ok,
        count != 1 && strict ==> (r matches Err(e) && e matches DataStoreError::RowCountMismatch {
            query: q,
            result,
            expected,
        } && q@ == query@ && result == count && expected == 1),
{
    if count == 1 || !strict {
        Ok(())
    } else {
        Err(DataStoreError::RowCountMismatch { query, result: count, expected: 1 })
    }
}

/// The per-school watermark rows a select result carries.
pub open spec fn payload_school_marks(entries: Seq<(String, SchoolEntry)>) -> Multiset<
    (Seq<char>, u64),
>
    decreases entries.len(),
{
    if entries.len() == 0 {
        Multiset::empty()
    } else {
        payload_school_marks(entries.drop_last()).add(
            match entries.last().1 {
                SchoolEntry::Sequence(n) => Multiset::singleton((entries.last().0@, n)),
                SchoolEntry::TermToSequence(_) => Multiset::empty(),
            },
        )
    }
}

/// The per-term watermark rows of one school's term list.
pub open spec fn school_term_marks(school: Seq<char>, ts: Seq<(String, u64)>) -> Multiset<
    (Seq<char>, Seq<char>, u64),
>
    decreases ts.len(),
{
    if ts.len() == 0 {
        Multiset::empty()
    } else {
        school_term_marks(school, ts.drop_last()).insert(
            (school, ts.last().0@, ts.last().1),
        )
    }
}

/// The per-term watermark rows a select result carries.
pub open spec fn payload_term_marks(entries: Seq<(String, SchoolEntry)>) -> Multiset<
    (Seq<char>, Seq<char>, u64),
>
    decreases entries.len(),
{
    if entries.len() == 0 {
        Multiset::empty()
    } else {
        payload_term_marks(entries.drop_last()).add(
            match entries.last().1 {
                SchoolEntry::Sequence(_) => Multiset::empty(),
                SchoolEntry::TermToSequence(ts) => school_term_marks(entries.last().0@, ts@),
            },
        )
    }
}

/// Whether the selection asks for this term watermark row to go.
pub open spec fn term_unselected(
    v: Map<Seq<char>, CollectionView>,
    row: (Seq<char>, Seq<char>, u64),
) -> bool {
    v.dom().contains(row.0) && (v[row.0] matches CollectionView::SelectTerms(ts) && ts.contains(
        row.1,
    ))
}

/// Whether the term list holds a term with this text.
pub open spec fn term_in(ts: Seq<String>, t: Seq<char>) -> bool {
    ts.map_values(|x: String| x@).contains(t)
}

/// Whether a prefix of the selection list names this school whole.
pub open spec fn school_of_prefix(prefix: Seq<(String, CollectionType)>, s: Seq<char>) -> bool {
    exists|j: int|
        0 <= j < prefix.len() && #[trigger] prefix[j].0@ == s && prefix[j].1 is AllSchoolData
}

/// Whether a prefix of the selection list names this (school, term) pair.
pub open spec fn term_pair_of_prefix(
    prefix: Seq<(String, CollectionType)>,
    s: Seq<char>,
    t: Seq<char>,
) -> bool {
    exists|j: int|
        0 <= j < prefix.len() && #[trigger] prefix[j].0@ == s && (prefix[j].1 matches
            CollectionType::SelectTermData(ts) && ts@.map_values(|x: String| x@).contains(t))
}

/// Extending the selection prefix by a whole-school entry extends the
/// planned rows by exactly that school's whole-school row.
proof fn lemma_prefix_snoc_all(list: Seq<(String, CollectionType)>, i: int)
    requires
        0 <= i < list.len(),
        list[i].1 is AllSchoolData,
    ensures
        forall|row: (Seq<char>, Option<Seq<char>>)|
            #[trigger] planned_by_prefix(list.take(i + 1), row) <==> (planned_by_prefix(
                list.take(i),
                row,
            ) || row == (list[i].0@, Option::<Seq<char>>::None)),
        forall|sc: Seq<char>|
            #[trigger] school_of_prefix(list.take(i + 1), sc) <==> (school_of_prefix(
                list.take(i),
                sc,
            ) || sc == list[i].0@),
        forall|sc: Seq<char>, t: Seq<char>|
            #[trigger] term_pair_of_prefix(list.take(i + 1), sc, t) <==> term_pair_of_prefix(
                list.take(i),
                sc,
                t,
            ),
{
    assert(list.take(i + 1).drop_last() =~= list.take(i));
    assert forall|row: (Seq<char>, Option<Seq<char>>)|
        #[trigger] planned_by_prefix(list.take(i + 1), row) implies (planned_by_prefix(
        list.take(i),
        row,
    ) || row == (list[i].0@, Option::<Seq<char>>::None)) by {
        let prefix = list.take(i + 1);
        let j = choose|j: int|
            0 <= j < prefix.len() && #[trigger] prefix[j].0@ == row.0 && match (
            prefix[j].1,
            row.1,
        ) {
                (CollectionType::AllSchoolData, Option::None) => true,
                (CollectionType::SelectTermData(ts), Option::Some(t)) => ts@.map_values(
                    |x: String| x@,
                ).contains(t),
                _ => false,
            };
        if j < i {
            assert(list.take(i)[j] == prefix[j]);
            assert(planned_by_prefix(list.take(i), row));
        } else {
            assert(prefix[j] == list[i]);
        }
    }
    assert forall|row: (Seq<char>, Option<Seq<char>>)|
        (planned_by_prefix(list.take(i), row) || row == (
        list[i].0@,
        Option::<Seq<char>>::None,
        )) implies #[trigger] planned_by_prefix(list.take(i + 1), row) by {
        if planned_by_prefix(list.take(i), row) {
            lemma_prefix_mono(list, i, row);
        } else {
            assert(list.take(i + 1)[i] == list[i]);
        }
    }
    assert forall|sc: Seq<char>|
        #[trigger] school_of_prefix(list.take(i + 1), sc) implies (school_of_prefix(
        list.take(i),
        sc,
    ) || sc == list[i].0@) by {
        let prefix = list.take(i + 1);
        let j = choose|j: int|
            0 <= j < prefix.len() && #[trigger] prefix[j].0@ == sc && prefix[j].1 is AllSchoolData;
        if j < i {
            assert(list.take(i)[j] == prefix[j]);
        } else {
            assert(prefix[j] == list[i]);
        }
    }
    assert forall|sc: Seq<char>|
        (school_of_prefix(list.take(i), sc) || sc == list[i].0@) implies #[trigger] school_of_prefix(
        list.take(i + 1),
        sc,
    ) by {
        if school_of_prefix(list.take(i), sc) {
            let j = choose|j: int|
                0 <= j < list.take(i).len() && #[trigger] list.take(i)[j].0@ == sc && list.take(
                    i,
                )[j].1 is AllSchoolData;
            assert(list.take(i + 1)[j] == list.take(i)[j]);
        } else {
            assert(list.take(i + 1)[i] == list[i]);
        }
    }
    assert forall|sc: Seq<char>, t: Seq<char>|
        #[trigger] term_pair_of_prefix(list.take(i + 1), sc, t) implies term_pair_of_prefix(
        list.take(i),
        sc,
        t,
    ) by {
        let prefix = list.take(i + 1);
        let j = choose|j: int|
            0 <= j < prefix.len() && #[trigger] prefix[j].0@ == sc && (prefix[j].1 matches
                CollectionType::SelectTermData(ts) && ts@.map_values(|x: String| x@).contains(t));
        assert(j < i);
        assert(list.take(i)[j] == prefix[j]);
    }
    assert forall|sc: Seq<char>, t: Seq<char>|
        term_pair_of_prefix(list.take(i), sc, t) implies #[trigger] term_pair_of_prefix(
        list.take(i + 1),
        sc,
        t,
    ) by {
        let j = choose|j: int|
            0 <= j < list.take(i).len() && #[trigger] list.take(i)[j].0@ == sc && (list.take(
                i,
            )[j].1 matches CollectionType::SelectTermData(ts) && ts@.map_values(
                |x: String| x@,
            ).contains(t));
        assert(list.take(i + 1)[j] == list.take(i)[j]);
    }
}

/// Extending the selection prefix by a term-level entry extends the planned
/// rows by exactly that school's term rows, and the term pairs likewise.
proof fn lemma_prefix_snoc_terms(list: Seq<(String, CollectionType)>, i: int, ts: Vec<String>)
    requires
        0 <= i < list.len(),
        list[i].1 == CollectionType::SelectTermData(ts),
    ensures
        forall|row: (Seq<char>, Option<Seq<char>>)|
            #[trigger] planned_by_prefix(list.take(i + 1), row) <==> (planned_by_prefix(
                list.take(i),
                row,
            ) || term_of_prefix(list[i].0@, ts@, row)),
        forall|sc: Seq<char>|
            #[trigger] school_of_prefix(list.take(i + 1), sc) <==> school_of_prefix(
                list.take(i),
                sc,
            ),
        forall|sc: Seq<char>, t: Seq<char>|
            #[trigger] term_pair_of_prefix(list.take(i + 1), sc, t) <==> (term_pair_of_prefix(
                list.take(i),
                sc,
                t,
            ) || (sc == list[i].0@ && ts@.map_values(|x: String| x@).contains(t))),
{
    assert(list.take(i + 1).drop_last() =~= list.take(i));
    assert forall|row: (Seq<char>, Option<Seq<char>>)|
        #[trigger] planned_by_prefix(list.take(i + 1), row) implies (planned_by_prefix(
        list.take(i),
        row,
    ) || term_of_prefix(list[i].0@, ts@, row)) by {
        let prefix = list.take(i + 1);
        let j = choose|j: int|
            0 <= j < prefix.len() && #[trigger] prefix[j].0@ == row.0 && match (
            prefix[j].1,
            row.1,
        ) {
                (CollectionType::AllSchoolData, Option::None) => true,
                (CollectionType::SelectTermData(ws), Option::Some(t)) => ws@.map_values(
                    |x: String| x@,
                ).contains(t),
                _ => false,
            };
        if j < i {
            assert(list.take(i)[j] == prefix[j]);
            assert(planned_by_prefix(list.take(i), row));
        } else {
            assert(prefix[j] == list[i]);
        }
    }
    assert forall|row: (Seq<char>, Option<Seq<char>>)|
        (planned_by_prefix(list.take(i), row) || term_of_prefix(
            list[i].0@,
            ts@,
            row,
        )) implies #[trigger] planned_by_prefix(list.take(i + 1), row) by {
        if planned_by_prefix(list.take(i), row) {
            lemma_prefix_mono(list, i, row);
        } else {
            assert(list.take(i + 1)[i] == list[i]);
        }
    }
    assert forall|sc: Seq<char>|
        #[trigger] school_of_prefix(list.take(i + 1), sc) implies school_of_prefix(
        list.take(i),
        sc,
    ) by {
        let prefix = list.take(i + 1);
        let j = choose|j: int|
            0 <= j < prefix.len() && #[trigger] prefix[j].0@ == sc && prefix[j].1 is AllSchoolData;
        assert(j < i);
        assert(list.take(i)[j] == prefix[j]);
    }
    assert forall|sc: Seq<char>|
        school_of_prefix(list.take(i), sc) implies #[trigger] school_of_prefix(
        list.take(i + 1),
        sc,
    ) by {
        let j = choose|j: int|
            0 <= j < list.take(i).len() && #[trigger] list.take(i)[j].0@ == sc && list.take(
                i,
            )[j].1 is AllSchoolData;
        assert(list.take(i + 1)[j] == list.take(i)[j]);
    }
    assert forall|sc: Seq<char>, t: Seq<char>|
        #[trigger] term_pair_of_prefix(list.take(i + 1), sc, t) implies (term_pair_of_prefix(
        list.take(i),
        sc,
        t,
    ) || (sc == list[i].0@ && ts@.map_values(|x: String| x@).contains(t))) by {
        let prefix = list.take(i + 1);
        let j = choose|j: int|
            0 <= j < prefix.len() && #[trigger] prefix[j].0@ == sc && (prefix[j].1 matches
                CollectionType::SelectTermData(ws) && ws@.map_values(|x: String| x@).contains(t));
        if j < i {
            assert(list.take(i)[j] == prefix[j]);
        } else {
            assert(prefix[j] == list[i]);
        }
    }
    assert forall|sc: Seq<char>, t: Seq<char>|
        (term_pair_of_prefix(list.take(i), sc, t) || (sc == list[i].0@ && ts@.map_values(
            |x: String| x@,
        ).contains(t))) implies #[trigger] term_pair_of_prefix(list.take(i + 1), sc, t) by {
        if term_pair_of_prefix(list.take(i), sc, t) {
            let j = choose|j: int|
                0 <= j < list.take(i).len() && #[trigger] list.take(i)[j].0@ == sc && (list.take(
                    i,
                )[j].1 matches CollectionType::SelectTermData(ws) && ws@.map_values(
                    |x: String| x@,
                ).contains(t));
            assert(list.take(i + 1)[j] == list.take(i)[j]);
        } else {
            assert(list.take(i + 1)[i] == list[i]);
        }
    }
}

/// Taking one more term extends the term rows by exactly that term.
proof fn lemma_terms_snoc(school: Seq<char>, ts: Seq<String>, j: int)
    requires
        0 <= j < ts.len(),
    ensures
        forall|row: (Seq<char>, Option<Seq<char>>)|
            #[trigger] term_of_prefix(school, ts.take(j + 1), row) <==> (term_of_prefix(
                school,
                ts.take(j),
                row,
            ) || row == (school, Some(ts[j]@))),
        forall|t: Seq<char>|
            #[trigger] term_in(ts.take(j + 1), t) <==> (term_in(ts.take(j), t) || t == ts[j]@),
{
    assert forall|t: Seq<char>|
        #[trigger] term_in(ts.take(j + 1), t) implies (term_in(ts.take(j), t) || t == ts[j]@) by {
        let mm = ts.take(j + 1).map_values(|x: String| x@);
        let q = choose|q: int| 0 <= q < mm.len() && mm[q] == t;
        if q < j {
            assert(ts.take(j).map_values(|x: String| x@)[q] == t);
        } else {
            assert(mm[q] == ts[j]@);
        }
    }
    assert forall|t: Seq<char>|
        (term_in(ts.take(j), t) || t == ts[j]@) implies #[trigger] term_in(ts.take(j + 1), t) by {
        if term_in(ts.take(j), t) {
            let mm = ts.take(j).map_values(|x: String| x@);
            let q = choose|q: int| 0 <= q < mm.len() && mm[q] == t;
            assert(ts.take(j + 1).map_values(|x: String| x@)[q] == t);
        } else {
            assert(ts.take(j + 1).map_values(|x: String| x@)[j] == ts[j]@);
        }
    }
    assert forall|row: (Seq<char>, Option<Seq<char>>)|
        #[trigger] term_of_prefix(school, ts.take(j + 1), row) <==> (term_of_prefix(
        school,
        ts.take(j),
        row,
    ) || row == (school, Some(ts[j]@))) by {
        if row.0 == school {
            match row.1 {
                Some(t) => {
                    assert(term_in(ts.take(j + 1), t) <==> (term_in(ts.take(j), t) || t
                        == ts[j]@));
                },
                None => {},
            }
        }
    }
}

/// Over the whole selection list, the prefix predicates are exactly the
/// map-view predicates.
proof fn lemma_unset_full(
    list: Seq<(String, CollectionType)>,
    v: Map<Seq<char>, CollectionView>,
    options: SelectSyncOptions,
)
    requires
        options.school_to_collection@ == list,
        options.wf(),
        v == options.view_map(),
    ensures
        forall|row: (Seq<char>, Option<Seq<char>>)|
            #[trigger] row_requested(v, row) <==> planned_by_prefix(list, row),
        forall|sc: Seq<char>|
            #[trigger] school_of_prefix(list, sc) <==> (v.dom().contains(sc) && v[sc] is All),
        forall|sc: Seq<char>, t: Seq<char>|
            #[trigger] term_pair_of_prefix(list, sc, t) <==> term_unselected(v, (sc, t, 0)),
{
    lemma_planned_full(list, v, Seq::<(Seq<char>, Option<Seq<char>>)>::empty(), options);
    crate::kv::lemma_kv_map_dom(list);
    assert forall|sc: Seq<char>|
        #[trigger] school_of_prefix(list, sc) implies (v.dom().contains(sc) && v[sc] is All) by {
        let j = choose|j: int|
            0 <= j < list.len() && #[trigger] list[j].0@ == sc && list[j].1 is AllSchoolData;
        crate::kv::lemma_kv_map_index(list, j);
        assert(v[sc] == crate::argument_parser::collection_view(list[j].1));
    }
    assert forall|sc: Seq<char>|
        v.dom().contains(sc) && v[sc] is All implies #[trigger] school_of_prefix(list, sc) by {
        assert(crate::kv::has_key(list, sc));
        let j = choose|j: int| 0 <= j < list.len() && list[j].0@ == sc;
        crate::kv::lemma_kv_map_index(list, j);
        assert(v[sc] == crate::argument_parser::collection_view(list[j].1));
        assert(list[j].1 is AllSchoolData);
    }
    assert forall|sc: Seq<char>, t: Seq<char>|
        #[trigger] term_pair_of_prefix(list, sc, t) implies term_unselected(v, (sc, t, 0)) by {
        let j = choose|j: int|
            0 <= j < list.len() && #[trigger] list[j].0@ == sc && (list[j].1 matches
                CollectionType::SelectTermData(ws) && ws@.map_values(|x: String| x@).contains(t));
        crate::kv::lemma_kv_map_index(list, j);
        assert(v[sc] == crate::argument_parser::collection_view(list[j].1));
    }
    assert forall|sc: Seq<char>, t: Seq<char>|
        term_unselected(v, (sc, t, 0)) implies #[trigger] term_pair_of_prefix(list, sc, t) by {
        assert(crate::kv::has_key(list, sc));
        let j = choose|j: int| 0 <= j < list.len() && list[j].0@ == sc;
        crate::kv::lemma_kv_map_index(list, j);
        assert(v[sc] == crate::argument_parser::collection_view(list[j].1));
        match list[j].1 {
            CollectionType::SelectTermData(ws) => {
                assert(ws@.map_values(|x: String| x@).to_set().contains(t));
                assert(ws@.map_values(|x: String| x@).contains(t));
            },
            CollectionType::AllSchoolData => {
                assert(false);
            },
        }
    }
}

/// The views of raw per-school watermark rows.
pub open spec fn school_mark_views(rows: Seq<(String, u64)>) -> Seq<(Seq<char>, u64)> {
    rows.map_values(|p: (String, u64)| (p.0@, p.1))
}

/// The views of raw per-term watermark rows.
pub open spec fn term_mark_views(rows: Seq<(String, String, u64)>) -> Seq<
    (Seq<char>, Seq<char>, u64),
> {
    rows.map_values(|p: (String, String, u64)| (p.0@, p.1@, p.2))
}

/// The largest watermark recorded for a school, or zero when none is.
pub open spec fn max_school_seq(marks: Seq<(Seq<char>, u64)>, s: Seq<char>) -> u64
    decreases marks.len(),
{
    if marks.len() == 0 {
        0
    } else {
        let rest = max_school_seq(marks.drop_last(), s);
        if marks.last().0 == s && marks.last().1 > rest {
            marks.last().1
        } else {
            rest
        }
    }
}

/// The largest watermark recorded for a (school, term) pair, or zero.
pub open spec fn max_term_seq(marks: Seq<(Seq<char>, Seq<char>, u64)>, s: Seq<char>, t: Seq<char>) -> u64
    decreases marks.len(),
{
    if marks.len() == 0 {
        0
    } else {
        let rest = max_term_seq(marks.drop_last(), s, t);
        if marks.last().0 == s && marks.last().1 == t && marks.last().2 > rest {
            marks.last().2
        } else {
            rest
        }
    }
}

/// The school max is zero or one of the school's recorded watermarks, and
/// bounds them all.
proof fn lemma_max_school_props(marks: Seq<(Seq<char>, u64)>, s: Seq<char>)
    ensures
        max_school_seq(marks, s) == 0 || marks.contains((s, max_school_seq(marks, s))),
        forall|x: u64| marks.contains((s, x)) ==> x <= max_school_seq(marks, s),
    decreases marks.len(),
{
    if marks.len() > 0 {
        lemma_max_school_props(marks.drop_last(), s);
        let d = marks.drop_last();
        if max_school_seq(marks, s) != 0 {
            if marks.last().0 == s && marks.last().1 > max_school_seq(d, s) {
                assert(marks[marks.len() - 1] == (s, max_school_seq(marks, s)));
            } else {
                assert(d.contains((s, max_school_seq(d, s))));
                let q = choose|q: int| 0 <= q < d.len() && d[q] == (s, max_school_seq(d, s));
                assert(marks[q] == (s, max_school_seq(marks, s)));
            }
        }
        assert forall|x: u64| marks.contains((s, x)) implies x <= max_school_seq(marks, s) by {
            let q = choose|q: int| 0 <= q < marks.len() && marks[q] == (s, x);
            if q < marks.len() - 1 {
                assert(d[q] == (s, x));
                assert(d.contains((s, x)));
            }
        }
    }
}

/// The term max is zero or one of the pair's recorded watermarks, and bounds
/// them all.
proof fn lemma_max_term_props(marks: Seq<(Seq<char>, Seq<char>, u64)>, s: Seq<char>, t: Seq<char>)
    ensures
        max_term_seq(marks, s, t) == 0 || marks.contains((s, t, max_term_seq(marks, s, t))),
        forall|x: u64| marks.contains((s, t, x)) ==> x <= max_term_seq(marks, s, t),
    decreases marks.len(),
{
    if marks.len() > 0 {
        lemma_max_term_props(marks.drop_last(), s, t);
        let d = marks.drop_last();
        if max_term_seq(marks, s, t) != 0 {
            if marks.last().0 == s && marks.last().1 == t && marks.last().2 > max_term_seq(
                d,
                s,
                t,
            ) {
                assert(marks[marks.len() - 1] == (s, t, max_term_seq(marks, s, t)));
            } else {
                assert(d.contains((s, t, max_term_seq(d, s, t))));
                let q = choose|q: int| 0 <= q < d.len() && d[q] == (s, t, max_term_seq(d, s, t));
                assert(marks[q] == (s, t, max_term_seq(marks, s, t)));
            }
        }
        assert forall|x: u64| marks.contains((s, t, x)) implies x <= max_term_seq(marks, s, t) by {
            let q = choose|q: int| 0 <= q < marks.len() && marks[q] == (s, t, x);
            if q < marks.len() - 1 {
                assert(d[q] == (s, t, x));
                assert(d.contains((s, t, x)));
            }
        }
    }
}

/// The largest watermark the list records for this school, or zero.
#[verifier::loop_isolation(false)]
fn max_school_mark(rows: &Vec<(String, u64)>, school: &String) -> (m: u64)
    ensures
        m == max_school_seq(school_mark_views(rows@), school@),
{
    let n = rows.len();
    let mut m: u64 = 0;
    let mut i: usize = 0;
    proof {
        assert(school_mark_views(rows@).take(0) =~= school_mark_views(rows@.take(0)));
    }
    while i < n
        invariant
            0 <= i <= n,
            m == max_school_seq(school_mark_views(rows@).take(i as int), school@),
        decreases n - i,
    {
        proof {
            assert(school_mark_views(rows@).take(i + 1).drop_last() =~= school_mark_views(
                rows@,
            ).take(i as int));
            assert(school_mark_views(rows@).take(i + 1).last() == (rows@[i as int].0@, rows@[i as int].1));
        }
        if rows[i].0 == *school && rows[i].1 > m {
            m = rows[i].1;
        }
        i += 1;
    }
    proof {
        assert(school_mark_views(rows@).take(n as int) =~= school_mark_views(rows@));
    }
    m
}

/// The largest watermark the list records for this (school, term) pair, or
/// zero.
#[verifier::loop_isolation(false)]
fn max_term_mark(rows: &Vec<(String, String, u64)>, school: &String, term: &String) -> (m: u64)
    ensures
        m == max_term_seq(term_mark_views(rows@), school@, term@),
{
    let n = rows.len();
    let mut m: u64 = 0;
    let mut i: usize = 0;
    while i < n
        invariant
            0 <= i <= n,
            m == max_term_seq(term_mark_views(rows@).take(i as int), school@, term@),
        decreases n - i,
    {
        proof {
            assert(term_mark_views(rows@).take(i + 1).drop_last() =~= term_mark_views(rows@).take(
                i as int,
            ));
            assert(term_mark_views(rows@).take(i + 1).last() == (
                rows@[i as int].0@,
                rows@[i as int].1@,
                rows@[i as int].2,
            ));
        }
        if rows[i].0 == *school && rows[i].1 == *term && rows[i].2 > m {
            m = rows[i].2;
        }
        i += 1;
    }
    proof {
        assert(term_mark_views(rows@).take(n as int) =~= term_mark_views(rows@));
    }
    m
}

/// The term map a prefix of the scope rows yields for one school: each of
/// its processed term scopes at that pair's recorded maximum.
pub open spec fn sel_terms_spec(
    processed: Seq<(Seq<char>, Option<Seq<char>>)>,
    terms: Seq<(Seq<char>, Seq<char>, u64)>,
    s: Seq<char>,
) -> Map<Seq<char>, u64> {
    Map::new(
        |t: Seq<char>| processed.contains((s, Some(t))),
        |t: Seq<char>| max_term_seq(terms, s, t),
    )
}

/// The school map a prefix of the scope rows yields: every processed
/// whole-school scope at the school's recorded maximum, and every school
/// with processed term scopes (and no whole-school scope anywhere) at its
/// term map.
pub open spec fn sel_schools_spec(
    processed: Seq<(Seq<char>, Option<Seq<char>>)>,
    full: Seq<(Seq<char>, Option<Seq<char>>)>,
    schools: Seq<(Seq<char>, u64)>,
    terms: Seq<(Seq<char>, Seq<char>, u64)>,
) -> Map<Seq<char>, crate::sync_requests::EntryView> {
    Map::new(
        |s: Seq<char>|
            processed.contains((s, Option::None)) || (!full.contains((s, Option::None))
                && exists|t: Seq<char>| processed.contains((s, Some(t)))),
        |s: Seq<char>|
            if processed.contains((s, Option::None)) {
                crate::sync_requests::EntryView::Whole(max_school_seq(schools, s))
            } else {
                crate::sync_requests::EntryView::Terms(sel_terms_spec(processed, terms, s))
            },
    )
}

/// The exclusion map a prefix of the scope rows yields: for every school
/// that has a whole-school scope anywhere and processed term scopes, those
/// terms at their recorded maxima.
pub open spec fn sel_exclude_spec(
    processed: Seq<(Seq<char>, Option<Seq<char>>)>,
    full: Seq<(Seq<char>, Option<Seq<char>>)>,
    terms: Seq<(Seq<char>, Seq<char>, u64)>,
) -> Map<Seq<char>, Map<Seq<char>, u64>> {
    Map::new(
        |s: Seq<char>|
            full.contains((s, Option::None)) && exists|t: Seq<char>| processed.contains(
                (s, Some(t)),
            ),
        |s: Seq<char>| sel_terms_spec(processed, terms, s),
    )
}

/// The request description matches the scope rows: whole-school scopes
/// appear as whole-school entries, term scopes of schools without a
/// whole-school scope as term entries, term scopes of schools with one as
/// exclusions, each at its recorded maximum watermark.
pub open spec fn select_request_matches(
    sel: SelectSync,
    scopes: Seq<(Seq<char>, Option<Seq<char>>)>,
    schools: Seq<(Seq<char>, u64)>,
    terms: Seq<(Seq<char>, Seq<char>, u64)>,
) -> bool {
    &&& sel.schools_view() == sel_schools_spec(scopes, scopes, schools, terms)
    &&& sel.exclude_view() == sel_exclude_spec(scopes, scopes, terms)
}

/// Builds the select-mode request description from the raw sync-state rows.
/// Fails only when the rows hold a scope twice.
#[verifier::loop_isolation(false)]
fn build_select_request(
    scope_list: &Vec<(String, Option<String>)>,
    school_list: &Vec<(String, u64)>,
    term_list: &Vec<(String, String, u64)>,
    max_records: u16,
) -> (r: Result<SelectSync, DataStoreError>)
    ensures
        r matches Ok(sel) ==> sel.wf() && sel.spec_max_records() == Some(max_records)
            && select_request_matches(
            sel,
            scope_views(scope_list@),
            school_mark_views(school_list@),
            term_mark_views(term_list@),
        ),
        r matches Err(e) ==> e.is_integrity(IntegrityKind::ConflictingRows),
        r is Err <==> !scope_views(scope_list@).no_duplicates(),
{
    broadcast use vstd::seq_lib::group_seq_properties;

    let ghost pv = scope_views(scope_list@);
    let ghost sv = school_mark_views(school_list@);
    let ghost tv = term_mark_views(term_list@);
    let mut sel = SelectSync::with_max_records(max_records);
    proof {
        assert(pv.take(0) =~= Seq::<(Seq<char>, Option<Seq<char>>)>::empty());
        assert(sel.schools_view() =~= sel_schools_spec(pv.take(0), pv, sv, tv));
        assert(sel.exclude_view() =~= sel_exclude_spec(pv.take(0), pv, tv));
    }
    let n = scope_list.len();
    let mut i: usize = 0;
    while i < n
        invariant
            0 <= i <= n,
            sel.wf(),
            sel.spec_max_records() == Some(max_records),
            sel.schools_view() == sel_schools_spec(pv.take(i as int), pv, sv, tv),
            sel.exclude_view() == sel_exclude_spec(pv.take(i as int), pv, tv),
            pv.take(i as int).no_duplicates(),
        decreases n - i,
    {
        proof {
            assert(pv.take(i + 1) =~= pv.take(i as int).push(pv[i as int]));
        }
        let ghost seen = pv.take(i as int);
        let row_err = match &scope_list[i].1 {
            None => {
                let mark = max_school_mark(school_list, &scope_list[i].0);
                let res = sel.add_school_sync(scope_list[i].0.clone(), mark);
                proof {
                    let s0 = pv[i as int].0;
                    assert(pv[i as int] == (s0, Option::<Seq<char>>::None));
                    assert(pv.contains((s0, Option::<Seq<char>>::None))) by {
                        assert(pv[i as int] == (s0, Option::<Seq<char>>::None));
                    }
                    // the whole-school entry exists beforehand exactly when
                    // this row is already among the processed ones
                    assert(sel_schools_spec(seen, pv, sv, tv).dom().contains(s0) <==> seen.contains(
                        pv[i as int],
                    ));
                    if res is Ok {
                        lemma_build_step_whole(pv, i as int, sv, tv);
                    }
                }
                res.is_err()
            },
            Some(term) => {
                let mark = max_term_mark(term_list, &scope_list[i].0, term);
                if contains_whole(scope_list, &scope_list[i].0) {
                    let res = sel.add_exclusion(scope_list[i].0.clone(), term.clone(), mark);
                    proof {
                        let s0 = pv[i as int].0;
                        let t0 = pv[i as int].1->Some_0;
                        assert(pv[i as int] == (s0, Some(t0)));
                        // the exclusion entry exists beforehand exactly when
                        // this row is already among the processed ones
                        assert(crate::sync_requests::exclude_map_of(
                            sel_exclude_spec(seen, pv, tv),
                            s0,
                        ).dom().contains(t0) <==> seen.contains(pv[i as int])) by {
                            if seen.contains(pv[i as int]) {
                                assert(sel_exclude_spec(seen, pv, tv).dom().contains(s0));
                            }
                        }
                        if res is Ok {
                            lemma_build_step_excl(pv, i as int, sv, tv);
                            assert(crate::sync_requests::exclude_map_of(
                                sel_exclude_spec(pv.take(i as int), pv, tv),
                                pv[i as int].0,
                            ) =~= sel_terms_spec(pv.take(i as int), tv, pv[i as int].0));
                        }
                    }
                    res.is_err()
                } else {
                    let res = sel.add_term_sync(scope_list[i].0.clone(), term.clone(), mark);
                    proof {
                        let s0 = pv[i as int].0;
                        let t0 = pv[i as int].1->Some_0;
                        assert(pv[i as int] == (s0, Some(t0)));
                        assert(!seen.contains((s0, Option::<Seq<char>>::None))) by {
                            if seen.contains((s0, Option::<Seq<char>>::None)) {
                                let q = choose|q: int|
                                    0 <= q < seen.len() && seen[q] == (
                                    s0,
                                    Option::<Seq<char>>::None,
                                    );
                                assert(pv[q] == (s0, Option::<Seq<char>>::None));
                                assert(pv.contains((s0, Option::<Seq<char>>::None)));
                            }
                        }
                        // the school cannot already stand as a whole-school
                        // entry, and its term entry holds this term exactly
                        // when this row is already among the processed ones
                        assert(!(sel_schools_spec(seen, pv, sv, tv).dom().contains(s0)
                            && sel_schools_spec(seen, pv, sv, tv)[s0] is Whole));
                        assert(crate::sync_requests::term_map_of(
                            sel_schools_spec(seen, pv, sv, tv),
                            s0,
                        ).dom().contains(t0) <==> seen.contains(pv[i as int])) by {
                            if seen.contains(pv[i as int]) {
                                assert(sel_schools_spec(seen, pv, sv, tv).dom().contains(s0));
                            }
                        }
                        if res is Ok {
                            lemma_build_step_term(pv, i as int, sv, tv);
                            assert(crate::sync_requests::term_map_of(
                                sel_schools_spec(pv.take(i as int), pv, sv, tv),
                                pv[i as int].0,
                            ) =~= sel_terms_spec(pv.take(i as int), tv, pv[i as int].0));
                        }
                    }
                    res.is_err()
                }
            },
        };
        if row_err {
            proof {
                assert(seen.contains(pv[i as int]));
                let q = choose|q: int| 0 <= q < seen.len() && seen[q] == pv[i as int];
                assert(pv[q] == pv[i as int]);
                assert(!pv.no_duplicates());
            }
            return Err(
                DataStoreError::DataIntegrity {
                    kind: IntegrityKind::ConflictingRows,
                    message: String::from_str("a scope row is registered more than once"),
                },
            );
        }
        proof {
            assert(!seen.contains(pv[i as int]));
            assert(pv.take(i + 1).no_duplicates()) by {
                assert forall|a: int, b: int|
                    #![trigger pv.take(i + 1)[a], pv.take(i + 1)[b]]
                    0 <= a < b < i + 1 implies pv.take(i + 1)[a] != pv.take(i + 1)[b] by {
                    if b < i {
                        assert(seen[a] != seen[b]);
                    } else {
                        assert(pv.take(i + 1)[a] == seen[a]);
                        if seen[a] == pv[i as int] {
                            assert(seen.contains(pv[i as int]));
                        }
                    }
                }
            }
        }
        i += 1;
    }
    proof {
        assert(pv.take(n as int) =~= pv);
    }
    Ok(sel)
}

/// A sequence with a repeated entry puts that entry into its multiset at
/// least twice.
proof fn lemma_dup_row_count(s: Seq<(Seq<char>, Option<Seq<char>>)>)
    requires
        !s.no_duplicates(),
    ensures
        exists|x: (Seq<char>, Option<Seq<char>>)| s.to_multiset().count(x) >= 2,
{
    broadcast use vstd::seq_lib::group_to_multiset_ensures;

    if forall|x: (Seq<char>, Option<Seq<char>>)|
        s.to_multiset().contains(x) ==> #[trigger] s.to_multiset().count(x) == 1 {
        s.lemma_multiset_has_no_duplicates_conv();
    }
    let x = choose|x: (Seq<char>, Option<Seq<char>>)|
        !(s.to_multiset().contains(x) ==> #[trigger] s.to_multiset().count(x) == 1);
    assert(s.to_multiset().count(x) >= 2);
}

/// Processing a whole-school scope row inserts a whole-school entry at the
/// school's recorded maximum and leaves the exclusions alone.
proof fn lemma_build_step_whole(
    pv: Seq<(Seq<char>, Option<Seq<char>>)>,
    i: int,
    sv: Seq<(Seq<char>, u64)>,
    tv: Seq<(Seq<char>, Seq<char>, u64)>,
)
    requires
        0 <= i < pv.len(),
        pv[i].1 is None,
    ensures
        sel_schools_spec(pv.take(i + 1), pv, sv, tv) == sel_schools_spec(
            pv.take(i),
            pv,
            sv,
            tv,
        ).insert(pv[i].0, crate::sync_requests::EntryView::Whole(max_school_seq(sv, pv[i].0))),
        sel_exclude_spec(pv.take(i + 1), pv, tv) == sel_exclude_spec(pv.take(i), pv, tv),
{
    broadcast use vstd::seq_lib::group_seq_properties;

    let s = pv[i].0;
    assert(pv.take(i + 1) =~= pv.take(i).push(pv[i]));
    assert(pv[i] == (s, Option::<Seq<char>>::None));
    assert(pv.contains((s, Option::<Seq<char>>::None))) by {
        assert(pv[i] == (s, Option::<Seq<char>>::None));
    }
    let a = sel_schools_spec(pv.take(i + 1), pv, sv, tv);
    let b = sel_schools_spec(pv.take(i), pv, sv, tv).insert(
        s,
        crate::sync_requests::EntryView::Whole(max_school_seq(sv, s)),
    );
    assert forall|x: Seq<char>| #[trigger] a.dom().contains(x) implies b.dom().contains(x) && a[x]
        == b[x] by {
        if x == s {
        } else {
            assert(sel_terms_spec(pv.take(i + 1), tv, x) =~= sel_terms_spec(pv.take(i), tv, x));
        }
    }
    assert forall|x: Seq<char>| #[trigger] b.dom().contains(x) implies a.dom().contains(x) by {
        if x != s {
            if pv.take(i).contains((x, Option::<Seq<char>>::None)) {
                assert(pv.take(i + 1).contains((x, Option::<Seq<char>>::None)));
            } else {
                let t = choose|t: Seq<char>| pv.take(i).contains((x, Some(t)));
                assert(pv.take(i + 1).contains((x, Some(t))));
            }
        }
    }
    assert(a =~= b);
    assert(sel_exclude_spec(pv.take(i + 1), pv, tv) =~= sel_exclude_spec(pv.take(i), pv, tv)) by {
        let ea = sel_exclude_spec(pv.take(i + 1), pv, tv);
        let eb = sel_exclude_spec(pv.take(i), pv, tv);
        assert forall|x: Seq<char>| #[trigger] ea.dom().contains(x) implies eb.dom().contains(x)
            && ea[x] == eb[x] by {
            let t = choose|t: Seq<char>| pv.take(i + 1).contains((x, Some(t)));
            assert(pv.take(i).contains((x, Some(t))));
            assert(sel_terms_spec(pv.take(i + 1), tv, x) =~= sel_terms_spec(pv.take(i), tv, x));
        }
        assert forall|x: Seq<char>| #[trigger] eb.dom().contains(x) implies ea.dom().contains(
            x,
        ) by {
            let t = choose|t: Seq<char>| pv.take(i).contains((x, Some(t)));
            assert(pv.take(i + 1).contains((x, Some(t))));
        }
    }
}

/// Processing a term scope row of a school that also has a whole-school
/// scope inserts the term into that school's exclusion map and leaves the
/// school entries alone.
proof fn lemma_build_step_excl(
    pv: Seq<(Seq<char>, Option<Seq<char>>)>,
    i: int,
    sv: Seq<(Seq<char>, u64)>,
    tv: Seq<(Seq<char>, Seq<char>, u64)>,
)
    requires
        0 <= i < pv.len(),
        pv[i].1 is Some,
        pv.contains((pv[i].0, Option::<Seq<char>>::None)),
    ensures
        sel_exclude_spec(pv.take(i + 1), pv, tv) == sel_exclude_spec(pv.take(i), pv, tv).insert(
            pv[i].0,
            sel_terms_spec(pv.take(i), tv, pv[i].0).insert(
                pv[i].1->Some_0,
                max_term_seq(tv, pv[i].0, pv[i].1->Some_0),
            ),
        ),
        sel_schools_spec(pv.take(i + 1), pv, sv, tv) == sel_schools_spec(pv.take(i), pv, sv, tv),
{
    broadcast use vstd::seq_lib::group_seq_properties;

    let s = pv[i].0;
    let t0 = pv[i].1->Some_0;
    assert(pv.take(i + 1) =~= pv.take(i).push(pv[i]));
    assert(pv[i] == (s, Some(t0)));
    let ea = sel_exclude_spec(pv.take(i + 1), pv, tv);
    let eb = sel_exclude_spec(pv.take(i), pv, tv).insert(
        s,
        sel_terms_spec(pv.take(i), tv, s).insert(t0, max_term_seq(tv, s, t0)),
    );
    assert forall|x: Seq<char>| #[trigger] ea.dom().contains(x) implies eb.dom().contains(x)
        && ea[x] == eb[x] by {
        if x == s {
            assert(pv.take(i + 1).contains((s, Some(t0))));
            assert(sel_terms_spec(pv.take(i + 1), tv, s) =~= sel_terms_spec(
                pv.take(i),
                tv,
                s,
            ).insert(t0, max_term_seq(tv, s, t0)));
        } else {
            let t = choose|t: Seq<char>| pv.take(i + 1).contains((x, Some(t)));
            assert(pv.take(i).contains((x, Some(t))));
            assert(sel_terms_spec(pv.take(i + 1), tv, x) =~= sel_terms_spec(pv.take(i), tv, x));
        }
    }
    assert forall|x: Seq<char>| #[trigger] eb.dom().contains(x) implies ea.dom().contains(x) by {
        if x == s {
            assert(pv.take(i + 1)[i] == (s, Some(t0)));
            assert(pv.take(i + 1).contains((s, Some(t0))));
        } else {
            let t = choose|t: Seq<char>| pv.take(i).contains((x, Some(t)));
            assert(pv.take(i + 1).contains((x, Some(t))));
        }
    }
    assert(ea =~= eb);
    assert(sel_schools_spec(pv.take(i + 1), pv, sv, tv) =~= sel_schools_spec(
        pv.take(i),
        pv,
        sv,
        tv,
    )) by {
        let a = sel_schools_spec(pv.take(i + 1), pv, sv, tv);
        let b = sel_schools_spec(pv.take(i), pv, sv, tv);
        assert forall|x: Seq<char>| #[trigger] a.dom().contains(x) implies b.dom().contains(x)
            && a[x] == b[x] by {
            if !pv.take(i + 1).contains((x, Option::<Seq<char>>::None)) {
                let t = choose|t: Seq<char>| pv.take(i + 1).contains((x, Some(t)));
                assert(x != s);
                if pv.take(i).contains((x, Some(t))) {
                } else {
                    assert((x, Some(t)) == pv[i]);
                    assert(false);
                }
                assert(sel_terms_spec(pv.take(i + 1), tv, x) =~= sel_terms_spec(
                    pv.take(i),
                    tv,
                    x,
                ));
            } else {
                assert(pv.take(i).contains((x, Option::<Seq<char>>::None)));
            }
        }
        assert forall|x: Seq<char>| #[trigger] b.dom().contains(x) implies a.dom().contains(x) by {
            if pv.take(i).contains((x, Option::<Seq<char>>::None)) {
                assert(pv.take(i + 1).contains((x, Option::<Seq<char>>::None)));
            } else {
                let t = choose|t: Seq<char>| pv.take(i).contains((x, Some(t)));
                assert(pv.take(i + 1).contains((x, Some(t))));
            }
        }
    }
}

/// Processing a term scope row of a school without a whole-school scope
/// inserts the term into that school's term entry and leaves the exclusions
/// alone.
proof fn lemma_build_step_term(
    pv: Seq<(Seq<char>, Option<Seq<char>>)>,
    i: int,
    sv: Seq<(Seq<char>, u64)>,
    tv: Seq<(Seq<char>, Seq<char>, u64)>,
)
    requires
        0 <= i < pv.len(),
        pv[i].1 is Some,
        !pv.contains((pv[i].0, Option::<Seq<char>>::None)),
    ensures
        sel_schools_spec(pv.take(i + 1), pv, sv, tv) == sel_schools_spec(
            pv.take(i),
            pv,
            sv,
            tv,
        ).insert(
            pv[i].0,
            crate::sync_requests::EntryView::Terms(
                sel_terms_spec(pv.take(i), tv, pv[i].0).insert(
                    pv[i].1->Some_0,
                    max_term_seq(tv, pv[i].0, pv[i].1->Some_0),
                ),
            ),
        ),
        sel_exclude_spec(pv.take(i + 1), pv, tv) == sel_exclude_spec(pv.take(i), pv, tv),
{
    broadcast use vstd::seq_lib::group_seq_properties;

    let s = pv[i].0;
    let t0 = pv[i].1->Some_0;
    assert(pv.take(i + 1) =~= pv.take(i).push(pv[i]));
    assert(pv[i] == (s, Some(t0)));
    assert forall|x: Seq<char>, t: Seq<char>|
        #[trigger] pv.take(i).contains((x, Some(t))) implies pv.take(i + 1).contains(
        (x, Some(t)),
    ) by {}
    let a = sel_schools_spec(pv.take(i + 1), pv, sv, tv);
    let b = sel_schools_spec(pv.take(i), pv, sv, tv).insert(
        s,
        crate::sync_requests::EntryView::Terms(
            sel_terms_spec(pv.take(i), tv, s).insert(t0, max_term_seq(tv, s, t0)),
        ),
    );
    assert forall|x: Seq<char>| #[trigger] a.dom().contains(x) implies b.dom().contains(x) && a[x]
        == b[x] by {
        if x == s {
            assert(!pv.take(i).contains((s, Option::<Seq<char>>::None))) by {
                if pv.take(i).contains((s, Option::<Seq<char>>::None)) {
                    assert(pv.contains((s, Option::<Seq<char>>::None)));
                }
            }
            assert(!pv.take(i + 1).contains((s, Option::<Seq<char>>::None))) by {
                if pv.take(i + 1).contains((s, Option::<Seq<char>>::None)) {
                    assert(pv.take(i).contains((s, Option::<Seq<char>>::None)) || pv[i] == (
                        s,
                        Option::<Seq<char>>::None,
                    ));
                }
            }
            assert(pv.take(i + 1).contains((s, Some(t0))));
            assert(sel_terms_spec(pv.take(i + 1), tv, s) =~= sel_terms_spec(
                pv.take(i),
                tv,
                s,
            ).insert(t0, max_term_seq(tv, s, t0)));
        } else {
            if pv.take(i + 1).contains((x, Option::<Seq<char>>::None)) {
                assert(pv.take(i).contains((x, Option::<Seq<char>>::None)));
            } else {
                let t = choose|t: Seq<char>| pv.take(i + 1).contains((x, Some(t)));
                if !pv.take(i).contains((x, Some(t))) {
                    assert((x, Some(t)) == pv[i]);
                    assert(false);
                }
                assert(sel_terms_spec(pv.take(i + 1), tv, x) =~= sel_terms_spec(
                    pv.take(i),
                    tv,
                    x,
                ));
            }
        }
    }
    assert forall|x: Seq<char>| #[trigger] b.dom().contains(x) implies a.dom().contains(x) by {
        if x == s {
            assert(pv.take(i + 1)[i] == (s, Some(t0)));
            assert(pv.take(i + 1).contains((s, Some(t0))));
        } else {
            if pv.take(i).contains((x, Option::<Seq<char>>::None)) {
                assert(pv.take(i + 1).contains((x, Option::<Seq<char>>::None)));
            } else {
                let t = choose|t: Seq<char>| pv.take(i).contains((x, Some(t)));
                assert(pv.take(i + 1).contains((x, Some(t))));
            }
        }
    }
    assert(a =~= b);
    assert(sel_exclude_spec(pv.take(i + 1), pv, tv) =~= sel_exclude_spec(pv.take(i), pv, tv)) by {
        let ea = sel_exclude_spec(pv.take(i + 1), pv, tv);
        let eb = sel_exclude_spec(pv.take(i), pv, tv);
        assert forall|x: Seq<char>| #[trigger] ea.dom().contains(x) implies eb.dom().contains(x)
            && ea[x] == eb[x] by {
            assert(x != s);
            let t = choose|t: Seq<char>| pv.take(i + 1).contains((x, Some(t)));
            if !pv.take(i).contains((x, Some(t))) {
                assert((x, Some(t)) == pv[i]);
                assert(false);
            }
            assert(sel_terms_spec(pv.take(i + 1), tv, x) =~= sel_terms_spec(pv.take(i), tv, x));
        }
        assert forall|x: Seq<char>| #[trigger] eb.dom().contains(x) implies ea.dom().contains(
            x,
        ) by {
            let t = choose|t: Seq<char>| pv.take(i).contains((x, Some(t)));
            assert(pv.take(i + 1).contains((x, Some(t))));
        }
    }
}

/// `m` is the school's watermark: zero when the school has no recorded row,
/// else one of its rows and an upper bound of them all.
pub open spec fn school_watermark_ub(ms: Multiset<(Seq<char>, u64)>, s: Seq<char>, m: u64) -> bool {
    &&& (m == 0 || ms.contains((s, m)))
    &&& forall|x: u64| ms.contains((s, x)) ==> x <= m
}

/// `m` is the pair's watermark: zero when the pair has no recorded row, else
/// one of its rows and an upper bound of them all.
pub open spec fn term_watermark_ub(
    ms: Multiset<(Seq<char>, Seq<char>, u64)>,
    s: Seq<char>,
    t: Seq<char>,
    m: u64,
) -> bool {
    &&& (m == 0 || ms.contains((s, t, m)))
    &&& forall|x: u64| ms.contains((s, t, x)) ==> x <= m
}

/// The request description reflects the store's contents: a school has a
/// whole-school entry exactly when its whole-school scope is registered; a
/// term appears as a term entry exactly when its scope is registered and the
/// school's whole-school scope is not; a term appears as an exclusion
/// exactly when both are; every attached watermark is the corresponding
/// recorded maximum (zero when no row is recorded).
pub open spec fn select_request_reflects(
    sel: SelectSync,
    scopes: Multiset<(Seq<char>, Option<Seq<char>>)>,
    schools: Multiset<(Seq<char>, u64)>,
    terms: Multiset<(Seq<char>, Seq<char>, u64)>,
) -> bool {
    &&& forall|s: Seq<char>|
        #[trigger] scopes.contains((s, Option::<Seq<char>>::None)) <==> (
        sel.schools_view().dom().contains(s) && sel.schools_view()[s] is Whole)
    &&& forall|s: Seq<char>|
        scopes.contains((s, Option::<Seq<char>>::None)) ==> (#[trigger] sel.schools_view()[s]
            matches crate::sync_requests::EntryView::Whole(m) && school_watermark_ub(
            schools,
            s,
            m,
        ))
    &&& forall|s: Seq<char>, t: Seq<char>|
        #[trigger] crate::sync_requests::term_map_of(sel.schools_view(), s).dom().contains(t) <==> (
        scopes.contains((s, Some(t))) && !scopes.contains((s, Option::<Seq<char>>::None)))
    &&& forall|s: Seq<char>, t: Seq<char>|
        #[trigger] crate::sync_requests::term_map_of(sel.schools_view(), s).dom().contains(t)
            ==> term_watermark_ub(
            terms,
            s,
            t,
            crate::sync_requests::term_map_of(sel.schools_view(), s)[t],
        )
    &&& forall|s: Seq<char>, t: Seq<char>|
        #[trigger] crate::sync_requests::exclude_map_of(sel.exclude_view(), s).dom().contains(t)
            <==> (scopes.contains((s, Some(t))) && scopes.contains((s, Option::<Seq<char>>::None)))
    &&& forall|s: Seq<char>, t: Seq<char>|
        #[trigger] crate::sync_requests::exclude_map_of(sel.exclude_view(), s).dom().contains(t)
            ==> term_watermark_ub(
            terms,
            s,
            t,
            crate::sync_requests::exclude_map_of(sel.exclude_view(), s)[t],
        )
    &&& forall|s: Seq<char>|
        sel.schools_view().dom().contains(s) && (#[trigger] sel.schools_view()[s]) is Terms
            ==> exists|t: Seq<char>|
            crate::sync_requests::term_map_of(sel.schools_view(), s).dom().contains(t)
    &&& forall|s: Seq<char>|
        #[trigger] sel.exclude_view().dom().contains(s) ==> exists|t: Seq<char>|
            crate::sync_requests::exclude_map_of(sel.exclude_view(), s).dom().contains(t)
}

/// A description that matches the raw rows reflects their multisets.
proof fn lemma_select_reflects(
    sel: SelectSync,
    pv: Seq<(Seq<char>, Option<Seq<char>>)>,
    sv: Seq<(Seq<char>, u64)>,
    tv: Seq<(Seq<char>, Seq<char>, u64)>,
)
    requires
        select_request_matches(sel, pv, sv, tv),
    ensures
        select_request_reflects(sel, pv.to_multiset(), sv.to_multiset(), tv.to_multiset()),
{
    broadcast use vstd::seq_lib::group_to_multiset_ensures;

    let schools_v = sel.schools_view();
    let excl_v = sel.exclude_view();
    assert forall|s: Seq<char>|
        #[trigger] pv.to_multiset().contains((s, Option::<Seq<char>>::None)) implies (
    schools_v.dom().contains(s) && schools_v[s] is Whole) by {
        assert(pv.contains((s, Option::<Seq<char>>::None)));
    }
    assert forall|s: Seq<char>|
        schools_v.dom().contains(s) && schools_v[s] is Whole implies #[trigger] pv.to_multiset()
        .contains((s, Option::<Seq<char>>::None)) by {
        if !pv.contains((s, Option::<Seq<char>>::None)) {
            assert(schools_v[s] is Terms);
        }
        assert(pv.to_multiset().count((s, Option::<Seq<char>>::None)) > 0);
    }
    assert forall|s: Seq<char>|
        pv.to_multiset().contains((s, Option::<Seq<char>>::None)) implies (
    #[trigger] schools_v[s] matches crate::sync_requests::EntryView::Whole(m)
        && school_watermark_ub(sv.to_multiset(), s, m)) by {
        assert(pv.contains((s, Option::<Seq<char>>::None)));
        lemma_max_school_props(sv, s);
        let m = max_school_seq(sv, s);
        assert(schools_v[s] == crate::sync_requests::EntryView::Whole(m));
        if m != 0 {
            assert(sv.contains((s, m)));
            assert(sv.to_multiset().count((s, m)) > 0);
        }
        assert forall|x: u64| sv.to_multiset().contains((s, x)) implies x <= m by {
            assert(sv.to_multiset().count((s, x)) > 0);
            assert(sv.contains((s, x)));
        }
    }
    assert forall|s: Seq<char>, t: Seq<char>|
        #[trigger] crate::sync_requests::term_map_of(schools_v, s).dom().contains(t) implies (
    pv.to_multiset().contains((s, Some(t))) && !pv.to_multiset().contains(
        (s, Option::<Seq<char>>::None),
    )) by {
        assert(schools_v.dom().contains(s));
        assert(schools_v[s] is Terms);
        assert(!pv.contains((s, Option::<Seq<char>>::None)));
        assert(pv.contains((s, Some(t))));
        assert(pv.to_multiset().count((s, Some(t))) > 0);
        if pv.to_multiset().contains((s, Option::<Seq<char>>::None)) {
            assert(pv.contains((s, Option::<Seq<char>>::None)));
        }
    }
    assert forall|s: Seq<char>, t: Seq<char>|
        (pv.to_multiset().contains((s, Some(t))) && !pv.to_multiset().contains(
            (s, Option::<Seq<char>>::None),
        )) implies #[trigger] crate::sync_requests::term_map_of(schools_v, s).dom().contains(
        t,
    ) by {
        assert(pv.contains((s, Some(t))));
        if pv.contains((s, Option::<Seq<char>>::None)) {
            assert(pv.to_multiset().count((s, Option::<Seq<char>>::None)) > 0);
        }
        assert(schools_v.dom().contains(s));
        assert(schools_v[s] == crate::sync_requests::EntryView::Terms(sel_terms_spec(pv, tv, s)));
        assert(sel_terms_spec(pv, tv, s).dom().contains(t));
    }
    assert forall|s: Seq<char>, t: Seq<char>|
        #[trigger] crate::sync_requests::term_map_of(schools_v, s).dom().contains(
            t,
        ) implies term_watermark_ub(
        tv.to_multiset(),
        s,
        t,
        crate::sync_requests::term_map_of(schools_v, s)[t],
    ) by {
        assert(schools_v[s] is Terms);
        assert(crate::sync_requests::term_map_of(schools_v, s) == sel_terms_spec(pv, tv, s));
        lemma_max_term_props(tv, s, t);
        let m = max_term_seq(tv, s, t);
        if m != 0 {
            assert(tv.contains((s, t, m)));
            assert(tv.to_multiset().count((s, t, m)) > 0);
        }
        assert forall|x: u64| tv.to_multiset().contains((s, t, x)) implies x <= m by {
            assert(tv.to_multiset().count((s, t, x)) > 0);
            assert(tv.contains((s, t, x)));
        }
    }
    assert forall|s: Seq<char>, t: Seq<char>|
        #[trigger] crate::sync_requests::exclude_map_of(excl_v, s).dom().contains(t) implies (
    pv.to_multiset().contains((s, Some(t))) && pv.to_multiset().contains(
        (s, Option::<Seq<char>>::None),
    )) by {
        assert(excl_v.dom().contains(s));
        assert(pv.contains((s, Option::<Seq<char>>::None)));
        assert(pv.contains((s, Some(t))));
        assert(pv.to_multiset().count((s, Some(t))) > 0);
        assert(pv.to_multiset().count((s, Option::<Seq<char>>::None)) > 0);
    }
    assert forall|s: Seq<char>, t: Seq<char>|
        (pv.to_multiset().contains((s, Some(t))) && pv.to_multiset().contains(
            (s, Option::<Seq<char>>::None),
        )) implies #[trigger] crate::sync_requests::exclude_map_of(excl_v, s).dom().contains(
        t,
    ) by {
        assert(pv.contains((s, Some(t))));
        assert(pv.contains((s, Option::<Seq<char>>::None)));
        assert(excl_v.dom().contains(s));
        assert(excl_v[s] == sel_terms_spec(pv, tv, s));
    }
    assert forall|s: Seq<char>, t: Seq<char>|
        #[trigger] crate::sync_requests::exclude_map_of(excl_v, s).dom().contains(
            t,
        ) implies term_watermark_ub(
        tv.to_multiset(),
        s,
        t,
        crate::sync_requests::exclude_map_of(excl_v, s)[t],
    ) by {
        assert(excl_v.dom().contains(s));
        assert(crate::sync_requests::exclude_map_of(excl_v, s) == sel_terms_spec(pv, tv, s));
        lemma_max_term_props(tv, s, t);
        let m = max_term_seq(tv, s, t);
        if m != 0 {
            assert(tv.contains((s, t, m)));
            assert(tv.to_multiset().count((s, t, m)) > 0);
        }
        assert forall|x: u64| tv.to_multiset().contains((s, t, x)) implies x <= m by {
            assert(tv.to_multiset().count((s, t, x)) > 0);
            assert(tv.contains((s, t, x)));
        }
    }
    assert forall|s: Seq<char>|
        schools_v.dom().contains(s) && (#[trigger] schools_v[s]) is Terms implies exists|
        t: Seq<char>,
    |
        crate::sync_requests::term_map_of(schools_v, s).dom().contains(t) by {
        assert(!pv.contains((s, Option::<Seq<char>>::None)));
        let t = choose|t: Seq<char>| pv.contains((s, Some(t)));
        assert(crate::sync_requests::term_map_of(schools_v, s).dom().contains(t));
    }
    assert forall|s: Seq<char>| #[trigger] excl_v.dom().contains(s) implies exists|t: Seq<char>|
        crate::sync_requests::exclude_map_of(excl_v, s).dom().contains(t) by {
        let t = choose|t: Seq<char>| pv.contains((s, Some(t)));
        assert(excl_v[s] == sel_terms_spec(pv, tv, s));
        assert(crate::sync_requests::exclude_map_of(excl_v, s).dom().contains(t));
    }
}

/// Watermarks are monotone: the latest watermark a generated request
/// reports never moves backwards when a result's watermark is added to the
/// history, whatever value the result carried. `old_last` is the latest
/// watermark before the apply (zero on a fresh history), `new_last` any
/// value that bounds the grown history and belongs to it.
pub proof fn lemma_watermark_monotone(
    before: Multiset<u64>,
    wm: u64,
    old_last: u64,
    new_last: u64,
)
    requires
        before.contains(old_last) || (before.is_empty() && old_last == 0),
        forall|x: u64| before.insert(wm).contains(x) ==> x <= new_last,
    ensures
        old_last <= new_last,
{
    if before.contains(old_last) {
        assert(before.insert(wm).count(old_last) >= before.count(old_last));
        assert(before.insert(wm).contains(old_last));
    } else {
        assert(before.insert(wm).contains(wm));
    }
}

} // verus!
