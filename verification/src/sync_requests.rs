//! The shared data model of the sync protocol: change records, request
//! descriptions and result payloads.

use vstd::prelude::*;
use crate::errors::{ConflictKind, DataStoreError};
use crate::ident::{is_valid_column_name, valid_column_name};
use crate::kv::{
    find_key, kv_map, lemma_kv_map_dom, lemma_kv_map_index, lemma_kv_map_push, lemma_kv_map_update,
    unique_keys,
};
use crate::scalar::Scalar;

verus! {

/// The default cap on records per outbound request.
pub const DEFAULT_MAX_RECORDS: u16 = 10_000;

/// What a change record does to its row.
#[derive(Clone, Copy, PartialEq, Eq, Structural, Debug)]
pub enum SyncAction {
    Update,
    Delete,
    Insert,
}

/// The fixed allow-list of tables a change record may address. A table name
/// is never an arbitrary string: SQL text only ever receives one of these
/// spellings.
#[derive(Clone, Copy, PartialEq, Eq, Structural, Debug)]
pub enum TableName {
    MeetingTimes,
    Sections,
    Professors,
    Courses,
    TermCollections,
    Schools,
}

/// The tables shared by every school.
#[derive(Clone, Copy, PartialEq, Eq, Structural, Debug)]
pub enum CommonTable {
    Professors,
    Courses,
    TermCollections,
}

/// The exact SQL spelling of an allow-listed table name.
pub open spec fn table_sql(t: TableName) -> Seq<char> {
    match t {
        TableName::MeetingTimes => "meeting_times"@,
        TableName::Sections => "sections"@,
        TableName::Professors => "professors"@,
        TableName::Courses => "courses"@,
        TableName::TermCollections => "term_collections"@,
        TableName::Schools => "schools"@,
    }
}

/// The exact SQL spelling of a common table's name.
pub open spec fn common_table_sql(t: CommonTable) -> Seq<char> {
    match t {
        CommonTable::Professors => "professors"@,
        CommonTable::Courses => "courses"@,
        CommonTable::TermCollections => "term_collections"@,
    }
}

impl TableName {
    /// The table's spelling in statement text.
    pub fn sql_name(&self) -> (r: &'static str)
        ensures
            r@ == table_sql(*self),
    {
        match self {
            TableName::MeetingTimes => "meeting_times",
            TableName::Sections => "sections",
            TableName::Professors => "professors",
            TableName::Courses => "courses",
            TableName::TermCollections => "term_collections",
            TableName::Schools => "schools",
        }
    }
}

impl CommonTable {
    /// The table's spelling in statement text.
    pub fn sql_name(&self) -> (r: &'static str)
        ensures
            r@ == common_table_sql(*self),
    {
        match self {
            CommonTable::Professors => "professors",
            CommonTable::Courses => "courses",
            CommonTable::TermCollections => "term_collections",
        }
    }
}

/// One insert/update/delete instruction against one table. Key fields are an
/// ordered, non-empty association list; non-key fields are optional. Field
/// names must match the strict identifier pattern before any SQL is built,
/// because names are interpolated into statement text rather than bound.
#[derive(Debug)]
pub struct ClassDataSync {
    pub table_name: TableName,
    pub sync_action: SyncAction,
    pub pk_fields: Vec<(String, Scalar)>,
    pub relevant_fields: Option<Vec<(String, Scalar)>>,
}

/// Clones a field list entry for entry.
pub fn clone_fields(v: &Vec<(String, Scalar)>) -> (r: Vec<(String, Scalar)>)
    ensures
        r@ == v@,
{
    let mut r: Vec<(String, Scalar)> = Vec::new();
    let n = v.len();
    let mut i: usize = 0;
    while i < n
        invariant
            0 <= i <= n,
            n == v@.len(),
            r@ =~= v@.take(i as int),
        decreases n - i,
    {
        r.push((v[i].0.clone(), v[i].1.clone()));
        proof {
            assert(r@ =~= v@.take(i + 1 as int));
        }
        i += 1;
    }
    proof {
        assert(v@.take(n as int) =~= v@);
    }
    r
}

/// Two records carry the same content: same table, same action, and field
/// lists with the same entries in the same order.
pub open spec fn same_record(a: ClassDataSync, b: ClassDataSync) -> bool {
    a.table_name == b.table_name && a.sync_action == b.sync_action && a.pk_fields@ == b.pk_fields@
        && match (a.relevant_fields, b.relevant_fields) {
        (Some(x), Some(y)) => x@ == y@,
        (None, None) => true,
        _ => false,
    }
}

impl Clone for ClassDataSync {
    fn clone(&self) -> (res: Self)
        ensures
            same_record(res, *self),
    {
        let relevant_fields = match &self.relevant_fields {
            Some(v) => Some(clone_fields(v)),
            None => None,
        };
        ClassDataSync {
            table_name: self.table_name,
            sync_action: self.sync_action,
            pk_fields: clone_fields(&self.pk_fields),
            relevant_fields,
        }
    }
}

impl ClassDataSync {
    /// The non-key fields, or the empty list when none were supplied.
    pub open spec fn changed_fields(self) -> Seq<(String, Scalar)> {
        match self.relevant_fields {
            Some(v) => v@,
            None => Seq::empty(),
        }
    }

    /// Every field of the record, key fields first.
    pub open spec fn all_fields(self) -> Seq<(String, Scalar)> {
        self.pk_fields@ + self.changed_fields()
    }

    /// The field names that fail the identifier pattern, in field order.
    pub open spec fn invalid_cols(self) -> Seq<String> {
        self.all_fields().map_values(|f: (String, Scalar)| f.0).filter(
            |n: String| !valid_column_name(n@),
        )
    }

    /// A record is well formed when its key fields are non-empty and every
    /// field name matches the identifier pattern.
    pub open spec fn wf(self) -> bool {
        self.pk_fields@.len() > 0 && self.invalid_cols().len() == 0
    }

    /// Checks the record against the identifier pattern before any SQL is
    /// built. Returns an input-validation error naming every offending
    /// column and carrying the full record for diagnostics; a record with no
    /// key fields is rejected the same way.
    pub fn verify_record(&self) -> (r: Result<(), DataStoreError>)
        ensures
            r is Ok <==> self.wf(),
            r matches Err(e) ==> e matches DataStoreError::InputValidation {
                invalid_values,
                record,
                ..
            } && invalid_values@ == self.invalid_cols() && (record matches Some(rec)
                && same_record(rec, *self)),
    {
        let mut invalid: Vec<String> = collect_invalid(&self.pk_fields);
        if let Some(fields) = &self.relevant_fields {
            let mut more = collect_invalid(fields);
            invalid.append(&mut more);
        }
        proof {
            broadcast use vstd::seq_lib::group_seq_lib_default;
            assert(names_of(self.all_fields()) =~= names_of(self.pk_fields@) + names_of(
                self.changed_fields(),
            ));
            if self.relevant_fields is None {
                assert(names_of(self.changed_fields()) =~= Seq::<String>::empty());
                assert(names_of(self.all_fields()) =~= names_of(self.pk_fields@));
            }
        }
        if invalid.len() > 0 {
            return Err(
                DataStoreError::InputValidation {
                    message: String::from_str("invalid column names"),
                    invalid_values: invalid,
                    record: Some(self.clone()),
                },
            );
        }
        if self.pk_fields.len() == 0 {
            return Err(
                DataStoreError::InputValidation {
                    message: String::from_str("a change record needs at least one key field"),
                    invalid_values: invalid,
                    record: Some(self.clone()),
                },
            );
        }
        Ok(())
    }
}

/// The names of a field list, in order.
pub open spec fn names_of(fields: Seq<(String, Scalar)>) -> Seq<String> {
    fields.map_values(|f: (String, Scalar)| f.0)
}

/// Collects every field name of `fields` that fails the identifier pattern,
/// in order.
#[verifier::loop_isolation(false)]
fn collect_invalid(fields: &Vec<(String, Scalar)>) -> (out: Vec<String>)
    ensures
        out@ == names_of(fields@).filter(|n: String| !valid_column_name(n@)),
{
    let ghost pred = |n: String| !valid_column_name(n@);
    let mut out: Vec<String> = Vec::new();
    proof {
        reveal(Seq::filter);
        assert(names_of(fields@.take(0)) =~= Seq::<String>::empty());
        assert(out@ =~= names_of(fields@.take(0)).filter(pred));
    }
    let n = fields.len();
    let mut i: usize = 0;
    while i < n
        invariant
            0 <= i <= n,
            n == fields@.len(),
            out@ == names_of(fields@.take(i as int)).filter(pred),
        decreases n - i,
    {
        let ghost prev = names_of(fields@.take(i as int));
        let ghost x = fields@[i as int].0;
        proof {
            assert(names_of(fields@.take(i + 1)) =~= prev.push(x));
            reveal(Seq::filter);
            assert(prev.push(x).drop_last() =~= prev);
            assert(names_of(fields@.take(i + 1)).filter(pred) == if pred(x) {
                prev.filter(pred).push(x)
            } else {
                prev.filter(pred)
            });
        }
        if !is_valid_column_name(fields[i].0.as_str()) {
            out.push(fields[i].0.clone());
        }
        i += 1;
    }
    proof {
        assert(fields@.take(n as int) =~= fields@);
    }
    out
}

// TERM SYNCS - the request description for select-mode syncing, and its
// result payload.

/// What one school requests: a single sequence for a whole-school scope, or
/// a term-to-sequence list for term-level scopes.
#[derive(Debug)]
pub enum SchoolEntry {
    TermToSequence(Vec<(String, u64)>),
    Sequence(u64),
}

/// The spec-level shape of a school's entry: one whole-school watermark, or
/// a map from term to watermark.
pub enum EntryView {
    Whole(u64),
    Terms(Map<Seq<char>, u64>),
}

/// The map view of one school entry.
pub open spec fn entry_view(e: SchoolEntry) -> EntryView {
    match e {
        SchoolEntry::Sequence(n) => EntryView::Whole(n),
        SchoolEntry::TermToSequence(ts) => EntryView::Terms(kv_map(ts@)),
    }
}

/// The select-mode request description: which schools and terms to pull,
/// from which watermarks, which terms the remote side may skip (exclusions),
/// and the per-request record cap.
#[derive(Debug)]
pub struct SelectSync {
    exclude: Vec<(String, Vec<(String, u64)>)>,
    max_records_per_request: Option<u16>,
    schools: Vec<(String, SchoolEntry)>,
}

impl SelectSync {
    /// The school map: school to its entry view.
    pub closed spec fn schools_view(self) -> Map<Seq<char>, EntryView> {
        kv_map(self.schools@).map_values(|e: SchoolEntry| entry_view(e))
    }

    /// The exclusion map: school to term to the sequence already known
    /// current.
    pub closed spec fn exclude_view(self) -> Map<Seq<char>, Map<Seq<char>, u64>> {
        kv_map(self.exclude@).map_values(|ts: Vec<(String, u64)>| kv_map(ts@))
    }

    /// The record cap attached to the request.
    pub closed spec fn spec_max_records(self) -> Option<u16> {
        self.max_records_per_request
    }

    /// Keys are unique at every level, so each view faithfully mirrors its
    /// list.
    pub closed spec fn wf(self) -> bool {
        &&& unique_keys(self.schools@)
        &&& forall|i: int|
            0 <= i < self.schools@.len() ==> (#[trigger] self.schools@[i].1 matches
                SchoolEntry::TermToSequence(ts) ==> unique_keys(ts@))
        &&& unique_keys(self.exclude@)
        &&& forall|i: int|
            0 <= i < self.exclude@.len() ==> unique_keys(#[trigger] self.exclude@[i].1@)
    }

    /// A fresh request description carrying the default record cap.
    pub fn new() -> (r: SelectSync)
        ensures
            r.wf(),
            r.schools_view() == Map::<Seq<char>, EntryView>::empty(),
            r.exclude_view() == Map::<Seq<char>, Map<Seq<char>, u64>>::empty(),
            r.spec_max_records() == Some(DEFAULT_MAX_RECORDS),
    {
        Self::with_max_records(DEFAULT_MAX_RECORDS)
    }

    /// A fresh request description carrying the given record cap.
    pub fn with_max_records(max_records: u16) -> (r: SelectSync)
        ensures
            r.wf(),
            r.schools_view() == Map::<Seq<char>, EntryView>::empty(),
            r.exclude_view() == Map::<Seq<char>, Map<Seq<char>, u64>>::empty(),
            r.spec_max_records() == Some(max_records),
    {
        let r = SelectSync {
            exclude: Vec::new(),
            max_records_per_request: Some(max_records),
            schools: Vec::new(),
        };
        proof {
            assert(r.schools_view() =~= Map::<Seq<char>, EntryView>::empty());
            assert(r.exclude_view() =~= Map::<Seq<char>, Map<Seq<char>, u64>>::empty());
        }
        r
    }

    /// The exclusion entries.
    pub fn get_exclusions(&self) -> (r: &Vec<(String, Vec<(String, u64)>)>)
        ensures
            kv_map(r@).map_values(|ts: Vec<(String, u64)>| kv_map(ts@)) == self.exclude_view(),
    {
        &self.exclude
    }

    /// The record cap.
    pub fn get_max_records(&self) -> (r: Option<u16>)
        ensures
            r == self.spec_max_records(),
    {
        self.max_records_per_request
    }

    /// The school entries.
    pub fn get_schools(&self) -> (r: &Vec<(String, SchoolEntry)>)
        ensures
            kv_map(r@).map_values(|e: SchoolEntry| entry_view(e)) == self.schools_view(),
    {
        &self.schools
    }

    /// Registers a whole-school request entry. Fails without changing the
    /// description when the school already has any entry.
    pub fn add_school_sync(&mut self, school_id: String, synced_at: u64) -> (r: Result<(), DataStoreError>)
        requires
            old(self).wf(),
        ensures
            final(self).wf(),
            final(self).spec_max_records() == old(self).spec_max_records(),
            final(self).exclude_view() == old(self).exclude_view(),
            match r {
                Ok(()) => !old(self).schools_view().dom().contains(school_id@)
                    && final(self).schools_view()
                    == old(self).schools_view().insert(school_id@, EntryView::Whole(synced_at)),
                Err(e) => e.is_conflict(ConflictKind::DuplicateSchool)
                    && old(self).schools_view().dom().contains(school_id@)
                    && final(self).schools_view() == old(self).schools_view(),
            },
    {
        proof {
            lemma_kv_map_dom(self.schools@);
        }
        match find_key(&self.schools, &school_id) {
            Some(_) => Err(
                DataStoreError::StateConflict {
                    kind: ConflictKind::DuplicateSchool,
                    message: String::from_str("school is already set to sync"),
                },
            ),
            None => {
                proof {
                    lemma_kv_map_push(self.schools@, (school_id, SchoolEntry::Sequence(synced_at)));
                }
                let ghost before = *self;
                self.schools.push((school_id, SchoolEntry::Sequence(synced_at)));
                proof {
                    assert(final(self).schools_view() =~= before.schools_view().insert(
                        school_id@,
                        EntryView::Whole(synced_at),
                    ));
                }
                Ok(())
            },
        }
    }
}

/// The term map of a school's entry in a school map: its term-to-sequence
/// map when the entry is term-level, the empty map otherwise (including when
/// the school is absent).
pub open spec fn term_map_of(v: Map<Seq<char>, EntryView>, s: Seq<char>) -> Map<Seq<char>, u64> {
    if v.dom().contains(s) {
        match v[s] {
            EntryView::Terms(m) => m,
            EntryView::Whole(_) => Map::empty(),
        }
    } else {
        Map::empty()
    }
}

/// The term map of a school in an exclusion map: its entry when present,
/// the empty map otherwise.
pub open spec fn exclude_map_of(v: Map<Seq<char>, Map<Seq<char>, u64>>, s: Seq<char>) -> Map<
    Seq<char>,
    u64,
> {
    if v.dom().contains(s) {
        v[s]
    } else {
        Map::empty()
    }
}

impl SelectSync {
    /// Registers a term-level request entry for a school. Fails without
    /// changing the description when the school is already requested whole,
    /// or the term is already present.
    pub fn add_term_sync(
        &mut self,
        school_id: String,
        term_collection_id: String,
        synced_at: u64,
    ) -> (r: Result<(), DataStoreError>)
        requires
            old(self).wf(),
        ensures
            final(self).wf(),
            final(self).spec_max_records() == old(self).spec_max_records(),
            final(self).exclude_view() == old(self).exclude_view(),
            match r {
                Ok(()) => !(old(self).schools_view().dom().contains(school_id@) && old(
                    self,
                ).schools_view()[school_id@] is Whole) && !term_map_of(
                    old(self).schools_view(),
                    school_id@,
                ).dom().contains(term_collection_id@) && final(self).schools_view() == old(
                    self,
                ).schools_view().insert(
                    school_id@,
                    EntryView::Terms(
                        term_map_of(old(self).schools_view(), school_id@).insert(
                            term_collection_id@,
                            synced_at,
                        ),
                    ),
                ),
                Err(e) => final(self).schools_view() == old(self).schools_view() && ((e.is_conflict(
                    ConflictKind::DuplicateSchool,
                ) && old(self).schools_view().dom().contains(school_id@) && old(
                    self,
                ).schools_view()[school_id@] is Whole) || (e.is_conflict(ConflictKind::DuplicateTerm)
                    && term_map_of(old(self).schools_view(), school_id@).dom().contains(
                    term_collection_id@,
                ))),
            },
    {
        proof {
            lemma_kv_map_dom(self.schools@);
        }
        match find_key(&self.schools, &school_id) {
            None => {
                let mut ts: Vec<(String, u64)> = Vec::new();
                proof {
                    lemma_kv_map_push(ts@, (term_collection_id, synced_at));
                    assert(kv_map(ts@) =~= Map::<Seq<char>, u64>::empty());
                }
                ts.push((term_collection_id, synced_at));
                proof {
                    lemma_kv_map_push(self.schools@, (school_id, SchoolEntry::TermToSequence(ts)));
                }
                let ghost before = *self;
                self.schools.push((school_id, SchoolEntry::TermToSequence(ts)));
                proof {
                    assert(final(self).schools_view() =~= before.schools_view().insert(
                        school_id@,
                        EntryView::Terms(
                            term_map_of(before.schools_view(), school_id@).insert(
                                term_collection_id@,
                                synced_at,
                            ),
                        ),
                    ));
                }
                Ok(())
            },
            Some(i) => {
                let ghost before = *self;
                proof {
                    lemma_kv_map_index(self.schools@, i as int);
                }
                let (key, val) = self.schools.remove(i);
                match val {
                    SchoolEntry::Sequence(n) => {
                        self.schools.insert(i, (key, SchoolEntry::Sequence(n)));
                        proof {
                            assert(self.schools@ =~= before.schools@);
                        }
                        Err(
                            DataStoreError::StateConflict {
                                kind: ConflictKind::DuplicateSchool,
                                message: String::from_str(
                                    "school is already set to sync whole",
                                ),
                            },
                        )
                    },
                    SchoolEntry::TermToSequence(mut ts) => {
                        match find_key(&ts, &term_collection_id) {
                            Some(_) => {
                                proof {
                                    lemma_kv_map_dom(ts@);
                                }
                                self.schools.insert(i, (key, SchoolEntry::TermToSequence(ts)));
                                proof {
                                    assert(self.schools@ =~= before.schools@);
                                }
                                Err(
                                    DataStoreError::StateConflict {
                                        kind: ConflictKind::DuplicateTerm,
                                        message: String::from_str(
                                            "term is already set to sync",
                                        ),
                                    },
                                )
                            },
                            None => {
                                proof {
                                    lemma_kv_map_dom(ts@);
                                    lemma_kv_map_push(ts@, (term_collection_id, synced_at));
                                }
                                let ghost old_ts = ts;
                                ts.push((term_collection_id, synced_at));
                                let ghost entry = (key, SchoolEntry::TermToSequence(ts));
                                proof {
                                    assert(before.schools@[i as int].0@ == key@);
                                    lemma_kv_map_update(before.schools@, i as int, entry);
                                }
                                self.schools.insert(i, (key, SchoolEntry::TermToSequence(ts)));
                                proof {
                                    assert(self.schools@ =~= before.schools@.update(
                                        i as int,
                                        entry,
                                    ));
                                    assert(final(self).schools_view() =~= before.schools_view()
                                        .insert(
                                        school_id@,
                                        EntryView::Terms(
                                            term_map_of(before.schools_view(), school_id@).insert(
                                                term_collection_id@,
                                                synced_at,
                                            ),
                                        ),
                                    ));
                                    assert forall|j: int|
                                        0 <= j < self.schools@.len() implies (
                                    #[trigger] self.schools@[j].1 matches
                                        SchoolEntry::TermToSequence(l) ==> unique_keys(l@)) by {
                                        if j != i {
                                            assert(self.schools@[j] == before.schools@[j]);
                                        }
                                    }
                                }
                                Ok(())
                            },
                        }
                    },
                }
            },
        }
    }

    /// Records an exclusion entry: a term the remote side may skip because a
    /// whole-school request supersedes it, together with the sequence already
    /// known current. Fails without changing the description when the term
    /// is already excluded.
    pub fn add_exclusion(
        &mut self,
        school_id: String,
        term_collection_id: String,
        synced_at: u64,
    ) -> (r: Result<(), DataStoreError>)
        requires
            old(self).wf(),
        ensures
            final(self).wf(),
            final(self).spec_max_records() == old(self).spec_max_records(),
            final(self).schools_view() == old(self).schools_view(),
            match r {
                Ok(()) => !exclude_map_of(old(self).exclude_view(), school_id@).dom().contains(
                    term_collection_id@,
                ) && final(self).exclude_view() == old(self).exclude_view().insert(
                    school_id@,
                    exclude_map_of(old(self).exclude_view(), school_id@).insert(
                        term_collection_id@,
                        synced_at,
                    ),
                ),
                Err(e) => final(self).exclude_view() == old(self).exclude_view() && e.is_conflict(
                    ConflictKind::DuplicateExclusion,
                ) && exclude_map_of(old(self).exclude_view(), school_id@).dom().contains(
                    term_collection_id@,
                ),
            },
    {
        proof {
            lemma_kv_map_dom(self.exclude@);
        }
        match find_key(&self.exclude, &school_id) {
            None => {
                let mut ts: Vec<(String, u64)> = Vec::new();
                proof {
                    lemma_kv_map_push(ts@, (term_collection_id, synced_at));
                    assert(kv_map(ts@) =~= Map::<Seq<char>, u64>::empty());
                }
                ts.push((term_collection_id, synced_at));
                proof {
                    lemma_kv_map_push(self.exclude@, (school_id, ts));
                }
                let ghost before = *self;
                self.exclude.push((school_id, ts));
                proof {
                    assert(final(self).exclude_view() =~= before.exclude_view().insert(
                        school_id@,
                        exclude_map_of(before.exclude_view(), school_id@).insert(
                            term_collection_id@,
                            synced_at,
                        ),
                    ));
                }
                Ok(())
            },
            Some(i) => {
                let ghost before = *self;
                proof {
                    lemma_kv_map_index(self.exclude@, i as int);
                }
                let (key, mut ts) = self.exclude.remove(i);
                match find_key(&ts, &term_collection_id) {
                    Some(_) => {
                        proof {
                            lemma_kv_map_dom(ts@);
                        }
                        self.exclude.insert(i, (key, ts));
                        proof {
                            assert(self.exclude@ =~= before.exclude@);
                        }
                        Err(
                            DataStoreError::StateConflict {
                                kind: ConflictKind::DuplicateExclusion,
                                message: String::from_str("term is already excluded"),
                            },
                        )
                    },
                    None => {
                        proof {
                            lemma_kv_map_dom(ts@);
                            lemma_kv_map_push(ts@, (term_collection_id, synced_at));
                        }
                        ts.push((term_collection_id, synced_at));
                        let ghost entry = (key, ts);
                        proof {
                            assert(before.exclude@[i as int].0@ == key@);
                            lemma_kv_map_update(before.exclude@, i as int, entry);
                        }
                        self.exclude.insert(i, (key, ts));
                        proof {
                            assert(self.exclude@ =~= before.exclude@.update(i as int, entry));
                            assert(final(self).exclude_view() =~= before.exclude_view().insert(
                                school_id@,
                                exclude_map_of(before.exclude_view(), school_id@).insert(
                                    term_collection_id@,
                                    synced_at,
                                ),
                            ));
                            assert forall|j: int| 0 <= j < self.exclude@.len() implies unique_keys(
                                #[trigger] self.exclude@[j].1@,
                            ) by {
                                if j != i {
                                    assert(self.exclude@[j] == before.exclude@[j]);
                                }
                            }
                        }
                        Ok(())
                    },
                }
            },
        }
    }
}

/// The result payload of one select-mode request: the new watermarks per
/// school, the change records to apply, and whether more data is available.
#[derive(Debug)]
pub struct TermSyncResult {
    pub new_sync_term_sequences: Vec<(String, SchoolEntry)>,
    pub sync_data: Vec<ClassDataSync>,
    pub any_has_more: bool,
}

// ALL SYNCS - the request description for whole-catalog syncing, and its
// result payload.

/// The all-mode request description: pull everything changed after
/// `last_sync`, at most `max_records_count` records at a time.
#[derive(Clone, Copy, PartialEq, Eq, Structural, Debug)]
pub struct AllSync {
    pub last_sync: u64,
    pub max_records_count: Option<u16>,
}

/// The result payload of one all-mode request: the new global watermark, the
/// change records to apply, and whether more data is available.
#[derive(Debug)]
pub struct AllSyncResult {
    pub new_latest_sync: u64,
    pub sync_data: Vec<ClassDataSync>,
    pub has_more: bool,
}

/// The next outbound request, as resolved from the store's state.
#[derive(Debug)]
pub enum SyncOptions {
    All(AllSync),
    Select(SelectSync),
}

/// One school row of the local catalog.
#[derive(Debug)]
pub struct School {
    pub id: String,
    pub name: String,
}

/// One term row of the local catalog.
#[derive(Debug)]
pub struct Term {
    pub id: String,
    pub school_id: String,
    pub year: i64,
    pub season: String,
    pub name: String,
    pub still_collecting: bool,
}

} // verus!
