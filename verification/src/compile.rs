//! The change-record compiler: turns one validated change record into
//! parameterized SQL text plus the positional parameters to bind.
//!
//! Column names are interpolated into the text (which is why they are
//! validated first); every value is bound as a positional `?` parameter in
//! the exact order the contracts state.

use vstd::prelude::*;
use crate::scalar::{param_of, to_sql_param, Scalar, SqlParam};
use crate::sync_requests::{table_sql, ClassDataSync, SyncAction};

verus! {

/// One compiled statement: its SQL text and the parameters to bind, in
/// positional order.
pub struct CompiledSql {
    pub sql: String,
    pub params: Vec<SqlParam>,
}

/// The given parts joined with the given separator.
pub open spec fn joined(parts: Seq<Seq<char>>, sep: Seq<char>) -> Seq<char>
    decreases parts.len(),
{
    if parts.len() == 0 {
        Seq::empty()
    } else if parts.len() == 1 {
        parts[0]
    } else {
        joined(parts.drop_last(), sep) + sep + parts.last()
    }
}

/// `name = ?` for each field, in order.
pub open spec fn assign_parts(fields: Seq<(String, Scalar)>) -> Seq<Seq<char>> {
    fields.map_values(|f: (String, Scalar)| f.0@ + " = ?"@)
}

/// The field names, in order.
pub open spec fn name_parts(fields: Seq<(String, Scalar)>) -> Seq<Seq<char>> {
    fields.map_values(|f: (String, Scalar)| f.0@)
}

/// `n` positional placeholders.
pub open spec fn placeholder_parts(n: nat) -> Seq<Seq<char>> {
    Seq::new(n, |i: int| "?"@)
}

/// The parameters of a field list: each value mapped to its SQL parameter,
/// in field order.
pub open spec fn params_of(fields: Seq<(String, Scalar)>) -> Seq<SqlParam> {
    fields.map_values(|f: (String, Scalar)| param_of(f.1))
}

/// The text of a compiled update: `SET` assignments from the changed fields,
/// `WHERE` conditions from the key fields.
pub open spec fn update_sql(r: ClassDataSync) -> Seq<char> {
    "UPDATE "@ + table_sql(r.table_name) + " SET "@ + joined(assign_parts(r.changed_fields()), ", "@)
        + " WHERE "@ + joined(assign_parts(r.pk_fields@), " AND "@) + ";"@
}

/// The text of a compiled delete: `WHERE` conditions from the key fields
/// only.
pub open spec fn delete_sql(r: ClassDataSync) -> Seq<char> {
    "DELETE FROM "@ + table_sql(r.table_name) + " WHERE "@ + joined(
        assign_parts(r.pk_fields@),
        " AND "@,
    ) + ";"@
}

/// The text of a compiled insert: the column list is the key fields then the
/// changed fields, in that order.
pub open spec fn insert_sql(r: ClassDataSync) -> Seq<char> {
    "INSERT INTO "@ + table_sql(r.table_name) + " ("@ + joined(name_parts(r.all_fields()), ", "@)
        + ") VALUES ("@ + joined(placeholder_parts(r.all_fields().len()), ", "@) + ");"@
}

/// The statement text a record compiles to.
pub open spec fn record_sql(r: ClassDataSync) -> Seq<char> {
    match r.sync_action {
        SyncAction::Update => update_sql(r),
        SyncAction::Delete => delete_sql(r),
        SyncAction::Insert => insert_sql(r),
    }
}

/// The parameters a record binds: changed then key for an update, key only
/// for a delete, key then changed for an insert.
pub open spec fn record_params(r: ClassDataSync) -> Seq<SqlParam> {
    match r.sync_action {
        SyncAction::Update => params_of(r.changed_fields()) + params_of(r.pk_fields@),
        SyncAction::Delete => params_of(r.pk_fields@),
        SyncAction::Insert => params_of(r.pk_fields@) + params_of(r.changed_fields()),
    }
}

/// An update with no changed fields compiles to nothing: a no-op update is
/// not an error.
pub open spec fn is_noop_update(r: ClassDataSync) -> bool {
    r.sync_action is Update && r.changed_fields().len() == 0
}

/// A statement is safe to hand to the store exactly when it is the
/// compilation of some well-formed, non-no-op change record: its table is
/// allow-listed and every interpolated name matches the identifier pattern.
pub open spec fn safe_statement(sql: Seq<char>) -> bool {
    exists|r: ClassDataSync| r.wf() && !is_noop_update(r) && sql == record_sql(r)
}

/// Joining a list extended by one more part appends the separator (when the
/// list was non-empty) and the part.
proof fn lemma_joined_push(parts: Seq<Seq<char>>, sep: Seq<char>, p: Seq<char>)
    ensures
        joined(parts.push(p), sep) == if parts.len() == 0 {
            p
        } else {
            joined(parts, sep) + sep + p
        },
{
    assert(parts.push(p).drop_last() =~= parts);
    assert(parts.push(p).last() == p);
    if parts.len() == 0 {
        assert(parts.push(p)[0] == p);
    }
}

/// Appends `name = ?` for every field, separated by `sep`, onto `sql`, and
/// the matching parameter for every field onto `params`.
#[verifier::loop_isolation(false)]
fn append_assign_list(
    sql: &mut String,
    params: &mut Vec<SqlParam>,
    fields: &Vec<(String, Scalar)>,
    sep: &str,
)
    ensures
        final(sql)@ == old(sql)@ + joined(assign_parts(fields@), sep@),
        final(params)@ == old(params)@ + params_of(fields@),
{
    let n = fields.len();
    let mut i: usize = 0;
    proof {
        assert(assign_parts(fields@.take(0)) =~= Seq::<Seq<char>>::empty());
        assert(params_of(fields@.take(0)) =~= Seq::<SqlParam>::empty());
        assert(sql@ =~= old(sql)@ + joined(assign_parts(fields@.take(0)), sep@));
        assert(params@ =~= old(params)@ + params_of(fields@.take(0)));
    }
    while i < n
        invariant
            0 <= i <= n,
            sql@ == old(sql)@ + joined(assign_parts(fields@.take(i as int)), sep@),
            params@ == old(params)@ + params_of(fields@.take(i as int)),
        decreases n - i,
    {
        proof {
            assert(assign_parts(fields@.take(i + 1)) =~= assign_parts(fields@.take(i as int)).push(
                fields@[i as int].0@ + " = ?"@,
            ));
            assert(params_of(fields@.take(i + 1)) =~= params_of(fields@.take(i as int)).push(
                param_of(fields@[i as int].1),
            ));
            lemma_joined_push(
                assign_parts(fields@.take(i as int)),
                sep@,
                fields@[i as int].0@ + " = ?"@,
            );
        }
        if i > 0 {
            sql.append(sep);
        }
        sql.append(fields[i].0.as_str());
        sql.append(" = ?");
        params.push(to_sql_param(&fields[i].1));
        proof {
            assert(sql@ =~= old(sql)@ + joined(assign_parts(fields@.take(i + 1)), sep@));
        }
        i += 1;
    }
    proof {
        assert(fields@.take(n as int) =~= fields@);
    }
}

/// Appends the field names, separated by `", "`, onto `sql`; `first` says
/// whether the list so far is empty (no separator is written before the
/// first name overall).
#[verifier::loop_isolation(false)]
fn append_name_list(sql: &mut String, fields: &Vec<(String, Scalar)>, first: bool)
    requires
        fields@.len() > 0,
    ensures
        final(sql)@ == old(sql)@ + (if first {
            Seq::<char>::empty()
        } else {
            ", "@
        }) + joined(name_parts(fields@), ", "@),
{
    let n = fields.len();
    let mut i: usize = 0;
    let ghost lead = if first {
        Seq::<char>::empty()
    } else {
        ", "@
    };
    proof {
        assert(name_parts(fields@.take(0)) =~= Seq::<Seq<char>>::empty());
        assert(sql@ + lead =~= old(sql)@ + lead + joined(name_parts(fields@.take(0)), ", "@));
    }
    while i < n
        invariant
            0 <= i <= n,
            i == 0 ==> sql@ == old(sql)@,
            i > 0 ==> sql@ == old(sql)@ + lead + joined(name_parts(fields@.take(i as int)), ", "@),
        decreases n - i,
    {
        proof {
            assert(name_parts(fields@.take(i + 1)) =~= name_parts(fields@.take(i as int)).push(
                fields@[i as int].0@,
            ));
            lemma_joined_push(name_parts(fields@.take(i as int)), ", "@, fields@[i as int].0@);
        }
        if i > 0 || !first {
            sql.append(", ");
        }
        sql.append(fields[i].0.as_str());
        proof {
            if i == 0 {
                assert(joined(name_parts(fields@.take(1)), ", "@) == fields@[0].0@);
                assert(sql@ =~= old(sql)@ + lead + joined(name_parts(fields@.take(1)), ", "@));
            } else {
                assert(sql@ =~= old(sql)@ + lead + joined(
                    name_parts(fields@.take(i + 1)),
                    ", "@,
                ));
            }
        }
        i += 1;
    }
    proof {
        assert(fields@.take(n as int) =~= fields@);
    }
}

/// Appends `n` placeholders, separated by `", "`, onto `sql`; `first` says
/// whether the list so far is empty.
#[verifier::loop_isolation(false)]
fn append_placeholders(sql: &mut String, n: usize, first: bool)
    requires
        n > 0,
    ensures
        final(sql)@ == old(sql)@ + (if first {
            Seq::<char>::empty()
        } else {
            ", "@
        }) + joined(placeholder_parts(n as nat), ", "@),
{
    let mut i: usize = 0;
    let ghost lead = if first {
        Seq::<char>::empty()
    } else {
        ", "@
    };
    proof {
        assert(placeholder_parts(0) =~= Seq::<Seq<char>>::empty());
    }
    while i < n
        invariant
            0 <= i <= n,
            i == 0 ==> sql@ == old(sql)@,
            i > 0 ==> sql@ == old(sql)@ + lead + joined(placeholder_parts(i as nat), ", "@),
        decreases n - i,
    {
        proof {
            assert(placeholder_parts((i + 1) as nat) =~= placeholder_parts(i as nat).push("?"@));
            lemma_joined_push(placeholder_parts(i as nat), ", "@, "?"@);
        }
        if i > 0 || !first {
            sql.append(", ");
        }
        sql.append("?");
        proof {
            if i == 0 {
                assert(joined(placeholder_parts(1), ", "@) == "?"@);
                assert(sql@ =~= old(sql)@ + lead + joined(placeholder_parts(1), ", "@));
            } else {
                assert(sql@ =~= old(sql)@ + lead + joined(
                    placeholder_parts((i + 1) as nat),
                    ", "@,
                ));
            }
        }
        i += 1;
    }
}

/// Appends the parameter of every field, in field order.
#[verifier::loop_isolation(false)]
fn push_params(params: &mut Vec<SqlParam>, fields: &Vec<(String, Scalar)>)
    ensures
        final(params)@ == old(params)@ + params_of(fields@),
{
    let n = fields.len();
    let mut i: usize = 0;
    proof {
        assert(params_of(fields@.take(0)) =~= Seq::<SqlParam>::empty());
        assert(params@ =~= old(params)@ + params_of(fields@.take(0)));
    }
    while i < n
        invariant
            0 <= i <= n,
            params@ == old(params)@ + params_of(fields@.take(i as int)),
        decreases n - i,
    {
        proof {
            assert(params_of(fields@.take(i + 1)) =~= params_of(fields@.take(i as int)).push(
                param_of(fields@[i as int].1),
            ));
        }
        params.push(to_sql_param(&fields[i].1));
        i += 1;
    }
    proof {
        assert(fields@.take(n as int) =~= fields@);
    }
}

/// Compiles a validated record into parameterized SQL. Returns `None`
/// exactly for a no-op update (absent or empty changed fields); otherwise
/// the statement text and parameters are exactly what the specification
/// functions state for the record.
pub fn compile_record(record: &ClassDataSync) -> (r: Option<CompiledSql>)
    requires
        record.wf(),
    ensures
        match r {
            None => is_noop_update(*record),
            Some(c) => !is_noop_update(*record) && c.sql@ == record_sql(*record) && c.params@
                == record_params(*record) && safe_statement(c.sql@),
        },
{
    let mut params: Vec<SqlParam> = Vec::new();
    match record.sync_action {
        SyncAction::Update => {
            let has_changes = match &record.relevant_fields {
                Some(v) => v.len() > 0,
                None => false,
            };
            if !has_changes {
                return None;
            }
            let fields = match &record.relevant_fields {
                Some(v) => v,
                None => {
                    proof {
                        assert(false);
                    }
                    &record.pk_fields
                },
            };
            let mut sql = String::from_str("UPDATE ");
            sql.append(record.table_name.sql_name());
            sql.append(" SET ");
            append_assign_list(&mut sql, &mut params, fields, ", ");
            sql.append(" WHERE ");
            append_assign_list(&mut sql, &mut params, &record.pk_fields, " AND ");
            sql.append(";");
            proof {
                assert(sql@ =~= record_sql(*record));
                assert(params@ =~= record_params(*record));
                assert(safe_statement(sql@)) by {
                    assert(record.wf() && !is_noop_update(*record) && sql@ == record_sql(*record));
                }
            }
            Some(CompiledSql { sql, params })
        },
        SyncAction::Delete => {
            let mut sql = String::from_str("DELETE FROM ");
            sql.append(record.table_name.sql_name());
            sql.append(" WHERE ");
            append_assign_list(&mut sql, &mut params, &record.pk_fields, " AND ");
            sql.append(";");
            proof {
                assert(sql@ =~= record_sql(*record));
                assert(params@ =~= record_params(*record));
                assert(safe_statement(sql@)) by {
                    assert(record.wf() && !is_noop_update(*record) && sql@ == record_sql(*record));
                }
            }
            Some(CompiledSql { sql, params })
        },
        SyncAction::Insert => {
            let mut sql = String::from_str("INSERT INTO ");
            sql.append(record.table_name.sql_name());
            sql.append(" (");
            append_name_list(&mut sql, &record.pk_fields, true);
            let has_changes = match &record.relevant_fields {
                Some(v) => v.len() > 0,
                None => false,
            };
            if has_changes {
                let v = match &record.relevant_fields {
                    Some(v) => v,
                    None => {
                        proof {
                            assert(false);
                        }
                        &record.pk_fields
                    },
                };
                append_name_list(&mut sql, v, false);
            }
            sql.append(") VALUES (");
            append_placeholders(&mut sql, record.pk_fields.len(), true);
            if has_changes {
                let v = match &record.relevant_fields {
                    Some(v) => v,
                    None => {
                        proof {
                            assert(false);
                        }
                        &record.pk_fields
                    },
                };
                append_placeholders(&mut sql, v.len(), false);
            }
            sql.append(");");
            push_params(&mut params, &record.pk_fields);
            if let Some(v) = &record.relevant_fields {
                push_params(&mut params, v);
            }
            proof {
                let a = record.pk_fields@;
                let b = record.changed_fields();
                lemma_joined_name_concat(a, b);
                assert(placeholder_parts(record.all_fields().len()) =~= placeholder_parts(a.len())
                    + placeholder_parts(b.len()));
                lemma_joined_concat(
                    placeholder_parts(a.len()),
                    placeholder_parts(b.len()),
                    ", "@,
                );
                assert(params_of(record.all_fields()) =~= params_of(a) + params_of(b));
                assert(sql@ =~= record_sql(*record));
                assert(params@ =~= record_params(*record));
                assert(safe_statement(sql@)) by {
                    assert(record.wf() && !is_noop_update(*record) && sql@ == record_sql(*record));
                }
            }
            Some(CompiledSql { sql, params })
        },
    }
}

/// The column list of an insert joins the key-field names and the
/// changed-field names with one separator in between (when both are
/// non-empty).
proof fn lemma_joined_name_concat(a: Seq<(String, Scalar)>, b: Seq<(String, Scalar)>)
    ensures
        name_parts(a + b) == if a.len() == 0 {
            name_parts(b)
        } else if b.len() == 0 {
            name_parts(a)
        } else {
            name_parts(a) + name_parts(b)
        },
        joined(name_parts(a) + name_parts(b), ", "@) == if a.len() == 0 {
            joined(name_parts(b), ", "@)
        } else if b.len() == 0 {
            joined(name_parts(a), ", "@)
        } else {
            joined(name_parts(a), ", "@) + ", "@ + joined(name_parts(b), ", "@)
        },
{
    assert(name_parts(a + b) =~= name_parts(a) + name_parts(b));
    if a.len() == 0 {
        assert(name_parts(a + b) =~= name_parts(b));
        assert(name_parts(a) + name_parts(b) =~= name_parts(b));
    }
    if b.len() == 0 {
        assert(name_parts(a + b) =~= name_parts(a));
        assert(name_parts(a) + name_parts(b) =~= name_parts(a));
    }
    lemma_joined_concat(name_parts(a), name_parts(b), ", "@);
}

/// Joining a concatenation splits into joining the halves (with one
/// separator in between when both halves are non-empty).
proof fn lemma_joined_concat(a: Seq<Seq<char>>, b: Seq<Seq<char>>, sep: Seq<char>)
    ensures
        joined(a + b, sep) == if a.len() == 0 {
            joined(b, sep)
        } else if b.len() == 0 {
            joined(a, sep)
        } else {
            joined(a, sep) + sep + joined(b, sep)
        },
    decreases b.len(),
{
    if b.len() == 0 {
        assert(a + b =~= a);
    } else if b.len() == 1 {
        assert((a + b).drop_last() =~= a);
        assert((a + b).last() == b[0]);
        if a.len() == 0 {
            assert(a + b =~= b);
        } else {
            assert(joined(a + b, sep) == joined(a, sep) + sep + b[0]);
            assert(joined(b, sep) == b[0]);
        }
    } else {
        lemma_joined_concat(a, b.drop_last(), sep);
        assert((a + b).drop_last() =~= a + b.drop_last());
        assert((a + b).last() == b.last());
        if a.len() == 0 {
            assert(a + b =~= b);
        }
    }
}

} // verus!
