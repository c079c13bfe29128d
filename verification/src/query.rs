//! The SQL text and bound parameters of a history search.
use vstd::prelude::*;
use crate::schema::SearchFilter;
use crate::text::{chars_of, dec_nat, push_decimal, string_of};

verus! {

/// A value bound to a numbered parameter of a statement.
#[derive(Debug, Clone)]
pub enum SqlParam {
    /// A text value.
    Text(String),
    /// An integer value.
    Integer(i32),
}

/// The mathematical value of a bound parameter.
pub enum SqlValue {
    Text(Seq<char>),
    Integer(i32),
}

impl View for SqlParam {
    type V = SqlValue;

    open spec fn view(&self) -> SqlValue {
        match self {
            SqlParam::Text(s) => SqlValue::Text(s@),
            SqlParam::Integer(i) => SqlValue::Integer(*i),
        }
    }
}

/// A statement with its bound parameters, in the order of their numbers.
pub struct SearchQuery {
    pub sql: String,
    pub params: Vec<SqlParam>,
}

/// The start of every search: all columns of the entries that are not
/// deleted.
pub open spec fn search_head() -> Seq<char> {
    "SELECT id,timestamp,duration,exit,command,cwd,session,hostname,deleted_at
             FROM history WHERE deleted_at IS NULL"@
}

/// A condition on parameter number `idx`, or nothing when `present` is
/// false.
pub open spec fn condition(present: bool, clause: Seq<char>, idx: nat) -> Seq<char> {
    if present {
        clause + dec_nat(idx)
    } else {
        Seq::empty()
    }
}

/// Number of the parameter after `idx`, which moves on only when a
/// condition was added.
pub open spec fn next_idx(present: bool, idx: nat) -> nat {
    if present {
        idx + 1
    } else {
        idx
    }
}

/// The SQL text of a search: the head, one condition per field of the
/// filter that is set (command pattern, directory, host, exit code, in this
/// order, numbered from 1), newest first, then the page.
pub open spec fn search_sql(f: SearchFilter) -> Seq<char> {
    let i_query: nat = 1;
    let i_cwd = next_idx(f.query is Some, i_query);
    let i_host = next_idx(f.cwd is Some, i_cwd);
    let i_exit = next_idx(f.hostname is Some, i_host);
    search_head()
        + condition(f.query is Some, " AND command LIKE ?"@, i_query)
        + condition(f.cwd is Some, " AND cwd = ?"@, i_cwd)
        + condition(f.hostname is Some, " AND hostname = ?"@, i_host)
        + condition(f.exit is Some, " AND exit = ?"@, i_exit)
        + " ORDER BY timestamp DESC"@
        + " LIMIT "@ + dec_nat(f.limit as nat)
        + " OFFSET "@ + dec_nat(f.offset as nat)
}

/// The pattern that matches commands containing `q`.
pub open spec fn contains_pattern(q: Seq<char>) -> Seq<char> {
    seq!['%'] + q + seq!['%']
}

/// The values bound to the conditions of `search_sql(f)`, in their order.
pub open spec fn search_params(f: SearchFilter) -> Seq<SqlValue> {
    (match f.query {
        Some(q) => seq![SqlValue::Text(contains_pattern(q@))],
        None => Seq::empty(),
    }) + (match f.cwd {
        Some(c) => seq![SqlValue::Text(c@)],
        None => Seq::empty(),
    }) + (match f.hostname {
        Some(h) => seq![SqlValue::Text(h@)],
        None => Seq::empty(),
    }) + (match f.exit {
        Some(e) => seq![SqlValue::Integer(e)],
        None => Seq::empty(),
    })
}

/// The views of a list of parameters.
pub open spec fn param_values(ps: Seq<SqlParam>) -> Seq<SqlValue> {
    ps.map_values(|p: SqlParam| p@)
}

fn append_text(out: &mut Vec<char>, s: &str)
    ensures
        final(out)@ == old(out)@ + s@,
{
    let mut cs = chars_of(s);
    out.append(&mut cs);
}

fn append_condition(out: &mut Vec<char>, present: bool, clause: &str, idx: u64) -> (next: u64)
    requires
        idx < u64::MAX,
    ensures
        final(out)@ == old(out)@ + condition(present, clause@, idx as nat),
        next == next_idx(present, idx as nat),
{
    if present {
        append_text(out, clause);
        push_decimal(idx, out);
        assert(final(out)@ =~= old(out)@ + condition(present, clause@, idx as nat));
        idx + 1
    } else {
        assert(final(out)@ =~= old(out)@ + condition(present, clause@, idx as nat));
        idx
    }
}

fn like_pattern(q: &String) -> (r: String)
    ensures
        r@ == contains_pattern(q@),
{
    let mut cs: Vec<char> = Vec::new();
    cs.push('%');
    append_text(&mut cs, q.as_str());
    cs.push('%');
    assert(cs@ =~= contains_pattern(q@));
    string_of(cs.as_slice())
}

/// The statement and parameters that select the entries that `filter`
/// describes.
pub fn build_search_query(filter: &SearchFilter) -> (r: SearchQuery)
    ensures
        r.sql@ == search_sql(*filter),
        param_values(r.params@) == search_params(*filter),
{
    let mut out: Vec<char> = Vec::new();
    append_text(&mut out, "SELECT id,timestamp,duration,exit,command,cwd,session,hostname,deleted_at
             FROM history WHERE deleted_at IS NULL");
    let i = append_condition(&mut out, filter.query.is_some(), " AND command LIKE ?", 1);
    let i = append_condition(&mut out, filter.cwd.is_some(), " AND cwd = ?", i);
    let i = append_condition(&mut out, filter.hostname.is_some(), " AND hostname = ?", i);
    let _ = append_condition(&mut out, filter.exit.is_some(), " AND exit = ?", i);
    append_text(&mut out, " ORDER BY timestamp DESC");
    append_text(&mut out, " LIMIT ");
    push_decimal(filter.limit as u64, &mut out);
    append_text(&mut out, " OFFSET ");
    push_decimal(filter.offset as u64, &mut out);
    assert(out@ =~= search_sql(*filter));
    let sql = string_of(out.as_slice());

    let mut params: Vec<SqlParam> = Vec::new();
    if let Some(q) = &filter.query {
        params.push(SqlParam::Text(like_pattern(q)));
    }
    if let Some(c) = &filter.cwd {
        params.push(SqlParam::Text(c.clone()));
    }
    if let Some(h) = &filter.hostname {
        params.push(SqlParam::Text(h.clone()));
    }
    if let Some(e) = filter.exit {
        params.push(SqlParam::Integer(e));
    }
    assert(param_values(params@) =~= search_params(*filter));
    SearchQuery { sql, params }
}

} // verus!

verus! {

/// Number of conditions that a filter sets.
pub open spec fn condition_count(f: SearchFilter) -> nat {
    (if f.query is Some { 1nat } else { 0nat }) + (if f.cwd is Some { 1nat } else { 0nat }) + (if f.hostname is Some {
        1nat
    } else {
        0nat
    }) + (if f.exit is Some { 1nat } else { 0nat })
}

/// Every search starts from the entries that are not deleted, and binds
/// exactly one value per condition that the filter sets.
pub proof fn search_binds_one_value_per_condition(f: SearchFilter)
    ensures
        search_sql(f).len() >= search_head().len(),
        search_sql(f).take(search_head().len() as int) == search_head(),
        search_params(f).len() == condition_count(f),
{
    assert(search_sql(f).take(search_head().len() as int) =~= search_head());
}

} // verus!
