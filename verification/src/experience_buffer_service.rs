//! The experience buffer's records and query: which experience records a
//! query selects, and the patterns and identifiers the buffer writes.
use vstd::prelude::*;

use crate::sql::{clause_if, int_param, opt_text, params_view, text_param, QueryBuilder, QueryPlan};
use crate::text::{push_str, string_from_chars};

verus! {

/// A change of trust tier.
#[derive(Debug, Clone)]
pub struct TrustTierTransition {
    pub id: String,
    pub from_tier: String,
    pub to_tier: String,
    pub transitioned_at: String,
    pub validation_period_days: u32,
    pub metrics_json: String,
    pub promoting_authority: String,
}

/// A query of experience records.
#[derive(Debug, Clone)]
pub struct ExperienceQuery {
    pub from_date: Option<String>,
    pub to_date: Option<String>,
    pub task_type: Option<String>,
    pub advisory_accepted: Option<bool>,
    pub limit: Option<u32>,
}

/// The statement of an experience query.
pub open spec fn experience_sql(q: ExperienceQuery) -> Seq<char> {
    "SELECT * FROM experience_records WHERE 1=1"@ + clause_if(q.from_date is Some, " AND timestamp >= ?"@)
        + clause_if(q.to_date is Some, " AND timestamp <= ?"@) + clause_if(q.task_type is Some, " AND task_type = ?"@)
        + clause_if(q.advisory_accepted is Some, " AND advisory_accepted = ?"@) + " ORDER BY timestamp DESC"@
        + clause_if(q.limit is Some, " LIMIT ?"@)
}

/// The parameters of an experience query: the dates and task type as text,
/// acceptance as 1 or 0, the limit.
pub open spec fn experience_params(q: ExperienceQuery) -> Seq<crate::sql::ParamView> {
    text_param(opt_text(q.from_date)) + text_param(opt_text(q.to_date)) + text_param(opt_text(q.task_type))
        + int_param(
        match q.advisory_accepted {
            Some(b) => Some(if b {
                1int
            } else {
                0int
            }),
            None => None,
        },
    ) + int_param(
        match q.limit {
            Some(l) => Some(l as int),
            None => None,
        },
    )
}

/// Builds the experience query: filters on date range, task type and
/// acceptance, newest first, at most `limit` rows.
pub fn experience_query(q: &ExperienceQuery) -> (plan: QueryPlan)
    ensures
        plan.sql@ == experience_sql(*q),
        params_view(plan.params@) == experience_params(*q),
{
    let mut b = QueryBuilder::new("SELECT * FROM experience_records WHERE 1=1");
    b.text_filter(" AND timestamp >= ?", &q.from_date);
    b.text_filter(" AND timestamp <= ?", &q.to_date);
    b.text_filter(" AND task_type = ?", &q.task_type);
    b.int_filter(
        " AND advisory_accepted = ?",
        match q.advisory_accepted {
            Some(a) => Some(if a {
                1i64
            } else {
                0i64
            }),
            None => None,
        },
    );
    b.push_sql(" ORDER BY timestamp DESC");
    b.int_filter(
        " LIMIT ?",
        match q.limit {
            Some(l) => Some(l as i64),
            None => None,
        },
    );
    b.finish()
}

/// The pattern that finds an agent's records among the scoring
/// recommendations: `%<agent>%`.
pub fn agent_like_pattern(agent_id: &str) -> (p: String)
    ensures
        p@ == "%"@ + agent_id@ + "%"@,
{
    let mut out: Vec<char> = Vec::new();
    push_str(&mut out, "%");
    push_str(&mut out, agent_id);
    push_str(&mut out, "%");
    string_from_chars(&out)
}

/// The ID of the record created for an outcome whose decision was never
/// recorded: `partial-<packet>`.
pub fn partial_record_id(delegation_packet_id: &str) -> (id: String)
    ensures
        id@ == "partial-"@ + delegation_packet_id@,
{
    let mut out: Vec<char> = Vec::new();
    push_str(&mut out, "partial-");
    push_str(&mut out, delegation_packet_id);
    string_from_chars(&out)
}

} // verus!
