//! The cost ledger's dashboard queries and the periods a cost record is
//! counted in.
use chrono::Datelike;
use vstd::prelude::*;

use crate::sql::{clause_if, int_param, opt_text, params_view, text_param, QueryBuilder, QueryPlan, ParamView};
use crate::text::{chars_of, decimal, push_chars, push_decimal, push_str, string_from_chars};
use crate::utf8::{byte_prefix, prefix_of_bytes, utf8_len};

verus! {

/// Filters of the cost dashboard.
#[derive(Debug, Clone)]
pub struct CostLedgerQuery {
    pub period_type: Option<String>,
    pub agent_id: Option<String>,
    pub task_type: Option<String>,
    pub from_date: Option<String>,
    pub to_date: Option<String>,
    pub limit: Option<u32>,
}

/// The statement of the aggregation query.
pub open spec fn aggregations_sql(q: CostLedgerQuery) -> Seq<char> {
    "SELECT period, period_type, agent_id, task_type, total_prompt_tokens, total_completion_tokens, total_tokens, total_estimated_cost_usd, record_count FROM cost_aggregations WHERE 1=1"@
        + clause_if(q.period_type is Some, " AND period_type = ?"@) + clause_if(q.agent_id is Some, " AND agent_id = ?"@)
        + clause_if(q.task_type is Some, " AND task_type = ?"@) + clause_if(q.from_date is Some, " AND period >= ?"@)
        + clause_if(q.to_date is Some, " AND period <= ?"@) + " ORDER BY period DESC"@ + match q.limit {
        Some(l) => " LIMIT "@ + decimal(l as nat),
        None => Seq::empty(),
    }
}

/// The parameters of the aggregation query.
pub open spec fn aggregations_params(q: CostLedgerQuery) -> Seq<ParamView> {
    text_param(opt_text(q.period_type)) + text_param(opt_text(q.agent_id)) + text_param(opt_text(q.task_type))
        + text_param(opt_text(q.from_date)) + text_param(opt_text(q.to_date))
}

/// Builds the aggregation query: filters on period type, agent, task type
/// and period range, latest period first, the limit written into the
/// statement.
pub fn aggregations_query(q: &CostLedgerQuery) -> (plan: QueryPlan)
    ensures
        plan.sql@ == aggregations_sql(*q),
        params_view(plan.params@) == aggregations_params(*q),
{
    let mut b = QueryBuilder::new(
        "SELECT period, period_type, agent_id, task_type, total_prompt_tokens, total_completion_tokens, total_tokens, total_estimated_cost_usd, record_count FROM cost_aggregations WHERE 1=1",
    );
    b.text_filter(" AND period_type = ?", &q.period_type);
    b.text_filter(" AND agent_id = ?", &q.agent_id);
    b.text_filter(" AND task_type = ?", &q.task_type);
    b.text_filter(" AND period >= ?", &q.from_date);
    b.text_filter(" AND period <= ?", &q.to_date);
    b.push_sql(" ORDER BY period DESC");
    match q.limit {
        Some(l) => {
            let mut t: Vec<char> = Vec::new();
            push_str(&mut t, " LIMIT ");
            push_decimal(&mut t, l as u64);
            let s = string_from_chars(&t);
            b.push_sql(s.as_str());
        },
        None => {
            assert(b.sql_view() + Seq::<char>::empty() =~= b.sql_view());
        },
    }
    assert(params_view(Seq::empty()) + aggregations_params(*q) =~= aggregations_params(*q));
    b.finish()
}

/// The statement of the recent-records query.
pub open spec fn recent_records_sql(q: CostLedgerQuery) -> Seq<char> {
    "SELECT id, recorded_at, agent_id, task_type, provider_id, model, cost_posture, prompt_tokens, completion_tokens, total_tokens, estimated_cost_usd, duration_ms FROM cost_records WHERE 1=1"@
        + clause_if(q.agent_id is Some, " AND agent_id = ?"@) + clause_if(q.task_type is Some, " AND task_type = ?"@)
        + clause_if(q.from_date is Some, " AND recorded_at >= ?"@) + clause_if(q.to_date is Some, " AND recorded_at <= ?"@)
        + " ORDER BY recorded_at DESC"@ + " LIMIT "@ + decimal(
        match q.limit {
            Some(l) => l as nat,
            None => 50,
        },
    )
}

/// The parameters of the recent-records query.
pub open spec fn recent_records_params(q: CostLedgerQuery) -> Seq<ParamView> {
    text_param(opt_text(q.agent_id)) + text_param(opt_text(q.task_type)) + text_param(opt_text(q.from_date))
        + text_param(opt_text(q.to_date))
}

/// Builds the recent-records query: filters on agent, task type and date
/// range, newest first, at most `limit` records (50 by default).
pub fn recent_records_query(q: &CostLedgerQuery) -> (plan: QueryPlan)
    ensures
        plan.sql@ == recent_records_sql(*q),
        params_view(plan.params@) == recent_records_params(*q),
{
    let mut b = QueryBuilder::new(
        "SELECT id, recorded_at, agent_id, task_type, provider_id, model, cost_posture, prompt_tokens, completion_tokens, total_tokens, estimated_cost_usd, duration_ms FROM cost_records WHERE 1=1",
    );
    b.text_filter(" AND agent_id = ?", &q.agent_id);
    b.text_filter(" AND task_type = ?", &q.task_type);
    b.text_filter(" AND recorded_at >= ?", &q.from_date);
    b.text_filter(" AND recorded_at <= ?", &q.to_date);
    b.push_sql(" ORDER BY recorded_at DESC");
    let limit: u32 = match q.limit {
        Some(l) => l,
        None => 50,
    };
    let mut t: Vec<char> = Vec::new();
    push_str(&mut t, " LIMIT ");
    push_decimal(&mut t, limit as u64);
    let s = string_from_chars(&t);
    b.push_sql(s.as_str());
    assert(params_view(Seq::empty()) + recent_records_params(*q) =~= recent_records_params(*q));
    b.finish()
}

/// The day a record is counted in: the first ten bytes of its timestamp,
/// or the whole timestamp when it is shorter.
pub open spec fn day_of(recorded_at: Seq<char>) -> Seq<char> {
    if utf8_len(recorded_at) >= 10 {
        byte_prefix(recorded_at, 10).unwrap()
    } else {
        recorded_at
    }
}

/// The day a record is counted in.
pub fn day_period(recorded_at: &str) -> (d: String)
    requires
        utf8_len(recorded_at@) >= 10 ==> byte_prefix(recorded_at@, 10) is Some,
    ensures
        d@ == day_of(recorded_at@),
{
    let v = chars_of(recorded_at);
    let (p, long) = prefix_of_bytes(&v, 10);
    if long {
        match p {
            Some(x) => string_from_chars(&x),
            None => string_from_chars(&v),
        }
    } else {
        string_from_chars(&v)
    }
}

/// The ISO year and week (`Datelike::iso_week`) of the date that
/// `chrono::NaiveDate::parse_from_str` reads from a text with the format
/// `%Y-%m-%d`, or `None` when chrono rejects the text.
pub uninterp spec fn chrono_iso_year_week(s: Seq<char>) -> Option<(i32, u32)>;

/// Parses a `%Y-%m-%d` date with chrono and takes its ISO year and week.
/// The calendar arithmetic is chrono's: the result is named, not stated.
#[verifier::external_body]
fn iso_year_week(s: &str) -> (r: Option<(i32, u32)>)
    ensures
        r == chrono_iso_year_week(s@),
{
    match chrono::NaiveDate::parse_from_str(s, "%Y-%m-%d") {
        Ok(d) => Some((d.iso_week().year(), d.iso_week().week())),
        Err(_) => None,
    }
}

/// The decimal text of a signed number.
pub open spec fn signed_decimal(n: int) -> Seq<char> {
    if n < 0 {
        "-"@ + decimal((-n) as nat)
    } else {
        decimal(n as nat)
    }
}

/// A number written with at least two digits.
pub open spec fn two_digits(n: nat) -> Seq<char> {
    if n < 10 {
        "0"@ + decimal(n)
    } else {
        decimal(n)
    }
}

/// The week a record is counted in: `<ISO year>-W<two-digit week>` of the
/// date in the first ten bytes of its timestamp, or those ten bytes when
/// chrono does not read a date there.
pub open spec fn week_of(date_str: Seq<char>) -> Seq<char> {
    let head = byte_prefix(date_str, 10).unwrap();
    match chrono_iso_year_week(head) {
        Some((y, w)) => signed_decimal(y as int) + "-W"@ + two_digits(w as nat),
        None => head,
    }
}

/// The week a record is counted in.
pub fn iso_week_string(date_str: &str) -> (w: String)
    requires
        byte_prefix(date_str@, 10) is Some,
    ensures
        w@ == week_of(date_str@),
{
    let v = chars_of(date_str);
    let (p, _) = prefix_of_bytes(&v, 10);
    let head = match p {
        Some(x) => x,
        None => v,
    };
    let hs = string_from_chars(&head);
    match iso_year_week(hs.as_str()) {
        Some((y, wk)) => {
            let mut out: Vec<char> = Vec::new();
            if y < 0 {
                push_str(&mut out, "-");
                let m: u64 = if y == i32::MIN {
                    2147483648u64
                } else {
                    (-y) as u64
                };
                push_decimal(&mut out, m);
            } else {
                push_decimal(&mut out, y as u64);
            }
            push_str(&mut out, "-W");
            if wk < 10 {
                push_str(&mut out, "0");
            }
            push_decimal(&mut out, wk as u64);
            string_from_chars(&out)
        },
        None => hs,
    }
}

} // verus!
