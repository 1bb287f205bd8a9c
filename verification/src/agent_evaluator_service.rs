//! The agent evaluator's records and the decisions around its database:
//! which candidates are queried, whether a rejected candidate may come back,
//! whether an evaluation job may start, and which timestamps a status sets.
use vstd::prelude::*;

use crate::sql::{clause_if, int_param, params_view, text_param, QueryBuilder, QueryPlan};
use crate::text::{
    all_digits, chars_of, decimal, digits_value, find_char, is_digit, lemma_find_char_props, parse_unsigned,
    parse_unsigned_bounded, push_decimal, push_str, split_once, split_once_seq, string_from_chars,
};

verus! {

/// A comparative report of a candidate against the incumbents.
#[derive(Debug, Clone)]
pub struct ComparativeReportRecord {
    pub id: String,
    pub candidate_id: String,
    pub candidate_name: String,
    pub incumbent_agent_ids_json: String,
    pub evaluation_timestamp: String,
    pub replay_task_set_ids_json: String,
    pub sandbox_config_json: String,
    pub per_task_deltas_json: String,
    pub aggregate_scores_json: String,
    pub candidate_verdict: String,
    pub production_prediction_json: Option<String>,
    pub security_assessment_json: String,
}

/// An approval decision on a candidate.
#[derive(Debug, Clone)]
pub struct ApprovalRecord {
    pub id: String,
    pub candidate_id: String,
    pub decision: String,
    pub decided_at: String,
    pub comparative_report_id: String,
    pub notes: Option<String>,
}

/// An evaluation job on the compute mesh.
#[derive(Debug, Clone)]
pub struct EvaluationJobRecord {
    pub id: String,
    pub candidate_id: String,
    pub compute_job_id: String,
    pub status: String,
    pub sandbox_config_json: String,
    pub submitted_at: String,
    pub started_at: Option<String>,
    pub completed_at: Option<String>,
    pub error_message: Option<String>,
    pub benchmark_results_json: Option<String>,
}

/// The trust tier of the evaluator's own advice.
#[derive(Debug, Clone)]
pub struct NA2TrustTierState {
    pub current_tier: String,
    pub promoted_at: Option<String>,
    pub validation_started_at: String,
    pub consecutive_days_accurate: u32,
    pub consecutive_days_inaccurate: u32,
}

/// The circuit breaker of candidate discovery.
#[derive(Debug, Clone)]
pub struct DiscoveryCircuitBreaker {
    pub consecutive_failures: u32,
    pub is_open: bool,
    pub last_failure_at: Option<String>,
    pub cooldown_ends_at: Option<String>,
    pub cooldown_secs: u64,
    pub failure_threshold: u32,
}

/// A source polled for candidates.
#[derive(Debug, Clone)]
pub struct DiscoverySourceRecord {
    pub id: String,
    pub source_type: String,
    pub url: String,
    pub enabled: bool,
    pub polling_frequency_hours: u32,
    pub last_polled_at: Option<String>,
    pub category_filters_json: String,
}

/// Evaluation jobs that may run at once when no limit is given.
pub const DEFAULT_MAX_CONCURRENT_JOBS: u32 = 2;

// ─── Versions ───────────────────────────────────────────────────────────────

/// `s` without its leading `v` characters.
pub open spec fn strip_leading_v(s: Seq<char>) -> Seq<char>
    decreases s.len(),
{
    if s.len() > 0 && s[0] == 'v' {
        strip_leading_v(s.drop_first())
    } else {
        s
    }
}

/// The major version of a version text: the part before the first `.`,
/// without leading `v`s, read as a number that fits in 32 bits; zero when
/// it is not one.
pub open spec fn major_version(version: Seq<char>) -> u32 {
    match parse_unsigned(strip_leading_v(split_once_seq(version, '.')[0])) {
        Some(n) => if n <= u32::MAX {
            n as u32
        } else {
            0
        },
        None => 0,
    }
}

/// Reads the major version of a version text.
pub fn extract_major_version(version: &str) -> (n: u32)
    ensures
        n == major_version(version@),
{
    let parts = split_once(&chars_of(version), '.');
    let first = &parts[0];
    let mut i: usize = 0;
    assert(first@.skip(0) =~= first@);
    while i < first.len() && first[i] == 'v'
        invariant
            i <= first@.len(),
            strip_leading_v(first@) == strip_leading_v(first@.skip(i as int)),
        decreases first.len() - i,
    {
        assert(first@.skip(i as int).drop_first() =~= first@.skip(i + 1));
        i = i + 1;
    }
    let rest = crate::text::sub_vec(first, i, first.len());
    assert(rest@ =~= first@.skip(i as int));
    match parse_unsigned_bounded(&rest, u32::MAX as u64) {
        Some(v) => v as u32,
        None => 0,
    }
}

/// Whether a candidate whose latest rejected version (if any) is
/// `rejected_version` is still rejected when offered at `current_version`:
/// yes unless its major version went up; a rejection without a version on
/// offer stands; without a rejection it is not rejected.
pub open spec fn still_rejected(rejected_version: Option<Seq<char>>, current_version: Option<Seq<char>>) -> bool {
    match (rejected_version, current_version) {
        (Some(old), Some(new)) => major_version(old) >= major_version(new),
        (Some(_), None) => true,
        (None, _) => false,
    }
}

/// Decides whether a previously rejected candidate stays rejected.
pub fn rejection_stands(rejected_version: Option<&str>, current_version: Option<&str>) -> (b: bool)
    ensures
        rejected_version is None ==> !b,
        rejected_version is Some && current_version is None ==> b,
        rejected_version matches Some(o) ==> (current_version matches Some(c) ==> b == (major_version(o@)
            >= major_version(c@))),
        b == still_rejected(
            match rejected_version {
                Some(s) => Some(s@),
                None => None,
            },
            match current_version {
                Some(s) => Some(s@),
                None => None,
            },
        ),
{
    match (rejected_version, current_version) {
        (Some(old), Some(new)) => extract_major_version(old) >= extract_major_version(new),
        (Some(_), None) => true,
        (None, _) => false,
    }
}

/// The major version of a text `<digits>.<rest>` is the number the digits
/// write, when it fits in 32 bits.
pub proof fn law_major_version_of_digits(major: Seq<char>, rest: Seq<char>)
    requires
        major.len() > 0,
        all_digits(major),
        digits_value(major) <= u32::MAX,
    ensures
        major_version(major + seq!['.'] + rest) == digits_value(major),
{
    let v = major + seq!['.'] + rest;
    lemma_find_char_props(v, '.');
    assert(v[major.len() as int] == '.');
    match find_char(v, '.') {
        Some(i) => {
            if i < major.len() {
                assert(v[i] == major[i]);
                assert(is_digit(major[i]));
            }
        },
        None => {},
    }
    assert(v.take(major.len() as int) =~= major);
    assert(is_digit(major[0]));
}

/// Law: a rejected candidate offered as `<m_new>.<...>` after a rejection
/// of `<m_old>.<...>` stays rejected exactly when its major version did not
/// go up: a lower or equal major version is still refused, a higher one is
/// let through.
pub proof fn law_rejection_by_major(m_old: Seq<char>, r_old: Seq<char>, m_new: Seq<char>, r_new: Seq<char>)
    requires
        m_old.len() > 0,
        all_digits(m_old),
        digits_value(m_old) <= u32::MAX,
        m_new.len() > 0,
        all_digits(m_new),
        digits_value(m_new) <= u32::MAX,
    ensures
        still_rejected(Some(m_old + seq!['.'] + r_old), Some(m_new + seq!['.'] + r_new)) <==> digits_value(m_new)
            <= digits_value(m_old),
{
    law_major_version_of_digits(m_old, r_old);
    law_major_version_of_digits(m_new, r_new);
}

/// Law: a rejection that stands against one offered version also stands
/// against any version whose major version is no higher.
pub proof fn law_rejection_stands_lower(old: Seq<char>, a: Seq<char>, b: Seq<char>)
    requires
        still_rejected(Some(old), Some(a)),
        major_version(b) <= major_version(a),
    ensures
        still_rejected(Some(old), Some(b)),
{
}

// ─── Evaluation jobs ────────────────────────────────────────────────────────

/// Checks that a new job fits: fewer than the limit (two by default) are
/// active.
pub fn check_job_capacity(active: u32, max_concurrent: Option<u32>) -> (r: Result<(), String>)
    ensures
        ({
            let limit = match max_concurrent {
                Some(m) => m,
                None => DEFAULT_MAX_CONCURRENT_JOBS,
            };
            &&& active < limit ==> r is Ok
            &&& active >= limit ==> (r matches Err(e) && e@ == "Max concurrent evaluation jobs reached ("@ + decimal(
                active as nat,
            ) + "/"@ + decimal(limit as nat) + "). Cannot submit new job."@)
        }),
{
    let limit = match max_concurrent {
        Some(m) => m,
        None => DEFAULT_MAX_CONCURRENT_JOBS,
    };
    if active >= limit {
        let mut out: Vec<char> = Vec::new();
        push_str(&mut out, "Max concurrent evaluation jobs reached (");
        push_decimal(&mut out, active as u64);
        push_str(&mut out, "/");
        push_decimal(&mut out, limit as u64);
        push_str(&mut out, "). Cannot submit new job.");
        return Err(string_from_chars(&out));
    }
    Ok(())
}

/// Which timestamp a job status change sets.
#[derive(Debug, Clone, Copy, PartialEq, Eq, Structural)]
pub enum JobTimestamp {
    /// `running`: the start time.
    Started,
    /// `completed`, `failed` or `timed-out`: the completion time (and the
    /// results).
    Completed,
    /// Any other status: no timestamp.
    StatusOnly,
}

/// The timestamp a status sets.
pub open spec fn timestamp_for_status(status: Seq<char>) -> JobTimestamp {
    if status == "running"@ {
        JobTimestamp::Started
    } else if status == "completed"@ || status == "failed"@ || status == "timed-out"@ {
        JobTimestamp::Completed
    } else {
        JobTimestamp::StatusOnly
    }
}

/// Decides which timestamp a job status change sets.
pub fn job_timestamp_for_status(status: &str) -> (t: JobTimestamp)
    ensures
        t == timestamp_for_status(status@),
{
    let s = chars_of(status);
    if crate::text::chars_eq_str(&s, "running") {
        JobTimestamp::Started
    } else if crate::text::chars_eq_str(&s, "completed") || crate::text::chars_eq_str(&s, "failed")
        || crate::text::chars_eq_str(&s, "timed-out") {
        JobTimestamp::Completed
    } else {
        JobTimestamp::StatusOnly
    }
}

/// Estimated bytes of storage: about 2 KiB per candidate, 5 KiB per report
/// and 1 KiB per job.
pub fn estimate_storage_bytes(candidates: u64, reports: u64, jobs: u64) -> (b: u64)
    requires
        candidates * 2048 + reports * 5120 + jobs * 1024 <= u64::MAX,
    ensures
        b == candidates * 2048 + reports * 5120 + jobs * 1024,
{
    candidates * 2048 + reports * 5120 + jobs * 1024
}

// ─── Candidate queries ──────────────────────────────────────────────────────

/// The statement of the candidates query.
pub open spec fn candidates_sql(status: bool, category: bool, limit: bool) -> Seq<char> {
    "SELECT * FROM candidates WHERE 1=1"@ + clause_if(status, " AND status = ?"@) + clause_if(
        category,
        " AND category = ?"@,
    ) + " ORDER BY discovery_score DESC"@ + clause_if(limit, " LIMIT ?"@)
}

/// Builds the candidates query: filters on status and category, best
/// discovery score first, at most `limit` rows.
pub fn candidates_query(status: Option<&str>, category: Option<&str>, limit: Option<u32>) -> (q: QueryPlan)
    ensures
        q.sql@ == candidates_sql(status is Some, category is Some, limit is Some),
        params_view(q.params@) == text_param(
            match status {
                Some(s) => Some(s@),
                None => None,
            },
        ) + text_param(
            match category {
                Some(c) => Some(c@),
                None => None,
            },
        ) + int_param(
            match limit {
                Some(l) => Some(l as int),
                None => None,
            },
        ),
{
    let mut b = QueryBuilder::new("SELECT * FROM candidates WHERE 1=1");
    let st: Option<String> = match status {
        Some(s) => Some(crate::text::owned(s)),
        None => None,
    };
    let cat: Option<String> = match category {
        Some(c) => Some(crate::text::owned(c)),
        None => None,
    };
    b.text_filter(" AND status = ?", &st);
    b.text_filter(" AND category = ?", &cat);
    b.push_sql(" ORDER BY discovery_score DESC");
    b.int_filter(
        " LIMIT ?",
        match limit {
            Some(l) => Some(l as i64),
            None => None,
        },
    );
    b.finish()
}

} // verus!
