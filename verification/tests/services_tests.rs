use resonantos_core::agent_evaluator_service::{
    candidates_query, check_job_capacity, estimate_storage_bytes, extract_major_version, job_timestamp_for_status,
    rejection_stands, JobTimestamp,
};
use resonantos_core::archive_service::archive_tol_bundles::{
    assemble_tol_candidate, sort_candidates_newest_first, tol_bundle_manifest, TolAnalysisNote, TolRawAudioMeta,
    analysis_file, bundle_file_format, bundle_session_id, check_bundle_inputs, count_markdown_tasks,
    normalized_tol_session_to_recorder_stem, raw_audio_candidates, session_id_of_file, tol_analysis_sections,
    tol_candidate_status, tol_mapping_root, transcript_file, transcript_root,
};
use resonantos_core::archive_service::{ArchiveMapping, ArchiveRuntime, ArchiveTolBundleCandidate};
use resonantos_core::cost_ledger_service::{
    aggregations_query, day_period, iso_week_string, recent_records_query, CostLedgerQuery,
};
use resonantos_core::experience_buffer_service::{
    agent_like_pattern, experience_query, partial_record_id, ExperienceQuery,
};
use resonantos_core::sql::SqlParam;

fn text(s: &str) -> SqlParam {
    SqlParam::Text(s.to_string())
}

// ---- agent evaluator ----

#[test]
fn major_version_reads_leading_number() {
    assert_eq!(extract_major_version("v2.1.0"), 2);
    assert_eq!(extract_major_version("10.0"), 10);
    assert_eq!(extract_major_version("vv3"), 3);
    assert_eq!(extract_major_version("beta"), 0);
    assert_eq!(extract_major_version("99999999999.1"), 0);
}

#[test]
fn test_rejected_candidate_suppression() {
    assert!(rejection_stands(Some("1.2.0"), Some("1.9.0")));
    assert!(!rejection_stands(Some("1.2.0"), Some("2.0.0")));
    assert!(rejection_stands(Some("1.0"), None));
    assert!(!rejection_stands(None, Some("1.0")));
}

#[test]
fn test_concurrent_job_limit_enforcement() {
    assert!(check_job_capacity(0, None).is_ok());
    assert!(check_job_capacity(1, None).is_ok());
    assert_eq!(
        check_job_capacity(2, None),
        Err("Max concurrent evaluation jobs reached (2/2). Cannot submit new job.".to_string())
    );
    assert!(check_job_capacity(2, Some(3)).is_ok());
}

#[test]
fn job_status_timestamps() {
    assert_eq!(job_timestamp_for_status("running"), JobTimestamp::Started);
    assert_eq!(job_timestamp_for_status("completed"), JobTimestamp::Completed);
    assert_eq!(job_timestamp_for_status("failed"), JobTimestamp::Completed);
    assert_eq!(job_timestamp_for_status("timed-out"), JobTimestamp::Completed);
    assert_eq!(job_timestamp_for_status("queued"), JobTimestamp::StatusOnly);
}

#[test]
fn storage_estimate_formula() {
    assert_eq!(estimate_storage_bytes(1, 1, 1), 2048 + 5120 + 1024);
    assert_eq!(estimate_storage_bytes(3, 0, 2), 3 * 2048 + 2 * 1024);
}

#[test]
fn candidates_query_applies_filters() {
    let q = candidates_query(Some("approved"), Some("coding"), Some(5));
    assert_eq!(
        q.sql,
        "SELECT * FROM candidates WHERE 1=1 AND status = ? AND category = ? ORDER BY discovery_score DESC LIMIT ?"
    );
    assert_eq!(q.params, vec![text("approved"), text("coding"), SqlParam::Integer(5)]);
    let all = candidates_query(None, None, None);
    assert_eq!(all.sql, "SELECT * FROM candidates WHERE 1=1 ORDER BY discovery_score DESC");
    assert!(all.params.is_empty());
}

// ---- experience buffer ----

#[test]
fn experience_query_with_every_filter() {
    let q = ExperienceQuery {
        from_date: Some("2024-01-01".to_string()),
        to_date: Some("2024-02-01".to_string()),
        task_type: Some("code".to_string()),
        advisory_accepted: Some(true),
        limit: Some(10),
    };
    let plan = experience_query(&q);
    assert_eq!(
        plan.sql,
        "SELECT * FROM experience_records WHERE 1=1 AND timestamp >= ? AND timestamp <= ? AND task_type = ? AND advisory_accepted = ? ORDER BY timestamp DESC LIMIT ?"
    );
    assert_eq!(
        plan.params,
        vec![text("2024-01-01"), text("2024-02-01"), text("code"), SqlParam::Integer(1), SqlParam::Integer(10)]
    );
}

#[test]
fn experience_query_without_filters() {
    let q = ExperienceQuery { from_date: None, to_date: None, task_type: None, advisory_accepted: Some(false), limit: None };
    let plan = experience_query(&q);
    assert_eq!(plan.sql, "SELECT * FROM experience_records WHERE 1=1 AND advisory_accepted = ? ORDER BY timestamp DESC");
    assert_eq!(plan.params, vec![SqlParam::Integer(0)]);
}

#[test]
fn partial_record_id_and_agent_pattern() {
    assert_eq!(partial_record_id("pkt-42"), "partial-pkt-42");
    assert_eq!(agent_like_pattern("agent-7"), "%agent-7%");
}

// ---- cost ledger ----

#[test]
fn cost_ledger_query_filters_by_agent() {
    let q = CostLedgerQuery {
        period_type: None,
        agent_id: Some("agent-a".to_string()),
        task_type: None,
        from_date: None,
        to_date: None,
        limit: None,
    };
    let plan = recent_records_query(&q);
    assert!(plan.sql.ends_with(" AND agent_id = ? ORDER BY recorded_at DESC LIMIT 50"));
    assert_eq!(plan.params, vec![text("agent-a")]);
}

#[test]
fn cost_ledger_aggregation_query_writes_limit_into_statement() {
    let q = CostLedgerQuery {
        period_type: Some("daily".to_string()),
        agent_id: None,
        task_type: Some("chat".to_string()),
        from_date: Some("2024-01-01".to_string()),
        to_date: None,
        limit: Some(7),
    };
    let plan = aggregations_query(&q);
    assert!(plan.sql.starts_with("SELECT period, period_type, agent_id, task_type"));
    assert!(plan
        .sql
        .ends_with("FROM cost_aggregations WHERE 1=1 AND period_type = ? AND task_type = ? AND period >= ? ORDER BY period DESC LIMIT 7"));
    assert_eq!(plan.params, vec![text("daily"), text("chat"), text("2024-01-01")]);
}

#[test]
fn cost_ledger_periods() {
    assert_eq!(day_period("2024-03-15T10:20:30Z"), "2024-03-15");
    assert_eq!(day_period("2024-03"), "2024-03");
    assert_eq!(iso_week_string("2024-03-15T10:20:30Z"), "2024-W11");
    assert_eq!(iso_week_string("2021-01-03"), "2020-W53");
    assert_eq!(iso_week_string("not-a-date-at-all"), "not-a-date");
}

// ---- archive ----

fn runtime() -> ArchiveRuntime {
    ArchiveRuntime {
        vault_root: "/vault".to_string(),
        mappings: vec![ArchiveMapping {
            role: "derived_sources".to_string(),
            subtype: Some("transcript".to_string()),
            path: "TOL/Transcripts".to_string(),
        }],
    }
}

#[test]
fn archive_roots_follow_mappings() {
    let rt = runtime();
    assert_eq!(tol_mapping_root(&rt, "derived_sources", "transcript"), Some("/vault/TOL/Transcripts".to_string()));
    assert_eq!(tol_mapping_root(&rt, "wiki_pages", "analysis"), None);
    assert_eq!(transcript_root(&rt), "/vault/TOL/Transcripts");
    assert_eq!(transcript_file("/t", "2024-03-15_1030"), "/t/2024-03-15_1030_TOL_Transcript.md");
    assert_eq!(analysis_file("/a", "s"), "/a/s_TOL_Analysis.md");
}

#[test]
fn archive_session_ids_and_recorder_stems() {
    assert_eq!(session_id_of_file("2024-03-15_1030_TOL_Transcript.md", "_TOL_Transcript"), Some("2024-03-15_1030".to_string()));
    assert_eq!(session_id_of_file("notes.txt", "_TOL_Transcript"), None);
    assert_eq!(normalized_tol_session_to_recorder_stem("2024-03-15_1030"), Some("240315_1030".to_string()));
    assert_eq!(normalized_tol_session_to_recorder_stem("2024-03-15"), None);
    let c = raw_audio_candidates("/raw", "2024-03-15_1030");
    assert_eq!(c.len(), 5);
    assert_eq!(c[0], "/raw/240315_1030.mp3");
    assert_eq!(c[4], "/raw/240315_1030.flac");
}

#[test]
fn archive_analysis_sections_and_tasks() {
    let body = "intro\n## 1. The Mirror\nseen\n## 3. Strategic Next Actions\n- [ ] one\n  * [ ] two\n- [x] done\n";
    let sections = tol_analysis_sections(body);
    assert_eq!(sections.len(), 2);
    assert_eq!(sections[0].0, "mirror");
    assert_eq!(sections[0].1, "## 1. The Mirror\nseen");
    assert_eq!(sections[1].0, "strategicNextActions");
    assert_eq!(count_markdown_tasks(Some(sections[1].1.as_str())), 2);
    assert_eq!(count_markdown_tasks(None), 0);
}

#[test]
fn archive_candidate_status() {
    assert_eq!(tol_candidate_status(false, false), None);
    assert_eq!(tol_candidate_status(true, false), Some("missing-analysis".to_string()));
    assert_eq!(tol_candidate_status(false, true), Some("missing-transcript".to_string()));
    assert_eq!(tol_candidate_status(true, true), Some("bundle-ready".to_string()));
}

#[test]
fn archive_bundle_checks() {
    assert_eq!(bundle_session_id("   "), Err("TOL bundle session id is required.".to_string()));
    assert_eq!(bundle_session_id(" s1 "), Ok("s1".to_string()));
    assert_eq!(check_bundle_inputs("s1", None), Err("No TOL session was found for `s1`.".to_string()));
    let mut cand = ArchiveTolBundleCandidate {
        session_id: "s1".to_string(),
        raw_audio_path: None,
        transcript_path: Some("/t/s1.md".to_string()),
        analysis_path: None,
        date: None,
        time: None,
        summary: None,
        status: "missing-analysis".to_string(),
        strategic_actions_count: 0,
        explicit_directives_count: 0,
    };
    assert_eq!(check_bundle_inputs("s1", Some(&cand)), Err("TOL session `s1` is missing its analysis note.".to_string()));
    cand.analysis_path = Some("/a/s1.md".to_string());
    assert_eq!(
        check_bundle_inputs(" s1", Some(&cand)),
        Ok(("s1".to_string(), "/t/s1.md".to_string(), "/a/s1.md".to_string()))
    );
    assert_eq!(bundle_file_format("/t/s1.txt"), "txt");
    assert_eq!(bundle_file_format("/t/noext"), "md");
}

const NOTE_BODY: &str = "## 1. The Mirror\nyou\n## 3. Strategic Next Actions\n- [ ] one\n* [ ] two\n- [x] done\n## 4. Explicit Directives\n  - [ ] three\n";

#[test]
fn assemble_candidate_reads_the_analysis_note() {
    let note = TolAnalysisNote {
        path: "03_TOL/TOL Analysis/2025-01-02_1030_TOL_Analysis.md".to_string(),
        summary: Some("sum".to_string()),
        date: Some("2025-01-02".to_string()),
        time: None,
        body: NOTE_BODY.to_string(),
    };
    let c = assemble_tol_candidate("2025-01-02_1030", None, Some("t.md".to_string()), Some(note)).unwrap();
    assert_eq!(c.status, "bundle-ready");
    assert_eq!(c.strategic_actions_count, 2);
    assert_eq!(c.explicit_directives_count, 1);
    assert_eq!(c.summary, Some("sum".to_string()));
    assert_eq!(c.analysis_path, Some("03_TOL/TOL Analysis/2025-01-02_1030_TOL_Analysis.md".to_string()));
    let c = assemble_tol_candidate("s", Some("a.mp3".to_string()), Some("t.md".to_string()), None).unwrap();
    assert_eq!(c.status, "missing-analysis");
    assert_eq!(c.strategic_actions_count, 0);
    assert_eq!(c.raw_audio_path, Some("a.mp3".to_string()));
    assert!(assemble_tol_candidate("s", Some("a.mp3".to_string()), None, None).is_none());
}

#[test]
fn candidates_sort_newest_first() {
    let mk = |id: &str| assemble_tol_candidate(id, None, Some(format!("{id}.md")), None).unwrap();
    let v = vec![mk("2025-01-02_1030"), mk("2026-03-01_0900"), mk("2025-12-31_2359"), mk("2025-01-02_1030")];
    let r = sort_candidates_newest_first(v);
    let ids: Vec<&str> = r.iter().map(|c| c.session_id.as_str()).collect();
    assert_eq!(ids, vec!["2026-03-01_0900", "2025-12-31_2359", "2025-01-02_1030", "2025-01-02_1030"]);
}

#[test]
fn bundle_manifest_fields() {
    let raw = TolRawAudioMeta {
        path: "raw/250102_1030.mp3".to_string(),
        original_file_name: "250102_1030.mp3".to_string(),
        size_bytes: 42,
        modified_at: None,
    };
    let m = tol_bundle_manifest("2025-01-02_1030", "unix:1".to_string(), Some(raw), "t/x.md", "a/y.txt", NOTE_BODY);
    assert_eq!(m.schema_version, 1);
    assert_eq!(m.bundle_type, "audio2tol.session");
    assert_eq!(m.transcript_format, "md");
    assert_eq!(m.analysis_format, "txt");
    assert_eq!(m.analysis_sections.len(), 3);
    assert_eq!(m.analysis_sections[1].0, "strategicNextActions");
    assert_eq!(m.raw_audio.unwrap().size_bytes, 42);
    assert!(!m.trusted_wiki_write_allowed);
}
