use resonantos_core::backtest_service::{
    backtest_result, build_throttle_prefix, check_command, is_unix, plan_backtest, resolve_remote_host,
    ssh_connect_timeout_secs, throttle_prefix_for, timeout_error, unix_timestamp_text, validate_backtest_command,
    windows_priority_class, BacktestExecutionRequest, BacktestPlan, DEFAULT_TIMEOUT_MS, GX10_HOST,
};

#[test]
fn allowlist_accepts_vitest_suite() {
    let result = validate_backtest_command("vitest", &vec![]);
    assert!(result.is_ok());
    let cmd = result.unwrap();
    assert_eq!(cmd, vec!["npx", "vitest", "run"]);
}

#[test]
fn allowlist_accepts_vitest_with_include_patterns() {
    let result = validate_backtest_command("vitest", &vec!["--include".to_string(), "src/core/**".to_string()]);
    assert!(result.is_ok());
    let cmd = result.unwrap();
    assert_eq!(cmd, vec!["npx", "vitest", "run", "--include", "src/core/**"]);
}

#[test]
fn allowlist_rejects_path_traversal_in_vitest() {
    let result = validate_backtest_command("vitest", &vec!["../../etc/passwd".to_string()]);
    assert!(result.is_err());
    assert!(result.unwrap_err().contains("path traversal"));
}

#[test]
fn allowlist_accepts_cargo_test_suite() {
    let result = validate_backtest_command("cargo-test", &vec![]);
    assert!(result.is_ok());
    let cmd = result.unwrap();
    assert_eq!(cmd, vec!["cargo", "test"]);
}

#[test]
fn allowlist_accepts_cargo_test_with_package() {
    let result = validate_backtest_command("cargo-test", &vec!["-p".to_string(), "resonantos_vnext".to_string()]);
    assert!(result.is_ok());
    let cmd = result.unwrap();
    assert_eq!(cmd, vec!["cargo", "test", "-p", "resonantos_vnext"]);
}

#[test]
fn allowlist_rejects_unknown_suite_type() {
    let result = validate_backtest_command("python", &vec![]);
    assert!(result.is_err());
    assert!(result.unwrap_err().contains("not allowlisted"));
}

#[test]
fn allowlist_rejects_disallowed_cargo_flags() {
    let result = validate_backtest_command("cargo-test", &vec!["--release".to_string()]);
    assert!(result.is_err());
    assert!(result.unwrap_err().contains("not allowlisted"));
}

#[test]
fn throttle_prefix_empty_when_no_limit() {
    let prefix = build_throttle_prefix(None);
    assert!(prefix.is_empty());
}

#[test]
fn throttle_prefix_empty_when_100_percent() {
    let prefix = build_throttle_prefix(Some(100));
    assert!(prefix.is_empty());
}

#[test]
fn throttle_prefix_uses_nice_on_unix() {
    let prefix = build_throttle_prefix(Some(50));
    if is_unix() {
        assert!(!prefix.is_empty());
        assert_eq!(prefix[0], "nice");
        assert!(prefix[1].contains("10"));
    } else {
        assert!(prefix.is_empty());
    }
}

#[test]
fn throttle_prefix_high_nice_for_low_cpu() {
    let prefix = build_throttle_prefix(Some(20));
    if is_unix() {
        assert!(prefix[1].contains("15"));
    }
}

#[test]
fn timeout_default_is_5_minutes() {
    assert_eq!(DEFAULT_TIMEOUT_MS, 300_000);
}

#[test]
fn remote_host_resolves_gx10() {
    let result = resolve_remote_host("compute-gx10");
    assert!(result.is_ok());
    assert_eq!(result.unwrap(), GX10_HOST);
}

#[test]
fn remote_host_rejects_unknown_node() {
    let result = resolve_remote_host("compute-unknown");
    assert!(result.is_err());
    assert!(result.unwrap_err().contains("not configured"));
}

#[test]
fn windows_priority_class_maps_correctly() {
    assert_eq!(windows_priority_class(Some(20)), 0x00000040);
    assert_eq!(windows_priority_class(Some(50)), 0x00004000);
    assert_eq!(windows_priority_class(Some(100)), 0x00000020);
    assert_eq!(windows_priority_class(None), 0x00000020);
}

#[test]
fn throttle_prefix_levels_on_unix() {
    assert_eq!(throttle_prefix_for(Some(0), true), vec!["nice", "-n19", "ionice", "-c3"]);
    assert_eq!(throttle_prefix_for(Some(25), true), vec!["nice", "-n15", "ionice", "-c3"]);
    assert_eq!(throttle_prefix_for(Some(10), true), vec!["nice", "-n15", "ionice", "-c3"]);
    assert_eq!(throttle_prefix_for(Some(50), true), vec!["nice", "-n10", "ionice", "-c3"]);
    assert_eq!(throttle_prefix_for(Some(70), true), vec!["nice", "-n5", "ionice", "-c3"]);
    assert_eq!(throttle_prefix_for(Some(99), true), vec!["nice", "-n0", "ionice", "-c3"]);
    assert!(throttle_prefix_for(Some(10), false).is_empty());
}

#[test]
fn cargo_filter_passes_everything_after_double_dash() {
    let args = vec!["--".to_string(), "my_test".to_string(), "--nocapture".to_string()];
    let cmd = validate_backtest_command("cargo-test", &args).unwrap();
    assert_eq!(cmd, vec!["cargo", "test", "--", "my_test", "--nocapture"]);
}

#[test]
fn cargo_package_flag_at_end_is_kept_alone() {
    let cmd = validate_backtest_command("cargo-test", &vec!["--package".to_string()]).unwrap();
    assert_eq!(cmd, vec!["cargo", "test", "--package"]);
}

#[test]
fn vitest_rejection_message_names_argument() {
    let err = validate_backtest_command("vitest", &vec!["ok".to_string(), "a/../b".to_string()]).unwrap_err();
    assert_eq!(err, "Backtest argument `a/../b` is not allowed (path traversal detected).");
}

#[test]
fn unknown_suite_message() {
    let err = validate_backtest_command("python", &vec![]).unwrap_err();
    assert_eq!(err, "Backtest suite type `python` is not allowlisted. Allowed: vitest, cargo-test.");
}

#[test]
fn command_allowlist_check() {
    assert!(check_command(&vec!["nice".to_string(), "-n10".to_string()]).is_ok());
    assert_eq!(check_command(&vec![]).unwrap_err(), "Command cannot be empty.");
    assert_eq!(check_command(&vec!["rm".to_string()]).unwrap_err(), "Program `rm` is not in the backtest allowlist.");
}

#[test]
fn ssh_timeout_is_capped() {
    assert_eq!(ssh_connect_timeout_secs(5_000), 5);
    assert_eq!(ssh_connect_timeout_secs(300_000), 30);
}

fn request(node: &str, suite: &str) -> BacktestExecutionRequest {
    BacktestExecutionRequest {
        job_id: "job-1".to_string(),
        node_id: node.to_string(),
        suite_type: suite.to_string(),
        args: vec![],
        cpu_limit_percent: Some(50),
        timeout_ms: None,
        cwd: None,
    }
}

#[test]
fn local_plan_prefixes_throttle() {
    match plan_backtest(&request("compute-desktop-local", "vitest"), true).unwrap() {
        BacktestPlan::Local { command, timeout_ms, cwd } => {
            assert_eq!(command, vec!["nice", "-n10", "ionice", "-c3", "npx", "vitest", "run"]);
            assert_eq!(timeout_ms, 300_000);
            assert!(cwd.is_none());
        },
        other => panic!("unexpected plan {:?}", other),
    }
}

#[test]
fn remote_plan_joins_command() {
    match plan_backtest(&request("compute-gx10", "cargo-test"), true).unwrap() {
        BacktestPlan::Remote { host, remote_command, timeout_ms } => {
            assert_eq!(host, GX10_HOST);
            assert_eq!(remote_command, "cargo test");
            assert_eq!(timeout_ms, 300_000);
        },
        other => panic!("unexpected plan {:?}", other),
    }
    assert!(plan_backtest(&request("elsewhere", "vitest"), true).unwrap_err().contains("not configured"));
}

#[test]
fn result_summary_and_status() {
    let req = request("compute-desktop-local", "vitest");
    let r = backtest_result(&req, "unix:1000".to_string(), "unix:1005".to_string(), true, Some(0), "ok".to_string(), String::new(), 5000);
    assert_eq!(r.status, "succeeded");
    assert_eq!(r.summary, "Backtest suite `vitest` succeeded in 5000ms.");
    let r = backtest_result(&req, "a".to_string(), "b".to_string(), false, Some(1), String::new(), String::new(), 7);
    assert_eq!(r.status, "failed");
    assert_eq!(r.summary, "Backtest suite `vitest` failed in 7ms.");
}

#[test]
fn timeout_and_timestamp_texts() {
    assert_eq!(timeout_error("npx", 100, 250), "Backtest command `npx` exceeded timeout of 100ms (took 250ms).");
    assert_eq!(unix_timestamp_text(1700000000), "unix:1700000000");
}

#[test]
fn trim_output_keeps_short_output_and_decodes_lossily() {
    assert_eq!(resonantos_core::backtest_service::trim_output(&b"ok\n".to_vec()), "ok\n");
    assert_eq!(resonantos_core::backtest_service::trim_output(&vec![b'a', 0xff, b'b']), "a\u{FFFD}b");
}

#[test]
fn trim_output_cuts_long_output() {
    let bytes = vec![b'x'; 20_000];
    let out = resonantos_core::backtest_service::trim_output(&bytes);
    assert_eq!(out.len(), 16_384 + "\n[truncated]".len());
    assert!(out.ends_with("\n[truncated]"));
    assert_eq!(resonantos_core::backtest_service::try_trim_output(&bytes), Some(out));
}

#[test]
fn try_trim_output_refuses_a_cut_inside_a_character() {
    let mut bytes = vec![b'a'; 16_383];
    bytes.extend_from_slice("é".as_bytes());
    bytes.extend_from_slice(b"tail");
    assert_eq!(resonantos_core::backtest_service::try_trim_output(&bytes), None);
}
