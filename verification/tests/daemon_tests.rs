use resonantos_core::daemon::config::{CliOverrides, ConfigFile, GpuLayerMode, GpuLayerSetting, NodeConfig, TransportMode};
use resonantos_core::daemon::control_api::{ApiRequest, ApiResponse, ControlApi};
use resonantos_core::daemon::health_reporter::HealthReporter;
use resonantos_core::daemon::optimizer_client::{OptimizerClient, OptimizerCommand};
use resonantos_core::daemon::{DaemonError, DaemonStatus, NodeDaemon};

// ---- config ----

#[test]
fn test_default_config() {
    let config = NodeConfig::default();
    assert_eq!(config.network.listen_port, 9741);
    assert_eq!(config.daemon.api_port, 9742);
    assert_eq!(config.models.max_loaded, 2);
    assert!(!config.daemon.low_power);
}

#[test]
fn test_heartbeat_interval_normal() {
    let config = NodeConfig::default();
    assert_eq!(config.heartbeat_interval_secs(), 60);
}

#[test]
fn test_heartbeat_interval_low_power() {
    let mut config = NodeConfig::default();
    config.daemon.low_power = true;
    assert_eq!(config.heartbeat_interval_secs(), 300);
}

#[test]
fn test_effective_max_models_low_power() {
    let mut config = NodeConfig::default();
    config.daemon.low_power = true;
    assert_eq!(config.effective_max_models(), 1);
}

#[test]
fn test_apply_overrides() {
    let mut config = NodeConfig::default();
    let overrides = CliOverrides { port: Some(8888), low_power: true, ..Default::default() };
    config.apply_overrides(&overrides);
    assert_eq!(config.network.listen_port, 8888);
    assert!(config.daemon.low_power);
}

#[test]
fn test_load_missing_file_returns_defaults() {
    // "/nonexistent/node.toml" does not exist, so no settings are read from it
    let config = NodeConfig::load(".", None);
    assert_eq!(config.network.listen_port, 9741);
}

#[test]
fn config_with_home_places_data_under_resonantos() {
    let config = NodeConfig::with_home("/home/ada");
    assert_eq!(config.models.directory, "/home/ada/.resonantos/models");
    assert_eq!(config.daemon.log_file, "/home/ada/.resonantos/logs/node.log");
    assert_eq!(config.daemon.log_level, "info");
}

#[test]
fn config_overrides_keep_unset_fields() {
    let mut config = NodeConfig::default();
    let overrides = CliOverrides {
        peers: vec!["10.0.0.2:9741".to_string()],
        models_dir: Some("/models".to_string()),
        log_level: Some("debug".to_string()),
        ..Default::default()
    };
    config.apply_overrides(&overrides);
    assert_eq!(config.network.listen_port, 9741);
    assert_eq!(config.network.peers, vec!["10.0.0.2:9741".to_string()]);
    assert_eq!(config.models.directory, "/models");
    assert_eq!(config.daemon.log_level, "debug");
    assert!(!config.daemon.low_power);
}

#[test]
fn config_low_power_without_reduced_heartbeat() {
    let mut config = NodeConfig::default();
    config.daemon.low_power = true;
    config.low_power.reduce_heartbeat = false;
    assert_eq!(config.heartbeat_interval_secs(), 60);
    assert_eq!(NodeConfig::default().effective_max_models(), 2);
}

// ---- control API ----

#[test]
fn test_parse_get_status() {
    let req = ControlApi::parse_request("GET", "/status", None);
    assert_eq!(req, Some(ApiRequest::GetStatus));
}

#[test]
fn test_parse_post_load() {
    let req = ControlApi::parse_request("POST", "/load", Some("llama-7b"));
    assert_eq!(req, Some(ApiRequest::LoadModel { model_id: "llama-7b".to_string() }));
}

#[test]
fn test_parse_unknown_path() {
    let req = ControlApi::parse_request("GET", "/unknown", None);
    assert_eq!(req, None);
}

#[test]
fn test_is_localhost() {
    assert!(ControlApi::is_localhost("127.0.0.1:9742"));
    assert!(ControlApi::is_localhost("localhost:9742"));
    assert!(!ControlApi::is_localhost("192.168.1.10:9742"));
    assert!(!ControlApi::is_localhost("0.0.0.0:9742"));
}

#[test]
fn test_format_status() {
    let status = DaemonStatus {
        node_id: 0,
        running: true,
        uptime_secs: 120,
        models_loaded: vec!["llama-7b".to_string()],
        low_power: false,
        listen_port: 9741,
    };
    let json = ControlApi::format_status(&status);
    assert!(json.contains("\"running\":true"));
    assert!(json.contains("\"uptime_secs\":120"));
    assert!(json.contains("llama-7b"));
    assert!(json.contains("00000000-0000-0000-0000-000000000000"));
}

#[test]
fn test_api_response_ok() {
    let resp = ApiResponse::ok("{\"status\":\"ok\"}");
    assert_eq!(resp.status_code, 200);
}

#[test]
fn test_api_response_error() {
    let resp = ApiResponse::error(404, "Not found");
    assert_eq!(resp.status_code, 404);
    assert!(resp.body.contains("Not found"));
}

#[test]
fn test_bind_address() {
    let api = ControlApi::new(9742);
    assert_eq!(api.bind_address(), "127.0.0.1:9742");
}

#[test]
fn control_api_parses_every_route() {
    assert_eq!(ControlApi::parse_request("GET", "/models", None), Some(ApiRequest::GetModels));
    assert_eq!(
        ControlApi::parse_request("POST", "/unload", Some(" qwen ")),
        Some(ApiRequest::UnloadModel { model_id: "qwen".to_string() })
    );
    assert_eq!(ControlApi::parse_request("POST", "/shutdown", None), Some(ApiRequest::Shutdown));
    assert_eq!(ControlApi::parse_request("GET", "/config", None), Some(ApiRequest::GetConfig));
    assert_eq!(
        ControlApi::parse_request("POST", "/config", None),
        Some(ApiRequest::UpdateConfig { json: "{}".to_string() })
    );
    assert_eq!(
        ControlApi::parse_request("POST", "/config", Some("{\"a\":1}")),
        Some(ApiRequest::UpdateConfig { json: "{\"a\":1}".to_string() })
    );
    assert_eq!(ControlApi::parse_request("POST", "/load", None), Some(ApiRequest::LoadModel { model_id: String::new() }));
    assert_eq!(ControlApi::parse_request("PUT", "/config", Some("{}")), None);
    assert_eq!(ControlApi::parse_request("DELETE", "/status", None), None);
}

#[test]
fn control_api_counts_requests() {
    let mut api = ControlApi::new(1);
    api.record_request();
    api.record_request();
    assert_eq!(api.request_count(), 2);
}

// ---- health reporter ----

#[test]
fn test_should_report_initially() {
    let reporter = HealthReporter::new(60);
    assert!(reporter.should_report());
}

#[test]
fn test_mark_reported_resets_timer() {
    let mut reporter = HealthReporter::new(60);
    reporter.mark_reported();
    assert!(!reporter.should_report());
    assert_eq!(reporter.report_count(), 1);
}

#[test]
fn health_reporter_reports_again_after_interval() {
    let mut reporter = HealthReporter::new(60);
    reporter.mark_reported_at(1_000);
    assert!(!reporter.should_report_at(60_999));
    assert!(reporter.should_report_at(61_000));
}

// ---- optimizer client ----

#[test]
fn test_parse_load_command() {
    let cmd = OptimizerClient::parse_command("load: llama-7b");
    assert!(matches!(cmd, OptimizerCommand::LoadModel { model_id, .. } if model_id == "llama-7b"));
}

#[test]
fn test_parse_unload_command() {
    let cmd = OptimizerClient::parse_command("unload: qwen-14b");
    assert!(matches!(cmd, OptimizerCommand::UnloadModel { model_id } if model_id == "qwen-14b"));
}

#[test]
fn test_parse_status_command() {
    let cmd = OptimizerClient::parse_command("status");
    assert_eq!(cmd, OptimizerCommand::GetStatus);
}

#[test]
fn test_parse_shutdown_command() {
    let cmd = OptimizerClient::parse_command("shutdown");
    assert_eq!(cmd, OptimizerCommand::Shutdown);
}

#[test]
fn test_parse_infer_command() {
    let cmd = OptimizerClient::parse_command("infer: llama-7b|Hello world");
    if let OptimizerCommand::RunInference { model_id, prompt, .. } = cmd {
        assert_eq!(model_id, "llama-7b");
        assert_eq!(prompt, "Hello world");
    } else {
        panic!("Expected RunInference");
    }
}

#[test]
fn test_parse_unknown_command() {
    let cmd = OptimizerClient::parse_command("garbage xyz");
    assert!(matches!(cmd, OptimizerCommand::Unknown { .. }));
}

#[test]
fn test_stats_tracking() {
    let mut client = OptimizerClient::new();
    client.record_received();
    client.record_received();
    client.record_failed();
    assert_eq!(client.stats(), (2, 1));
}

// ---- daemon ----

#[test]
fn test_daemon_lifecycle() {
    let config = NodeConfig::default();
    let mut daemon = NodeDaemon::new(config);
    assert!(!daemon.is_running());
    daemon.start().unwrap();
    assert!(daemon.is_running());
    daemon.shutdown().unwrap();
    assert!(!daemon.is_running());
}

#[test]
fn test_model_load_unload() {
    let config = NodeConfig::default();
    let mut daemon = NodeDaemon::new(config);
    daemon.load_model("llama-7b").unwrap();
    assert_eq!(daemon.loaded_models(), &["llama-7b"]);
    daemon.unload_model("llama-7b").unwrap();
    assert!(daemon.loaded_models().is_empty());
}

#[test]
fn test_model_limit_enforced() {
    let mut config = NodeConfig::default();
    config.models.max_loaded = 1;
    let mut daemon = NodeDaemon::new(config);
    daemon.load_model("model-a").unwrap();
    let result = daemon.load_model("model-b");
    assert!(matches!(result, Err(DaemonError::ModelLimitReached { .. })));
}

#[test]
fn test_low_power_model_limit() {
    let mut config = NodeConfig::default();
    config.daemon.low_power = true;
    config.low_power.max_models = 1;
    let mut daemon = NodeDaemon::new(config);
    daemon.load_model("model-a").unwrap();
    let result = daemon.load_model("model-b");
    assert!(matches!(result, Err(DaemonError::ModelLimitReached { .. })));
}

#[test]
fn test_status_report() {
    let config = NodeConfig::default();
    let mut daemon = NodeDaemon::new(config);
    daemon.start().unwrap();
    let status = daemon.status();
    assert!(status.running);
    assert_eq!(status.listen_port, 9741);
    assert!(!status.low_power);
}

#[test]
fn test_shutdown_within_budget() {
    let config = NodeConfig::default();
    let mut daemon = NodeDaemon::new(config);
    daemon.start().unwrap();
    daemon.load_model("test").unwrap();
    let start = std::time::Instant::now();
    daemon.shutdown().unwrap();
    assert!(start.elapsed().as_millis() < 3000);
    assert!(daemon.loaded_models().is_empty());
}

#[test]
fn daemon_uptime_and_error_texts() {
    let mut daemon = NodeDaemon::new(NodeConfig::default());
    daemon.start_at(10_000).unwrap();
    assert_eq!(daemon.uptime_secs_at(12_500), 2);
    assert_eq!(daemon.status_at(70_000).uptime_secs, 60);
    assert_eq!(DaemonError::ModelLimitReached { max: 2 }.to_text(), "Model limit reached: max 2");
    assert_eq!(DaemonError::ShutdownTimeout { elapsed_ms: 5 }.to_text(), "Shutdown timeout: 5ms");
}

#[test]
fn daemon_unload_unknown_model_is_ok() {
    let mut daemon = NodeDaemon::new(NodeConfig::default());
    daemon.load_model("a").unwrap();
    daemon.load_model("b").unwrap();
    assert!(daemon.unload_model("ghost").is_ok());
    assert_eq!(daemon.loaded_models(), &["a", "b"]);
    daemon.unload_model("a").unwrap();
    assert_eq!(daemon.loaded_models(), &["b"]);
}

#[test]
fn test_clock_readings_agree() {
    let ms = resonantos_core::clock::now_millis_u64();
    let signed = resonantos_core::clock::now_unix_millis();
    let s = resonantos_core::clock::now_secs_u64();
    assert!(ms > 0 && signed > 0);
    assert!(s >= ms / 1000);
    assert_eq!(resonantos_core::clock::millis_u64_from(None), 0);
    assert_eq!(resonantos_core::clock::millis_u64_from(Some(1234)), 1234);
    assert_eq!(resonantos_core::clock::millis_i64_from(Some(u128::MAX)), i64::MAX);
}

fn file_with(listen_port: Option<u16>) -> ConfigFile {
    ConfigFile {
        listen_port,
        peers: None,
        transport: None,
        max_memory_mb: None,
        max_vram_mb: None,
        gpu_layers: None,
        models_directory: None,
        max_loaded: None,
        auto_download: None,
        log_file: None,
        log_level: None,
        api_port: None,
        low_power: None,
        low_power_max_models: None,
        battery_pause_threshold: None,
        reduce_heartbeat: None,
    }
}

#[test]
fn config_load_takes_file_settings_over_defaults() {
    let file = file_with(Some(1234));
    let config = NodeConfig::load("/home/ada", Some(&file));
    assert_eq!(config.network.listen_port, 1234);
    assert_eq!(config.daemon.api_port, 9742);
    assert_eq!(config.models.max_loaded, 2);
    assert_eq!(config.models.directory, "/home/ada/.resonantos/models");
    assert_eq!(config.network.transport, TransportMode::Lan);
}

#[test]
fn config_load_reads_named_values() {
    let mut file = file_with(None);
    file.transport = Some("wireguard".to_string());
    file.gpu_layers = Some(GpuLayerSetting::Count(24));
    file.peers = Some(vec!["10.0.0.3:9741".to_string()]);
    file.low_power = Some(true);
    let config = NodeConfig::load("/home/ada", Some(&file));
    assert_eq!(config.network.transport, TransportMode::Wireguard);
    assert_eq!(config.hardware.gpu_layers, GpuLayerMode::Fixed(24));
    assert_eq!(config.network.peers, vec!["10.0.0.3:9741".to_string()]);
    assert!(config.daemon.low_power);
    assert_eq!(config.effective_max_models(), 1);
    file.transport = Some("carrier-pigeon".to_string());
    file.gpu_layers = Some(GpuLayerSetting::Named("none".to_string()));
    let config = NodeConfig::load("/home/ada", Some(&file));
    assert_eq!(config.network.transport, TransportMode::Lan);
    assert_eq!(config.hardware.gpu_layers, GpuLayerMode::Off);
}

#[test]
fn shutdown_verdict_times_out_after_three_seconds() {
    assert!(resonantos_core::daemon::shutdown_verdict(1000, 4000).is_ok());
    match resonantos_core::daemon::shutdown_verdict(1000, 4001) {
        Err(DaemonError::ShutdownTimeout { elapsed_ms }) => assert_eq!(elapsed_ms, 3001),
        _ => panic!("expected a timeout"),
    }
    assert!(resonantos_core::daemon::shutdown_verdict(5000, 1000).is_ok());
}
