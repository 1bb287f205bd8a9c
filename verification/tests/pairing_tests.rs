use std::time::{SystemTime, UNIX_EPOCH};

use resonantos_core::companion::pairing::{PairingClient, PairingClientError, PhoneCapabilities, QrCodeData};
use resonantos_core::companion::types::{ConnectionType, TrustLevel};

fn make_test_capabilities() -> PhoneCapabilities {
    PhoneCapabilities {
        os: "iOS 17.4".to_string(),
        npu: "Apple Neural Engine Gen 5".to_string(),
        ram_mb: 6144,
        battery_percent: 85,
        connection_type: ConnectionType::WiFi,
    }
}

fn make_test_client() -> PairingClient {
    PairingClient::new(uuid::Uuid::new_v4().as_u128(), make_test_capabilities())
}

fn current_timestamp() -> u64 {
    SystemTime::now().duration_since(UNIX_EPOCH).unwrap().as_secs()
}

fn make_valid_qr(ts: u64) -> String {
    let net_id = uuid::Uuid::new_v4();
    format!("resonant://192.168.1.10:8080?token=abc123&subnet=192.168.1.1&ts={}&net={}", ts, net_id)
}

#[test]
fn test_parse_valid_qr_data() {
    let net_id = uuid::Uuid::new_v4();
    let qr = format!("resonant://192.168.1.10:8080?token=mytoken&subnet=192.168.1.1&ts=1000000&net={}", net_id);
    let parsed = PairingClient::parse_qr_data(&qr).unwrap();
    assert_eq!(parsed.token, "mytoken");
    assert_eq!(parsed.coordinator_addr, "192.168.1.10:8080");
    assert_eq!(parsed.desktop_subnet, "192.168.1.1");
    assert_eq!(parsed.created_at_secs, 1000000);
    assert_eq!(parsed.network_id, net_id.as_u128());
}

#[test]
fn test_parse_qr_missing_prefix() {
    let result = PairingClient::parse_qr_data("http://192.168.1.10?token=abc");
    assert!(matches!(result, Err(PairingClientError::InvalidQrData(_))));
}

#[test]
fn test_parse_qr_missing_token() {
    let qr = "resonant://192.168.1.10:8080?subnet=192.168.1.1&ts=1000&net=00000000-0000-0000-0000-000000000000";
    let result = PairingClient::parse_qr_data(qr);
    assert!(matches!(result, Err(PairingClientError::InvalidQrData(_))));
}

#[test]
fn test_parse_qr_missing_query_params() {
    let result = PairingClient::parse_qr_data("resonant://192.168.1.10:8080");
    assert!(matches!(result, Err(PairingClientError::InvalidQrData(_))));
}

#[test]
fn test_parse_qr_invalid_timestamp() {
    let qr = "resonant://192.168.1.10:8080?token=abc&subnet=192.168.1.1&ts=notanumber&net=00000000-0000-0000-0000-000000000000";
    let result = PairingClient::parse_qr_data(qr);
    assert!(matches!(result, Err(PairingClientError::InvalidQrData(_))));
}

#[test]
fn test_parse_qr_invalid_network_id() {
    let qr = "resonant://192.168.1.10:8080?token=abc&subnet=192.168.1.1&ts=1000&net=not-a-uuid";
    let result = PairingClient::parse_qr_data(qr);
    assert!(matches!(result, Err(PairingClientError::InvalidQrData(_))));
}

#[test]
fn test_token_valid_within_5_minutes() {
    let now = 1000;
    let created = now - 240;
    assert!(PairingClient::validate_token_expiry_at(created, now).is_ok());
}

#[test]
fn test_token_valid_at_exactly_5_minutes() {
    let now = 1000;
    let created = now - 300;
    assert!(PairingClient::validate_token_expiry_at(created, now).is_ok());
}

#[test]
fn test_token_expired_over_5_minutes() {
    let now = 1000;
    let created = now - 301;
    let result = PairingClient::validate_token_expiry_at(created, now);
    assert_eq!(result, Err(PairingClientError::TokenExpired));
}

#[test]
fn test_token_valid_just_created() {
    let now = 1000;
    let created = now;
    assert!(PairingClient::validate_token_expiry_at(created, now).is_ok());
}

#[test]
fn test_token_future_timestamp_is_valid() {
    let now = 1000;
    let created = now + 100;
    assert!(PairingClient::validate_token_expiry_at(created, now).is_ok());
}

#[test]
fn test_subnet_match_same_network() {
    assert!(PairingClient::verify_subnet("192.168.1.100", "192.168.1.1").is_ok());
}

#[test]
fn test_subnet_mismatch_different_network() {
    let result = PairingClient::verify_subnet("192.168.1.100", "10.0.0.1");
    assert!(matches!(result, Err(PairingClientError::SubnetMismatch { .. })));
}

#[test]
fn test_subnet_mismatch_third_octet_differs() {
    let result = PairingClient::verify_subnet("192.168.2.100", "192.168.1.1");
    assert!(matches!(result, Err(PairingClientError::SubnetMismatch { .. })));
}

#[test]
fn test_subnet_match_different_host() {
    assert!(PairingClient::verify_subnet("10.0.1.55", "10.0.1.200").is_ok());
}

#[test]
fn test_subnet_invalid_phone_ip() {
    let result = PairingClient::verify_subnet("invalid", "192.168.1.1");
    assert!(matches!(result, Err(PairingClientError::InvalidQrData(_))));
}

#[test]
fn test_extract_subnet_prefix_valid() {
    assert_eq!(PairingClient::extract_subnet_prefix("192.168.1.100"), Some("192.168.1".to_string()));
}

#[test]
fn test_extract_subnet_prefix_three_octets() {
    assert_eq!(PairingClient::extract_subnet_prefix("10.0.0"), Some("10.0.0".to_string()));
}

#[test]
fn test_extract_subnet_prefix_too_few_octets() {
    assert_eq!(PairingClient::extract_subnet_prefix("192.168"), None);
}

#[test]
fn test_extract_subnet_prefix_invalid_octet() {
    assert_eq!(PairingClient::extract_subnet_prefix("256.168.1.1"), None);
}

#[test]
fn test_pair_from_qr_success() {
    let client = make_test_client();
    let qr = make_valid_qr(current_timestamp());
    let result = client.pair_from_qr(&qr, "192.168.1.50");
    assert!(result.is_ok());
    let pairing = result.unwrap();
    assert_eq!(pairing.trust_level, TrustLevel::LocalOwned);
    assert_eq!(pairing.coordinator_addr, "192.168.1.10:8080");
}

#[test]
fn test_pair_from_qr_expired_token() {
    let client = make_test_client();
    let qr = make_valid_qr(current_timestamp() - 600);
    let result = client.pair_from_qr(&qr, "192.168.1.50");
    assert!(matches!(result, Err(PairingClientError::TokenExpired)));
}

#[test]
fn test_pair_from_qr_subnet_mismatch() {
    let client = make_test_client();
    let qr = make_valid_qr(current_timestamp());
    let result = client.pair_from_qr(&qr, "10.0.0.50");
    assert!(matches!(result, Err(PairingClientError::SubnetMismatch { .. })));
}

#[test]
fn test_pair_from_qr_invalid_data() {
    let client = make_test_client();
    let result = client.pair_from_qr("garbage data", "192.168.1.50");
    assert!(matches!(result, Err(PairingClientError::InvalidQrData(_))));
}

#[test]
fn test_reconnect_success() {
    let client = make_test_client();
    let result = client.reconnect("192.168.1.10:8080");
    assert!(result.is_ok());
    let pairing = result.unwrap();
    assert_eq!(pairing.coordinator_addr, "192.168.1.10:8080");
    assert_eq!(pairing.trust_level, TrustLevel::LocalOwned);
}

#[test]
fn test_reconnect_empty_address() {
    let client = make_test_client();
    let result = client.reconnect("");
    assert!(matches!(result, Err(PairingClientError::NetworkUnreachable)));
}

#[test]
fn test_handshake_contains_all_fields() {
    let node_id = uuid::Uuid::new_v4().as_u128();
    let capabilities = PhoneCapabilities {
        os: "Android 14".to_string(),
        npu: "Qualcomm Hexagon v73".to_string(),
        ram_mb: 8192,
        battery_percent: 72,
        connection_type: ConnectionType::WiFi,
    };
    let client = PairingClient::new(node_id, capabilities.clone());
    let qr = QrCodeData {
        token: "test-token-123".to_string(),
        coordinator_addr: "192.168.1.10:8080".to_string(),
        desktop_subnet: "192.168.1.1".to_string(),
        created_at_secs: current_timestamp(),
        network_id: uuid::Uuid::new_v4().as_u128(),
    };
    let handshake = client.build_handshake(&qr);
    assert_eq!(handshake.pairing_token, "test-token-123");
    assert_ne!(handshake.phone_node_id, 0);
    assert_eq!(handshake.capabilities.os, "Android 14");
    assert_eq!(handshake.capabilities.npu, "Qualcomm Hexagon v73");
    assert_eq!(handshake.capabilities.ram_mb, 8192);
    assert_eq!(handshake.capabilities.battery_percent, 72);
    assert_eq!(handshake.capabilities.connection_type, ConnectionType::WiFi);
}

#[test]
fn qr_parse_error_messages_and_last_value_wins() {
    let net = "00000000-0000-0000-0000-000000000001";
    let qr = format!("resonant://h:1?token=a&token=b&subnet=10.0.0.1&ts=+7&net={}", net);
    let parsed = PairingClient::parse_qr_data(&qr).unwrap();
    assert_eq!(parsed.token, "b");
    assert_eq!(parsed.created_at_secs, 7);
    assert_eq!(parsed.network_id, 1);
    assert_eq!(
        PairingClient::parse_qr_data("resonant://?token=a").unwrap_err(),
        PairingClientError::InvalidQrData("Empty coordinator address".to_string())
    );
    assert_eq!(
        PairingClient::parse_qr_data("resonant://h?token=a&subnet=s&ts=1").unwrap_err(),
        PairingClientError::InvalidQrData("Missing net parameter".to_string())
    );
    assert_eq!(
        PairingClient::parse_qr_data("resonant://h?token=a&subnet=s&ts=99999999999999999999&net=x").unwrap_err(),
        PairingClientError::InvalidQrData("Invalid timestamp".to_string())
    );
}

#[test]
fn subnet_messages() {
    assert_eq!(
        PairingClient::verify_subnet("192.168.1.100", "10.0.0.1").unwrap_err(),
        PairingClientError::SubnetMismatch { phone: "192.168.1".to_string(), desktop: "10.0.0".to_string() }
    );
    assert_eq!(
        PairingClient::verify_subnet("1.2.3.4", "x").unwrap_err(),
        PairingClientError::InvalidQrData("Invalid desktop subnet: x".to_string())
    );
    assert_eq!(PairingClient::extract_subnet_prefix("001.2.255"), Some("001.2.255".to_string()));
    assert_eq!(PairingClient::extract_subnet_prefix("1.2.70000"), None);
}

#[test]
fn pair_at_fixed_time() {
    let client = PairingClient::new(42, make_test_capabilities());
    let qr = "resonant://192.168.1.10:8080?token=t&subnet=192.168.1.1&ts=1000&net=00000000-0000-0000-0000-000000000002";
    let ok = client.pair_from_qr_at(qr, "192.168.1.9", 1300).unwrap();
    assert_eq!(ok.network_id, 2);
    assert_eq!(ok.assigned_node_id, 42);
    assert!(matches!(client.pair_from_qr_at(qr, "192.168.1.9", 1301), Err(PairingClientError::TokenExpired)));
}

#[test]
fn pairing_error_texts() {
    assert_eq!(PairingClientError::TokenExpired.to_text(), "Pairing token has expired (>5 minutes old)");
    assert_eq!(
        PairingClientError::SubnetMismatch { phone: "a".to_string(), desktop: "b".to_string() }.to_text(),
        "Subnet mismatch: phone=a, desktop=b"
    );
}

#[test]
fn test_pairing_flow_end_to_end() {
    let node_id = uuid::Uuid::new_v4().as_u128();
    let client = PairingClient::new(node_id, make_test_capabilities());
    let ts = current_timestamp();
    let net_id = uuid::Uuid::new_v4();
    let qr = format!("resonant://192.168.1.10:8080?token=test123&subnet=192.168.1.1&ts={}&net={}", ts, net_id);
    let result = client.pair_from_qr(&qr, "192.168.1.50");
    assert!(result.is_ok(), "pairing should succeed");
    let pairing = result.unwrap();
    assert_eq!(pairing.network_id, net_id.as_u128());
    assert_eq!(pairing.trust_level, TrustLevel::LocalOwned);
    assert_eq!(pairing.assigned_node_id, node_id);
}
