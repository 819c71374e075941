use rust_gauge::autostart::{
    delete_result, is_enabled, open_key_result, query_result, set_enabled, startup_command,
    startup_request, write_result, AutostartError, StartupRequest,
};
use rust_gauge::config::{sample_interval_ms, with_enabled_metrics, AppConfig, IconConfig};
use rust_gauge::menu::{autostart_outcome, display_save_outcome, display_checks, enabled_metrics_from_checks, DisplayChecks};
use rust_gauge::metrics::MetricKind;

#[test]
fn default_settings() {
    let config = AppConfig::default();
    assert_eq!(config.app_name, "RustGauge");
    assert_eq!(config.update_interval_ms, 1000);
    assert_eq!(config.enabled_metrics, vec![MetricKind::Cpu, MetricKind::Memory]);
    let icon = IconConfig::default();
    assert_eq!(icon.size, 32);
    assert_eq!(icon.low_color, "#48c774");
    assert_eq!(icon.medium_color, "#ffdd57");
    assert_eq!(icon.high_color, "#f14668");
    assert_eq!(icon.track_color, "#2b2f36");
}

#[test]
fn sampling_waits_at_least_250_ms() {
    let mut config = AppConfig::default();
    assert_eq!(sample_interval_ms(&config), 1000);
    config.update_interval_ms = 10;
    assert_eq!(sample_interval_ms(&config), 250);
    config.update_interval_ms = 250;
    assert_eq!(sample_interval_ms(&config), 250);
}

#[test]
fn saving_display_metrics_changes_only_the_metrics() {
    let config = AppConfig::default();
    let updated = with_enabled_metrics(&config, vec![MetricKind::Network]);
    assert_eq!(updated.enabled_metrics, vec![MetricKind::Network]);
    assert_eq!(updated.app_name, config.app_name);
    assert_eq!(updated.icon.track_color, config.icon.track_color);
    assert_eq!(updated.update_interval_ms, config.update_interval_ms);
}

#[test]
fn menu_checks_round_trip() {
    let checks = DisplayChecks { cpu: true, memory: false, gpu: true, npu: false, network: true };
    let metrics = enabled_metrics_from_checks(checks);
    assert_eq!(metrics, vec![MetricKind::Cpu, MetricKind::Gpu, MetricKind::Network]);
    assert_eq!(display_checks(&metrics), checks);
    let messy = vec![MetricKind::Network, MetricKind::Cpu, MetricKind::Network];
    assert_eq!(
        enabled_metrics_from_checks(display_checks(&messy)),
        vec![MetricKind::Cpu, MetricKind::Network]
    );
}

#[test]
fn unsupported_platform_startup() {
    assert_eq!(is_enabled(), Ok(false));
    assert_eq!(set_enabled(true), Err(AutostartError::Unsupported));
    assert_eq!(set_enabled(false), Err(AutostartError::Unsupported));
}

#[test]
fn registry_statuses() {
    assert_eq!(open_key_result(0), Ok(()));
    assert_eq!(open_key_result(5), Err(AutostartError::OpenKey(5)));
    assert_eq!(query_result(0), Ok(true));
    assert_eq!(query_result(2), Ok(false));
    assert_eq!(query_result(5), Err(AutostartError::Query(5)));
    assert_eq!(write_result(0), Ok(()));
    assert_eq!(write_result(87), Err(AutostartError::Write(87)));
    assert_eq!(delete_result(0), Ok(()));
    assert_eq!(delete_result(2), Ok(()));
    assert_eq!(delete_result(5), Err(AutostartError::Delete(5)));
}

#[test]
fn error_messages() {
    assert_eq!(AutostartError::Unsupported.message(), "startup registration is only supported on Windows");
    assert_eq!(AutostartError::OpenKey(5).message(), "failed to open startup registry key: 5");
    assert_eq!(AutostartError::Query(13).message(), "failed to query startup registry value: 13");
    assert_eq!(AutostartError::Write(87).message(), "failed to write startup registry value: 87");
    assert_eq!(AutostartError::Delete(1018).message(), "failed to delete startup registry value: 1018");
}

#[test]
fn startup_command_quotes_the_path() {
    assert_eq!(startup_command("C:\\Apps\\rust-gauge.exe"), "\"C:\\Apps\\rust-gauge.exe\"");
}

#[test]
fn startup_request_bytes() {
    let exe = "C:\\Program Files\\Gauge é\\g.exe";
    match startup_request(true, exe) {
        StartupRequest::Register { value_name, data } => {
            let name: Vec<u16> = "RustGauge".encode_utf16().chain(Some(0)).collect();
            assert_eq!(value_name, name);
            let command = format!("\"{}\"", exe);
            let wide: Vec<u16> = command.encode_utf16().chain(Some(0)).collect();
            let bytes: Vec<u8> = wide.iter().flat_map(|u| u.to_le_bytes()).collect();
            assert_eq!(data, bytes);
        }
        StartupRequest::Unregister { .. } => panic!("expected a registration"),
    }
    match startup_request(false, exe) {
        StartupRequest::Unregister { value_name } => {
            assert_eq!(value_name, "RustGauge".encode_utf16().chain(Some(0)).collect::<Vec<u16>>());
        }
        StartupRequest::Register { .. } => panic!("expected an unregistration"),
    }
}

#[test]
fn autostart_outcomes() {
    let ok = autostart_outcome(true, None);
    assert_eq!(ok.status, "Startup enabled");
    assert!(ok.checked);
    let off = autostart_outcome(false, None);
    assert_eq!(off.status, "Startup disabled");
    assert!(!off.checked);
    let message = AutostartError::Write(5).message();
    let failed = autostart_outcome(true, Some(message.as_str()));
    assert_eq!(failed.status, "Startup update failed: failed to write startup registry value: 5");
    assert!(!failed.checked);
}

#[test]
fn display_save_outcomes() {
    let saved = display_save_outcome(None);
    assert!(saved.adopt);
    assert_eq!(saved.status, "Display settings saved");
    let failed = display_save_outcome(Some("failed to write config: x"));
    assert!(!failed.adopt);
    assert_eq!(failed.status, "Config save failed: failed to write config: x");
}
