use nexus_core::config::CliErrorView;
use nexus_core::text::{parse_unsigned, u64_to_decimal};
use nexus_core::{detect_device_type, format_uptime, should_show_line, CliError, Config, P2PConfig};
use std::time::Duration;

#[test]
fn test_p2p_config_default() {
    let config = P2PConfig::default();
    assert!(config.enable_mdns);
    assert!(config.enable_relay);
    assert_eq!(Duration::from_secs(config.heartbeat_interval_secs), Duration::from_secs(10));
}

#[test]
fn config_get_and_set_values() {
    let mut c = Config::default();
    assert_eq!(c.get_value("sync.enabled").ok(), Some("true".to_string()));
    assert_eq!(c.get_value("sync.max_message_size").ok(), Some("65536".to_string()));
    assert!(c.set_value("sync.heartbeat_interval_secs", "+42").is_ok());
    assert_eq!(c.sync.heartbeat_interval_secs, 42);
    assert!(c.set_value("network.listen_port", "4001").is_ok());
    assert_eq!(c.get_value("network.listen_port").ok(), Some("4001".to_string()));
    assert!(c.set_value("logging.level", "debug").is_ok());
    assert_eq!(c.get_value("logging.level").ok(), Some("debug".to_string()));
    assert!(c.set_value("database.auto_migrate", "false").is_ok());
    assert_eq!(c.get_value("database.auto_migrate").ok(), Some("false".to_string()));
}

#[test]
fn config_errors() {
    let mut c = Config::default();
    match c.set_value("network.listen_port", "70000") {
        Err(CliError::ValidationError(m)) => assert_eq!(m, "Invalid port number"),
        _ => panic!("expected a validation error"),
    }
    assert_eq!(c.network.listen_port, 0);
    match c.set_value("sync.enabled", "yes") {
        Err(CliError::ValidationError(m)) => assert_eq!(m, "Invalid boolean value"),
        _ => panic!("expected a validation error"),
    }
    match c.get_value("nodots") {
        Err(e) => assert_eq!(e.message(), "Validation error: Key must be in format: section.key"),
        _ => panic!("expected an error"),
    }
    match c.get_value("a.b.c") {
        Err(CliError::ValidationError(_)) => {}
        _ => panic!("expected a validation error"),
    }
    match c.get_value("sync.nothing") {
        Err(CliError::NotFound(m)) => assert_eq!(m, "Unknown key: sync.nothing"),
        _ => panic!("expected not found"),
    }
    match c.get_value("weird.key") {
        Err(CliError::NotFound(m)) => assert_eq!(m, "Unknown section: weird"),
        _ => panic!("expected not found"),
    }
    match c.get_value("user.name") {
        Err(CliError::NotFound(m)) => assert_eq!(m, "User not configured"),
        _ => panic!("expected not found"),
    }
    match c.set_value("user.name", "bob") {
        Err(CliError::NotFound(m)) => assert_eq!(m, "Unknown section: user"),
        _ => panic!("expected not found"),
    }
    let _ = CliErrorView::Other;
}

#[test]
fn config_paths_expand_home() {
    assert_eq!(Config::expand_path_with("~/x/y.db", Some("/home/u".to_string())), "/home/u/x/y.db");
    assert_eq!(Config::expand_path_with("~/x", Some("/root/".to_string())), "/root/x");
    assert_eq!(Config::expand_path_with("/abs/p", Some("/home/u".to_string())), "/abs/p");
    assert_eq!(Config::expand_path_with("~/x", None), "~/x");
    assert_eq!(Config::nexus_dir_with(None), "./.nexus");
    assert!(Config::pid_file().ends_with("nexus.pid"));
    let c = Config::default();
    assert!(c.db_path().ends_with("nexus.db"));
    assert!(c.log_path().ends_with("nexus.log"));
}

#[test]
fn uptime_formats() {
    assert_eq!(format_uptime(0), "0s");
    assert_eq!(format_uptime(59), "59s");
    assert_eq!(format_uptime(61), "1m 1s");
    assert_eq!(format_uptime(3600), "1h 0m");
    assert_eq!(format_uptime(7384), "2h 3m");
}

#[test]
fn log_level_filter() {
    assert!(should_show_line("2024 INFO started", Some("info")));
    assert!(!should_show_line("2024 DEBUG noise", Some("info")));
    assert!(should_show_line("anything", None));
}

#[test]
fn device_type_by_platform() {
    assert_eq!(detect_device_type("android"), "phone");
    assert_eq!(detect_device_type("linux"), "desktop");
    assert_eq!(detect_device_type("plan9"), "unknown");
}

#[test]
fn decimal_round_trip() {
    assert_eq!(u64_to_decimal(u64::MAX), "18446744073709551615");
    assert_eq!(parse_unsigned("18446744073709551615", u64::MAX), Some(u64::MAX));
    assert_eq!(parse_unsigned("18446744073709551616", u64::MAX), None);
    assert_eq!(parse_unsigned("", u64::MAX), None);
    assert_eq!(parse_unsigned("+", u64::MAX), None);
    assert_eq!(parse_unsigned("12a", u64::MAX), None);
}
