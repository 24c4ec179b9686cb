use ncp_core::cli::{command_to_run, or_when_empty, scan_settings, sniff_interface, Cli, Commands};
use ncp_core::utils::AppConfig;

fn cfg() -> AppConfig {
    AppConfig {
        default_interface: Some("en0".to_string()),
        default_scan_range: "1-100".to_string(),
        default_timeout: "1s".to_string(),
    }
}

#[test]
fn no_command_opens_dashboard() {
    assert!(matches!(command_to_run(Cli { command: None }), Commands::Dash));
    let c = command_to_run(Cli { command: Some(Commands::TextListen { port: 9, keep_alive: true }) });
    assert!(matches!(c, Commands::TextListen { port: 9, keep_alive: true }));
}

#[test]
fn scan_defaults_fill_empty_arguments() {
    assert_eq!(scan_settings(String::new(), String::new(), cfg()), ("1-100".to_string(), "1s".to_string()));
    assert_eq!(scan_settings("22".to_string(), "5ms".to_string(), cfg()), ("22".to_string(), "5ms".to_string()));
    assert_eq!(or_when_empty("a".to_string(), "b".to_string()), "a");
}

#[test]
fn sniff_interface_default() {
    assert_eq!(sniff_interface(None, cfg()), Some("en0".to_string()));
    assert_eq!(sniff_interface(Some("eth1".to_string()), cfg()), Some("eth1".to_string()));
    assert_eq!(sniff_interface(None, AppConfig::default()), None);
}
