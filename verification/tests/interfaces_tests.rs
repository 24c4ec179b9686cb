use ncp_core::ffi::{map_err, NcpError};
use ncp_core::interfaces::{
    capture_error_message, capture_interface, dashboard_interfaces, read_error_event,
    interface_arg, interface_or_default, restart_target, selected_name, sniff_target, NetInterface,
};

fn iface(name: &str, up: bool, loopback: bool, addrs: bool) -> NetInterface {
    NetInterface { name: name.to_string(), up, loopback, has_addresses: addrs, ipv4: vec![] }
}

fn sample() -> Vec<NetInterface> {
    vec![iface("lo", true, true, true), iface("eth0", false, false, true), iface("wlan0", true, false, true), iface("eth1", true, false, true)]
}

#[test]
fn capture_choices() {
    let l = sample();
    assert_eq!(capture_interface(&l, Some("eth0")), Ok(1));
    assert_eq!(capture_interface(&l, None), Ok(2));
    assert_eq!(capture_interface(&l, Some("nope")), Err("Could not find requested interface".to_string()));
    let none = vec![iface("lo", true, true, true)];
    assert_eq!(capture_interface(&none, None), Err("Could not find a suitable default interface".to_string()));
}

#[test]
fn sniff_choices() {
    let l = sample();
    assert_eq!(interface_or_default(&l, None, "eth0"), "wlan0");
    assert_eq!(interface_or_default(&l, Some("x".to_string()), "eth0"), "x");
    assert_eq!(interface_or_default(&vec![], None, "eth0"), "eth0");
    assert_eq!(interface_or_default(&vec![iface("lo", true, true, true)], None, "en0"), "en0");
    assert_eq!(sniff_target(&l, "eth1"), Ok(3));
    assert_eq!(sniff_target(&l, "ppp0"), Err("Interface not found: ppp0".to_string()));
}

#[test]
fn dashboard_list() {
    let names: Vec<String> = dashboard_interfaces(sample()).into_iter().map(|i| i.name).collect();
    assert_eq!(names, vec!["wlan0", "eth1"]);
    let all = vec![iface("lo", true, true, true), iface("dummy", false, false, false)];
    let names: Vec<String> = dashboard_interfaces(all).into_iter().map(|i| i.name).collect();
    assert_eq!(names, vec!["lo", "dummy"]);
    assert!(dashboard_interfaces(vec![]).is_empty());
}

#[test]
fn selection_and_errors() {
    let l = sample();
    assert_eq!(selected_name(&l, Some(2)), "wlan0");
    assert_eq!(selected_name(&l, Some(9)), "n/a");
    assert_eq!(selected_name(&l, None), "n/a");
    assert_eq!(restart_target(&l, Some(1)), Ok(1));
    assert_eq!(restart_target(&vec![], None), Err("No network interface available".to_string()));
    assert_eq!(
        capture_error_message("en0", "permission denied"),
        "Capture error on en0: permission denied. Try: sudo ncp dash"
    );
    assert_eq!(read_error_event("Read Timed Out"), None);
    assert_eq!(read_error_event("TIMEOUT"), None);
    assert_eq!(read_error_event("device gone"), Some("Capture read error: device gone".to_string()));
}

#[test]
fn ffi_errors() {
    let e = map_err("broken pipe".to_string());
    assert_eq!(e.message(), "broken pipe");
    assert!(matches!(e, NcpError::Runtime { .. }));
}

#[test]
fn helper_interface_option() {
    let args = |v: &[&str]| v.iter().map(|s| s.to_string()).collect::<Vec<String>>();
    assert_eq!(interface_arg(&args(&["helper", "--interface", "en1"])), Some("en1".to_string()));
    assert_eq!(interface_arg(&args(&["helper", "--interface"])), Some(String::new()));
    assert_eq!(interface_arg(&args(&["helper"])), None);
    assert_eq!(
        interface_arg(&args(&["--interface", "a", "--interface", "b"])),
        Some("a".to_string())
    );
}
