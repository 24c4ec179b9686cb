use ncp_core::scanner::{
    empty_host_info, finish_sweep, greeting_banner, is_csv_path, open_port, os_guess_from_ping,
    parse_range, port_description, scan_csv, scan_host_info, server_banner, service_name,
    sort_by_port, sort_strings, sweep_csv, sweep_host_info, sweep_targets, ScanResult,
};

#[test]
fn parse_range_span() {
    assert_eq!(parse_range("1-5"), Ok(vec![1, 2, 3, 4, 5]));
    assert_eq!(parse_range("80-80"), Ok(vec![80]));
    assert_eq!(parse_range("1-1000").unwrap().len(), 1000);
    assert_eq!(parse_range("65534-65535"), Ok(vec![65534, 65535]));
}

#[test]
fn parse_range_list() {
    assert_eq!(parse_range("22,80, 443"), Ok(vec![22, 80, 443]));
    assert_eq!(parse_range("80,80"), Ok(vec![80, 80]));
    assert_eq!(parse_range("22,x"), Err("Invalid port range".to_string()));
    assert_eq!(parse_range("22,"), Err("Invalid port range".to_string()));
}

#[test]
fn parse_range_single() {
    assert_eq!(parse_range("8080"), Ok(vec![8080]));
    assert_eq!(parse_range("+22"), Ok(vec![22]));
}

#[test]
fn parse_range_errors() {
    assert_eq!(parse_range("10-1"), Err("Invalid range: start must be <= end".to_string()));
    assert_eq!(parse_range("1-2-3"), Err("Invalid port range".to_string()));
    assert_eq!(parse_range("70000"), Err("Invalid port range".to_string()));
    assert_eq!(parse_range(""), Err("Invalid port range".to_string()));
    assert_eq!(parse_range(" 1-2"), Err("Invalid port range".to_string()));
    assert_eq!(parse_range("a-b"), Err("Invalid port range".to_string()));
}

#[test]
fn services() {
    assert_eq!(service_name(20), "FTP");
    assert_eq!(service_name(21), "FTP");
    assert_eq!(service_name(22), "SSH");
    assert_eq!(service_name(23), "Telnet");
    assert_eq!(service_name(25), "SMTP");
    assert_eq!(service_name(53), "DNS");
    assert_eq!(service_name(80), "HTTP");
    assert_eq!(service_name(110), "POP3");
    assert_eq!(service_name(143), "IMAP");
    assert_eq!(service_name(443), "HTTPS");
    assert_eq!(service_name(3306), "MySQL");
    assert_eq!(service_name(5432), "PostgreSQL");
    assert_eq!(service_name(6379), "Redis");
    assert_eq!(service_name(8080), "HTTP-ALT");
    assert_eq!(service_name(1), "-");
}

#[test]
fn open_port_result() {
    let r = open_port(22, Some("SSH-2.0".to_string()));
    assert_eq!(r.port, 22);
    assert_eq!(r.service, "SSH");
    assert_eq!(r.status, "open");
    assert_eq!(r.banner, Some("SSH-2.0".to_string()));
}

#[test]
fn os_guesses() {
    assert_eq!(
        os_guess_from_ping("64 bytes from 10.0.0.1: icmp_seq=0 ttl=64 time=1.2 ms"),
        "Linux/Unix-like (ttl=64)"
    );
    assert_eq!(os_guess_from_ping("Reply from 10.0.0.2: bytes=32 time<1ms TTL=128"), "Windows-like (ttl=128)");
    assert_eq!(os_guess_from_ping("ttl=255"), "Network device/macOS-like (ttl=255)");
    assert_eq!(os_guess_from_ping("ttl=65 x"), "Windows-like (ttl=65)");
    assert_eq!(os_guess_from_ping("ttl=300"), "Unknown");
    assert_eq!(os_guess_from_ping("ttl="), "Unknown");
    assert_eq!(os_guess_from_ping("no reply"), "Unknown");
    assert_eq!(os_guess_from_ping(""), "Unknown");
}

#[test]
fn port_descriptions() {
    assert_eq!(port_description("1-3", &vec![1, 2, 3]), "1-3");
    assert_eq!(port_description("22,80", &vec![22, 80]), "[22,80]");
    assert_eq!(port_description("5", &vec![5]), "5-5");
    assert_eq!(port_description("x", &vec![]), "1-1000");
}

#[test]
fn banners() {
    assert_eq!(greeting_banner("SSH-2.0-OpenSSH\r\n"), "SSH-2.0-OpenSSH");
    assert_eq!(greeting_banner(" 220 ready\r\nmore\n"), "220 ready  more");
    assert_eq!(greeting_banner("\r\n"), "");
    assert_eq!(
        server_banner("HTTP/1.0 200 OK\r\nDate: x\r\nServer: nginx\r\n\r\n"),
        Some("Server: nginx".to_string())
    );
    assert_eq!(server_banner("HTTP/1.0 200 OK\nSERVER: Apache\n"), Some("SERVER: Apache".to_string()));
    assert_eq!(server_banner("HTTP/1.0 200 OK\r\n\r\n"), None);
    assert_eq!(server_banner(" Server: no"), None);
}

fn result(port: u16, banner: Option<&str>) -> ScanResult {
    open_port(port, banner.map(|b| b.to_string()))
}

#[test]
fn results_sorted_by_port() {
    let v = vec![result(443, Some("a")), result(22, None), result(80, Some("b")), result(22, Some("c"))];
    let s = sort_by_port(v);
    let ports: Vec<u16> = s.iter().map(|r| r.port).collect();
    assert_eq!(ports, vec![22, 22, 80, 443]);
    assert_eq!(s[0].banner, None);
    assert_eq!(s[1].banner, Some("c".to_string()));
}

#[test]
fn host_infos() {
    let h = sweep_host_info("10.0.0.1".to_string());
    assert_eq!(h.host, "10.0.0.1");
    assert!(h.open_ports.is_empty());
    assert_eq!(h.os_guess, "N/A (subnet sweep)");
    let h = scan_host_info("h".to_string(), vec![result(80, None), result(22, None)], "Unknown".to_string());
    assert_eq!(h.open_ports[0].port, 22);
    assert_eq!(h.open_ports[1].port, 80);
    let e = empty_host_info();
    assert_eq!(e.host, "");
    assert_eq!(e.os_guess, "");
}

#[test]
fn sweep_target_hosts() {
    let v = sweep_targets("192.168.1.0/30").unwrap();
    assert_eq!(v, vec![0xC0A8_0101, 0xC0A8_0102]);
    let v = sweep_targets("10.0.0.5/32").unwrap();
    assert_eq!(v, vec![0x0A00_0005]);
    let v = sweep_targets("10.0.0.4/31").unwrap();
    assert_eq!(v, vec![0x0A00_0004, 0x0A00_0005]);
    assert_eq!(sweep_targets("10.0.0.0/24").unwrap().len(), 254);
    assert!(sweep_targets("not a net").is_none());
    assert!(sweep_targets("10.0.0.0/33").is_none());
}

#[test]
fn sweep_sorting_is_text_order() {
    let v = sort_strings(vec!["10.0.0.10".to_string(), "10.0.0.2".to_string(), "10.0.0.1".to_string()]);
    assert_eq!(v, vec!["10.0.0.1", "10.0.0.10", "10.0.0.2"]);
    let s = finish_sweep("10.0.0.0/24", vec!["b".to_string(), "a".to_string()], 42);
    assert_eq!(s.subnet, "10.0.0.0/24");
    assert_eq!(s.live_hosts, vec!["a", "b"]);
    assert_eq!(s.duration_ms, 42);
}

#[test]
fn csv_reports() {
    assert!(is_csv_path("out.csv"));
    assert!(is_csv_path("OUT.CSV"));
    assert!(!is_csv_path("out.json"));
    assert!(!is_csv_path("csv"));
    let rows = vec![result(22, Some("say \"hi\"")), result(80, None)];
    assert_eq!(
        scan_csv("h", "Unknown", &rows),
        "host,os_guess,port,service,status,banner\nh,Unknown,22,SSH,open,\"say \"\"hi\"\"\"\nh,Unknown,80,HTTP,open,\"\"\n"
    );
    let s = finish_sweep("net", vec!["1.1.1.1".to_string(), "0.0.0.0".to_string()], 1);
    assert_eq!(sweep_csv(&s), "subnet,host\nnet,0.0.0.0\nnet,1.1.1.1\n");
}
