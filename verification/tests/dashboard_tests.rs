use ncp_core::dashboard::{
    apply_event, build_event, connection_key, parse_packet, prune_connections, prune_hosts,
    tcp_state, truncate, ConnectionEntry, ConnectionRow, DashEvent, DirectionKind, FocusPanel,
    HostTotal, Key, KeyAction, Traffic, UiState, PACKET_ROWS,
};

fn frame(protocol: u8, src: [u8; 4], dst: [u8; 4], payload: &[u8]) -> Vec<u8> {
    let mut f = vec![0u8; 12];
    f.extend_from_slice(&[0x08, 0x00]);
    let total = 20 + payload.len() as u16;
    f.extend_from_slice(&[0x45, 0, (total >> 8) as u8, total as u8, 0, 0, 0, 0, 64, protocol, 0, 0]);
    f.extend_from_slice(&src);
    f.extend_from_slice(&dst);
    f.extend_from_slice(payload);
    f
}

fn tcp(sport: u16, dport: u16, flags: u8) -> Vec<u8> {
    let mut t = vec![0u8; 20];
    t[0] = (sport >> 8) as u8;
    t[1] = sport as u8;
    t[2] = (dport >> 8) as u8;
    t[3] = dport as u8;
    t[13] = flags;
    t
}

fn is_dir(d: DirectionKind, want: &str) -> bool {
    matches!((d, want), (DirectionKind::Upload, "up") | (DirectionKind::Download, "down") | (DirectionKind::Other, "other"))
}

#[test]
fn focus_cycles_through_panels() {
    let mut p = FocusPanel::Interfaces;
    let mut seen = Vec::new();
    for _ in 0..5 {
        p = p.next();
        seen.push(format!("{:?}", p));
    }
    assert_eq!(seen, vec!["Graph", "Packets", "Hosts", "Connections", "Interfaces"]);
}

#[test]
fn interface_selection_wraps() {
    let mut ui = UiState::new(3);
    assert_eq!(ui.selected, Some(0));
    ui.prev_interface();
    assert_eq!(ui.selected, Some(2));
    ui.next_interface();
    assert_eq!(ui.selected, Some(0));
    ui.next_interface();
    ui.next_interface();
    assert_eq!(ui.selected, Some(2));
    let mut empty = UiState::new(0);
    assert_eq!(empty.selected, None);
    empty.next_interface();
    assert_eq!(empty.selected, None);
}

#[test]
fn keys() {
    let mut ui = UiState::new(2);
    assert!(matches!(ui.handle_key(Key::Char('p')), KeyAction::Nothing));
    assert!(ui.paused);
    assert!(matches!(ui.handle_key(Key::Char('?')), KeyAction::Nothing));
    assert!(ui.show_help);
    assert!(matches!(ui.handle_key(Key::Char('s')), KeyAction::Nothing));
    assert!(!ui.sorting_desc);
    assert!(matches!(ui.handle_key(Key::Tab), KeyAction::Nothing));
    assert!(matches!(ui.focus, FocusPanel::Graph));
    assert!(matches!(ui.handle_key(Key::Down), KeyAction::RestartCapture));
    assert_eq!(ui.selected, Some(1));
    assert!(matches!(ui.handle_key(Key::Char('k')), KeyAction::RestartCapture));
    assert_eq!(ui.selected, Some(0));
    assert!(matches!(ui.handle_key(Key::Char('f')), KeyAction::Nothing));
    assert!(ui.filter_mode);
    assert!(matches!(ui.handle_key(Key::Char('q')), KeyAction::EditFilter));
    assert!(matches!(ui.handle_key(Key::Esc), KeyAction::Nothing));
    assert!(!ui.filter_mode);
    assert!(matches!(ui.handle_key(Key::Char('x')), KeyAction::Nothing));
    assert!(matches!(ui.handle_key(Key::Char('q')), KeyAction::Quit));
}

#[test]
fn truncation() {
    assert_eq!(truncate("hello", 5), "hello");
    assert_eq!(truncate("hello world", 8), "hello...");
    assert_eq!(truncate("hello", 2), "...");
    assert_eq!(truncate("héllo wörld", 6), "hél...");
}

#[test]
fn tcp_states() {
    assert_eq!(tcp_state(0x12), "SYN-ACK");
    assert_eq!(tcp_state(0x02), "SYN");
    assert_eq!(tcp_state(0x11), "FIN");
    assert_eq!(tcp_state(0x14), "RST");
    assert_eq!(tcp_state(0x18), "PSH");
    assert_eq!(tcp_state(0x10), "ACK");
    assert_eq!(tcp_state(0x00), "DATA");
}

#[test]
fn events_and_directions() {
    let local = vec![0xC0A8_0002u32];
    let e = build_event("TCP", 0xC0A8_0002, 0x0808_0808, 5000, 443, "ACK".to_string(), 60, &local).unwrap();
    assert!(is_dir(e.direction, "up"));
    assert_eq!(e.src, "192.168.0.2:5000");
    assert_eq!(e.dst, "8.8.8.8:443");
    assert_eq!(e.remote_host, "8.8.8.8");
    assert_eq!(e.endpoint, "8.8.8.8:443");
    let e = build_event("UDP", 0x0808_0808, 0xC0A8_0002, 53, 6000, "ACTIVE".to_string(), 70, &local).unwrap();
    assert!(is_dir(e.direction, "down"));
    assert_eq!(e.remote_host, "8.8.8.8");
    assert_eq!(e.endpoint, "8.8.8.8:53");
    let e = build_event("ICMP", 0x0101_0101, 0x0202_0202, 0, 0, "IcmpType(0)".to_string(), 1, &local).unwrap();
    assert!(is_dir(e.direction, "other"));
    assert_eq!(e.src, "1.1.1.1");
    assert_eq!(e.endpoint, "2.2.2.2");
}

#[test]
fn frames_to_events() {
    let local = vec![0x0A00_0001u32];
    let f = frame(6, [10, 0, 0, 1], [93, 184, 216, 34], &tcp(40000, 80, 0x02));
    let e = parse_packet(&f, &local).unwrap();
    assert_eq!(e.proto, "TCP");
    assert_eq!(e.state, "SYN");
    assert_eq!(e.size, f.len() as u64);
    let f = frame(1, [8, 8, 8, 8], [10, 0, 0, 1], &[8, 0, 0, 0]);
    let e = parse_packet(&f, &local).unwrap();
    assert_eq!(e.state, "IcmpType(8)");
    assert_eq!(e.src, "8.8.8.8");
    let f = frame(17, [8, 8, 8, 8], [10, 0, 0, 1], &[0, 53, 0, 54, 0, 8, 0, 0]);
    assert_eq!(parse_packet(&f, &local).unwrap().state, "ACTIVE");
    let f = frame(99, [8, 8, 8, 8], [10, 0, 0, 1], &[0; 20]);
    assert!(parse_packet(&f, &local).is_none());
}

fn host(h: &str, b: u64) -> HostTotal {
    HostTotal { host: h.to_string(), bytes: b }
}

fn conn(k: &str, b: u64) -> ConnectionEntry {
    ConnectionEntry {
        key: k.to_string(),
        row: ConnectionRow { proto: "TCP".to_string(), endpoint: k.to_string(), state: "ACK".to_string(), bytes: b },
    }
}

#[test]
fn pruning_keeps_busiest() {
    let mut hosts = vec![host("a", 5), host("b", 50), host("c", 20), host("d", 50)];
    prune_hosts(&mut hosts, 3);
    let names: Vec<&str> = hosts.iter().map(|h| h.host.as_str()).collect();
    assert_eq!(names, vec!["b", "d", "c"]);
    let mut conns = vec![conn("x", 1), conn("y", 3), conn("z", 2)];
    prune_connections(&mut conns, 2);
    let keys: Vec<&str> = conns.iter().map(|c| c.key.as_str()).collect();
    assert_eq!(keys, vec!["y", "z"]);
    let mut few = vec![host("a", 1)];
    prune_hosts(&mut few, 10);
    assert_eq!(few.len(), 1);
}

#[test]
fn traffic_records_packets() {
    let local = vec![0x0A00_0001u32];
    let mut t = Traffic::new();
    assert_eq!(t.upload_hist.len(), 60);
    let e = build_event("TCP", 0x0A00_0001, 0x0101_0101, 1000, 443, "ACK".to_string(), 100, &local).unwrap();
    assert!(t.fits(&e));
    t.record_packet(e, "12:00:00".to_string());
    let e = build_event("TCP", 0x0101_0101, 0x0A00_0001, 443, 1000, "PSH".to_string(), 40, &local).unwrap();
    t.record_packet(e, "12:00:01".to_string());
    assert_eq!(t.packets.len(), 2);
    assert_eq!(t.packets[1].time, "12:00:01");
    assert_eq!(t.pending_upload, 100);
    assert_eq!(t.pending_download, 40);
    assert_eq!(t.host_totals.len(), 1);
    assert_eq!(t.host_totals[0].bytes, 140);
    assert_eq!(t.connections.len(), 1);
    assert_eq!(t.connections[0].key, "TCP|1.1.1.1:443");
    assert_eq!(t.connections[0].row.state, "PSH");
    assert_eq!(t.connections[0].row.bytes, 140);
    t.roll_rate_history();
    assert_eq!(t.upload_hist.len(), 60);
    assert_eq!(*t.upload_hist.last().unwrap(), 100);
    assert_eq!(*t.download_hist.last().unwrap(), 40);
    assert_eq!(t.pending_upload, 0);
}

#[test]
fn packet_rows_are_bounded() {
    let local = vec![];
    let mut t = Traffic::new();
    for i in 0..(PACKET_ROWS + 5) {
        let e = build_event("UDP", 1, 2, 1, 2, "ACTIVE".to_string(), 1, &local).unwrap();
        t.record_packet(e, format!("{}", i));
    }
    assert_eq!(t.packets.len(), PACKET_ROWS);
    assert_eq!(t.packets[0].time, "5");
}

#[test]
fn host_table_is_pruned() {
    let local = vec![0u32];
    let mut t = Traffic::new();
    for i in 0..501u32 {
        let e = build_event("UDP", 0, 0x0B00_0000 + i, 1, 2, "ACTIVE".to_string(), (i + 1) as u64, &local).unwrap();
        t.record_packet(e, String::new());
    }
    assert_eq!(t.host_totals.len(), 200);
    assert_eq!(t.host_totals[0].bytes, 501);
    assert!(t.connections.len() <= 250);
}

#[test]
fn top_tables() {
    let local = vec![0u32];
    let mut t = Traffic::new();
    for (i, size) in [(1u32, 10u64), (2, 30), (3, 20)] {
        let e = build_event("TCP", 0, i, 1, 80, "ACK".to_string(), size, &local).unwrap();
        t.record_packet(e, String::new());
    }
    let top = t.top_hosts(2);
    assert_eq!(top.iter().map(|h| h.bytes).collect::<Vec<_>>(), vec![30, 20]);
    let asc = t.top_connections(false, 3);
    assert_eq!(asc.iter().map(|c| c.row.bytes).collect::<Vec<_>>(), vec![10, 20, 30]);
    let desc = t.top_connections(true, 1);
    assert_eq!(desc.iter().map(|c| c.row.bytes).collect::<Vec<_>>(), vec![30]);
}

#[test]
fn events_paused_and_errors() {
    let local = vec![0u32];
    let mut t = Traffic::new();
    let mut ui = UiState::new(1);
    ui.paused = true;
    let e = build_event("TCP", 0, 1, 1, 80, "ACK".to_string(), 10, &local).unwrap();
    apply_event(&mut t, &mut ui, DashEvent::Packet(e), String::new());
    assert!(t.packets.is_empty());
    ui.paused = false;
    let e = build_event("TCP", 0, 1, 1, 80, "ACK".to_string(), 10, &local).unwrap();
    apply_event(&mut t, &mut ui, DashEvent::Packet(e), String::new());
    assert_eq!(t.packets.len(), 1);
    apply_event(&mut t, &mut ui, DashEvent::Error("boom".to_string()), String::new());
    assert_eq!(ui.last_error, Some("boom".to_string()));
    assert_eq!(connection_key(&"UDP".to_string(), &"1.2.3.4:5".to_string()), "UDP|1.2.3.4:5");
}

#[test]
fn dashboard_and_capture_accept_the_same_frames() {
    let local = vec![0x0A00_0001u32];
    let frames = vec![
        frame(6, [10, 0, 0, 1], [1, 1, 1, 1], &tcp(1, 2, 0x10)),
        frame(17, [1, 1, 1, 1], [10, 0, 0, 1], &[0, 1, 0, 2, 0, 8, 0, 0]),
        frame(1, [1, 1, 1, 1], [10, 0, 0, 1], &[0, 0, 0, 0]),
        frame(6, [1, 1, 1, 1], [10, 0, 0, 1], &[0; 4]),
        frame(50, [1, 1, 1, 1], [10, 0, 0, 1], &[0; 40]),
    ];
    for f in &frames {
        let e = parse_packet(f, &local);
        let s = ncp_core::sniffer::parse_packet(f, None, 77);
        assert_eq!(e.is_some(), s.is_some());
        if let (Some(e), Some(s)) = (e, s) {
            assert_eq!(e.proto, s.protocol);
            assert_eq!(e.size, s.length as u64);
        }
    }
}

#[test]
fn table_keys_stay_unique() {
    let local = vec![0u32];
    let mut t = Traffic::new();
    for i in 0..700u32 {
        let dst = 0x0C00_0000 + (i % 260);
        let e = build_event("TCP", 0, dst, 1, (i % 3) as u16 + 1, "ACK".to_string(), 1, &local).unwrap();
        t.record_packet(e, String::new());
    }
    let mut hosts: Vec<&String> = t.host_totals.iter().map(|h| &h.host).collect();
    hosts.sort();
    hosts.dedup();
    assert_eq!(hosts.len(), t.host_totals.len());
    let mut keys: Vec<&String> = t.connections.iter().map(|c| &c.key).collect();
    keys.sort();
    keys.dedup();
    assert_eq!(keys.len(), t.connections.len());
    assert!(t.host_totals.len() <= 500);
    assert!(t.connections.len() <= 250);
}
