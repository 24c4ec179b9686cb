use ncp_core::dashboard::{ConnectionEntry, ConnectionRow, PacketRow};
use ncp_core::panels::{connection_line, footer, packet_line, packet_lines, proto_color, ProtoColor};

fn row(time: &str, proto: &str, bytes: u64) -> PacketRow {
    PacketRow {
        time: time.to_string(),
        proto: proto.to_string(),
        src: "10.0.0.1:5000".to_string(),
        dst: "1.1.1.1:443".to_string(),
        bytes,
    }
}

#[test]
fn packet_line_columns() {
    let r = row("12:00:00", "TCP", 60);
    let expected = format!(
        "{}  {:<4}  {:<21} -> {:<21} {:>5}B",
        r.time, r.proto, r.src, r.dst, r.bytes
    );
    assert_eq!(packet_line(&r), expected);
    let long = PacketRow {
        time: "t".to_string(),
        proto: "ICMPX".to_string(),
        src: "a".repeat(30),
        dst: "é".to_string(),
        bytes: 1234567,
    };
    let expected = format!(
        "{}  {:<4}  {:<21} -> {:<21} {:>5}B",
        long.time, long.proto, long.src, long.dst, long.bytes
    );
    assert_eq!(packet_line(&long), expected);
}

#[test]
fn packet_list_newest_first_and_filtered() {
    let rows: Vec<PacketRow> = (0..25).map(|i| row(&format!("t{:02}", i), if i % 2 == 0 { "TCP" } else { "UDP" }, i)).collect();
    let all = packet_lines(&rows, "");
    assert_eq!(all.len(), 18);
    assert!(all[0].0.starts_with("t24"));
    assert_eq!(all[0].1, ProtoColor::Cyan);
    assert!(all[17].0.starts_with("t07"));
    let udp = packet_lines(&rows, "UDP");
    assert_eq!(udp.len(), 9);
    assert!(udp.iter().all(|l| l.1 == ProtoColor::Yellow));
    assert!(packet_lines(&rows, "nothing").is_empty());
    assert!(packet_lines(&vec![], "").is_empty());
}

#[test]
fn colours() {
    assert_eq!(proto_color("TCP"), ProtoColor::Cyan);
    assert_eq!(proto_color("UDP"), ProtoColor::Yellow);
    assert_eq!(proto_color("ICMP"), ProtoColor::Green);
    assert_eq!(proto_color("tcp"), ProtoColor::White);
}

#[test]
fn connection_columns() {
    let c = ConnectionEntry {
        key: "TCP|1.1.1.1:443".to_string(),
        row: ConnectionRow {
            proto: "TCP".to_string(),
            endpoint: "1.1.1.1:443".to_string(),
            state: "ACK".to_string(),
            bytes: 4096,
        },
    };
    assert_eq!(
        connection_line(&c),
        format!("{:<4} {:<22} {:<12} {:>7}B", "TCP", "1.1.1.1:443", "ACK", 4096)
    );
}

#[test]
fn footer_text() {
    assert_eq!(
        footer("tcp", &None),
        "Tab panel | f filter | s sort | p pause | ? help | q quit | filter='tcp'"
    );
    assert_eq!(
        footer("", &Some("oops".to_string())),
        "Tab panel | f filter | s sort | p pause | ? help | q quit | filter='' | error: oops"
    );
}
