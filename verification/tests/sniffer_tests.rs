use ncp_core::sniffer::{
    decode_ipv4, decode_transport, filter_allows_exec, format_tcp_flags, ipv4_string,
    parse_packet, parse_packet_tcp_udp, sniff_line, Transport,
};

fn frame(ethertype: u16, protocol: u8, src: [u8; 4], dst: [u8; 4], payload: &[u8]) -> Vec<u8> {
    let mut f = vec![0u8; 12];
    f.push((ethertype >> 8) as u8);
    f.push(ethertype as u8);
    let total = 20 + payload.len() as u16;
    f.extend_from_slice(&[0x45, 0, (total >> 8) as u8, total as u8, 0, 0, 0, 0, 64, protocol, 0, 0]);
    f.extend_from_slice(&src);
    f.extend_from_slice(&dst);
    f.extend_from_slice(payload);
    f
}

fn tcp_header(sport: u16, dport: u16, flags: u8) -> Vec<u8> {
    let mut t = vec![0u8; 20];
    t[0] = (sport >> 8) as u8;
    t[1] = sport as u8;
    t[2] = (dport >> 8) as u8;
    t[3] = dport as u8;
    t[12] = 0x50;
    t[13] = flags;
    t
}

fn udp_header(sport: u16, dport: u16) -> Vec<u8> {
    vec![(sport >> 8) as u8, sport as u8, (dport >> 8) as u8, dport as u8, 0, 8, 0, 0]
}

#[test]
fn tcp_frame_summary() {
    let f = frame(0x0800, 6, [192, 168, 1, 2], [10, 0, 0, 1], &tcp_header(51000, 443, 0x12));
    let d = parse_packet(&f, None, 1234).unwrap();
    assert_eq!(d.timestamp_ms, 1234);
    assert_eq!(d.source, "192.168.1.2");
    assert_eq!(d.source_port, 51000);
    assert_eq!(d.destination, "10.0.0.1");
    assert_eq!(d.dest_port, 443);
    assert_eq!(d.protocol, "TCP");
    assert_eq!(d.flags, "SYN-ACK,ACK");
    assert_eq!(d.length, f.len());
}

#[test]
fn udp_frame_summary() {
    let f = frame(0x0800, 17, [1, 2, 3, 4], [5, 6, 7, 8], &udp_header(53, 5353));
    let d = parse_packet(&f, Some("udp"), 9).unwrap();
    assert_eq!(d.protocol, "UDP");
    assert_eq!(d.flags, "DATA");
    assert_eq!(d.source_port, 53);
    assert_eq!(d.dest_port, 5353);
}

#[test]
fn icmp_frame_summary() {
    let f = frame(0x0800, 1, [8, 8, 8, 8], [192, 168, 0, 10], &[0, 0, 0xff, 0xff]);
    let d = parse_packet(&f, Some(" icmp "), 0).unwrap();
    assert_eq!(d.protocol, "ICMP");
    assert_eq!(d.flags, "type:0 code:0");
    assert_eq!(d.source_port, 0);
    assert_eq!(d.dest_port, 0);
    let f = frame(0x0800, 1, [8, 8, 8, 8], [192, 168, 0, 10], &[8, 3, 0, 0]);
    assert_eq!(parse_packet(&f, None, 0).unwrap().flags, "type:8 code:3");
}

#[test]
fn filters() {
    let f = frame(0x0800, 6, [1, 1, 1, 1], [2, 2, 2, 2], &tcp_header(1, 2, 0));
    assert!(parse_packet(&f, Some("UDP"), 0).is_none());
    assert!(parse_packet(&f, Some("tcp"), 0).is_some());
    assert!(parse_packet(&f, Some("anything"), 0).is_some());
    assert!(filter_allows_exec("Tcp", 6));
    assert!(!filter_allows_exec("icmp", 6));
    assert!(filter_allows_exec("", 6));
}

#[test]
fn rejected_frames() {
    let f = frame(0x86DD, 6, [1, 1, 1, 1], [2, 2, 2, 2], &tcp_header(1, 2, 0));
    assert!(parse_packet(&f, None, 0).is_none());
    assert!(parse_packet(&[0u8; 10], None, 0).is_none());
    let short = frame(0x0800, 6, [1, 1, 1, 1], [2, 2, 2, 2], &[0u8; 10]);
    assert!(parse_packet(&short, None, 0).is_none());
    let other = frame(0x0800, 47, [1, 1, 1, 1], [2, 2, 2, 2], &[0u8; 30]);
    assert!(parse_packet(&other, None, 0).is_none());
    let mut trunc = frame(0x0800, 6, [1, 1, 1, 1], [2, 2, 2, 2], &[]);
    trunc.truncate(30);
    assert!(decode_ipv4(&trunc).is_none());
}

#[test]
fn plain_sniffer_skips_icmp() {
    let f = frame(0x0800, 1, [8, 8, 8, 8], [192, 168, 0, 10], &[0, 0, 0, 0]);
    assert!(parse_packet_tcp_udp(&f).is_none());
    let f = frame(0x0800, 6, [1, 1, 1, 1], [2, 2, 2, 2], &tcp_header(80, 1000, 0x18));
    let d = parse_packet_tcp_udp(&f).unwrap();
    assert_eq!(d.timestamp_ms, 0);
    assert_eq!(d.flags, "ACK,PSH");
    assert_eq!(sniff_line(3, &d), format!("[3] 1.1.1.1:80 -> 2.2.2.2:1000 | TCP | {} bytes", f.len()));
}

#[test]
fn ipv4_payload_respects_total_length() {
    let mut f = frame(0x0800, 17, [1, 1, 1, 1], [2, 2, 2, 2], &udp_header(7, 9));
    f.extend_from_slice(&[0xAA; 6]);
    let ip = decode_ipv4(&f).unwrap();
    assert_eq!(ip.payload.len(), 8);
    assert_eq!(ip.source, 0x0101_0101);
    assert_eq!(ip.destination, 0x0202_0202);
    assert_eq!(ip.protocol, 17);
}

#[test]
fn transports() {
    match decode_transport(6, &tcp_header(10, 20, 0x02)) {
        Some(Transport::Tcp { source_port, dest_port, flags }) => {
            assert_eq!((source_port, dest_port, flags), (10, 20, 0x02));
        }
        _ => panic!("expected TCP"),
    }
    assert!(decode_transport(17, &[0u8; 7]).is_none());
    assert!(decode_transport(1, &[0u8; 3]).is_none());
    assert!(decode_transport(2, &[0u8; 40]).is_none());
}

#[test]
fn tcp_flag_texts() {
    assert_eq!(format_tcp_flags(0), "DATA");
    assert_eq!(format_tcp_flags(0x02), "SYN");
    assert_eq!(format_tcp_flags(0x12), "SYN-ACK,ACK");
    assert_eq!(format_tcp_flags(0x10), "ACK");
    assert_eq!(format_tcp_flags(0x01 | 0x04 | 0x08), "PSH,FIN,RST");
    assert_eq!(format_tcp_flags(0xff), "SYN-ACK,ACK,PSH,FIN,RST");
    assert_eq!(format_tcp_flags(0x20), "DATA");
}

#[test]
fn ipv4_text() {
    assert_eq!(ipv4_string(0), "0.0.0.0");
    assert_eq!(ipv4_string(0xC0A8_0001), "192.168.0.1");
    assert_eq!(ipv4_string(u32::MAX), "255.255.255.255");
}

#[test]
fn plain_sniffer_agrees_with_capture() {
    let frames = vec![
        frame(0x0800, 6, [1, 1, 1, 1], [2, 2, 2, 2], &tcp_header(80, 1000, 0x11)),
        frame(0x0800, 17, [3, 3, 3, 3], [4, 4, 4, 4], &udp_header(1, 2)),
        frame(0x0800, 1, [3, 3, 3, 3], [4, 4, 4, 4], &[3, 1, 0, 0]),
        frame(0x0800, 6, [1, 1, 1, 1], [2, 2, 2, 2], &[0u8; 5]),
    ];
    for f in &frames {
        let plain = parse_packet_tcp_udp(f);
        let capture = parse_packet(f, None, 0);
        match (plain, capture) {
            (Some(a), Some(b)) => {
                assert_eq!(
                    (a.source, a.source_port, a.destination, a.dest_port, a.protocol, a.flags, a.length),
                    (b.source, b.source_port, b.destination, b.dest_port, b.protocol, b.flags, b.length)
                );
            }
            (None, Some(b)) => assert_eq!(b.protocol, "ICMP"),
            (None, None) => {}
            (Some(_), None) => panic!("the plain sniffer reported a frame the capture rejects"),
        }
    }
}
