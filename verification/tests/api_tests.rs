use ncp_core::api::{
    add_packet, begin_capture, begin_text_listener, new_packet_capture, new_text_capture,
    poll_packets, poll_text_messages, record_text_message, stop_capture, stop_text_listener,
    CaptureBuffer, PacketData, TextMessage, PACKET_LIMIT, TEXT_LIMIT,
};

fn packet(ts: u64) -> PacketData {
    PacketData {
        timestamp_ms: ts,
        source: "1.1.1.1".to_string(),
        source_port: 1,
        destination: "2.2.2.2".to_string(),
        dest_port: 2,
        protocol: "TCP".to_string(),
        flags: "ACK".to_string(),
        length: 60,
    }
}

fn message(ts: u64) -> TextMessage {
    TextMessage { timestamp_ms: ts, peer: "127.0.0.1:5000".to_string(), message: format!("m{}", ts) }
}

#[test]
fn stopped_capture_ignores_packets() {
    let mut c = new_packet_capture();
    add_packet(&mut c, packet(1));
    assert_eq!(c.len(), 0);
    assert!(!c.is_running());
}

#[test]
fn capture_keeps_newest_thousand() {
    let mut c = new_packet_capture();
    assert!(begin_capture(&mut c));
    for i in 0..(PACKET_LIMIT as u64 + 10) {
        add_packet(&mut c, packet(i));
    }
    assert_eq!(c.len(), PACKET_LIMIT);
    let first = poll_packets(&mut c, 3);
    assert_eq!(first.iter().map(|p| p.timestamp_ms).collect::<Vec<_>>(), vec![10, 11, 12]);
    assert_eq!(c.len(), PACKET_LIMIT - 3);
    let rest = poll_packets(&mut c, 5000);
    assert_eq!(rest.len(), PACKET_LIMIT - 3);
    assert_eq!(rest.last().unwrap().timestamp_ms, PACKET_LIMIT as u64 + 9);
    assert!(poll_packets(&mut c, 10).is_empty());
}

#[test]
fn begin_twice_keeps_items() {
    let mut c = new_packet_capture();
    assert!(begin_capture(&mut c));
    add_packet(&mut c, packet(1));
    assert!(!begin_capture(&mut c));
    assert_eq!(c.len(), 1);
    stop_capture(&mut c);
    assert!(!c.is_running());
    add_packet(&mut c, packet(2));
    assert_eq!(poll_packets(&mut c, 10).len(), 1);
    assert!(begin_capture(&mut c));
    assert_eq!(c.len(), 0);
}

#[test]
fn poll_zero_returns_nothing() {
    let mut c = new_packet_capture();
    begin_capture(&mut c);
    add_packet(&mut c, packet(1));
    assert!(poll_packets(&mut c, 0).is_empty());
    assert_eq!(c.len(), 1);
}

#[test]
fn text_listener_messages() {
    let mut c = new_text_capture();
    assert!(begin_text_listener(&mut c));
    assert!(record_text_message(&mut c, message(1), true));
    assert!(c.is_running());
    assert!(!record_text_message(&mut c, message(2), false));
    assert!(!c.is_running());
    let got = poll_text_messages(&mut c, 10);
    assert_eq!(got.iter().map(|m| m.message.clone()).collect::<Vec<_>>(), vec!["m1", "m2"]);
    stop_text_listener(&mut c);
    assert!(!c.is_running());
}

#[test]
fn text_buffer_bound() {
    let mut c = new_text_capture();
    begin_text_listener(&mut c);
    for i in 0..(TEXT_LIMIT as u64 + 1) {
        record_text_message(&mut c, message(i), true);
    }
    assert_eq!(c.len(), TEXT_LIMIT);
    assert_eq!(poll_text_messages(&mut c, 1)[0].timestamp_ms, 1);
}

#[test]
fn generic_buffer() {
    let mut b: CaptureBuffer<u32> = CaptureBuffer::new(2);
    b.begin();
    b.push_bounded(1);
    b.push_bounded(2);
    b.push_bounded(3);
    assert_eq!(b.drain_front(10), vec![2, 3]);
}
