use ncp_core::discovery::parse_arp_output;

#[test]
fn arp_table_lines() {
    let text = "? (192.168.1.1) at 0:11:22:33:44:55 on en0 ifscope [ethernet]\n\
                ? (192.168.1.9) at (incomplete) on en0 ifscope [ethernet]\n\
                ? (192.168.1.255) at ff:ff:ff:ff:ff:ff on en0 ifscope [ethernet]\n\
                gateway (10.0.0.1) at aa:bb:cc:dd:ee:ff [ether] on eth0\n\
                short (1.2.3.4) at x\n\
                ? 10.0.0.7 at aa:aa:aa:aa:aa:aa on eth1\n";
    let d = parse_arp_output(text);
    assert_eq!(d.len(), 2);
    assert_eq!(d[0].ip, "192.168.1.1");
    assert_eq!(d[0].mac, "0:11:22:33:44:55");
    assert_eq!(d[0].interface, "en0");
    assert_eq!(d[1].ip, "10.0.0.1");
    assert_eq!(d[1].mac, "aa:bb:cc:dd:ee:ff");
    assert_eq!(d[1].interface, "on");
}

#[test]
fn arp_empty_and_crlf() {
    assert!(parse_arp_output("").is_empty());
    let d = parse_arp_output("? ((10.1.1.1)) at 11:22:33:44:55:66 on wlan0\r\n");
    assert_eq!(d.len(), 1);
    assert_eq!(d[0].ip, "10.1.1.1");
    assert_eq!(d[0].interface, "wlan0");
}
