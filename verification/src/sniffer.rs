//! Decoding of captured Ethernet frames into packet summaries.
//!
//! The frame, IPv4 and transport headers are read through `pnet`'s packet views; the
//! contracts of those calls say which bytes each field comes from. The summaries built
//! here are what the capture loops report.
use vstd::prelude::*;
use pnet::packet::ethernet::EthernetPacket;
use pnet::packet::icmp::IcmpPacket;
use pnet::packet::ipv4::Ipv4Packet;
use pnet::packet::tcp::TcpPacket;
use pnet::packet::udp::UdpPacket;
use pnet::packet::Packet;
use crate::api::{PacketData, PacketInfo};
use crate::text::{
    dec, push_char, push_dec, push_str, to_owned_string, to_uppercase, trim, trimmed,
    unicode_upper, chars_of, chars_eq, join_commas,
};

verus! {

// ---------------------------------------------------------------------------
// Header layouts
// ---------------------------------------------------------------------------

/// A big-endian 16-bit field.
pub open spec fn be16(hi: u8, lo: u8) -> nat {
    hi as nat * 256 + lo as nat
}

/// A big-endian 32-bit field.
pub open spec fn be32(a: u8, b: u8, c: u8, d: u8) -> nat {
    a as nat * 0x100_0000 + b as nat * 0x1_0000 + c as nat * 0x100 + d as nat
}

/// EtherType of IPv4.
pub const ETHERTYPE_IPV4: u16 = 0x0800;

/// IP protocol numbers.
pub const PROTO_CONTROL: u8 = 1;

pub const PROTO_TCP: u8 = 6;

pub const PROTO_UDP: u8 = 17;

/// The payload of an IPv4 packet as `pnet` delimits it: it starts after the header
/// (at least 20 bytes, more with options) and runs for `total_length` minus the header
/// length, cut at the end of the buffer.
pub open spec fn ipv4_payload(ip: Seq<u8>) -> Seq<u8> {
    let hl = (ip[0] % 16) as nat * 4;
    let start: nat = if hl > 20 {
        hl
    } else {
        20
    };
    let total = be16(ip[2], ip[3]);
    let plen: nat = if total >= hl {
        (total - hl) as nat
    } else {
        0
    };
    let end: nat = if start + plen < ip.len() {
        start + plen
    } else {
        ip.len()
    };
    if ip.len() <= start {
        Seq::empty()
    } else {
        ip.subrange(start as int, end as int)
    }
}

/// The fields of an IPv4 header that the summaries use.
pub struct Ipv4Fields {
    pub source: u32,
    pub destination: u32,
    pub protocol: u8,
    pub payload: Vec<u8>,
}

/// The transport-layer fields that the summaries use.
pub enum Transport {
    Tcp { source_port: u16, dest_port: u16, flags: u8 },
    Udp { source_port: u16, dest_port: u16 },
    Control { msg_type: u8, msg_code: u8 },
}

/// The spec-level IPv4 fields of a packet: source, destination, protocol, payload.
pub struct Ipv4View {
    pub source: u32,
    pub destination: u32,
    pub protocol: u8,
    pub payload: Seq<u8>,
}

/// The IPv4 packet carried by an Ethernet frame: `None` unless the frame holds a
/// 14-byte Ethernet header with EtherType IPv4 followed by at least a 20-byte IPv4
/// header.
pub open spec fn frame_ipv4(frame: Seq<u8>) -> Option<Ipv4View> {
    if frame.len() >= 14 && be16(frame[12], frame[13]) == 0x0800 {
        let ip = frame.skip(14);
        if ip.len() >= 20 {
            Some(
                Ipv4View {
                    source: be32(ip[12], ip[13], ip[14], ip[15]) as u32,
                    destination: be32(ip[16], ip[17], ip[18], ip[19]) as u32,
                    protocol: ip[9],
                    payload: ipv4_payload(ip),
                },
            )
        } else {
            None
        }
    } else {
        None
    }
}

/// The transport header of an IPv4 payload: TCP needs 20 bytes, UDP 8 and ICMP 4;
/// other protocols have none.
pub open spec fn transport_of(protocol: u8, p: Seq<u8>) -> Option<Transport> {
    if protocol == 6 {
        if p.len() >= 20 {
            Some(
                Transport::Tcp {
                    source_port: be16(p[0], p[1]) as u16,
                    dest_port: be16(p[2], p[3]) as u16,
                    flags: p[13],
                },
            )
        } else {
            None
        }
    } else if protocol == 17 {
        if p.len() >= 8 {
            Some(
                Transport::Udp {
                    source_port: be16(p[0], p[1]) as u16,
                    dest_port: be16(p[2], p[3]) as u16,
                },
            )
        } else {
            None
        }
    } else if protocol == 1 {
        if p.len() >= 4 {
            Some(Transport::Control { msg_type: p[0], msg_code: p[1] })
        } else {
            None
        }
    } else {
        None
    }
}

// ---------------------------------------------------------------------------
// pnet packet views
// ---------------------------------------------------------------------------

/// `EthernetPacket::new`, `get_ethertype` and `payload`: a frame of at least 14 bytes
/// has its EtherType in bytes 12..14 (big-endian) and its payload after byte 14; a
/// shorter one is refused.
#[verifier::external_body]
fn ethernet_view(frame: &[u8]) -> (r: Option<(u16, Vec<u8>)>)
    ensures
        match r {
            None => frame@.len() < 14,
            Some(v) => {
                &&& frame@.len() >= 14
                &&& v.0 == be16(frame@[12], frame@[13])
                &&& v.1@ == frame@.skip(14)
            },
        },
{
    match EthernetPacket::new(frame) {
        Some(eth) => Some((eth.get_ethertype().0, eth.payload().to_vec())),
        None => None,
    }
}

/// `Ipv4Packet::new`, `get_source`, `get_destination`, `get_next_level_protocol` and
/// `payload`: a packet of at least 20 bytes has its protocol in byte 9, its addresses in
/// bytes 12..16 and 16..20 (big-endian), and the payload that [`ipv4_payload`]
/// describes; a shorter one is refused.
#[verifier::external_body]
fn ipv4_view(ip: &[u8]) -> (r: Option<Ipv4Fields>)
    ensures
        match r {
            None => ip@.len() < 20,
            Some(f) => {
                &&& ip@.len() >= 20
                &&& f.source == be32(ip@[12], ip@[13], ip@[14], ip@[15])
                &&& f.destination == be32(ip@[16], ip@[17], ip@[18], ip@[19])
                &&& f.protocol == ip@[9]
                &&& f.payload@ == ipv4_payload(ip@)
            },
        },
{
    match Ipv4Packet::new(ip) {
        Some(p) => Some(
            Ipv4Fields {
                source: u32::from(p.get_source()),
                destination: u32::from(p.get_destination()),
                protocol: p.get_next_level_protocol().0,
                payload: p.payload().to_vec(),
            },
        ),
        None => None,
    }
}

/// `TcpPacket::new`, `get_source`, `get_destination` and `get_flags`: a segment of at
/// least 20 bytes has its ports in bytes 0..2 and 2..4 (big-endian) and its flags in
/// byte 13; a shorter one is refused.
#[verifier::external_body]
fn tcp_view(p: &[u8]) -> (r: Option<(u16, u16, u8)>)
    ensures
        match r {
            None => p@.len() < 20,
            Some(v) => {
                &&& p@.len() >= 20
                &&& v.0 == be16(p@[0], p@[1])
                &&& v.1 == be16(p@[2], p@[3])
                &&& v.2 == p@[13]
            },
        },
{
    match TcpPacket::new(p) {
        Some(t) => Some((t.get_source(), t.get_destination(), t.get_flags())),
        None => None,
    }
}

/// `UdpPacket::new`, `get_source` and `get_destination`: a datagram of at least 8
/// bytes has its ports in bytes 0..2 and 2..4 (big-endian); a shorter one is refused.
#[verifier::external_body]
fn udp_view(p: &[u8]) -> (r: Option<(u16, u16)>)
    ensures
        match r {
            None => p@.len() < 8,
            Some(v) => {
                &&& p@.len() >= 8
                &&& v.0 == be16(p@[0], p@[1])
                &&& v.1 == be16(p@[2], p@[3])
            },
        },
{
    match UdpPacket::new(p) {
        Some(u) => Some((u.get_source(), u.get_destination())),
        None => None,
    }
}

/// `IcmpPacket::new`, `get_icmp_type` and `get_icmp_code`: a message of at least 4
/// bytes has its type in byte 0 and its code in byte 1; a shorter one is refused.
#[verifier::external_body]
fn control_view(p: &[u8]) -> (r: Option<(u8, u8)>)
    ensures
        match r {
            None => p@.len() < 4,
            Some(v) => {
                &&& p@.len() >= 4
                &&& v.0 == p@[0]
                &&& v.1 == p@[1]
            },
        },
{
    match IcmpPacket::new(p) {
        Some(i) => Some((i.get_icmp_type().0, i.get_icmp_code().0)),
        None => None,
    }
}

// ---------------------------------------------------------------------------
// Decoding
// ---------------------------------------------------------------------------

/// The IPv4 fields of an Ethernet frame (see [`frame_ipv4`]).
pub fn decode_ipv4(frame: &[u8]) -> (r: Option<Ipv4Fields>)
    ensures
        match (r, frame_ipv4(frame@)) {
            (None, None) => true,
            (Some(f), Some(v)) => f.source == v.source && f.destination == v.destination
                && f.protocol == v.protocol && f.payload@ == v.payload,
            _ => false,
        },
{
    let (ethertype, payload) = match ethernet_view(frame) {
        Some(e) => e,
        None => return None,
    };
    if ethertype != ETHERTYPE_IPV4 {
        return None;
    }
    assert(payload@ == frame@.skip(14));
    ipv4_view(payload.as_slice())
}

/// The transport header for an IPv4 protocol and payload (see [`transport_of`]).
pub fn decode_transport(protocol: u8, payload: &[u8]) -> (r: Option<Transport>)
    ensures
        r == transport_of(protocol, payload@),
{
    if protocol == PROTO_TCP {
        match tcp_view(payload) {
            Some((s, d, f)) => Some(Transport::Tcp { source_port: s, dest_port: d, flags: f }),
            None => None,
        }
    } else if protocol == PROTO_UDP {
        match udp_view(payload) {
            Some((s, d)) => Some(Transport::Udp { source_port: s, dest_port: d }),
            None => None,
        }
    } else if protocol == PROTO_CONTROL {
        match control_view(payload) {
            Some((t, c)) => Some(Transport::Control { msg_type: t, msg_code: c }),
            None => None,
        }
    } else {
        None
    }
}

// ---------------------------------------------------------------------------
// Text of the summaries
// ---------------------------------------------------------------------------

/// Dotted-quad text of an IPv4 address, as `Ipv4Addr` displays it.
pub open spec fn ipv4_text(a: u32) -> Seq<char> {
    dec((a / 0x100_0000) as nat) + seq!['.'] + dec((a / 0x1_0000 % 256) as nat) + seq!['.'] + dec(
        (a / 0x100 % 256) as nat,
    ) + seq!['.'] + dec((a % 256) as nat)
}

/// Appends the dotted-quad text of an IPv4 address.
pub fn push_ipv4(s: &mut String, a: u32)
    ensures
        final(s)@ == old(s)@ + ipv4_text(a),
{
    push_dec(s, (a / 0x100_0000) as u64);
    push_char(s, '.');
    push_dec(s, (a / 0x1_0000 % 256) as u64);
    push_char(s, '.');
    push_dec(s, (a / 0x100 % 256) as u64);
    push_char(s, '.');
    push_dec(s, (a % 256) as u64);
    assert(final(s)@ =~= old(s)@ + ipv4_text(a));
}

/// The dotted-quad text of an IPv4 address as a new `String`.
pub fn ipv4_string(a: u32) -> (out: String)
    ensures
        out@ == ipv4_text(a),
{
    let mut out = String::new();
    push_ipv4(&mut out, a);
    assert(out@ =~= ipv4_text(a));
    out
}

/// The TCP flag names that a summary lists, in order: `SYN-ACK` (or `SYN` alone),
/// then `ACK`, `PSH`, `FIN` and `RST` for each flag that is set.
pub open spec fn tcp_flag_names(f: u8) -> Seq<Seq<char>> {
    let syn = f & 0x02 != 0;
    let ack = f & 0x10 != 0;
    (if syn && ack {
        seq!["SYN-ACK"@]
    } else if syn {
        seq!["SYN"@]
    } else {
        Seq::empty()
    }) + (if ack {
        seq!["ACK"@]
    } else {
        Seq::empty()
    }) + (if f & 0x08 != 0 {
        seq!["PSH"@]
    } else {
        Seq::empty()
    }) + (if f & 0x01 != 0 {
        seq!["FIN"@]
    } else {
        Seq::empty()
    }) + (if f & 0x04 != 0 {
        seq!["RST"@]
    } else {
        Seq::empty()
    })
}

/// The flags text of a TCP summary: the flag names joined by commas, or `DATA`.
pub open spec fn tcp_flags_text(f: u8) -> Seq<char> {
    if tcp_flag_names(f).len() == 0 {
        "DATA"@
    } else {
        join_commas(tcp_flag_names(f))
    }
}

/// Appends `name` to a comma-separated list held in `s` (`count` items so far).
fn push_item(s: &mut String, count: usize, name: &str, ghost_items: Ghost<Seq<Seq<char>>>)
    requires
        old(s)@ == join_commas(ghost_items@),
        count == ghost_items@.len(),
        count < 100,
    ensures
        final(s)@ == join_commas(ghost_items@.push(name@)),
{
    if count > 0 {
        push_char(s, ',');
    }
    push_str(s, name);
    assert(ghost_items@.push(name@).drop_last() =~= ghost_items@);
    if count == 0 {
        assert(final(s)@ =~= join_commas(ghost_items@.push(name@)));
    } else {
        assert(final(s)@ =~= join_commas(ghost_items@.push(name@)));
    }
}

/// The flags text of a TCP segment, e.g. `SYN-ACK,ACK` or `DATA`.
pub fn format_tcp_flags(f: u8) -> (out: String)
    ensures
        out@ == tcp_flags_text(f),
{
    let mut s = String::new();
    let mut n: usize = 0;
    let ghost mut items: Seq<Seq<char>> = Seq::empty();
    assert(s@ =~= join_commas(items));
    let syn = f & 0x02 != 0;
    let ack = f & 0x10 != 0;
    if syn && ack {
        push_item(&mut s, n, "SYN-ACK", Ghost(items));
        proof {
            items = items.push("SYN-ACK"@);
        }
        n = n + 1;
    } else if syn {
        push_item(&mut s, n, "SYN", Ghost(items));
        proof {
            items = items.push("SYN"@);
        }
        n = n + 1;
    }
    if ack {
        push_item(&mut s, n, "ACK", Ghost(items));
        proof {
            items = items.push("ACK"@);
        }
        n = n + 1;
    }
    if f & 0x08 != 0 {
        push_item(&mut s, n, "PSH", Ghost(items));
        proof {
            items = items.push("PSH"@);
        }
        n = n + 1;
    }
    if f & 0x01 != 0 {
        push_item(&mut s, n, "FIN", Ghost(items));
        proof {
            items = items.push("FIN"@);
        }
        n = n + 1;
    }
    if f & 0x04 != 0 {
        push_item(&mut s, n, "RST", Ghost(items));
        proof {
            items = items.push("RST"@);
        }
        n = n + 1;
    }
    assert(items =~= tcp_flag_names(f));
    if n == 0 {
        to_owned_string("DATA")
    } else {
        s
    }
}

/// The flags text of an ICMP summary: `type:<t> code:<c>`.
pub open spec fn control_flags_text(t: u8, c: u8) -> Seq<char> {
    "type:"@ + dec(t as nat) + " code:"@ + dec(c as nat)
}

fn control_flags(t: u8, c: u8) -> (out: String)
    ensures
        out@ == control_flags_text(t, c),
{
    let mut s = to_owned_string("type:");
    push_dec(&mut s, t as u64);
    push_str(&mut s, " code:");
    push_dec(&mut s, c as u64);
    assert(s@ =~= control_flags_text(t, c));
    s
}

// ---------------------------------------------------------------------------
// Packet summaries
// ---------------------------------------------------------------------------

/// Whether a protocol filter lets a protocol through: the filter, trimmed and
/// upper-cased, selects TCP, UDP or ICMP; any other filter lets everything through.
pub open spec fn filter_allows(filter: Seq<char>, protocol: u8) -> bool {
    let f = unicode_upper(trim(filter));
    if f == "TCP"@ {
        protocol == 6
    } else if f == "UDP"@ {
        protocol == 17
    } else if f == "ICMP"@ {
        protocol == 1
    } else {
        true
    }
}

/// Decides [`filter_allows`].
pub fn filter_allows_exec(filter: &str, protocol: u8) -> (b: bool)
    ensures
        b == filter_allows(filter@, protocol),
        unicode_upper(trim(filter@)) == "TCP"@ ==> (b <==> protocol == 6),
        unicode_upper(trim(filter@)) == "UDP"@ ==> (b <==> protocol == 17),
        unicode_upper(trim(filter@)) == "ICMP"@ ==> (b <==> protocol == 1),
{
    proof {
        lemma_filter_selects_protocol(filter@, protocol);
    }
    let t = trimmed(filter);
    let u = to_uppercase(t.as_str());
    let cs = chars_of(u.as_str());
    if chars_eq(&cs, "TCP") {
        protocol == PROTO_TCP
    } else if chars_eq(&cs, "UDP") {
        protocol == PROTO_UDP
    } else if chars_eq(&cs, "ICMP") {
        protocol == PROTO_CONTROL
    } else {
        true
    }
}

/// The summary of a decoded packet: addresses, ports, protocol name and flags text;
/// ICMP has no ports.
pub open spec fn summary(
    ip: Ipv4View,
    t: Transport,
    timestamp_ms: u64,
    length: nat,
) -> PacketInfo {
    match t {
        Transport::Tcp { source_port, dest_port, flags } => PacketInfo {
            timestamp_ms,
            source: ipv4_text(ip.source),
            source_port,
            destination: ipv4_text(ip.destination),
            dest_port,
            protocol: "TCP"@,
            flags: tcp_flags_text(flags),
            length,
        },
        Transport::Udp { source_port, dest_port } => PacketInfo {
            timestamp_ms,
            source: ipv4_text(ip.source),
            source_port,
            destination: ipv4_text(ip.destination),
            dest_port,
            protocol: "UDP"@,
            flags: "DATA"@,
            length,
        },
        Transport::Control { msg_type, msg_code } => PacketInfo {
            timestamp_ms,
            source: ipv4_text(ip.source),
            source_port: 0,
            destination: ipv4_text(ip.destination),
            dest_port: 0,
            protocol: "ICMP"@,
            flags: control_flags_text(msg_type, msg_code),
            length,
        },
    }
}

/// What the live capture reports for a frame: IPv4 frames whose protocol passes the
/// filter and whose TCP, UDP or ICMP header is complete.
pub open spec fn capture_summary(
    frame: Seq<u8>,
    proto_filter: Option<Seq<char>>,
    timestamp_ms: u64,
) -> Option<PacketInfo> {
    match frame_ipv4(frame) {
        None => None,
        Some(ip) => if proto_filter is Some && !filter_allows(proto_filter->0, ip.protocol) {
            None
        } else {
            match transport_of(ip.protocol, ip.payload) {
                None => None,
                Some(t) => Some(summary(ip, t, timestamp_ms, frame.len())),
            }
        },
    }
}

fn build_summary(ip: &Ipv4Fields, t: Transport, timestamp_ms: u64, length: usize) -> (d:
    PacketData)
    ensures
        d@ == summary(
            Ipv4View {
                source: ip.source,
                destination: ip.destination,
                protocol: ip.protocol,
                payload: ip.payload@,
            },
            t,
            timestamp_ms,
            length as nat,
        ),
{
    match t {
        Transport::Tcp { source_port, dest_port, flags } => PacketData {
            timestamp_ms,
            source: ipv4_string(ip.source),
            source_port,
            destination: ipv4_string(ip.destination),
            dest_port,
            protocol: to_owned_string("TCP"),
            flags: format_tcp_flags(flags),
            length,
        },
        Transport::Udp { source_port, dest_port } => PacketData {
            timestamp_ms,
            source: ipv4_string(ip.source),
            source_port,
            destination: ipv4_string(ip.destination),
            dest_port,
            protocol: to_owned_string("UDP"),
            flags: to_owned_string("DATA"),
            length,
        },
        Transport::Control { msg_type, msg_code } => PacketData {
            timestamp_ms,
            source: ipv4_string(ip.source),
            source_port: 0,
            destination: ipv4_string(ip.destination),
            dest_port: 0,
            protocol: to_owned_string("ICMP"),
            flags: control_flags(msg_type, msg_code),
            length,
        },
    }
}

/// Summarises a captured frame for the live capture (see [`capture_summary`]); the
/// capture time is the caller's.
pub fn parse_packet(frame: &[u8], proto_filter: Option<&str>, timestamp_ms: u64) -> (r: Option<
    PacketData,
>)
    ensures
        match (r, capture_summary(frame@, option_view(proto_filter), timestamp_ms)) {
            (None, None) => true,
            (Some(d), Some(v)) => d@ == v,
            _ => false,
        },
        (proto_filter matches Some(f) && unicode_upper(trim(f@)) == "TCP"@) ==> (r matches Some(d)
            ==> d.protocol@ == "TCP"@),
        (proto_filter matches Some(f) && unicode_upper(trim(f@)) == "UDP"@) ==> (r matches Some(d)
            ==> d.protocol@ == "UDP"@),
        (proto_filter matches Some(f) && unicode_upper(trim(f@)) == "ICMP"@) ==> (r matches Some(d)
            ==> d.protocol@ == "ICMP"@),
{
    proof {
        match proto_filter {
            Some(f) => lemma_filtered_capture(frame@, f@, timestamp_ms),
            None => {},
        }
    }
    let ip = match decode_ipv4(frame) {
        Some(ip) => ip,
        None => return None,
    };
    match proto_filter {
        Some(f) => {
            if !filter_allows_exec(f, ip.protocol) {
                return None;
            }
        },
        None => {},
    }
    match decode_transport(ip.protocol, ip.payload.as_slice()) {
        Some(t) => Some(build_summary(&ip, t, timestamp_ms, frame.len())),
        None => None,
    }
}

/// The text of an optional string slice.
pub open spec fn option_view(s: Option<&str>) -> Option<Seq<char>> {
    match s {
        Some(x) => Some(x@),
        None => None,
    }
}

/// What the plain sniffer prints for a frame: TCP and UDP only, no filter, and a zero
/// timestamp.
pub open spec fn sniff_summary(frame: Seq<u8>) -> Option<PacketInfo> {
    match frame_ipv4(frame) {
        None => None,
        Some(ip) => if ip.protocol == 6 || ip.protocol == 17 {
            match transport_of(ip.protocol, ip.payload) {
                None => None,
                Some(t) => Some(summary(ip, t, 0, frame.len())),
            }
        } else {
            None
        },
    }
}

/// Summarises a captured frame for the plain sniffer (see [`sniff_summary`]).
pub fn parse_packet_tcp_udp(frame: &[u8]) -> (r: Option<PacketData>)
    ensures
        match (r, sniff_summary(frame@)) {
            (None, None) => true,
            (Some(d), Some(v)) => d@ == v,
            _ => false,
        },
{
    let ip = match decode_ipv4(frame) {
        Some(ip) => ip,
        None => return None,
    };
    if ip.protocol != PROTO_TCP && ip.protocol != PROTO_UDP {
        return None;
    }
    match decode_transport(ip.protocol, ip.payload.as_slice()) {
        Some(t) => Some(build_summary(&ip, t, 0, frame.len())),
        None => None,
    }
}

/// The line the `sniff` command prints for its `count`-th packet:
/// `[count] src:port -> dst:port | PROTO | N bytes`.
pub open spec fn sniff_line_text(count: nat, d: PacketInfo) -> Seq<char> {
    "["@ + dec(count) + "] "@ + d.source + ":"@ + dec(d.source_port as nat) + " -> "@
        + d.destination + ":"@ + dec(d.dest_port as nat) + " | "@ + d.protocol + " | "@ + dec(
        d.length,
    ) + " bytes"@
}

/// Executable form of [`sniff_line_text`].
pub fn sniff_line(count: u64, d: &PacketData) -> (out: String)
    ensures
        out@ == sniff_line_text(count as nat, d@),
{
    let mut s = to_owned_string("[");
    push_dec(&mut s, count);
    push_str(&mut s, "] ");
    push_str(&mut s, d.source.as_str());
    push_str(&mut s, ":");
    push_dec(&mut s, d.source_port as u64);
    push_str(&mut s, " -> ");
    push_str(&mut s, d.destination.as_str());
    push_str(&mut s, ":");
    push_dec(&mut s, d.dest_port as u64);
    push_str(&mut s, " | ");
    push_str(&mut s, d.protocol.as_str());
    push_str(&mut s, " | ");
    push_dec(&mut s, d.length as u64);
    push_str(&mut s, " bytes");
    s
}

/// The plain sniffer reports exactly what the live capture reports without a filter at
/// time zero, except ICMP packets, which it leaves out.
pub proof fn lemma_sniff_is_capture_without_control(frame: Seq<u8>)
    ensures
        sniff_summary(frame) == (match capture_summary(frame, None, 0) {
            Some(s) => if s.protocol == "ICMP"@ {
                None
            } else {
                Some(s)
            },
            None => None,
        }),
{
    reveal_strlit("ICMP");
    reveal_strlit("TCP");
    reveal_strlit("UDP");
    match frame_ipv4(frame) {
        None => {},
        Some(ip) => {
            if ip.protocol == 1 {
                if let Some(t) = transport_of(ip.protocol, ip.payload) {
                    assert(summary(ip, t, 0, frame.len()).protocol == "ICMP"@);
                }
            } else if ip.protocol == 6 || ip.protocol == 17 {
                if let Some(t) = transport_of(ip.protocol, ip.payload) {
                    assert(summary(ip, t, 0, frame.len()).protocol != "ICMP"@) by {
                        assert("TCP"@.len() == 3 && "ICMP"@.len() == 4);
                    }
                }
            }
        },
    }
}

/// A protocol filter selects exactly its protocol: `TCP` (in any case, with any
/// surrounding whitespace) lets only protocol 6 through, `UDP` only 17, `ICMP` only 1,
/// and any other filter lets everything through.
pub proof fn lemma_filter_selects_protocol(filter: Seq<char>, protocol: u8)
    ensures
        unicode_upper(trim(filter)) == "TCP"@ ==> (filter_allows(filter, protocol) <==> protocol
            == 6),
        unicode_upper(trim(filter)) == "UDP"@ ==> (filter_allows(filter, protocol) <==> protocol
            == 17),
        unicode_upper(trim(filter)) == "ICMP"@ ==> (filter_allows(filter, protocol) <==> protocol
            == 1),
        unicode_upper(trim(filter)) != "TCP"@ && unicode_upper(trim(filter)) != "UDP"@
            && unicode_upper(trim(filter)) != "ICMP"@ ==> filter_allows(filter, protocol),
{
    reveal_strlit("TCP");
    reveal_strlit("UDP");
    reveal_strlit("ICMP");
    assert("TCP"@ != "UDP"@) by {
        assert("TCP"@[0] != "UDP"@[0]);
    }
    assert("TCP"@ != "ICMP"@) by {
        assert("TCP"@.len() != "ICMP"@.len());
    }
    assert("UDP"@ != "ICMP"@) by {
        assert("UDP"@.len() != "ICMP"@.len());
    }
}

/// Under a protocol filter, the live capture reports only packets of the selected
/// protocol, named as such: with `TCP` every summary is a TCP summary of a protocol-6
/// packet, with `UDP` a UDP one of protocol 17, with `ICMP` an ICMP one of protocol 1.
pub proof fn lemma_filtered_capture(frame: Seq<u8>, filter: Seq<char>, timestamp_ms: u64)
    ensures
        unicode_upper(trim(filter)) == "TCP"@ ==> (capture_summary(frame, Some(filter), timestamp_ms)
            matches Some(s) ==> frame_ipv4(frame)->0.protocol == 6 && s.protocol == "TCP"@),
        unicode_upper(trim(filter)) == "UDP"@ ==> (capture_summary(frame, Some(filter), timestamp_ms)
            matches Some(s) ==> frame_ipv4(frame)->0.protocol == 17 && s.protocol == "UDP"@),
        unicode_upper(trim(filter)) == "ICMP"@ ==> (capture_summary(frame, Some(filter), timestamp_ms)
            matches Some(s) ==> frame_ipv4(frame)->0.protocol == 1 && s.protocol == "ICMP"@),
{
    match frame_ipv4(frame) {
        None => {},
        Some(ip) => {
            lemma_filter_selects_protocol(filter, ip.protocol);
        },
    }
}

proof fn lemma_concat_contains(a: Seq<Seq<char>>, b: Seq<Seq<char>>, x: Seq<char>)
    ensures
        (a + b).contains(x) <==> a.contains(x) || b.contains(x),
{
    if (a + b).contains(x) {
        let k = choose|k: int| 0 <= k < (a + b).len() && (a + b)[k] == x;
        if k < a.len() {
            assert(a[k] == x);
        } else {
            assert(b[k - a.len()] == x);
        }
    }
    if a.contains(x) {
        let k = choose|k: int| 0 <= k < a.len() && a[k] == x;
        assert((a + b)[k] == x);
    }
    if b.contains(x) {
        let k = choose|k: int| 0 <= k < b.len() && b[k] == x;
        assert((a + b)[a.len() + k] == x);
    }
}

proof fn lemma_opt_contains(present: bool, name: Seq<char>, x: Seq<char>)
    ensures
        (if present {
            seq![name]
        } else {
            Seq::<Seq<char>>::empty()
        }).contains(x) <==> present && name == x,
{
    if present {
        assert(seq![name][0] == name);
    }
}

proof fn lemma_names_contain(f: u8, x: Seq<char>)
    ensures
        tcp_flag_names(f).contains(x) <==> ((x == "SYN-ACK"@ && f & 0x02 != 0 && f & 0x10 != 0)
            || (x == "SYN"@ && f & 0x02 != 0 && f & 0x10 == 0) || (x == "ACK"@ && f & 0x10 != 0)
            || (x == "PSH"@ && f & 0x08 != 0) || (x == "FIN"@ && f & 0x01 != 0) || (x == "RST"@
            && f & 0x04 != 0)),
{
    let syn = f & 0x02 != 0;
    let ack = f & 0x10 != 0;
    let q1: Seq<Seq<char>> = if syn && ack { seq!["SYN-ACK"@] } else { Seq::empty() };
    let q2: Seq<Seq<char>> = if syn && !ack { seq!["SYN"@] } else { Seq::empty() };
    let p2: Seq<Seq<char>> = if ack { seq!["ACK"@] } else { Seq::empty() };
    let p3: Seq<Seq<char>> = if f & 0x08 != 0 { seq!["PSH"@] } else { Seq::empty() };
    let p4: Seq<Seq<char>> = if f & 0x01 != 0 { seq!["FIN"@] } else { Seq::empty() };
    let p5: Seq<Seq<char>> = if f & 0x04 != 0 { seq!["RST"@] } else { Seq::empty() };
    let p1 = q1 + q2;
    assert(tcp_flag_names(f) =~= p1 + p2 + p3 + p4 + p5);
    lemma_concat_contains(p1 + p2 + p3 + p4, p5, x);
    lemma_concat_contains(p1 + p2 + p3, p4, x);
    lemma_concat_contains(p1 + p2, p3, x);
    lemma_concat_contains(p1, p2, x);
    lemma_concat_contains(q1, q2, x);
    lemma_opt_contains(syn && ack, "SYN-ACK"@, x);
    lemma_opt_contains(syn && !ack, "SYN"@, x);
    lemma_opt_contains(ack, "ACK"@, x);
    lemma_opt_contains(f & 0x08 != 0, "PSH"@, x);
    lemma_opt_contains(f & 0x01 != 0, "FIN"@, x);
    lemma_opt_contains(f & 0x04 != 0, "RST"@, x);
}

/// The flag names of a TCP segment list exactly the flags it carries: SYN-ACK when both
/// SYN and ACK are set, SYN when only SYN is, and ACK, PSH, FIN and RST each when set; a
/// segment with none of them is shown as DATA.
pub proof fn lemma_tcp_flag_names(f: u8)
    ensures
        tcp_flag_names(f).contains("SYN-ACK"@) <==> (f & 0x02 != 0 && f & 0x10 != 0),
        tcp_flag_names(f).contains("SYN"@) <==> (f & 0x02 != 0 && f & 0x10 == 0),
        tcp_flag_names(f).contains("ACK"@) <==> f & 0x10 != 0,
        tcp_flag_names(f).contains("PSH"@) <==> f & 0x08 != 0,
        tcp_flag_names(f).contains("FIN"@) <==> f & 0x01 != 0,
        tcp_flag_names(f).contains("RST"@) <==> f & 0x04 != 0,
        (f & 0x02 == 0 && f & 0x10 == 0 && f & 0x08 == 0 && f & 0x01 == 0 && f & 0x04 == 0)
            ==> tcp_flags_text(f) == "DATA"@,
{
    reveal_strlit("SYN-ACK");
    reveal_strlit("SYN");
    reveal_strlit("ACK");
    reveal_strlit("PSH");
    reveal_strlit("FIN");
    reveal_strlit("RST");
    assert("SYN-ACK"@.len() == 7 && "SYN"@.len() == 3);
    assert("SYN"@[0] == 'S' && "ACK"@[0] == 'A' && "PSH"@[0] == 'P' && "FIN"@[0] == 'F'
        && "RST"@[0] == 'R');
    lemma_names_contain(f, "SYN-ACK"@);
    lemma_names_contain(f, "SYN"@);
    lemma_names_contain(f, "ACK"@);
    lemma_names_contain(f, "PSH"@);
    lemma_names_contain(f, "FIN"@);
    lemma_names_contain(f, "RST"@);
}

} // verus!
