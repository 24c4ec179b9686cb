//! The dashboard's model: panel focus, keyboard commands, interface selection, and the
//! traffic statistics built from captured packets. Drawing and terminal handling are
//! the front end's; it feeds events in and reads the model out.
use vstd::prelude::*;
use crate::sniffer::{
    decode_ipv4, decode_transport, frame_ipv4, ipv4_text, push_ipv4, transport_of, Ipv4View,
    Transport,
};
use crate::sorting::{
    distinct_keys, insertion_sort, insert_sorted, lemma_insert_sorted_at, lemma_insertion_sort_keys,
    lemma_insertion_sort_props, total_preorder,
};
use crate::text::{chars_of, dec, push_char, push_dec, push_str, string_of, to_owned_string};

verus! {

// ---------------------------------------------------------------------------
// Panels and keys
// ---------------------------------------------------------------------------

/// The panel that has the keyboard focus.
#[derive(Clone, Copy, Debug)]
pub enum FocusPanel {
    Interfaces,
    Graph,
    Packets,
    Hosts,
    Connections,
}

impl FocusPanel {
    /// The panel that Tab moves the focus to.
    pub open spec fn following(self) -> FocusPanel {
        match self {
            FocusPanel::Interfaces => FocusPanel::Graph,
            FocusPanel::Graph => FocusPanel::Packets,
            FocusPanel::Packets => FocusPanel::Hosts,
            FocusPanel::Hosts => FocusPanel::Connections,
            FocusPanel::Connections => FocusPanel::Interfaces,
        }
    }

    /// The next panel in Tab order; after the last comes the first.
    pub fn next(self) -> (r: FocusPanel)
        ensures
            r == self.following(),
    {
        match self {
            FocusPanel::Interfaces => FocusPanel::Graph,
            FocusPanel::Graph => FocusPanel::Packets,
            FocusPanel::Packets => FocusPanel::Hosts,
            FocusPanel::Hosts => FocusPanel::Connections,
            FocusPanel::Connections => FocusPanel::Interfaces,
        }
    }
}

/// Pressing Tab five times brings the focus back to where it was, and every panel is
/// reached on the way.
pub proof fn lemma_focus_cycle(p: FocusPanel)
    ensures
        p.following().following().following().following().following() == p,
        p.following() != p,
{
}

/// A key press, as far as the dashboard tells keys apart.
#[derive(Clone, Copy, Debug)]
pub enum Key {
    Char(char),
    Tab,
    Up,
    Down,
    Enter,
    Esc,
    Other,
}

/// What the front end must do after a key press.
#[derive(Clone, Copy, Debug)]
pub enum KeyAction {
    /// Nothing beyond the state change.
    Nothing,
    /// Leave the dashboard.
    Quit,
    /// Hand the key to the filter input box.
    EditFilter,
    /// The selected interface changed: restart the capture on it.
    RestartCapture,
}

/// The dashboard's interface state.
pub struct UiState {
    pub paused: bool,
    pub show_help: bool,
    pub sorting_desc: bool,
    pub filter_mode: bool,
    pub focus: FocusPanel,
    pub selected: Option<usize>,
    pub interface_count: usize,
    pub last_error: Option<String>,
}

/// The selection after moving down: the next interface, wrapping to the first.
pub open spec fn select_next(selected: Option<usize>, count: usize) -> Option<usize> {
    if count == 0 {
        selected
    } else {
        match selected {
            Some(i) => if i + 1 < count {
                Some((i + 1) as usize)
            } else {
                Some(0)
            },
            None => Some(0),
        }
    }
}

/// The selection after moving up: the previous interface, wrapping to the last.
pub open spec fn select_prev(selected: Option<usize>, count: usize) -> Option<usize> {
    if count == 0 {
        selected
    } else {
        match selected {
            Some(i) => if i == 0 {
                Some((count - 1) as usize)
            } else {
                Some((i - 1) as usize)
            },
            None => Some((count - 1) as usize),
        }
    }
}

impl UiState {
    /// The state on start: live, sorting descending, focus on the interface list, the
    /// first interface selected when there is one.
    pub fn new(interface_count: usize) -> (s: UiState)
        ensures
            !s.paused && !s.show_help && s.sorting_desc && !s.filter_mode,
            s.focus == FocusPanel::Interfaces,
            s.selected == (if interface_count > 0 { Some(0usize) } else { None }),
            s.interface_count == interface_count,
            s.last_error is None,
    {
        UiState {
            paused: false,
            show_help: false,
            sorting_desc: true,
            filter_mode: false,
            focus: FocusPanel::Interfaces,
            selected: if interface_count > 0 {
                Some(0)
            } else {
                None
            },
            interface_count,
            last_error: None,
        }
    }

    /// Selects the next interface (see [`select_next`]).
    pub fn next_interface(&mut self)
        ensures
            final(self).selected == select_next(old(self).selected, old(self).interface_count),
            final(self).interface_count == old(self).interface_count,
            final(self).paused == old(self).paused,
            final(self).show_help == old(self).show_help,
            final(self).sorting_desc == old(self).sorting_desc,
            final(self).filter_mode == old(self).filter_mode,
            final(self).focus == old(self).focus,
            final(self).last_error == old(self).last_error,
    {
        if self.interface_count == 0 {
            return;
        }
        let next = match self.selected {
            Some(i) => if i < self.interface_count - 1 {
                i + 1
            } else {
                0
            },
            None => 0,
        };
        self.selected = Some(next);
    }

    /// Selects the previous interface (see [`select_prev`]).
    pub fn prev_interface(&mut self)
        ensures
            final(self).selected == select_prev(old(self).selected, old(self).interface_count),
            final(self).interface_count == old(self).interface_count,
            final(self).paused == old(self).paused,
            final(self).show_help == old(self).show_help,
            final(self).sorting_desc == old(self).sorting_desc,
            final(self).filter_mode == old(self).filter_mode,
            final(self).focus == old(self).focus,
            final(self).last_error == old(self).last_error,
    {
        if self.interface_count == 0 {
            return;
        }
        let prev = match self.selected {
            Some(i) => if i == 0 {
                self.interface_count - 1
            } else {
                i - 1
            },
            None => self.interface_count - 1,
        };
        self.selected = Some(prev);
    }

    /// Applies a key press: in filter mode Enter and Esc leave the filter and any other
    /// key edits it; otherwise `q` quits, Tab moves the focus, `p` pauses or resumes,
    /// `?` toggles help, `f` opens the filter, `s` flips the sort order, and Down/`j`
    /// or Up/`k` change the interface and restart the capture.
    pub fn handle_key(&mut self, key: Key) -> (action: KeyAction)
        ensures
            old(self).filter_mode ==> match key {
                Key::Enter | Key::Esc => action == KeyAction::Nothing && *final(self) == (UiState {
                    filter_mode: false,
                    ..*old(self)
                }),
                _ => action == KeyAction::EditFilter && *final(self) == *old(self),
            },
            !old(self).filter_mode ==> match key {
                Key::Char('q') => action == KeyAction::Quit && *final(self) == *old(self),
                Key::Tab => action == KeyAction::Nothing && *final(self) == (UiState {
                    focus: old(self).focus.following(),
                    ..*old(self)
                }),
                Key::Char('p') => action == KeyAction::Nothing && *final(self) == (UiState {
                    paused: !old(self).paused,
                    ..*old(self)
                }),
                Key::Char('?') => action == KeyAction::Nothing && *final(self) == (UiState {
                    show_help: !old(self).show_help,
                    ..*old(self)
                }),
                Key::Char('f') => action == KeyAction::Nothing && *final(self) == (UiState {
                    filter_mode: true,
                    ..*old(self)
                }),
                Key::Char('s') => action == KeyAction::Nothing && *final(self) == (UiState {
                    sorting_desc: !old(self).sorting_desc,
                    ..*old(self)
                }),
                Key::Down | Key::Char('j') => action == KeyAction::RestartCapture && *final(self)
                    == (UiState {
                    selected: select_next(old(self).selected, old(self).interface_count),
                    ..*old(self)
                }),
                Key::Up | Key::Char('k') => action == KeyAction::RestartCapture && *final(self)
                    == (UiState {
                    selected: select_prev(old(self).selected, old(self).interface_count),
                    ..*old(self)
                }),
                _ => action == KeyAction::Nothing && *final(self) == *old(self),
            },
    {
        if self.filter_mode {
            return match key {
                Key::Enter | Key::Esc => {
                    self.filter_mode = false;
                    KeyAction::Nothing
                },
                _ => KeyAction::EditFilter,
            };
        }
        match key {
            Key::Char('q') => KeyAction::Quit,
            Key::Tab => {
                self.focus = self.focus.next();
                KeyAction::Nothing
            },
            Key::Char('p') => {
                self.paused = !self.paused;
                KeyAction::Nothing
            },
            Key::Char('?') => {
                self.show_help = !self.show_help;
                KeyAction::Nothing
            },
            Key::Char('f') => {
                self.filter_mode = true;
                KeyAction::Nothing
            },
            Key::Char('s') => {
                self.sorting_desc = !self.sorting_desc;
                KeyAction::Nothing
            },
            Key::Down | Key::Char('j') => {
                self.next_interface();
                KeyAction::RestartCapture
            },
            Key::Up | Key::Char('k') => {
                self.prev_interface();
                KeyAction::RestartCapture
            },
            _ => KeyAction::Nothing,
        }
    }
}

/// Moving down and then up returns to the interface that was selected.
pub proof fn lemma_next_prev(selected: usize, count: usize)
    requires
        selected < count,
    ensures
        select_prev(select_next(Some(selected), count), count) == Some(selected),
        select_next(select_prev(Some(selected), count), count) == Some(selected),
{
}

/// Text shortened to `n` characters: longer text keeps its first `n - 3` characters
/// (none when `n < 3`) followed by `...`.
pub open spec fn truncated(s: Seq<char>, n: nat) -> Seq<char> {
    if s.len() <= n {
        s
    } else {
        s.take(if n >= 3 { n - 3 } else { 0 }) + "..."@
    }
}

/// Shortens text for a column of `n` characters (see [`truncated`]).
pub fn truncate(s: &str, n: usize) -> (out: String)
    ensures
        out@ == truncated(s@, n as nat),
{
    let cs = chars_of(s);
    if cs.len() <= n {
        assert(cs@.subrange(0, cs@.len() as int) =~= s@);
        return string_of(&cs, 0, cs.len());
    }
    let keep = if n >= 3 {
        n - 3
    } else {
        0
    };
    let mut out = string_of(&cs, 0, keep);
    push_str(&mut out, "...");
    assert(cs@.subrange(0, keep as int) =~= s@.take(keep as int));
    out
}

// ---------------------------------------------------------------------------
// Packet events
// ---------------------------------------------------------------------------

/// Which way a packet went relative to this machine.
#[derive(Clone, Copy, Debug)]
pub enum DirectionKind {
    Upload,
    Download,
    Other,
}

/// What the dashboard learns from one captured packet.
pub struct PacketEvent {
    pub proto: String,
    pub src: String,
    pub dst: String,
    pub size: u64,
    pub state: String,
    pub endpoint: String,
    pub remote_host: String,
    pub direction: DirectionKind,
}

/// The content of a [`PacketEvent`], with its strings as character sequences.
pub struct EventInfo {
    pub proto: Seq<char>,
    pub src: Seq<char>,
    pub dst: Seq<char>,
    pub size: u64,
    pub state: Seq<char>,
    pub endpoint: Seq<char>,
    pub remote_host: Seq<char>,
    pub direction: DirectionKind,
}

impl View for PacketEvent {
    type V = EventInfo;

    open spec fn view(&self) -> EventInfo {
        EventInfo {
            proto: self.proto@,
            src: self.src@,
            dst: self.dst@,
            size: self.size,
            state: self.state@,
            endpoint: self.endpoint@,
            remote_host: self.remote_host@,
            direction: self.direction,
        }
    }
}

/// The state a TCP segment shows: the first of SYN-ACK, SYN, FIN, RST, PSH and ACK that
/// its flags carry, or DATA.
pub open spec fn tcp_state_of(f: u8) -> Seq<char> {
    if f & 0x02 != 0 && f & 0x10 != 0 {
        "SYN-ACK"@
    } else if f & 0x02 != 0 {
        "SYN"@
    } else if f & 0x01 != 0 {
        "FIN"@
    } else if f & 0x04 != 0 {
        "RST"@
    } else if f & 0x08 != 0 {
        "PSH"@
    } else if f & 0x10 != 0 {
        "ACK"@
    } else {
        "DATA"@
    }
}

/// The connection state of a TCP segment (see [`tcp_state_of`]).
pub fn tcp_state(f: u8) -> (s: String)
    ensures
        s@ == tcp_state_of(f),
        f & 0x02 == 0 && f & 0x01 == 0 && f & 0x04 != 0 ==> s@ == "RST"@,
        f & 0x02 != 0 && f & 0x10 != 0 ==> s@ == "SYN-ACK"@,
        f & 0x02 == 0 && f & 0x01 == 0 && f & 0x04 == 0 && f & 0x08 == 0 && f & 0x10 == 0
            ==> s@ == "DATA"@,
{
    if f & 0x02 != 0 && f & 0x10 != 0 {
        to_owned_string("SYN-ACK")
    } else if f & 0x02 != 0 {
        to_owned_string("SYN")
    } else if f & 0x01 != 0 {
        to_owned_string("FIN")
    } else if f & 0x04 != 0 {
        to_owned_string("RST")
    } else if f & 0x08 != 0 {
        to_owned_string("PSH")
    } else if f & 0x10 != 0 {
        to_owned_string("ACK")
    } else {
        to_owned_string("DATA")
    }
}

/// An address with its port (`a.b.c.d:p`), or the address alone when the port is 0.
pub open spec fn endpoint_text(ip: u32, port: u16) -> Seq<char> {
    if port > 0 {
        ipv4_text(ip) + ":"@ + dec(port as nat)
    } else {
        ipv4_text(ip)
    }
}

fn endpoint_string(ip: u32, port: u16) -> (s: String)
    ensures
        s@ == endpoint_text(ip, port),
{
    let mut s = String::new();
    push_ipv4(&mut s, ip);
    if port > 0 {
        push_str(&mut s, ":");
        push_dec(&mut s, port as u64);
    }
    assert(s@ =~= endpoint_text(ip, port));
    s
}

/// The direction of a packet: upload when only the source is local, download when
/// only the destination is.
pub open spec fn direction_of(src: u32, dst: u32, local: Seq<u32>) -> DirectionKind {
    if local.contains(src) && !local.contains(dst) {
        DirectionKind::Upload
    } else if local.contains(dst) && !local.contains(src) {
        DirectionKind::Download
    } else {
        DirectionKind::Other
    }
}

/// The event for a packet: both ends as text, and the remote end (the destination
/// unless the packet was downloaded) as host and endpoint.
pub open spec fn event_of(
    proto: Seq<char>,
    src: u32,
    dst: u32,
    src_port: u16,
    dst_port: u16,
    state: Seq<char>,
    size: u64,
    local: Seq<u32>,
) -> EventInfo {
    let d = direction_of(src, dst, local);
    EventInfo {
        proto,
        src: endpoint_text(src, src_port),
        dst: endpoint_text(dst, dst_port),
        size,
        state,
        endpoint: match d {
            DirectionKind::Download => endpoint_text(src, src_port),
            _ => endpoint_text(dst, dst_port),
        },
        remote_host: match d {
            DirectionKind::Download => ipv4_text(src),
            _ => ipv4_text(dst),
        },
        direction: d,
    }
}

fn contains_u32(v: &Vec<u32>, x: u32) -> (b: bool)
    ensures
        b == v@.contains(x),
{
    let mut i: usize = 0;
    while i < v.len()
        invariant
            i <= v@.len(),
            forall|k: int| 0 <= k < i ==> v@[k] != x,
        decreases v@.len() - i,
    {
        if v[i] == x {
            assert(v@[i as int] == x);
            return true;
        }
        i = i + 1;
    }
    false
}

/// Builds the event for a packet between two IPv4 addresses; `local_ips` are this
/// machine's IPv4 addresses (see [`event_of`]).
pub fn build_event(
    proto: &str,
    src_ip: u32,
    dst_ip: u32,
    src_port: u16,
    dst_port: u16,
    state: String,
    size: u64,
    local_ips: &Vec<u32>,
) -> (r: Option<PacketEvent>)
    ensures
        r matches Some(e) && e@ == event_of(
            proto@,
            src_ip,
            dst_ip,
            src_port,
            dst_port,
            state@,
            size,
            local_ips@,
        ),
{
    let src_local = contains_u32(local_ips, src_ip);
    let dst_local = contains_u32(local_ips, dst_ip);
    let (direction, remote_host, endpoint) = if src_local && !dst_local {
        (DirectionKind::Upload, crate::sniffer::ipv4_string(dst_ip), endpoint_string(dst_ip, dst_port))
    } else if dst_local && !src_local {
        (DirectionKind::Download, crate::sniffer::ipv4_string(src_ip), endpoint_string(src_ip, src_port))
    } else {
        (DirectionKind::Other, crate::sniffer::ipv4_string(dst_ip), endpoint_string(dst_ip, dst_port))
    };
    Some(
        PacketEvent {
            proto: to_owned_string(proto),
            src: endpoint_string(src_ip, src_port),
            dst: endpoint_string(dst_ip, dst_port),
            size,
            state,
            endpoint,
            remote_host,
            direction,
        },
    )
}

/// The state text of an ICMP packet: its type as `IcmpType(<n>)`.
pub open spec fn control_state_of(t: u8) -> Seq<char> {
    "IcmpType("@ + dec(t as nat) + ")"@
}

/// The event the dashboard draws from a captured frame: IPv4 with a complete TCP, UDP or
/// ICMP header; UDP shows state ACTIVE, ICMP its type and no ports.
pub open spec fn dashboard_event(frame: Seq<u8>, local: Seq<u32>) -> Option<EventInfo> {
    match frame_ipv4(frame) {
        None => None,
        Some(ip) => match transport_of(ip.protocol, ip.payload) {
            None => None,
            Some(Transport::Tcp { source_port, dest_port, flags }) => Some(
                event_of(
                    "TCP"@,
                    ip.source,
                    ip.destination,
                    source_port,
                    dest_port,
                    tcp_state_of(flags),
                    frame.len() as u64,
                    local,
                ),
            ),
            Some(Transport::Udp { source_port, dest_port }) => Some(
                event_of(
                    "UDP"@,
                    ip.source,
                    ip.destination,
                    source_port,
                    dest_port,
                    "ACTIVE"@,
                    frame.len() as u64,
                    local,
                ),
            ),
            Some(Transport::Control { msg_type, msg_code }) => Some(
                event_of(
                    "ICMP"@,
                    ip.source,
                    ip.destination,
                    0,
                    0,
                    control_state_of(msg_type),
                    frame.len() as u64,
                    local,
                ),
            ),
        },
    }
}

/// Turns a captured frame into a dashboard event (see [`dashboard_event`]).
pub fn parse_packet(frame: &[u8], local_ips: &Vec<u32>) -> (r: Option<PacketEvent>)
    ensures
        match (r, dashboard_event(frame@, local_ips@)) {
            (None, None) => true,
            (Some(e), Some(v)) => e@ == v,
            _ => false,
        },
{
    let ip = match decode_ipv4(frame) {
        Some(ip) => ip,
        None => return None,
    };
    let size = frame.len() as u64;
    match decode_transport(ip.protocol, ip.payload.as_slice()) {
        None => None,
        Some(Transport::Tcp { source_port, dest_port, flags }) => build_event(
            "TCP",
            ip.source,
            ip.destination,
            source_port,
            dest_port,
            tcp_state(flags),
            size,
            local_ips,
        ),
        Some(Transport::Udp { source_port, dest_port }) => build_event(
            "UDP",
            ip.source,
            ip.destination,
            source_port,
            dest_port,
            to_owned_string("ACTIVE"),
            size,
            local_ips,
        ),
        Some(Transport::Control { msg_type, msg_code }) => {
            let mut state = to_owned_string("IcmpType(");
            push_dec(&mut state, msg_type as u64);
            push_str(&mut state, ")");
            build_event("ICMP", ip.source, ip.destination, 0, 0, state, size, local_ips)
        },
    }
}

// ---------------------------------------------------------------------------
// Traffic statistics
// ---------------------------------------------------------------------------

/// How many packet rows the live list keeps.
pub const PACKET_ROWS: usize = 250;

/// How many seconds of upload and download history the graphs show.
pub const HISTORY_LEN: usize = 60;

/// Above this many hosts the host table is pruned ...
pub const HOST_LIMIT: usize = 500;

/// ... to this many, the busiest ones.
pub const HOST_KEEP: usize = 200;

/// Above this many connections the connection table is pruned ...
pub const CONNECTION_LIMIT: usize = 250;

/// ... to this many, the busiest ones.
pub const CONNECTION_KEEP: usize = 120;

/// One row of the live packet list.
pub struct PacketRow {
    pub time: String,
    pub proto: String,
    pub src: String,
    pub dst: String,
    pub bytes: u64,
}

/// Bytes seen to or from one remote host.
pub struct HostTotal {
    pub host: String,
    pub bytes: u64,
}

/// One row of the connection table.
pub struct ConnectionRow {
    pub proto: String,
    pub endpoint: String,
    pub state: String,
    pub bytes: u64,
}

/// A connection row with its key, `proto|endpoint`.
pub struct ConnectionEntry {
    pub key: String,
    pub row: ConnectionRow,
}

/// The content of a [`ConnectionEntry`].
pub struct ConnView {
    pub key: Seq<char>,
    pub proto: Seq<char>,
    pub endpoint: Seq<char>,
    pub state: Seq<char>,
    pub bytes: u64,
}

impl View for HostTotal {
    type V = (Seq<char>, u64);

    open spec fn view(&self) -> (Seq<char>, u64) {
        (self.host@, self.bytes)
    }
}

impl View for ConnectionEntry {
    type V = ConnView;

    open spec fn view(&self) -> ConnView {
        ConnView {
            key: self.key@,
            proto: self.row.proto@,
            endpoint: self.row.endpoint@,
            state: self.row.state@,
            bytes: self.row.bytes,
        }
    }
}

/// The views of the host table.
pub open spec fn hosts_view(v: Seq<HostTotal>) -> Seq<(Seq<char>, u64)> {
    v.map_values(|h: HostTotal| h@)
}

/// The views of the connection table.
pub open spec fn conns_view(v: Seq<ConnectionEntry>) -> Seq<ConnView> {
    v.map_values(|c: ConnectionEntry| c@)
}

/// The first position of key `k` in `keys`, or -1.
pub open spec fn key_pos(keys: Seq<Seq<char>>, k: Seq<char>) -> int
    decreases keys.len(),
{
    if keys.len() == 0 {
        -1
    } else {
        let p = key_pos(keys.drop_last(), k);
        if p >= 0 {
            p
        } else if keys.last() == k {
            keys.len() - 1
        } else {
            -1
        }
    }
}

proof fn lemma_key_pos(keys: Seq<Seq<char>>, k: Seq<char>, i: int)
    requires
        0 <= i <= keys.len(),
        forall|j: int| 0 <= j < i ==> keys[j] != k,
        i == keys.len() || keys[i] == k,
    ensures
        key_pos(keys, k) == (if i == keys.len() { -1 } else { i }),
    decreases keys.len(),
{
    if keys.len() > 0 {
        if i == keys.len() {
            lemma_key_pos(keys.drop_last(), k, i - 1);
        } else if i == keys.len() - 1 {
            lemma_key_pos(keys.drop_last(), k, i);
        } else {
            lemma_key_pos(keys.drop_last(), k, i);
        }
    }
}

/// The busiest first: one entry may precede another when it has at least as many bytes.
pub open spec fn host_desc() -> spec_fn((Seq<char>, u64), (Seq<char>, u64)) -> bool {
    |a: (Seq<char>, u64), b: (Seq<char>, u64)| a.1 >= b.1
}

pub open spec fn conn_desc() -> spec_fn(ConnView, ConnView) -> bool {
    |a: ConnView, b: ConnView| a.bytes >= b.bytes
}

pub open spec fn conn_asc() -> spec_fn(ConnView, ConnView) -> bool {
    |a: ConnView, b: ConnView| a.bytes <= b.bytes
}

/// `n` or `len`, whichever is smaller.
pub open spec fn at_most(len: nat, n: nat) -> nat {
    if len < n {
        len
    } else {
        n
    }
}

/// The host table after `n` bytes for host `k`: added to its total, or a new entry.
pub open spec fn hosts_added(t: Seq<(Seq<char>, u64)>, k: Seq<char>, n: u64) -> Seq<
    (Seq<char>, u64),
> {
    let p = key_pos(t.map_values(|e: (Seq<char>, u64)| e.0), k);
    if p >= 0 {
        t.update(p, (k, (t[p].1 + n) as u64))
    } else {
        t.push((k, n))
    }
}

/// The busiest `keep` hosts, busiest first (ties in table order).
pub open spec fn hosts_pruned(t: Seq<(Seq<char>, u64)>, keep: nat) -> Seq<(Seq<char>, u64)> {
    insertion_sort(t, host_desc()).take(at_most(t.len(), keep) as int)
}

/// The host table after a packet: bytes added, then pruned to the busiest 200 hosts when
/// it has grown past 500.
pub open spec fn hosts_after(t: Seq<(Seq<char>, u64)>, k: Seq<char>, n: u64) -> Seq<
    (Seq<char>, u64),
> {
    let t1 = hosts_added(t, k, n);
    if t1.len() > HOST_LIMIT {
        hosts_pruned(t1, HOST_KEEP as nat)
    } else {
        t1
    }
}

/// The connection table after a packet of `n` bytes on `key`: an existing entry takes
/// the packet's state and adds the bytes; otherwise a new entry is made.
pub open spec fn conns_added(
    t: Seq<ConnView>,
    key: Seq<char>,
    proto: Seq<char>,
    endpoint: Seq<char>,
    state: Seq<char>,
    n: u64,
) -> Seq<ConnView> {
    let p = key_pos(t.map_values(|c: ConnView| c.key), key);
    if p >= 0 {
        t.update(
            p,
            ConnView {
                key: t[p].key,
                proto: t[p].proto,
                endpoint: t[p].endpoint,
                state,
                bytes: (t[p].bytes + n) as u64,
            },
        )
    } else {
        t.push(ConnView { key, proto, endpoint, state, bytes: n })
    }
}

/// The busiest `keep` connections, busiest first (ties in table order).
pub open spec fn conns_pruned(t: Seq<ConnView>, keep: nat) -> Seq<ConnView> {
    insertion_sort(t, conn_desc()).take(at_most(t.len(), keep) as int)
}

/// The connection key of an event: `proto|endpoint`.
pub open spec fn conn_key(e: EventInfo) -> Seq<char> {
    e.proto + "|"@ + e.endpoint
}

/// The connection table after a packet, pruned to the busiest 120 entries when it has
/// grown past 250.
pub open spec fn conns_after(t: Seq<ConnView>, e: EventInfo) -> Seq<ConnView> {
    let t1 = conns_added(t, conn_key(e), e.proto, e.endpoint, e.state, e.size);
    if t1.len() > CONNECTION_LIMIT {
        conns_pruned(t1, CONNECTION_KEEP as nat)
    } else {
        t1
    }
}

/// The live list after a row: appended, and the oldest dropped beyond 250 rows.
pub open spec fn rows_after<T>(rows: Seq<T>, r: T) -> Seq<T> {
    if rows.len() + 1 > PACKET_ROWS {
        rows.push(r).drop_first()
    } else {
        rows.push(r)
    }
}

/// Whether recording a packet keeps every counter within `u64`: the pending upload or
/// download total and the host and connection byte totals it adds to.
pub open spec fn packet_fits(t: Traffic, e: EventInfo) -> bool {
    let hp = key_pos(hosts_view(t.host_totals@).map_values(|h: (Seq<char>, u64)| h.0), e.remote_host);
    let cv = conns_view(t.connections@);
    let cp = key_pos(cv.map_values(|c: ConnView| c.key), conn_key(e));
    &&& (e.direction matches DirectionKind::Upload ==> t.pending_upload + e.size <= 0xffff_ffff_ffff_ffff)
    &&& (e.direction matches DirectionKind::Download ==> t.pending_download + e.size <= 0xffff_ffff_ffff_ffff)
    &&& (hp >= 0 ==> hosts_view(t.host_totals@)[hp].1 + e.size <= 0xffff_ffff_ffff_ffff)
    &&& (cp >= 0 ==> cv[cp].bytes + e.size <= 0xffff_ffff_ffff_ffff)
}

/// The traffic statistics the dashboard draws.
pub struct Traffic {
    pub packets: Vec<PacketRow>,
    pub upload_hist: Vec<u64>,
    pub download_hist: Vec<u64>,
    pub host_totals: Vec<HostTotal>,
    pub connections: Vec<ConnectionEntry>,
    pub pending_upload: u64,
    pub pending_download: u64,
}

fn clone_string(s: &String) -> (r: String)
    ensures
        r@ == s@,
{
    s.clone()
}

/// The position of the entry for `host`, if any.
fn find_host(hosts: &Vec<HostTotal>, host: &String) -> (r: Option<usize>)
    ensures
        match r {
            Some(i) => i < hosts@.len() && hosts@[i as int].host@ == host@ && key_pos(
                hosts_view(hosts@).map_values(|h: (Seq<char>, u64)| h.0),
                host@,
            ) == i,
            None => key_pos(hosts_view(hosts@).map_values(|h: (Seq<char>, u64)| h.0), host@)
                == -1,
        },
{
    let ghost keys = hosts_view(hosts@).map_values(|h: (Seq<char>, u64)| h.0);
    let mut i: usize = 0;
    while i < hosts.len()
        invariant
            i <= hosts@.len(),
            keys == hosts_view(hosts@).map_values(|h: (Seq<char>, u64)| h.0),
            keys.len() == hosts@.len(),
            forall|j: int| 0 <= j < i ==> keys[j] != host@,
        decreases hosts@.len() - i,
    {
        assert(keys[i as int] == hosts@[i as int].host@);
        if hosts[i].host == *host {
            proof {
                lemma_key_pos(keys, host@, i as int);
            }
            return Some(i);
        }
        i = i + 1;
    }
    proof {
        lemma_key_pos(keys, host@, i as int);
    }
    None
}

/// The position of the connection with `key`, if any.
fn find_conn(conns: &Vec<ConnectionEntry>, key: &String) -> (r: Option<usize>)
    ensures
        match r {
            Some(i) => i < conns@.len() && conns@[i as int].key@ == key@ && key_pos(
                conns_view(conns@).map_values(|c: ConnView| c.key),
                key@,
            ) == i,
            None => key_pos(conns_view(conns@).map_values(|c: ConnView| c.key), key@) == -1,
        },
{
    let ghost keys = conns_view(conns@).map_values(|c: ConnView| c.key);
    let mut i: usize = 0;
    while i < conns.len()
        invariant
            i <= conns@.len(),
            keys == conns_view(conns@).map_values(|c: ConnView| c.key),
            keys.len() == conns@.len(),
            forall|j: int| 0 <= j < i ==> keys[j] != key@,
        decreases conns@.len() - i,
    {
        assert(keys[i as int] == conns@[i as int].key@);
        if conns[i].key == *key {
            proof {
                lemma_key_pos(keys, key@, i as int);
            }
            return Some(i);
        }
        i = i + 1;
    }
    proof {
        lemma_key_pos(keys, key@, i as int);
    }
    None
}

/// Sorts host totals busiest first, keeping table order among equal totals.
fn sort_hosts_desc(items: Vec<HostTotal>) -> (out: Vec<HostTotal>)
    ensures
        hosts_view(out@) == insertion_sort(hosts_view(items@), host_desc()),
{
    let ghost orig = hosts_view(items@);
    let total = items.len();
    let mut rest = items;
    let mut out: Vec<HostTotal> = Vec::new();
    let mut i: usize = 0;
    while rest.len() > 0
        invariant
            total == orig.len(),
            i + rest@.len() == orig.len(),
            hosts_view(rest@) == orig.skip(i as int),
            hosts_view(out@) == insertion_sort(orig.take(i as int), host_desc()),
        decreases rest@.len(),
    {
        let ghost before = hosts_view(rest@);
        let x = rest.remove(0);
        assert(before[0] == x@);
        assert(hosts_view(rest@) =~= before.drop_first());
        let mut j = out.len();
        while j > 0 && out[j - 1].bytes < x.bytes
            invariant
                j <= out@.len(),
                forall|k: int| j <= k < out@.len() ==> #[trigger] out@[k].bytes < x.bytes,
            decreases j,
        {
            j = j - 1;
        }
        let ghost sv = hosts_view(out@);
        proof {
            assert forall|k: int| j <= k < sv.len() implies !host_desc()(#[trigger] sv[k], x@) by {
                assert(sv[k] == out@[k]@);
            }
            if j > 0 {
                assert(sv[j - 1] == out@[j - 1]@);
            }
            lemma_insert_sorted_at(sv, x@, host_desc(), j as int);
            assert(orig.take(i + 1).drop_last() =~= orig.take(i as int));
            assert(orig.take(i + 1).last() == x@);
        }
        out.insert(j, x);
        assert(hosts_view(out@) =~= sv.take(j as int).push(orig[i as int]) + sv.skip(j as int));
        i = i + 1;
        assert(hosts_view(rest@) =~= orig.skip(i as int));
    }
    assert(orig.take(i as int) =~= orig);
    out
}

/// Whether an entry with `y` bytes must move past one with `x` bytes.
fn out_of_order(y: u64, x: u64, desc: bool) -> (b: bool)
    ensures
        b == (if desc { y < x } else { y > x }),
{
    if desc {
        y < x
    } else {
        y > x
    }
}

/// Sorts connections by bytes, busiest first when `desc`, otherwise quietest first,
/// keeping table order among equal byte counts.
fn sort_conns(items: Vec<ConnectionEntry>, desc: bool) -> (out: Vec<ConnectionEntry>)
    ensures
        conns_view(out@) == insertion_sort(
            conns_view(items@),
            if desc {
                conn_desc()
            } else {
                conn_asc()
            },
        ),
{
    let ghost leq = if desc {
        conn_desc()
    } else {
        conn_asc()
    };
    let ghost orig = conns_view(items@);
    let total = items.len();
    let mut rest = items;
    let mut out: Vec<ConnectionEntry> = Vec::new();
    let mut i: usize = 0;
    while rest.len() > 0
        invariant
            leq == (if desc { conn_desc() } else { conn_asc() }),
            total == orig.len(),
            i + rest@.len() == orig.len(),
            conns_view(rest@) == orig.skip(i as int),
            conns_view(out@) == insertion_sort(orig.take(i as int), leq),
        decreases rest@.len(),
    {
        let ghost before = conns_view(rest@);
        let x = rest.remove(0);
        assert(before[0] == x@);
        assert(conns_view(rest@) =~= before.drop_first());
        let mut j = out.len();
        while j > 0 && out_of_order(out[j - 1].row.bytes, x.row.bytes, desc)
            invariant
                j <= out@.len(),
                leq == (if desc { conn_desc() } else { conn_asc() }),
                forall|k: int| j <= k < out@.len() ==> !leq(#[trigger] out@[k]@, x@),
            decreases j,
        {
            j = j - 1;
        }
        let ghost sv = conns_view(out@);
        proof {
            assert forall|k: int| j <= k < sv.len() implies !leq(#[trigger] sv[k], x@) by {
                assert(sv[k] == out@[k]@);
            }
            if j > 0 {
                assert(sv[j - 1] == out@[j - 1]@);
            }
            lemma_insert_sorted_at(sv, x@, leq, j as int);
            assert(orig.take(i + 1).drop_last() =~= orig.take(i as int));
            assert(orig.take(i + 1).last() == x@);
        }
        out.insert(j, x);
        assert(conns_view(out@) =~= sv.take(j as int).push(orig[i as int]) + sv.skip(j as int));
        i = i + 1;
        assert(conns_view(rest@) =~= orig.skip(i as int));
    }
    assert(orig.take(i as int) =~= orig);
    out
}

/// Keeps the `keep` busiest hosts (see [`hosts_pruned`]).
pub fn prune_hosts(hosts: &mut Vec<HostTotal>, keep: usize)
    ensures
        hosts_view(final(hosts)@) == hosts_pruned(hosts_view(old(hosts)@), keep as nat),
        distinct_keys(hosts_view(old(hosts)@), host_key()) ==> distinct_keys(
            hosts_view(final(hosts)@),
            host_key(),
        ),
{
    let mut items: Vec<HostTotal> = Vec::new();
    std::mem::swap(&mut items, hosts);
    let mut sorted = sort_hosts_desc(items);
    proof {
        lemma_insertion_sort_len(hosts_view(old(hosts)@), host_desc());
    }
    sorted.truncate(keep);
    assert(hosts_view(sorted@) =~= hosts_pruned(hosts_view(old(hosts)@), keep as nat));
    proof {
        if distinct_keys(hosts_view(old(hosts)@), host_key()) {
            lemma_pruned_distinct(hosts_view(old(hosts)@), host_desc(), host_key(), keep as nat);
        }
    }
    *hosts = sorted;
}

/// Keeps the `keep` busiest connections (see [`conns_pruned`]).
pub fn prune_connections(conns: &mut Vec<ConnectionEntry>, keep: usize)
    ensures
        conns_view(final(conns)@) == conns_pruned(conns_view(old(conns)@), keep as nat),
        distinct_keys(conns_view(old(conns)@), conn_key_of()) ==> distinct_keys(
            conns_view(final(conns)@),
            conn_key_of(),
        ),
{
    let mut items: Vec<ConnectionEntry> = Vec::new();
    std::mem::swap(&mut items, conns);
    let mut sorted = sort_conns(items, true);
    proof {
        lemma_insertion_sort_len(conns_view(old(conns)@), conn_desc());
    }
    sorted.truncate(keep);
    assert(conns_view(sorted@) =~= conns_pruned(conns_view(old(conns)@), keep as nat));
    proof {
        if distinct_keys(conns_view(old(conns)@), conn_key_of()) {
            lemma_pruned_distinct(conns_view(old(conns)@), conn_desc(), conn_key_of(), keep as nat);
        }
    }
    *conns = sorted;
}

proof fn lemma_insertion_sort_len<T>(s: Seq<T>, leq: spec_fn(T, T) -> bool)
    ensures
        insertion_sort(s, leq).len() == s.len(),
    decreases s.len(),
{
    if s.len() > 0 {
        lemma_insertion_sort_len(s.drop_last(), leq);
        lemma_insert_sorted_len(insertion_sort(s.drop_last(), leq), s.last(), leq);
    }
}

proof fn lemma_insert_sorted_len<T>(s: Seq<T>, x: T, leq: spec_fn(T, T) -> bool)
    ensures
        insert_sorted(s, x, leq).len() == s.len() + 1,
    decreases s.len(),
{
    if s.len() > 0 && !leq(s.last(), x) {
        lemma_insert_sorted_len(s.drop_last(), x, leq);
    }
}

/// The content of a packet row.
pub open spec fn row_view(r: PacketRow) -> (Seq<char>, Seq<char>, Seq<char>, Seq<char>, u64) {
    (r.time@, r.proto@, r.src@, r.dst@, r.bytes)
}

/// The contents of the live packet list.
pub open spec fn rows_view(v: Seq<PacketRow>) -> Seq<(Seq<char>, Seq<char>, Seq<char>, Seq<char>, u64)> {
    v.map_values(|r: PacketRow| row_view(r))
}

/// A history of `n` zeros.
pub open spec fn zeros(n: nat) -> Seq<u64> {
    Seq::new(n, |i: int| 0u64)
}

/// A history after one second: the oldest value dropped, the pending count appended.
pub open spec fn rolled(hist: Seq<u64>, pending: u64) -> Seq<u64> {
    hist.drop_first().push(pending)
}

fn zero_history() -> (v: Vec<u64>)
    ensures
        v@ == zeros(HISTORY_LEN as nat),
{
    let mut v: Vec<u64> = Vec::new();
    let mut i: usize = 0;
    while i < HISTORY_LEN
        invariant
            i <= HISTORY_LEN,
            v@ == zeros(i as nat),
        decreases HISTORY_LEN - i,
    {
        v.push(0);
        i = i + 1;
        assert(v@ =~= zeros(i as nat));
    }
    v
}

impl Traffic {
    /// Empty statistics with 60 seconds of zero history.
    pub fn new() -> (t: Traffic)
        ensures
            t.packets@.len() == 0,
            t.upload_hist@ == zeros(HISTORY_LEN as nat),
            t.download_hist@ == zeros(HISTORY_LEN as nat),
            t.host_totals@.len() == 0,
            t.connections@.len() == 0,
            t.pending_upload == 0,
            t.pending_download == 0,
            t.wf(),
    {
        Traffic {
            packets: Vec::new(),
            upload_hist: zero_history(),
            download_hist: zero_history(),
            host_totals: Vec::new(),
            connections: Vec::new(),
            pending_upload: 0,
            pending_download: 0,
        }
    }

    /// Whether [`Traffic::record_packet`] may take `pkt` (see [`packet_fits`]).
    pub fn fits(&self, pkt: &PacketEvent) -> (b: bool)
        ensures
            b == packet_fits(*self, pkt@),
    {
        let up_ok = match pkt.direction {
            DirectionKind::Upload => self.pending_upload <= 0xffff_ffff_ffff_ffff - pkt.size,
            _ => true,
        };
        let down_ok = match pkt.direction {
            DirectionKind::Download => self.pending_download <= 0xffff_ffff_ffff_ffff - pkt.size,
            _ => true,
        };
        let host_ok = match find_host(&self.host_totals, &pkt.remote_host) {
            Some(i) => {
                assert(hosts_view(self.host_totals@)[i as int] == self.host_totals@[i as int]@);
                self.host_totals[i].bytes <= 0xffff_ffff_ffff_ffff - pkt.size
            },
            None => true,
        };
        let key = connection_key(&pkt.proto, &pkt.endpoint);
        let conn_ok = match find_conn(&self.connections, &key) {
            Some(i) => {
                assert(conns_view(self.connections@)[i as int] == self.connections@[i as int]@);
                self.connections[i].row.bytes <= 0xffff_ffff_ffff_ffff - pkt.size
            },
            None => true,
        };
        up_ok && down_ok && host_ok && conn_ok
    }

    /// Records a captured packet: a row in the live list (at most 250, oldest dropped),
    /// its size in the pending upload or download count, and its bytes in the host and
    /// connection tables, which are pruned when they grow too large.
    pub fn record_packet(&mut self, pkt: PacketEvent, time: String)
        requires
            packet_fits(*old(self), pkt@),
        ensures
            rows_view(final(self).packets@) == rows_after(
                rows_view(old(self).packets@),
                (time@, pkt.proto@, pkt.src@, pkt.dst@, pkt.size),
            ),
            final(self).pending_upload == (if pkt.direction is Upload {
                (old(self).pending_upload + pkt.size) as u64
            } else {
                old(self).pending_upload
            }),
            final(self).pending_download == (if pkt.direction is Download {
                (old(self).pending_download + pkt.size) as u64
            } else {
                old(self).pending_download
            }),
            hosts_view(final(self).host_totals@) == hosts_after(
                hosts_view(old(self).host_totals@),
                pkt.remote_host@,
                pkt.size,
            ),
            conns_view(final(self).connections@) == conns_after(
                conns_view(old(self).connections@),
                pkt@,
            ),
            final(self).upload_hist == old(self).upload_hist,
            final(self).download_hist == old(self).download_hist,
            old(self).wf() ==> final(self).wf(),
    {
        let ghost e = pkt@;
        let row = PacketRow {
            time,
            proto: clone_string(&pkt.proto),
            src: clone_string(&pkt.src),
            dst: clone_string(&pkt.dst),
            bytes: pkt.size,
        };
        let ghost old_rows = rows_view(self.packets@);
        self.packets.push(row);
        if self.packets.len() > PACKET_ROWS {
            self.packets.remove(0);
        }
        assert(rows_view(self.packets@) =~= rows_after(old_rows, (time@, e.proto, e.src, e.dst, e.size)));
        match pkt.direction {
            DirectionKind::Upload => {
                self.pending_upload = self.pending_upload + pkt.size;
            },
            DirectionKind::Download => {
                self.pending_download = self.pending_download + pkt.size;
            },
            DirectionKind::Other => {},
        }
        let ghost before = *self;
        self.add_host_bytes(&pkt.remote_host, pkt.size);
        self.add_connection(&pkt);
        proof {
            if old(self).wf() {
                lemma_hosts_after_distinct(hosts_view(before.host_totals@), e.remote_host, e.size);
                lemma_conns_after_distinct(conns_view(before.connections@), e);
            }
        }
    }

    fn add_host_bytes(&mut self, host: &String, size: u64)
        requires
            ({
                let hv = hosts_view(old(self).host_totals@);
                let hp = key_pos(hv.map_values(|h: (Seq<char>, u64)| h.0), host@);
                hp >= 0 ==> hv[hp].1 + size <= 0xffff_ffff_ffff_ffff
            }),
        ensures
            hosts_view(final(self).host_totals@) == hosts_after(
                hosts_view(old(self).host_totals@),
                host@,
                size,
            ),
            final(self).packets == old(self).packets,
            final(self).connections == old(self).connections,
            final(self).upload_hist == old(self).upload_hist,
            final(self).download_hist == old(self).download_hist,
            final(self).pending_upload == old(self).pending_upload,
            final(self).pending_download == old(self).pending_download,
    {
        let ghost hv = hosts_view(self.host_totals@);
        match find_host(&self.host_totals, host) {
            Some(i) => {
                assert(hv[i as int] == self.host_totals@[i as int]@);
                let total = self.host_totals[i].bytes + size;
                let name = clone_string(&self.host_totals[i].host);
                self.host_totals.set(i, HostTotal { host: name, bytes: total });
            },
            None => {
                self.host_totals.push(HostTotal { host: clone_string(host), bytes: size });
            },
        }
        assert(hosts_view(self.host_totals@) =~= hosts_added(hv, host@, size));
        if self.host_totals.len() > HOST_LIMIT {
            prune_hosts(&mut self.host_totals, HOST_KEEP);
        }
    }

    fn add_connection(&mut self, pkt: &PacketEvent)
        requires
            ({
                let cv = conns_view(old(self).connections@);
                let cp = key_pos(cv.map_values(|c: ConnView| c.key), conn_key(pkt@));
                cp >= 0 ==> cv[cp].bytes + pkt.size <= 0xffff_ffff_ffff_ffff
            }),
        ensures
            conns_view(final(self).connections@) == conns_after(
                conns_view(old(self).connections@),
                pkt@,
            ),
            final(self).packets == old(self).packets,
            final(self).host_totals == old(self).host_totals,
            final(self).upload_hist == old(self).upload_hist,
            final(self).download_hist == old(self).download_hist,
            final(self).pending_upload == old(self).pending_upload,
            final(self).pending_download == old(self).pending_download,
    {
        let ghost cv = conns_view(self.connections@);
        let key = connection_key(&pkt.proto, &pkt.endpoint);
        match find_conn(&self.connections, &key) {
            Some(i) => {
                assert(cv[i as int] == self.connections@[i as int]@);
                let entry = &self.connections[i];
                let updated = ConnectionEntry {
                    key: clone_string(&entry.key),
                    row: ConnectionRow {
                        proto: clone_string(&entry.row.proto),
                        endpoint: clone_string(&entry.row.endpoint),
                        state: clone_string(&pkt.state),
                        bytes: entry.row.bytes + pkt.size,
                    },
                };
                self.connections.set(i, updated);
            },
            None => {
                self.connections.push(
                    ConnectionEntry {
                        key,
                        row: ConnectionRow {
                            proto: clone_string(&pkt.proto),
                            endpoint: clone_string(&pkt.endpoint),
                            state: clone_string(&pkt.state),
                            bytes: pkt.size,
                        },
                    },
                );
            },
        }
        assert(conns_view(self.connections@) =~= conns_added(
            cv,
            conn_key(pkt@),
            pkt.proto@,
            pkt.endpoint@,
            pkt.state@,
            pkt.size,
        ));
        if self.connections.len() > CONNECTION_LIMIT {
            prune_connections(&mut self.connections, CONNECTION_KEEP);
        }
    }

    /// Closes one second of history: the pending upload and download counts become the
    /// newest values of the graphs and start again from zero.
    pub fn roll_rate_history(&mut self)
        requires
            old(self).upload_hist@.len() > 0,
            old(self).download_hist@.len() > 0,
        ensures
            final(self).upload_hist@ == rolled(old(self).upload_hist@, old(self).pending_upload),
            final(self).download_hist@ == rolled(
                old(self).download_hist@,
                old(self).pending_download,
            ),
            final(self).pending_upload == 0,
            final(self).pending_download == 0,
            final(self).packets == old(self).packets,
            final(self).host_totals == old(self).host_totals,
            final(self).connections == old(self).connections,
    {
        self.upload_hist.remove(0);
        self.download_hist.remove(0);
        self.upload_hist.push(self.pending_upload);
        self.download_hist.push(self.pending_download);
        self.pending_upload = 0;
        self.pending_download = 0;
        assert(self.upload_hist@ =~= rolled(old(self).upload_hist@, old(self).pending_upload));
        assert(self.download_hist@ =~= rolled(
            old(self).download_hist@,
            old(self).pending_download,
        ));
    }

    /// The `n` busiest hosts, busiest first.
    pub fn top_hosts(&self, n: usize) -> (out: Vec<HostTotal>)
        ensures
            hosts_view(out@) == hosts_pruned(hosts_view(self.host_totals@), n as nat),
    {
        let mut copy: Vec<HostTotal> = Vec::new();
        let mut i: usize = 0;
        while i < self.host_totals.len()
            invariant
                i <= self.host_totals@.len(),
                copy@.len() == i,
                hosts_view(copy@) == hosts_view(self.host_totals@).take(i as int),
            decreases self.host_totals@.len() - i,
        {
            let h = &self.host_totals[i];
            let ghost before = copy@;
            copy.push(HostTotal { host: clone_string(&h.host), bytes: h.bytes });
            assert(copy@ == before.push(copy@.last()));
            assert(copy@.last()@ == self.host_totals@[i as int]@);
            i = i + 1;
            assert forall|k: int| 0 <= k < i implies #[trigger] hosts_view(copy@)[k] == hosts_view(
                self.host_totals@,
            )[k] by {
                if k < i - 1 {
                    assert(hosts_view(before)[k] == hosts_view(self.host_totals@).take(i - 1)[k]);
                }
            }
            assert(hosts_view(copy@) =~= hosts_view(self.host_totals@).take(i as int));
        }
        assert(hosts_view(self.host_totals@).take(i as int) =~= hosts_view(self.host_totals@));
        prune_hosts(&mut copy, n);
        copy
    }

    /// The first `n` connections ordered by bytes, busiest first when `desc` and
    /// quietest first otherwise (ties in table order).
    pub fn top_connections(&self, desc: bool, n: usize) -> (out: Vec<ConnectionEntry>)
        ensures
            conns_view(out@) == insertion_sort(
                conns_view(self.connections@),
                if desc {
                    conn_desc()
                } else {
                    conn_asc()
                },
            ).take(at_most(self.connections@.len(), n as nat) as int),
    {
        let mut copy: Vec<ConnectionEntry> = Vec::new();
        let mut i: usize = 0;
        while i < self.connections.len()
            invariant
                i <= self.connections@.len(),
                copy@.len() == i,
                conns_view(copy@) == conns_view(self.connections@).take(i as int),
            decreases self.connections@.len() - i,
        {
            let c = &self.connections[i];
            let ghost before = copy@;
            copy.push(
                ConnectionEntry {
                    key: clone_string(&c.key),
                    row: ConnectionRow {
                        proto: clone_string(&c.row.proto),
                        endpoint: clone_string(&c.row.endpoint),
                        state: clone_string(&c.row.state),
                        bytes: c.row.bytes,
                    },
                },
            );
            assert(copy@ == before.push(copy@.last()));
            assert(copy@.last()@ == self.connections@[i as int]@);
            i = i + 1;
            assert forall|k: int| 0 <= k < i implies #[trigger] conns_view(copy@)[k] == conns_view(
                self.connections@,
            )[k] by {
                if k < i - 1 {
                    assert(conns_view(before)[k] == conns_view(self.connections@).take(i - 1)[k]);
                }
            }
            assert(conns_view(copy@) =~= conns_view(self.connections@).take(i as int));
        }
        assert(conns_view(self.connections@).take(i as int) =~= conns_view(self.connections@));
        let mut sorted = sort_conns(copy, desc);
        proof {
            lemma_insertion_sort_len(
                conns_view(self.connections@),
                if desc {
                    conn_desc()
                } else {
                    conn_asc()
                },
            );
        }
        sorted.truncate(n);
        assert(conns_view(sorted@) =~= insertion_sort(
            conns_view(self.connections@),
            if desc {
                conn_desc()
            } else {
                conn_asc()
            },
        ).take(at_most(self.connections@.len(), n as nat) as int));
        sorted
    }
}

/// The connection key `proto|endpoint`.
pub fn connection_key(proto: &String, endpoint: &String) -> (k: String)
    ensures
        k@ == proto@ + "|"@ + endpoint@,
{
    let mut k = clone_string(proto);
    push_str(&mut k, "|");
    push_str(&mut k, endpoint.as_str());
    k
}

/// A message from the capture worker.
pub enum DashEvent {
    Packet(PacketEvent),
    Error(String),
}

/// Handles a message from the capture worker: a packet is recorded unless the display
/// is paused; an error becomes the error shown in the footer.
pub fn apply_event(traffic: &mut Traffic, ui: &mut UiState, event: DashEvent, time: String)
    requires
        event matches DashEvent::Packet(p) ==> old(ui).paused || packet_fits(*old(traffic), p@),
    ensures
        old(traffic).wf() ==> final(traffic).wf(),
        match event {
            DashEvent::Packet(p) => {
                &&& *final(ui) == *old(ui)
                &&& old(ui).paused ==> *final(traffic) == *old(traffic)
                &&& !old(ui).paused ==> rows_view(final(traffic).packets@) == rows_after(
                    rows_view(old(traffic).packets@),
                    (time@, p.proto@, p.src@, p.dst@, p.size),
                ) && hosts_view(final(traffic).host_totals@) == hosts_after(
                    hosts_view(old(traffic).host_totals@),
                    p.remote_host@,
                    p.size,
                ) && conns_view(final(traffic).connections@) == conns_after(
                    conns_view(old(traffic).connections@),
                    p@,
                )
            },
            DashEvent::Error(e) => {
                &&& *final(traffic) == *old(traffic)
                &&& final(ui).last_error == Some(e)
                &&& final(ui).paused == old(ui).paused
                &&& final(ui).selected == old(ui).selected
            },
        },
{
    match event {
        DashEvent::Packet(p) => {
            if !ui.paused {
                traffic.record_packet(p, time);
            }
        },
        DashEvent::Error(e) => {
            ui.last_error = Some(e);
        },
    }
}

/// Pruning the host table keeps the busiest hosts: the kept entries are ordered busiest
/// first, no dropped entry had more bytes than a kept one, and at most `keep` remain.
pub proof fn lemma_prune_keeps_busiest(t: Seq<(Seq<char>, u64)>, keep: nat)
    ensures
        hosts_pruned(t, keep).len() == at_most(t.len(), keep),
        forall|i: int, j: int|
            0 <= i < j < insertion_sort(t, host_desc()).len() && i < at_most(t.len(), keep)
                ==> (#[trigger] insertion_sort(t, host_desc())[i]).1 >= (
            #[trigger] insertion_sort(t, host_desc())[j]).1,
        insertion_sort(t, host_desc()).to_multiset() == t.to_multiset(),
{
    assert(total_preorder(host_desc()));
    lemma_insertion_sort_props(t, host_desc());
    let r = insertion_sort(t, host_desc());
    assert forall|i: int, j: int|
        0 <= i < j < r.len() && i < at_most(t.len(), keep) implies (#[trigger] r[i]).1 >= (
        #[trigger] r[j]).1 by {
        assert(host_desc()(r[i], r[j]));
    }
}

/// The dashboard and the live capture accept the same frames: a frame yields a
/// dashboard event exactly when, without a filter, it yields a capture summary, and then
/// both name the same protocol and count the frame's whole length.
pub proof fn lemma_dashboard_matches_capture(frame: Seq<u8>, local: Seq<u32>, timestamp_ms: u64)
    requires
        frame.len() <= u64::MAX,
    ensures
        dashboard_event(frame, local) is Some <==> crate::sniffer::capture_summary(
            frame,
            None,
            timestamp_ms,
        ) is Some,
        dashboard_event(frame, local) matches Some(e) ==> {
            let s = crate::sniffer::capture_summary(frame, None, timestamp_ms)->0;
            &&& e.proto == s.protocol
            &&& e.size == s.length
        },
{
}

/// A shortened text fits its column: for a width of at least three characters the
/// result is never longer than the width, and text that already fits is unchanged.
pub proof fn lemma_truncated_fits(s: Seq<char>, n: nat)
    ensures
        s.len() <= n ==> truncated(s, n) == s,
        n >= 3 ==> truncated(s, n).len() <= n,
        s.len() > n ==> truncated(s, n).len() == (if n >= 3 { n } else { 3 }),
{
    reveal_strlit("...");
}

/// The host of a host-table entry.
pub open spec fn host_key() -> spec_fn((Seq<char>, u64)) -> Seq<char> {
    |e: (Seq<char>, u64)| e.0
}

/// The key of a connection-table entry.
pub open spec fn conn_key_of() -> spec_fn(ConnView) -> Seq<char> {
    |c: ConnView| c.key
}

impl Traffic {
    /// The tables' invariant: each host and each connection key occurs once.
    pub open spec fn wf(self) -> bool {
        &&& distinct_keys(hosts_view(self.host_totals@), host_key())
        &&& distinct_keys(conns_view(self.connections@), conn_key_of())
    }
}

proof fn lemma_key_pos_props(keys: Seq<Seq<char>>, k: Seq<char>)
    ensures
        -1 <= key_pos(keys, k) < keys.len(),
        key_pos(keys, k) >= 0 ==> keys[key_pos(keys, k)] == k,
        key_pos(keys, k) < 0 ==> forall|j: int| 0 <= j < keys.len() ==> keys[j] != k,
    decreases keys.len(),
{
    if keys.len() > 0 {
        lemma_key_pos_props(keys.drop_last(), k);
        assert forall|j: int| 0 <= j < keys.len() - 1 implies keys[j] == keys.drop_last()[j] by {}
    }
}

/// Pruning keeps the keys of a table distinct.
pub proof fn lemma_pruned_distinct<T>(
    t: Seq<T>,
    leq: spec_fn(T, T) -> bool,
    key: spec_fn(T) -> Seq<char>,
    keep: nat,
)
    requires
        distinct_keys(t, key),
    ensures
        distinct_keys(insertion_sort(t, leq).take(at_most(t.len(), keep) as int), key),
{
    lemma_insertion_sort_keys(t, leq, key);
    let r = insertion_sort(t, leq);
    let u = r.take(at_most(t.len(), keep) as int);
    assert forall|i: int, j: int|
        0 <= i < u.len() && 0 <= j < u.len() && i != j implies key(#[trigger] u[i]) != key(
        #[trigger] u[j],
    ) by {
        assert(u[i] == r[i] && u[j] == r[j]);
    }
}

/// Recording a packet keeps each host once in the host table and never lets the table
/// grow past 500 entries.
pub proof fn lemma_hosts_after_distinct(t: Seq<(Seq<char>, u64)>, k: Seq<char>, n: u64)
    requires
        distinct_keys(t, host_key()),
    ensures
        distinct_keys(hosts_after(t, k, n), host_key()),
        t.len() <= HOST_LIMIT ==> hosts_after(t, k, n).len() <= HOST_LIMIT,
{
    let keys = t.map_values(|e: (Seq<char>, u64)| e.0);
    lemma_key_pos_props(keys, k);
    let p = key_pos(keys, k);
    let t1 = hosts_added(t, k, n);
    assert forall|i: int, j: int|
        0 <= i < t1.len() && 0 <= j < t1.len() && i != j implies host_key()(#[trigger] t1[i])
        != host_key()(#[trigger] t1[j]) by {
        if p >= 0 {
            assert(keys[p] == t[p].0);
            assert(t1[i].0 == t[i].0 && t1[j].0 == t[j].0);
        } else {
            if i < t.len() && j < t.len() {
            } else if i < t.len() {
                assert(keys[i] == t[i].0);
            } else {
                assert(keys[j] == t[j].0);
            }
        }
    }
    if t1.len() > HOST_LIMIT {
        lemma_pruned_distinct(t1, host_desc(), host_key(), HOST_KEEP as nat);
        lemma_insertion_sort_props(t1, host_desc());
    }
}

/// Recording a packet keeps each connection key once in the connection table and never
/// lets the table grow past 250 entries.
pub proof fn lemma_conns_after_distinct(t: Seq<ConnView>, e: EventInfo)
    requires
        distinct_keys(t, conn_key_of()),
    ensures
        distinct_keys(conns_after(t, e), conn_key_of()),
        t.len() <= CONNECTION_LIMIT ==> conns_after(t, e).len() <= CONNECTION_LIMIT,
{
    let keys = t.map_values(|c: ConnView| c.key);
    let k = conn_key(e);
    lemma_key_pos_props(keys, k);
    let p = key_pos(keys, k);
    let t1 = conns_added(t, k, e.proto, e.endpoint, e.state, e.size);
    assert forall|i: int, j: int|
        0 <= i < t1.len() && 0 <= j < t1.len() && i != j implies conn_key_of()(#[trigger] t1[i])
        != conn_key_of()(#[trigger] t1[j]) by {
        if p >= 0 {
            assert(t1[i].key == t[i].key && t1[j].key == t[j].key);
        } else {
            if i < t.len() && j < t.len() {
            } else if i < t.len() {
                assert(keys[i] == t[i].key);
            } else {
                assert(keys[j] == t[j].key);
            }
        }
    }
    if t1.len() > CONNECTION_LIMIT {
        lemma_pruned_distinct(t1, conn_desc(), conn_key_of(), CONNECTION_KEEP as nat);
        lemma_insertion_sort_props(t1, conn_desc());
    }
}

/// The live packet list keeps at most 250 rows: a new row is appended and, when the list
/// was full, the oldest row leaves.
pub proof fn lemma_rows_after_bounded<T>(rows: Seq<T>, r: T)
    requires
        rows.len() <= PACKET_ROWS,
    ensures
        rows_after(rows, r).len() <= PACKET_ROWS,
        rows_after(rows, r) == rows.push(r).skip(
            if rows.len() == PACKET_ROWS {
                1int
            } else {
                0int
            },
        ),
{
    assert(rows.push(r).skip(0) =~= rows.push(r));
    assert(rows.push(r).drop_first() =~= rows.push(r).skip(1));
}

/// The state of a TCP segment names the most telling flag it carries: SYN-ACK when SYN
/// and ACK are set, SYN for SYN alone, then FIN, then RST (a bare RST shows RST), then
/// PSH, then ACK; a segment with none of these flags shows DATA.
pub proof fn lemma_tcp_state_flags(f: u8)
    ensures
        f & 0x02 != 0 && f & 0x10 != 0 ==> tcp_state_of(f) == "SYN-ACK"@,
        f & 0x02 != 0 && f & 0x10 == 0 ==> tcp_state_of(f) == "SYN"@,
        f & 0x02 == 0 && f & 0x01 != 0 ==> tcp_state_of(f) == "FIN"@,
        f & 0x02 == 0 && f & 0x01 == 0 && f & 0x04 != 0 ==> tcp_state_of(f) == "RST"@,
        f & 0x02 == 0 && f & 0x01 == 0 && f & 0x04 == 0 && f & 0x08 != 0 ==> tcp_state_of(f)
            == "PSH"@,
        f & 0x02 == 0 && f & 0x01 == 0 && f & 0x04 == 0 && f & 0x08 == 0 && f & 0x10 != 0
            ==> tcp_state_of(f) == "ACK"@,
        f & 0x02 == 0 && f & 0x01 == 0 && f & 0x04 == 0 && f & 0x08 == 0 && f & 0x10 == 0
            ==> tcp_state_of(f) == "DATA"@,
{
}

} // verus!
