//! Port scanning: the port list a range string selects, service names, the OS guess
//! drawn from a ping reply, banner clean-up, ordering of results and report files.
use vstd::prelude::*;
use crate::text::{
    ascii_lower, ascii_lower_is, chars_of, contains_char, dec, find_from, find_str, find_sub, has_prefix,
    has_suffix, is_digit, is_ascii_digit, line_bounds, lines_of, parse_uint, parse_uint_range,
    push_char, push_chars, push_dec, push_str, split_bounds, split_on, string_of, to_lowercase,
    to_owned_string, trim, trim_bounds, unicode_lower, ends_with, join_commas, is_ws,
};
use ipnet::Ipv4Net;
use vstd::arithmetic::power2::pow2;
use crate::sorting::{insert_sorted, insertion_sort, lemma_insert_sorted_at, lemma_insertion_sort_props, total_preorder};

verus! {

/// One open port found by a scan.
pub struct ScanResult {
    pub port: u16,
    pub service: String,
    pub status: String,
    pub banner: Option<String>,
}

/// The outcome of scanning one host.
pub struct HostInfo {
    pub host: String,
    pub open_ports: Vec<ScanResult>,
    pub os_guess: String,
}

/// The outcome of a ping sweep over a subnet.
pub struct SweepResult {
    pub subnet: String,
    pub live_hosts: Vec<String>,
    pub duration_ms: u128,
}

// ---------------------------------------------------------------------------
// Port ranges
// ---------------------------------------------------------------------------

pub open spec fn invalid_port_range() -> Seq<char> {
    "Invalid port range"@
}

pub open spec fn invalid_range_order() -> Seq<char> {
    "Invalid range: start must be <= end"@
}

/// The ports of a comma-separated list, each item trimmed and parsed as a `u16`.
pub open spec fn parse_port_list(items: Seq<Seq<char>>) -> Option<Seq<u16>>
    decreases items.len(),
{
    if items.len() == 0 {
        Some(Seq::empty())
    } else {
        match (parse_port_list(items.drop_last()), parse_uint(trim(items.last()), 65535)) {
            (Some(ports), Some(p)) => Some(ports.push(p as u16)),
            _ => None,
        }
    }
}

/// The ports `start..=end`, in increasing order.
pub open spec fn port_span(start: nat, end: nat) -> Seq<u16> {
    Seq::new((end + 1 - start) as nat, |i: int| (start + i) as u16)
}

/// A span `start-end` selects every port from `start` to `end` once, in increasing order.
pub proof fn lemma_port_span(start: nat, end: nat)
    requires
        start <= end <= 65535,
    ensures
        port_span(start, end).len() == end - start + 1,
        forall|i: int|
            0 <= i < port_span(start, end).len() ==> #[trigger] port_span(start, end)[i] == start + i,
        forall|i: int, j: int|
            0 <= i < j < port_span(start, end).len() ==> #[trigger] port_span(start, end)[i]
                < #[trigger] port_span(start, end)[j],
{
}

/// The ports a range string selects: a comma-separated list (`22,80,443`), an inclusive
/// span (`1-1000`) whose start may not exceed its end, or a single port.
pub open spec fn port_range(s: Seq<char>) -> Result<Seq<u16>, Seq<char>> {
    if s.contains(',') {
        match parse_port_list(split_on(s, ',')) {
            Some(ports) => Ok(ports),
            None => Err(invalid_port_range()),
        }
    } else {
        let parts = split_on(s, '-');
        if parts.len() == 2 {
            match (parse_uint(parts[0], 65535), parse_uint(parts[1], 65535)) {
                (Some(a), Some(b)) => if a > b {
                    Err(invalid_range_order())
                } else {
                    Ok(port_span(a, b))
                },
                _ => Err(invalid_port_range()),
            }
        } else if parts.len() == 1 {
            match parse_uint(s, 65535) {
                Some(p) => Ok(seq![p as u16]),
                None => Err(invalid_port_range()),
            }
        } else {
            Err(invalid_port_range())
        }
    }
}

/// Parses a port range such as `1-1000`, `22,80,443` or `8080` (see [`port_range`]).
pub fn parse_range(s: &str) -> (r: Result<Vec<u16>, String>)
    ensures
        match (r, port_range(s@)) {
            (Ok(v), Ok(p)) => v@ == p,
            (Err(e), Err(m)) => e@ == m,
            _ => false,
        },
{
    let cs = chars_of(s);
    if contains_char(&cs, ',') {
        let pieces = split_bounds(&cs, ',');
        let ghost items = split_on(cs@, ',');
        let mut ports: Vec<u16> = Vec::new();
        let mut k: usize = 0;
        while k < pieces.len()
            invariant
                pieces@.len() == items.len(),
                cs@ == s@,
                s@.contains(','),
                items == split_on(cs@, ','),
                k <= pieces@.len(),
                forall|j: int|
                    0 <= j < pieces@.len() ==> {
                        &&& (#[trigger] pieces@[j]).0 <= pieces@[j].1 <= cs@.len()
                        &&& cs@.subrange(pieces@[j].0 as int, pieces@[j].1 as int) == items[j]
                    },
                parse_port_list(items.take(k as int)) == Some(ports@),
            decreases pieces@.len() - k,
        {
            let (a, b) = pieces[k];
            let (ta, tb) = trim_bounds(&cs, a, b);
            assert(items.take(k + 1).drop_last() =~= items.take(k as int));
            match parse_uint_range(&cs, ta, tb, 65535) {
                Some(p) => {
                    ports.push(p as u16);
                },
                None => {
                    proof {
                        lemma_port_list_prefix(items, k as int + 1);
                    }
                    return Err(to_owned_string("Invalid port range"));
                },
            }
            k = k + 1;
        }
        assert(items.take(k as int) =~= items);
        return Ok(ports);
    }
    let parts = split_bounds(&cs, '-');
    if parts.len() == 2 {
        let (a0, b0) = parts[0];
        let (a1, b1) = parts[1];
        let start = match parse_uint_range(&cs, a0, b0, 65535) {
            Some(v) => v,
            None => return Err(to_owned_string("Invalid port range")),
        };
        let end = match parse_uint_range(&cs, a1, b1, 65535) {
            Some(v) => v,
            None => return Err(to_owned_string("Invalid port range")),
        };
        if start > end {
            return Err(to_owned_string("Invalid range: start must be <= end"));
        }
        let mut ports: Vec<u16> = Vec::new();
        let mut p: u64 = start;
        while p <= end
            invariant
                start <= p <= end + 1,
                end <= 65535,
                ports@ == port_span(start as nat, end as nat).take(p - start),
            decreases end + 1 - p,
        {
            ports.push(p as u16);
            p = p + 1;
            assert(ports@ =~= port_span(start as nat, end as nat).take(p - start));
        }
        assert(ports@ =~= port_span(start as nat, end as nat));
        Ok(ports)
    } else if parts.len() == 1 {
        assert(cs@.subrange(0, cs@.len() as int) =~= cs@);
        match parse_uint_range(&cs, 0, cs.len(), 65535) {
            Some(v) => {
                let mut ports: Vec<u16> = Vec::new();
                ports.push(v as u16);
                assert(ports@ =~= seq![v as u16]);
                Ok(ports)
            },
            None => Err(to_owned_string("Invalid port range")),
        }
    } else {
        Err(to_owned_string("Invalid port range"))
    }
}

proof fn lemma_port_list_prefix(items: Seq<Seq<char>>, k: int)
    requires
        0 <= k <= items.len(),
        parse_port_list(items.take(k)) is None,
    ensures
        parse_port_list(items) is None,
    decreases items.len() - k,
{
    if k < items.len() {
        assert(items.take(k + 1).drop_last() =~= items.take(k));
        lemma_port_list_prefix(items, k + 1);
    } else {
        assert(items.take(k) =~= items);
    }
}

// ---------------------------------------------------------------------------
// Service names
// ---------------------------------------------------------------------------

/// The well-known service on a port, or `-`.
pub open spec fn service_of(port: u16) -> Seq<char> {
    if port == 20 || port == 21 {
        "FTP"@
    } else if port == 22 {
        "SSH"@
    } else if port == 23 {
        "Telnet"@
    } else if port == 25 {
        "SMTP"@
    } else if port == 53 {
        "DNS"@
    } else if port == 80 {
        "HTTP"@
    } else if port == 110 {
        "POP3"@
    } else if port == 143 {
        "IMAP"@
    } else if port == 443 {
        "HTTPS"@
    } else if port == 3306 {
        "MySQL"@
    } else if port == 5432 {
        "PostgreSQL"@
    } else if port == 6379 {
        "Redis"@
    } else if port == 8080 {
        "HTTP-ALT"@
    } else {
        "-"@
    }
}

/// The well-known service on a port (see [`service_of`]).
pub fn service_name(port: u16) -> (name: &'static str)
    ensures
        name@ == service_of(port),
{
    if port == 20 || port == 21 {
        "FTP"
    } else if port == 22 {
        "SSH"
    } else if port == 23 {
        "Telnet"
    } else if port == 25 {
        "SMTP"
    } else if port == 53 {
        "DNS"
    } else if port == 80 {
        "HTTP"
    } else if port == 110 {
        "POP3"
    } else if port == 143 {
        "IMAP"
    } else if port == 443 {
        "HTTPS"
    } else if port == 3306 {
        "MySQL"
    } else if port == 5432 {
        "PostgreSQL"
    } else if port == 6379 {
        "Redis"
    } else if port == 8080 {
        "HTTP-ALT"
    } else {
        "-"
    }
}

/// The record of an open port: its service name, status `open` and the banner.
pub fn open_port(port: u16, banner: Option<String>) -> (r: ScanResult)
    ensures
        r.port == port,
        r.service@ == service_of(port),
        r.status@ == "open"@,
        r.banner == banner,
{
    ScanResult {
        port,
        service: to_owned_string(service_name(port)),
        status: to_owned_string("open"),
        banner,
    }
}

// ---------------------------------------------------------------------------
// OS guess from a ping reply
// ---------------------------------------------------------------------------

/// The digits that follow the first `ttl=` of a text, up to the first non-digit.
pub open spec fn ttl_digits(t: Seq<char>) -> Option<Seq<char>> {
    match find_sub(t, "ttl="@) {
        None => None,
        Some(i) => {
            let rest = t.skip(i + 4);
            Some(rest.take(digit_run(rest) as int))
        },
    }
}

/// The length of the run of ASCII digits at the start of `s`.
pub open spec fn digit_run(s: Seq<char>) -> nat
    decreases s.len(),
{
    if s.len() > 0 && is_digit(s[0]) {
        1 + digit_run(s.drop_first())
    } else {
        0
    }
}

/// The OS family a TTL suggests.
pub open spec fn os_family(ttl: nat) -> Seq<char> {
    if ttl <= 64 {
        "Linux/Unix-like (ttl="@
    } else if ttl <= 128 {
        "Windows-like (ttl="@
    } else {
        "Network device/macOS-like (ttl="@
    }
}

/// The OS guess for the output of a ping: the lower-cased output's first `ttl=` must be
/// followed by a TTL that fits a byte; otherwise the guess is `Unknown`.
pub open spec fn os_guess_of(ping_output: Seq<char>) -> Seq<char> {
    match ttl_digits(unicode_lower(ping_output)) {
        Some(d) => match parse_uint(d, 255) {
            Some(ttl) => os_family(ttl) + dec(ttl) + ")"@,
            None => "Unknown"@,
        },
        None => "Unknown"@,
    }
}

proof fn lemma_digit_run(s: Seq<char>, j: int)
    requires
        0 <= j <= s.len(),
        forall|k: int| 0 <= k < j ==> is_digit(s[k]),
        j == s.len() || !is_digit(s[j]),
    ensures
        digit_run(s) == j,
    decreases s.len(),
{
    if s.len() > 0 && is_digit(s[0]) {
        lemma_digit_run(s.drop_first(), j - 1);
    }
}

/// Guesses the remote OS from the text a ping printed (see [`os_guess_of`]).
pub fn os_guess_from_ping(ping_output: &str) -> (guess: String)
    ensures
        guess@ == os_guess_of(ping_output@),
{
    let lower = to_lowercase(ping_output);
    let cs = chars_of(lower.as_str());
    let start = match find_str(&cs, "ttl=") {
        Some(i) => i,
        None => return to_owned_string("Unknown"),
    };
    proof {
        reveal_strlit("ttl=");
    }
    let n = cs.len();
    assert(start + 4 <= n) by {
        lemma_find_in_bounds(cs@, "ttl="@, 0);
    }
    let from = start + 4;
    let mut end = from;
    while end < cs.len() && is_ascii_digit(cs[end])
        invariant
            from <= end <= cs@.len(),
            forall|k: int| from <= k < end ==> is_digit(cs@[k]),
        decreases cs@.len() - end,
    {
        end = end + 1;
    }
    let ghost rest = cs@.skip(from as int);
    proof {
        lemma_digit_run(rest, end - from);
    }
    assert(cs@.subrange(from as int, end as int) =~= rest.take(end - from));
    match parse_uint_range(&cs, from, end, 255) {
        Some(ttl) => {
            let mut g = if ttl <= 64 {
                to_owned_string("Linux/Unix-like (ttl=")
            } else if ttl <= 128 {
                to_owned_string("Windows-like (ttl=")
            } else {
                to_owned_string("Network device/macOS-like (ttl=")
            };
            push_dec(&mut g, ttl);
            push_str(&mut g, ")");
            g
        },
        None => to_owned_string("Unknown"),
    }
}

proof fn lemma_find_in_bounds(s: Seq<char>, pat: Seq<char>, from: int)
    ensures
        find_from(s, pat, from) matches Some(i) ==> from <= i && i + pat.len() <= s.len(),
    decreases s.len() + 1 - from,
{
    if !(from < 0 || from + pat.len() > s.len()) && s.subrange(from, from + pat.len()) != pat {
        lemma_find_in_bounds(s, pat, from + 1);
    }
}

// ---------------------------------------------------------------------------
// Scan header line
// ---------------------------------------------------------------------------

/// How the scan header shows the ports: a list in brackets when the range was a list,
/// otherwise first and last port (`1` and `1000` when there is none).
pub open spec fn port_description_of(range: Seq<char>, ports: Seq<u16>) -> Seq<char> {
    if range.contains(',') {
        "["@ + join_commas(ports.map_values(|p: u16| dec(p as nat))) + "]"@
    } else {
        dec(
            if ports.len() > 0 {
                ports[0] as nat
            } else {
                1
            },
        ) + "-"@ + dec(
            if ports.len() > 0 {
                ports.last() as nat
            } else {
                1000
            },
        )
    }
}

/// The ports part of the scan header (see [`port_description_of`]).
pub fn port_description(range: &str, ports: &Vec<u16>) -> (out: String)
    ensures
        out@ == port_description_of(range@, ports@),
{
    let cs = chars_of(range);
    if contains_char(&cs, ',') {
        let mut out = to_owned_string("[");
        let ghost start = out@;
        let mut i: usize = 0;
        while i < ports.len()
            invariant
                i <= ports@.len(),
                out@ == start + join_commas(
                    ports@.take(i as int).map_values(|p: u16| dec(p as nat)),
                ),
            decreases ports@.len() - i,
        {
            let ghost items = ports@.take(i as int).map_values(|p: u16| dec(p as nat));
            let ghost next = ports@.take(i + 1).map_values(|p: u16| dec(p as nat));
            assert(next.drop_last() =~= items);
            if i > 0 {
                push_char(&mut out, ',');
            }
            push_dec(&mut out, ports[i] as u64);
            i = i + 1;
            assert(out@ =~= start + join_commas(
                ports@.take(i as int).map_values(|p: u16| dec(p as nat)),
            ));
        }
        assert(ports@.take(i as int) =~= ports@);
        push_str(&mut out, "]");
        out
    } else {
        let first: u64 = if ports.len() > 0 {
            ports[0] as u64
        } else {
            1
        };
        let last: u64 = if ports.len() > 0 {
            ports[ports.len() - 1] as u64
        } else {
            1000
        };
        let mut out = String::new();
        push_dec(&mut out, first);
        push_str(&mut out, "-");
        push_dec(&mut out, last);
        assert(out@ =~= port_description_of(range@, ports@));
        out
    }
}

// ---------------------------------------------------------------------------
// Banners
// ---------------------------------------------------------------------------

/// A greeting with its line breaks turned into spaces, then trimmed.
pub open spec fn greeting_banner_of(text: Seq<char>) -> Seq<char> {
    trim(text.map_values(|c: char| if c == '\r' || c == '\n' { ' ' } else { c }))
}

/// The banner for the greeting a service sent first (see [`greeting_banner_of`]).
pub fn greeting_banner(text: &str) -> (out: String)
    ensures
        out@ == greeting_banner_of(text@),
{
    let cs = chars_of(text);
    let mut flat: Vec<char> = Vec::new();
    let mut i: usize = 0;
    while i < cs.len()
        invariant
            i <= cs@.len(),
            flat@ == cs@.take(i as int).map_values(
                |c: char| if c == '\r' || c == '\n' { ' ' } else { c },
            ),
        decreases cs@.len() - i,
    {
        let c = cs[i];
        flat.push(if c == '\r' || c == '\n' { ' ' } else { c });
        i = i + 1;
        assert(flat@ =~= cs@.take(i as int).map_values(
            |c: char| if c == '\r' || c == '\n' { ' ' } else { c },
        ));
    }
    assert(cs@.take(i as int) =~= text@);
    let (a, b) = trim_bounds(&flat, 0, flat.len());
    assert(flat@.subrange(0, flat@.len() as int) =~= flat@);
    string_of(&flat, a, b)
}

/// Whether a line starts with `server:`, ignoring ASCII case.
pub open spec fn is_server_line(l: Seq<char>) -> bool {
    l.len() >= 7 && l.take(7).map_values(|c: char| ascii_lower(c)) == "server:"@
}

/// The first of `lines` that is a `Server:` header line.
pub open spec fn first_server_line(lines: Seq<Seq<char>>) -> Option<Seq<char>>
    decreases lines.len(),
{
    if lines.len() == 0 {
        None
    } else if is_server_line(lines[0]) {
        Some(lines[0])
    } else {
        first_server_line(lines.drop_first())
    }
}

/// The `Server:` header line of an HTTP response to a probe, if it has one.
pub fn server_banner(response: &str) -> (out: Option<String>)
    ensures
        match (out, first_server_line(lines_of(response@))) {
            (Some(s), Some(l)) => s@ == l,
            (None, None) => true,
            _ => false,
        },
{
    let cs = chars_of(response);
    let lines = line_bounds(&cs);
    let ghost all = lines_of(cs@);
    let mut k: usize = 0;
    proof {
        reveal_strlit("server:");
    }
    let target: [char; 7] = ['s', 'e', 'r', 'v', 'e', 'r', ':'];
    assert(target@ =~= "server:"@);
    assert(all.skip(0) =~= all);
    while k < lines.len()
        invariant
            cs@ == response@,
            all == lines_of(cs@),
            lines@.len() == all.len(),
            k <= lines@.len(),
            target@ == "server:"@,
            forall|j: int|
                0 <= j < lines@.len() ==> {
                    &&& (#[trigger] lines@[j]).0 <= lines@[j].1 <= cs@.len()
                    &&& cs@.subrange(lines@[j].0 as int, lines@[j].1 as int) == all[j]
                },
            first_server_line(all) == first_server_line(all.skip(k as int)),
        decreases lines@.len() - k,
    {
        let (a, b) = lines[k];
        let ghost line = all[k as int];
        assert(all.skip(k as int)[0] == line);
        assert(all.skip(k as int).drop_first() =~= all.skip(k + 1));
        let mut matches = false;
        if b - a >= 7 {
            let mut ok = true;
            let mut j: usize = 0;
            while j < 7
                invariant
                    a <= b <= cs@.len(),
                    b - a >= 7,
                    j <= 7,
                    line == cs@.subrange(a as int, b as int),
                    target@ == "server:"@,
                    ok == (forall|m: int| 0 <= m < j ==> ascii_lower(line[m]) == target@[m]),
                decreases 7 - j,
            {
                if !ascii_lower_is(cs[a + j], target[j]) {
                    ok = false;
                }
                j = j + 1;
            }
            assert(ok == is_server_line(line)) by {
                if ok {
                    assert(line.take(7).map_values(|c: char| ascii_lower(c)) =~= "server:"@);
                } else {
                    let m = choose|m: int| 0 <= m < 7 && ascii_lower(line[m]) != target@[m];
                    assert(line.take(7).map_values(|c: char| ascii_lower(c))[m] != "server:"@[m]);
                }
            }
            matches = ok;
        }
        if matches {
            return Some(string_of(&cs, a, b));
        }
        assert(!is_server_line(line));
        k = k + 1;
    }
    None
}

// ---------------------------------------------------------------------------
// Ordering results
// ---------------------------------------------------------------------------

/// Results ordered by port: one may precede another when its port is not greater.
pub open spec fn port_leq() -> spec_fn(ScanResult, ScanResult) -> bool {
    |a: ScanResult, b: ScanResult| a.port <= b.port
}

/// Results in increasing port order, results with the same port in their input
/// order (a stable sort by port).
pub open spec fn sorted_by_port(s: Seq<ScanResult>) -> Seq<ScanResult> {
    insertion_sort(s, port_leq())
}

/// Sorting results by port orders them by port and keeps every result.
pub proof fn lemma_sorted_by_port(s: Seq<ScanResult>)
    ensures
        forall|i: int, j: int|
            0 <= i < j < s.len() ==> #[trigger] sorted_by_port(s)[i].port
                <= #[trigger] sorted_by_port(s)[j].port,
        sorted_by_port(s).to_multiset() == s.to_multiset(),
        sorted_by_port(s).len() == s.len(),
{
    lemma_insertion_sort_props(s, port_leq());
    let r = sorted_by_port(s);
    assert forall|i: int, j: int| 0 <= i < j < s.len() implies #[trigger] r[i].port
        <= #[trigger] r[j].port by {
        assert(port_leq()(r[i], r[j]));
    }
}

/// Orders scan results by port, keeping the discovery order among equal ports.
pub fn sort_by_port(results: Vec<ScanResult>) -> (out: Vec<ScanResult>)
    ensures
        out@ == sorted_by_port(results@),
{
    let ghost orig = results@;
    let total = results.len();
    let mut rest = results;
    let mut out: Vec<ScanResult> = Vec::new();
    let mut i: usize = 0;
    while rest.len() > 0
        invariant
            total == orig.len(),
            i + rest@.len() == orig.len(),
            rest@ == orig.skip(i as int),
            out@ == sorted_by_port(orig.take(i as int)),
        decreases rest@.len(),
    {
        let x = rest.remove(0);
        let mut j = out.len();
        while j > 0 && out[j - 1].port > x.port
            invariant
                j <= out@.len(),
                forall|k: int| j <= k < out@.len() ==> out@[k].port > x.port,
            decreases j,
        {
            j = j - 1;
        }
        proof {
            lemma_insert_sorted_at(out@, x, port_leq(), j as int);
            assert(orig.take(i + 1).drop_last() =~= orig.take(i as int));
            assert(orig.take(i + 1).last() == x);
        }
        out.insert(j, x);
        assert(out@ =~= insert_sorted(sorted_by_port(orig.take(i as int)), x, port_leq()));
        i = i + 1;
        assert(rest@ =~= orig.skip(i as int));
    }
    assert(orig.take(i as int) =~= orig);
    out
}

// ---------------------------------------------------------------------------
// Ping sweeps
// ---------------------------------------------------------------------------

/// What `Ipv4Net`'s parser returns for a CIDR text: the address and prefix length.
pub uninterp spec fn ipv4_net_parse(s: Seq<char>) -> Option<(u32, u8)>;

/// `"a.b.c.d/len".parse::<Ipv4Net>()`: the address and prefix length of a CIDR text,
/// or `None` when `ipnet` rejects it. The grammar is `ipnet`'s; the contract names the
/// result and adds that an accepted prefix length is at most 32.
#[verifier::external_body]
fn parse_ipv4_net(s: &str) -> (r: Option<(u32, u8)>)
    ensures
        r == ipv4_net_parse(s@),
        r matches Some(v) ==> v.1 <= 32,
{
    match s.parse::<Ipv4Net>() {
        Ok(net) => Some((u32::from(net.addr()), net.prefix_len())),
        Err(_) => None,
    }
}

/// The addresses of the network `addr/prefix`: all addresses from the network address
/// to the broadcast address, without these two when the prefix is shorter than 31.
pub open spec fn subnet_hosts(addr: u32, prefix: nat) -> Seq<u32> {
    let size = pow2((32 - prefix) as nat);
    let network = (addr as nat / size) * size;
    if prefix < 31 {
        Seq::new((size - 2) as nat, |i: int| (network + 1 + i) as u32)
    } else {
        Seq::new(size, |i: int| (network + i) as u32)
    }
}

/// `Ipv4Net::new(addr, prefix)` and `hosts()`: the host addresses of a network, as
/// `ipnet` enumerates them (see [`subnet_hosts`]).
#[verifier::external_body]
fn ipv4_net_hosts(addr: u32, prefix: u8) -> (out: Vec<u32>)
    requires
        prefix <= 32,
    ensures
        out@ == subnet_hosts(addr, prefix as nat),
{
    match Ipv4Net::new(addr.into(), prefix) {
        Ok(net) => net.hosts().map(u32::from).collect(),
        Err(_) => Vec::new(),
    }
}

/// The addresses a ping sweep probes: the hosts of the network a CIDR text names, or
/// `None` when the text is not a CIDR.
pub fn sweep_targets(cidr: &str) -> (r: Option<Vec<u32>>)
    ensures
        match (r, ipv4_net_parse(cidr@)) {
            (Some(v), Some(net)) => v@ == subnet_hosts(net.0, net.1 as nat),
            (None, None) => true,
            _ => false,
        },
{
    match parse_ipv4_net(cidr) {
        Some((addr, prefix)) => Some(ipv4_net_hosts(addr, prefix)),
        None => None,
    }
}

/// Whether `a` sorts before or equal to `b` in lexicographic character order (the
/// order of `String`).
pub open spec fn lex_le(a: Seq<char>, b: Seq<char>) -> bool
    decreases a.len(),
{
    if a.len() == 0 {
        true
    } else if b.len() == 0 {
        false
    } else if a[0] != b[0] {
        a[0] < b[0]
    } else {
        lex_le(a.drop_first(), b.drop_first())
    }
}

/// Decides [`lex_le`].
fn chars_lex_le(a: &Vec<char>, b: &Vec<char>) -> (r: bool)
    ensures
        r == lex_le(a@, b@),
{
    let mut i: usize = 0;
    assert(a@.skip(0) =~= a@ && b@.skip(0) =~= b@);
    while i < a.len() && i < b.len() && a[i] == b[i]
        invariant
            i <= a@.len(),
            i <= b@.len(),
            lex_le(a@, b@) == lex_le(a@.skip(i as int), b@.skip(i as int)),
        decreases a@.len() - i,
    {
        assert(a@.skip(i as int).drop_first() =~= a@.skip(i + 1));
        assert(b@.skip(i as int).drop_first() =~= b@.skip(i + 1));
        i = i + 1;
    }
    if i == a.len() {
        true
    } else if i == b.len() {
        false
    } else {
        a[i] < b[i]
    }
}

/// Decides [`lex_le`] for two strings.
fn string_lex_le(a: &String, b: &String) -> (r: bool)
    ensures
        r == lex_le(a@, b@),
{
    let ac = chars_of(a.as_str());
    let bc = chars_of(b.as_str());
    chars_lex_le(&ac, &bc)
}

/// The order of `String`s.
pub open spec fn lex_leq() -> spec_fn(Seq<char>, Seq<char>) -> bool {
    |a: Seq<char>, b: Seq<char>| lex_le(a, b)
}

/// Strings in lexicographic order (`Vec<String>::sort`).
pub open spec fn sorted_lex(s: Seq<Seq<char>>) -> Seq<Seq<char>> {
    insertion_sort(s, lex_leq())
}

proof fn lemma_lex_total(a: Seq<char>, b: Seq<char>)
    ensures
        lex_le(a, b) || lex_le(b, a),
    decreases a.len(),
{
    if a.len() > 0 && b.len() > 0 && a[0] == b[0] {
        lemma_lex_total(a.drop_first(), b.drop_first());
    }
}

proof fn lemma_lex_trans(a: Seq<char>, b: Seq<char>, c: Seq<char>)
    requires
        lex_le(a, b),
        lex_le(b, c),
    ensures
        lex_le(a, c),
    decreases a.len(),
{
    if a.len() > 0 && b.len() > 0 && c.len() > 0 && a[0] == b[0] && b[0] == c[0] {
        lemma_lex_trans(a.drop_first(), b.drop_first(), c.drop_first());
    }
}

/// Lexicographic order is a total preorder.
proof fn lemma_lex_total_preorder()
    ensures
        total_preorder(lex_leq()),
{
    assert forall|a: Seq<char>, b: Seq<char>| #[trigger] lex_leq()(a, b) || lex_leq()(b, a) by {
        lemma_lex_total(a, b);
    }
    assert forall|a: Seq<char>, b: Seq<char>, c: Seq<char>| #[trigger] lex_leq()(a, b)
        && #[trigger] lex_leq()(b, c) implies lex_leq()(a, c) by {
        lemma_lex_trans(a, b, c);
    }
}

/// Sorting strings orders them lexicographically and keeps every string.
pub proof fn lemma_sorted_lex(s: Seq<Seq<char>>)
    ensures
        forall|i: int, j: int|
            0 <= i < j < s.len() ==> lex_le(#[trigger] sorted_lex(s)[i], #[trigger] sorted_lex(s)[j]),
        sorted_lex(s).to_multiset() == s.to_multiset(),
        sorted_lex(s).len() == s.len(),
{
    lemma_lex_total_preorder();
    lemma_insertion_sort_props(s, lex_leq());
    let r = sorted_lex(s);
    assert forall|i: int, j: int| 0 <= i < j < s.len() implies lex_le(
        #[trigger] r[i],
        #[trigger] r[j],
    ) by {
        assert(lex_leq()(r[i], r[j]));
    }
}

/// The views of a list of strings.
pub open spec fn string_views(v: Seq<String>) -> Seq<Seq<char>> {
    v.map_values(|s: String| s@)
}

/// Sorts host addresses as text, the way `Vec<String>::sort` orders them.
pub fn sort_strings(items: Vec<String>) -> (out: Vec<String>)
    ensures
        string_views(out@) == sorted_lex(string_views(items@)),
{
    let ghost orig = string_views(items@);
    let total = items.len();
    let mut rest = items;
    let mut out: Vec<String> = Vec::new();
    let mut i: usize = 0;
    while rest.len() > 0
        invariant
            total == orig.len(),
            i + rest@.len() == orig.len(),
            string_views(rest@) == orig.skip(i as int),
            string_views(out@) == sorted_lex(orig.take(i as int)),
        decreases rest@.len(),
    {
        let ghost before = string_views(rest@);
        let x = rest.remove(0);
        assert(before[0] == x@);
        assert(string_views(rest@) =~= before.drop_first());
        let mut j = out.len();
        while j > 0 && !string_lex_le(&out[j - 1], &x)
            invariant
                j <= out@.len(),
                forall|k: int| j <= k < out@.len() ==> !lex_le(#[trigger] out@[k]@, x@),
            decreases j,
        {
            j = j - 1;
        }
        let ghost sv = string_views(out@);
        proof {
            assert forall|k: int| j <= k < sv.len() implies !lex_le(sv[k], x@) by {
                assert(sv[k] == out@[k]@);
            }
            if j > 0 {
                assert(sv[j - 1] == out@[j - 1]@);
            }
            lemma_insert_sorted_at(sv, x@, lex_leq(), j as int);
            assert(orig.take(i + 1).drop_last() =~= orig.take(i as int));
            assert(orig.take(i + 1).last() == x@);
        }
        out.insert(j, x);
        assert(string_views(out@) =~= sv.take(j as int).push(x@) + sv.skip(j as int));
        i = i + 1;
        assert(string_views(rest@) =~= orig.skip(i as int));
    }
    assert(orig.take(i as int) =~= orig);
    out
}

/// The result of a ping sweep: the subnet, its live hosts in text order, the duration.
pub fn finish_sweep(subnet: &str, live_hosts: Vec<String>, duration_ms: u128) -> (r:
    SweepResult)
    ensures
        r.subnet@ == subnet@,
        string_views(r.live_hosts@) == sorted_lex(string_views(live_hosts@)),
        r.duration_ms == duration_ms,
{
    SweepResult {
        subnet: to_owned_string(subnet),
        live_hosts: sort_strings(live_hosts),
        duration_ms,
    }
}

/// What a subnet sweep reports for the host argument: no ports, and no OS guess.
pub fn sweep_host_info(host: String) -> (h: HostInfo)
    ensures
        h.host@ == host@,
        h.open_ports@.len() == 0,
        h.os_guess@ == "N/A (subnet sweep)"@,
{
    HostInfo { host, open_ports: Vec::new(), os_guess: to_owned_string("N/A (subnet sweep)") }
}

/// The result of scanning one host: the open ports in port order and the OS guess.
pub fn scan_host_info(host: String, open_ports: Vec<ScanResult>, os_guess: String) -> (h: HostInfo)
    ensures
        h.host@ == host@,
        h.open_ports@ == sorted_by_port(open_ports@),
        h.os_guess@ == os_guess@,
{
    HostInfo { host, open_ports: sort_by_port(open_ports), os_guess }
}

/// The empty result reported when a scan fails.
pub fn empty_host_info() -> (h: HostInfo)
    ensures
        h.host@.len() == 0,
        h.open_ports@.len() == 0,
        h.os_guess@.len() == 0,
{
    HostInfo { host: String::new(), open_ports: Vec::new(), os_guess: String::new() }
}

// ---------------------------------------------------------------------------
// Report files
// ---------------------------------------------------------------------------

/// Whether an output path names a CSV file: its lower-cased form ends in `.csv`.
pub open spec fn is_csv_path_of(path: Seq<char>) -> bool {
    has_suffix(unicode_lower(path), ".csv"@)
}

/// Decides [`is_csv_path_of`].
pub fn is_csv_path(path: &str) -> (b: bool)
    ensures
        b == is_csv_path_of(path@),
{
    let lower = to_lowercase(path);
    let cs = chars_of(lower.as_str());
    ends_with(&cs, ".csv")
}

/// A CSV field body with each `"` doubled.
pub open spec fn csv_escape(b: Seq<char>) -> Seq<char>
    decreases b.len(),
{
    if b.len() == 0 {
        Seq::empty()
    } else {
        csv_escape(b.drop_last()) + if b.last() == '"' {
            seq!['"', '"']
        } else {
            seq![b.last()]
        }
    }
}

/// The banner of a result as text (empty when there is none).
pub open spec fn banner_text(b: Option<String>) -> Seq<char> {
    match b {
        Some(s) => s@,
        None => Seq::empty(),
    }
}

/// One CSV line of a scan report; the banner is quoted.
pub open spec fn scan_csv_row(host: Seq<char>, os: Seq<char>, r: ScanResult) -> Seq<char> {
    host + ","@ + os + ","@ + dec(r.port as nat) + ","@ + r.service@ + ","@ + r.status@
        + ",\""@ + csv_escape(banner_text(r.banner)) + "\"\n"@
}

/// The CSV lines of a scan report's results.
pub open spec fn scan_csv_rows(host: Seq<char>, os: Seq<char>, rows: Seq<ScanResult>) -> Seq<
    char,
>
    decreases rows.len(),
{
    if rows.len() == 0 {
        Seq::empty()
    } else {
        scan_csv_rows(host, os, rows.drop_last()) + scan_csv_row(host, os, rows.last())
    }
}

/// A scan report in CSV: a header line, then one line per open port.
pub open spec fn scan_csv_text(host: Seq<char>, os: Seq<char>, rows: Seq<ScanResult>) -> Seq<
    char,
> {
    "host,os_guess,port,service,status,banner\n"@ + scan_csv_rows(host, os, rows)
}

/// Appends `text` with each `"` doubled.
fn push_csv_escaped(out: &mut String, text: &str)
    ensures
        final(out)@ == old(out)@ + csv_escape(text@),
{
    let cs = chars_of(text);
    let ghost start = out@;
    let mut i: usize = 0;
    assert(cs@.take(0) =~= Seq::<char>::empty());
    while i < cs.len()
        invariant
            i <= cs@.len(),
            out@ == start + csv_escape(cs@.take(i as int)),
        decreases cs@.len() - i,
    {
        assert(cs@.take(i + 1).drop_last() =~= cs@.take(i as int));
        if cs[i] == '"' {
            push_char(out, '"');
            push_char(out, '"');
        } else {
            push_char(out, cs[i]);
        }
        i = i + 1;
        assert(out@ =~= start + csv_escape(cs@.take(i as int)));
    }
    assert(cs@.take(i as int) =~= text@);
}

/// Appends one CSV line of a scan report.
fn push_scan_row(out: &mut String, host: &str, os_guess: &str, r: &ScanResult)
    ensures
        final(out)@ == old(out)@ + scan_csv_row(host@, os_guess@, *r),
{
    push_str(out, host);
    push_str(out, ",");
    push_str(out, os_guess);
    push_str(out, ",");
    push_dec(out, r.port as u64);
    push_str(out, ",");
    push_str(out, r.service.as_str());
    push_str(out, ",");
    push_str(out, r.status.as_str());
    push_str(out, ",\"");
    match &r.banner {
        Some(b) => push_csv_escaped(out, b.as_str()),
        None => {
            assert(csv_escape(Seq::<char>::empty()) =~= Seq::<char>::empty());
        },
    }
    push_str(out, "\"\n");
    assert(final(out)@ =~= old(out)@ + scan_csv_row(host@, os_guess@, *r));
}

/// The CSV report of a host scan (see [`scan_csv_text`]).
pub fn scan_csv(host: &str, os_guess: &str, rows: &Vec<ScanResult>) -> (out: String)
    ensures
        out@ == scan_csv_text(host@, os_guess@, rows@),
{
    let mut out = to_owned_string("host,os_guess,port,service,status,banner\n");
    let ghost head = out@;
    let mut i: usize = 0;
    assert(rows@.take(0) =~= Seq::<ScanResult>::empty());
    while i < rows.len()
        invariant
            i <= rows@.len(),
            head == "host,os_guess,port,service,status,banner\n"@,
            out@ == head + scan_csv_rows(host@, os_guess@, rows@.take(i as int)),
        decreases rows@.len() - i,
    {
        let ghost before = out@;
        assert(rows@.take(i + 1).drop_last() =~= rows@.take(i as int));
        push_scan_row(&mut out, host, os_guess, &rows[i]);
        assert(out@ =~= before + scan_csv_row(host@, os_guess@, rows@[i as int]));
        i = i + 1;
        assert(out@ =~= head + scan_csv_rows(host@, os_guess@, rows@.take(i as int)));
    }
    assert(rows@.take(i as int) =~= rows@);
    out
}

/// The CSV lines of a sweep report: one `subnet,host` line per live host.
pub open spec fn sweep_csv_rows(subnet: Seq<char>, hosts: Seq<Seq<char>>) -> Seq<char>
    decreases hosts.len(),
{
    if hosts.len() == 0 {
        Seq::empty()
    } else {
        sweep_csv_rows(subnet, hosts.drop_last()) + subnet + ","@ + hosts.last() + "\n"@
    }
}

/// The CSV report of a ping sweep: a header line, then one line per live host.
pub fn sweep_csv(sweep: &SweepResult) -> (out: String)
    ensures
        out@ == "subnet,host\n"@ + sweep_csv_rows(sweep.subnet@, string_views(sweep.live_hosts@)),
{
    let mut out = to_owned_string("subnet,host\n");
    let ghost head = out@;
    let ghost hosts = string_views(sweep.live_hosts@);
    let mut i: usize = 0;
    assert(hosts.take(0) =~= Seq::<Seq<char>>::empty());
    while i < sweep.live_hosts.len()
        invariant
            i <= sweep.live_hosts@.len(),
            hosts == string_views(sweep.live_hosts@),
            head == "subnet,host\n"@,
            out@ == head + sweep_csv_rows(sweep.subnet@, hosts.take(i as int)),
        decreases sweep.live_hosts@.len() - i,
    {
        let ghost before = out@;
        assert(hosts.take(i + 1).drop_last() =~= hosts.take(i as int));
        assert(hosts.take(i + 1).last() == sweep.live_hosts@[i as int]@);
        push_str(&mut out, sweep.subnet.as_str());
        push_str(&mut out, ",");
        push_str(&mut out, sweep.live_hosts[i].as_str());
        push_str(&mut out, "\n");
        i = i + 1;
        assert(out@ =~= head + sweep_csv_rows(sweep.subnet@, hosts.take(i as int)));
    }
    assert(hosts.take(i as int) =~= hosts);
    out
}

/// The OS family follows the TTL's range: up to 64 Linux/Unix, 65 to 128 Windows, and
/// above 128 a network device or macOS.
pub proof fn lemma_os_family_ranges(ttl: nat)
    ensures
        ttl <= 64 ==> os_family(ttl) == "Linux/Unix-like (ttl="@,
        65 <= ttl <= 128 ==> os_family(ttl) == "Windows-like (ttl="@,
        129 <= ttl ==> os_family(ttl) == "Network device/macOS-like (ttl="@,
{
}

/// The guess for a ping reply whose first `ttl=` is followed by a TTL `t` that fits a
/// byte names the family of `t`'s range and quotes `t`.
pub proof fn lemma_os_guess_ranges(ping_output: Seq<char>, digits: Seq<char>, ttl: nat)
    requires
        ttl_digits(unicode_lower(ping_output)) == Some(digits),
        parse_uint(digits, 255) == Some(ttl),
    ensures
        ttl <= 64 ==> os_guess_of(ping_output) == "Linux/Unix-like (ttl="@ + dec(ttl) + ")"@,
        65 <= ttl <= 128 ==> os_guess_of(ping_output) == "Windows-like (ttl="@ + dec(ttl) + ")"@,
        129 <= ttl <= 255 ==> os_guess_of(ping_output) == "Network device/macOS-like (ttl="@ + dec(
            ttl,
        ) + ")"@,
{
}

} // verus!
