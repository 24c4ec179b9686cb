//! The text of the dashboard's panels: the live packet list with its filter, the
//! connection table and the footer. The terminal widgets that show these lines are the
//! front end's.
use crate::dashboard::{row_view, ConnectionEntry, PacketRow};
use crate::text::{chars_of, dec, find_str, find_sub, push_char, push_dec, push_str, str_eq, to_owned_string};
use vstd::prelude::*;

verus! {

/// `n` spaces.
pub open spec fn spaces(n: nat) -> Seq<char> {
    Seq::new(n, |_i: int| ' ')
}

/// `s` padded with spaces on the right to `w` characters (`{:<w}`).
pub open spec fn pad_right(s: Seq<char>, w: nat) -> Seq<char> {
    if s.len() < w {
        s + spaces((w - s.len()) as nat)
    } else {
        s
    }
}

/// `s` padded with spaces on the left to `w` characters (`{:>w}`).
pub open spec fn pad_left(s: Seq<char>, w: nat) -> Seq<char> {
    if s.len() < w {
        spaces((w - s.len()) as nat) + s
    } else {
        s
    }
}

/// Appends `n` spaces.
fn push_spaces(out: &mut String, n: usize)
    ensures
        final(out)@ == old(out)@ + spaces(n as nat),
{
    let ghost start = out@;
    let mut i: usize = 0;
    while i < n
        invariant
            i <= n,
            out@ == start + spaces(i as nat),
        decreases n - i,
    {
        push_char(out, ' ');
        i = i + 1;
        assert(out@ =~= start + spaces(i as nat));
    }
}

/// The number of characters of a string slice.
fn char_count(s: &str) -> (n: usize)
    ensures
        n == s@.len(),
{
    chars_of(s).len()
}

/// Appends `s` padded on the right to `w` characters.
fn push_pad_right(out: &mut String, s: &str, w: usize)
    ensures
        final(out)@ == old(out)@ + pad_right(s@, w as nat),
{
    let n = char_count(s);
    push_str(out, s);
    if n < w {
        push_spaces(out, w - n);
    }
    assert(final(out)@ =~= old(out)@ + pad_right(s@, w as nat));
}

/// Appends the decimal form of `v` padded on the left to `w` characters.
fn push_dec_left(out: &mut String, v: u64, w: usize)
    ensures
        final(out)@ == old(out)@ + pad_left(dec(v as nat), w as nat),
{
    let mut digits = String::new();
    push_dec(&mut digits, v);
    assert(digits@ =~= dec(v as nat));
    let n = char_count(digits.as_str());
    if n < w {
        push_spaces(out, w - n);
    }
    push_str(out, digits.as_str());
    assert(final(out)@ =~= old(out)@ + pad_left(dec(v as nat), w as nat));
}

/// The colour of a packet line, by protocol.
#[derive(Debug, Clone, Copy, PartialEq, Eq, Structural)]
pub enum ProtoColor {
    Cyan,
    Yellow,
    Green,
    White,
}

/// TCP is cyan, UDP yellow, ICMP green, anything else white.
pub open spec fn proto_color_of(proto: Seq<char>) -> ProtoColor {
    if proto == "TCP"@ {
        ProtoColor::Cyan
    } else if proto == "UDP"@ {
        ProtoColor::Yellow
    } else if proto == "ICMP"@ {
        ProtoColor::Green
    } else {
        ProtoColor::White
    }
}

/// Executable form of [`proto_color_of`].
pub fn proto_color(proto: &str) -> (c: ProtoColor)
    ensures
        c == proto_color_of(proto@),
{
    if str_eq(proto, "TCP") {
        ProtoColor::Cyan
    } else if str_eq(proto, "UDP") {
        ProtoColor::Yellow
    } else if str_eq(proto, "ICMP") {
        ProtoColor::Green
    } else {
        ProtoColor::White
    }
}

/// The line of a packet row: `time  PROTO  src -> dst  bytesB` in fixed columns.
pub open spec fn packet_line_text(r: (Seq<char>, Seq<char>, Seq<char>, Seq<char>, u64)) -> Seq<
    char,
> {
    r.0 + "  "@ + pad_right(r.1, 4) + "  "@ + pad_right(r.2, 21) + " -> "@ + pad_right(r.3, 21)
        + " "@ + pad_left(dec(r.4 as nat), 5) + "B"@
}

/// Executable form of [`packet_line_text`].
pub fn packet_line(r: &PacketRow) -> (out: String)
    ensures
        out@ == packet_line_text(row_view(*r)),
{
    let mut s = to_owned_string(r.time.as_str());
    push_str(&mut s, "  ");
    push_pad_right(&mut s, r.proto.as_str(), 4);
    push_str(&mut s, "  ");
    push_pad_right(&mut s, r.src.as_str(), 21);
    push_str(&mut s, " -> ");
    push_pad_right(&mut s, r.dst.as_str(), 21);
    push_str(&mut s, " ");
    push_dec_left(&mut s, r.bytes, 5);
    push_str(&mut s, "B");
    s
}

/// How many of the newest packets the list considers.
pub const SHOWN_PACKETS: usize = 18;

/// Whether a line passes the filter: an empty filter passes everything, otherwise the
/// line must contain it.
pub open spec fn passes(line: Seq<char>, filter: Seq<char>) -> bool {
    filter.len() == 0 || find_sub(line, filter) is Some
}

/// The newest `n` rows (all when fewer), newest first.
pub open spec fn newest_first<T>(rows: Seq<T>, n: nat) -> Seq<T> {
    let k = if rows.len() < n {
        rows.len()
    } else {
        n
    };
    Seq::new(k, |i: int| rows[rows.len() - 1 - i])
}

/// The lines shown for `rows` (in display order) under a filter, with their colours.
pub open spec fn shown_lines(
    rows: Seq<(Seq<char>, Seq<char>, Seq<char>, Seq<char>, u64)>,
    filter: Seq<char>,
) -> Seq<(Seq<char>, ProtoColor)>
    decreases rows.len(),
{
    if rows.len() == 0 {
        Seq::empty()
    } else {
        let prev = shown_lines(rows.drop_last(), filter);
        let l = packet_line_text(rows.last());
        if passes(l, filter) {
            prev.push((l, proto_color_of(rows.last().1)))
        } else {
            prev
        }
    }
}

/// The views of the packet rows.
pub open spec fn row_views(v: Seq<PacketRow>) -> Seq<(Seq<char>, Seq<char>, Seq<char>, Seq<char>, u64)> {
    v.map_values(|r: PacketRow| row_view(r))
}

/// The live packet list: of the 18 newest rows, newest first, those whose line passes
/// the filter, each with its colour.
pub fn packet_lines(rows: &Vec<PacketRow>, filter: &str) -> (out: Vec<(String, ProtoColor)>)
    ensures
        out@.map_values(|p: (String, ProtoColor)| (p.0@, p.1)) == shown_lines(
            newest_first(row_views(rows@), SHOWN_PACKETS as nat),
            filter@,
        ),
{
    let ghost display = newest_first(row_views(rows@), SHOWN_PACKETS as nat);
    let len = rows.len();
    let k = if len < SHOWN_PACKETS {
        len
    } else {
        SHOWN_PACKETS
    };
    let fcs = chars_of(filter);
    let mut out: Vec<(String, ProtoColor)> = Vec::new();
    let mut i: usize = 0;
    while i < k
        invariant
            k <= len == rows@.len(),
            display.len() == k,
            display == newest_first(row_views(rows@), SHOWN_PACKETS as nat),
            fcs@ == filter@,
            i <= k,
            out@.map_values(|p: (String, ProtoColor)| (p.0@, p.1)) == shown_lines(
                display.take(i as int),
                filter@,
            ),
        decreases k - i,
    {
        let r = &rows[len - 1 - i];
        assert(display[i as int] == row_view(*r));
        let line = packet_line(r);
        let lcs = chars_of(line.as_str());
        let ok = fcs.len() == 0 || match find_str(&lcs, filter) {
            Some(_) => true,
            None => false,
        };
        let ghost before = out@;
        assert(display.take(i + 1).drop_last() =~= display.take(i as int));
        if ok {
            let c = proto_color(r.proto.as_str());
            out.push((line, c));
            assert(out@.map_values(|p: (String, ProtoColor)| (p.0@, p.1)) =~= before.map_values(
                |p: (String, ProtoColor)| (p.0@, p.1),
            ).push((packet_line_text(display[i as int]), proto_color_of(display[i as int].1))));
        }
        i = i + 1;
    }
    assert(display.take(k as int) =~= display);
    out
}

/// The line of a connection: `PROTO endpoint state bytesB` in fixed columns.
pub open spec fn connection_line_text(
    proto: Seq<char>,
    endpoint: Seq<char>,
    state: Seq<char>,
    bytes: u64,
) -> Seq<char> {
    pad_right(proto, 4) + " "@ + pad_right(endpoint, 22) + " "@ + pad_right(state, 12) + " "@
        + pad_left(dec(bytes as nat), 7) + "B"@
}

/// Executable form of [`connection_line_text`].
pub fn connection_line(c: &ConnectionEntry) -> (out: String)
    ensures
        out@ == connection_line_text(c.row.proto@, c.row.endpoint@, c.row.state@, c.row.bytes),
{
    let mut s = String::new();
    push_pad_right(&mut s, c.row.proto.as_str(), 4);
    push_str(&mut s, " ");
    push_pad_right(&mut s, c.row.endpoint.as_str(), 22);
    push_str(&mut s, " ");
    push_pad_right(&mut s, c.row.state.as_str(), 12);
    push_str(&mut s, " ");
    push_dec_left(&mut s, c.row.bytes, 7);
    push_str(&mut s, "B");
    assert(s@ =~= connection_line_text(c.row.proto@, c.row.endpoint@, c.row.state@, c.row.bytes));
    s
}

/// The footer: the key help, the current filter, and the last error if there is one.
pub open spec fn footer_text(filter: Seq<char>, last_error: Option<Seq<char>>) -> Seq<char> {
    "Tab panel | f filter | s sort | p pause | ? help | q quit | filter='"@ + filter + "'"@
        + match last_error {
        Some(e) => " | error: "@ + e,
        None => Seq::empty(),
    }
}

/// Executable form of [`footer_text`].
pub fn footer(filter: &str, last_error: &Option<String>) -> (out: String)
    ensures
        out@ == footer_text(
            filter@,
            match last_error {
                Some(e) => Some(e@),
                None => None,
            },
        ),
{
    let mut s = to_owned_string(
        "Tab panel | f filter | s sort | p pause | ? help | q quit | filter='",
    );
    push_str(&mut s, filter);
    push_str(&mut s, "'");
    match last_error {
        Some(e) => {
            push_str(&mut s, " | error: ");
            push_str(&mut s, e.as_str());
        },
        None => {},
    }
    assert(s@ =~= footer_text(
        filter@,
        match last_error {
            Some(e) => Some(e@),
            None => None,
        },
    ));
    s
}

/// The packet list never shows more lines than rows it considers, and every line it
/// shows passes the filter.
pub proof fn lemma_shown_lines_pass(
    rows: Seq<(Seq<char>, Seq<char>, Seq<char>, Seq<char>, u64)>,
    filter: Seq<char>,
)
    ensures
        shown_lines(rows, filter).len() <= rows.len(),
        forall|i: int|
            0 <= i < shown_lines(rows, filter).len() ==> passes(
                (#[trigger] shown_lines(rows, filter)[i]).0,
                filter,
            ),
    decreases rows.len(),
{
    if rows.len() > 0 {
        lemma_shown_lines_pass(rows.drop_last(), filter);
        let prev = shown_lines(rows.drop_last(), filter);
        assert forall|i: int|
            0 <= i < shown_lines(rows, filter).len() implies passes(
            (#[trigger] shown_lines(rows, filter)[i]).0,
            filter,
        ) by {
            if i < prev.len() {
                assert(shown_lines(rows, filter)[i] == prev[i]);
            }
        }
    }
}

/// The live list considers at most its 18 newest rows, newest first.
pub proof fn lemma_newest_first<T>(rows: Seq<T>, n: nat)
    ensures
        newest_first(rows, n).len() <= n,
        newest_first(rows, n).len() <= rows.len(),
        forall|i: int|
            0 <= i < newest_first(rows, n).len() ==> #[trigger] newest_first(rows, n)[i] == rows[rows.len()
                - 1 - i],
{
}

} // verus!
