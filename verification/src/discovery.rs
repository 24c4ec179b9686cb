//! Devices on the local network, as the ARP table lists them.
use vstd::prelude::*;
use crate::text::{chars_of, line_bounds, lines_of, string_of, word_bounds, words_of};

verus! {

/// A neighbour found in the ARP table.
pub struct Device {
    pub ip: String,
    pub mac: String,
    pub interface: String,
}

/// `s` without the leading and trailing `(` and `)` characters.
pub open spec fn strip_parens(s: Seq<char>) -> Seq<char>
    decreases s.len(),
{
    if s.len() > 0 && (s[0] == '(' || s[0] == ')') {
        strip_parens(s.drop_first())
    } else if s.len() > 0 && (s.last() == '(' || s.last() == ')') {
        strip_parens(s.drop_last())
    } else {
        s
    }
}

/// The device an ARP table line describes, as `(ip, mac, interface)`: the line must have
/// at least six words, the second in parentheses; the hardware address is the fourth
/// and the interface the sixth; incomplete and broadcast entries are left out.
pub open spec fn arp_entry(line: Seq<char>) -> Option<(Seq<char>, Seq<char>, Seq<char>)> {
    let parts = words_of(line);
    if parts.len() >= 6 && parts[1].len() > 0 && parts[1][0] == '(' && parts[1].last() == ')' {
        if parts[3] != "(incomplete)"@ && parts[3] != "ff:ff:ff:ff:ff:ff"@ {
            Some((strip_parens(parts[1]), parts[3], parts[5]))
        } else {
            None
        }
    } else {
        None
    }
}

/// The devices of an ARP table listing, in the order of its lines.
pub open spec fn arp_devices(lines: Seq<Seq<char>>) -> Seq<(Seq<char>, Seq<char>, Seq<char>)>
    decreases lines.len(),
{
    if lines.len() == 0 {
        Seq::empty()
    } else {
        let rest = arp_devices(lines.drop_last());
        match arp_entry(lines.last()) {
            Some(d) => rest.push(d),
            None => rest,
        }
    }
}

/// The content of a device.
pub open spec fn device_view(d: Device) -> (Seq<char>, Seq<char>, Seq<char>) {
    (d.ip@, d.mac@, d.interface@)
}

fn strip_parens_bounds(cs: &Vec<char>, a: usize, b: usize) -> (r: (usize, usize))
    requires
        a <= b <= cs@.len(),
    ensures
        a <= r.0 <= r.1 <= b,
        cs@.subrange(r.0 as int, r.1 as int) == strip_parens(cs@.subrange(a as int, b as int)),
{
    let mut x = a;
    let mut y = b;
    while x < y && (cs[x] == '(' || cs[x] == ')' || cs[y - 1] == '(' || cs[y - 1] == ')')
        invariant
            a <= x <= y <= b <= cs@.len(),
            strip_parens(cs@.subrange(a as int, b as int)) == strip_parens(
                cs@.subrange(x as int, y as int),
            ),
        decreases y - x,
    {
        let ghost s = cs@.subrange(x as int, y as int);
        if cs[x] == '(' || cs[x] == ')' {
            assert(s.drop_first() =~= cs@.subrange(x + 1, y as int));
            x = x + 1;
        } else {
            assert(s.drop_last() =~= cs@.subrange(x as int, y - 1));
            y = y - 1;
        }
    }
    (x, y)
}

fn words_eq(cs: &Vec<char>, a: usize, b: usize, t: &str) -> (r: bool)
    requires
        a <= b <= cs@.len(),
    ensures
        r == (cs@.subrange(a as int, b as int) == t@),
{
    let s = string_of(cs, a, b);
    let sc = chars_of(s.as_str());
    crate::text::chars_eq(&sc, t)
}

/// The devices of an ARP table listing (`arp -a`), in the order of its lines.
pub fn parse_arp_output(text: &str) -> (out: Vec<Device>)
    ensures
        out@.map_values(|d: Device| device_view(d)) == arp_devices(lines_of(text@)),
{
    let cs = chars_of(text);
    let lines = line_bounds(&cs);
    let ghost all = lines_of(cs@);
    let mut out: Vec<Device> = Vec::new();
    let mut k: usize = 0;
    assert(all.take(0) =~= Seq::<Seq<char>>::empty());
    while k < lines.len()
        invariant
            cs@ == text@,
            all == lines_of(cs@),
            lines@.len() == all.len(),
            k <= lines@.len(),
            forall|j: int|
                0 <= j < lines@.len() ==> {
                    &&& (#[trigger] lines@[j]).0 <= lines@[j].1 <= cs@.len()
                    &&& cs@.subrange(lines@[j].0 as int, lines@[j].1 as int) == all[j]
                },
            out@.map_values(|d: Device| device_view(d)) == arp_devices(all.take(k as int)),
        decreases lines@.len() - k,
    {
        let (a, b) = lines[k];
        let ghost line = all[k as int];
        assert(all.take(k + 1).drop_last() =~= all.take(k as int));
        assert(all.take(k + 1).last() == line);
        let parts = word_bounds(&cs, a, b);
        let ghost ws = words_of(line);
        let ghost before = out@;
        if parts.len() >= 6 {
            let (p1a, p1b) = parts[1];
            let (p3a, p3b) = parts[3];
            let (p5a, p5b) = parts[5];
            assert(cs@.subrange(p1a as int, p1b as int) == ws[1]);
            if p1a < p1b && cs[p1a] == '(' && cs[p1b - 1] == ')' {
                assert(ws[1][0] == cs@[p1a as int]);
                assert(ws[1].last() == cs@[p1b - 1]);
                let incomplete = words_eq(&cs, p3a, p3b, "(incomplete)");
                let broadcast = words_eq(&cs, p3a, p3b, "ff:ff:ff:ff:ff:ff");
                if !incomplete && !broadcast {
                    let (ia, ib) = strip_parens_bounds(&cs, p1a, p1b);
                    out.push(
                        Device {
                            ip: string_of(&cs, ia, ib),
                            mac: string_of(&cs, p3a, p3b),
                            interface: string_of(&cs, p5a, p5b),
                        },
                    );
                    assert(out@.map_values(|d: Device| device_view(d)) =~= before.map_values(
                        |d: Device| device_view(d),
                    ).push(arp_entry(line)->0));
                }
            } else {
                assert(ws[1].len() == 0 || ws[1][0] != '(' || ws[1].last() != ')') by {
                    if ws[1].len() > 0 {
                        assert(ws[1][0] == cs@[p1a as int]);
                        assert(ws[1].last() == cs@[p1b - 1]);
                    }
                }
            }
        }
        k = k + 1;
    }
    assert(all.take(k as int) =~= all);
    out
}

} // verus!
