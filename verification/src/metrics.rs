//! The text of the platform tools that report memory pressure and GPU load. The
//! figures themselves are decimal fractions, read as floats by the front end; what is
//! decided here is which part of the tool's output holds them.
use crate::text::{
    chars_of, find_str, find_sub, has_prefix, line_bounds, lines_of, split_on, string_of, trim,
    trim_bounds, is_digit,
};
use vstd::prelude::*;

verus! {

/// The line prefix of `memory_pressure` that announces the free memory.
pub open spec fn free_memory_prefix() -> Seq<char> {
    "System-wide memory free percentage:"@
}

/// `s` without its trailing `%` characters (`trim_end_matches('%')`).
pub open spec fn strip_percent(s: Seq<char>) -> Seq<char>
    decreases s.len(),
{
    if s.len() > 0 && s.last() == '%' {
        strip_percent(s.drop_last())
    } else {
        s
    }
}

/// The first line of `lines` that starts with the free-memory prefix.
pub open spec fn first_free_line(lines: Seq<Seq<char>>) -> Option<Seq<char>>
    decreases lines.len(),
{
    if lines.len() == 0 {
        None
    } else if has_prefix(lines[0], free_memory_prefix()) {
        Some(lines[0])
    } else {
        first_free_line(lines.drop_first())
    }
}

/// The free-memory figure of `memory_pressure` output: on the first line with the
/// prefix, the rest of the line, trimmed, without trailing `%`.
pub open spec fn free_memory_field_of(output: Seq<char>) -> Option<Seq<char>> {
    match first_free_line(lines_of(output)) {
        Some(l) => Some(strip_percent(trim(l.skip(free_memory_prefix().len() as int)))),
        None => None,
    }
}

/// Executable form of [`free_memory_field_of`].
pub fn free_memory_field(output: &str) -> (r: Option<String>)
    ensures
        match r {
            Some(f) => free_memory_field_of(output@) == Some(f@),
            None => free_memory_field_of(output@) is None,
        },
{
    let cs = chars_of(output);
    let lines = line_bounds(&cs);
    let ghost all = lines_of(cs@);
    proof {
        reveal_strlit("System-wide memory free percentage:");
    }
    let prefix = chars_of("System-wide memory free percentage:");
    let plen = prefix.len();
    let mut k: usize = 0;
    assert(all.skip(0) =~= all);
    while k < lines.len()
        invariant
            cs@ == output@,
            all == lines_of(cs@),
            lines@.len() == all.len(),
            forall|j: int|
                0 <= j < lines@.len() ==> {
                    &&& (#[trigger] lines@[j]).0 <= lines@[j].1 <= cs@.len()
                    &&& cs@.subrange(lines@[j].0 as int, lines@[j].1 as int) == all[j]
                },
            prefix@ == free_memory_prefix(),
            plen == prefix@.len(),
            k <= lines@.len(),
            first_free_line(all) == first_free_line(all.skip(k as int)),
        decreases lines@.len() - k,
    {
        let (a, b) = lines[k];
        let ghost line = all[k as int];
        assert(all.skip(k as int).drop_first() =~= all.skip(k + 1));
        assert(all.skip(k as int)[0] == line);
        if b - a >= plen && starts_at(&cs, a, &prefix) {
            assert(line.take(plen as int) =~= prefix@);
            let (s, e) = trim_bounds(&cs, a + plen, b);
            assert(cs@.subrange(a + plen, b as int) =~= line.skip(plen as int));
            let mut end = e;
            while end > s && cs[end - 1] == '%'
                invariant
                    s <= end <= e <= cs@.len(),
                    strip_percent(cs@.subrange(s as int, e as int)) == strip_percent(
                        cs@.subrange(s as int, end as int),
                    ),
                decreases end - s,
            {
                assert(cs@.subrange(s as int, end as int).drop_last() =~= cs@.subrange(
                    s as int,
                    end - 1,
                ));
                end = end - 1;
            }
            return Some(string_of(&cs, s, end));
        } else {
            assert(!has_prefix(line, free_memory_prefix())) by {
                if has_prefix(line, free_memory_prefix()) {
                    assert(line.take(plen as int) =~= cs@.subrange(a as int, a + plen));
                }
            }
        }
        k = k + 1;
    }
    assert(all.skip(k as int).len() == 0);
    None
}

/// Whether `p` occurs in `cs` at index `at`.
fn starts_at(cs: &Vec<char>, at: usize, p: &Vec<char>) -> (b: bool)
    requires
        at + p@.len() <= cs@.len(),
    ensures
        b == (cs@.subrange(at as int, at + p@.len()) == p@),
{
    let n = cs.len();
    let mut i: usize = 0;
    while i < p.len()
        invariant
            n == cs@.len(),
            at + p@.len() <= cs@.len(),
            i <= p@.len(),
            cs@.subrange(at as int, at + i) == p@.take(i as int),
        decreases p@.len() - i,
    {
        if cs[at + i] != p[i] {
            assert(cs@.subrange(at as int, at + p@.len())[i as int] != p@[i as int]);
            return false;
        }
        i = i + 1;
        assert(cs@.subrange(at as int, at + i) =~= p@.take(i as int));
    }
    assert(p@.take(p@.len() as int) =~= p@);
    true
}

/// The marker of `ioreg` lines that report GPU load.
pub open spec fn gpu_marker() -> Seq<char> {
    "Device Utilization %"@
}

/// The leading run of digits and dots of `s`.
pub open spec fn number_prefix(s: Seq<char>) -> Seq<char>
    decreases s.len(),
{
    if s.len() > 0 && (is_digit(s[0]) || s[0] == '.') {
        seq![s[0]] + number_prefix(s.drop_first())
    } else {
        Seq::empty()
    }
}

/// The load figure of one `ioreg` line: after the first `=`, trimmed, its leading digits
/// and dots (empty when the line has no `=`).
pub open spec fn gpu_figure(line: Seq<char>) -> Seq<char> {
    let parts = split_on(line, '=');
    if parts.len() > 1 {
        number_prefix(trim(parts[1]))
    } else {
        Seq::empty()
    }
}

/// The load figures of the lines that carry the marker, in order.
pub open spec fn gpu_figures_of(lines: Seq<Seq<char>>) -> Seq<Seq<char>>
    decreases lines.len(),
{
    if lines.len() == 0 {
        Seq::empty()
    } else {
        let rest = gpu_figures_of(lines.drop_last());
        if find_sub(lines.last(), gpu_marker()) is Some {
            rest.push(gpu_figure(lines.last()))
        } else {
            rest
        }
    }
}

/// The candidate GPU load figures of `ioreg` output, one per line that carries the
/// marker, in order; the first that reads as a number from 0 to 100 is the load.
pub fn gpu_figures(output: &str) -> (out: Vec<String>)
    ensures
        out@.map_values(|s: String| s@) == gpu_figures_of(lines_of(output@)),
{
    let cs = chars_of(output);
    let lines = line_bounds(&cs);
    let ghost all = lines_of(cs@);
    let mut out: Vec<String> = Vec::new();
    let mut k: usize = 0;
    while k < lines.len()
        invariant
            cs@ == output@,
            all == lines_of(cs@),
            lines@.len() == all.len(),
            forall|j: int|
                0 <= j < lines@.len() ==> {
                    &&& (#[trigger] lines@[j]).0 <= lines@[j].1 <= cs@.len()
                    &&& cs@.subrange(lines@[j].0 as int, lines@[j].1 as int) == all[j]
                },
            k <= lines@.len(),
            out@.map_values(|s: String| s@) == gpu_figures_of(all.take(k as int)),
        decreases lines@.len() - k,
    {
        let (a, b) = lines[k];
        let line = string_of(&cs, a, b);
        let lcs = chars_of(line.as_str());
        assert(all.take(k + 1).drop_last() =~= all.take(k as int));
        assert(all.take(k + 1).last() == all[k as int]);
        let ghost before = out@;
        match find_str(&lcs, "Device Utilization %") {
            Some(_) => {
                let f = figure_of_line(&lcs);
                out.push(f);
                assert(out@.map_values(|s: String| s@) =~= before.map_values(|s: String| s@).push(
                    gpu_figure(all[k as int]),
                ));
            },
            None => {},
        }
        k = k + 1;
    }
    assert(all.take(k as int) =~= all);
    out
}

/// The load figure of one line (see [`gpu_figure`]).
fn figure_of_line(lcs: &Vec<char>) -> (f: String)
    ensures
        f@ == gpu_figure(lcs@),
{
    let pieces = crate::text::split_bounds(lcs, '=');
    let ghost parts = split_on(lcs@, '=');
    if pieces.len() > 1 {
        let (a, b) = pieces[1];
        let (s, e) = trim_bounds(lcs, a, b);
        let mut end = s;
        while end < e && (crate::text::is_ascii_digit(lcs[end]) || lcs[end] == '.')
            invariant
                s <= end <= e <= lcs@.len(),
                number_prefix(lcs@.subrange(s as int, e as int)) == lcs@.subrange(s as int, end as int)
                    + number_prefix(lcs@.subrange(end as int, e as int)),
            decreases e - end,
        {
            assert(lcs@.subrange(end as int, e as int).drop_first() =~= lcs@.subrange(
                end + 1,
                e as int,
            ));
            assert(lcs@.subrange(s as int, end + 1) =~= lcs@.subrange(s as int, end as int) + seq![
                lcs@[end as int],
            ]);
            end = end + 1;
        }
        assert(number_prefix(lcs@.subrange(end as int, e as int)) =~= Seq::<char>::empty()) by {
            if end < e {
            }
        }
        assert(lcs@.subrange(s as int, end as int) + Seq::<char>::empty() =~= lcs@.subrange(
            s as int,
            end as int,
        ));
        string_of(lcs, s, end)
    } else {
        String::new()
    }
}

} // verus!
