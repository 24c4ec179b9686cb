//! Character-level text helpers shared by the parsers and formatters of the library.
//!
//! Strings are modelled by their view, a `Seq<char>`. Each helper here states what it
//! computes over that view, so that the parsers built on them can be specified in terms
//! of plain sequences.
use vstd::prelude::*;

verus! {

// ---------------------------------------------------------------------------
// Character classes
// ---------------------------------------------------------------------------

/// `char::is_whitespace`: the characters with the Unicode `White_Space` property.
pub open spec fn is_ws(c: char) -> bool {
    let u = c as u32;
    ||| 0x09 <= u <= 0x0D
    ||| u == 0x20
    ||| u == 0x85
    ||| u == 0xA0
    ||| u == 0x1680
    ||| 0x2000 <= u <= 0x200A
    ||| u == 0x2028
    ||| u == 0x2029
    ||| u == 0x202F
    ||| u == 0x205F
    ||| u == 0x3000
}

/// Executable form of [`is_ws`].
pub fn is_whitespace(c: char) -> (b: bool)
    ensures
        b == is_ws(c),
{
    let u = c as u32;
    (0x09 <= u && u <= 0x0D) || u == 0x20 || u == 0x85 || u == 0xA0 || u == 0x1680 || (0x2000
        <= u && u <= 0x200A) || u == 0x2028 || u == 0x2029 || u == 0x202F || u == 0x205F || u
        == 0x3000
}

/// `char::is_ascii_digit`.
pub open spec fn is_digit(c: char) -> bool {
    '0' <= c <= '9'
}

/// Executable form of [`is_digit`].
pub fn is_ascii_digit(c: char) -> (b: bool)
    ensures
        b == is_digit(c),
{
    '0' <= c && c <= '9'
}

/// The value of an ASCII digit.
pub open spec fn digit_value(c: char) -> nat {
    (c as u32 - '0' as u32) as nat
}

/// The ASCII digit for a value below ten.
pub open spec fn digit_char(d: nat) -> char {
    if d == 0 {
        '0'
    } else if d == 1 {
        '1'
    } else if d == 2 {
        '2'
    } else if d == 3 {
        '3'
    } else if d == 4 {
        '4'
    } else if d == 5 {
        '5'
    } else if d == 6 {
        '6'
    } else if d == 7 {
        '7'
    } else if d == 8 {
        '8'
    } else {
        '9'
    }
}

/// `char::to_ascii_lowercase`.
pub open spec fn ascii_lower(c: char) -> char {
    if 'A' <= c <= 'Z' {
        ((c as u32) + 32) as char
    } else {
        c
    }
}

/// Whether `c`, lower-cased as ASCII, equals `t`.
pub fn ascii_lower_is(c: char, t: char) -> (b: bool)
    ensures
        b == (ascii_lower(c) == t),
{
    if 'A' <= c && c <= 'Z' {
        (c as u32) + 32 == (t as u32)
    } else {
        c == t
    }
}

// ---------------------------------------------------------------------------
// Strings and character vectors
// ---------------------------------------------------------------------------

/// The characters of a string slice, in order.
pub fn chars_of(s: &str) -> (out: Vec<char>)
    ensures
        out@ == s@,
{
    let mut out: Vec<char> = Vec::new();
    for c in it: s.chars()
        invariant
            out@ == it.seq().take(it.index() as int),
            it.seq() == s@,
    {
        out.push(c);
    }
    out
}

/// Appends one character to a `String` (`String::push`).
#[verifier::external_body]
pub(crate) fn push_char(s: &mut String, c: char)
    ensures
        final(s)@ == old(s)@.push(c),
{
    s.push(c);
}

/// Appends a string slice to a `String` (`String::push_str`).
#[verifier::external_body]
pub(crate) fn push_str(s: &mut String, t: &str)
    ensures
        final(s)@ == old(s)@ + t@,
{
    s.push_str(t);
}

/// Appends the characters `cs[from..to]`.
pub fn push_chars(s: &mut String, cs: &Vec<char>, from: usize, to: usize)
    requires
        from <= to <= cs@.len(),
    ensures
        final(s)@ == old(s)@ + cs@.subrange(from as int, to as int),
{
    let ghost start = s@;
    let mut i = from;
    while i < to
        invariant
            from <= i <= to <= cs@.len(),
            s@ == start + cs@.subrange(from as int, i as int),
        decreases to - i,
    {
        push_char(s, cs[i]);
        i = i + 1;
        assert(cs@.subrange(from as int, i as int) =~= cs@.subrange(from as int, (i - 1) as int).push(
            cs@[i - 1],
        ));
    }
}

/// A new `String` holding `cs[from..to]`.
pub fn string_of(cs: &Vec<char>, from: usize, to: usize) -> (out: String)
    requires
        from <= to <= cs@.len(),
    ensures
        out@ == cs@.subrange(from as int, to as int),
{
    let mut out = String::new();
    push_chars(&mut out, cs, from, to);
    assert(out@ =~= cs@.subrange(from as int, to as int));
    out
}

/// A new `String` equal to a string slice.
pub fn to_owned_string(s: &str) -> (out: String)
    ensures
        out@ == s@,
{
    let mut out = String::new();
    push_str(&mut out, s);
    assert(out@ =~= s@);
    out
}

/// Whether `s` begins with `prefix`.
pub open spec fn has_prefix(s: Seq<char>, prefix: Seq<char>) -> bool {
    prefix.len() <= s.len() && s.take(prefix.len() as int) == prefix
}

/// Whether `s` ends with `suffix`.
pub open spec fn has_suffix(s: Seq<char>, suffix: Seq<char>) -> bool {
    suffix.len() <= s.len() && s.skip(s.len() - suffix.len()) == suffix
}

/// Whether `cs` ends with the characters of `suffix`.
pub fn ends_with(cs: &Vec<char>, suffix: &str) -> (b: bool)
    ensures
        b == has_suffix(cs@, suffix@),
{
    let sfx = chars_of(suffix);
    if sfx.len() > cs.len() {
        return false;
    }
    let n = cs.len();
    let off = n - sfx.len();
    let mut i: usize = 0;
    while i < sfx.len()
        invariant
            n == cs@.len(),
            sfx@ == suffix@,
            off + sfx@.len() == cs@.len(),
            i <= sfx@.len(),
            forall|k: int| 0 <= k < i ==> cs@[off + k] == sfx@[k],
        decreases sfx@.len() - i,
    {
        if cs[off + i] != sfx[i] {
            assert(cs@.skip(off as int)[i as int] != suffix@[i as int]);
            return false;
        }
        i = i + 1;
    }
    assert(cs@.skip(off as int) =~= suffix@);
    true
}

/// Whether `s` equals the characters of `t`.
pub fn chars_eq(s: &Vec<char>, t: &str) -> (b: bool)
    ensures
        b == (s@ == t@),
{
    let tc = chars_of(t);
    if s.len() != tc.len() {
        return false;
    }
    let mut i: usize = 0;
    while i < s.len()
        invariant
            tc@ == t@,
            s@.len() == tc@.len(),
            i <= s@.len(),
            forall|k: int| 0 <= k < i ==> s@[k] == tc@[k],
        decreases s@.len() - i,
    {
        if s[i] != tc[i] {
            return false;
        }
        i = i + 1;
    }
    assert(s@ =~= t@);
    true
}

/// Whether the string `s` equals the characters of `t`.
pub fn str_eq(s: &str, t: &str) -> (b: bool)
    ensures
        b == (s@ == t@),
{
    let sc = chars_of(s);
    chars_eq(&sc, t)
}

/// Whether `c` occurs in `s`.
pub fn contains_char(s: &Vec<char>, c: char) -> (b: bool)
    ensures
        b == s@.contains(c),
{
    let mut i: usize = 0;
    while i < s.len()
        invariant
            i <= s@.len(),
            forall|k: int| 0 <= k < i ==> s@[k] != c,
        decreases s@.len() - i,
    {
        if s[i] == c {
            assert(s@[i as int] == c);
            return true;
        }
        i = i + 1;
    }
    false
}

// ---------------------------------------------------------------------------
// Decimal numbers
// ---------------------------------------------------------------------------

/// The decimal digits of `n`, most significant first, without leading zeros
/// (`"0"` for zero): what `Display` prints for an unsigned integer.
pub open spec fn dec(n: nat) -> Seq<char>
    decreases n,
{
    if n < 10 {
        seq![digit_char(n)]
    } else {
        dec(n / 10).push(digit_char(n % 10))
    }
}

/// The character for a digit value.
pub fn digit_to_char(d: u64) -> (c: char)
    requires
        d < 10,
    ensures
        c == digit_char(d as nat),
{
    if d == 0 {
        '0'
    } else if d == 1 {
        '1'
    } else if d == 2 {
        '2'
    } else if d == 3 {
        '3'
    } else if d == 4 {
        '4'
    } else if d == 5 {
        '5'
    } else if d == 6 {
        '6'
    } else if d == 7 {
        '7'
    } else if d == 8 {
        '8'
    } else {
        '9'
    }
}

/// Appends the decimal form of `n` (as `format!("{}", n)` prints it).
pub fn push_dec(s: &mut String, n: u64)
    ensures
        final(s)@ == old(s)@ + dec(n as nat),
    decreases n,
{
    if n < 10 {
        push_char(s, digit_to_char(n));
        assert(seq![digit_char(n as nat)] =~= dec(n as nat));
    } else {
        push_dec(s, n / 10);
        push_char(s, digit_to_char(n % 10));
        assert(final(s)@ =~= old(s)@ + dec(n as nat));
    }
}

// ---------------------------------------------------------------------------
// Parsing unsigned integers
// ---------------------------------------------------------------------------

/// The number written by a string of decimal digits (most significant first).
pub open spec fn digits_value(s: Seq<char>) -> nat
    decreases s.len(),
{
    if s.len() == 0 {
        0
    } else {
        digits_value(s.drop_last()) * 10 + digit_value(s.last())
    }
}

/// Every character of `s` is an ASCII digit.
pub open spec fn all_digits(s: Seq<char>) -> bool {
    forall|i: int| 0 <= i < s.len() ==> is_digit(#[trigger] s[i])
}

/// `str::parse` for an unsigned integer type whose largest value is `max`: an optional
/// `+`, then at least one ASCII digit, and a value that fits.
pub open spec fn parse_uint(s: Seq<char>, max: nat) -> Option<nat> {
    let t = if s.len() > 0 && s[0] == '+' {
        s.drop_first()
    } else {
        s
    };
    if t.len() > 0 && all_digits(t) && digits_value(t) <= max {
        Some(digits_value(t))
    } else {
        None
    }
}

proof fn lemma_digits_value_prefix(s: Seq<char>, k: int)
    requires
        0 <= k <= s.len(),
    ensures
        digits_value(s.take(k)) <= digits_value(s),
    decreases s.len() - k,
{
    if k < s.len() {
        lemma_digits_value_prefix(s, k + 1);
        assert(s.take(k + 1).drop_last() =~= s.take(k));
    } else {
        assert(s.take(k) =~= s);
    }
}

/// Parses `cs[from..to]` as an unsigned integer no larger than `max`.
pub fn parse_uint_range(cs: &Vec<char>, from: usize, to: usize, max: u64) -> (r: Option<u64>)
    requires
        from <= to <= cs@.len(),
        max >= 9,
    ensures
        match r {
            Some(v) => parse_uint(cs@.subrange(from as int, to as int), max as nat) == Some(
                v as nat,
            ),
            None => parse_uint(cs@.subrange(from as int, to as int), max as nat) is None,
        },
{
    let ghost s = cs@.subrange(from as int, to as int);
    let mut start = from;
    if from < to && cs[from] == '+' {
        start = from + 1;
    }
    let ghost t = cs@.subrange(start as int, to as int);
    assert(t == (if s.len() > 0 && s[0] == '+' { s.drop_first() } else { s }));
    if start == to {
        return None;
    }
    let mut val: u64 = 0;
    let mut i = start;
    while i < to
        invariant
            from <= start <= i <= to <= cs@.len(),
            t == cs@.subrange(start as int, to as int),
            s == cs@.subrange(from as int, to as int),
            t == (if s.len() > 0 && s[0] == '+' { s.drop_first() } else { s }),
            t.len() > 0,
            max >= 9,
            val as nat == digits_value(t.take(i - start)),
            val <= max,
            all_digits(t.take(i - start)),
        decreases to - i,
    {
        let c = cs[i];
        assert(t[i - start] == c);
        if !is_ascii_digit(c) {
            assert(!is_digit(t[i - start]));
            return None;
        }
        let d = (c as u32 - '0' as u32) as u64;
        assert(t.take(i - start + 1).drop_last() =~= t.take(i - start));
        if val > (max - d) / 10 {
            proof {
                lemma_digits_value_prefix(t, i - start + 1);
                assert(digits_value(t.take(i - start + 1)) == val * 10 + d);
            }
            return None;
        }
        val = val * 10 + d;
        i = i + 1;
        assert forall|k: int| 0 <= k < t.take(i - start).len() implies is_digit(
            #[trigger] t.take(i - start)[k],
        ) by {
            if k < i - start - 1 {
                assert(t.take(i - start)[k] == t.take(i - start - 1)[k]);
            }
        }
    }
    assert(t.take(i - start) =~= t);
    Some(val)
}

/// The items of `parts` separated by commas.
pub open spec fn join_commas(parts: Seq<Seq<char>>) -> Seq<char>
    decreases parts.len(),
{
    if parts.len() == 0 {
        Seq::empty()
    } else if parts.len() == 1 {
        parts[0]
    } else {
        join_commas(parts.drop_last()) + seq![','] + parts.last()
    }
}

// ---------------------------------------------------------------------------
// Splitting
// ---------------------------------------------------------------------------

/// `str::split` on a character: the pieces between occurrences of `sep`, including
/// empty ones; there is always at least one piece.
pub open spec fn split_on(s: Seq<char>, sep: char) -> Seq<Seq<char>>
    decreases s.len(),
{
    if s.len() == 0 {
        seq![Seq::empty()]
    } else {
        let rest = split_on(s.drop_last(), sep);
        if s.last() == sep {
            rest.push(Seq::empty())
        } else {
            rest.update(rest.len() - 1, rest.last().push(s.last()))
        }
    }
}

proof fn lemma_split_on_nonempty(s: Seq<char>, sep: char)
    ensures
        split_on(s, sep).len() >= 1,
    decreases s.len(),
{
    if s.len() > 0 {
        lemma_split_on_nonempty(s.drop_last(), sep);
    }
}

/// The bounds of the pieces of `cs` between occurrences of `sep` (see [`split_on`]).
pub fn split_bounds(cs: &Vec<char>, sep: char) -> (out: Vec<(usize, usize)>)
    ensures
        out@.len() == split_on(cs@, sep).len(),
        forall|k: int|
            0 <= k < out@.len() ==> {
                &&& (#[trigger] out@[k]).0 <= out@[k].1 <= cs@.len()
                &&& cs@.subrange(out@[k].0 as int, out@[k].1 as int) == split_on(cs@, sep)[k]
            },
{
    let n = cs.len();
    let mut out: Vec<(usize, usize)> = Vec::new();
    let mut start: usize = 0;
    let mut i: usize = 0;
    assert(cs@.take(0) =~= Seq::<char>::empty());
    while i < n
        invariant
            n == cs@.len(),
            start <= i <= n,
            out@.len() + 1 == split_on(cs@.take(i as int), sep).len(),
            forall|k: int|
                0 <= k < out@.len() ==> {
                    &&& (#[trigger] out@[k]).0 <= out@[k].1 <= i
                    &&& cs@.subrange(out@[k].0 as int, out@[k].1 as int) == split_on(
                        cs@.take(i as int),
                        sep,
                    )[k]
                },
            cs@.subrange(start as int, i as int) == split_on(cs@.take(i as int), sep).last(),
        decreases n - i,
    {
        let ghost prev = split_on(cs@.take(i as int), sep);
        proof {
            lemma_split_on_nonempty(cs@.take(i as int), sep);
            assert(cs@.take(i + 1).drop_last() =~= cs@.take(i as int));
        }
        if cs[i] == sep {
            out.push((start, i));
            start = i + 1;
            i = i + 1;
            assert(cs@.subrange(start as int, i as int) =~= Seq::<char>::empty());
        } else {
            i = i + 1;
            assert(cs@.subrange(start as int, i as int) =~= cs@.subrange(
                start as int,
                i - 1,
            ).push(cs@[i - 1]));
        }
    }
    assert(cs@.take(n as int) =~= cs@);
    proof {
        lemma_split_on_nonempty(cs@, sep);
    }
    out.push((start, n));
    out
}

/// The index of the first occurrence of `pat` in `s`, searching from `from`.
pub open spec fn find_from(s: Seq<char>, pat: Seq<char>, from: int) -> Option<int>
    decreases s.len() + 1 - from,
{
    if from < 0 || from + pat.len() > s.len() {
        None
    } else if s.subrange(from, from + pat.len()) == pat {
        Some(from)
    } else {
        find_from(s, pat, from + 1)
    }
}

/// `str::find` for a string pattern: the first index at which `pat` occurs in `s`.
pub open spec fn find_sub(s: Seq<char>, pat: Seq<char>) -> Option<int> {
    find_from(s, pat, 0)
}

/// The first index at which the characters of `pat` occur in `cs` (see [`find_sub`]).
pub fn find_str(cs: &Vec<char>, pat: &str) -> (r: Option<usize>)
    ensures
        match r {
            Some(i) => find_sub(cs@, pat@) == Some(i as int),
            None => find_sub(cs@, pat@) is None,
        },
{
    let p = chars_of(pat);
    let n = cs.len();
    let m = p.len();
    if m > n {
        assert(find_from(cs@, pat@, 0) is None);
        return None;
    }
    if m == 0 {
        assert(cs@.subrange(0, 0) =~= pat@);
        return Some(0);
    }
    let mut i: usize = 0;
    while i <= n - m
        invariant
            n == cs@.len(),
            m == p@.len(),
            p@ == pat@,
            1 <= m <= n,
            i <= n - m + 1,
            find_sub(cs@, pat@) == find_from(cs@, pat@, i as int),
        decreases n - i,
    {
        let mut j: usize = 0;
        let mut same = true;
        assert(cs@.subrange(i as int, i as int) =~= p@.take(0));
        while j < m
            invariant
                n == cs@.len(),
                m == p@.len(),
                i + m <= n,
                j <= m,
                same == (cs@.subrange(i as int, i + j) == p@.take(j as int)),
            decreases m - j,
        {
            if cs[i + j] != p[j] {
                if same {
                    assert(cs@.subrange(i as int, i + j + 1)[j as int] != p@.take(j + 1)[j as int]);
                }
                same = false;
            } else if same {
                assert(cs@.subrange(i as int, i + j + 1) =~= p@.take(j + 1));
            }
            j = j + 1;
            if !same {
                assert(cs@.subrange(i as int, i + j) != p@.take(j as int)) by {
                    if cs@.subrange(i as int, i + j) == p@.take(j as int) {
                        assert(cs@.subrange(i as int, i + j - 1) =~= p@.take(j - 1));
                    }
                }
            }
        }
        assert(p@.take(m as int) =~= p@);
        if same {
            return Some(i);
        }
        i = i + 1;
    }
    None
}

/// The end of the first line of `s`: the index of its first `\n`, or its length.
pub open spec fn line_end(s: Seq<char>) -> nat
    decreases s.len(),
{
    if s.len() == 0 {
        0
    } else if s[0] == '\n' {
        0
    } else {
        1 + line_end(s.drop_first())
    }
}

/// A line without the `\r` that ends it, if any.
pub open spec fn strip_cr(l: Seq<char>) -> Seq<char> {
    if l.len() > 0 && l.last() == '\r' {
        l.drop_last()
    } else {
        l
    }
}

/// `str::lines`: the pieces of `s` between `\n` characters; a line ended by `\r\n`
/// loses its `\r` (a `\r` that ends the text without a `\n` stays), a final `\n` does
/// not start another line, and an empty string has no lines.
pub open spec fn lines_of(s: Seq<char>) -> Seq<Seq<char>>
    decreases s.len(),
{
    if s.len() == 0 {
        Seq::empty()
    } else {
        let e = line_end(s) as int;
        if e >= s.len() {
            seq![s]
        } else {
            seq![strip_cr(s.take(e as int))] + lines_of(s.skip(e + 1))
        }
    }
}

proof fn lemma_line_end(s: Seq<char>, j: int)
    requires
        0 <= j <= s.len(),
        forall|k: int| 0 <= k < j ==> s[k] != '\n',
        j == s.len() || s[j] == '\n',
    ensures
        line_end(s) == j,
    decreases s.len(),
{
    if s.len() > 0 && s[0] != '\n' {
        lemma_line_end(s.drop_first(), j - 1);
    }
}

/// The bounds of the lines of `cs` (see [`lines_of`]).
pub fn line_bounds(cs: &Vec<char>) -> (out: Vec<(usize, usize)>)
    ensures
        out@.len() == lines_of(cs@).len(),
        forall|k: int|
            0 <= k < out@.len() ==> {
                &&& (#[trigger] out@[k]).0 <= out@[k].1 <= cs@.len()
                &&& cs@.subrange(out@[k].0 as int, out@[k].1 as int) == lines_of(cs@)[k]
            },
{
    let n = cs.len();
    let mut out: Vec<(usize, usize)> = Vec::new();
    let mut pos: usize = 0;
    let ghost mut done: Seq<Seq<char>> = Seq::empty();
    assert(cs@.skip(0) =~= cs@);
    while pos < n
        invariant
            n == cs@.len(),
            pos <= n,
            out@.len() == done.len(),
            lines_of(cs@) == done + lines_of(cs@.skip(pos as int)),
            forall|k: int|
                0 <= k < out@.len() ==> {
                    &&& (#[trigger] out@[k]).0 <= out@[k].1 <= n
                    &&& cs@.subrange(out@[k].0 as int, out@[k].1 as int) == done[k]
                },
        decreases n - pos,
    {
        let mut j = pos;
        while j < n && cs[j] != '\n'
            invariant
                n == cs@.len(),
                pos <= j <= n,
                forall|k: int| pos <= k < j ==> cs@[k] != '\n',
            decreases n - j,
        {
            j = j + 1;
        }
        let ghost rest = cs@.skip(pos as int);
        proof {
            lemma_line_end(rest, j - pos);
        }
        let mut e = j;
        if j < n && e > pos && cs[e - 1] == '\r' {
            e = e - 1;
        }
        let ghost line = if j - pos >= rest.len() {
            rest
        } else {
            rest.take(j - pos)
        };
        let ghost shown = if j < n {
            strip_cr(line)
        } else {
            line
        };
        assert(line =~= cs@.subrange(pos as int, j as int));
        assert(cs@.subrange(pos as int, e as int) == shown) by {
            if e < j {
                assert(cs@.subrange(pos as int, e as int) =~= line.drop_last());
            }
        }
        out.push((pos, e));
        proof {
            done = done.push(shown);
        }
        if j >= n {
            assert(lines_of(rest) =~= seq![line]);
            assert(cs@.skip(n as int) =~= Seq::<char>::empty());
            pos = n;
            assert(lines_of(cs@) =~= done + lines_of(cs@.skip(pos as int)));
        } else {
            assert(rest.skip(j - pos + 1) =~= cs@.skip(j + 1));
            pos = j + 1;
            assert(lines_of(cs@) =~= done + lines_of(cs@.skip(pos as int)));
        }
    }
    assert(cs@.skip(n as int) =~= Seq::<char>::empty());
    assert(done =~= lines_of(cs@));
    out
}

/// `str::split_whitespace`: the maximal runs of non-whitespace characters of `s`.
pub open spec fn words_of(s: Seq<char>) -> Seq<Seq<char>>
    decreases s.len(),
{
    if s.len() == 0 {
        Seq::empty()
    } else {
        let rest = words_of(s.drop_last());
        if is_ws(s.last()) {
            rest
        } else if s.len() >= 2 && !is_ws(s[s.len() - 2]) && rest.len() > 0 {
            rest.update(rest.len() - 1, rest.last().push(s.last()))
        } else {
            rest.push(seq![s.last()])
        }
    }
}

/// The bounds of the words of `cs[from..to]` (see [`words_of`]).
pub fn word_bounds(cs: &Vec<char>, from: usize, to: usize) -> (out: Vec<(usize, usize)>)
    requires
        from <= to <= cs@.len(),
    ensures
        out@.len() == words_of(cs@.subrange(from as int, to as int)).len(),
        forall|k: int|
            0 <= k < out@.len() ==> {
                &&& (#[trigger] out@[k]).0 <= out@[k].1 <= cs@.len()
                &&& cs@.subrange(out@[k].0 as int, out@[k].1 as int) == words_of(
                    cs@.subrange(from as int, to as int),
                )[k]
            },
{
    let ghost s = cs@.subrange(from as int, to as int);
    let mut out: Vec<(usize, usize)> = Vec::new();
    let mut i = from;
    let mut start = from;
    let mut in_word = false;
    assert(s.take(0) =~= Seq::<char>::empty());
    while i < to
        invariant
            from <= start <= i <= to <= cs@.len(),
            s == cs@.subrange(from as int, to as int),
            in_word ==> i > from && !is_ws(cs@[i - 1]) && start < i,
            !in_word ==> (i == from || is_ws(cs@[i - 1])),
            ({
                let w = words_of(s.take(i - from));
                &&& w.len() == out@.len() + (if in_word { 1int } else { 0int })
                &&& forall|k: int|
                    0 <= k < out@.len() ==> {
                        &&& (#[trigger] out@[k]).0 <= out@[k].1 <= cs@.len()
                        &&& cs@.subrange(out@[k].0 as int, out@[k].1 as int) == w[k]
                    }
                &&& in_word ==> cs@.subrange(start as int, i as int) == w.last()
            }),
        decreases to - i,
    {
        let ghost pre = s.take(i - from);
        let ghost post = s.take(i - from + 1);
        assert(post.drop_last() =~= pre);
        assert(post.last() == cs@[i as int]);
        let c = cs[i];
        if is_whitespace(c) {
            if in_word {
                out.push((start, i));
            }
            in_word = false;
        } else {
            if !in_word {
                start = i;
                in_word = true;
                assert(cs@.subrange(start as int, i + 1) =~= seq![c]);
            } else {
                assert(pre.len() >= 1 && pre.last() == cs@[i - 1]);
                assert(cs@.subrange(start as int, i + 1) =~= cs@.subrange(start as int, i as int).push(c));
            }
        }
        i = i + 1;
    }
    if in_word {
        out.push((start, to));
    }
    assert(s.take(to - from) =~= s);
    out
}

// ---------------------------------------------------------------------------
// Trimming
// ---------------------------------------------------------------------------

/// `str::trim_start`: `s` without its leading whitespace.
pub open spec fn trim_start(s: Seq<char>) -> Seq<char>
    decreases s.len(),
{
    if s.len() > 0 && is_ws(s[0]) {
        trim_start(s.drop_first())
    } else {
        s
    }
}

/// `str::trim_end`: `s` without its trailing whitespace.
pub open spec fn trim_end(s: Seq<char>) -> Seq<char>
    decreases s.len(),
{
    if s.len() > 0 && is_ws(s.last()) {
        trim_end(s.drop_last())
    } else {
        s
    }
}

/// `str::trim`: `s` without leading and trailing whitespace.
pub open spec fn trim(s: Seq<char>) -> Seq<char> {
    trim_end(trim_start(s))
}

/// The bounds `(a, b)` of the trimmed part of `cs[from..to]`.
pub fn trim_bounds(cs: &Vec<char>, from: usize, to: usize) -> (r: (usize, usize))
    requires
        from <= to <= cs@.len(),
    ensures
        from <= r.0 <= r.1 <= to,
        cs@.subrange(r.0 as int, r.1 as int) == trim(cs@.subrange(from as int, to as int)),
{
    let ghost s = cs@.subrange(from as int, to as int);
    let mut a = from;
    while a < to && is_whitespace(cs[a])
        invariant
            from <= a <= to <= cs@.len(),
            s == cs@.subrange(from as int, to as int),
            trim_start(s) == trim_start(cs@.subrange(a as int, to as int)),
        decreases to - a,
    {
        assert(cs@.subrange(a as int, to as int).drop_first() =~= cs@.subrange(
            a + 1,
            to as int,
        ));
        a = a + 1;
    }
    assert(trim_start(s) == cs@.subrange(a as int, to as int));
    let mut b = to;
    while b > a && is_whitespace(cs[b - 1])
        invariant
            from <= a <= b <= to <= cs@.len(),
            trim(s) == trim_end(cs@.subrange(a as int, b as int)),
        decreases b - a,
    {
        assert(cs@.subrange(a as int, b as int).drop_last() =~= cs@.subrange(
            a as int,
            b - 1,
        ));
        b = b - 1;
    }
    (a, b)
}

/// `str::trim` on a whole string, as a new `String`.
pub fn trimmed(s: &str) -> (out: String)
    ensures
        out@ == trim(s@),
{
    let cs = chars_of(s);
    let (a, b) = trim_bounds(&cs, 0, cs.len());
    assert(cs@.subrange(0, cs@.len() as int) =~= s@);
    string_of(&cs, a, b)
}

// ---------------------------------------------------------------------------
// Case conversion (Unicode tables are the standard library's)
// ---------------------------------------------------------------------------

/// What `str::to_lowercase` returns for a string.
pub uninterp spec fn unicode_lower(s: Seq<char>) -> Seq<char>;

/// What `str::to_uppercase` returns for a string.
pub uninterp spec fn unicode_upper(s: Seq<char>) -> Seq<char>;

/// `str::to_lowercase`: the full Unicode lower-case mapping of `s`. The mapping tables
/// belong to the standard library; the contract names the result and says no more.
#[verifier::external_body]
pub(crate) fn to_lowercase(s: &str) -> (out: String)
    ensures
        out@ == unicode_lower(s@),
{
    s.to_lowercase()
}

/// `str::to_uppercase`: the full Unicode upper-case mapping of `s`. The mapping tables
/// belong to the standard library; the contract names the result and says no more.
#[verifier::external_body]
pub(crate) fn to_uppercase(s: &str) -> (out: String)
    ensures
        out@ == unicode_upper(s@),
{
    s.to_uppercase()
}

} // verus!
