//! Shared helpers: configuration defaults, size and timeout formatting/parsing,
//! hashing and the keystream cipher used by file transfers.
use vstd::prelude::*;
use vstd::arithmetic::power2::pow2;
use vstd::arithmetic::div_mod::*;
use crate::text::{
    chars_of, dec, digit_char, digit_to_char, ends_with, has_suffix, parse_uint, parse_uint_range,
    push_char, push_dec, push_str, to_owned_string, trim, trim_bounds,
};
use std::time::Duration;
use sha2::{Digest, Sha256};

verus! {

// ---------------------------------------------------------------------------
// Configuration
// ---------------------------------------------------------------------------

/// User configuration stored as JSON in the configuration directory.
pub struct AppConfig {
    pub default_interface: Option<String>,
    pub default_scan_range: String,
    pub default_timeout: String,
}

impl Default for AppConfig {
    /// No default interface, ports `1-1000`, a `500ms` timeout.
    fn default() -> (cfg: Self)
        ensures
            cfg.default_interface is None,
            cfg.default_scan_range@ == "1-1000"@,
            cfg.default_timeout@ == "500ms"@,
    {
        AppConfig {
            default_interface: None,
            default_scan_range: to_owned_string("1-1000"),
            default_timeout: to_owned_string("500ms"),
        }
    }
}

// ---------------------------------------------------------------------------
// Human-readable sizes
// ---------------------------------------------------------------------------

pub const KIB: u64 = 1024;

pub const MIB: u64 = 1048576;

pub const GIB: u64 = 1073741824;

/// The number of low bits of `n` that do not fit in the 53-bit significand of an `f64`.
pub open spec fn sig_shift(n: nat) -> nat
    decreases n,
{
    if n < 0x20_0000_0000_0000 {
        0
    } else {
        1 + sig_shift(n / 2)
    }
}

/// `n / d`, rounded to the nearest integer, ties to even.
pub open spec fn div_round_even(n: nat, d: nat) -> nat {
    let q = n / d;
    let r = n % d;
    if r * 2 > d || (r * 2 == d && q % 2 == 1) {
        q + 1
    } else {
        q
    }
}

/// The value of `n as f64`: `n` rounded to 53 significant bits, ties to even.
pub open spec fn f64_value(n: nat) -> nat {
    let p = pow2(sig_shift(n));
    div_round_even(n, p) * p
}

/// A number of hundredths printed with two decimals, as `{:.2}` prints it.
pub open spec fn fixed2(h: nat) -> Seq<char> {
    dec(h / 100) + seq!['.', digit_char((h % 100) / 10), digit_char(h % 10)]
}

/// `value / unit` in hundredths, rounded as float formatting rounds (ties to even).
pub open spec fn hundredths(value: nat, unit: nat) -> nat {
    div_round_even(value * 100, unit)
}

/// What `format_size` prints: bytes below 1 KiB as an integer, larger sizes with two
/// decimals in the largest binary unit (KB, MB or GB) that they reach.
pub open spec fn size_text(bytes: nat) -> Seq<char> {
    if bytes >= GIB {
        fixed2(hundredths(f64_value(bytes), GIB as nat)) + seq![' ', 'G', 'B']
    } else if bytes >= MIB {
        fixed2(hundredths(bytes, MIB as nat)) + seq![' ', 'M', 'B']
    } else if bytes >= KIB {
        fixed2(hundredths(bytes, KIB as nat)) + seq![' ', 'K', 'B']
    } else {
        dec(bytes) + seq![' ', 'B']
    }
}

proof fn lemma_div2_pow(n: nat, s: nat)
    ensures
        n / pow2(s) / 2 == n / pow2(s + 1),
        pow2(s + 1) == pow2(s) * 2,
{
    vstd::arithmetic::power2::lemma_pow2_pos(s);
    vstd::arithmetic::power2::lemma_pow2_adds(s, 1);
    vstd::arithmetic::power2::lemma2_to64();
    lemma_div_denominator(n as int, pow2(s) as int, 2);
}

/// `n as f64` as an exact integer, with `f64_value`'s rounding.
fn f64_value_exec(n: u64) -> (f: u128)
    ensures
        f == f64_value(n as nat),
        f <= 0x1_0000_0000_0000_0000,
{
    proof {
        vstd::arithmetic::power2::lemma2_to64();
        vstd::arithmetic::power2::lemma2_to64_rest();
    }
    let mut m: u64 = n;
    let mut p: u64 = 1;
    let ghost mut s: nat = 0;
    while m >= 9007199254740992
        invariant
            p == pow2(s),
            m == n as nat / pow2(s),
            sig_shift(n as nat) == s + sig_shift(m as nat),
            s <= 11,
            pow2(53) == 9007199254740992,
            pow2(11) == 2048,
        decreases m,
    {
        proof {
            lemma_div2_pow(n as nat, s);
            // m >= 2^53 and m < 2^(64 - s) bound the shift
            vstd::arithmetic::power2::lemma_pow2_pos(s);
            lemma_div_is_ordered_by_denominator(n as int, 1, pow2(s) as int);
            if s >= 11 {
                if s > 11 {
                    vstd::arithmetic::power2::lemma_pow2_strictly_increases(11, s);
                }
                lemma_div_is_ordered_by_denominator(n as int, pow2(11) as int, pow2(s) as int);
                assert(n as nat / 2048 < 9007199254740992);
                assert(false);
            }
            vstd::arithmetic::power2::lemma_pow2_strictly_increases(s, 11);
        }
        m = m / 2;
        p = p * 2;
        proof {
            s = s + 1;
        }
    }
    proof {
        assert(sig_shift(m as nat) == 0);
        vstd::arithmetic::power2::lemma_pow2_pos(s);
        lemma_fundamental_div_mod(n as int, p as int);
    }
    let r = n % p;
    let up = r * 2 > p || (r * 2 == p && m % 2 == 1);
    let q: u128 = if up { m as u128 + 1 } else { m as u128 };
    proof {
        vstd::arithmetic::mul::lemma_mul_upper_bound(q as int, 9007199254740992, p as int, 2048);
    }
    q * (p as u128)
}

/// Appends `h` hundredths with two decimals.
fn push_fixed2(s: &mut String, h: u128)
    requires
        h < 0x1_0000_0000_0000_0000,
    ensures
        final(s)@ == old(s)@ + fixed2(h as nat),
{
    let whole = (h / 100) as u64;
    let frac = (h % 100) as u64;
    push_dec(s, whole);
    push_char(s, '.');
    push_char(s, digit_to_char(frac / 10));
    push_char(s, digit_to_char(frac % 10));
    assert(final(s)@ =~= old(s)@ + fixed2(h as nat));
}

/// `value * 100 / unit`, rounded ties to even.
fn hundredths_exec(value: u128, unit: u128) -> (h: u128)
    requires
        1024 <= unit <= 0x1_0000_0000_0000_0000,
        value <= 0x1_0000_0000_0000_0000,
    ensures
        h == hundredths(value as nat, unit as nat),
        h < 0x1_0000_0000_0000_0000,
{
    let num = value * 100;
    proof {
        lemma_div_is_ordered_by_denominator(num as int, 1024, unit as int);
        assert(num / 1024 < 0x1_0000_0000_0000_0000 - 1);
    }
    let q = num / unit;
    let r = num % unit;
    if r * 2 > unit || (r * 2 == unit && q % 2 == 1) {
        q + 1
    } else {
        q
    }
}

/// Formats a byte count for display, e.g. `512 B`, `1.50 KB`, `2.00 GB`.
pub fn format_size(bytes: u64) -> (out: String)
    ensures
        out@ == size_text(bytes as nat),
{
    let mut out = String::new();
    if bytes >= GIB {
        let f = f64_value_exec(bytes);
        let h = hundredths_exec(f, GIB as u128);
        push_fixed2(&mut out, h);
        push_str(&mut out, " GB");
    } else if bytes >= MIB {
        let h = hundredths_exec(bytes as u128, MIB as u128);
        push_fixed2(&mut out, h);
        push_str(&mut out, " MB");
    } else if bytes >= KIB {
        let h = hundredths_exec(bytes as u128, KIB as u128);
        push_fixed2(&mut out, h);
        push_str(&mut out, " KB");
    } else {
        push_dec(&mut out, bytes);
        push_str(&mut out, " B");
    }
    proof {
        reveal_strlit(" GB");
        reveal_strlit(" MB");
        reveal_strlit(" KB");
        reveal_strlit(" B");
    }
    assert(out@ =~= size_text(bytes as nat));
    out
}

// ---------------------------------------------------------------------------
// Timeouts
// ---------------------------------------------------------------------------

pub open spec fn u64_max() -> nat {
    0xffff_ffff_ffff_ffff
}

/// The milliseconds a timeout string denotes: `<n>ms` (with optional blanks before the
/// suffix), `<n>s` (seconds), or a bare number of milliseconds.
pub open spec fn timeout_millis(s: Seq<char>) -> Option<nat> {
    if has_suffix(s, seq!['m', 's']) {
        parse_uint(trim(s.take(s.len() - 2)), u64_max())
    } else if has_suffix(s, seq!['s']) {
        match parse_uint(trim(s.take(s.len() - 1)), u64_max()) {
            Some(v) => Some(v * 1000),
            None => None,
        }
    } else {
        parse_uint(s, u64_max())
    }
}

/// A timeout in seconds whose milliseconds overflow `u64` makes the conversion panic;
/// every other string is accepted by [`parse_timeout_millis`].
pub open spec fn timeout_in_range(s: Seq<char>) -> bool {
    match timeout_millis(s) {
        Some(v) => v <= u64_max(),
        None => true,
    }
}

/// The error text for a timeout that does not parse.
pub open spec fn invalid_timeout_message(s: Seq<char>) -> Seq<char> {
    "Invalid timeout: "@ + s
}

/// The milliseconds of a timeout string, computed without overflow.
fn timeout_value(s: &str) -> (r: Option<u128>)
    ensures
        match r {
            Some(v) => timeout_millis(s@) == Some(v as nat),
            None => timeout_millis(s@) is None,
        },
{
    let cs = chars_of(s);
    let n = cs.len();
    assert(cs@.subrange(0, n as int) =~= s@);
    proof {
        reveal_strlit("ms");
        reveal_strlit("s");
        assert("ms"@ =~= seq!['m', 's']);
        assert("s"@ =~= seq!['s']);
    }
    if ends_with(&cs, "ms") {
        let (a, b) = trim_bounds(&cs, 0, n - 2);
        assert(cs@.subrange(0, n - 2) =~= s@.take(s@.len() - 2));
        match parse_uint_range(&cs, a, b, 0xffff_ffff_ffff_ffff) {
            Some(v) => Some(v as u128),
            None => None,
        }
    } else if ends_with(&cs, "s") {
        let (a, b) = trim_bounds(&cs, 0, n - 1);
        assert(cs@.subrange(0, n - 1) =~= s@.take(s@.len() - 1));
        match parse_uint_range(&cs, a, b, 0xffff_ffff_ffff_ffff) {
            Some(v) => Some(v as u128 * 1000),
            None => None,
        }
    } else {
        match parse_uint_range(&cs, 0, n, 0xffff_ffff_ffff_ffff) {
            Some(v) => Some(v as u128),
            None => None,
        }
    }
}

/// Parses a timeout such as `500ms`, `2s` or `750` (milliseconds).
pub fn parse_timeout_millis(s: &str) -> (r: Result<u64, String>)
    requires
        timeout_in_range(s@),
    ensures
        match r {
            Ok(v) => timeout_millis(s@) == Some(v as nat),
            Err(e) => timeout_millis(s@) is None && e@ == invalid_timeout_message(s@),
        },
{
    match timeout_value(s) {
        Some(v) => Ok(v as u64),
        None => {
            let mut e = to_owned_string("Invalid timeout: ");
            push_str(&mut e, s);
            Err(e)
        },
    }
}

/// Whether [`parse_timeout_millis`] may be called on `s` (see [`timeout_in_range`]).
pub fn timeout_fits(s: &str) -> (b: bool)
    ensures
        b == timeout_in_range(s@),
{
    match timeout_value(s) {
        Some(v) => v <= 0xffff_ffff_ffff_ffff,
        None => true,
    }
}

/// What `Duration::from_millis` returns.
pub uninterp spec fn duration_of_millis(ms: u64) -> Duration;

/// `Duration::from_millis`: a duration of `ms` milliseconds. `Duration` is opaque here,
/// so the contract names the result and says no more.
#[verifier::external_body]
fn duration_from_millis(ms: u64) -> (d: Duration)
    ensures
        d == duration_of_millis(ms),
{
    Duration::from_millis(ms)
}

/// Parses a timeout (see [`parse_timeout_millis`]) into a `Duration`.
pub fn parse_timeout_duration(s: &str) -> (r: Result<Duration, String>)
    requires
        timeout_in_range(s@),
    ensures
        match r {
            Ok(d) => timeout_millis(s@) matches Some(v) && d == duration_of_millis(v as u64),
            Err(e) => timeout_millis(s@) is None && e@ == invalid_timeout_message(s@),
        },
{
    match parse_timeout_millis(s) {
        Ok(v) => Ok(duration_from_millis(v)),
        Err(e) => Err(e),
    }
}

// ---------------------------------------------------------------------------
// Hashing
// ---------------------------------------------------------------------------

/// What SHA-256 computes for a message (32 bytes).
pub uninterp spec fn sha256(data: Seq<u8>) -> Seq<u8>;

/// `sha2::Sha256::digest`: the SHA-256 digest of `data`. The hash function belongs to
/// the `sha2` crate; the contract names the result and says no more.
#[verifier::external_body]
fn sha256_digest(data: &[u8]) -> (out: [u8; 32])
    ensures
        out@ == sha256(data@),
{
    Sha256::digest(data).into()
}

/// The lower-case hexadecimal digit for a value below 16.
pub open spec fn hex_digit(n: nat) -> char {
    if n < 10 {
        digit_char(n)
    } else {
        (('a' as u32) + (n - 10)) as char
    }
}

/// Lower-case hexadecimal text of a byte string, two digits per byte.
pub open spec fn hex_lower(data: Seq<u8>) -> Seq<char>
    decreases data.len(),
{
    if data.len() == 0 {
        Seq::empty()
    } else {
        hex_lower(data.drop_last()) + seq![
            hex_digit(data.last() as nat / 16),
            hex_digit(data.last() as nat % 16),
        ]
    }
}

/// `hex::encode`: lower-case hexadecimal text of `data`, as the `hex` crate writes it.
#[verifier::external_body]
fn hex_encode(data: &[u8]) -> (out: String)
    ensures
        out@ == hex_lower(data@),
{
    hex::encode(data)
}

/// SHA-256 of `data`, as lower-case hex.
pub fn sha256_bytes(data: &[u8]) -> (out: String)
    ensures
        out@ == hex_lower(sha256(data@)),
{
    let digest = sha256_digest(data);
    hex_encode(&digest)
}

/// An incremental SHA-256 computation over data that arrives in pieces (a file read
/// chunk by chunk). It holds a `sha2::Sha256` hasher.
#[verifier::external_body]
pub struct FileDigest {
    hasher: Sha256,
}

/// The bytes fed to a [`FileDigest`] so far, in order.
pub uninterp spec fn digest_input(d: FileDigest) -> Seq<u8>;

impl FileDigest {
    /// `Sha256::new`: a hasher that has been fed nothing.
    #[verifier::external_body]
    pub fn new() -> (d: FileDigest)
        ensures
            digest_input(d) == Seq::<u8>::empty(),
    {
        FileDigest { hasher: Sha256::new() }
    }

    /// `Digest::update`: feeds `chunk` after the bytes fed so far.
    #[verifier::external_body]
    pub fn update(&mut self, chunk: &[u8])
        ensures
            digest_input(*final(self)) == digest_input(*old(self)) + chunk@,
    {
        self.hasher.update(chunk);
    }

    /// `Digest::finalize` and `hex::encode`: the SHA-256 of everything fed, as lower-case
    /// hex. `sha2` documents that feeding data in pieces and finalising gives the digest
    /// of the concatenation.
    #[verifier::external_body]
    pub fn finish(self) -> (out: String)
        ensures
            out@ == hex_lower(sha256(digest_input(self))),
    {
        hex::encode(self.hasher.finalize())
    }
}

/// The 32-byte key derived from a passphrase: SHA-256 of its UTF-8 bytes.
pub fn derive_key(passphrase: &str) -> (key: [u8; 32])
    ensures
        key@ == sha256(vstd::utf8::encode_utf8(passphrase@)),
{
    sha256_digest(passphrase.as_bytes())
}

// ---------------------------------------------------------------------------
// Keystream cipher
// ---------------------------------------------------------------------------

/// The eight big-endian bytes of a 64-bit counter (`u64::to_be_bytes`).
pub open spec fn be_u64(c: int) -> Seq<u8> {
    seq![
        (c / 0x100_0000_0000_0000 % 256) as u8,
        (c / 0x1_0000_0000_0000 % 256) as u8,
        (c / 0x100_0000_0000 % 256) as u8,
        (c / 0x1_0000_0000 % 256) as u8,
        (c / 0x100_0000 % 256) as u8,
        (c / 0x1_0000 % 256) as u8,
        (c / 0x100 % 256) as u8,
        (c % 256) as u8,
    ]
}

/// Keystream block number `counter`: SHA-256 of the key followed by the counter.
pub open spec fn keystream_block(key: Seq<u8>, counter: int) -> Seq<u8> {
    sha256(key + be_u64(counter))
}

/// `buf` XORed with the keystream that starts at block `counter`: byte `i` uses byte
/// `i % 32` of block `counter + i / 32`.
pub open spec fn keystream_xor(buf: Seq<u8>, key: Seq<u8>, counter: int) -> Seq<u8> {
    Seq::new(buf.len(), |i: int| buf[i] ^ keystream_block(key, counter + i / 32)[i % 32])
}

/// The number of keystream blocks that a buffer of `len` bytes uses.
pub open spec fn blocks_for(len: nat) -> nat {
    (len + 31) / 32
}

/// Computes keystream block number `counter` for `key`.
fn keystream_block_exec(key: &[u8; 32], counter: u64) -> (block: [u8; 32])
    ensures
        block@ == keystream_block(key@, counter as int),
{
    let mut data: Vec<u8> = Vec::new();
    let mut i: usize = 0;
    while i < 32
        invariant
            i <= 32,
            data@ == key@.take(i as int),
        decreases 32 - i,
    {
        data.push(key[i]);
        i = i + 1;
        assert(data@ =~= key@.take(i as int));
    }
    data.push((counter / 0x100_0000_0000_0000 % 256) as u8);
    data.push((counter / 0x1_0000_0000_0000 % 256) as u8);
    data.push((counter / 0x100_0000_0000 % 256) as u8);
    data.push((counter / 0x1_0000_0000 % 256) as u8);
    data.push((counter / 0x100_0000 % 256) as u8);
    data.push((counter / 0x1_0000 % 256) as u8);
    data.push((counter / 0x100 % 256) as u8);
    data.push((counter % 256) as u8);
    assert(data@ =~= key@ + be_u64(counter as int));
    sha256_digest(data.as_slice())
}

/// XORs `buf` in place with the keystream derived from `key`, starting at block
/// `*counter`; one block covers 32 bytes, and `*counter` advances by the number of
/// blocks used.
pub fn xor_keystream_in_place(buf: &mut [u8], key: &[u8; 32], counter: &mut u64)
    requires
        *old(counter) + blocks_for(old(buf)@.len()) <= u64_max(),
    ensures
        final(buf)@ == keystream_xor(old(buf)@, key@, *old(counter) as int),
        *final(counter) == *old(counter) + blocks_for(old(buf)@.len()),
{
    let ghost orig = buf@;
    let ghost c0 = *counter as int;
    let len = buf.len();
    if len == 0 {
        assert(buf@ =~= keystream_xor(orig, key@, c0));
        return;
    }
    let mut start: usize = 0;
    while start < len
        invariant
            len == buf@.len(),
            orig.len() == len,
            start <= len,
            start < len ==> start % 32 == 0 && *counter == c0 + start / 32,
            start == len ==> *counter == c0 + blocks_for(len as nat),
            c0 + blocks_for(len as nat) <= u64_max(),
            forall|k: int| 0 <= k < start && k < len ==> buf@[k] == orig[k] ^ keystream_block(
                key@,
                c0 + k / 32,
            )[k % 32],
            forall|k: int| start <= k < len ==> buf@[k] == orig[k],
        decreases len - start,
    {
        let block = keystream_block_exec(key, *counter);
        let end = if len - start < 32 { len } else { start + 32 };
        let mut j = start;
        while j < end
            invariant
                len == buf@.len(),
                orig.len() == len,
                start <= j <= end <= len,
                end <= start + 32,
                start % 32 == 0,
                *counter == c0 + start / 32,
                block@ == keystream_block(key@, *counter as int),
                forall|k: int| 0 <= k < j ==> buf@[k] == orig[k] ^ keystream_block(
                    key@,
                    c0 + k / 32,
                )[k % 32],
                forall|k: int| j <= k < len ==> buf@[k] == orig[k],
            decreases end - j,
        {
            assert(j / 32 == start / 32 && j % 32 == j - start) by (nonlinear_arith)
                requires
                    start <= j < start + 32,
                    start % 32 == 0,
            ;
            let b = buf[j] ^ block[j - start];
            buf[j] = b;
            j = j + 1;
        }
        assert(end < len ==> end % 32 == 0 && end / 32 == start / 32 + 1);
        assert(end == len ==> blocks_for(len as nat) == start / 32 + 1);
        *counter = *counter + 1;
        start = end;
    }
    assert(buf@ =~= keystream_xor(orig, key@, c0));
}

/// Applying the keystream twice with the same key and starting block gives the
/// bytes it started from: decryption undoes encryption.
pub proof fn lemma_keystream_involution(buf: Seq<u8>, key: Seq<u8>, counter: int)
    ensures
        keystream_xor(keystream_xor(buf, key, counter), key, counter) == buf,
{
    assert forall|i: int| 0 <= i < buf.len() implies #[trigger] keystream_xor(
        keystream_xor(buf, key, counter),
        key,
        counter,
    )[i] == buf[i] by {
        let a = buf[i];
        let b = keystream_block(key, counter + i / 32)[i % 32];
        assert((a ^ b) ^ b == a) by (bit_vector);
    }
    assert(keystream_xor(keystream_xor(buf, key, counter), key, counter) =~= buf);
}

/// Encrypting a buffer in two pieces, the first a whole number of blocks long and the
/// second continuing from the advanced counter, is the same as encrypting it at once.
pub proof fn lemma_keystream_split(a: Seq<u8>, b: Seq<u8>, key: Seq<u8>, counter: int)
    requires
        a.len() % 32 == 0,
    ensures
        keystream_xor(a + b, key, counter) == keystream_xor(a, key, counter) + keystream_xor(
            b,
            key,
            counter + a.len() / 32,
        ),
{
    let whole = keystream_xor(a + b, key, counter);
    let parts = keystream_xor(a, key, counter) + keystream_xor(b, key, counter + a.len() / 32);
    assert forall|i: int| 0 <= i < whole.len() implies whole[i] == parts[i] by {
        if i >= a.len() {
            let j = i - a.len();
            let n = a.len() as int;
            assert(i / 32 == n / 32 + j / 32 && i % 32 == j % 32) by (nonlinear_arith)
                requires
                    n % 32 == 0,
                    i == n + j,
                    j >= 0,
                    n >= 0,
            ;
        }
    }
    assert(whole =~= parts);
}

/// A repeat count as the commands use it: at least one run (`n.max(1)`).
pub fn at_least_once(n: usize) -> (r: usize)
    ensures
        r == if n == 0 {
            1
        } else {
            n
        },
{
    if n == 0 {
        1
    } else {
        n
    }
}

} // verus!
