//! The decisions of the file and text transfer protocol.
//!
//! A transfer opens with a header line (a JSON object) from the sender, answered by an
//! acknowledgement that says from which byte the sender resumes. The payload bytes
//! follow. The sockets, files, archives and JSON live outside the library; what is
//! decided about them is here: the header and its check, where a transfer resumes, when
//! it is complete, how a payload is encoded (gzip, then the keystream) and decoded with
//! its checksum check, which passphrase is used, and how the text sender paces its
//! repeats.
use crate::compress::{gunzip, gunzip_outcome, gzip, gzip_bytes};
use crate::text::{dec, push_dec, push_str, str_eq, to_owned_string};
use crate::utils::{
    blocks_for, hex_lower, keystream_xor, lemma_keystream_involution, sha256, sha256_bytes,
    u64_max, xor_keystream_in_place,
};
use vstd::prelude::*;

verus! {

/// The protocol marker that opens every header.
pub open spec fn magic_text() -> Seq<char> {
    seq!['N', 'C', 'P', '1']
}

/// The header that the sender writes before the payload.
pub struct TransferHeader {
    pub magic: String,
    pub name: String,
    pub payload_size: u64,
    pub decoded_size: u64,
    pub sha256: String,
    pub compress: bool,
    pub encrypt: bool,
    pub is_dir: bool,
}

/// The receiver's answer to a header: the offset from which the payload is sent.
pub struct TransferAck {
    pub resume_from: u64,
}

/// A header for a payload, with the protocol marker filled in.
pub fn new_header(
    name: String,
    payload_size: u64,
    decoded_size: u64,
    sha256: String,
    compress: bool,
    encrypt: bool,
    is_dir: bool,
) -> (h: TransferHeader)
    ensures
        h.magic@ == magic_text(),
        h.name@ == name@,
        h.payload_size == payload_size,
        h.decoded_size == decoded_size,
        h.sha256@ == sha256@,
        h.compress == compress,
        h.encrypt == encrypt,
        h.is_dir == is_dir,
{
    proof {
        reveal_strlit("NCP1");
    }
    TransferHeader {
        magic: to_owned_string("NCP1"),
        name,
        payload_size,
        decoded_size,
        sha256,
        compress,
        encrypt,
        is_dir,
    }
}

/// The error for a header that does not carry the protocol marker.
pub open spec fn invalid_header_message() -> Seq<char> {
    "Invalid protocol header"@
}

/// Accepts a header exactly when its marker is the protocol's.
pub fn check_header(header: &TransferHeader) -> (r: Result<(), String>)
    ensures
        r is Ok <==> header.magic@ == magic_text(),
        match r {
            Ok(_) => true,
            Err(e) => e@ == invalid_header_message(),
        },
{
    proof {
        reveal_strlit("NCP1");
        assert("NCP1"@ =~= magic_text());
    }
    if str_eq(header.magic.as_str(), "NCP1") {
        Ok(())
    } else {
        Err(to_owned_string("Invalid protocol header"))
    }
}

/// Where a receive resumes, given the length of a partial file left by an earlier
/// attempt (if any), and whether that partial file is to be discarded first: one
/// longer than the payload cannot belong to it.
pub open spec fn resume_spec(existing: Option<u64>, payload_size: u64) -> (u64, bool) {
    match existing {
        None => (0, false),
        Some(len) => if len > payload_size {
            (0, true)
        } else {
            (len, false)
        },
    }
}

/// Executable form of [`resume_spec`].
pub fn resume_point(existing: Option<u64>, payload_size: u64) -> (r: (u64, bool))
    ensures
        r == resume_spec(existing, payload_size),
        r.0 <= payload_size,
        existing is None ==> r == (0u64, false),
        existing matches Some(len) ==> (len <= payload_size ==> r == (len, false)) && (len
            > payload_size ==> r == (0u64, true)),
{
    match existing {
        None => (0, false),
        Some(len) => if len > payload_size {
            (0, true)
        } else {
            (len, false)
        },
    }
}

/// The acknowledgement for a resume offset.
pub fn new_ack(resume_from: u64) -> (a: TransferAck)
    ensures
        a.resume_from == resume_from,
{
    TransferAck { resume_from }
}

/// One read of the payload copy loop: a read of `n` bytes after `done` bytes. A read of
/// nothing means that the peer closed the stream; otherwise the count advances.
pub fn record_chunk(done: u64, n: usize) -> (r: Option<u64>)
    requires
        done + n <= u64::MAX,
    ensures
        n == 0 ==> r is None,
        n > 0 ==> r == Some((done + n) as u64),
{
    if n == 0 {
        None
    } else {
        Some(done + n as u64)
    }
}

/// The error for a payload that ended early.
pub open spec fn interrupted_message(expected: nat, got: nat) -> Seq<char> {
    "Transfer interrupted: expected "@ + dec(expected) + ", got "@ + dec(got)
}

/// A transfer is complete when exactly the announced number of bytes arrived.
pub fn check_complete(received: u64, payload_size: u64) -> (r: Result<(), String>)
    ensures
        r is Ok <==> received == payload_size,
        match r {
            Ok(_) => true,
            Err(e) => e@ == interrupted_message(payload_size as nat, received as nat),
        },
{
    if received == payload_size {
        Ok(())
    } else {
        let mut e = to_owned_string("Transfer interrupted: expected ");
        push_dec(&mut e, payload_size);
        push_str(&mut e, ", got ");
        push_dec(&mut e, received);
        Err(e)
    }
}

/// The error for a decoded payload whose digest differs from the header's.
pub open spec fn checksum_message(expected: Seq<char>, actual: Seq<char>) -> Seq<char> {
    "Checksum mismatch: expected "@ + expected + ", got "@ + actual
}

/// Compares the digest announced in the header with the digest of what was decoded.
pub fn check_checksum(expected: &str, actual: &str) -> (r: Result<(), String>)
    ensures
        r is Ok <==> expected@ == actual@,
        match r {
            Ok(_) => true,
            Err(e) => e@ == checksum_message(expected@, actual@),
        },
{
    if str_eq(expected, actual) {
        Ok(())
    } else {
        let mut e = to_owned_string("Checksum mismatch: expected ");
        push_str(&mut e, expected);
        push_str(&mut e, ", got ");
        push_str(&mut e, actual);
        Err(e)
    }
}

/// The error when encryption is asked for and no passphrase is at hand.
pub open spec fn missing_passphrase_message() -> Seq<char> {
    "Encryption enabled but no passphrase provided (--passphrase or NCP_PASSPHRASE)"@
}

/// The passphrase to use: the one given, else the value of `NCP_PASSPHRASE` when it is
/// set and not empty (`env_value` is what the environment holds).
pub fn choose_passphrase(given: Option<String>, env_value: Option<String>) -> (r: Result<
    String,
    String,
>)
    ensures
        match given {
            Some(p) => r matches Ok(q) && q@ == p@,
            None => match env_value {
                Some(p) if p@.len() > 0 => r matches Ok(q) && q@ == p@,
                _ => r matches Err(e) && e@ == missing_passphrase_message(),
            },
        },
{
    match given {
        Some(p) => Ok(p),
        None => match env_value {
            Some(p) => {
                if !p.as_str().is_empty() {
                    Ok(p)
                } else {
                    Err(
                        to_owned_string(
                            "Encryption enabled but no passphrase provided (--passphrase or NCP_PASSPHRASE)",
                        ),
                    )
                }
            },
            None => Err(
                to_owned_string(
                    "Encryption enabled but no passphrase provided (--passphrase or NCP_PASSPHRASE)",
                ),
            ),
        },
    }
}

/// The name under which a payload travels: the last component of the path, or a
/// fixed name when the path has none that is valid text.
pub open spec fn payload_name_spec(file_name: Option<Seq<char>>, is_dir: bool) -> Seq<char> {
    match file_name {
        Some(n) => n,
        None => if is_dir {
            "bundle"@
        } else {
            "file.bin"@
        },
    }
}

/// Executable form of [`payload_name_spec`].
pub fn payload_name(file_name: Option<&str>, is_dir: bool) -> (out: String)
    ensures
        out@ == payload_name_spec(
            match file_name {
                Some(n) => Some(n@),
                None => None,
            },
            is_dir,
        ),
{
    match file_name {
        Some(n) => to_owned_string(n),
        None => if is_dir {
            to_owned_string("bundle")
        } else {
            to_owned_string("file.bin")
        },
    }
}

/// The name of the partial file that collects a payload while it arrives.
pub fn part_file_name(name: &str) -> (out: String)
    ensures
        out@ == name@ + ".part"@,
{
    let mut s = to_owned_string(name);
    push_str(&mut s, ".part");
    s
}

/// Whether the text sender pauses after the send numbered `idx` (from 0) of `repeats`:
/// between sends, and only when the interval is not zero.
pub fn pause_after(idx: usize, repeats: usize, interval_is_zero: bool) -> (b: bool)
    ensures
        b == (idx + 1 < repeats && !interval_is_zero),
{
    idx < repeats && idx + 1 < repeats && !interval_is_zero
}

/// The key of an optional encryption, as bytes.
pub open spec fn key_view(key: Option<[u8; 32]>) -> Option<Seq<u8>> {
    match key {
        Some(k) => Some(k@),
        None => None,
    }
}

/// The payload sent for `data`: gzip-compressed when asked, then XORed with the
/// keystream from block 0 when a key is given.
pub open spec fn encoded(data: Seq<u8>, compress: bool, key: Option<Seq<u8>>) -> Seq<u8> {
    let c = if compress {
        gzip_bytes(data)
    } else {
        data
    };
    match key {
        Some(k) => keystream_xor(c, k, 0),
        None => c,
    }
}

/// What the receiver makes of a payload: decrypted when a key is given, decompressed
/// when the header says so, and accepted only when its digest is the announced one.
pub open spec fn decoded(
    payload: Seq<u8>,
    compress: bool,
    key: Option<Seq<u8>>,
    expected: Seq<char>,
) -> Result<Seq<u8>, Seq<char>> {
    let d = match key {
        Some(k) => keystream_xor(payload, k, 0),
        None => payload,
    };
    let r = if compress {
        gunzip_outcome(d)
    } else {
        Ok(d)
    };
    match r {
        Err(e) => Err(e),
        Ok(data) => if hex_lower(sha256(data)) == expected {
            Ok(data)
        } else {
            Err(checksum_message(expected, hex_lower(sha256(data))))
        },
    }
}

/// A payload ready to send, with the digest of the bytes it encodes.
pub struct PreparedPayload {
    pub payload: Vec<u8>,
    pub digest: String,
}

/// XORs a whole buffer with the keystream of `key` from block 0.
fn xor_from_start(buf: &mut Vec<u8>, key: &[u8; 32])
    ensures
        final(buf)@ == keystream_xor(old(buf)@, key@, 0),
{
    let n = buf.len();
    assert(blocks_for(n as nat) <= u64_max()) by {
        assert(n <= usize::MAX);
    }
    let mut counter: u64 = 0;
    xor_keystream_in_place(buf.as_mut_slice(), key, &mut counter);
}

/// Prepares `data` for sending (see [`encoded`]) and computes its digest.
pub fn encode_payload(data: &[u8], compress: bool, key: Option<[u8; 32]>) -> (p: PreparedPayload)
    ensures
        p.payload@ == encoded(data@, compress, key_view(key)),
        p.digest@ == hex_lower(sha256(data@)),
{
    let digest = sha256_bytes(data);
    let mut payload = if compress {
        gzip(data)
    } else {
        let mut v: Vec<u8> = Vec::new();
        v.extend_from_slice(data);
        v
    };
    match key {
        Some(k) => xor_from_start(&mut payload, &k),
        None => {},
    }
    assert(data@ =~= data@);
    PreparedPayload { payload, digest }
}

/// Decodes a received payload (see [`decoded`]). A payload that
/// [`encode_payload`] prepared from some bytes, decoded with the same options and the
/// digest of those bytes, gives exactly those bytes back.
pub fn decode_payload(payload: Vec<u8>, compress: bool, key: Option<[u8; 32]>, expected: &str) -> (r:
    Result<Vec<u8>, String>)
    ensures
        match r {
            Ok(v) => decoded(payload@, compress, key_view(key), expected@) == Ok::<
                Seq<u8>,
                Seq<char>,
            >(v@),
            Err(e) => decoded(payload@, compress, key_view(key), expected@) == Err::<
                Seq<u8>,
                Seq<char>,
            >(e@),
        },
        r matches Ok(v) ==> hex_lower(sha256(v@)) == expected@,
        forall|x: Seq<u8>|
            payload@ == #[trigger] encoded(x, compress, key_view(key)) && expected@ == hex_lower(
                sha256(x),
            ) ==> (r matches Ok(v) && v@ == x),
{
    let ghost received = payload@;
    let mut stage = payload;
    match key {
        Some(k) => xor_from_start(&mut stage, &k),
        None => {},
    }
    let ghost plain = stage@;
    assert forall|x: Seq<u8>|
        received == #[trigger] encoded(x, compress, key_view(key)) implies plain == (if compress {
        gzip_bytes(x)
    } else {
        x
    }) by {
        match key {
            Some(k) => lemma_keystream_involution(if compress { gzip_bytes(x) } else { x }, k@, 0),
            None => {},
        }
    }
    let unpacked = if compress {
        gunzip(stage.as_slice())
    } else {
        Ok(stage)
    };
    match unpacked {
        Err(e) => Err(e),
        Ok(data) => {
            let actual = sha256_bytes(data.as_slice());
            match check_checksum(expected, actual.as_str()) {
                Ok(()) => Ok(data),
                Err(e) => Err(e),
            }
        },
    }
}

/// Whether the copy loop of a transfer reads again: while fewer bytes than announced
/// have been moved.
pub fn needs_more(done: u64, total: u64) -> (b: bool)
    ensures
        b == (done < total),
{
    done < total
}

/// Whatever the key and the compression, a received payload is accepted only when the
/// SHA-256 of what it decodes to is the announced digest: a wrong passphrase or a damaged
/// payload is rejected, never written out.
pub proof fn lemma_decoded_matches_digest(
    payload: Seq<u8>,
    compress: bool,
    key: Option<Seq<u8>>,
    expected: Seq<char>,
)
    ensures
        decoded(payload, compress, key, expected) matches Ok(v) ==> hex_lower(sha256(v)) == expected,
{
}

} // verus!
