//! Gzip compression of transfer payloads, through `flate2`.
use flate2::read::GzDecoder;
use flate2::write::GzEncoder;
use flate2::Compression;
use std::io::{Read, Write};
use vstd::prelude::*;

verus! {

/// The gzip stream that `flate2` writes for `data` at the default compression level,
/// with the default header (no file name, zero time stamp).
pub uninterp spec fn gzip_bytes(data: Seq<u8>) -> Seq<u8>;

/// What `flate2` reads back from a gzip stream: the decompressed bytes, or the text of
/// the error it reports.
pub uninterp spec fn gunzip_outcome(data: Seq<u8>) -> Result<Seq<u8>, Seq<char>>;

/// `GzEncoder::new(Vec::new(), Compression::default())`, `write_all` and `finish`: the
/// gzip stream of `data`.
#[verifier::external_body]
pub(crate) fn gzip(data: &[u8]) -> (out: Vec<u8>)
    ensures
        out@ == gzip_bytes(data@),
{
    let mut encoder = GzEncoder::new(Vec::new(), Compression::default());
    match encoder.write_all(data).and_then(|_| encoder.finish()) {
        Ok(v) => v,
        Err(_) => Vec::new(),
    }
}

/// `GzDecoder::new` and `read_to_end`: the bytes a gzip stream holds, or the text of
/// the error `flate2` reports for it. Reading a stream that `flate2` itself wrote gives
/// back what was written (the round trip that `flate2`'s documentation shows); the
/// contract says so.
#[verifier::external_body]
pub(crate) fn gunzip(data: &[u8]) -> (r: Result<Vec<u8>, String>)
    ensures
        match r {
            Ok(v) => gunzip_outcome(data@) matches Ok(w) && w == v@,
            Err(e) => gunzip_outcome(data@) matches Err(m) && m == e@,
        },
        r is Ok || forall|x: Seq<u8>| data@ != #[trigger] gzip_bytes(x),
        r matches Ok(v) ==> forall|x: Seq<u8>| data@ == #[trigger] gzip_bytes(x) ==> v@ == x,
{
    let mut out = Vec::new();
    match GzDecoder::new(data).read_to_end(&mut out) {
        Ok(_) => Ok(out),
        Err(e) => Err(e.to_string()),
    }
}

} // verus!
