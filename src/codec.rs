//! Base64, gzip and JSON through their crates, and decimal formatting.
use crate::crypto::bytes_result;
use crate::error::RoflError;
use base64::engine::general_purpose::STANDARD;
use base64::{DecodeError, Engine};
use flate2::read::GzDecoder;
use std::io::Read;
use vstd::prelude::*;

verus! {

#[verifier::external_type_specification]
#[verifier::external_body]
pub struct ExDecodeError(DecodeError);

#[verifier::external_type_specification]
#[verifier::external_body]
pub struct ExIoError(std::io::Error);

/// What the standard base64 alphabet, with padding, decodes `s` to; `None` where it rejects `s`.
pub uninterp spec fn base64_decode_of(s: Seq<char>) -> Option<Seq<u8>>;

/// What a gzip decoder makes of the first member of `d`; `None` where the stream is corrupt.
pub uninterp spec fn gunzip_of(d: Seq<u8>) -> Option<Seq<u8>>;

/// Relies on `base64::engine::general_purpose::STANDARD.decode`.
#[verifier::external_body]
pub(crate) fn decode_base64(s: &str) -> (r: Result<Vec<u8>, DecodeError>)
    ensures
        r is Ok <==> base64_decode_of(s@) is Some,
        r is Ok ==> r->Ok_0@ == base64_decode_of(s@)->Some_0,
{
    STANDARD.decode(s)
}

/// Relies on `flate2::read::GzDecoder` read to its end.
#[verifier::external_body]
fn gunzip(d: &[u8]) -> (r: Result<Vec<u8>, std::io::Error>)
    ensures
        r is Ok <==> gunzip_of(d@) is Some,
        r is Ok ==> r->Ok_0@ == gunzip_of(d@)->Some_0,
{
    let mut out = Vec::new();
    match GzDecoder::new(d).read_to_end(&mut out) {
        Ok(_) => Ok(out),
        Err(e) => Err(e),
    }
}

/// The ASCII decimal digits of `n`, most significant first, without leading zeros.
pub open spec fn decimal_digits(n: nat) -> Seq<u8>
    decreases n,
{
    if n < 10 {
        seq![(48 + n) as u8]
    } else {
        decimal_digits(n / 10).push((48 + n % 10) as u8)
    }
}

/// Appends the decimal digits of `n` to `out`.
pub fn push_decimal(n: u64, out: &mut Vec<u8>)
    ensures
        final(out)@ == old(out)@ + decimal_digits(n as nat),
    decreases n,
{
    if n >= 10 {
        push_decimal(n / 10, out);
    }
    out.push((48 + n % 10) as u8);
    assert(out@ =~= old(out)@ + decimal_digits(n as nat));
}

/// The ASCII decimal representation of `n`.
pub fn decimal_string(n: u64) -> (r: Vec<u8>)
    ensures
        r@ == decimal_digits(n as nat),
{
    let mut r: Vec<u8> = Vec::new();
    push_decimal(n, &mut r);
    assert(r@ =~= decimal_digits(n as nat));
    r
}

/// Whether `serde_json` accepts `b` as one JSON document.
pub uninterp spec fn json_document(b: Seq<u8>) -> bool;

/// Relies on `serde_json::from_slice` into a `serde_json::Value`: whether it succeeds.
#[verifier::external_body]
pub(crate) fn is_json_document(b: &[u8]) -> (r: bool)
    ensures
        r == json_document(b@),
{
    serde_json::from_slice::<serde_json::Value>(b).is_ok()
}

/// Decompresses gzip data.
pub fn decompress(d: &[u8]) -> (r: Result<Vec<u8>, RoflError>)
    ensures
        bytes_result(r) == match gunzip_of(d@) {
            None => Err(RoflError::Decompression),
            Some(out) => Ok(out),
        },
{
    match gunzip(d) {
        Ok(out) => Ok(out),
        Err(_) => Err(RoflError::Decompression),
    }
}

} // verus!
