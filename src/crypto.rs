//! Blowfish-ECB decryption with the container's positional padding.
use crate::error::RoflError;
use blowfish::cipher::inout::InOutBuf;
use blowfish::cipher::{BlockDecrypt, InvalidLength, KeyInit};
use blowfish::Blowfish;
use byteorder::LittleEndian;
use vstd::prelude::*;

verus! {

#[verifier::external_type_specification]
#[verifier::external_body]
pub struct ExInvalidLength(InvalidLength);

/// What little-endian Blowfish in ECB mode makes of `data` under `key`.
pub uninterp spec fn blowfish_ecb_decrypt_of(key: Seq<u8>, data: Seq<u8>) -> Seq<u8>;

/// Relies on `Blowfish::<LittleEndian>::new_from_slice`, which refuses keys shorter
/// than 4 or longer than 56 bytes, and on `BlockDecrypt::decrypt_blocks_inout`,
/// which decrypts each whole 8-byte block in place, independently of the others.
#[verifier::external_body]
fn blowfish_ecb_decrypt(key: &[u8], data: &[u8]) -> (r: Result<Vec<u8>, InvalidLength>)
    ensures
        r is Ok <==> 4 <= key@.len() <= 56,
        r is Ok ==> r->Ok_0@ == blowfish_ecb_decrypt_of(key@, data@),
        r is Ok ==> r->Ok_0@.len() == data@.len(),
{
    match Blowfish::<LittleEndian>::new_from_slice(key) {
        Ok(cipher) => {
            let mut out = data.to_vec();
            let (blocks, _tail) = InOutBuf::from(&mut out[..]).into_chunks();
            cipher.decrypt_blocks_inout(blocks);
            Ok(out)
        },
        Err(e) => Err(e),
    }
}

/// Drops as many trailing bytes as the last byte says, where that count is
/// neither zero nor more than the whole buffer; the dropped bytes are not checked.
pub open spec fn strip_padding(s: Seq<u8>) -> Seq<u8> {
    if s.len() == 0 {
        s
    } else {
        let p = s.last() as int;
        if 0 < p <= s.len() {
            s.subrange(0, s.len() - p)
        } else {
            s
        }
    }
}

/// What decrypting `data` under `key` yields.
pub open spec fn spec_decrypt(data: Seq<u8>, key: Seq<u8>) -> Result<Seq<u8>, RoflError> {
    if !(4 <= key.len() <= 56) {
        Err(RoflError::InvalidKey)
    } else if data.len() % 8 != 0 {
        Err(RoflError::BlockAlignment)
    } else {
        Ok(strip_padding(blowfish_ecb_decrypt_of(key, data)))
    }
}

/// The bytes of a successful result, as a sequence.
pub open spec fn bytes_result(r: Result<Vec<u8>, RoflError>) -> Result<Seq<u8>, RoflError> {
    match r {
        Ok(v) => Ok(v@),
        Err(e) => Err(e),
    }
}

/// Removes the padding whose length the last byte gives.
pub fn remove_padding(v: &mut Vec<u8>)
    ensures
        final(v)@ == strip_padding(old(v)@),
{
    let n = v.len();
    if n > 0 {
        let p = v[n - 1] as usize;
        if p > 0 && p <= n {
            v.truncate(n - p);
        }
    }
}

/// Decrypts `data` with Blowfish-ECB under `key` and removes the padding.
pub fn decrypt_blowfish(data: &[u8], key: &[u8]) -> (r: Result<Vec<u8>, RoflError>)
    ensures
        bytes_result(r) == spec_decrypt(data@, key@),
{
    match blowfish_ecb_decrypt(key, data) {
        Err(_) => Err(RoflError::InvalidKey),
        Ok(mut out) => {
            if data.len() % 8 != 0 {
                return Err(RoflError::BlockAlignment);
            }
            remove_padding(&mut out);
            Ok(out)
        },
    }
}

/// Padding that ends in its own length is removed exactly, whatever its other
/// bytes hold: plaintext padded this way comes back unchanged.
pub proof fn lemma_padding_round_trip(plain: Seq<u8>, pad: Seq<u8>)
    requires
        1 <= pad.len(),
        pad.last() == pad.len(),
    ensures
        strip_padding(plain + pad) == plain,
{
    assert((plain + pad).last() == pad.last());
    assert((plain + pad).subrange(0, plain.len() as int) =~= plain);
}

/// Ciphertext that is not a whole number of 8-byte blocks is refused with
/// `BlockAlignment` under any key that Blowfish accepts.
pub proof fn lemma_misaligned_refused(data: Seq<u8>, key: Seq<u8>)
    requires
        4 <= key.len() <= 56,
        data.len() % 8 != 0,
    ensures
        spec_decrypt(data, key) == Err::<Seq<u8>, RoflError>(RoflError::BlockAlignment),
{
}

} // verus!
