//! Trusted boundary to the compression codec, the content digest and the
//! wall clock. Every other function of the crate is verified against the
//! contracts stated here.

use sha3::Digest;
use vstd::prelude::*;

verus! {

/// The bytes that the block codec produces for a given uncompressed input.
/// The codec is deterministic: the same input yields the same output.
pub uninterp spec fn compress_of(s: Seq<u8>) -> Seq<u8>;

/// The 32-byte digest of a byte sequence. The digest is a function of the
/// bytes alone.
pub uninterp spec fn digest_of(s: Seq<u8>) -> Seq<u8>;

/// Relies on lz4_flex::compress_prepend_size: compresses the input block
/// and prepends the uncompressed length as a little-endian u32, which is
/// why the input must fit in a u32.
#[verifier::external_body]
pub(crate) fn lz4_compress(data: &[u8]) -> (r: Vec<u8>)
    requires
        data@.len() <= u32::MAX,
    ensures
        r@ == compress_of(data@),
{
    lz4_flex::compress_prepend_size(data)
}

/// Relies on lz4_flex::decompress_size_prepended: decompression inverts
/// compress_prepend_size, so on any output of the compressor it returns
/// the original bytes.
#[verifier::external_body]
pub(crate) fn lz4_decompress(data: &[u8]) -> (r: Option<Vec<u8>>)
    ensures
        r is None ==> forall|s: Seq<u8>| #[trigger] compress_of(s) != data@,
        r matches Some(v) ==> forall|s: Seq<u8>| #[trigger] compress_of(s) == data@ ==> v@ == s,
{
    match lz4_flex::decompress_size_prepended(data) {
        Ok(v) => Some(v),
        Err(_) => None,
    }
}

/// Relies on sha3::Sha3_256: a FIPS 202 digest of the input bytes, 32
/// bytes long, a function of the input alone.
#[verifier::external_body]
pub(crate) fn sha3_256(data: &[u8]) -> (r: Vec<u8>)
    ensures
        r@ == digest_of(data@),
        r@.len() == 32,
{
    let mut hasher = sha3::Sha3_256::new();
    hasher.update(data);
    hasher.finalize().to_vec()
}

/// Relies on String::from_utf8: succeeds exactly on valid UTF-8, inverts
/// UTF-8 encoding, and preserves the bytes.
#[verifier::external_body]
pub(crate) fn bytes_to_string(v: Vec<u8>) -> (r: Option<String>)
    ensures
        r matches Some(s) ==> vstd::utf8::encode_utf8(s@) == v@,
        r is None ==> forall|t: Seq<char>| #[trigger] vstd::utf8::encode_utf8(t) != v@,
        r matches Some(s) ==> forall|t: Seq<char>|
            #[trigger] vstd::utf8::encode_utf8(t) == v@ ==> s@ == t,
{
    match String::from_utf8(v) {
        Ok(s) => Some(s),
        Err(_) => None,
    }
}

/// Relies on std::time::SystemTime::now: microseconds since the Unix
/// epoch, or 0 if the clock reads before the epoch. Nothing is promised
/// of the value; callers state what holds of every reading.
#[verifier::external_body]
pub(crate) fn now_micros() -> u64 {
    match std::time::SystemTime::now().duration_since(std::time::SystemTime::UNIX_EPOCH) {
        Ok(d) => d.as_micros() as u64,
        Err(_) => 0,
    }
}

} // verus!
