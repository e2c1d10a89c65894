//! The outside decompressors and digests that operations rely on.
use vstd::prelude::*;

verus! {

/// The bytes that the xz stream `data` decompresses to, cut after
/// `limit` bytes; `None` where the decoder fails before it has given them.
pub uninterp spec fn xz_prefix(data: Seq<u8>, limit: nat) -> Option<Seq<u8>>;

/// The bytes that the bzip2 stream `data` decompresses to, cut after
/// `limit` bytes; `None` where the decoder fails before it has given them.
pub uninterp spec fn bz_prefix(data: Seq<u8>, limit: nat) -> Option<Seq<u8>>;

/// The bytes that the zstd stream `data` decompresses to, cut after
/// `limit` bytes; `None` where the decoder fails before it has given them.
pub uninterp spec fn zstd_prefix(data: Seq<u8>, limit: nat) -> Option<Seq<u8>>;

/// The SHA-256 digest of `data`.
pub uninterp spec fn sha256_of(data: Seq<u8>) -> Seq<u8>;

/// Relies on `xz::bufread::XzDecoder`, read through `Read::take` and
/// `Read::read_to_end`: the stream's output up to `limit` bytes, or failure.
#[verifier::external_body]
pub(crate) fn xz_read(data: &[u8], limit: u64) -> (r: Option<Vec<u8>>)
    ensures
        match r {
            Some(v) => xz_prefix(data@, limit as nat) == Some(v@) && v@.len() <= limit,
            None => xz_prefix(data@, limit as nat) is None,
        },
{
    let mut out = Vec::new();
    let mut reader = std::io::Read::take(xz::bufread::XzDecoder::new(data), limit);
    match std::io::Read::read_to_end(&mut reader, &mut out) {
        Ok(_) => Some(out),
        Err(_) => None,
    }
}

/// Relies on `bzip2::bufread::BzDecoder`, read through `Read::take` and
/// `Read::read_to_end`: the stream's output up to `limit` bytes, or failure.
#[verifier::external_body]
pub(crate) fn bz_read(data: &[u8], limit: u64) -> (r: Option<Vec<u8>>)
    ensures
        match r {
            Some(v) => bz_prefix(data@, limit as nat) == Some(v@) && v@.len() <= limit,
            None => bz_prefix(data@, limit as nat) is None,
        },
{
    let mut out = Vec::new();
    let mut reader = std::io::Read::take(bzip2::bufread::BzDecoder::new(data), limit);
    match std::io::Read::read_to_end(&mut reader, &mut out) {
        Ok(_) => Some(out),
        Err(_) => None,
    }
}

/// Relies on `zstd::Decoder`, read through `Read::take` and
/// `Read::read_to_end`: the stream's output up to `limit` bytes, or failure;
/// a decoder that cannot be set up fails too.
#[verifier::external_body]
pub(crate) fn zstd_read(data: &[u8], limit: u64) -> (r: Option<Vec<u8>>)
    ensures
        match r {
            Some(v) => zstd_prefix(data@, limit as nat) == Some(v@) && v@.len() <= limit,
            None => zstd_prefix(data@, limit as nat) is None,
        },
{
    let decoder = match zstd::Decoder::new(data) {
        Ok(d) => d,
        Err(_) => return None,
    };
    let mut out = Vec::new();
    let mut reader = std::io::Read::take(decoder, limit);
    match std::io::Read::read_to_end(&mut reader, &mut out) {
        Ok(_) => Some(out),
        Err(_) => None,
    }
}

/// Relies on `sha2::Sha256::digest`: a 32-byte digest of the input.
#[verifier::external_body]
pub(crate) fn sha256(data: &[u8]) -> (r: Vec<u8>)
    ensures
        r@ == sha256_of(data@),
        r@.len() == 32,
{
    <sha2::Sha256 as sha2::Digest>::digest(data).to_vec()
}

/// The lowercase hexadecimal digit of `n < 16`.
pub open spec fn hex_digit(n: u8) -> char {
    seq!['0', '1', '2', '3', '4', '5', '6', '7', '8', '9', 'a', 'b', 'c', 'd', 'e', 'f'][n as int]
}

/// Two lowercase hexadecimal digits for each byte of `b`, high digit first.
pub open spec fn hex_of(b: Seq<u8>) -> Seq<char>
    decreases b.len(),
{
    if b.len() == 0 {
        Seq::empty()
    } else {
        seq![hex_digit(b[0] / 16), hex_digit(b[0] % 16)] + hex_of(b.drop_first())
    }
}

/// Relies on `hex::encode`: two lowercase digits for each byte.
#[verifier::external_body]
pub(crate) fn to_hex(b: &[u8]) -> (r: String)
    ensures
        r@ == hex_of(b@),
{
    hex::encode(b)
}

} // verus!
