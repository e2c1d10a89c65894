//! The fixed-size header at the start of a payload file.
use vstd::prelude::*;

verus! {

/// Length in bytes of the header that precedes the manifest.
pub const HEADER_SIZE: u64 = 24;

/// The only payload major version that can be decoded.
pub const PAYLOAD_MAJOR_VERSION: u64 = 2;

/// The four magic bytes `CrAU` that open every payload.
pub open spec fn magic_bytes() -> Seq<u8> {
    seq![0x43u8, 0x72u8, 0x41u8, 0x55u8]
}

/// Big-endian value of `n` bytes of `s` starting at `pos`.
pub open spec fn be_value(s: Seq<u8>, pos: int, n: nat) -> nat
    decreases n,
{
    if n == 0 {
        0
    } else {
        be_value(s, pos, (n - 1) as nat) * 256 + s[pos + n - 1] as nat
    }
}

/// A payload that could not be opened.
#[derive(Debug, Clone, Copy, PartialEq, Eq, Structural)]
pub enum FormatError {
    /// The source ended before the header, manifest or signature blob did.
    Truncated,
    /// The first four bytes are not `CrAU`.
    BadMagic,
    /// The major version is not the supported one.
    UnsupportedVersion(u64),
    /// The manifest blob is not a well-formed manifest message.
    BadManifest,
    /// The signature blob is not a well-formed signatures message.
    BadSignatures,
}

/// The fields of the payload header after the magic bytes.
#[derive(Debug, Clone, Copy, PartialEq, Eq, Structural)]
pub struct Header {
    pub major_version: u64,
    pub manifest_size: u64,
    pub manifest_signature_size: u32,
}

/// What decoding the header from the first bytes `s` of a payload gives.
pub open spec fn spec_parse_header(s: Seq<u8>) -> Result<Header, FormatError> {
    if s.len() < HEADER_SIZE {
        Err(FormatError::Truncated)
    } else if s.subrange(0, 4) != magic_bytes() {
        Err(FormatError::BadMagic)
    } else if be_value(s, 4, 8) != PAYLOAD_MAJOR_VERSION {
        Err(FormatError::UnsupportedVersion(be_value(s, 4, 8) as u64))
    } else {
        Ok(
            Header {
                major_version: PAYLOAD_MAJOR_VERSION,
                manifest_size: be_value(s, 12, 8) as u64,
                manifest_signature_size: be_value(s, 20, 4) as u32,
            },
        )
    }
}

proof fn lemma_be_value_bound(s: Seq<u8>, pos: int, n: nat)
    requires
        0 <= pos,
        pos + n <= s.len(),
    ensures
        be_value(s, pos, n) < pow256(n),
    decreases n,
{
    if n > 0 {
        lemma_be_value_bound(s, pos, (n - 1) as nat);
        let v = be_value(s, pos, (n - 1) as nat);
        let p = pow256((n - 1) as nat);
        let b = s[pos + n - 1] as nat;
        assert(v * 256 + b < p * 256) by (nonlinear_arith)
            requires
                v < p,
                b < 256,
        ;
    }
}

/// `256` to the power `n`.
pub open spec fn pow256(n: nat) -> nat
    decreases n,
{
    if n == 0 {
        1
    } else {
        pow256((n - 1) as nat) * 256
    }
}

/// Reads the big-endian integer of `n <= 8` bytes at `pos`.
fn read_be(s: &[u8], pos: usize, n: usize) -> (r: u64)
    requires
        n <= 8,
        pos + n <= s@.len(),
    ensures
        r as nat == be_value(s@, pos as int, n as nat),
{
    let len = s.len();
    let mut acc: u64 = 0;
    let mut i: usize = 0;
    proof {
        reveal_with_fuel(pow256, 9);
    }
    while i < n
        invariant
            i <= n <= 8,
            pos + n <= s@.len(),
            len == s@.len(),
            acc as nat == be_value(s@, pos as int, i as nat),
            pow256(8) == 0x1_0000_0000_0000_0000,
        decreases n - i,
    {
        proof {
            lemma_be_value_bound(s@, pos as int, i as nat);
            lemma_pow256_mono(i as nat, 7);
        }
        let b = s[pos + i];
        assert(acc * 256 + b < 0x1_0000_0000_0000_0000) by (nonlinear_arith)
            requires
                acc < pow256(i as nat),
                pow256(i as nat) <= pow256(7),
                pow256(7) * 256 == 0x1_0000_0000_0000_0000,
                b < 256,
        ;
        acc = acc * 256 + b as u64;
        i = i + 1;
    }
    acc
}

proof fn lemma_pow256_mono(a: nat, b: nat)
    requires
        a <= b,
    ensures
        pow256(a) <= pow256(b),
    decreases b - a,
{
    if a < b {
        lemma_pow256_mono(a, (b - 1) as nat);
        assert(pow256(b) == pow256((b - 1) as nat) * 256);
    }
}

impl Header {
    /// Decodes the header from the first bytes of a payload: the magic
    /// `CrAU`, then the major version (8 bytes), the manifest size (8 bytes)
    /// and the manifest signature size (4 bytes), all big-endian.
    pub fn parse(s: &[u8]) -> (r: Result<Header, FormatError>)
        ensures
            r == spec_parse_header(s@),
    {
        if s.len() < 24 {
            return Err(FormatError::Truncated);
        }
        if !(s[0] == 0x43 && s[1] == 0x72 && s[2] == 0x41 && s[3] == 0x55) {
            assert(s@.subrange(0, 4) != magic_bytes()) by {
                if s@.subrange(0, 4) == magic_bytes() {
                    assert(s@.subrange(0, 4)[1] == s@[1]);
                    assert(s@.subrange(0, 4)[2] == s@[2]);
                    assert(s@.subrange(0, 4)[3] == s@[3]);
                    assert(s@.subrange(0, 4)[0] == s@[0]);
                }
            }
            return Err(FormatError::BadMagic);
        }
        assert(s@.subrange(0, 4) =~= magic_bytes());
        let version = read_be(s, 4, 8);
        if version != PAYLOAD_MAJOR_VERSION {
            return Err(FormatError::UnsupportedVersion(version));
        }
        let manifest_size = read_be(s, 12, 8);
        let signature_size = read_be(s, 20, 4);
        proof {
            lemma_be_value_bound(s@, 20, 4);
            reveal_with_fuel(pow256, 5);
        }
        Ok(
            Header {
                major_version: version,
                manifest_size,
                manifest_signature_size: signature_size as u32,
            },
        )
    }

    /// Offset in the payload file at which the data blob region starts: the
    /// header, the manifest and the signature blob lie before it.
    pub fn data_offset(&self) -> (r: Option<u64>)
        ensures
            r == (if HEADER_SIZE + self.manifest_size + self.manifest_signature_size
                <= u64::MAX {
                Some((HEADER_SIZE + self.manifest_size + self.manifest_signature_size) as u64)
            } else {
                None
            }),
    {
        if self.manifest_size > u64::MAX - HEADER_SIZE - self.manifest_signature_size as u64 {
            None
        } else {
            Some(HEADER_SIZE + self.manifest_size + self.manifest_signature_size as u64)
        }
    }
}

} // verus!
