//! One operation's bytes on their way from the payload to the image: the
//! encoded bytes with their destination, and how they decode.
use crate::codec::{bz_prefix, bz_read, xz_prefix, xz_read, zstd_prefix, zstd_read};
use crate::manifest::{Extent, OperationType};
use vstd::prelude::*;

verus! {

/// Size in bytes of a block of a partition image.
pub const BLOCK_SIZE: u64 = 4096;

/// Why a partition could not be rebuilt.
#[derive(Debug, Clone, PartialEq, Eq)]
pub enum ExtractError {
    /// An operation names no destination extent.
    MissingExtent,
    /// A byte offset or length does not fit in the machine's integers.
    Overflow,
    /// The encoded bytes lie past the end of the payload.
    ShortSource,
    /// The digest of an operation's encoded bytes is not the declared one;
    /// both are given in lowercase hexadecimal.
    HashMismatch { expected: String, actual: String },
    /// A replace operation's bytes are not as long as its extent.
    LengthMismatch { extent_len: u64, blob_len: u64 },
    /// The decompressor failed, or ended before the extent was full.
    Decode(OperationType),
    /// The operation is not one that can be decoded.
    Unsupported(OperationType),
}

/// The encoded bytes of one operation, with the operation's type and its
/// first destination extent.
#[derive(Debug)]
pub struct PartitionExtent {
    blob: Vec<u8>,
    operation_type: OperationType,
    start_block: u64,
    num_blocks: u64,
}

/// `n` zero bytes.
pub open spec fn zeros(n: nat) -> Seq<u8> {
    Seq::new(n, |i: int| 0u8)
}

/// What a decompressor's output `out`, read up to one byte past the `len`
/// bytes of the extent, gives: it must fill the extent exactly.
pub open spec fn exact_output(t: OperationType, out: Option<Seq<u8>>, len: nat) -> Result<
    Seq<u8>,
    ExtractError,
> {
    match out {
        Some(d) => if d.len() == len {
            Ok(d)
        } else {
            Err(ExtractError::Decode(t))
        },
        None => Err(ExtractError::Decode(t)),
    }
}

/// What decoding the encoded bytes `blob` of an operation of type `t`
/// gives, where its extent holds `len` bytes. A compressed stream must
/// decode to exactly `len` bytes: fewer or more is an error.
pub open spec fn spec_decode(t: OperationType, blob: Seq<u8>, len: nat) -> Result<
    Seq<u8>,
    ExtractError,
> {
    match t {
        OperationType::Zero => Ok(zeros(len)),
        OperationType::Replace => if blob.len() == len {
            Ok(blob)
        } else {
            Err(ExtractError::LengthMismatch { extent_len: len as u64, blob_len: blob.len() as u64 })
        },
        OperationType::ReplaceXz => exact_output(t, xz_prefix(blob, len + 1), len),
        OperationType::ReplaceBz => exact_output(t, bz_prefix(blob, len + 1), len),
        OperationType::ReplaceZstd => exact_output(t, zstd_prefix(blob, len + 1), len),
        OperationType::Other(_) => Err(ExtractError::Unsupported(t)),
    }
}

fn exact(t: OperationType, out: Option<Vec<u8>>, len: usize) -> (r: Result<Vec<u8>, ExtractError>)
    ensures
        match r {
            Ok(v) => exact_output(t, match out {
                Some(d) => Some(d@),
                None => None,
            }, len as nat) == Ok::<Seq<u8>, ExtractError>(v@),
            Err(e) => exact_output(t, match out {
                Some(d) => Some(d@),
                None => None,
            }, len as nat) == Err::<Seq<u8>, ExtractError>(e),
        },
{
    match out {
        Some(d) => if d.len() == len {
            Ok(d)
        } else {
            Err(ExtractError::Decode(t))
        },
        None => Err(ExtractError::Decode(t)),
    }
}

/// Decodes the encoded bytes `blob` of an operation of type `t` into the
/// `len` bytes of its extent.
pub fn decode_blob(t: OperationType, blob: Vec<u8>, len: usize) -> (r: Result<Vec<u8>, ExtractError>)
    requires
        len < usize::MAX,
    ensures
        match r {
            Ok(v) => spec_decode(t, blob@, len as nat) == Ok::<Seq<u8>, ExtractError>(v@),
            Err(e) => spec_decode(t, blob@, len as nat) == Err::<Seq<u8>, ExtractError>(e),
        },
{
    match t {
        OperationType::Zero => {
            let mut out: Vec<u8> = Vec::new();
            let mut i: usize = 0;
            while i < len
                invariant
                    i <= len,
                    out@ =~= zeros(i as nat),
                decreases len - i,
            {
                out.push(0u8);
                i = i + 1;
            }
            Ok(out)
        },
        OperationType::Replace => {
            if blob.len() == len {
                Ok(blob)
            } else {
                Err(ExtractError::LengthMismatch { extent_len: len as u64, blob_len: blob.len() as u64 })
            }
        },
        OperationType::ReplaceXz => exact(t, xz_read(blob.as_slice(), len as u64 + 1), len),
        OperationType::ReplaceBz => exact(t, bz_read(blob.as_slice(), len as u64 + 1), len),
        OperationType::ReplaceZstd => exact(t, zstd_read(blob.as_slice(), len as u64 + 1), len),
        OperationType::Other(_) => Err(ExtractError::Unsupported(t)),
    }
}

/// Number of bytes that `num_blocks` blocks hold, where that fits in
/// `usize`.
pub open spec fn extent_len(num_blocks: u64) -> Option<usize> {
    if num_blocks * BLOCK_SIZE <= usize::MAX {
        Some((num_blocks * BLOCK_SIZE) as usize)
    } else {
        None
    }
}

/// The write that an operation of type `t` with encoded bytes `blob` makes
/// at the extent of `num_blocks` blocks from `start_block`: the byte offset
/// and the decoded bytes, which must end within `usize`.
pub open spec fn extent_write(t: OperationType, blob: Seq<u8>, start_block: u64, num_blocks: u64) -> Result<
    (nat, Seq<u8>),
    ExtractError,
> {
    match extent_len(num_blocks) {
        None => Err(ExtractError::Overflow),
        Some(len) => match spec_decode(t, blob, len as nat) {
            Err(e) => Err(e),
            Ok(d) => if start_block * BLOCK_SIZE + d.len() <= usize::MAX {
                Ok(((start_block * BLOCK_SIZE) as nat, d))
            } else {
                Err(ExtractError::Overflow)
            },
        },
    }
}

impl PartitionExtent {
    pub closed spec fn spec_blob(&self) -> Seq<u8> {
        self.blob@
    }

    pub closed spec fn spec_operation_type(&self) -> OperationType {
        self.operation_type
    }

    pub closed spec fn spec_start_block(&self) -> u64 {
        self.start_block
    }

    pub closed spec fn spec_num_blocks(&self) -> u64 {
        self.num_blocks
    }

    /// Pairs the encoded bytes of an operation with its type and its
    /// destination extent.
    pub fn new(blob: Vec<u8>, operation_type: OperationType, extent: &Extent) -> (r: Self)
        ensures
            r.spec_blob() == blob@,
            r.spec_operation_type() == operation_type,
            r.spec_start_block() == extent.start_block,
            r.spec_num_blocks() == extent.num_blocks,
    {
        PartitionExtent {
            blob,
            operation_type,
            start_block: extent.start_block,
            num_blocks: extent.num_blocks,
        }
    }

    pub fn operation_type(&self) -> (r: OperationType)
        ensures
            r == self.spec_operation_type(),
    {
        self.operation_type
    }

    pub fn start_block(&self) -> (r: u64)
        ensures
            r == self.spec_start_block(),
    {
        self.start_block
    }

    pub fn num_blocks(&self) -> (r: u64)
        ensures
            r == self.spec_num_blocks(),
    {
        self.num_blocks
    }

    /// The encoded bytes.
    pub fn into_raw(self) -> (r: Vec<u8>)
        ensures
            r@ == self.spec_blob(),
    {
        self.blob
    }

    /// Offset in the image at which the decoded bytes go.
    pub fn byte_offset(&self) -> (r: Option<u64>)
        ensures
            r == (if self.spec_start_block() * BLOCK_SIZE <= u64::MAX {
                Some((self.spec_start_block() * BLOCK_SIZE) as u64)
            } else {
                None
            }),
    {
        if self.start_block > u64::MAX / BLOCK_SIZE {
            None
        } else {
            Some(self.start_block * BLOCK_SIZE)
        }
    }

    /// The write that these bytes make.
    pub open spec fn spec_write(&self) -> Result<(nat, Seq<u8>), ExtractError> {
        extent_write(
            self.spec_operation_type(),
            self.spec_blob(),
            self.spec_start_block(),
            self.spec_num_blocks(),
        )
    }

    /// Decodes the encoded bytes and gives the byte offset at which they go
    /// with the decoded bytes.
    pub fn decode_write(self) -> (r: Result<(u64, Vec<u8>), ExtractError>)
        ensures
            match r {
                Ok((off, d)) => self.spec_write() == Ok::<(nat, Seq<u8>), ExtractError>(
                    (off as nat, d@),
                ),
                Err(e) => self.spec_write() == Err::<(nat, Seq<u8>), ExtractError>(e),
            },
    {
        let off = self.byte_offset();
        let decoded = match self.decode() {
            Ok(d) => d,
            Err(e) => return Err(e),
        };
        let off = match off {
            Some(o) => o,
            None => return Err(ExtractError::Overflow),
        };
        if off > usize::MAX as u64 || decoded.len() > usize::MAX - off as usize {
            return Err(ExtractError::Overflow);
        }
        Ok((off, decoded))
    }

    /// Decodes the encoded bytes into exactly the bytes of the extent,
    /// `num_blocks * 4096` of them.
    pub fn decode(self) -> (r: Result<Vec<u8>, ExtractError>)
        ensures
            match extent_len(self.spec_num_blocks()) {
                None => r == Err::<Vec<u8>, ExtractError>(ExtractError::Overflow),
                Some(len) => match r {
                    Ok(v) => spec_decode(self.spec_operation_type(), self.spec_blob(), len as nat)
                        == Ok::<Seq<u8>, ExtractError>(v@),
                    Err(e) => spec_decode(self.spec_operation_type(), self.spec_blob(), len as nat)
                        == Err::<Seq<u8>, ExtractError>(e),
                },
            },
    {
        if self.num_blocks > (usize::MAX as u64) / BLOCK_SIZE {
            return Err(ExtractError::Overflow);
        }
        let len = (self.num_blocks * BLOCK_SIZE) as usize;
        decode_blob(self.operation_type, self.blob, len)
    }
}

/// A zero operation decodes to exactly `4096 * k` zero bytes, whatever its
/// encoded bytes hold.
pub proof fn lemma_zero_decodes_to_zeros(blob: Seq<u8>, k: nat)
    ensures
        spec_decode(OperationType::Zero, blob, 4096 * k) == Ok::<Seq<u8>, ExtractError>(
            zeros(4096 * k),
        ),
        zeros(4096 * k).len() == 4096 * k,
        forall|i: int| 0 <= i < 4096 * k ==> #[trigger] zeros(4096 * k)[i] == 0,
{
}

} // verus!
