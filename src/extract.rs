//! Rebuilding a partition: reading each operation's encoded bytes, checking
//! their digest, decoding them and writing them at their extent.
use crate::codec::{hex_of, sha256, sha256_of, to_hex};
use crate::extent::{extent_write, ExtractError, PartitionExtent};
use crate::header::HEADER_SIZE;
use crate::image::{apply_writes, write_at, write_image};
use crate::manifest::{InstallOperation, InstallOperationView, OperationType};
use crate::payload::{NotFound, Payload};
use vstd::prelude::*;
use vstd::slice::{slice_subrange, slice_to_vec};
use vstd::utf8::encode_utf8;

verus! {

/// The digest check turns the encoded bytes `blob` of an operation of type
/// `t` away: checking is on, the operation is not a zero fill, and the
/// SHA-256 digest of `blob` is not `expected`.
pub open spec fn hash_rejects(verify: bool, t: OperationType, blob: Seq<u8>, expected: Seq<u8>) -> bool {
    verify && t != OperationType::Zero && sha256_of(blob) != expected
}

/// The write that operation `op` makes from its encoded bytes `blob`: the
/// byte offset of its first destination extent and the decoded bytes.
/// `None` where it fails.
pub open spec fn blob_write(verify: bool, op: InstallOperationView, blob: Seq<u8>) -> Option<(nat, Seq<u8>)> {
    if op.dst_extents.len() == 0 || hash_rejects(verify, op.op_type, blob, op.data_sha256_hash) {
        None
    } else {
        let e = op.dst_extents[0];
        match extent_write(op.op_type, blob, e.start_block, e.num_blocks) {
            Ok(w) => Some(w),
            Err(_) => None,
        }
    }
}

/// `err` is the error that operation `op` fails with on its encoded bytes
/// `blob`: a missing destination extent first, then the digest check, then
/// the decoding and the placing of its bytes.
pub open spec fn blob_fails_with(verify: bool, op: InstallOperationView, blob: Seq<u8>, err: ExtractError) -> bool {
    if op.dst_extents.len() == 0 {
        err == ExtractError::MissingExtent
    } else if hash_rejects(verify, op.op_type, blob, op.data_sha256_hash) {
        match err {
            ExtractError::HashMismatch { expected, actual } => expected@ == hex_of(
                op.data_sha256_hash,
            ) && actual@ == hex_of(sha256_of(blob)),
            _ => false,
        }
    } else {
        let e = op.dst_extents[0];
        extent_write(op.op_type, blob, e.start_block, e.num_blocks) == Err::<(nat, Seq<u8>), ExtractError>(err)
    }
}

/// The encoded bytes of `op` in the payload bytes `source`, whose data blob
/// region starts at `base`.
pub open spec fn op_blob(base: int, source: Seq<u8>, op: InstallOperationView) -> Seq<u8> {
    source.subrange(base + op.data_offset, base + op.data_offset + op.data_length)
}

/// The encoded bytes of `op` end past `u64` offsets, or past the end of the
/// payload bytes `source`.
pub open spec fn op_out_of_range(base: int, source: Seq<u8>, op: InstallOperationView) -> bool {
    base + op.data_offset + op.data_length > u64::MAX || base + op.data_offset + op.data_length
        > source.len()
}

/// The write that operation `op` makes, with the data blob region at
/// `base` of the payload bytes `source`. `None` where it fails.
pub open spec fn op_write(verify: bool, base: int, source: Seq<u8>, op: InstallOperationView) -> Option<
    (nat, Seq<u8>),
> {
    if op.dst_extents.len() == 0 || op_out_of_range(base, source, op) {
        None
    } else {
        blob_write(verify, op, op_blob(base, source, op))
    }
}

/// `err` is the error that operation `op` fails with, its encoded bytes
/// read from the payload bytes `source`.
pub open spec fn op_fails_with(verify: bool, base: int, source: Seq<u8>, op: InstallOperationView, err: ExtractError) -> bool {
    if op.dst_extents.len() == 0 {
        err == ExtractError::MissingExtent
    } else if base + op.data_offset + op.data_length > u64::MAX {
        err == ExtractError::Overflow
    } else if base + op.data_offset + op.data_length > source.len() {
        err == ExtractError::ShortSource
    } else {
        blob_fails_with(verify, op, op_blob(base, source, op), err)
    }
}

/// The writes that the operations `ops` make, in order; `None` where one
/// fails.
pub open spec fn ops_writes(verify: bool, base: int, source: Seq<u8>, ops: Seq<InstallOperationView>) -> Option<
    Seq<(nat, Seq<u8>)>,
>
    decreases ops.len(),
{
    if ops.len() == 0 {
        Some(Seq::empty())
    } else {
        match ops_writes(verify, base, source, ops.drop_last()) {
            None => None,
            Some(ws) => match op_write(verify, base, source, ops.last()) {
                None => None,
                Some(w) => Some(ws.push(w)),
            },
        }
    }
}

proof fn lemma_ops_writes_fail(verify: bool, base: int, source: Seq<u8>, ops: Seq<InstallOperationView>, k: int)
    requires
        0 <= k <= ops.len(),
        ops_writes(verify, base, source, ops.take(k)) is None,
    ensures
        ops_writes(verify, base, source, ops) is None,
    decreases ops.len() - k,
{
    if k < ops.len() {
        assert(ops.take(k + 1).drop_last() =~= ops.take(k));
        lemma_ops_writes_fail(verify, base, source, ops, k + 1);
    } else {
        assert(ops.take(k) =~= ops);
    }
}

/// Where a partition's operations all succeed, extracting it a second time
/// into the image that the first extraction produced leaves that image byte
/// for byte the same.
pub proof fn lemma_extract_twice(verify: bool, base: int, source: Seq<u8>, ops: Seq<InstallOperationView>)
    requires
        ops_writes(verify, base, source, ops) is Some,
    ensures
        ({
            let ws = ops_writes(verify, base, source, ops)->Some_0;
            apply_writes(apply_writes(Seq::empty(), ws), ws) == apply_writes(Seq::empty(), ws)
        }),
{
    crate::image::lemma_rewrite_is_idempotent(Seq::empty(), ops_writes(verify, base, source, ops)->Some_0);
}

impl Payload {
    /// Offset of the data blob region in the payload file.
    pub open spec fn spec_data_offset(&self) -> int {
        HEADER_SIZE + self.header.manifest_size + self.header.manifest_signature_size
    }

    /// Offset of the data blob region in the payload file: the header, the
    /// manifest and the signature blob lie before it.
    pub fn data_offset(&self) -> (r: u64)
        requires
            self.wf(),
        ensures
            r == self.spec_data_offset(),
    {
        HEADER_SIZE + self.header.manifest_size + self.header.manifest_signature_size as u64
    }

    /// Where the encoded bytes of `op` lie in the payload file: their
    /// absolute offset and their length. An operation without a destination
    /// extent is turned away before anything is read.
    pub fn source_range(&self, op: &InstallOperation) -> (r: Result<(u64, u64), ExtractError>)
        requires
            self.wf(),
        ensures
            r == (if op.dst_extents@.len() == 0 {
                Err(ExtractError::MissingExtent)
            } else if self.spec_data_offset() + op.data_offset + op.data_length <= u64::MAX {
                Ok::<(u64, u64), ExtractError>(
                    ((self.spec_data_offset() + op.data_offset) as u64, op.data_length),
                )
            } else {
                Err(ExtractError::Overflow)
            }),
    {
        if op.dst_extents.len() == 0 {
            return Err(ExtractError::MissingExtent);
        }
        let base = self.data_offset();
        if op.data_offset > u64::MAX - base || op.data_length > u64::MAX - base - op.data_offset {
            Err(ExtractError::Overflow)
        } else {
            Ok((base + op.data_offset, op.data_length))
        }
    }

    /// Checks the encoded bytes `blob` of `op` and pairs them with the
    /// operation's type and its first destination extent. With checking on,
    /// the SHA-256 digest of `blob` must be the declared one, except for zero
    /// fills.
    pub fn prepare_extent(&self, op: &InstallOperation, blob: Vec<u8>) -> (r: Result<
        PartitionExtent,
        ExtractError,
    >)
        ensures
            match r {
                Ok(x) => {
                    &&& op.dst_extents@.len() > 0
                    &&& !hash_rejects(self.verify, op.op_type, blob@, op.data_sha256_hash@)
                    &&& x.spec_blob() == blob@
                    &&& x.spec_operation_type() == op.op_type
                    &&& x.spec_start_block() == op.dst_extents@[0].start_block
                    &&& x.spec_num_blocks() == op.dst_extents@[0].num_blocks
                },
                Err(ExtractError::MissingExtent) => op.dst_extents@.len() == 0,
                Err(ExtractError::HashMismatch { expected, actual }) => {
                    &&& op.dst_extents@.len() > 0
                    &&& hash_rejects(self.verify, op.op_type, blob@, op.data_sha256_hash@)
                    &&& expected@ == hex_of(op.data_sha256_hash@)
                    &&& actual@ == hex_of(sha256_of(blob@))
                },
                Err(_) => false,
            },
    {
        if op.dst_extents.len() == 0 {
            return Err(ExtractError::MissingExtent);
        }
        if self.verify && op.op_type != OperationType::Zero {
            let digest = sha256(blob.as_slice());
            if !bytes_equal(digest.as_slice(), op.data_sha256_hash.as_slice()) {
                let expected = to_hex(op.data_sha256_hash.as_slice());
                let actual = to_hex(digest.as_slice());
                return Err(ExtractError::HashMismatch { expected, actual });
            }
        }
        Ok(PartitionExtent::new(blob, op.op_type, &op.dst_extents[0]))
    }

    /// Rebuilds the partition called `name` in memory from the payload
    /// bytes `source`, applying its operations in manifest order. `Ok(None)`
    /// where no partition has that name.
    pub fn extract_image(&self, source: &[u8], name: &str) -> (r: Result<
        Option<Vec<u8>>,
        ExtractError,
    >)
        requires
            self.wf(),
        ensures
            r == Ok::<Option<Vec<u8>>, ExtractError>(None) <==> forall|i: int|
                0 <= i < self.partitions@.len() ==> #[trigger] self.partitions@[i].name@
                    != encode_utf8(name@),
            match r {
                Ok(Some(img)) => exists|i: int|
                    0 <= i < self.partitions@.len() && #[trigger] self.partitions@[i].name@
                        == encode_utf8(name@) && ops_writes(
                        self.verify,
                        self.spec_data_offset(),
                        source@,
                        self.partitions@[i]@.operations,
                    ) is Some && img@ == apply_writes(
                        Seq::empty(),
                        ops_writes(
                            self.verify,
                            self.spec_data_offset(),
                            source@,
                            self.partitions@[i]@.operations,
                        )->Some_0,
                    ),
                Ok(None) => true,
                Err(e) => exists|i: int|
                    0 <= i < self.partitions@.len() && #[trigger] self.partitions@[i].name@
                        == encode_utf8(name@) && exists|k: int|
                        0 <= k < self.partitions@[i]@.operations.len() && ops_writes(
                            self.verify,
                            self.spec_data_offset(),
                            source@,
                            #[trigger] self.partitions@[i]@.operations.take(k),
                        ) is Some && op_write(
                            self.verify,
                            self.spec_data_offset(),
                            source@,
                            self.partitions@[i]@.operations[k],
                        ) is None && op_fails_with(
                            self.verify,
                            self.spec_data_offset(),
                            source@,
                            self.partitions@[i]@.operations[k],
                            e,
                        ),
            },
    {
        let part = match self.lookup(name) {
            Ok(p) => p,
            Err(NotFound) => return Ok(None),
        };
        let ghost idx = choose|k: int| 0 <= k < self.partitions@.len() && self.partitions@[k] == *part;
        let ghost ops = part@.operations;
        let ghost base = self.spec_data_offset();
        let mut img: Vec<u8> = Vec::new();
        let mut i: usize = 0;
        let n = part.operations.len();
        let slen = source.len();
        assert(ops.take(0) =~= Seq::<InstallOperationView>::empty());
        while i < n
            invariant
                self.wf(),
                n == part.operations@.len(),
                slen == source@.len(),
                ops == part@.operations,
                base == self.spec_data_offset(),
                0 <= idx < self.partitions@.len(),
                self.partitions@[idx] == *part,
                part.name@ == encode_utf8(name@),
                i <= n,
                ops_writes(self.verify, base, source@, ops.take(i as int)) is Some,
                img@ == apply_writes(
                    Seq::empty(),
                    ops_writes(self.verify, base, source@, ops.take(i as int))->Some_0,
                ),
            decreases n - i,
        {
            let op = &part.operations[i];
            let ghost prefix = ops.take(i as int);
            let ghost ws = ops_writes(self.verify, base, source@, prefix)->Some_0;
            proof {
                assert(ops.take(i + 1).drop_last() =~= prefix);
                assert(ops.take(i + 1).last() == op@);
            }
            let step = self.apply_operation(&mut img, source, op);
            match step {
                Ok(()) => {
                    proof {
                        let w = op_write(self.verify, base, source@, op@)->Some_0;
                        assert(ws.push(w).drop_last() =~= ws);
                        assert(ws.push(w).last() == w);
                    }
                },
                Err(e) => {
                    proof {
                        lemma_ops_writes_fail(self.verify, base, source@, ops, i + 1);
                        assert(self.partitions@[idx].name@ == encode_utf8(name@));
                        assert(ops[i as int] == op@);
                        assert(self.partitions@[idx]@.operations.take(i as int) == prefix);
                    }
                    return Err(e);
                },
            }
            i = i + 1;
        }
        assert(ops.take(n as int) =~= ops);
        assert(self.partitions@[idx].name@ == encode_utf8(name@));
        Ok(Some(img))
    }

    /// Checks and decodes the encoded bytes `blob` of `op`: the byte offset
    /// in the image of its first destination extent, with the decoded bytes.
    pub fn operation_write(&self, op: &InstallOperation, blob: Vec<u8>) -> (r: Result<
        (u64, Vec<u8>),
        ExtractError,
    >)
        ensures
            match r {
                Ok((off, d)) => blob_write(self.verify, op@, blob@) == Some((off as nat, d@)),
                Err(e) => blob_write(self.verify, op@, blob@) is None && blob_fails_with(
                    self.verify,
                    op@,
                    blob@,
                    e,
                ),
            },
    {
        let extent = match self.prepare_extent(op, blob) {
            Ok(x) => x,
            Err(e) => return Err(e),
        };
        extent.decode_write()
    }

    /// Reads the encoded bytes of `op` from the payload bytes `source`,
    /// checks and decodes them, and writes them into `img`.
    fn apply_operation(&self, img: &mut Vec<u8>, source: &[u8], op: &InstallOperation) -> (r: Result<
        (),
        ExtractError,
    >)
        requires
            self.wf(),
        ensures
            match op_write(self.verify, self.spec_data_offset(), source@, op@) {
                Some((off, d)) => r is Ok && final(img)@ == write_at(old(img)@, off, d),
                None => r matches Err(e) && op_fails_with(
                    self.verify,
                    self.spec_data_offset(),
                    source@,
                    op@,
                    e,
                ),
            },
    {
        let (start, len) = match self.source_range(op) {
            Ok(r) => r,
            Err(e) => return Err(e),
        };
        if start > source.len() as u64 || len > source.len() as u64 - start {
            return Err(ExtractError::ShortSource);
        }
        let blob = slice_to_vec(slice_subrange(source, start as usize, (start + len) as usize));
        let (off, d) = match self.operation_write(op, blob) {
            Ok(w) => w,
            Err(e) => return Err(e),
        };
        write_image(img, off as usize, d.as_slice());
        Ok(())
    }
}

/// Whether two byte strings are equal.
fn bytes_equal(a: &[u8], b: &[u8]) -> (r: bool)
    ensures
        r == (a@ == b@),
{
    if a.len() != b.len() {
        return false;
    }
    let mut i: usize = 0;
    while i < a.len()
        invariant
            a@.len() == b@.len(),
            i <= a@.len(),
            forall|k: int| 0 <= k < i ==> a@[k] == b@[k],
        decreases a@.len() - i,
    {
        if a[i] != b[i] {
            return false;
        }
        i = i + 1;
    }
    assert(a@ =~= b@);
    true
}

} // verus!
