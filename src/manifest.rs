//! The manifest and signature messages of a payload, decoded from their
//! protocol buffer encoding.
use crate::wire::{fields_of, fields_in, read_fields, WireField, WireKind};
use vstd::prelude::*;
use vstd::slice::{slice_subrange, slice_to_vec};
use vstd::utf8::valid_utf8;

verus! {

/// A destination range of a partition image, in blocks of 4096 bytes.
#[derive(Debug, Clone, Copy, PartialEq, Eq, Structural)]
pub struct Extent {
    pub start_block: u64,
    pub num_blocks: u64,
}

/// What an operation does to produce its bytes.
#[derive(Debug, Clone, Copy, PartialEq, Eq, Structural)]
pub enum OperationType {
    /// The encoded bytes are the image bytes.
    Replace,
    /// The encoded bytes are a bzip2 stream.
    ReplaceBz,
    /// The encoded bytes are an xz stream.
    ReplaceXz,
    /// The encoded bytes are a zstd stream.
    ReplaceZstd,
    /// The image bytes are zeros; there are no encoded bytes to read.
    Zero,
    /// Any other operation, with its wire value.
    Other(u64),
}

/// The operation type that a wire value stands for.
pub open spec fn op_type_of(v: u64) -> OperationType {
    if v == 0 {
        OperationType::Replace
    } else if v == 1 {
        OperationType::ReplaceBz
    } else if v == 6 {
        OperationType::Zero
    } else if v == 8 {
        OperationType::ReplaceXz
    } else if v == 14 {
        OperationType::ReplaceZstd
    } else {
        OperationType::Other(v)
    }
}

fn operation_type_from(v: u64) -> (r: OperationType)
    ensures
        r == op_type_of(v),
{
    if v == 0 {
        OperationType::Replace
    } else if v == 1 {
        OperationType::ReplaceBz
    } else if v == 6 {
        OperationType::Zero
    } else if v == 8 {
        OperationType::ReplaceXz
    } else if v == 14 {
        OperationType::ReplaceZstd
    } else {
        OperationType::Other(v)
    }
}

/// One edit operation of a partition.
#[derive(Debug)]
pub struct InstallOperation {
    pub op_type: OperationType,
    /// Offset of the encoded bytes from the start of the data blob region.
    pub data_offset: u64,
    /// Length of the encoded bytes.
    pub data_length: u64,
    pub dst_extents: Vec<Extent>,
    /// SHA-256 digest of the encoded bytes.
    pub data_sha256_hash: Vec<u8>,
}

pub struct InstallOperationView {
    pub op_type: OperationType,
    pub data_offset: u64,
    pub data_length: u64,
    pub dst_extents: Seq<Extent>,
    pub data_sha256_hash: Seq<u8>,
}

impl View for InstallOperation {
    type V = InstallOperationView;

    open spec fn view(&self) -> InstallOperationView {
        InstallOperationView {
            op_type: self.op_type,
            data_offset: self.data_offset,
            data_length: self.data_length,
            dst_extents: self.dst_extents@,
            data_sha256_hash: self.data_sha256_hash@,
        }
    }
}

/// One partition that the payload rebuilds.
#[derive(Debug)]
pub struct PartitionUpdate {
    /// The partition's name, as UTF-8 bytes.
    pub name: Vec<u8>,
    /// Declared size in bytes of the rebuilt image.
    pub new_size: u64,
    pub operations: Vec<InstallOperation>,
}

pub struct PartitionUpdateView {
    pub name: Seq<u8>,
    pub new_size: u64,
    pub operations: Seq<InstallOperationView>,
}

impl View for PartitionUpdate {
    type V = PartitionUpdateView;

    open spec fn view(&self) -> PartitionUpdateView {
        PartitionUpdateView {
            name: self.name@,
            new_size: self.new_size,
            operations: self.operations@.map_values(|o: InstallOperation| o@),
        }
    }
}

/// The partitions that a manifest lists, in the order of the manifest.
pub open spec fn partitions_view(v: Seq<PartitionUpdate>) -> Seq<PartitionUpdateView> {
    v.map_values(|p: PartitionUpdate| p@)
}

/// One signature of the manifest, kept as opaque bytes.
#[derive(Debug)]
pub struct Signature {
    pub data: Vec<u8>,
}

// ---- Extent ----
/// What a field record does to an extent being decoded.
pub open spec fn extent_step(acc: Extent, f: WireField) -> Option<Extent> {
    if f.number == 1 {
        if f.kind == WireKind::Varint {
            Some(Extent { start_block: f.value, ..acc })
        } else {
            None
        }
    } else if f.number == 2 {
        if f.kind == WireKind::Varint {
            Some(Extent { num_blocks: f.value, ..acc })
        } else {
            None
        }
    } else {
        Some(acc)
    }
}

pub open spec fn extent_fold(acc: Extent, fs: Seq<WireField>) -> Option<Extent>
    decreases fs.len(),
{
    if fs.len() == 0 {
        Some(acc)
    } else {
        match extent_step(acc, fs[0]) {
            Some(a) => extent_fold(a, fs.drop_first()),
            None => None,
        }
    }
}

/// The extent that the message bytes `s` encode.
pub open spec fn spec_extent(s: Seq<u8>) -> Option<Extent> {
    match fields_of(s) {
        Some(fs) => extent_fold(Extent { start_block: 0, num_blocks: 0 }, fs),
        None => None,
    }
}

/// Decodes an extent message.
pub fn decode_extent(s: &[u8]) -> (r: Option<Extent>)
    ensures
        r == spec_extent(s@),
{
    let fs = match read_fields(s) {
        Some(fs) => fs,
        None => return None,
    };
    let mut acc = Extent { start_block: 0, num_blocks: 0 };
    let mut i: usize = 0;
    assert(fs@.subrange(0, fs@.len() as int) =~= fs@);
    while i < fs.len()
        invariant
            i <= fs@.len(),
            spec_extent(s@) == extent_fold(acc, fs@.subrange(i as int, fs@.len() as int)),
        decreases fs@.len() - i,
    {
        let f = fs[i];
        proof {
            let rest = fs@.subrange(i as int, fs@.len() as int);
            assert(rest.drop_first() =~= fs@.subrange(i + 1, fs@.len() as int));
            assert(rest[0] == f);
        }
        if f.number == 1 {
            if f.kind == WireKind::Varint {
                acc = Extent { start_block: f.value, ..acc };
            } else {
                return None;
            }
        } else if f.number == 2 {
            if f.kind == WireKind::Varint {
                acc = Extent { num_blocks: f.value, ..acc };
            } else {
                return None;
            }
        }
        i = i + 1;
    }
    Some(acc)
}

// ---- InstallOperation ----
/// An operation with no field set.
pub open spec fn empty_operation() -> InstallOperationView {
    InstallOperationView {
        op_type: OperationType::Replace,
        data_offset: 0,
        data_length: 0,
        dst_extents: Seq::empty(),
        data_sha256_hash: Seq::empty(),
    }
}

/// What a field record of the message bytes `s` does to an operation being
/// decoded.
pub open spec fn operation_step(s: Seq<u8>, acc: InstallOperationView, f: WireField) -> Option<
    InstallOperationView,
> {
    if f.number == 1 {
        if f.kind == WireKind::Varint {
            Some(InstallOperationView { op_type: op_type_of(f.value), ..acc })
        } else {
            None
        }
    } else if f.number == 2 {
        if f.kind == WireKind::Varint {
            Some(InstallOperationView { data_offset: f.value, ..acc })
        } else {
            None
        }
    } else if f.number == 3 {
        if f.kind == WireKind::Varint {
            Some(InstallOperationView { data_length: f.value, ..acc })
        } else {
            None
        }
    } else if f.number == 6 {
        if f.kind == WireKind::Bytes {
            match spec_extent(s.subrange(f.start as int, f.end as int)) {
                Some(e) => Some(InstallOperationView { dst_extents: acc.dst_extents.push(e), ..acc }),
                None => None,
            }
        } else {
            None
        }
    } else if f.number == 8 {
        if f.kind == WireKind::Bytes {
            Some(
                InstallOperationView {
                    data_sha256_hash: s.subrange(f.start as int, f.end as int),
                    ..acc
                },
            )
        } else {
            None
        }
    } else {
        Some(acc)
    }
}

pub open spec fn operation_fold(s: Seq<u8>, acc: InstallOperationView, fs: Seq<WireField>) -> Option<
    InstallOperationView,
>
    decreases fs.len(),
{
    if fs.len() == 0 {
        Some(acc)
    } else {
        match operation_step(s, acc, fs[0]) {
            Some(a) => operation_fold(s, a, fs.drop_first()),
            None => None,
        }
    }
}

/// The operation that the message bytes `s` encode.
pub open spec fn spec_operation(s: Seq<u8>) -> Option<InstallOperationView> {
    match fields_of(s) {
        Some(fs) => operation_fold(s, empty_operation(), fs),
        None => None,
    }
}

/// Decodes an install operation message.
pub fn decode_operation(s: &[u8]) -> (r: Option<InstallOperation>)
    ensures
        match r {
            Some(op) => spec_operation(s@) == Some(op@),
            None => spec_operation(s@) is None,
        },
{
    let fs = match read_fields(s) {
        Some(fs) => fs,
        None => return None,
    };
    let mut acc = InstallOperation {
        op_type: OperationType::Replace,
        data_offset: 0,
        data_length: 0,
        dst_extents: Vec::new(),
        data_sha256_hash: Vec::new(),
    };
    let mut i: usize = 0;
    assert(fs@.subrange(0, fs@.len() as int) =~= fs@);
    assert(acc@.dst_extents =~= Seq::<Extent>::empty());
    assert(acc@.data_sha256_hash =~= Seq::<u8>::empty());
    while i < fs.len()
        invariant
            i <= fs@.len(),
            fields_in(s@, fs@),
            spec_operation(s@) == operation_fold(s@, acc@, fs@.subrange(i as int, fs@.len() as int)),
        decreases fs@.len() - i,
    {
        let f = fs[i];
        proof {
            let rest = fs@.subrange(i as int, fs@.len() as int);
            assert(rest.drop_first() =~= fs@.subrange(i + 1, fs@.len() as int));
            assert(rest[0] == f);
            assert(fs@[i as int].start <= fs@[i as int].end);
        }
        if f.number == 1 {
            if f.kind == WireKind::Varint {
                acc.op_type = operation_type_from(f.value);
            } else {
                return None;
            }
        } else if f.number == 2 {
            if f.kind == WireKind::Varint {
                acc.data_offset = f.value;
            } else {
                return None;
            }
        } else if f.number == 3 {
            if f.kind == WireKind::Varint {
                acc.data_length = f.value;
            } else {
                return None;
            }
        } else if f.number == 6 {
            if f.kind == WireKind::Bytes {
                match decode_extent(slice_subrange(s, f.start, f.end)) {
                    Some(e) => acc.dst_extents.push(e),
                    None => return None,
                }
            } else {
                return None;
            }
        } else if f.number == 8 {
            if f.kind == WireKind::Bytes {
                acc.data_sha256_hash = slice_to_vec(slice_subrange(s, f.start, f.end));
            } else {
                return None;
            }
        }
        i = i + 1;
    }
    Some(acc)
}

// ---- PartitionInfo ----
/// What a field record does to the image size of a partition info message.
pub open spec fn info_step(size: u64, f: WireField) -> Option<u64> {
    if f.number == 1 {
        if f.kind == WireKind::Varint {
            Some(f.value)
        } else {
            None
        }
    } else {
        Some(size)
    }
}

pub open spec fn info_fold(size: u64, fs: Seq<WireField>) -> Option<u64>
    decreases fs.len(),
{
    if fs.len() == 0 {
        Some(size)
    } else {
        match info_step(size, fs[0]) {
            Some(a) => info_fold(a, fs.drop_first()),
            None => None,
        }
    }
}

/// The image size that the partition info message `s` gives, merged into
/// the size `size` that an earlier occurrence gave.
pub open spec fn spec_info_size(s: Seq<u8>, size: u64) -> Option<u64> {
    match fields_of(s) {
        Some(fs) => info_fold(size, fs),
        None => None,
    }
}

fn decode_info_size(s: &[u8], size: u64) -> (r: Option<u64>)
    ensures
        r == spec_info_size(s@, size),
{
    let fs = match read_fields(s) {
        Some(fs) => fs,
        None => return None,
    };
    let mut acc = size;
    let mut i: usize = 0;
    assert(fs@.subrange(0, fs@.len() as int) =~= fs@);
    while i < fs.len()
        invariant
            i <= fs@.len(),
            spec_info_size(s@, size) == info_fold(acc, fs@.subrange(i as int, fs@.len() as int)),
        decreases fs@.len() - i,
    {
        let f = fs[i];
        proof {
            let rest = fs@.subrange(i as int, fs@.len() as int);
            assert(rest.drop_first() =~= fs@.subrange(i + 1, fs@.len() as int));
            assert(rest[0] == f);
        }
        if f.number == 1 {
            if f.kind == WireKind::Varint {
                acc = f.value;
            } else {
                return None;
            }
        }
        i = i + 1;
    }
    Some(acc)
}

/// Relies on `std::str::from_utf8`: it succeeds exactly on valid UTF-8.
#[verifier::external_body]
fn is_utf8(b: &[u8]) -> (r: bool)
    ensures
        r == valid_utf8(b@),
{
    std::str::from_utf8(b).is_ok()
}

// ---- PartitionUpdate ----
/// A partition with no field set.
pub open spec fn empty_partition() -> PartitionUpdateView {
    PartitionUpdateView { name: Seq::empty(), new_size: 0, operations: Seq::empty() }
}

/// What a field record of the message bytes `s` does to a partition being
/// decoded. The name must be valid UTF-8.
pub open spec fn partition_step(s: Seq<u8>, acc: PartitionUpdateView, f: WireField) -> Option<
    PartitionUpdateView,
> {
    let body = s.subrange(f.start as int, f.end as int);
    if f.number == 1 {
        if f.kind == WireKind::Bytes && valid_utf8(body) {
            Some(PartitionUpdateView { name: body, ..acc })
        } else {
            None
        }
    } else if f.number == 7 {
        if f.kind == WireKind::Bytes {
            match spec_info_size(body, acc.new_size) {
                Some(n) => Some(PartitionUpdateView { new_size: n, ..acc }),
                None => None,
            }
        } else {
            None
        }
    } else if f.number == 8 {
        if f.kind == WireKind::Bytes {
            match spec_operation(body) {
                Some(o) => Some(PartitionUpdateView { operations: acc.operations.push(o), ..acc }),
                None => None,
            }
        } else {
            None
        }
    } else {
        Some(acc)
    }
}

pub open spec fn partition_fold(s: Seq<u8>, acc: PartitionUpdateView, fs: Seq<WireField>) -> Option<
    PartitionUpdateView,
>
    decreases fs.len(),
{
    if fs.len() == 0 {
        Some(acc)
    } else {
        match partition_step(s, acc, fs[0]) {
            Some(a) => partition_fold(s, a, fs.drop_first()),
            None => None,
        }
    }
}

/// The partition that the message bytes `s` encode.
pub open spec fn spec_partition(s: Seq<u8>) -> Option<PartitionUpdateView> {
    match fields_of(s) {
        Some(fs) => partition_fold(s, empty_partition(), fs),
        None => None,
    }
}

/// Decodes a partition update message.
pub fn decode_partition(s: &[u8]) -> (r: Option<PartitionUpdate>)
    ensures
        match r {
            Some(p) => spec_partition(s@) == Some(p@),
            None => spec_partition(s@) is None,
        },
{
    let fs = match read_fields(s) {
        Some(fs) => fs,
        None => return None,
    };
    let mut acc = PartitionUpdate { name: Vec::new(), new_size: 0, operations: Vec::new() };
    let mut i: usize = 0;
    assert(fs@.subrange(0, fs@.len() as int) =~= fs@);
    assert(acc@.name =~= Seq::<u8>::empty());
    assert(acc@.operations =~= Seq::<InstallOperationView>::empty());
    while i < fs.len()
        invariant
            i <= fs@.len(),
            fields_in(s@, fs@),
            spec_partition(s@) == partition_fold(s@, acc@, fs@.subrange(i as int, fs@.len() as int)),
        decreases fs@.len() - i,
    {
        let f = fs[i];
        proof {
            let rest = fs@.subrange(i as int, fs@.len() as int);
            assert(rest.drop_first() =~= fs@.subrange(i + 1, fs@.len() as int));
            assert(rest[0] == f);
            assert(fs@[i as int].start <= fs@[i as int].end);
        }
        if f.number == 1 {
            if f.kind == WireKind::Bytes {
                let body = slice_subrange(s, f.start, f.end);
                if is_utf8(body) {
                    acc.name = slice_to_vec(body);
                } else {
                    return None;
                }
            } else {
                return None;
            }
        } else if f.number == 7 {
            if f.kind == WireKind::Bytes {
                match decode_info_size(slice_subrange(s, f.start, f.end), acc.new_size) {
                    Some(n) => acc.new_size = n,
                    None => return None,
                }
            } else {
                return None;
            }
        } else if f.number == 8 {
            if f.kind == WireKind::Bytes {
                match decode_operation(slice_subrange(s, f.start, f.end)) {
                    Some(o) => {
                        let ghost before = acc@;
                        acc.operations.push(o);
                        assert(acc@.operations =~= before.operations.push(o@));
                    },
                    None => return None,
                }
            } else {
                return None;
            }
        }
        i = i + 1;
    }
    Some(acc)
}

// ---- DeltaArchiveManifest ----
/// What a field record of the message bytes `s` does to the partitions of a
/// manifest being decoded.
pub open spec fn manifest_step(s: Seq<u8>, acc: Seq<PartitionUpdateView>, f: WireField) -> Option<
    Seq<PartitionUpdateView>,
> {
    if f.number == 13 {
        if f.kind == WireKind::Bytes {
            match spec_partition(s.subrange(f.start as int, f.end as int)) {
                Some(p) => Some(acc.push(p)),
                None => None,
            }
        } else {
            None
        }
    } else {
        Some(acc)
    }
}

pub open spec fn manifest_fold(s: Seq<u8>, acc: Seq<PartitionUpdateView>, fs: Seq<WireField>) -> Option<
    Seq<PartitionUpdateView>,
>
    decreases fs.len(),
{
    if fs.len() == 0 {
        Some(acc)
    } else {
        match manifest_step(s, acc, fs[0]) {
            Some(a) => manifest_fold(s, a, fs.drop_first()),
            None => None,
        }
    }
}

/// The partitions, in manifest order, that the manifest bytes `s` list.
pub open spec fn spec_manifest(s: Seq<u8>) -> Option<Seq<PartitionUpdateView>> {
    match fields_of(s) {
        Some(fs) => manifest_fold(s, Seq::empty(), fs),
        None => None,
    }
}

/// Decodes a manifest message into its partitions, in manifest order.
pub fn decode_manifest(s: &[u8]) -> (r: Option<Vec<PartitionUpdate>>)
    ensures
        match r {
            Some(v) => spec_manifest(s@) == Some(partitions_view(v@)),
            None => spec_manifest(s@) is None,
        },
{
    let fs = match read_fields(s) {
        Some(fs) => fs,
        None => return None,
    };
    let mut acc: Vec<PartitionUpdate> = Vec::new();
    let mut i: usize = 0;
    assert(fs@.subrange(0, fs@.len() as int) =~= fs@);
    assert(partitions_view(acc@) =~= Seq::<PartitionUpdateView>::empty());
    while i < fs.len()
        invariant
            i <= fs@.len(),
            fields_in(s@, fs@),
            spec_manifest(s@) == manifest_fold(
                s@,
                partitions_view(acc@),
                fs@.subrange(i as int, fs@.len() as int),
            ),
        decreases fs@.len() - i,
    {
        let f = fs[i];
        proof {
            let rest = fs@.subrange(i as int, fs@.len() as int);
            assert(rest.drop_first() =~= fs@.subrange(i + 1, fs@.len() as int));
            assert(rest[0] == f);
            assert(fs@[i as int].start <= fs@[i as int].end);
        }
        if f.number == 13 {
            if f.kind == WireKind::Bytes {
                match decode_partition(slice_subrange(s, f.start, f.end)) {
                    Some(p) => {
                        let ghost before = acc@;
                        acc.push(p);
                        assert(partitions_view(acc@) =~= partitions_view(before).push(p@));
                    },
                    None => return None,
                }
            } else {
                return None;
            }
        }
        i = i + 1;
    }
    Some(acc)
}

// ---- Signatures ----
/// What a field record of a signature message does to its data.
pub open spec fn signature_step(s: Seq<u8>, data: Seq<u8>, f: WireField) -> Option<Seq<u8>> {
    if f.number == 2 {
        if f.kind == WireKind::Bytes {
            Some(s.subrange(f.start as int, f.end as int))
        } else {
            None
        }
    } else if f.number == 1 {
        if f.kind == WireKind::Varint {
            Some(data)
        } else {
            None
        }
    } else if f.number == 3 {
        if f.kind == WireKind::Fixed32 {
            Some(data)
        } else {
            None
        }
    } else {
        Some(data)
    }
}

pub open spec fn signature_fold(s: Seq<u8>, data: Seq<u8>, fs: Seq<WireField>) -> Option<Seq<u8>>
    decreases fs.len(),
{
    if fs.len() == 0 {
        Some(data)
    } else {
        match signature_step(s, data, fs[0]) {
            Some(a) => signature_fold(s, a, fs.drop_first()),
            None => None,
        }
    }
}

/// The signature data that the signature message `s` holds.
pub open spec fn spec_signature(s: Seq<u8>) -> Option<Seq<u8>> {
    match fields_of(s) {
        Some(fs) => signature_fold(s, Seq::empty(), fs),
        None => None,
    }
}

fn decode_signature(s: &[u8]) -> (r: Option<Signature>)
    ensures
        match r {
            Some(g) => spec_signature(s@) == Some(g.data@),
            None => spec_signature(s@) is None,
        },
{
    let fs = match read_fields(s) {
        Some(fs) => fs,
        None => return None,
    };
    let mut data: Vec<u8> = Vec::new();
    let mut i: usize = 0;
    assert(fs@.subrange(0, fs@.len() as int) =~= fs@);
    assert(data@ =~= Seq::<u8>::empty());
    while i < fs.len()
        invariant
            i <= fs@.len(),
            fields_in(s@, fs@),
            spec_signature(s@) == signature_fold(s@, data@, fs@.subrange(i as int, fs@.len() as int)),
        decreases fs@.len() - i,
    {
        let f = fs[i];
        proof {
            let rest = fs@.subrange(i as int, fs@.len() as int);
            assert(rest.drop_first() =~= fs@.subrange(i + 1, fs@.len() as int));
            assert(rest[0] == f);
            assert(fs@[i as int].start <= fs@[i as int].end);
        }
        if f.number == 2 {
            if f.kind == WireKind::Bytes {
                data = slice_to_vec(slice_subrange(s, f.start, f.end));
            } else {
                return None;
            }
        } else if f.number == 1 {
            if f.kind != WireKind::Varint {
                return None;
            }
        } else if f.number == 3 {
            if f.kind != WireKind::Fixed32 {
                return None;
            }
        }
        i = i + 1;
    }
    Some(Signature { data })
}

/// What a field record of the signatures message `s` adds to its list.
pub open spec fn signatures_step(s: Seq<u8>, acc: Seq<Seq<u8>>, f: WireField) -> Option<Seq<Seq<u8>>> {
    if f.number == 1 {
        if f.kind == WireKind::Bytes {
            match spec_signature(s.subrange(f.start as int, f.end as int)) {
                Some(g) => Some(acc.push(g)),
                None => None,
            }
        } else {
            None
        }
    } else {
        Some(acc)
    }
}

pub open spec fn signatures_fold(s: Seq<u8>, acc: Seq<Seq<u8>>, fs: Seq<WireField>) -> Option<Seq<Seq<u8>>>
    decreases fs.len(),
{
    if fs.len() == 0 {
        Some(acc)
    } else {
        match signatures_step(s, acc, fs[0]) {
            Some(a) => signatures_fold(s, a, fs.drop_first()),
            None => None,
        }
    }
}

/// The data of each signature that the signatures message `s` holds.
pub open spec fn spec_signatures(s: Seq<u8>) -> Option<Seq<Seq<u8>>> {
    match fields_of(s) {
        Some(fs) => signatures_fold(s, Seq::empty(), fs),
        None => None,
    }
}

/// The data of each signature in `v`.
pub open spec fn signatures_view(v: Seq<Signature>) -> Seq<Seq<u8>> {
    v.map_values(|g: Signature| g.data@)
}

/// Decodes the signatures message that follows the manifest.
pub fn decode_signatures(s: &[u8]) -> (r: Option<Vec<Signature>>)
    ensures
        match r {
            Some(v) => spec_signatures(s@) == Some(signatures_view(v@)),
            None => spec_signatures(s@) is None,
        },
{
    let fs = match read_fields(s) {
        Some(fs) => fs,
        None => return None,
    };
    let mut acc: Vec<Signature> = Vec::new();
    let mut i: usize = 0;
    assert(fs@.subrange(0, fs@.len() as int) =~= fs@);
    assert(signatures_view(acc@) =~= Seq::<Seq<u8>>::empty());
    while i < fs.len()
        invariant
            i <= fs@.len(),
            fields_in(s@, fs@),
            spec_signatures(s@) == signatures_fold(
                s@,
                signatures_view(acc@),
                fs@.subrange(i as int, fs@.len() as int),
            ),
        decreases fs@.len() - i,
    {
        let f = fs[i];
        proof {
            let rest = fs@.subrange(i as int, fs@.len() as int);
            assert(rest.drop_first() =~= fs@.subrange(i + 1, fs@.len() as int));
            assert(rest[0] == f);
            assert(fs@[i as int].start <= fs@[i as int].end);
        }
        if f.number == 1 {
            if f.kind == WireKind::Bytes {
                match decode_signature(slice_subrange(s, f.start, f.end)) {
                    Some(g) => {
                        let ghost before = acc@;
                        acc.push(g);
                        assert(signatures_view(acc@) =~= signatures_view(before).push(g.data@));
                    },
                    None => return None,
                }
            } else {
                return None;
            }
        }
        i = i + 1;
    }
    Some(acc)
}

proof fn lemma_partition_name_utf8(s: Seq<u8>, acc: PartitionUpdateView, fs: Seq<WireField>)
    requires
        valid_utf8(acc.name),
    ensures
        partition_fold(s, acc, fs) matches Some(p) ==> valid_utf8(p.name),
    decreases fs.len(),
{
    if fs.len() > 0 {
        if let Some(a) = partition_step(s, acc, fs[0]) {
            lemma_partition_name_utf8(s, a, fs.drop_first());
        }
    }
}

proof fn lemma_manifest_fold_utf8(s: Seq<u8>, acc: Seq<PartitionUpdateView>, fs: Seq<WireField>)
    requires
        forall|i: int| 0 <= i < acc.len() ==> valid_utf8(#[trigger] acc[i].name),
    ensures
        manifest_fold(s, acc, fs) matches Some(ps) ==> forall|i: int|
            0 <= i < ps.len() ==> valid_utf8(#[trigger] ps[i].name),
    decreases fs.len(),
{
    if fs.len() > 0 {
        let f = fs[0];
        if let Some(a) = manifest_step(s, acc, f) {
            if f.number == 13 {
                let body = s.subrange(f.start as int, f.end as int);
                if let Some(fs2) = fields_of(body) {
                    assert(valid_utf8(Seq::<u8>::empty())) by {
                        reveal_with_fuel(valid_utf8, 1);
                    }
                    lemma_partition_name_utf8(body, empty_partition(), fs2);
                }
                assert forall|i: int| 0 <= i < a.len() implies valid_utf8(#[trigger] a[i].name) by {
                    if i < acc.len() {
                        assert(a[i] == acc[i]);
                    }
                }
            }
            lemma_manifest_fold_utf8(s, a, fs.drop_first());
        }
    }
}

/// Every partition that a manifest decodes to has a UTF-8 name.
pub proof fn lemma_manifest_names_utf8(s: Seq<u8>)
    ensures
        spec_manifest(s) matches Some(ps) ==> forall|i: int|
            0 <= i < ps.len() ==> valid_utf8(#[trigger] ps[i].name),
{
    if let Some(fs) = fields_of(s) {
        lemma_manifest_fold_utf8(s, Seq::empty(), fs);
    }
}

} // verus!
