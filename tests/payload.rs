use payload_dumper::extent::{ExtractError, PartitionExtent};
use payload_dumper::header::{FormatError, Header};
use payload_dumper::image::PartitionDecoder;
use payload_dumper::manifest::{Extent, OperationType};
use payload_dumper::payload::{NotFound, Payload};
use payload_dumper::wire::read_varint;
use sha2::Digest;
use std::io::Write;

fn varint(mut v: u64, out: &mut Vec<u8>) {
    loop {
        let b = (v & 0x7f) as u8;
        v >>= 7;
        if v == 0 {
            out.push(b);
            return;
        }
        out.push(b | 0x80);
    }
}

fn field_varint(num: u64, v: u64, out: &mut Vec<u8>) {
    varint(num << 3, out);
    varint(v, out);
}

fn field_bytes(num: u64, b: &[u8], out: &mut Vec<u8>) {
    varint((num << 3) | 2, out);
    varint(b.len() as u64, out);
    out.extend_from_slice(b);
}

struct Op {
    kind: u64,
    offset: u64,
    length: u64,
    start_block: u64,
    num_blocks: u64,
    hash: Vec<u8>,
}

fn encode_op(op: &Op) -> Vec<u8> {
    let mut ext = Vec::new();
    field_varint(1, op.start_block, &mut ext);
    field_varint(2, op.num_blocks, &mut ext);
    let mut out = Vec::new();
    field_varint(1, op.kind, &mut out);
    field_varint(2, op.offset, &mut out);
    field_varint(3, op.length, &mut out);
    field_bytes(6, &ext, &mut out);
    field_bytes(8, &op.hash, &mut out);
    out
}

fn encode_partition(name: &str, size: u64, ops: &[Op]) -> Vec<u8> {
    let mut info = Vec::new();
    field_varint(1, size, &mut info);
    let mut out = Vec::new();
    field_bytes(1, name.as_bytes(), &mut out);
    field_bytes(7, &info, &mut out);
    for op in ops {
        field_bytes(8, &encode_op(op), &mut out);
    }
    out
}

fn encode_manifest(parts: &[Vec<u8>]) -> Vec<u8> {
    let mut out = Vec::new();
    field_varint(3, 4096, &mut out);
    for p in parts {
        field_bytes(13, p, &mut out);
    }
    out
}

fn encode_signatures() -> Vec<u8> {
    let mut sig = Vec::new();
    field_varint(1, 1, &mut sig);
    field_bytes(2, &[9, 8, 7], &mut sig);
    let mut out = Vec::new();
    field_bytes(1, &sig, &mut out);
    out
}

fn payload_bytes(manifest: &[u8], signatures: &[u8], data: &[u8]) -> Vec<u8> {
    let mut out = b"CrAU".to_vec();
    out.extend_from_slice(&2u64.to_be_bytes());
    out.extend_from_slice(&(manifest.len() as u64).to_be_bytes());
    out.extend_from_slice(&(signatures.len() as u32).to_be_bytes());
    out.extend_from_slice(manifest);
    out.extend_from_slice(signatures);
    out.extend_from_slice(data);
    out
}

fn sha(b: &[u8]) -> Vec<u8> {
    sha2::Sha256::digest(b).to_vec()
}

fn replace_op(offset: u64, data: &[u8], start_block: u64) -> Op {
    Op {
        kind: 0,
        offset,
        length: data.len() as u64,
        start_block,
        num_blocks: (data.len() / 4096) as u64,
        hash: sha(data),
    }
}

fn boot_payload() -> (Vec<u8>, Vec<u8>) {
    let data: Vec<u8> = (0..8192u32).map(|i| (i % 251) as u8).collect();
    let part = encode_partition("boot", 8192, &[replace_op(0, &data, 0)]);
    let bytes = payload_bytes(&encode_manifest(&[part]), &encode_signatures(), &data);
    (bytes, data)
}

#[test]
fn header_parses_fields() {
    let (bytes, _) = boot_payload();
    let h = Header::parse(&bytes).unwrap();
    assert_eq!(h.major_version, 2);
    assert_eq!(h.manifest_signature_size as usize, encode_signatures().len());
    assert_eq!(h.data_offset(), Some(24 + h.manifest_size + h.manifest_signature_size as u64));
}

#[test]
fn header_rejects_bad_magic() {
    let (mut bytes, _) = boot_payload();
    bytes[0] = b'X';
    assert_eq!(Header::parse(&bytes), Err(FormatError::BadMagic));
}

#[test]
fn header_rejects_other_version() {
    let (mut bytes, _) = boot_payload();
    bytes[11] = 3;
    assert_eq!(Header::parse(&bytes), Err(FormatError::UnsupportedVersion(3)));
}

#[test]
fn header_rejects_short_input() {
    assert_eq!(Header::parse(b"CrAU\0\0"), Err(FormatError::Truncated));
}

#[test]
fn open_rejects_truncated_manifest() {
    let (bytes, _) = boot_payload();
    let h = Header::parse(&bytes).unwrap();
    let cut = 24 + h.manifest_size as usize - 1;
    assert!(matches!(Payload::open(&bytes[..cut]), Err(FormatError::Truncated)));
}

#[test]
fn open_rejects_malformed_manifest() {
    let manifest = vec![0x6a, 0x05, 0x01];
    let bytes = payload_bytes(&manifest, &[], &[]);
    assert!(matches!(Payload::open(&bytes), Err(FormatError::BadManifest)));
}

#[test]
fn open_rejects_malformed_signatures() {
    let bytes = payload_bytes(&encode_manifest(&[]), &[0x0a], &[]);
    assert!(matches!(Payload::open(&bytes), Err(FormatError::BadSignatures)));
}

#[test]
fn open_lists_names_sorted() {
    let parts = vec![
        encode_partition("system", 0, &[]),
        encode_partition("boot", 0, &[]),
        encode_partition("vendor", 0, &[]),
        encode_partition("odm", 0, &[]),
    ];
    let bytes = payload_bytes(&encode_manifest(&parts), &encode_signatures(), &[]);
    let p = Payload::open(&bytes).unwrap();
    assert_eq!(p.partition_list(), vec!["boot", "odm", "system", "vendor"]);
    assert_eq!(p.signatures.len(), 1);
    assert_eq!(p.signatures[0].data, vec![9, 8, 7]);
}

#[test]
fn lookup_finds_first_last_and_misses() {
    let parts = vec![
        encode_partition("system", 11, &[]),
        encode_partition("boot", 22, &[]),
        encode_partition("vendor", 33, &[]),
    ];
    let bytes = payload_bytes(&encode_manifest(&parts), &encode_signatures(), &[]);
    let p = Payload::open(&bytes).unwrap();
    assert_eq!(p.lookup("boot").unwrap().new_size, 22);
    assert_eq!(p.lookup("vendor").unwrap().new_size, 33);
    assert_eq!(p.lookup("system").unwrap().new_size, 11);
    assert_eq!(p.lookup("recovery").unwrap_err(), NotFound);
    assert_eq!(p.lookup("").unwrap_err(), NotFound);
    assert_eq!(p.lookup("zzz").unwrap_err(), NotFound);
    assert_eq!(p.lookup("boo").unwrap_err(), NotFound);
}

#[test]
fn end_to_end_boot_extraction() {
    let (bytes, data) = boot_payload();
    let p = Payload::open(&bytes).unwrap();
    let img = p.extract_image(&bytes, "boot").unwrap().unwrap();
    assert_eq!(img.len(), 8192);
    assert_eq!(img, data);
    assert_eq!(p.extract_image(&bytes, "recovery").unwrap(), None);
}

#[test]
fn corrupted_byte_fails_integrity() {
    let (mut bytes, data) = boot_payload();
    let last = bytes.len() - 1;
    bytes[last] ^= 0xff;
    let p = Payload::open(&bytes).unwrap();
    match p.extract_image(&bytes, "boot") {
        Err(ExtractError::HashMismatch { expected, actual }) => {
            assert_eq!(expected, hex::encode(sha(&data)));
            assert_eq!(actual, hex::encode(sha(&bytes[bytes.len() - 8192..])));
            assert_ne!(expected, actual);
        }
        other => panic!("unexpected {:?}", other),
    }
    let p = p.skip_verify();
    let img = p.extract_image(&bytes, "boot").unwrap().unwrap();
    assert_eq!(img[8191], data[8191] ^ 0xff);
}

#[test]
fn prepare_extent_reports_hex_digests() {
    let (bytes, data) = boot_payload();
    let p = Payload::open(&bytes).unwrap();
    let op = &p.lookup("boot").unwrap().operations[0];
    let mut bad = data.clone();
    bad[0] ^= 1;
    match p.prepare_extent(op, bad.clone()) {
        Err(ExtractError::HashMismatch { expected, actual }) => {
            assert_eq!(expected.len(), 64);
            assert_eq!(expected, hex::encode(sha(&data)));
            assert_eq!(actual, hex::encode(sha(&bad)));
        }
        other => panic!("unexpected {:?}", other),
    }
    let x = p.prepare_extent(op, data.clone()).unwrap();
    assert_eq!(x.num_blocks(), 2);
    assert_eq!(x.start_block(), 0);
}

#[test]
fn zero_operation_ignores_its_bytes() {
    let x = PartitionExtent::new(vec![1, 2, 3], OperationType::Zero, &Extent { start_block: 5, num_blocks: 3 });
    let d = x.decode().unwrap();
    assert_eq!(d.len(), 3 * 4096);
    assert!(d.iter().all(|b| *b == 0));
}

#[test]
fn zero_operation_skips_the_digest() {
    let zero = Op { kind: 6, offset: 0, length: 0, start_block: 1, num_blocks: 1, hash: vec![1, 2] };
    let part = encode_partition("misc", 8192, &[zero]);
    let bytes = payload_bytes(&encode_manifest(&[part]), &encode_signatures(), &[]);
    let p = Payload::open(&bytes).unwrap();
    let img = p.extract_image(&bytes, "misc").unwrap().unwrap();
    assert_eq!(img, vec![0u8; 8192]);
}

fn round_trip(t: OperationType, compressed: Vec<u8>, plain: &[u8]) {
    let x = PartitionExtent::new(compressed, t, &Extent { start_block: 0, num_blocks: (plain.len() / 4096) as u64 });
    assert_eq!(x.decode().unwrap(), plain);
}

fn plaintext() -> Vec<u8> {
    (0..3 * 4096u32).map(|i| ((i * 7) % 13) as u8).collect()
}

#[test]
fn xz_round_trip() {
    let plain = plaintext();
    let mut enc = xz::write::XzEncoder::new(Vec::new(), 6);
    enc.write_all(&plain).unwrap();
    round_trip(OperationType::ReplaceXz, enc.finish().unwrap(), &plain);
}

#[test]
fn bzip2_round_trip() {
    let plain = plaintext();
    let mut enc = bzip2::write::BzEncoder::new(Vec::new(), bzip2::Compression::default());
    enc.write_all(&plain).unwrap();
    round_trip(OperationType::ReplaceBz, enc.finish().unwrap(), &plain);
}

#[test]
fn zstd_round_trip() {
    let plain = plaintext();
    let compressed = zstd::encode_all(plain.as_slice(), 3).unwrap();
    round_trip(OperationType::ReplaceZstd, compressed, &plain);
}

#[test]
fn short_stream_is_a_decode_error() {
    let plain = plaintext();
    let compressed = zstd::encode_all(&plain[..4096], 3).unwrap();
    let x = PartitionExtent::new(compressed, OperationType::ReplaceZstd, &Extent { start_block: 0, num_blocks: 2 });
    assert_eq!(x.decode(), Err(ExtractError::Decode(OperationType::ReplaceZstd)));
    let x = PartitionExtent::new(vec![1, 2, 3], OperationType::ReplaceXz, &Extent { start_block: 0, num_blocks: 1 });
    assert_eq!(x.decode(), Err(ExtractError::Decode(OperationType::ReplaceXz)));
    let x = PartitionExtent::new(vec![1, 2, 3], OperationType::ReplaceBz, &Extent { start_block: 0, num_blocks: 1 });
    assert_eq!(x.decode(), Err(ExtractError::Decode(OperationType::ReplaceBz)));
}

#[test]
fn stream_longer_than_extent_is_a_decode_error() {
    let plain = plaintext();
    let compressed = zstd::encode_all(plain.as_slice(), 3).unwrap();
    let x = PartitionExtent::new(compressed, OperationType::ReplaceZstd, &Extent { start_block: 0, num_blocks: 2 });
    assert_eq!(x.decode(), Err(ExtractError::Decode(OperationType::ReplaceZstd)));
    let mut enc = xz::write::XzEncoder::new(Vec::new(), 6);
    enc.write_all(&plain).unwrap();
    let x = PartitionExtent::new(enc.finish().unwrap(), OperationType::ReplaceXz, &Extent { start_block: 0, num_blocks: 1 });
    assert_eq!(x.decode(), Err(ExtractError::Decode(OperationType::ReplaceXz)));
    let mut enc = bzip2::write::BzEncoder::new(Vec::new(), bzip2::Compression::default());
    enc.write_all(&plain).unwrap();
    let x = PartitionExtent::new(enc.finish().unwrap(), OperationType::ReplaceBz, &Extent { start_block: 0, num_blocks: 2 });
    assert_eq!(x.decode(), Err(ExtractError::Decode(OperationType::ReplaceBz)));
}

#[test]
fn operation_write_places_decoded_bytes() {
    let (bytes, data) = boot_payload();
    let p = Payload::open(&bytes).unwrap();
    let op = &p.lookup("boot").unwrap().operations[0];
    let (start, len) = p.source_range(op).unwrap();
    let blob = bytes[start as usize..(start + len) as usize].to_vec();
    let (off, d) = p.operation_write(op, blob).unwrap();
    assert_eq!(off, 0);
    assert_eq!(d, data);
    assert!(matches!(p.operation_write(op, vec![0u8; 8192]), Err(ExtractError::HashMismatch { .. })));
}

#[test]
fn replace_length_must_match_extent() {
    let x = PartitionExtent::new(vec![0; 100], OperationType::Replace, &Extent { start_block: 0, num_blocks: 1 });
    assert_eq!(x.decode(), Err(ExtractError::LengthMismatch { extent_len: 4096, blob_len: 100 }));
}

#[test]
fn unsupported_operation_fails() {
    let bsdiff = Op { kind: 3, offset: 0, length: 0, start_block: 0, num_blocks: 1, hash: sha(&[]) };
    let part = encode_partition("odm", 4096, &[bsdiff]);
    let bytes = payload_bytes(&encode_manifest(&[part]), &encode_signatures(), &[]);
    let p = Payload::open(&bytes).unwrap();
    assert_eq!(p.lookup("odm").unwrap().operations[0].op_type, OperationType::Other(3));
    assert_eq!(p.extract_image(&bytes, "odm"), Err(ExtractError::Unsupported(OperationType::Other(3))));
}

#[test]
fn operation_without_extent_fails() {
    let mut op = Vec::new();
    field_varint(1, 0, &mut op);
    let mut part = Vec::new();
    field_bytes(1, b"boot", &mut part);
    field_bytes(8, &op, &mut part);
    let bytes = payload_bytes(&encode_manifest(&[part]), &encode_signatures(), &[]);
    let p = Payload::open(&bytes).unwrap();
    assert_eq!(p.extract_image(&bytes, "boot"), Err(ExtractError::MissingExtent));
}

#[test]
fn data_past_the_end_fails() {
    let (bytes, _) = boot_payload();
    let p = Payload::open(&bytes).unwrap();
    let cut = &bytes[..bytes.len() - 1];
    assert_eq!(p.extract_image(cut, "boot"), Err(ExtractError::ShortSource));
}

#[test]
fn sparse_writes_land_at_their_blocks() {
    let a = vec![0xaau8; 4096];
    let b = vec![0xbbu8; 4096];
    let mut data = a.clone();
    data.extend_from_slice(&b);
    let ops = [replace_op(4096, &b, 0), replace_op(0, &a, 3)];
    let part = encode_partition("vendor", 4 * 4096, &ops);
    let bytes = payload_bytes(&encode_manifest(&[part]), &encode_signatures(), &data);
    let p = Payload::open(&bytes).unwrap();
    let img = p.extract_image(&bytes, "vendor").unwrap().unwrap();
    assert_eq!(img.len(), 4 * 4096);
    assert_eq!(&img[..4096], &b[..]);
    assert!(img[4096..3 * 4096].iter().all(|x| *x == 0));
    assert_eq!(&img[3 * 4096..], &a[..]);
}

#[test]
fn extracting_twice_gives_the_same_image() {
    let (bytes, _) = boot_payload();
    let p = Payload::open(&bytes).unwrap();
    let first = p.extract_image(&bytes, "boot").unwrap().unwrap();
    let op = &p.lookup("boot").unwrap().operations[0];
    let (start, len) = p.source_range(op).unwrap();
    let blob = bytes[start as usize..(start + len) as usize].to_vec();
    let mut dec = PartitionDecoder::new(first.clone());
    dec.write_extent(p.prepare_extent(op, blob).unwrap()).unwrap();
    assert_eq!(dec.into_image(), first);
    assert_eq!(p.extract_image(&bytes, "boot").unwrap().unwrap(), first);
}

#[test]
fn decoder_grows_image_with_zeros() {
    let mut dec = PartitionDecoder::new(vec![7u8; 10]);
    let x = PartitionExtent::new(vec![5u8; 4096], OperationType::Replace, &Extent { start_block: 1, num_blocks: 1 });
    dec.write_extent(x).unwrap();
    let img = dec.into_image();
    assert_eq!(img.len(), 8192);
    assert_eq!(&img[..10], &[7u8; 10]);
    assert!(img[10..4096].iter().all(|x| *x == 0));
    assert!(img[4096..].iter().all(|x| *x == 5));
}

#[test]
fn extent_accessors_keep_fields() {
    let x = PartitionExtent::new(vec![1, 2], OperationType::ReplaceXz, &Extent { start_block: 9, num_blocks: 4 });
    assert_eq!(x.operation_type(), OperationType::ReplaceXz);
    assert_eq!(x.start_block(), 9);
    assert_eq!(x.num_blocks(), 4);
    assert_eq!(x.byte_offset(), Some(9 * 4096));
    assert_eq!(x.into_raw(), vec![1, 2]);
}

#[test]
fn varints_decode() {
    assert_eq!(read_varint(&[0x96, 0x01], 0), Some((150, 2)));
    assert_eq!(read_varint(&[0x00, 0xac, 0x02], 1), Some((300, 3)));
    assert_eq!(read_varint(&[0x80], 0), None);
    let max = [0xff, 0xff, 0xff, 0xff, 0xff, 0xff, 0xff, 0xff, 0xff, 0x01];
    assert_eq!(read_varint(&max, 0), Some((u64::MAX, 10)));
    let over = [0xff, 0xff, 0xff, 0xff, 0xff, 0xff, 0xff, 0xff, 0xff, 0x02];
    assert_eq!(read_varint(&over, 0), None);
}

#[test]
fn non_utf8_name_is_rejected() {
    let mut part = Vec::new();
    field_bytes(1, &[0xff, 0xfe], &mut part);
    let bytes = payload_bytes(&encode_manifest(&[part]), &encode_signatures(), &[]);
    assert!(matches!(Payload::open(&bytes), Err(FormatError::BadManifest)));
}

#[test]
fn builders_set_flags() {
    let (bytes, _) = boot_payload();
    let p = Payload::open(&bytes).unwrap();
    assert!(p.verify && !p.quiet);
    let p = p.quiet().skip_verify();
    assert!(!p.verify && p.quiet);
    assert_eq!(p.header().major_version, 2);
    assert_eq!(p.partitions().len(), 1);
    assert_eq!(p.data_offset(), bytes.len() as u64 - 8192);
}
