//! End-to-end decoding of synthetic binary manifests.

use egdata_manifests_parser::error::ManifestError;
use egdata_manifests_parser::header::ManifestHeader;
use egdata_manifests_parser::{process_manifest_data, process_manifest_data_with_integrity};

fn le32(v: u32) -> [u8; 4] {
    v.to_le_bytes()
}

fn le64(v: u64) -> [u8; 8] {
    v.to_le_bytes()
}

fn push_fstring(out: &mut Vec<u8>, s: &str) {
    out.extend_from_slice(&le32(s.len() as u32));
    out.extend_from_slice(s.as_bytes());
}

/// The metadata section: length-framed, layout version 1 (so a build id
/// follows the prerequisite fields).
fn meta_section() -> Vec<u8> {
    let mut body: Vec<u8> = Vec::new();
    body.push(1); // data version
    body.extend_from_slice(&(21i32).to_le_bytes()); // feature level
    body.push(0); // is_file_data
    body.extend_from_slice(&(4242i32).to_le_bytes()); // app id
    push_fstring(&mut body, "TestApp");
    push_fstring(&mut body, "1.0.0");
    push_fstring(&mut body, "run.exe");
    push_fstring(&mut body, "--fast");
    body.extend_from_slice(&le32(1)); // one prerequisite id
    push_fstring(&mut body, "p1");
    push_fstring(&mut body, "prereq");
    push_fstring(&mut body, "pre.exe");
    push_fstring(&mut body, "");
    push_fstring(&mut body, "build-7"); // build id, layout version >= 1
    let mut out = Vec::new();
    out.extend_from_slice(&le32((body.len() + 4) as u32));
    out.extend_from_slice(&body);
    out
}

const GUID_A: [u8; 16] = [0, 1, 2, 3, 4, 5, 6, 7, 8, 9, 10, 11, 12, 13, 14, 15];
const GUID_B: [u8; 16] = [255, 254, 253, 252, 251, 250, 249, 248, 247, 246, 245, 244, 243, 242,
    241, 240];

/// A chunk directory of two chunks, column-major.
fn chunk_section() -> Vec<u8> {
    let mut body: Vec<u8> = Vec::new();
    body.push(0); // directory layout version
    body.extend_from_slice(&le32(2)); // chunk count
    body.extend_from_slice(&GUID_A);
    body.extend_from_slice(&GUID_B);
    body.extend_from_slice(&le64(0x1122334455667788)); // rolling hashes
    body.extend_from_slice(&le64(0x0000000000000001));
    body.extend_from_slice(&[0xAA; 20]); // content hashes
    body.extend_from_slice(&[0xBB; 20]);
    body.push(3); // groups
    body.push(4);
    body.extend_from_slice(&le32(1048576)); // window sizes
    body.extend_from_slice(&le32(2048));
    body.extend_from_slice(&le64(900000)); // stored sizes
    body.extend_from_slice(&le64(1500));
    let mut out = Vec::new();
    out.extend_from_slice(&le32((body.len() + 4) as u32));
    out.extend_from_slice(&body);
    out
}

fn push_part(out: &mut Vec<u8>, guid: &[u8; 16], offset: u32, size: u32) {
    out.extend_from_slice(&le32(28));
    out.extend_from_slice(guid);
    out.extend_from_slice(&le32(offset));
    out.extend_from_slice(&le32(size));
}

/// A file directory of one file with two chunk parts, layout version 0.
/// The window length only covers what follows the count.
fn file_section() -> Vec<u8> {
    let mut body: Vec<u8> = Vec::new();
    push_fstring(&mut body, "data/file.bin"); // filenames
    push_fstring(&mut body, ""); // symlink targets
    body.extend_from_slice(&[0xCC; 20]); // content hashes
    body.push(5); // meta flags: readonly | executable
    body.extend_from_slice(&le32(0)); // no install tags
    body.extend_from_slice(&le32(2)); // two chunk parts
    push_part(&mut body, &GUID_A, 0, 1000);
    push_part(&mut body, &GUID_B, 16, 500);
    let mut out = Vec::new();
    out.extend_from_slice(&le32(body.len() as u32));
    out.push(0); // directory layout version
    out.extend_from_slice(&le32(1)); // file count
    out.extend_from_slice(&body);
    out
}

fn payload() -> Vec<u8> {
    let mut p = meta_section();
    p.extend_from_slice(&chunk_section());
    p.extend_from_slice(&file_section());
    p
}

/// An uncompressed manifest with a correct header hash. `header_size` 41
/// carries a trailing version field.
fn manifest_bytes() -> Vec<u8> {
    let p = payload();
    let digest = egdata_manifests_parser::hashing::sha1_digest(&p);
    let mut out: Vec<u8> = Vec::new();
    out.extend_from_slice(&le32(0x44BEC00C));
    out.extend_from_slice(&(41i32).to_le_bytes());
    out.extend_from_slice(&(p.len() as i32).to_le_bytes());
    out.extend_from_slice(&(0i32).to_le_bytes());
    out.extend_from_slice(&digest);
    out.push(0); // storage flags: plain
    out.extend_from_slice(&(18i32).to_le_bytes()); // trailing version
    out.extend_from_slice(&p);
    out
}

/// A file directory like `file_section`, but layout version 2: after the
/// parts, each file carries an unknown array to skip, a MIME type, and a
/// fixed unknown block.
fn file_section_v2() -> Vec<u8> {
    let mut body: Vec<u8> = Vec::new();
    push_fstring(&mut body, "data/file.bin");
    push_fstring(&mut body, "");
    body.extend_from_slice(&[0xCC; 20]);
    body.push(0);
    body.extend_from_slice(&le32(0)); // no install tags
    body.extend_from_slice(&le32(1)); // one chunk part
    push_part(&mut body, &GUID_A, 0, 1000);
    body.extend_from_slice(&le32(2)); // unknown array: two 16-byte entries
    body.extend_from_slice(&[0u8; 32]);
    push_fstring(&mut body, "application/octet-stream");
    body.extend_from_slice(&[0u8; 32]); // unknown trailing block
    let mut out = Vec::new();
    out.extend_from_slice(&le32(body.len() as u32));
    out.push(2); // directory layout version
    out.extend_from_slice(&le32(1));
    out.extend_from_slice(&body);
    out
}

fn manifest_bytes_v2() -> Vec<u8> {
    let mut p = meta_section();
    p.extend_from_slice(&chunk_section());
    p.extend_from_slice(&file_section_v2());
    let digest = egdata_manifests_parser::hashing::sha1_digest(&p);
    let mut out: Vec<u8> = Vec::new();
    out.extend_from_slice(&le32(0x44BEC00C));
    out.extend_from_slice(&(41i32).to_le_bytes());
    out.extend_from_slice(&(p.len() as i32).to_le_bytes());
    out.extend_from_slice(&(0i32).to_le_bytes());
    out.extend_from_slice(&digest);
    out.push(0);
    out.extend_from_slice(&(18i32).to_le_bytes());
    out.extend_from_slice(&p);
    out
}

#[test]
fn decodes_whole_manifest() {
    let m = process_manifest_data(&manifest_bytes()).expect("decode");
    assert_eq!(m.header.version, 18);
    assert_eq!(m.header.header_size, 41);
    let meta = m.meta.expect("meta");
    assert_eq!(meta.app_name, "TestApp");
    assert_eq!(meta.build_version, "1.0.0");
    assert_eq!(meta.launch_exe, "run.exe");
    assert_eq!(meta.launch_command, "--fast");
    assert_eq!(meta.prereq_ids, vec!["p1".to_string()]);
    assert_eq!(meta.build_id.as_deref(), Some("build-7"));
    assert_eq!(meta.app_id, 4242);
    assert_eq!(meta.feature_level, 21);
    let cl = m.chunk_list.expect("chunks");
    assert_eq!(cl.count, 2);
    assert_eq!(cl.elements.len(), 2);
    assert_eq!(cl.elements[0].guid, "00010203-0405-0607-0809-0a0b0c0d0e0f");
    assert_eq!(cl.elements[0].hash, "1122334455667788");
    assert_eq!(cl.elements[0].sha_hash, "aa".repeat(20));
    assert_eq!(cl.elements[0].group, 3);
    assert_eq!(cl.elements[0].window_size, 1048576);
    assert_eq!(cl.elements[0].file_size, "900000");
    assert_eq!(cl.elements[1].hash, "0000000000000001");
    let fl = m.file_list.expect("files");
    assert_eq!(fl.count, 1);
    let f = &fl.file_manifest_list[0];
    assert_eq!(f.filename, "data/file.bin");
    assert_eq!(f.sha_hash, "cc".repeat(20));
    assert!(f.is_readonly());
    assert!(!f.is_compressed());
    assert!(f.is_unix_executable());
    assert_eq!(f.chunk_parts.len(), 2);
    assert_eq!(f.chunk_parts[0].parent_guid, "00010203-0405-0607-0809-0a0b0c0d0e0f");
    assert_eq!(f.chunk_parts[0].offset, 0);
    assert_eq!(f.chunk_parts[0].size, 1000);
    let copy = f.chunk_parts[0].chunk.as_ref().expect("parent snapshot");
    assert_eq!(copy.guid, "00010203-0405-0607-0809-0a0b0c0d0e0f");
    // derived size is the sum of part sizes
    assert_eq!(f.file_size, 1500);
}

#[test]
fn header_version_gating() {
    // A legacy 37-byte header carries no version field and reads as 0.
    let mut legacy: Vec<u8> = Vec::new();
    legacy.extend_from_slice(&le32(0x44BEC00C));
    legacy.extend_from_slice(&(37i32).to_le_bytes());
    legacy.extend_from_slice(&(0i32).to_le_bytes());
    legacy.extend_from_slice(&(0i32).to_le_bytes());
    legacy.extend_from_slice(&[0u8; 20]);
    legacy.push(0);
    let h = ManifestHeader::read(&legacy).expect("legacy header");
    assert_eq!(h.version, 0);

    let h2 = ManifestHeader::read(&manifest_bytes()).expect("modern header");
    assert_eq!(h2.version, 18);
}

#[test]
fn magic_mismatch_fails_before_anything_else() {
    let good = manifest_bytes();
    let h = ManifestHeader::read(&good);
    assert!(h.is_ok());
    let mut flipped = good.clone();
    flipped[0] ^= 0xFF;
    assert_eq!(ManifestHeader::read(&flipped).unwrap_err(), ManifestError::Invalid);
    assert_eq!(process_manifest_data(&flipped).unwrap_err(), ManifestError::Invalid);
}

#[test]
fn truncation_never_panics() {
    let full = manifest_bytes();
    for cut in 0..full.len() {
        // decode either fails cleanly or returns a partial model
        let _ = process_manifest_data(&full[..cut]);
    }
    // and a cut inside the file section still keeps the chunk directory
    let r = process_manifest_data(&full[..full.len() - 1]);
    match r {
        Ok(m) => assert!(m.chunk_list.is_some()),
        Err(e) => assert!(e == ManifestError::Io || e == ManifestError::Invalid),
    }
}

#[test]
fn hash_mismatch_is_advisory() {
    let mut bytes = manifest_bytes();
    bytes[16] ^= 0xFF; // corrupt the declared hash
    let (m, matched) = process_manifest_data_with_integrity(&bytes).expect("still decodes");
    assert!(!matched);
    assert!(m.meta.is_some());
    assert!(m.chunk_list.is_some());
    assert!(m.file_list.is_some());

    let (_, matched_good) = process_manifest_data_with_integrity(&manifest_bytes()).expect("ok");
    assert!(matched_good);
}

#[test]
fn encrypted_manifests_are_rejected() {
    let mut bytes = manifest_bytes();
    bytes[36] |= 2;
    assert_eq!(process_manifest_data(&bytes).unwrap_err(), ManifestError::EncryptedManifest);
}

#[test]
fn payload_out_of_bounds_is_invalid() {
    let p = payload();
    let mut bytes = manifest_bytes();
    // claim an uncompressed size larger than what follows the header
    let huge = ((p.len() + 1000) as i32).to_le_bytes();
    bytes[8..12].copy_from_slice(&huge);
    assert_eq!(process_manifest_data(&bytes).unwrap_err(), ManifestError::Invalid);
}

#[test]
fn unknown_part_parent_truncates_that_file() {
    // replace the second part's identifier with one absent from the
    // directory: the file keeps the first part only, and decode succeeds
    let mut bytes = manifest_bytes();
    let needle: [u8; 16] = GUID_B;
    let pos = bytes
        .windows(16)
        .rposition(|w| w == needle)
        .expect("part guid present");
    bytes[pos] ^= 0x55;
    let m = process_manifest_data(&bytes).expect("decode");
    let fl = m.file_list.expect("files");
    let f = &fl.file_manifest_list[0];
    assert_eq!(f.chunk_parts.len(), 1);
    assert_eq!(f.file_size, 1000);
}

#[test]
fn metadata_failure_is_recovered() {
    // an implausible metadata section length is a recoverable failure:
    // decoding continues at the declared boundary with metadata absent
    let mut p: Vec<u8> = Vec::new();
    p.extend_from_slice(&le32(0)); // metadata length 0: rejected
    p.extend_from_slice(&chunk_section());
    p.extend_from_slice(&file_section());
    let digest = egdata_manifests_parser::hashing::sha1_digest(&p);
    let mut bytes: Vec<u8> = Vec::new();
    bytes.extend_from_slice(&le32(0x44BEC00C));
    bytes.extend_from_slice(&(41i32).to_le_bytes());
    bytes.extend_from_slice(&(p.len() as i32).to_le_bytes());
    bytes.extend_from_slice(&(0i32).to_le_bytes());
    bytes.extend_from_slice(&digest);
    bytes.push(0);
    bytes.extend_from_slice(&(18i32).to_le_bytes());
    bytes.extend_from_slice(&p);
    let m = process_manifest_data(&bytes).expect("decode continues");
    assert!(m.meta.is_none());
    assert_eq!(m.chunk_list.expect("chunks").count, 2);
    assert_eq!(m.file_list.expect("files").count, 1);
}

#[test]
fn v2_mime_types_are_decoded() {
    let m = process_manifest_data(&manifest_bytes_v2()).expect("decode");
    let fl = m.file_list.expect("files");
    assert_eq!(fl.data_version, 2);
    let f = &fl.file_manifest_list[0];
    assert_eq!(f.mime_type, "application/octet-stream");
    assert_eq!(f.file_size, 1000);
}

#[test]
fn v2_enrichment_truncation_is_tolerated() {
    // a version-2 file section that ends inside the enrichment: the MIME
    // type is lost, the core file and chunk data are kept
    let mut body: Vec<u8> = Vec::new();
    push_fstring(&mut body, "data/file.bin");
    push_fstring(&mut body, "");
    body.extend_from_slice(&[0xCC; 20]);
    body.push(0);
    body.extend_from_slice(&le32(0));
    body.extend_from_slice(&le32(1));
    push_part(&mut body, &GUID_A, 0, 1000);
    body.extend_from_slice(&le32(2)); // unknown array count, data missing
    let mut section = Vec::new();
    section.extend_from_slice(&le32((body.len() + 100) as u32)); // overruns
    section.push(2);
    section.extend_from_slice(&le32(1));
    section.extend_from_slice(&body);

    let mut p = meta_section();
    p.extend_from_slice(&chunk_section());
    p.extend_from_slice(&section);
    let digest = egdata_manifests_parser::hashing::sha1_digest(&p);
    let mut bytes: Vec<u8> = Vec::new();
    bytes.extend_from_slice(&le32(0x44BEC00C));
    bytes.extend_from_slice(&(41i32).to_le_bytes());
    bytes.extend_from_slice(&(p.len() as i32).to_le_bytes());
    bytes.extend_from_slice(&(0i32).to_le_bytes());
    bytes.extend_from_slice(&digest);
    bytes.push(0);
    bytes.extend_from_slice(&(18i32).to_le_bytes());
    bytes.extend_from_slice(&p);

    let m = process_manifest_data(&bytes).expect("decode");
    let fl = m.file_list.expect("files");
    let f = &fl.file_manifest_list[0];
    assert_eq!(f.mime_type, "");
    assert_eq!(f.filename, "data/file.bin");
    assert_eq!(f.chunk_parts.len(), 1);
    assert_eq!(f.file_size, 1000);
}

#[test]
fn compressed_payload_roundtrip() {
    let p = payload();
    let digest = egdata_manifests_parser::hashing::sha1_digest(&p);
    let compressed = miniz_oxide::deflate::compress_to_vec_zlib(&p, 6);
    let mut bytes: Vec<u8> = Vec::new();
    bytes.extend_from_slice(&le32(0x44BEC00C));
    bytes.extend_from_slice(&(41i32).to_le_bytes());
    bytes.extend_from_slice(&(p.len() as i32).to_le_bytes());
    bytes.extend_from_slice(&(compressed.len() as i32).to_le_bytes());
    bytes.extend_from_slice(&digest);
    bytes.push(1); // storage flags: compressed
    bytes.extend_from_slice(&(18i32).to_le_bytes());
    bytes.extend_from_slice(&compressed);
    let (m, matched) = process_manifest_data_with_integrity(&bytes).expect("decode");
    assert!(matched);
    assert_eq!(m.chunk_list.expect("chunks").count, 2);
    assert_eq!(m.file_list.expect("files").file_manifest_list[0].file_size, 1500);
}

#[test]
fn compressed_payload_with_prefix_garbage_is_recovered() {
    // some producers prepend bytes before the zlib stream; the bounded
    // scan finds the signature and decompression proceeds from there
    let p = payload();
    let digest = egdata_manifests_parser::hashing::sha1_digest(&p);
    let mut compressed = vec![0x00, 0x11, 0x22];
    compressed.extend_from_slice(&miniz_oxide::deflate::compress_to_vec_zlib(&p, 6));
    let mut bytes: Vec<u8> = Vec::new();
    bytes.extend_from_slice(&le32(0x44BEC00C));
    bytes.extend_from_slice(&(41i32).to_le_bytes());
    bytes.extend_from_slice(&(p.len() as i32).to_le_bytes());
    bytes.extend_from_slice(&(compressed.len() as i32).to_le_bytes());
    bytes.extend_from_slice(&digest);
    bytes.push(1);
    bytes.extend_from_slice(&(18i32).to_le_bytes());
    bytes.extend_from_slice(&compressed);
    let m = process_manifest_data(&bytes).expect("decode");
    assert_eq!(m.chunk_list.expect("chunks").count, 2);
}

#[test]
fn corrupt_compressed_stream_is_fatal() {
    let p = payload();
    let digest = egdata_manifests_parser::hashing::sha1_digest(&p);
    let mut compressed = miniz_oxide::deflate::compress_to_vec_zlib(&p, 6);
    let n = compressed.len();
    for b in compressed[4..n].iter_mut() {
        *b = 0xAB; // keep the signature, wreck the stream
    }
    let mut bytes: Vec<u8> = Vec::new();
    bytes.extend_from_slice(&le32(0x44BEC00C));
    bytes.extend_from_slice(&(41i32).to_le_bytes());
    bytes.extend_from_slice(&(p.len() as i32).to_le_bytes());
    bytes.extend_from_slice(&(compressed.len() as i32).to_le_bytes());
    bytes.extend_from_slice(&digest);
    bytes.push(1);
    bytes.extend_from_slice(&(18i32).to_le_bytes());
    bytes.extend_from_slice(&compressed);
    assert_eq!(process_manifest_data(&bytes).unwrap_err(), ManifestError::Inflate);
}

#[test]
fn over_cap_part_count_keeps_no_parts() {
    // one file with an install tag whose declared part count exceeds the
    // cap: its parts are discarded, its size stays zero, and the next
    // file still decodes fully
    let mut body: Vec<u8> = Vec::new();
    push_fstring(&mut body, "bloated.bin"); // filenames
    push_fstring(&mut body, "normal.bin");
    push_fstring(&mut body, ""); // symlink targets
    push_fstring(&mut body, "");
    body.extend_from_slice(&[0xDD; 20]); // content hashes
    body.extend_from_slice(&[0xEE; 20]);
    body.push(0); // meta flags
    body.push(0);
    body.extend_from_slice(&le32(1)); // one install tag for the first file
    push_fstring(&mut body, "lang-en");
    body.extend_from_slice(&le32(0)); // none for the second
    body.extend_from_slice(&le32(10001)); // part count beyond the cap
    body.extend_from_slice(&le32(1)); // second file: one part
    push_part(&mut body, &GUID_A, 0, 123);
    let mut section = Vec::new();
    section.extend_from_slice(&le32(body.len() as u32));
    section.push(0);
    section.extend_from_slice(&le32(2));
    section.extend_from_slice(&body);

    let mut p = meta_section();
    p.extend_from_slice(&chunk_section());
    p.extend_from_slice(&section);
    let digest = egdata_manifests_parser::hashing::sha1_digest(&p);
    let mut bytes: Vec<u8> = Vec::new();
    bytes.extend_from_slice(&le32(0x44BEC00C));
    bytes.extend_from_slice(&(41i32).to_le_bytes());
    bytes.extend_from_slice(&(p.len() as i32).to_le_bytes());
    bytes.extend_from_slice(&(0i32).to_le_bytes());
    bytes.extend_from_slice(&digest);
    bytes.push(0);
    bytes.extend_from_slice(&(18i32).to_le_bytes());
    bytes.extend_from_slice(&p);

    let m = process_manifest_data(&bytes).expect("decode");
    let fl = m.file_list.expect("files");
    assert_eq!(fl.count, 2);
    let bloated = &fl.file_manifest_list[0];
    assert_eq!(bloated.install_tags, vec!["lang-en".to_string()]);
    assert!(bloated.chunk_parts.is_empty());
    assert_eq!(bloated.file_size, 0);
    let normal = &fl.file_manifest_list[1];
    assert_eq!(normal.chunk_parts.len(), 1);
    assert_eq!(normal.file_size, 123);
}
