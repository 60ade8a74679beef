//! Unit-level checks of the rendering, parsing and hashing building
//! blocks, cross-checked against independent implementations.

use egdata_manifests_parser::error::ManifestError;
use egdata_manifests_parser::file::EFileMetaFlags;
use egdata_manifests_parser::guid::{guid_to_string, guid_from_string, guid_key,
    parse_guid_flexible};
use egdata_manifests_parser::hashing::{sha1_digest, fnv1a_hash};
use egdata_manifests_parser::header::ManifestHeader;
use egdata_manifests_parser::hexstr::{hex_string, dec_string, dec_bytes, parse_decimal_u64,
    u64_hex_string};
use egdata_manifests_parser::json_manifest::JsonManifest;
use egdata_manifests_parser::payload_matches_hash;
use egdata_manifests_parser::reader::ByteReader;

#[test]
fn hex_rendering_matches_reference() {
    let data: Vec<u8> = (0u8..=255).collect();
    assert_eq!(hex_string(&data), hex::encode(&data));
    assert_eq!(hex_string(&[]), "");
    assert_eq!(hex_string(&[0xBE, 0xEF]), "beef");
}

#[test]
fn u64_hex_rendering_is_zero_padded() {
    assert_eq!(u64_hex_string(0), "0000000000000000");
    assert_eq!(u64_hex_string(0x1122334455667788), "1122334455667788");
    assert_eq!(u64_hex_string(1), "0000000000000001");
    assert_eq!(u64_hex_string(u64::MAX), "ffffffffffffffff");
}

#[test]
fn decimal_rendering_and_parsing() {
    assert_eq!(dec_string(0), "0");
    assert_eq!(dec_string(1048576), "1048576");
    assert_eq!(dec_string(u64::MAX), "18446744073709551615");
    assert_eq!(dec_bytes(907), b"907".to_vec());
    assert_eq!(parse_decimal_u64("0"), Some(0));
    assert_eq!(parse_decimal_u64("18446744073709551615"), Some(u64::MAX));
    assert_eq!(parse_decimal_u64("18446744073709551616"), None);
    assert_eq!(parse_decimal_u64("+42"), Some(42));
    assert_eq!(parse_decimal_u64(""), None);
    assert_eq!(parse_decimal_u64("+"), None);
    assert_eq!(parse_decimal_u64("1x"), None);
    assert_eq!(parse_decimal_u64("-1"), None);
    // agreement with the standard parser on assorted inputs
    for s in ["007", "99999999999999999999", "12a", " 1", "1 ", "++1", "4294967296"] {
        assert_eq!(parse_decimal_u64(s), s.parse::<u64>().ok(), "input {:?}", s);
    }
}

#[test]
fn guid_rendering_matches_reference_and_roundtrips() {
    let bytes: [u8; 16] = [0xC1, 0x21, 0x21, 0x1C, 0x4A, 0x5B, 0xF4, 0x3F, 0x7E, 0x89, 0x6D,
        0x4D, 0xD6, 0xBD, 0x3C, 0x72];
    let s = guid_to_string(&bytes);
    assert_eq!(s, uuid::Uuid::from_bytes(bytes).to_string());
    let back = guid_from_string(&s).expect("canonical form parses");
    assert_eq!(back, bytes.to_vec());
    // the flexible parser agrees on the canonical form
    assert_eq!(parse_guid_flexible(&s), Some(bytes.to_vec()));
    // and accepts the undashed uppercase spelling of the same identifier
    assert_eq!(
        parse_guid_flexible("C121211C4A5BF43F7E896D4DD6BD3C72"),
        Some(bytes.to_vec()),
    );
    assert_eq!(parse_guid_flexible("xyz"), None);
    assert_eq!(guid_from_string("C121211C4A5BF43F7E896D4DD6BD3C72"), None);
    // keys of different identifiers differ
    let other: [u8; 16] = [0; 16];
    assert_ne!(guid_key(&bytes), guid_key(&other));
}

#[test]
fn directory_lookup_rebuild_is_identical() {
    // decode a directory, re-encode its identifier strings, re-resolve,
    // and compare entry by entry
    let doc = r#"{"ManifestFileVersion":"1","bIsFileData":false,"AppID":"1","AppNameString":"x","BuildVersionString":"1","LaunchExeString":"x","LaunchCommand":"","PrereqIds":[],"PrereqName":"","PrereqPath":"","PrereqArgs":"","FileManifestList":[{"Filename":"f","FileHash":"000000000000000000000000000000000000000000000000000000000000","FileChunkParts":[{"Guid":"00000000000000000000000000000001","Offset":"0","Size":"1"},{"Guid":"0000000000000000000000000000000A","Offset":"1","Size":"2"}]}]}"#;
    let m = egdata_manifests_parser::process_manifest_data(doc.as_bytes()).expect("decode");
    let cl = m.chunk_list.expect("chunks");
    let rebuilt = egdata_manifests_parser::chunk::rebuild_lookup(&cl);
    assert_eq!(rebuilt.len(), cl.chunk_lookup.len());
    for (i, c) in cl.elements.iter().enumerate() {
        let gb = guid_from_string(&c.guid).expect("canonical");
        let key = guid_key(&gb);
        assert_eq!(rebuilt.get(&key), Some(&(i as u32)));
        assert_eq!(cl.chunk_lookup.get(&key), Some(&(i as u32)));
    }
}

#[test]
fn sha1_digest_matches_known_value() {
    let d = sha1_digest(b"abc");
    assert_eq!(hex_string(&d), "a9993e364706816aba3e25717850c26c9cd0d89d");
    let empty = sha1_digest(b"");
    assert_eq!(hex_string(&empty), "da39a3ee5e6b4b0d3255bfef95601890afd80709");
}

#[test]
fn fnv1a_matches_known_values() {
    assert_eq!(fnv1a_hash(b""), 0xcbf29ce484222325);
    assert_eq!(fnv1a_hash(b"a"), 0xaf63dc4c8601ec8c);
    assert_eq!(fnv1a_hash(b"foobar"), 0x85944171f73967e8);
}

#[test]
fn file_hash_parsing_is_exact() {
    let jm = JsonManifest {
        manifest_file_version: String::new(),
        is_file_data: false,
        app_id: String::new(),
        app_name_string: String::new(),
        build_version_string: String::new(),
        launch_exe_string: String::new(),
        launch_command: String::new(),
        prereq_ids: Vec::new(),
        prereq_name: String::new(),
        prereq_path: String::new(),
        prereq_args: String::new(),
        file_manifest_list: Vec::new(),
    };
    let sixty = "000".repeat(19) + "255";
    let parsed = jm.parse_file_hash(&sixty).expect("parses");
    let mut expected = vec![0u8; 19];
    expected.push(255);
    assert_eq!(parsed, expected);
    assert_eq!(jm.parse_file_hash("short").unwrap_err(), ManifestError::Invalid);
    let bad = "000".repeat(19) + "256"; // group out of byte range
    assert_eq!(jm.parse_file_hash(&bad).unwrap_err(), ManifestError::Invalid);
    assert_eq!(jm.parse_hex_string("907").expect("decimal"), 907);
    assert_eq!(jm.parse_hex_string("x").unwrap_err(), ManifestError::Invalid);
}

#[test]
fn meta_flag_masks() {
    assert_eq!(EFileMetaFlags::NoFlags.mask(), 0);
    assert_eq!(EFileMetaFlags::ReadOnly.mask(), 1);
    assert_eq!(EFileMetaFlags::Compressed.mask(), 2);
    assert_eq!(EFileMetaFlags::UnixExecutable.mask(), 4);
}

#[test]
fn header_hash_comparison() {
    let payload = b"some payload bytes";
    let digest = sha1_digest(payload);
    let header = ManifestHeader {
        header_size: 41,
        data_size_uncompressed: payload.len() as i32,
        data_size_compressed: 0,
        sha1_hash: hex_string(&digest),
        stored_as: 0,
        version: 18,
        guid: String::new(),
        rolling_hash: 0,
        hash_type: 0,
    };
    assert!(payload_matches_hash(&header, payload));
    assert!(!payload_matches_hash(&header, b"other bytes"));
    assert!(header.is_compressed() == false);
    assert!(header.is_encrypted() == false);
}

#[test]
fn chunk_getters_copy_fields() {
    let c = egdata_manifests_parser::chunk::Chunk {
        guid: "g".to_string(),
        hash: "h".to_string(),
        sha_hash: "s".to_string(),
        group: 1,
        window_size: 2,
        file_size: "3".to_string(),
    };
    assert_eq!(c.guid(), "g");
    assert_eq!(c.hash(), "h");
    assert_eq!(c.sha_hash(), "s");
    let d = c.duplicate();
    assert_eq!(d.guid, "g");
    assert_eq!(d.window_size, 2);
}

#[test]
fn reader_peek_and_mixed_endian_guid() {
    // four big-endian words 00010203 04050607 08090a0b 0c0d0e0f reassemble
    // with each word's bytes reversed
    let data: Vec<u8> = (0u8..16).collect();
    let mut rdr = ByteReader::new(&data);
    let peeked = rdr.peek_bytes(4);
    assert_eq!(peeked, vec![0, 1, 2, 3]);
    let g = rdr.read_guid().expect("sixteen bytes available");
    assert_eq!(g, "03020100-0706-0504-0b0a-09080f0e0d0c");
    assert!(rdr.read_guid().is_none());

    let short = [1u8, 2, 3];
    let mut r2 = ByteReader::new(&short);
    assert_eq!(r2.peek_bytes(10), vec![1, 2, 3]);
    assert!(r2.read_guid().is_none());
}
