//! Decoding of the JSON manifest variant, and its fallthrough behavior.

use egdata_manifests_parser::error::ManifestError;
use egdata_manifests_parser::json_manifest::{JsonManifest, is_json_manifest};
use egdata_manifests_parser::process_manifest_data;

fn json_doc() -> String {
    let hash60 = "049000001002003004005006007008009010011012013014015016017255";
    let template = r#"{"ManifestFileVersion":"013","bIsFileData":false,"AppID":"4242","AppNameString":"JsonApp","BuildVersionString":"2.1","LaunchExeString":"play.exe","LaunchCommand":"","PrereqIds":[],"PrereqName":"","PrereqPath":"","PrereqArgs":"","FileManifestList":[{"Filename":"a.pak","FileHash":"H60","bIsUnixExecutable":true,"FileChunkParts":[{"Guid":"C121211C4A5BF43F7E896D4DD6BD3C72","Offset":"0","Size":"700"},{"Guid":"c121211c-4a5b-f43f-7e89-6d4dd6bd3c72","Offset":"700","Size":"300"}]},{"Filename":"b.pak","FileHash":"H60","FileChunkParts":[{"Guid":"00000000000000000000000000000001","Offset":"0","Size":"50"}]}]}"#;
    template.replace("H60", hash60)
}

#[test]
fn recognizes_and_decodes_json_manifest() {
    let doc = json_doc();
    assert!(is_json_manifest(doc.as_bytes()));
    let m = process_manifest_data(doc.as_bytes()).expect("decode");
    assert_eq!(m.header.version, 13);
    assert_eq!(m.header.header_size, 0);
    assert!(!m.header.sha1_hash.is_empty());
    let meta = m.meta.expect("meta");
    assert_eq!(meta.app_name, "JsonApp");
    assert_eq!(meta.build_version, "2.1");
    assert_eq!(meta.launch_exe, "play.exe");
    assert_eq!(meta.app_id, 4242);
    let cl = m.chunk_list.expect("chunks");
    // both spellings of the first identifier are one chunk
    assert_eq!(cl.count, 2);
    for c in &cl.elements {
        assert_eq!(c.window_size, 1048576);
        assert_eq!(c.file_size, "1048576");
        assert_eq!(c.hash.len(), 16);
        assert_eq!(c.sha_hash.len(), 40);
    }
    let fl = m.file_list.expect("files");
    assert_eq!(fl.count, 2);
    let a = &fl.file_manifest_list[0];
    assert_eq!(a.filename, "a.pak");
    assert!(a.is_unix_executable());
    assert_eq!(a.file_size, 1000);
    assert_eq!(a.chunk_parts.len(), 2);
    assert_eq!(a.chunk_parts[0].parent_guid, "c121211c-4a5b-f43f-7e89-6d4dd6bd3c72");
    let b = &fl.file_manifest_list[1];
    assert!(!b.is_unix_executable());
    assert_eq!(b.file_size, 50);
    // the first file hash byte group is 049, the last 255
    assert!(a.sha_hash.starts_with("31"));
    assert!(a.sha_hash.ends_with("ff"));
}

#[test]
fn same_identifier_gives_same_synthesized_hashes() {
    let m = process_manifest_data(json_doc().as_bytes()).expect("decode");
    let cl = m.chunk_list.expect("chunks");
    let h1 = JsonManifest::generate_hash_from_guid(&cl.elements[0].guid);
    let h2 = JsonManifest::generate_hash_from_guid(&cl.elements[0].guid);
    assert_eq!(h1, h2);
    assert_eq!(cl.elements[0].hash, h1);
    assert_eq!(
        cl.elements[0].sha_hash,
        JsonManifest::generate_sha_hash_from_guid(&cl.elements[0].guid),
    );
}

#[test]
fn missing_file_list_falls_through_to_binary() {
    let doc = "{\"ManifestFileVersion\":\"013\",\"AppID\":\"1\"}";
    assert!(!is_json_manifest(doc.as_bytes()));
    // the binary path then fails its magic check before touching more bytes
    assert_eq!(process_manifest_data(doc.as_bytes()).unwrap_err(), ManifestError::Invalid);
}

#[test]
fn json_that_is_not_json_falls_through() {
    assert!(!is_json_manifest(b"{not json at all"));
    assert!(!is_json_manifest(b""));
    assert!(!is_json_manifest(b"binary"));
}

#[test]
fn malformed_guid_is_fatal() {
    let doc = json_doc().replace("00000000000000000000000000000001", "not-a-guid");
    assert_eq!(process_manifest_data(doc.as_bytes()).unwrap_err(), ManifestError::Invalid);
}

#[test]
fn wrong_hash_length_is_fatal() {
    let doc = json_doc().replace(
        "049000001002003004005006007008009010011012013014015016017255",
        "049",
    );
    assert_eq!(process_manifest_data(doc.as_bytes()).unwrap_err(), ManifestError::Invalid);
}

#[test]
fn non_numeric_size_is_fatal() {
    let doc = json_doc().replace("\"Size\":\"700\"", "\"Size\":\"7x0\"");
    assert_eq!(process_manifest_data(doc.as_bytes()).unwrap_err(), ManifestError::Invalid);
}

#[test]
fn oversized_version_keeps_its_tail() {
    let doc = json_doc().replace("\"ManifestFileVersion\":\"013\"", "\"ManifestFileVersion\":\"9900000018\"");
    let m = process_manifest_data(doc.as_bytes()).expect("decode");
    assert_eq!(m.header.version, 18);
}
