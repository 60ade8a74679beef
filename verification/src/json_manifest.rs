//! The JSON-encoded manifest variant, normalized into the same unified
//! model as the binary format. This variant carries no real per-chunk
//! hashes or sizes, so the synthesized chunks get a fixed nominal size and
//! deterministic hashes derived from their identifiers.

use vstd::prelude::*;
use vstd::string::StrSliceExecFns;
use vstd::utf8::encode_utf8;
use crate::error::ManifestError;
use crate::hashing::{sha1_of, sha1_digest, fnv1a, fnv1a_hash};
use crate::hexstr::{hex_of, hex_string, dec_of, dec_parse, dec_bytes_of, dec_bytes, dec_string,
    u64_bytes_be, u64_hex_string, parse_decimal_u64};
use crate::json_value::{json_parse, json_parses, json_get, json_as_string, json_as_bool,
    json_as_array, json_is_null, utf8_string, utf8_decode};
use crate::guid::{guid_bytes_of, guid_str_spec, guid_parse_spec, guid_key_spec, guid_to_string,
    guid_key, parse_guid_flexible, lemma_guid_roundtrip};
use crate::chunk::{Chunk, ChunkDataList, ChunkPart, chunk_guid_key, keys_of, lookup_of, cdl_wf,
    lemma_lookup_of_push, lemma_keys_of_push};
use crate::file::{FileManifest, FileManifestList, sum_part_sizes, part_resolves, file_wf, fml_wf};
use crate::header::ManifestHeader;
use crate::manifest::Manifest;
use crate::meta::ManifestMeta;
use std::collections::HashMap;

verus! {

broadcast use vstd::std_specs::hash::group_hash_axioms;

/// The fixed nominal chunk size this variant synthesizes, since it carries
/// no real chunk sizes.
pub const STANDARD_CHUNK_SIZE: u32 = 1048576;

/// The JSON document's own shape, held as plain values.
#[derive(Debug, Clone)]
pub struct JsonManifest {
    pub manifest_file_version: String,
    pub is_file_data: bool,
    pub app_id: String,
    pub app_name_string: String,
    pub build_version_string: String,
    pub launch_exe_string: String,
    pub launch_command: String,
    pub prereq_ids: Vec<String>,
    pub prereq_name: String,
    pub prereq_path: String,
    pub prereq_args: String,
    pub file_manifest_list: Vec<JsonFileManifest>,
}

#[derive(Debug, Clone)]
pub struct JsonFileManifest {
    pub filename: String,
    /// 60 characters: 20 three-digit decimal byte groups.
    pub file_hash: String,
    pub is_unix_executable: Option<bool>,
    pub file_chunk_parts: Vec<JsonFileChunkPart>,
}

#[derive(Debug, Clone)]
pub struct JsonFileChunkPart {
    pub guid: String,
    /// Decimal string.
    pub offset: String,
    /// Decimal string.
    pub size: String,
}

/// The last eight characters when there are more than eight: oversized
/// version numbers keep only their tail.
pub open spec fn trunc8(s: Seq<char>) -> Seq<char> {
    if s.len() > 8 {
        s.skip(s.len() - 8)
    } else {
        s
    }
}

/// The 20 bytes encoded by a 60-character hash string of three-digit
/// decimal groups; `None` when the length is wrong, a group is not a
/// number, or a group exceeds a byte.
pub open spec fn file_hash_spec(s: Seq<char>) -> Option<Seq<u8>> {
    if s.len() == 60 && (forall|i: int|
        0 <= i < 20 ==> #[trigger] dec_parse(s.subrange(3 * i, 3 * i + 3)) is Some && dec_parse(
            s.subrange(3 * i, 3 * i + 3),
        )->Some_0 <= 255) {
        Some(Seq::new(20, |i: int| dec_parse(s.subrange(3 * i, 3 * i + 3))->Some_0 as u8))
    } else {
        None
    }
}

/// Whether one chunk-part record's fields all parse: a recognizable
/// identifier and numeric offset and size.
pub open spec fn jp_ok(p: JsonFileChunkPart) -> bool {
    &&& guid_bytes_of(p.guid@) is Some
    &&& dec_parse(p.offset@) is Some
    &&& dec_parse(p.size@) is Some
}

/// Whether one file record's fields all parse.
pub open spec fn jf_ok(f: JsonFileManifest) -> bool {
    &&& file_hash_spec(f.file_hash@) is Some
    &&& (forall|j: int| 0 <= j < f.file_chunk_parts@.len() ==> jp_ok(#[trigger] f.file_chunk_parts@[j]))
}

/// Whether a JSON manifest's field-level values all parse: exactly then
/// can it be normalized (resource limits aside).
pub open spec fn jm_ok(m: JsonManifest) -> bool {
    &&& dec_parse(trunc8(m.manifest_file_version@)) is Some
    &&& dec_parse(trunc8(m.manifest_file_version@))->Some_0 <= 0xFFFFFFFF
    &&& dec_parse(m.app_id@) is Some
    &&& dec_parse(m.app_id@)->Some_0 <= 0xFFFFFFFF
    &&& (forall|i: int|
        0 <= i < m.file_manifest_list@.len() ==> jf_ok(#[trigger] m.file_manifest_list@[i]))
}

/// How many chunk parts the first `k` files hold between them.
pub open spec fn total_parts(files: Seq<JsonFileManifest>) -> int
    decreases files.len(),
{
    if files.len() == 0 {
        0int
    } else {
        total_parts(files.drop_last()) + files.last().file_chunk_parts@.len()
    }
}

pub proof fn lemma_total_parts_take(files: Seq<JsonFileManifest>, k: int)
    requires
        0 <= k < files.len(),
    ensures
        total_parts(files.take(k + 1)) == total_parts(files.take(k))
            + files[k].file_chunk_parts@.len(),
{
    assert(files.take(k + 1).drop_last() =~= files.take(k));
    assert(files.take(k + 1).last() == files[k]);
}

pub proof fn lemma_total_parts_mono(files: Seq<JsonFileManifest>, a: int, b: int)
    requires
        0 <= a <= b <= files.len(),
    ensures
        total_parts(files.take(a)) <= total_parts(files.take(b)),
    decreases b - a,
{
    if a < b {
        lemma_total_parts_take(files, b - 1);
        lemma_total_parts_mono(files, a, b - 1);
    }
}

/// The size a part record contributes, after the narrowing the decoder
/// applies to its decimal value.
pub open spec fn jp_size(p: JsonFileChunkPart) -> u32 {
    dec_parse(p.size@)->Some_0 as i64 as u32
}

/// The byte total the first `k` part records contribute.
pub open spec fn json_parts_sum(parts: Seq<JsonFileChunkPart>) -> int
    decreases parts.len(),
{
    if parts.len() == 0 {
        0int
    } else {
        json_parts_sum(parts.drop_last()) + jp_size(parts.last())
    }
}

/// Whether every file's running part-size total stays within the signed
/// 64-bit range the model stores sizes in.
pub open spec fn json_sums_ok(files: Seq<JsonFileManifest>) -> bool {
    forall|i: int, k: int|
        0 <= i < files.len() && 0 <= k <= files[i].file_chunk_parts@.len()
            ==> json_parts_sum(#[trigger] files[i].file_chunk_parts@.take(k))
            <= 0x7FFFFFFFFFFFFFFF
}

/// Whether some file's part list references an identifier with this
/// lookup key: the synthesized directory holds these keys and no others.
pub open spec fn key_is_referenced(m: JsonManifest, key: u128) -> bool {
    exists|a: int, b2: int|
        {
            &&& 0 <= a < m.file_manifest_list@.len()
            &&& 0 <= b2 < m.file_manifest_list@[a].file_chunk_parts@.len()
            &&& guid_bytes_of(
                (#[trigger] m.file_manifest_list@[a].file_chunk_parts@[b2]).guid@,
            ) is Some
            &&& key == guid_key_spec(
                guid_bytes_of(m.file_manifest_list@[a].file_chunk_parts@[b2].guid@)->Some_0,
            )
        }
}

/// What one synthesized chunk looks like: nominal sizes and hashes derived
/// deterministically from its own identifier string, since this format
/// carries no real per-chunk data.
pub open spec fn json_chunk_matches(ch: Chunk) -> bool {
    &&& ch.hash@ == hex_of(u64_bytes_be(fnv1a(encode_utf8(ch.guid@))))
    &&& ch.sha_hash@ == hex_of(sha1_of(encode_utf8(ch.guid@)))
    &&& ch.group == 0
    &&& ch.window_size == STANDARD_CHUNK_SIZE
    &&& ch.file_size@ == dec_of(STANDARD_CHUNK_SIZE as u64)
}

/// What one normalized chunk part holds, relative to its JSON record.
pub open spec fn json_part_matches(cp: ChunkPart, jp: JsonFileChunkPart) -> bool {
    &&& jp_ok(jp)
    &&& cp.data_size == 0
    &&& cp.parent_guid@ == guid_str_spec(guid_bytes_of(jp.guid@)->Some_0)
    &&& cp.offset == dec_parse(jp.offset@)->Some_0 as i64 as u32
    &&& cp.size == jp_size(jp)
    &&& cp.chunk is None
}

/// What one normalized file holds, relative to its JSON record.
pub open spec fn json_file_matches(f: FileManifest, jf: JsonFileManifest) -> bool {
    &&& f.filename@ == jf.filename@
    &&& f.symlink_target@.len() == 0
    &&& file_hash_spec(jf.file_hash@) is Some
    &&& f.sha_hash@ == hex_of(file_hash_spec(jf.file_hash@)->Some_0)
    &&& f.file_meta_flags == (if jf.is_unix_executable == Some(true) {
        4u8
    } else {
        0u8
    })
    &&& f.install_tags@.len() == 0
    &&& f.chunk_parts@.len() == jf.file_chunk_parts@.len()
    &&& (forall|j: int|
        0 <= j < f.chunk_parts@.len() ==> json_part_matches(
            #[trigger] f.chunk_parts@[j],
            jf.file_chunk_parts@[j],
        ))
    &&& f.file_size as int == sum_part_sizes(f.chunk_parts@)
    &&& f.mime_type@.len() == 0
}

/// The bytes the synthesized header hash digests: the identity fields one
/// after another, then the file count in decimal.
pub open spec fn manifest_hash_input(m: JsonManifest) -> Seq<u8> {
    encode_utf8(m.manifest_file_version@) + encode_utf8(m.app_id@) + encode_utf8(
        m.app_name_string@,
    ) + encode_utf8(m.build_version_string@) + encode_utf8(m.launch_exe_string@) + dec_bytes_of(
        m.file_manifest_list@.len() as u64,
    )
}

/// What a successfully normalized manifest holds, relative to the JSON
/// document's fields.
pub open spec fn json_manifest_post(man: Manifest, m: JsonManifest) -> bool {
    &&& man.header.header_size == 0
    &&& man.header.data_size_uncompressed == 0
    &&& man.header.data_size_compressed == 0
    &&& man.header.sha1_hash@ == hex_of(sha1_of(manifest_hash_input(m)))
    &&& man.header.stored_as == 0
    &&& man.header.version == dec_parse(trunc8(m.manifest_file_version@))->Some_0 as u32 as i32
    &&& man.header.guid@.len() == 0
    &&& man.header.rolling_hash == 0
    &&& man.header.hash_type == 0
    &&& man.meta is Some
    &&& ({
        let meta = man.meta->Some_0;
        &&& meta.data_size == 0
        &&& meta.data_version == 0
        &&& meta.feature_level == 0
        &&& meta.is_file_data == true
        &&& meta.app_id == dec_parse(m.app_id@)->Some_0 as u32 as i32
        &&& meta.app_name@ == m.app_name_string@
        &&& meta.build_version@ == m.build_version_string@
        &&& meta.launch_exe@ == m.launch_exe_string@
        &&& meta.launch_command@.len() == 0
        &&& meta.prereq_ids@.len() == 0
        &&& meta.prereq_name@.len() == 0
        &&& meta.prereq_path@.len() == 0
        &&& meta.prereq_args@.len() == 0
        &&& meta.build_id is None
    })
    &&& man.chunk_list is Some
    &&& man.file_list is Some
    &&& ({
        let cl = man.chunk_list->Some_0;
        let fl = man.file_list->Some_0;
        &&& cdl_wf(cl)
        &&& cl.data_size == 0
        &&& cl.data_version == 0
        &&& (forall|k: int|
            0 <= k < cl.elements@.len() ==> json_chunk_matches(#[trigger] cl.elements@[k]))
        &&& (forall|k1: int, k2: int|
            0 <= k1 < k2 < cl.elements@.len() ==> chunk_guid_key(
                #[trigger] cl.elements@[k1],
            ) != chunk_guid_key(#[trigger] cl.elements@[k2]))
        &&& (forall|k: int|
            0 <= k < cl.elements@.len() ==> key_is_referenced(
                m,
                chunk_guid_key(#[trigger] cl.elements@[k]),
            ))
        &&& fml_wf(fl, cl.chunk_lookup@)
        &&& fl.data_size == 0
        &&& fl.data_version == 0
        &&& fl.file_manifest_list@.len() == m.file_manifest_list@.len()
        &&& (forall|i: int|
            0 <= i < fl.file_manifest_list@.len() ==> json_file_matches(
                #[trigger] fl.file_manifest_list@[i],
                m.file_manifest_list@[i],
            ))
    })
}

/// The string content of an object's field, if it is there and a string.
fn get_string_field(v: &serde_json::Value, key: &str) -> (r: Option<String>) {
    match json_get(v, key) {
        Some(x) => json_as_string(x),
        None => None,
    }
}

/// The boolean content of an object's field, if it is there and a boolean.
fn get_bool_field(v: &serde_json::Value, key: &str) -> (r: Option<bool>) {
    match json_get(v, key) {
        Some(x) => json_as_bool(x),
        None => None,
    }
}

/// The strings of an object's array field, if it is there and an array of
/// strings throughout.
fn get_string_array_field(v: &serde_json::Value, key: &str) -> (r: Option<Vec<String>>) {
    let arr = match json_get(v, key) {
        Some(x) => match json_as_array(x) {
            Some(a) => a,
            None => {
                return None;
            },
        },
        None => {
            return None;
        },
    };
    let mut out: Vec<String> = Vec::new();
    let n = arr.len();
    let mut i: usize = 0;
    while i < n
        invariant
            n == arr@.len(),
            i <= n,
        decreases n - i,
    {
        match json_as_string(&arr[i]) {
            Some(s) => {
                out.push(s);
            },
            None => {
                return None;
            },
        }
        i = i + 1;
    }
    Some(out)
}

/// Whether raw bytes look like the JSON manifest variant: they start with
/// an opening brace, parse as a JSON document, and that document has both
/// the version field and the file list field. Anything that does not start
/// with a brace, is not valid UTF-8, or does not parse as JSON is never
/// recognized; whether the two fields are present is known only to the
/// JSON parser, so recognition promises no more than these gates.
pub fn is_json_manifest(data: &[u8]) -> (r: bool)
    ensures
        (data@.len() == 0 || data@[0] != 123) ==> !r,
        utf8_decode(data@) is None ==> !r,
        (utf8_decode(data@) is Some && !json_parses(utf8_decode(data@)->Some_0)) ==> !r,
        r ==> data@.len() >= 1 && data@[0] == 123 && utf8_decode(data@) is Some && json_parses(
            utf8_decode(data@)->Some_0,
        ),
{
    if data.len() == 0 {
        return false;
    }
    let first: u8 = data[0];
    if first != 123 {
        return false;
    }
    let s = match utf8_string(data) {
        Some(s) => s,
        None => {
            return false;
        },
    };
    let v = match json_parse(s.as_str()) {
        Some(v) => v,
        None => {
            return false;
        },
    };
    let has_version = match json_get(&v, "ManifestFileVersion") {
        Some(_) => true,
        None => false,
    };
    let has_files = match json_get(&v, "FileManifestList") {
        Some(_) => true,
        None => false,
    };
    has_version && has_files
}

impl JsonManifest {
    /// Parse the version string as a decimal `u32`, keeping only the last
    /// eight characters of an oversized value so it stays in range.
    pub fn parse_version(&self) -> (r: Result<u32, ManifestError>)
        ensures
            match r {
                Ok(v) => dec_parse(trunc8(self.manifest_file_version@)) == Some(v as u64),
                Err(e) => e == ManifestError::Invalid && (dec_parse(
                    trunc8(self.manifest_file_version@),
                ) is None || dec_parse(trunc8(self.manifest_file_version@))->Some_0 > 0xFFFFFFFF),
            },
    {
        let n = self.manifest_file_version.as_str().unicode_len();
        let v = if n > 8 {
            let tail = self.manifest_file_version.as_str().substring_char(n - 8, n);
            parse_decimal_u64(tail)
        } else {
            parse_decimal_u64(self.manifest_file_version.as_str())
        };
        match v {
            Some(w) if w <= 0xFFFFFFFF => Ok(w as u32),
            _ => Err(ManifestError::Invalid),
        }
    }

    /// Parse the application id string as a decimal `u32`.
    pub fn parse_app_id(&self) -> (r: Result<u32, ManifestError>)
        ensures
            match r {
                Ok(v) => dec_parse(self.app_id@) == Some(v as u64),
                Err(e) => e == ManifestError::Invalid && (dec_parse(self.app_id@) is None
                    || dec_parse(self.app_id@)->Some_0 > 0xFFFFFFFF),
            },
    {
        match parse_decimal_u64(self.app_id.as_str()) {
            Some(w) if w <= 0xFFFFFFFF => Ok(w as u32),
            _ => Err(ManifestError::Invalid),
        }
    }

    /// Parse a decimal string. Despite this method's historical name these
    /// values are decimal, not hexadecimal; the name is kept for callers.
    pub fn parse_hex_string(&self, hex_str: &str) -> (r: Result<i64, ManifestError>)
        ensures
            match r {
                Ok(v) => dec_parse(hex_str@) is Some && v == dec_parse(hex_str@)->Some_0 as i64,
                Err(e) => e == ManifestError::Invalid && dec_parse(hex_str@) is None,
            },
    {
        match parse_decimal_u64(hex_str) {
            Some(w) => Ok(w as i64),
            None => Err(ManifestError::Invalid),
        }
    }

    /// Parse a 60-character hash string of 20 three-digit decimal byte
    /// groups into its 20 bytes.
    pub fn parse_file_hash(&self, hash_str: &str) -> (r: Result<Vec<u8>, ManifestError>)
        ensures
            match r {
                Ok(v) => file_hash_spec(hash_str@) == Some(v@),
                Err(e) => e == ManifestError::Invalid && file_hash_spec(hash_str@) is None,
            },
    {
        let n = hash_str.unicode_len();
        if n != 60 {
            return Err(ManifestError::Invalid);
        }
        let mut out: Vec<u8> = Vec::new();
        let mut i: usize = 0;
        while i < 20
            invariant
                i <= 20,
                hash_str@.len() == 60,
                out@.len() == i as int,
                forall|j: int|
                    0 <= j < i as int ==> #[trigger] dec_parse(
                        hash_str@.subrange(3 * j, 3 * j + 3),
                    ) is Some && dec_parse(hash_str@.subrange(3 * j, 3 * j + 3))->Some_0 <= 255
                        && out@[j] == dec_parse(hash_str@.subrange(3 * j, 3 * j + 3))->Some_0 as u8,
            decreases 20 - i,
        {
            let group = hash_str.substring_char(3 * i, 3 * i + 3);
            match parse_decimal_u64(group) {
                Some(w) if w <= 255 => {
                    out.push(w as u8);
                },
                _ => {
                    return Err(ManifestError::Invalid);
                },
            }
            i = i + 1;
        }
        assert(file_hash_spec(hash_str@) == Some(out@)) by {
            assert(out@ =~= file_hash_spec(hash_str@)->Some_0);
        }
        Ok(out)
    }

    /// Extract the JSON manifest's fields from a JSON document. What the
    /// document holds is known only to the JSON parser, so nothing can be
    /// promised of the values; everything computed from them afterwards is
    /// checked for every value this could return. Any missing or mistyped
    /// field fails.
    pub fn from_str(json_str: &str) -> (r: Result<JsonManifest, ManifestError>)
        ensures
            r is Err ==> r->Err_0 == ManifestError::Invalid,
    {
        let v = match json_parse(json_str) {
            Some(v) => v,
            None => {
                return Err(ManifestError::Invalid);
            },
        };
        let manifest_file_version = match get_string_field(&v, "ManifestFileVersion") {
            Some(s) => s,
            None => {
                return Err(ManifestError::Invalid);
            },
        };
        let is_file_data = match get_bool_field(&v, "bIsFileData") {
            Some(b) => b,
            None => {
                return Err(ManifestError::Invalid);
            },
        };
        let app_id = match get_string_field(&v, "AppID") {
            Some(s) => s,
            None => {
                return Err(ManifestError::Invalid);
            },
        };
        let app_name_string = match get_string_field(&v, "AppNameString") {
            Some(s) => s,
            None => {
                return Err(ManifestError::Invalid);
            },
        };
        let build_version_string = match get_string_field(&v, "BuildVersionString") {
            Some(s) => s,
            None => {
                return Err(ManifestError::Invalid);
            },
        };
        let launch_exe_string = match get_string_field(&v, "LaunchExeString") {
            Some(s) => s,
            None => {
                return Err(ManifestError::Invalid);
            },
        };
        let launch_command = match get_string_field(&v, "LaunchCommand") {
            Some(s) => s,
            None => {
                return Err(ManifestError::Invalid);
            },
        };
        let prereq_ids = match get_string_array_field(&v, "PrereqIds") {
            Some(a) => a,
            None => {
                return Err(ManifestError::Invalid);
            },
        };
        let prereq_name = match get_string_field(&v, "PrereqName") {
            Some(s) => s,
            None => {
                return Err(ManifestError::Invalid);
            },
        };
        let prereq_path = match get_string_field(&v, "PrereqPath") {
            Some(s) => s,
            None => {
                return Err(ManifestError::Invalid);
            },
        };
        let prereq_args = match get_string_field(&v, "PrereqArgs") {
            Some(s) => s,
            None => {
                return Err(ManifestError::Invalid);
            },
        };
        let file_values = match json_get(&v, "FileManifestList") {
            Some(x) => match json_as_array(x) {
                Some(a) => a,
                None => {
                    return Err(ManifestError::Invalid);
                },
            },
            None => {
                return Err(ManifestError::Invalid);
            },
        };
        let mut file_manifest_list: Vec<JsonFileManifest> = Vec::new();
        let n = file_values.len();
        let mut i: usize = 0;
        while i < n
            invariant
                n == file_values@.len(),
                i <= n,
            decreases n - i,
        {
            let fv = &file_values[i];
            let filename = match get_string_field(fv, "Filename") {
                Some(s) => s,
                None => {
                    return Err(ManifestError::Invalid);
                },
            };
            let file_hash = match get_string_field(fv, "FileHash") {
                Some(s) => s,
                None => {
                    return Err(ManifestError::Invalid);
                },
            };
            let is_unix_executable = match json_get(fv, "bIsUnixExecutable") {
                Some(x) => {
                    if json_is_null(x) {
                        None
                    } else {
                        match json_as_bool(x) {
                            Some(b) => Some(b),
                            None => {
                                return Err(ManifestError::Invalid);
                            },
                        }
                    }
                },
                None => None,
            };
            let part_values = match json_get(fv, "FileChunkParts") {
                Some(x) => match json_as_array(x) {
                    Some(a) => a,
                    None => {
                        return Err(ManifestError::Invalid);
                    },
                },
                None => {
                    return Err(ManifestError::Invalid);
                },
            };
            let mut file_chunk_parts: Vec<JsonFileChunkPart> = Vec::new();
            let pn = part_values.len();
            let mut j: usize = 0;
            while j < pn
                invariant
                    pn == part_values@.len(),
                    j <= pn,
                decreases pn - j,
            {
                let pv = &part_values[j];
                let guid = match get_string_field(pv, "Guid") {
                    Some(s) => s,
                    None => {
                        return Err(ManifestError::Invalid);
                    },
                };
                let offset = match get_string_field(pv, "Offset") {
                    Some(s) => s,
                    None => {
                        return Err(ManifestError::Invalid);
                    },
                };
                let size = match get_string_field(pv, "Size") {
                    Some(s) => s,
                    None => {
                        return Err(ManifestError::Invalid);
                    },
                };
                file_chunk_parts.push(JsonFileChunkPart { guid, offset, size });
                j = j + 1;
            }
            file_manifest_list.push(
                JsonFileManifest { filename, file_hash, is_unix_executable, file_chunk_parts },
            );
            i = i + 1;
        }
        Ok(
            JsonManifest {
                manifest_file_version,
                is_file_data,
                app_id,
                app_name_string,
                build_version_string,
                launch_exe_string,
                launch_command,
                prereq_ids,
                prereq_name,
                prereq_path,
                prereq_args,
                file_manifest_list,
            },
        )
    }

    /// A deterministic 16-hex-digit placeholder hash derived from an
    /// identifier string: the same identifier always gives the same value.
    pub fn generate_hash_from_guid(guid: &str) -> (r: String)
        ensures
            r@ == hex_of(u64_bytes_be(fnv1a(encode_utf8(guid@)))),
    {
        u64_hex_string(fnv1a_hash(guid.as_bytes()))
    }

    /// A deterministic placeholder content hash derived from an identifier
    /// string: its SHA-1 digest, hex-encoded.
    pub fn generate_sha_hash_from_guid(guid: &str) -> (r: String)
        ensures
            r@ == hex_of(sha1_of(encode_utf8(guid@))),
    {
        let d = sha1_digest(guid.as_bytes());
        hex_string(d.as_slice())
    }

    /// The synthesized header hash: this format has no native header, so a
    /// content-derived digest over the identity fields stands in for one.
    pub fn generate_manifest_sha1_hash(&self) -> (r: Result<String, ManifestError>)
        ensures
            r is Ok,
            r->Ok_0@ == hex_of(sha1_of(manifest_hash_input(*self))),
    {
        let mut input: Vec<u8> = Vec::new();
        input.extend_from_slice(self.manifest_file_version.as_str().as_bytes());
        input.extend_from_slice(self.app_id.as_str().as_bytes());
        input.extend_from_slice(self.app_name_string.as_str().as_bytes());
        input.extend_from_slice(self.build_version_string.as_str().as_bytes());
        input.extend_from_slice(self.launch_exe_string.as_str().as_bytes());
        let cnt = dec_bytes(self.file_manifest_list.len() as u64);
        input.extend_from_slice(cnt.as_slice());
        assert(input@ =~= manifest_hash_input(*self));
        let d = sha1_digest(input.as_slice());
        Ok(hex_string(d.as_slice()))
    }

    /// Build the synthesized chunk for one identifier: nominal sizes, and
    /// hashes derived deterministically from the canonical identifier
    /// string.
    #[verifier::spinoff_prover]
    fn synth_chunk(gb: &[u8]) -> (c: Chunk)
        requires
            gb@.len() == 16,
        ensures
            json_chunk_matches(c),
            c.guid@ == guid_str_spec(gb@),
            guid_parse_spec(c.guid@) == Some(gb@),
            chunk_guid_key(c) == guid_key_spec(gb@),
    {
        let gs = guid_to_string(gb);
        let hash = Self::generate_hash_from_guid(gs.as_str());
        let sha = Self::generate_sha_hash_from_guid(gs.as_str());
        proof {
            lemma_guid_roundtrip(gb@);
        }
        Chunk {
            guid: gs,
            hash,
            sha_hash: sha,
            group: 0,
            window_size: STANDARD_CHUNK_SIZE,
            file_size: dec_string(STANDARD_CHUNK_SIZE as u64),
        }
    }

    /// Record one referenced identifier in the directory being built: a new
    /// identifier gets a synthesized chunk and a lookup entry, a repeated
    /// one is left as it stands. Fails only when the directory is full.
    #[verifier::spinoff_prover]
    #[verifier::rlimit(100)]
    fn collect_chunk(lookup: &mut HashMap<u128, u32>, elements: &mut Vec<Chunk>, gb: &[u8]) -> (r:
        bool)
        requires
            gb@.len() == 16,
            old(lookup)@ == lookup_of(keys_of(old(elements)@)),
            old(elements)@.len() <= 0xFFFFFFFF,
        ensures
            final(lookup)@ == lookup_of(keys_of(final(elements)@)),
            final(elements)@.len() <= 0xFFFFFFFF,
            r ==> {
                &&& final(lookup)@.contains_key(guid_key_spec(gb@))
                &&& (forall|key: u128| #[trigger]
                    old(lookup)@.contains_key(key) ==> final(lookup)@.contains_key(key))
                &&& (final(elements)@ == old(elements)@ && final(lookup)@ == old(lookup)@ || {
                    let last = final(elements)@.last();
                    &&& final(elements)@ == old(elements)@.push(last)
                    &&& final(lookup)@ == old(lookup)@.insert(
                        guid_key_spec(gb@),
                        old(elements)@.len() as u32,
                    )
                    &&& !old(lookup)@.contains_key(guid_key_spec(gb@))
                    &&& json_chunk_matches(last)
                    &&& guid_parse_spec(last.guid@) is Some
                    &&& chunk_guid_key(last) == guid_key_spec(gb@)
                })
            },
            !r ==> final(lookup)@ == old(lookup)@ && final(elements)@ == old(elements)@ && old(
                elements,
            )@.len() >= 0xFFFFFFFF,
    {
        let key = guid_key(gb);
        if lookup.contains_key(&key) {
            return true;
        }
        if elements.len() >= 0xFFFFFFFF {
            return false;
        }
        let ch = Self::synth_chunk(gb);
        let idx = elements.len() as u32;
        proof {
            lemma_lookup_of_push(keys_of(elements@), key);
            lemma_keys_of_push(elements@, ch);
        }
        lookup.insert(key, idx);
        elements.push(ch);
        true
    }

    /// Normalize the JSON document into the unified model: a synthesized
    /// header, metadata copied from the identity fields, a chunk directory
    /// built from the set of distinct identifiers any file references, and
    /// a file directory whose files' sizes are the sums of their parts'
    /// sizes. A malformed identifier or a non-numeric field is a hard
    /// failure; there is no tolerant fallback on this path.
    #[verifier::rlimit(100)]
    pub fn to_manifest(self) -> (r: Result<Manifest, ManifestError>)
        ensures
            r is Err ==> r->Err_0 == ManifestError::Invalid,
            !jm_ok(self) ==> r is Err,
            (jm_ok(self) && self.file_manifest_list@.len() <= 0xFFFFFFFF && total_parts(
                self.file_manifest_list@,
            ) < 0xFFFFFFFF && json_sums_ok(self.file_manifest_list@)) ==> r is Ok,
            r is Ok ==> jm_ok(self) && json_manifest_post(r->Ok_0, self),
    {
        let ghost files = self.file_manifest_list@;
        let header_hash = match self.generate_manifest_sha1_hash() {
            Ok(h) => h,
            Err(_) => {
                return Err(ManifestError::Invalid);
            },
        };
        let version = match self.parse_version() {
            Ok(v) => v,
            Err(_) => {
                return Err(ManifestError::Invalid);
            },
        };
        let app_id_v = match self.parse_app_id() {
            Ok(v) => v,
            Err(_) => {
                return Err(ManifestError::Invalid);
            },
        };
        let nf = self.file_manifest_list.len();
        if nf > 0xFFFFFFFF {
            return Err(ManifestError::Invalid);
        }

        let mut lookup: HashMap<u128, u32> = HashMap::new();
        let mut elements: Vec<Chunk> = Vec::new();
        let mut fi: usize = 0;
        while fi < nf
            invariant
                files == self.file_manifest_list@,
                nf == files.len(),
                nf <= 0xFFFFFFFF,
                fi <= nf,
                dec_parse(trunc8(self.manifest_file_version@)) == Some(version as u64),
                dec_parse(self.app_id@) == Some(app_id_v as u64),
                header_hash@ == hex_of(sha1_of(manifest_hash_input(self))),
                lookup@ == lookup_of(keys_of(elements@)),
                elements@.len() <= 0xFFFFFFFF,
                elements@.len() <= total_parts(files.take(fi as int)),
                forall|k: int|
                    0 <= k < elements@.len() ==> guid_parse_spec(
                        (#[trigger] elements@[k]).guid@,
                    ) is Some,
                forall|k: int|
                    0 <= k < elements@.len() ==> json_chunk_matches(#[trigger] elements@[k]),
                forall|k: int|
                    0 <= k < elements@.len() ==> lookup@.contains_key(
                        chunk_guid_key(#[trigger] elements@[k]),
                    ),
                forall|k1: int, k2: int|
                    0 <= k1 < k2 < elements@.len() ==> chunk_guid_key(#[trigger] elements@[k1])
                        != chunk_guid_key(#[trigger] elements@[k2]),
                forall|k: int|
                    0 <= k < elements@.len() ==> key_is_referenced(
                        self,
                        chunk_guid_key(#[trigger] elements@[k]),
                    ),
                forall|a: int, b2: int|
                    0 <= a < fi as int && 0 <= b2 < files[a].file_chunk_parts@.len() ==> {
                        let jp = #[trigger] files[a].file_chunk_parts@[b2];
                        guid_bytes_of(jp.guid@) is Some && lookup@.contains_key(
                            guid_key_spec(guid_bytes_of(jp.guid@)->Some_0),
                        )
                    },
            decreases nf - fi,
        {
            let parts_n = self.file_manifest_list[fi].file_chunk_parts.len();
            let mut pj: usize = 0;
            while pj < parts_n
                invariant
                    files == self.file_manifest_list@,
                    nf == files.len(),
                    nf <= 0xFFFFFFFF,
                    fi < nf,
                    parts_n == files[fi as int].file_chunk_parts@.len(),
                    pj <= parts_n,
                    lookup@ == lookup_of(keys_of(elements@)),
                    elements@.len() <= 0xFFFFFFFF,
                    elements@.len() <= total_parts(files.take(fi as int)) + pj as int,
                    forall|k: int|
                        0 <= k < elements@.len() ==> guid_parse_spec(
                            (#[trigger] elements@[k]).guid@,
                        ) is Some,
                    forall|k: int|
                        0 <= k < elements@.len() ==> json_chunk_matches(#[trigger] elements@[k]),
                    forall|k: int|
                        0 <= k < elements@.len() ==> lookup@.contains_key(
                            chunk_guid_key(#[trigger] elements@[k]),
                        ),
                    forall|k1: int, k2: int|
                        0 <= k1 < k2 < elements@.len() ==> chunk_guid_key(#[trigger] elements@[k1])
                            != chunk_guid_key(#[trigger] elements@[k2]),
                    forall|k: int|
                        0 <= k < elements@.len() ==> key_is_referenced(
                            self,
                            chunk_guid_key(#[trigger] elements@[k]),
                        ),
                    forall|a: int, b2: int|
                        0 <= a < fi as int && 0 <= b2 < files[a].file_chunk_parts@.len() ==> {
                            let jp = #[trigger] files[a].file_chunk_parts@[b2];
                            guid_bytes_of(jp.guid@) is Some && lookup@.contains_key(
                                guid_key_spec(guid_bytes_of(jp.guid@)->Some_0),
                            )
                        },
                    forall|b2: int|
                        0 <= b2 < pj as int ==> {
                            let jp = #[trigger] files[fi as int].file_chunk_parts@[b2];
                            guid_bytes_of(jp.guid@) is Some && lookup@.contains_key(
                                guid_key_spec(guid_bytes_of(jp.guid@)->Some_0),
                            )
                        },
                decreases parts_n - pj,
            {
                let gb = match parse_guid_flexible(
                    self.file_manifest_list[fi].file_chunk_parts[pj].guid.as_str(),
                ) {
                    Some(v) => v,
                    None => {
                        return Err(ManifestError::Invalid);
                    },
                };
                let ghost elements_before = elements@;
                if !Self::collect_chunk(&mut lookup, &mut elements, gb.as_slice()) {
                    proof {
                        lemma_total_parts_mono(files, fi as int + 1, nf as int);
                        lemma_total_parts_take(files, fi as int);
                        assert(files.take(nf as int) =~= files);
                    }
                    return Err(ManifestError::Invalid);
                }
                proof {
                    let ghost jp = files[fi as int].file_chunk_parts@[pj as int];
                    assert(guid_bytes_of(jp.guid@) == Some(gb@));
                    assert(key_is_referenced(self, guid_key_spec(gb@)));
                    assert forall|k: int| 0 <= k < elements@.len() implies key_is_referenced(
                        self,
                        chunk_guid_key(#[trigger] elements@[k]),
                    ) by {
                        if k < elements_before.len() {
                            assert(elements@[k] == elements_before[k]);
                        } else {
                            assert(chunk_guid_key(elements@[k]) == guid_key_spec(gb@));
                        }
                    }
                }
                pj = pj + 1;
            }
            proof {
                lemma_total_parts_take(files, fi as int);
            }
            fi = fi + 1;
        }
        assert(files.take(nf as int) =~= files);

        let mut out_files: Vec<FileManifest> = Vec::new();
        let mut fi: usize = 0;
        while fi < nf
            invariant
                files == self.file_manifest_list@,
                nf == files.len(),
                nf <= 0xFFFFFFFF,
                fi <= nf,
                dec_parse(trunc8(self.manifest_file_version@)) == Some(version as u64),
                dec_parse(self.app_id@) == Some(app_id_v as u64),
                header_hash@ == hex_of(sha1_of(manifest_hash_input(self))),
                lookup@ == lookup_of(keys_of(elements@)),
                elements@.len() <= 0xFFFFFFFF,
                forall|k: int|
                    0 <= k < elements@.len() ==> guid_parse_spec(
                        (#[trigger] elements@[k]).guid@,
                    ) is Some,
                forall|k: int|
                    0 <= k < elements@.len() ==> json_chunk_matches(#[trigger] elements@[k]),
                forall|k1: int, k2: int|
                    0 <= k1 < k2 < elements@.len() ==> chunk_guid_key(#[trigger] elements@[k1])
                        != chunk_guid_key(#[trigger] elements@[k2]),
                forall|k: int|
                    0 <= k < elements@.len() ==> key_is_referenced(
                        self,
                        chunk_guid_key(#[trigger] elements@[k]),
                    ),
                forall|a: int, b2: int|
                    0 <= a < nf as int && 0 <= b2 < files[a].file_chunk_parts@.len() ==> {
                        let jp = #[trigger] files[a].file_chunk_parts@[b2];
                        guid_bytes_of(jp.guid@) is Some && lookup@.contains_key(
                            guid_key_spec(guid_bytes_of(jp.guid@)->Some_0),
                        )
                    },
                out_files@.len() == fi as int,
                forall|k: int| 0 <= k < fi as int ==> file_wf(#[trigger] out_files@[k], lookup@),
                forall|k: int|
                    0 <= k < fi as int ==> json_file_matches(
                        #[trigger] out_files@[k],
                        files[k],
                    ),
            decreases nf - fi,
        {
            let hash_bytes = match self.parse_file_hash(
                self.file_manifest_list[fi].file_hash.as_str(),
            ) {
                Ok(v) => v,
                Err(_) => {
                    return Err(ManifestError::Invalid);
                },
            };
            let sha = hex_string(hash_bytes.as_slice());
            let flags: u8 = match self.file_manifest_list[fi].is_unix_executable {
                Some(true) => 4,
                _ => 0,
            };
            let mut parts: Vec<ChunkPart> = Vec::new();
            let mut sum: i64 = 0;
            let parts_n = self.file_manifest_list[fi].file_chunk_parts.len();
            let mut pj: usize = 0;
            while pj < parts_n
                invariant
                    files == self.file_manifest_list@,
                    nf == files.len(),
                    fi < nf,
                    parts_n == files[fi as int].file_chunk_parts@.len(),
                    pj <= parts_n,
                    lookup@ == lookup_of(keys_of(elements@)),
                    forall|a: int, b2: int|
                        0 <= a < nf as int && 0 <= b2 < files[a].file_chunk_parts@.len() ==> {
                            let jp = #[trigger] files[a].file_chunk_parts@[b2];
                            guid_bytes_of(jp.guid@) is Some && lookup@.contains_key(
                                guid_key_spec(guid_bytes_of(jp.guid@)->Some_0),
                            )
                        },
                    parts@.len() == pj as int,
                    0 <= sum,
                    sum as int == sum_part_sizes(parts@),
                    sum as int == json_parts_sum(files[fi as int].file_chunk_parts@.take(pj as int)),
                    forall|k: int|
                        0 <= k < pj as int ==> part_resolves(#[trigger] parts@[k], lookup@),
                    forall|k: int|
                        0 <= k < pj as int ==> json_part_matches(
                            #[trigger] parts@[k],
                            files[fi as int].file_chunk_parts@[k],
                        ),
                decreases parts_n - pj,
            {
                let ghost jp = files[fi as int].file_chunk_parts@[pj as int];
                let gb = match parse_guid_flexible(
                    self.file_manifest_list[fi].file_chunk_parts[pj].guid.as_str(),
                ) {
                    Some(v) => v,
                    None => {
                        return Err(ManifestError::Invalid);
                    },
                };
                let offset_v = match self.parse_hex_string(
                    self.file_manifest_list[fi].file_chunk_parts[pj].offset.as_str(),
                ) {
                    Ok(v) => v,
                    Err(_) => {
                        return Err(ManifestError::Invalid);
                    },
                };
                let size_v = match self.parse_hex_string(
                    self.file_manifest_list[fi].file_chunk_parts[pj].size.as_str(),
                ) {
                    Ok(v) => v,
                    Err(_) => {
                        return Err(ManifestError::Invalid);
                    },
                };
                let size_u: u32 = size_v as u32;
                let offset_u: u32 = offset_v as u32;
                let ghost parts_prev = parts@;
                let ghost taken_prev = files[fi as int].file_chunk_parts@.take(pj as int);
                if sum > 0x7FFFFFFFFFFFFFFF - (size_u as i64) {
                    proof {
                        assert(files[fi as int].file_chunk_parts@.take(pj as int + 1).drop_last()
                            =~= taken_prev);
                        assert(json_parts_sum(
                            files[fi as int].file_chunk_parts@.take(pj as int + 1),
                        ) > 0x7FFFFFFFFFFFFFFF);
                    }
                    return Err(ManifestError::Invalid);
                }
                sum = sum + size_u as i64;
                let pg = guid_to_string(gb.as_slice());
                proof {
                    lemma_guid_roundtrip(gb@);
                }
                parts.push(
                    ChunkPart {
                        data_size: 0,
                        parent_guid: pg,
                        offset: offset_u,
                        size: size_u,
                        chunk: None,
                    },
                );
                proof {
                    assert(parts@.drop_last() =~= parts_prev);
                    assert(files[fi as int].file_chunk_parts@.take(pj as int + 1).drop_last()
                        =~= taken_prev);
                    assert(files[fi as int].file_chunk_parts@.take(pj as int + 1).last() == jp);
                }
                pj = pj + 1;
            }
            assert(files[fi as int].file_chunk_parts@.take(parts_n as int) =~= files[
                fi as int
            ].file_chunk_parts@);
            out_files.push(
                FileManifest {
                    filename: self.file_manifest_list[fi].filename.clone(),
                    symlink_target: String::new(),
                    sha_hash: sha,
                    file_meta_flags: flags,
                    install_tags: Vec::new(),
                    chunk_parts: parts,
                    file_size: sum,
                    mime_type: String::new(),
                },
            );
            fi = fi + 1;
        }

        let chunk_list = ChunkDataList {
            data_size: 0,
            data_version: 0,
            count: elements.len() as u32,
            elements,
            chunk_lookup: lookup,
        };
        let meta = ManifestMeta {
            data_size: 0,
            data_version: 0,
            feature_level: 0,
            is_file_data: true,
            app_id: app_id_v as i32,
            app_name: self.app_name_string.clone(),
            build_version: self.build_version_string.clone(),
            launch_exe: self.launch_exe_string.clone(),
            launch_command: String::new(),
            prereq_ids: Vec::new(),
            prereq_name: String::new(),
            prereq_path: String::new(),
            prereq_args: String::new(),
            build_id: None,
        };
        let header = ManifestHeader {
            header_size: 0,
            data_size_uncompressed: 0,
            data_size_compressed: 0,
            sha1_hash: header_hash,
            stored_as: 0,
            version: version as i32,
            guid: String::new(),
            rolling_hash: 0,
            hash_type: 0,
        };
        let file_list = FileManifestList {
            data_size: 0,
            data_version: 0,
            count: out_files.len() as u32,
            file_manifest_list: out_files,
        };
        proof {
            assert forall|i: int| 0 <= i < files.len() implies jf_ok(#[trigger] files[i]) by {
                assert(json_file_matches(file_list.file_manifest_list@[i], files[i]));
                assert forall|j: int|
                    0 <= j < files[i].file_chunk_parts@.len() implies jp_ok(
                    #[trigger] files[i].file_chunk_parts@[j],
                ) by {
                    assert(json_part_matches(
                        file_list.file_manifest_list@[i].chunk_parts@[j],
                        files[i].file_chunk_parts@[j],
                    ));
                }
            }
        }
        Ok(Manifest { header, meta: Some(meta), chunk_list: Some(chunk_list), file_list: Some(file_list) })
    }
}

} // verus!
