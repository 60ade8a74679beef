//! Decoder for a binary content-distribution manifest format, plus a JSON
//! variant, producing one unified model: a header, build metadata, a chunk
//! directory and a file directory. Consumers use the decoded model to
//! resolve which chunks reconstruct any file.

use vstd::prelude::*;

pub mod chunk;
pub mod error;
pub mod file;
pub mod guid;
pub mod header;
pub mod hexstr;
pub mod hashing;
pub mod inflate;
pub mod json_manifest;
pub mod json_value;
pub mod manifest;
pub mod meta;
pub mod reader;

use crate::chunk::{ChunkDataList, cdl_wf, chunk_read_ok_post, chunk_section_parseable,
    guid_keys_of_bytes, lookup_of, lemma_chunk_lookup_from_bytes};
use crate::error::ManifestError;
use crate::file::{FileManifestList, fml_wf, file_read_ok_post, file_read_ok};
use crate::hashing::{sha1_of, sha1_digest};
use crate::header::{ManifestHeader, MANIFEST_MAGIC, header_parse_ok, header_matches};
use crate::hexstr::{hex_of, hex_string};
use crate::inflate::{zlib_inflate, decompress_zlib};
use crate::json_manifest::{JsonManifest, is_json_manifest};
use crate::json_value::utf8_string;
use crate::manifest::Manifest;
use crate::meta::{ManifestMeta, meta_matches, meta_read_ok, meta_section_end};
use crate::reader::{ByteReader, u32_le, i32_le, section_window_end, section_size_ok};
use vstd::slice::{slice_subrange, slice_to_vec};

verus! {

/// Whether position `i` of `s` starts a recognized zlib stream signature:
/// the usual first byte followed by one of the three common
/// compression-level marker bytes.
pub open spec fn zlib_sig_at(s: Seq<u8>, i: int) -> bool {
    s[i] == 0x78 && (s[i + 1] == 0x01 || s[i + 1] == 0x9C || s[i + 1] == 0xDA)
}

/// The first position in `s` bearing a zlib signature, scanning only
/// positions with at least two bytes to spare, as the bounded scan does.
pub open spec fn first_sig_from(s: Seq<u8>, i: int) -> Option<int>
    decreases s.len() - i,
{
    if i < 0 || i + 2 >= s.len() {
        None
    } else if zlib_sig_at(s, i) {
        Some(i)
    } else {
        first_sig_from(s, i + 1)
    }
}

/// Where the payload region starts: the declared header size, as the
/// machine reads it back.
pub open spec fn payload_start(b: Seq<u8>) -> int {
    i32_le(b.subrange(4, 8)) as usize as int
}

/// The payload region's length: the compressed size when the storage flags
/// say compressed, else the uncompressed size.
pub open spec fn payload_size(b: Seq<u8>) -> int {
    if b[36] & 1 != 0 {
        i32_le(b.subrange(12, 16)) as usize as int
    } else {
        i32_le(b.subrange(8, 12)) as usize as int
    }
}

/// Whether the declared payload region lies inside the buffer; violation
/// is a hard decode failure.
pub open spec fn payload_bounds_ok(b: Seq<u8>) -> bool {
    payload_start(b) < b.len() && payload_start(b) + payload_size(b) <= b.len()
}

/// What the payload region decompresses to. A compressed payload is
/// inflated from the first zlib signature found by a bounded scan, and
/// passes through raw when none is found; an uncompressed payload that
/// nonetheless bears a signature at the known fixed offset — an encoding
/// inconsistency some producers exhibit — is inflated from there. `None`
/// only for a recognized signature over a corrupt stream.
pub open spec fn spec_decompressed(pc: Seq<u8>, compressed: bool) -> Option<Seq<u8>> {
    if compressed {
        match first_sig_from(pc, 0) {
            Some(o) => zlib_inflate(pc.skip(o)),
            None => Some(pc),
        }
    } else {
        if pc.len() > 10 && zlib_sig_at(pc, 9) {
            zlib_inflate(pc.skip(9))
        } else {
            Some(pc)
        }
    }
}

/// The decompressed payload of a buffer whose header and bounds are good.
pub open spec fn spec_payload(b: Seq<u8>) -> Option<Seq<u8>> {
    spec_decompressed(
        b.subrange(payload_start(b), payload_start(b) + payload_size(b)),
        b[36] & 1 != 0,
    )
}

/// The one success shape both decode paths produce: chunk and file
/// directories present and internally consistent, the files resolved
/// against that chunk directory's lookup.
pub open spec fn manifest_wf(m: Manifest) -> bool {
    &&& m.chunk_list is Some
    &&& m.file_list is Some
    &&& cdl_wf(m.chunk_list->Some_0)
    &&& fml_wf(m.file_list->Some_0, m.chunk_list->Some_0.chunk_lookup@)
}

/// Everything the binary decode path guarantees, relative to the raw
/// buffer: exact failure for a bad magic, short preamble, out-of-bounds
/// payload, encryption or a corrupt compression stream; and on success a
/// header decoded from the preamble and sections decoded from the
/// payload, the metadata section recoverable and the other two not.
pub open spec fn binary_decode_post(
    b: Seq<u8>,
    r: Result<Manifest, ManifestError>,
    hash_ok: bool,
) -> bool {
    &&& (!header_parse_ok(b) ==> r is Err && r->Err_0 == (if b.len() >= 4 && u32_le(
        b.subrange(0, 4),
    ) != MANIFEST_MAGIC {
        ManifestError::Invalid
    } else {
        ManifestError::Io
    }))
    &&& (header_parse_ok(b) && !payload_bounds_ok(b) ==> r == Result::<
        Manifest,
        ManifestError,
    >::Err(ManifestError::Invalid))
    &&& (header_parse_ok(b) && payload_bounds_ok(b) && b[36] & 2 != 0 ==> r == Result::<
        Manifest,
        ManifestError,
    >::Err(ManifestError::EncryptedManifest))
    &&& (header_parse_ok(b) && payload_bounds_ok(b) && b[36] & 2 == 0 ==> match spec_payload(b) {
        None => r == Result::<Manifest, ManifestError>::Err(ManifestError::Inflate),
        Some(pl) => {
            let cs = meta_section_end(pl, 0, pl.len() as int);
            let fs = section_window_end(pl, cs, pl.len() as int);
            let bl = lookup_of(
                guid_keys_of_bytes(pl, cs + 9, u32_le(pl.subrange(cs + 5, cs + 9)) as int),
            );
            &&& (r is Ok <==> section_size_ok(pl, cs, pl.len() as int) && chunk_section_parseable(
                pl,
                cs,
                pl.len() as int,
            ) && file_read_ok(pl, fs, pl.len() as int, bl))
            &&& match r {
            Err(err) => err == ManifestError::Io || err == ManifestError::Invalid,
            Ok(m) => {
                &&& header_matches(m.header, b)
                &&& manifest_wf(m)
                &&& hash_ok == (hex_of(sha1_of(pl)) == hex_of(b.subrange(16, 36)))
                &&& (m.meta is Some <==> meta_read_ok(pl, 0, pl.len() as int))
                &&& (m.meta is Some ==> meta_matches(m.meta->Some_0, pl, 0, pl.len() as int))
                &&& chunk_read_ok_post(m.chunk_list->Some_0, pl, cs, pl.len() as int)
                &&& file_read_ok_post(
                    m.file_list->Some_0,
                    pl,
                    fs,
                    pl.len() as int,
                    m.chunk_list->Some_0.chunk_lookup@,
                )
            },
        }
        },
    })
}

/// Slice the payload region out of the buffer and undo its compression,
/// recovering from the known framing quirks: a bounded signature scan for
/// compressed payloads, and the fixed-offset signature check for payloads
/// claimed uncompressed.
#[verifier::rlimit(100)]
fn derive_payload(buf: &[u8], header: &ManifestHeader) -> (r: Result<Vec<u8>, ManifestError>)
    requires
        header_parse_ok(buf@),
        header_matches(*header, buf@),
        payload_bounds_ok(buf@),
    ensures
        match r {
            Ok(v) => spec_payload(buf@) == Some(v@),
            Err(e) => e == ManifestError::Inflate && spec_payload(buf@) is None,
        },
{
    let start = header.header_size as usize;
    let size = if header.is_compressed() {
        header.data_size_compressed as usize
    } else {
        header.data_size_uncompressed as usize
    };
    assert(start as int == payload_start(buf@));
    assert(size as int == payload_size(buf@));
    let total = buf.len();
    assert(start + size <= total);
    let payload_region = slice_subrange(buf, start, start + size);
    let ghost pc = payload_region@;
    assert(pc == buf@.subrange(payload_start(buf@), payload_start(buf@) + payload_size(buf@)));
    if header.is_compressed() {
        let n = payload_region.len();
        let mut offset: usize = 0;
        let mut found = false;
        while !found && n > 2 && offset < n - 2
            invariant
                n == pc.len(),
                pc == payload_region@,
                offset <= n,
                !found ==> first_sig_from(pc, 0) == first_sig_from(pc, offset as int),
                found ==> first_sig_from(pc, 0) == Some(offset as int) && offset + 2 < n,
            decreases n - offset - (if found {
                1int
            } else {
                0int
            }),
        {
            let b0 = payload_region[offset];
            let b1 = payload_region[offset + 1];
            if b0 == 0x78 && (b1 == 0x01 || b1 == 0x9C || b1 == 0xDA) {
                found = true;
            } else {
                offset = offset + 1;
            }
        }
        if found {
            let tail = slice_subrange(payload_region, offset, n);
            assert(tail@ =~= pc.skip(offset as int));
            match decompress_zlib(tail) {
                Some(d) => Ok(d),
                None => Err(ManifestError::Inflate),
            }
        } else {
            assert(first_sig_from(pc, offset as int) is None);
            Ok(slice_to_vec(payload_region))
        }
    } else {
        let n = payload_region.len();
        if n > 10 && payload_region[9] == 0x78 && (payload_region[10] == 0x01 || payload_region[10]
            == 0x9C || payload_region[10] == 0xDA) {
            let tail = slice_subrange(payload_region, 9, n);
            assert(tail@ =~= pc.skip(9));
            match decompress_zlib(tail) {
                Some(d) => Ok(d),
                None => Err(ManifestError::Inflate),
            }
        } else {
            Ok(slice_to_vec(payload_region))
        }
    }
}

/// Whether the recomputed content hash of a decompressed payload matches
/// the hash a header declares.
pub fn payload_matches_hash(header: &ManifestHeader, payload: &[u8]) -> (r: bool)
    ensures
        r == (hex_of(sha1_of(payload@)) == header.sha1_hash@),
{
    let d = sha1_digest(payload);
    let h = hex_string(d.as_slice());
    h == header.sha1_hash
}

/// Decode a manifest buffer and report whether the payload's recomputed
/// content hash matched the header's declared hash. A mismatch is advisory
/// only: decoding still completes, and the flag carries the signal. The
/// JSON variant declares no hash to check, so the flag is simply true
/// there.
pub fn process_manifest_data_with_integrity(buf: &[u8]) -> (r: Result<
    (Manifest, bool),
    ManifestError,
>)
    ensures
        (buf@.len() == 0 || buf@[0] != 123) ==> binary_decode_post(
            buf@,
            match r {
                Ok(p) => Ok(p.0),
                Err(e) => Err(e),
            },
            match r {
                Ok(p) => p.1,
                Err(_) => true,
            },
        ),
        r is Ok ==> manifest_wf(r->Ok_0.0),
{
    if is_json_manifest(buf) {
        let s = match utf8_string(buf) {
            Some(s) => s,
            None => {
                return Err(ManifestError::Invalid);
            },
        };
        let jm = match JsonManifest::from_str(s.as_str()) {
            Ok(j) => j,
            Err(e) => {
                return Err(e);
            },
        };
        return match jm.to_manifest() {
            Ok(m) => Ok((m, true)),
            Err(e) => Err(e),
        };
    }
    decode_binary_with_integrity(buf)
}

/// Decode the three sections of a decompressed payload: the recoverable
/// metadata section, then the chunk directory and the file directory, the
/// latter two fatal on failure.
#[verifier::rlimit(100)]
fn decode_sections(payload: &[u8]) -> (r: Result<
    (Option<ManifestMeta>, ChunkDataList, FileManifestList),
    ManifestError,
>)
    ensures
        ({
            let pl = payload@;
            let cs = meta_section_end(pl, 0, pl.len() as int);
            let fs = section_window_end(pl, cs, pl.len() as int);
            let bl = lookup_of(
                guid_keys_of_bytes(pl, cs + 9, u32_le(pl.subrange(cs + 5, cs + 9)) as int),
            );
            &&& (r is Ok <==> section_size_ok(pl, cs, pl.len() as int) && chunk_section_parseable(
                pl,
                cs,
                pl.len() as int,
            ) && file_read_ok(pl, fs, pl.len() as int, bl))
            &&& match r {
                Ok((meta, cl, fl)) => {
                    &&& (meta is Some <==> meta_read_ok(pl, 0, pl.len() as int))
                    &&& (meta is Some ==> meta_matches(meta->Some_0, pl, 0, pl.len() as int))
                    &&& chunk_read_ok_post(cl, pl, cs, pl.len() as int)
                    &&& file_read_ok_post(fl, pl, fs, pl.len() as int, cl.chunk_lookup@)
                },
                Err(err) => err == ManifestError::Io || err == ManifestError::Invalid,
            }
        }),
{
    let mut rdr = ByteReader::new(payload);
    let meta: Option<ManifestMeta> = match ManifestMeta::read_meta(&mut rdr) {
        Ok((m, _)) => Some(m),
        Err(_) => None,
    };
    let chunk_list = match ChunkDataList::read(&mut rdr) {
        Ok(c) => c,
        Err(e) => {
            return Err(e);
        },
    };
    proof {
        lemma_chunk_lookup_from_bytes(
            chunk_list,
            payload@,
            meta_section_end(payload@, 0, payload@.len() as int),
            payload@.len() as int,
        );
    }
    let file_list = match FileManifestList::read(&mut rdr, &chunk_list) {
        Ok(f) => f,
        Err(e) => {
            return Err(e);
        },
    };
    Ok((meta, chunk_list, file_list))
}

/// The binary decode path: preamble, payload framing and decompression,
/// advisory integrity check, then the three sections.
#[verifier::rlimit(100)]
fn decode_binary_with_integrity(buf: &[u8]) -> (r: Result<(Manifest, bool), ManifestError>)
    ensures
        binary_decode_post(
            buf@,
            match r {
                Ok(p) => Ok(p.0),
                Err(e) => Err(e),
            },
            match r {
                Ok(p) => p.1,
                Err(_) => true,
            },
        ),
        r is Ok ==> manifest_wf(r->Ok_0.0),
{
    let header = match ManifestHeader::read(buf) {
        Ok(h) => h,
        Err(e) => {
            return Err(e);
        },
    };
    let start = header.header_size as usize;
    let size = if header.is_compressed() {
        header.data_size_compressed as usize
    } else {
        header.data_size_uncompressed as usize
    };
    assert(start as int == payload_start(buf@));
    assert(size as int == payload_size(buf@));
    if start >= buf.len() || size > buf.len() - start {
        return Err(ManifestError::Invalid);
    }
    if header.is_encrypted() {
        return Err(ManifestError::EncryptedManifest);
    }
    let payload: Vec<u8> = match derive_payload(buf, &header) {
        Ok(v) => v,
        Err(e) => {
            return Err(e);
        },
    };
    let ghost pl = payload@;

    let hash_ok = payload_matches_hash(&header, payload.as_slice());

    let (meta, chunk_list, file_list) = match decode_sections(payload.as_slice()) {
        Ok(t) => t,
        Err(e) => {
            return Err(e);
        },
    };
    Ok(
        (
            Manifest { header, meta, chunk_list: Some(chunk_list), file_list: Some(file_list) },
            hash_ok,
        ),
    )
}

/// Decode a manifest from raw bytes: the JSON variant when recognized,
/// else the binary format. An integrity-hash mismatch never blocks this;
/// `process_manifest_data_with_integrity` also reports the advisory
/// signal.
pub fn process_manifest_data(buf: &[u8]) -> (r: Result<Manifest, ManifestError>)
    ensures
        (buf@.len() == 0 || buf@[0] != 123) ==> exists|hash_ok: bool|
            binary_decode_post(buf@, r, hash_ok),
        r is Ok ==> manifest_wf(r->Ok_0),
{
    match process_manifest_data_with_integrity(buf) {
        Ok((m, _)) => Ok(m),
        Err(e) => Err(e),
    }
}

} // verus!
