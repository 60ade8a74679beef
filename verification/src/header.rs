//! The fixed preamble of a binary manifest: magic, framing sizes, integrity
//! hash, storage flags and the optional trailing version field.

use vstd::prelude::*;
use crate::error::ManifestError;
use crate::hexstr::hex_of;
use crate::reader::{ByteReader, i32_le, u32_le};

verus! {

/// The four magic bytes every binary manifest starts with, as a
/// little-endian `u32`.
pub const MANIFEST_MAGIC: u32 = 0x44BEC00C;

/// Storage-flags bit: the payload is compressed.
pub const STORED_COMPRESSED: u8 = 1;

/// Storage-flags bit: the payload is encrypted.
pub const STORED_ENCRYPTED: u8 = 2;

/// The legacy fixed preamble length; a larger `header_size` means a trailing
/// version field is present.
pub const LEGACY_HEADER_SIZE: i32 = 37;

/// Whether `b` starts with a readable preamble: the magic, the 33 preamble
/// bytes after it, and — only when the declared `header_size` exceeds the
/// legacy 37-byte layout — four more bytes for the version field.
pub open spec fn header_parse_ok(b: Seq<u8>) -> bool {
    &&& b.len() >= 37
    &&& u32_le(b.subrange(0, 4)) == MANIFEST_MAGIC
    &&& (i32_le(b.subrange(4, 8)) <= LEGACY_HEADER_SIZE || b.len() >= 41)
}

#[derive(Debug, Clone)]
pub struct ManifestHeader {
    /// Byte length of the preamble; also the offset at which the payload
    /// region begins.
    pub header_size: i32,
    pub data_size_uncompressed: i32,
    pub data_size_compressed: i32,
    /// The declared 20-byte payload hash, hex-encoded.
    pub sha1_hash: String,
    /// Storage flags: bit 0 compressed, bit 1 encrypted.
    pub stored_as: u8,
    /// 0 for the legacy layout, else the trailing version field.
    pub version: i32,
    /// Unused by this layout; kept empty.
    pub guid: String,
    /// Unused by this layout; kept zero.
    pub rolling_hash: i64,
    /// Unused by this layout; kept zero.
    pub hash_type: u32,
}

/// The field values a well-formed preamble decodes to.
pub open spec fn header_matches(h: ManifestHeader, b: Seq<u8>) -> bool {
    &&& h.header_size == i32_le(b.subrange(4, 8))
    &&& h.data_size_uncompressed == i32_le(b.subrange(8, 12))
    &&& h.data_size_compressed == i32_le(b.subrange(12, 16))
    &&& h.sha1_hash@ == hex_of(b.subrange(16, 36))
    &&& h.stored_as == b[36]
    &&& h.version == if i32_le(b.subrange(4, 8)) > LEGACY_HEADER_SIZE {
        i32_le(b.subrange(37, 41))
    } else {
        0
    }
    &&& h.guid@ == Seq::<char>::empty()
    &&& h.rolling_hash == 0
    &&& h.hash_type == 0
}

impl ManifestHeader {
    pub open spec fn is_compressed_spec(self) -> bool {
        self.stored_as & STORED_COMPRESSED != 0
    }

    pub open spec fn is_encrypted_spec(self) -> bool {
        self.stored_as & STORED_ENCRYPTED != 0
    }

    pub fn is_compressed(&self) -> (r: bool)
        ensures
            r == self.is_compressed_spec(),
    {
        self.stored_as & STORED_COMPRESSED != 0
    }

    pub fn is_encrypted(&self) -> (r: bool)
        ensures
            r == self.is_encrypted_spec(),
    {
        self.stored_as & STORED_ENCRYPTED != 0
    }

    /// Decode the preamble at the start of `data`. Succeeds exactly on a
    /// recognized magic with enough bytes for the declared layout; a magic
    /// mismatch is `Invalid`, short input is `Io`.
    pub fn read(data: &[u8]) -> (r: Result<ManifestHeader, ManifestError>)
        ensures
            match r {
                Ok(h) => header_parse_ok(data@) && header_matches(h, data@),
                Err(e) => !header_parse_ok(data@) && e == if data@.len() >= 4 && u32_le(
                    data@.subrange(0, 4),
                ) != MANIFEST_MAGIC {
                    ManifestError::Invalid
                } else {
                    ManifestError::Io
                },
            },
    {
        let mut rdr = ByteReader::new(data);
        let magic = match rdr.read_u32() {
            Some(v) => v,
            None => {
                return Err(ManifestError::Io);
            },
        };
        if magic != MANIFEST_MAGIC {
            return Err(ManifestError::Invalid);
        }
        let header_size = match rdr.read_i32() {
            Some(v) => v,
            None => {
                return Err(ManifestError::Io);
            },
        };
        let data_size_uncompressed = match rdr.read_i32() {
            Some(v) => v,
            None => {
                return Err(ManifestError::Io);
            },
        };
        let data_size_compressed = match rdr.read_i32() {
            Some(v) => v,
            None => {
                return Err(ManifestError::Io);
            },
        };
        let hash_bytes = rdr.read_bytes_tolerant(20);
        if hash_bytes.len() < 20 {
            return Err(ManifestError::Io);
        }
        let stored_as = match rdr.read_u8() {
            Some(v) => v,
            None => {
                return Err(ManifestError::Io);
            },
        };
        let version = if header_size > LEGACY_HEADER_SIZE {
            match rdr.read_i32() {
                Some(v) => v,
                None => {
                    return Err(ManifestError::Io);
                },
            }
        } else {
            0
        };
        let sha1_hash = crate::hexstr::hex_string(hash_bytes.as_slice());
        Ok(
            ManifestHeader {
                header_size,
                data_size_uncompressed,
                data_size_compressed,
                sha1_hash,
                stored_as,
                version,
                guid: String::new(),
                rolling_hash: 0,
                hash_type: 0,
            },
        )
    }
}

} // verus!
