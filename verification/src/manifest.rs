//! The unified decoded model both decode paths produce.

use vstd::prelude::*;
use crate::chunk::ChunkDataList;
use crate::file::FileManifestList;
use crate::header::ManifestHeader;
use crate::meta::ManifestMeta;

verus! {

/// The decoded description of a build: framing header, identity metadata,
/// available chunks, and the files composed from them. A section that could
/// not be decoded, where that is recoverable, is `None`; the success case
/// has all four present.
#[derive(Debug, Clone)]
pub struct Manifest {
    pub header: ManifestHeader,
    pub meta: Option<ManifestMeta>,
    pub chunk_list: Option<ChunkDataList>,
    pub file_list: Option<FileManifestList>,
}

} // verus!
