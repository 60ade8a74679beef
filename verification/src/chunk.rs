//! The chunk directory: a column-major table of content-addressed chunks,
//! with a key-to-index lookup built once at decode time, and the chunk-part
//! references that files resolve against it.

use vstd::prelude::*;
use std::collections::HashMap;
use crate::error::ManifestError;
use crate::guid::{guid_str_spec, guid_parse_spec, guid_key_spec, guid_to_string, guid_key,
    lemma_guid_roundtrip};
use crate::hexstr::{hex_of, hex_string, dec_of, dec_string, u64_bytes_be, u64_hex_string};
use crate::reader::{ByteReader, u32_le, u64_le, section_window_end, section_size_ok};

verus! {

broadcast use vstd::std_specs::hash::group_hash_axioms;

/// Chunks beyond this count are rejected as implausible.
pub const MAX_CHUNK_COUNT: u32 = 1000000;

/// Sections above this byte length are rejected as implausible.
pub const MAX_SECTION_LEN: u32 = 1073741824;

/// One content-addressed unit of data.
#[derive(Debug, Clone)]
pub struct Chunk {
    /// 128-bit identifier in canonical string form.
    pub guid: String,
    /// 64-bit rolling hash, as exactly 16 lowercase hexadecimal digits.
    pub hash: String,
    /// 160-bit content hash, hex-encoded.
    pub sha_hash: String,
    /// Partition id.
    pub group: u8,
    /// Uncompressed size.
    pub window_size: u32,
    /// Stored size, rendered in decimal so 64-bit magnitudes travel safely.
    pub file_size: String,
}

/// Field-by-field value equality of two chunks.
pub open spec fn chunk_eq(a: Chunk, b: Chunk) -> bool {
    &&& a.guid@ == b.guid@
    &&& a.hash@ == b.hash@
    &&& a.sha_hash@ == b.sha_hash@
    &&& a.group == b.group
    &&& a.window_size == b.window_size
    &&& a.file_size@ == b.file_size@
}

impl Chunk {
    pub fn guid(&self) -> (r: String)
        ensures
            r@ == self.guid@,
    {
        self.guid.clone()
    }

    pub fn hash(&self) -> (r: String)
        ensures
            r@ == self.hash@,
    {
        self.hash.clone()
    }

    pub fn sha_hash(&self) -> (r: String)
        ensures
            r@ == self.sha_hash@,
    {
        self.sha_hash.clone()
    }

    /// A field-by-field copy of this chunk.
    pub fn duplicate(&self) -> (r: Chunk)
        ensures
            chunk_eq(r, *self),
    {
        Chunk {
            guid: self.guid.clone(),
            hash: self.hash.clone(),
            sha_hash: self.sha_hash.clone(),
            group: self.group,
            window_size: self.window_size,
            file_size: self.file_size.clone(),
        }
    }
}

/// The lookup a sequence of keys builds: each key maps to its index, a
/// repeated key to its last index.
pub open spec fn lookup_of(keys: Seq<u128>) -> Map<u128, u32>
    decreases keys.len(),
{
    if keys.len() == 0 {
        Map::empty()
    } else {
        lookup_of(keys.drop_last()).insert(keys.last(), (keys.len() - 1) as u32)
    }
}

/// Appending a key updates the lookup at that key alone.
pub proof fn lemma_lookup_of_push(keys: Seq<u128>, k: u128)
    ensures
        lookup_of(keys.push(k)) == lookup_of(keys).insert(k, keys.len() as u32),
{
    assert(keys.push(k).len() == keys.len() + 1);
    assert(lookup_of(keys.push(k)) == lookup_of(keys.push(k).drop_last()).insert(
        keys.push(k).last(),
        (keys.push(k).len() - 1) as u32,
    ));
    assert(keys.push(k).drop_last() =~= keys);
    assert(keys.push(k).last() == k);
    assert(lookup_of(keys.push(k).drop_last()) == lookup_of(keys));
}

/// The key under which a chunk is found: its identifier's 128-bit value.
pub open spec fn chunk_guid_key(c: Chunk) -> u128 {
    guid_key_spec(guid_parse_spec(c.guid@)->Some_0)
}

/// The lookup keys of a chunk sequence, in order.
pub open spec fn keys_of(elems: Seq<Chunk>) -> Seq<u128> {
    Seq::new(elems.len(), |i: int| chunk_guid_key(elems[i]))
}

/// Appending a chunk appends its key.
pub proof fn lemma_keys_of_push(elems: Seq<Chunk>, ch: Chunk)
    ensures
        keys_of(elems.push(ch)) == keys_of(elems).push(chunk_guid_key(ch)),
{
    assert(keys_of(elems.push(ch)) =~= keys_of(elems).push(chunk_guid_key(ch)));
}

/// The decoded chunk directory.
#[derive(Debug, Clone)]
pub struct ChunkDataList {
    /// The declared byte length of the section.
    pub data_size: u32,
    /// Version of the directory's own layout.
    pub data_version: u8,
    /// Number of chunks.
    pub count: u32,
    /// The chunks, in table order.
    pub elements: Vec<Chunk>,
    /// Identifier value to index into `elements`; built once at decode time.
    pub chunk_lookup: HashMap<u128, u32>,
}

/// What makes a chunk directory internally consistent: one element per
/// counted chunk, every identifier in canonical parseable form, and the
/// lookup being exactly the one its elements' keys build.
pub open spec fn cdl_wf(l: ChunkDataList) -> bool {
    &&& l.elements@.len() == l.count as int
    &&& (forall|i: int|
        0 <= i < l.elements@.len() ==> guid_parse_spec(#[trigger] l.elements@[i].guid@) is Some)
    &&& l.chunk_lookup@ == lookup_of(keys_of(l.elements@))
}

/// The lookup keys of the 16-byte identifiers laid out back to back from
/// `base`.
pub open spec fn guid_keys_of_bytes(b: Seq<u8>, base: int, n: int) -> Seq<u128> {
    Seq::new(n as nat, |j: int| guid_key_spec(b.subrange(base + 16 * j, base + 16 * j + 16)))
}

/// Whether the chunk directory section's window holds its whole table: the
/// version byte and chunk count, a plausible count, and all six columns.
pub open spec fn chunk_section_parseable(b: Seq<u8>, p: int, e: int) -> bool {
    let we = section_window_end(b, p, e);
    let c = u32_le(b.subrange(p + 5, p + 9)) as int;
    &&& we - (p + 4) >= 5
    &&& c <= MAX_CHUNK_COUNT
    &&& we - (p + 9) >= 57 * c
}

/// The field values chunk `i` of a `c`-chunk column-major table starting at
/// `base` decodes to: its identifier from the identifier column, then its
/// rolling hash, content hash, group, window size and stored size, each
/// from its own column.
pub open spec fn chunk_matches_at(ch: Chunk, b: Seq<u8>, base: int, c: int, i: int) -> bool {
    &&& ch.guid@ == guid_str_spec(b.subrange(base + 16 * i, base + 16 * i + 16))
    &&& ch.hash@ == hex_of(
        u64_bytes_be(u64_le(b.subrange(base + 16 * c + 8 * i, base + 16 * c + 8 * i + 8))),
    )
    &&& ch.sha_hash@ == hex_of(b.subrange(base + 24 * c + 20 * i, base + 24 * c + 20 * i + 20))
    &&& ch.group == b[base + 44 * c + i]
    &&& ch.window_size == u32_le(b.subrange(base + 45 * c + 4 * i, base + 45 * c + 4 * i + 4))
    &&& ch.file_size@ == dec_of(u64_le(b.subrange(base + 49 * c + 8 * i, base + 49 * c + 8 * i + 8)))
}

/// Everything a successful chunk-directory read guarantees of its result,
/// relative to the section's bytes.
pub open spec fn chunk_read_ok_post(l: ChunkDataList, b: Seq<u8>, p: int, e: int) -> bool {
    let base = p + 9;
    let c = u32_le(b.subrange(p + 5, p + 9)) as int;
    &&& section_size_ok(b, p, e)
    &&& chunk_section_parseable(b, p, e)
    &&& l.data_size == u32_le(b.subrange(p, p + 4))
    &&& l.data_version == b[p + 4]
    &&& l.count as int == c
    &&& cdl_wf(l)
    &&& (forall|i: int| 0 <= i < c ==> chunk_matches_at(#[trigger] l.elements@[i], b, base, c, i))
}

/// A successfully decoded directory's lookup is exactly the one the
/// identifier column's bytes build: what the file directory resolves
/// against is a function of the payload alone.
pub proof fn lemma_chunk_lookup_from_bytes(l: ChunkDataList, b: Seq<u8>, p: int, e: int)
    requires
        0 <= p,
        e <= b.len(),
        chunk_read_ok_post(l, b, p, e),
    ensures
        l.chunk_lookup@ == lookup_of(
            guid_keys_of_bytes(b, p + 9, u32_le(b.subrange(p + 5, p + 9)) as int),
        ),
{
    let c = u32_le(b.subrange(p + 5, p + 9)) as int;
    let base = p + 9;
    assert forall|i: int| 0 <= i < c implies keys_of(l.elements@)[i] == guid_keys_of_bytes(
        b,
        base,
        c,
    )[i] by {
        assert(chunk_matches_at(l.elements@[i], b, base, c, i));
        lemma_guid_roundtrip(b.subrange(base + 16 * i, base + 16 * i + 16));
    }
    assert(keys_of(l.elements@) =~= guid_keys_of_bytes(b, base, c));
}

/// Decoding context carried through the column loops: how the ghost
/// aliases relate to the reader the section came from, and the validated
/// framing facts.
pub open spec fn chunk_read_ctx(
    rdr_old: ByteReader,
    rdr_now: ByteReader,
    b: Seq<u8>,
    p: int,
    e: int,
    we: int,
    base: int,
    c: int,
) -> bool {
    &&& b == rdr_old.bytes()
    &&& p == rdr_old.pos_spec()
    &&& e == rdr_old.end_spec()
    &&& rdr_old.wf()
    &&& rdr_now.wf()
    &&& rdr_old.same_window(rdr_now)
    &&& rdr_now.pos_spec() == we
    &&& we == section_window_end(b, p, e)
    &&& we <= e <= b.len()
    &&& section_size_ok(b, p, e)
    &&& we - (p + 4) >= 5
    &&& base == p + 9
    &&& c == u32_le(b.subrange(p + 5, p + 9)) as int
    &&& 0 <= c <= MAX_CHUNK_COUNT
}

impl ChunkDataList {
    /// Decode the chunk directory section at the reader's position:
    /// a `u32` section length, a window capped to it, and inside the window
    /// a version byte, a chunk count, and six columns each running over the
    /// whole count. Succeeds exactly when the declared sizes are plausible
    /// and the window holds the whole table; the reader is left at the
    /// window's end on success.
    pub fn read(rdr: &mut ByteReader) -> (r: Result<ChunkDataList, ManifestError>)
        requires
            old(rdr).wf(),
        ensures
            final(rdr).wf(),
            old(rdr).same_window(*final(rdr)),
            ({
                let b = old(rdr).bytes();
                let p = old(rdr).pos_spec();
                let e = old(rdr).end_spec();
                let we = section_window_end(b, p, e);
                let base = p + 9;
                let ds = u32_le(b.subrange(p, p + 4));
                let cnt = u32_le(b.subrange(p + 5, p + 9));
                &&& (r is Ok <==> section_size_ok(b, p, e) && chunk_section_parseable(b, p, e))
                &&& final(rdr).pos_spec() == (if e - p < 4 {
                    e
                } else if ds == 0 || ds > MAX_SECTION_LEN {
                    p + 4
                } else {
                    we
                })
                &&& match r {
                    Ok(l) => chunk_read_ok_post(l, b, p, e),
                    Err(err) => err == (if e - p < 4 {
                        ManifestError::Io
                    } else if ds == 0 || ds > MAX_SECTION_LEN {
                        ManifestError::Invalid
                    } else if we - (p + 4) < 5 {
                        ManifestError::Io
                    } else if cnt > MAX_CHUNK_COUNT {
                        ManifestError::Invalid
                    } else if we - base < 16 * (cnt as int) {
                        ManifestError::Invalid
                    } else {
                        ManifestError::Io
                    }),
                }
            }),
    {
        let ghost b = old(rdr).bytes();
        let ghost p = old(rdr).pos_spec();
        let ghost e = old(rdr).end_spec();
        let data_size = match rdr.read_u32() {
            Some(v) => v,
            None => {
                return Err(ManifestError::Io);
            },
        };
        if data_size == 0 || data_size > MAX_SECTION_LEN {
            return Err(ManifestError::Invalid);
        }
        let adjusted: u32 = if data_size >= 4 {
            data_size - 4
        } else {
            0
        };
        let mut sub = rdr.take_window(adjusted as usize);
        let ghost we = sub.end_spec();
        assert(we == section_window_end(b, p, e));
        assert(rdr.pos_spec() == we);

        let data_version = match sub.read_u8() {
            Some(v) => v,
            None => {
                return Err(ManifestError::Io);
            },
        };
        let count = match sub.read_u32() {
            Some(v) => v,
            None => {
                return Err(ManifestError::Io);
            },
        };
        if count > MAX_CHUNK_COUNT {
            return Err(ManifestError::Invalid);
        }
        let ghost base = p + 9;
        let ghost c = count as int;

        let mut guids: Vec<String> = Vec::new();
        let mut chunk_lookup: HashMap<u128, u32> = HashMap::new();
        let mut i: u32 = 0;
        while i < count
            invariant
                sub.wf(),
                sub.bytes() == b,
                sub.end_spec() == we,
                chunk_read_ctx(*old(rdr), *rdr, b, p, e, we, base, c),
                c == count as int,
                i <= count,
                sub.pos_spec() == base + 16 * (i as int),
                guids@.len() == i as int,
                forall|j: int|
                    0 <= j < i as int ==> #[trigger] guids@[j]@ == guid_str_spec(
                        b.subrange(base + 16 * j, base + 16 * j + 16),
                    ),
                chunk_lookup@ == lookup_of(guid_keys_of_bytes(b, base, i as int)),
            decreases count - i,
        {
            let gb = sub.read_bytes_tolerant(16);
            if gb.len() < 16 {
                return Err(ManifestError::Invalid);
            }
            let gs = guid_to_string(gb.as_slice());
            let key = guid_key(gb.as_slice());
            chunk_lookup.insert(key, i);
            guids.push(gs);
            proof {
                lemma_lookup_of_push(guid_keys_of_bytes(b, base, i as int), key);
                assert(guid_keys_of_bytes(b, base, i as int + 1) =~= guid_keys_of_bytes(
                    b,
                    base,
                    i as int,
                ).push(key));
            }
            i = i + 1;
        }

        let mut hashes: Vec<String> = Vec::new();
        let mut i: u32 = 0;
        while i < count
            invariant
                sub.wf(),
                sub.bytes() == b,
                sub.end_spec() == we,
                chunk_read_ctx(*old(rdr), *rdr, b, p, e, we, base, c),
                c == count as int,
                i <= count,
                sub.pos_spec() == base + 16 * c + 8 * (i as int),
                hashes@.len() == i as int,
                forall|j: int|
                    0 <= j < i as int ==> #[trigger] hashes@[j]@ == hex_of(
                        u64_bytes_be(
                            u64_le(b.subrange(base + 16 * c + 8 * j, base + 16 * c + 8 * j + 8)),
                        ),
                    ),
            decreases count - i,
        {
            let v = match sub.read_u64() {
                Some(v) => v,
                None => {
                    return Err(ManifestError::Io);
                },
            };
            hashes.push(u64_hex_string(v));
            i = i + 1;
        }

        let mut shas: Vec<String> = Vec::new();
        let mut i: u32 = 0;
        while i < count
            invariant
                sub.wf(),
                sub.bytes() == b,
                sub.end_spec() == we,
                chunk_read_ctx(*old(rdr), *rdr, b, p, e, we, base, c),
                c == count as int,
                i <= count,
                we - base >= 24 * c,
                sub.pos_spec() == if base + 24 * c + 20 * (i as int) <= we {
                    base + 24 * c + 20 * (i as int)
                } else {
                    we
                },
                shas@.len() == i as int,
                forall|j: int|
                    0 <= j < i as int && we >= base + 24 * c + 20 * j + 20
                        ==> #[trigger] shas@[j]@ == hex_of(
                        b.subrange(base + 24 * c + 20 * j, base + 24 * c + 20 * j + 20),
                    ),
            decreases count - i,
        {
            let hb = sub.read_bytes_tolerant(20);
            if hb.len() == 20 {
                shas.push(hex_string(hb.as_slice()));
            } else {
                let mut padded = hb;
                while padded.len() < 20
                    invariant
                        padded@.len() <= 20,
                    decreases 20 - padded@.len(),
                {
                    padded.push(0);
                }
                shas.push(hex_string(padded.as_slice()));
            }
            i = i + 1;
        }

        let mut groups: Vec<u8> = Vec::new();
        let mut i: u32 = 0;
        while i < count
            invariant
                sub.wf(),
                sub.bytes() == b,
                sub.end_spec() == we,
                chunk_read_ctx(*old(rdr), *rdr, b, p, e, we, base, c),
                c == count as int,
                i <= count,
                we - base >= 24 * c,
                (sub.pos_spec() == base + 44 * c + (i as int) && sub.pos_spec() <= we) || (i
                    == 0 && sub.pos_spec() == we && we <= base + 44 * c),
                groups@.len() == i as int,
                forall|j: int|
                    0 <= j < i as int ==> #[trigger] groups@[j] == b[base + 44 * c + j],
            decreases count - i,
        {
            let v = match sub.read_u8() {
                Some(v) => v,
                None => {
                    return Err(ManifestError::Io);
                },
            };
            groups.push(v);
            i = i + 1;
        }

        let mut winsizes: Vec<u32> = Vec::new();
        let mut i: u32 = 0;
        while i < count
            invariant
                sub.wf(),
                sub.bytes() == b,
                sub.end_spec() == we,
                chunk_read_ctx(*old(rdr), *rdr, b, p, e, we, base, c),
                c == count as int,
                i <= count,
                sub.pos_spec() == base + 45 * c + 4 * (i as int),
                sub.pos_spec() <= we,
                winsizes@.len() == i as int,
                forall|j: int|
                    0 <= j < i as int ==> #[trigger] winsizes@[j] == u32_le(
                        b.subrange(base + 45 * c + 4 * j, base + 45 * c + 4 * j + 4),
                    ),
            decreases count - i,
        {
            let v = match sub.read_u32() {
                Some(v) => v,
                None => {
                    return Err(ManifestError::Io);
                },
            };
            winsizes.push(v);
            i = i + 1;
        }

        let mut filesizes: Vec<String> = Vec::new();
        let mut i: u32 = 0;
        while i < count
            invariant
                sub.wf(),
                sub.bytes() == b,
                sub.end_spec() == we,
                chunk_read_ctx(*old(rdr), *rdr, b, p, e, we, base, c),
                c == count as int,
                i <= count,
                sub.pos_spec() == base + 49 * c + 8 * (i as int),
                sub.pos_spec() <= we,
                filesizes@.len() == i as int,
                forall|j: int|
                    0 <= j < i as int ==> #[trigger] filesizes@[j]@ == dec_of(
                        u64_le(b.subrange(base + 49 * c + 8 * j, base + 49 * c + 8 * j + 8)),
                    ),
            decreases count - i,
        {
            let v = match sub.read_u64() {
                Some(v) => v,
                None => {
                    return Err(ManifestError::Io);
                },
            };
            filesizes.push(dec_string(v));
            i = i + 1;
        }
        assert(chunk_section_parseable(b, p, e));

        let mut elements: Vec<Chunk> = Vec::new();
        let mut i: u32 = 0;
        while i < count
            invariant
                chunk_read_ctx(*old(rdr), *rdr, b, p, e, we, base, c),
                count as int == c,
                guids@.len() == c,
                hashes@.len() == c,
                shas@.len() == c,
                groups@.len() == c,
                winsizes@.len() == c,
                filesizes@.len() == c,
                we - base >= 57 * c,
                forall|j: int|
                    0 <= j < c ==> #[trigger] guids@[j]@ == guid_str_spec(
                        b.subrange(base + 16 * j, base + 16 * j + 16),
                    ),
                forall|j: int|
                    0 <= j < c ==> #[trigger] hashes@[j]@ == hex_of(
                        u64_bytes_be(
                            u64_le(b.subrange(base + 16 * c + 8 * j, base + 16 * c + 8 * j + 8)),
                        ),
                    ),
                forall|j: int|
                    0 <= j < c && we >= base + 24 * c + 20 * j + 20 ==> #[trigger] shas@[j]@
                        == hex_of(b.subrange(base + 24 * c + 20 * j, base + 24 * c + 20 * j + 20)),
                forall|j: int| 0 <= j < c ==> #[trigger] groups@[j] == b[base + 44 * c + j],
                forall|j: int|
                    0 <= j < c ==> #[trigger] winsizes@[j] == u32_le(
                        b.subrange(base + 45 * c + 4 * j, base + 45 * c + 4 * j + 4),
                    ),
                forall|j: int|
                    0 <= j < c ==> #[trigger] filesizes@[j]@ == dec_of(
                        u64_le(b.subrange(base + 49 * c + 8 * j, base + 49 * c + 8 * j + 8)),
                    ),
                i <= count,
                elements@.len() == i as int,
                forall|j: int|
                    0 <= j < i as int ==> chunk_matches_at(#[trigger] elements@[j], b, base, c, j),
                forall|j: int|
                    0 <= j < i as int ==> guid_parse_spec(#[trigger] elements@[j].guid@) is Some
                        && chunk_guid_key(elements@[j]) == guid_keys_of_bytes(b, base, c)[j],
            decreases count - i,
        {
            let idx = i as usize;
            let ch = Chunk {
                guid: guids[idx].clone(),
                hash: hashes[idx].clone(),
                sha_hash: shas[idx].clone(),
                group: groups[idx],
                window_size: winsizes[idx],
                file_size: filesizes[idx].clone(),
            };
            proof {
                lemma_guid_roundtrip(b.subrange(base + 16 * (i as int), base + 16 * (i as int) + 16));
                assert(we >= base + 24 * c + 20 * (i as int) + 20);
            }
            elements.push(ch);
            i = i + 1;
        }

        let l = ChunkDataList { data_size, data_version, count, elements, chunk_lookup };
        proof {
            assert(keys_of(l.elements@) =~= guid_keys_of_bytes(b, base, c));
        }
        Ok(l)
    }
}


/// Idempotent directory construction: the keys re-encoded from a
/// well-formed directory's own identifier strings build exactly the
/// lookup the directory already carries.
pub proof fn lemma_directory_rebuild(l: ChunkDataList)
    requires
        cdl_wf(l),
    ensures
        lookup_of(
            Seq::new(
                l.elements@.len(),
                |i: int| guid_key_spec(guid_parse_spec(l.elements@[i].guid@)->Some_0),
            ),
        ) == l.chunk_lookup@,
{
    assert(Seq::new(
        l.elements@.len(),
        |i: int| guid_key_spec(guid_parse_spec(l.elements@[i].guid@)->Some_0),
    ) =~= keys_of(l.elements@));
}

/// Re-encode a well-formed directory's identifier strings and re-resolve
/// them into a fresh lookup: the result is the lookup the directory
/// already carries.
pub fn rebuild_lookup(l: &ChunkDataList) -> (r: HashMap<u128, u32>)
    requires
        cdl_wf(*l),
    ensures
        r@ == l.chunk_lookup@,
{
    let mut rebuilt: HashMap<u128, u32> = HashMap::new();
    let n = l.elements.len();
    let mut i: usize = 0;
    while i < n
        invariant
            cdl_wf(*l),
            n == l.elements@.len(),
            i <= n,
            rebuilt@ == lookup_of(keys_of(l.elements@.take(i as int))),
        decreases n - i,
    {
        let gb = match crate::guid::guid_from_string(l.elements[i].guid.as_str()) {
            Some(v) => v,
            None => {
                proof {
                    assert(guid_parse_spec(l.elements@[i as int].guid@) is Some);
                }
                return rebuilt;
            },
        };
        let key = guid_key(gb.as_slice());
        proof {
            lemma_lookup_of_push(keys_of(l.elements@.take(i as int)), key);
            assert(keys_of(l.elements@.take(i as int + 1)) =~= keys_of(
                l.elements@.take(i as int),
            ).push(chunk_guid_key(l.elements@[i as int])));
            assert(chunk_guid_key(l.elements@[i as int]) == key);
        }
        rebuilt.insert(key, i as u32);
        i = i + 1;
    }
    assert(l.elements@.take(n as int) =~= l.elements@);
    rebuilt
}

/// A reference from a file to a byte range of exactly one chunk.
#[derive(Debug, Clone)]
pub struct ChunkPart {
    pub data_size: u32,
    /// Identifier of the chunk the range lies in, canonical string form.
    pub parent_guid: String,
    /// Offset into the chunk's decompressed window.
    pub offset: u32,
    /// Byte length of this slice.
    pub size: u32,
    /// A value snapshot of the resolved parent chunk — a copy taken at
    /// decode time, never a live reference into the directory.
    pub chunk: Option<Chunk>,
}

/// Whether one fixed 28-byte chunk-part record at `p` decodes and
/// resolves: the window holds the whole record and the lookup knows its
/// parent identifier.
pub open spec fn part_read_ok(b: Seq<u8>, p: int, e: int, lookup: Map<u128, u32>) -> bool {
    e - p >= 28 && lookup.contains_key(guid_key_spec(b.subrange(p + 4, p + 20)))
}

/// Where the reader stands after one chunk-part record read, successful or
/// not: a record cut short consumes what was left, an unresolvable parent
/// stops right after the identifier.
pub open spec fn part_read_end(b: Seq<u8>, p: int, e: int, lookup: Map<u128, u32>) -> int {
    if e - p < 20 {
        e
    } else if !lookup.contains_key(guid_key_spec(b.subrange(p + 4, p + 20))) {
        p + 20
    } else if e - p < 28 {
        e
    } else {
        p + 28
    }
}

impl ChunkPart {
    /// Decode one fixed 28-byte chunk-part record and resolve its parent
    /// against the directory lookup. A record whose parent is absent from
    /// the lookup is invalid.
    pub fn read(
        rdr: &mut ByteReader,
        chunk_lookup: &HashMap<u128, u32>,
        chunks: &[Chunk],
    ) -> (r: Result<ChunkPart, ManifestError>)
        requires
            old(rdr).wf(),
        ensures
            final(rdr).wf(),
            old(rdr).same_window(*final(rdr)),
            ({
                let b = old(rdr).bytes();
                let p = old(rdr).pos_spec();
                let e = old(rdr).end_spec();
                let g = b.subrange(p + 4, p + 20);
                &&& final(rdr).pos_spec() == part_read_end(b, p, e, chunk_lookup@)
                &&& (r is Ok <==> part_read_ok(b, p, e, chunk_lookup@))
                &&& match r {
                    Ok(cp) => {
                        &&& e - p >= 28
                        &&& chunk_lookup@.contains_key(guid_key_spec(g))
                        &&& cp.data_size == u32_le(b.subrange(p, p + 4))
                        &&& cp.parent_guid@ == guid_str_spec(g)
                        &&& cp.offset == u32_le(b.subrange(p + 20, p + 24))
                        &&& cp.size == u32_le(b.subrange(p + 24, p + 28))
                        &&& ({
                            let idx = chunk_lookup@[guid_key_spec(g)];
                            if idx < chunks@.len() {
                                cp.chunk is Some && chunk_eq(cp.chunk->Some_0, chunks@[idx as int])
                            } else {
                                cp.chunk is None
                            }
                        })
                    },
                    Err(err) => {
                        &&& err == if e - p < 4 {
                            ManifestError::Io
                        } else if e - p < 20 {
                            ManifestError::Invalid
                        } else if !chunk_lookup@.contains_key(guid_key_spec(g)) {
                            ManifestError::Invalid
                        } else {
                            ManifestError::Io
                        }
                    },
                }
            }),
    {
        let data_size = match rdr.read_u32() {
            Some(v) => v,
            None => {
                return Err(ManifestError::Io);
            },
        };
        let gb = rdr.read_bytes_tolerant(16);
        if gb.len() < 16 {
            return Err(ManifestError::Invalid);
        }
        let key = guid_key(gb.as_slice());
        let idx: u32 = match chunk_lookup.get(&key) {
            Some(v) => *v,
            None => {
                return Err(ManifestError::Invalid);
            },
        };
        let offset = match rdr.read_u32() {
            Some(v) => v,
            None => {
                return Err(ManifestError::Io);
            },
        };
        let size = match rdr.read_u32() {
            Some(v) => v,
            None => {
                return Err(ManifestError::Io);
            },
        };
        let parent_guid = guid_to_string(gb.as_slice());
        let chunk: Option<Chunk> = if (idx as usize) < chunks.len() {
            Some(chunks[idx as usize].duplicate())
        } else {
            None
        };
        Ok(ChunkPart { data_size, parent_guid, offset, size, chunk })
    }
}

} // verus!
