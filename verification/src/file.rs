//! The file directory: a column-major table of files, each with an ordered
//! list of chunk-part references resolved against the chunk directory.

use vstd::prelude::*;
use crate::chunk::{ChunkDataList, ChunkPart, part_read_ok, part_read_end};
use crate::error::ManifestError;
use crate::guid::{guid_parse_spec, guid_key_spec};
use crate::reader::{ByteReader, u32_le, section_window_end, section_size_ok, spec_fstring_seq,
    lemma_fstring_seq_snoc, lemma_fstring_seq_fail, lemma_fstring_seq_len,
    lemma_fstring_seq_none_mono};

verus! {

/// Files beyond this count are rejected as implausible.
pub const MAX_FILE_COUNT: u32 = 1000000;

/// Sections above this byte length are rejected as implausible.
pub const MAX_SECTION_LEN: u32 = 1073741824;

/// A file with more chunk parts than this keeps none of them.
pub const MAX_FILE_CHUNK_PARTS: u32 = 10000;

/// The meta-flag bits a file can carry.
#[derive(Debug, Clone, Copy, PartialEq, Eq)]
pub enum EFileMetaFlags {
    NoFlags,
    ReadOnly,
    Compressed,
    UnixExecutable,
}

impl EFileMetaFlags {
    /// The bit this flag occupies in the meta-flags byte.
    pub open spec fn mask_spec(self) -> u8 {
        match self {
            EFileMetaFlags::NoFlags => 0,
            EFileMetaFlags::ReadOnly => 1,
            EFileMetaFlags::Compressed => 2,
            EFileMetaFlags::UnixExecutable => 4,
        }
    }

    pub fn mask(self) -> (r: u8)
        ensures
            r == self.mask_spec(),
    {
        match self {
            EFileMetaFlags::NoFlags => 0,
            EFileMetaFlags::ReadOnly => 1,
            EFileMetaFlags::Compressed => 2,
            EFileMetaFlags::UnixExecutable => 4,
        }
    }
}

/// One file, expressed as ordered references into the chunk directory.
#[derive(Debug, Clone)]
pub struct FileManifest {
    /// May carry trailing NUL padding; trimmed only on presentation.
    pub filename: String,
    /// Empty when the file is not a symlink.
    pub symlink_target: String,
    /// 160-bit content hash, hex-encoded.
    pub sha_hash: String,
    /// Tested through the `EFileMetaFlags` masks.
    pub file_meta_flags: u8,
    pub install_tags: Vec<String>,
    pub chunk_parts: Vec<ChunkPart>,
    /// Derived: the sum of the sizes of the decoded chunk parts.
    pub file_size: i64,
    /// Populated only for directory layout versions 2 and above.
    pub mime_type: String,
}

impl FileManifest {
    pub fn is_readonly(&self) -> (r: bool)
        ensures
            r == (self.file_meta_flags & 1 != 0),
    {
        self.file_meta_flags & EFileMetaFlags::ReadOnly.mask() != 0
    }

    pub fn is_compressed(&self) -> (r: bool)
        ensures
            r == (self.file_meta_flags & 2 != 0),
    {
        self.file_meta_flags & EFileMetaFlags::Compressed.mask() != 0
    }

    pub fn is_unix_executable(&self) -> (r: bool)
        ensures
            r == (self.file_meta_flags & 4 != 0),
    {
        self.file_meta_flags & EFileMetaFlags::UnixExecutable.mask() != 0
    }
}

/// The byte total of a sequence of chunk parts.
pub open spec fn sum_part_sizes(parts: Seq<ChunkPart>) -> int
    decreases parts.len(),
{
    if parts.len() == 0 {
        0
    } else {
        sum_part_sizes(parts.drop_last()) + parts.last().size
    }
}

/// A chunk part whose parent identifier is present in the directory lookup.
pub open spec fn part_resolves(cp: ChunkPart, lookup: Map<u128, u32>) -> bool {
    &&& guid_parse_spec(cp.parent_guid@) is Some
    &&& lookup.contains_key(guid_key_spec(guid_parse_spec(cp.parent_guid@)->Some_0))
}

/// What decoding guarantees of every file it returns: the derived size is
/// the sum of its parts' sizes, the part list is within the cap, and every
/// part resolved against the chunk directory lookup.
pub open spec fn file_wf(f: FileManifest, lookup: Map<u128, u32>) -> bool {
    &&& f.file_size as int == sum_part_sizes(f.chunk_parts@)
    &&& (forall|j: int|
        0 <= j < f.chunk_parts@.len() ==> part_resolves(#[trigger] f.chunk_parts@[j], lookup))
}

/// The decoded file directory.
#[derive(Debug, Clone)]
pub struct FileManifestList {
    /// The declared byte length of the table that follows the count.
    pub data_size: u32,
    /// Version of the directory's own layout; 2 and above adds per-file
    /// enrichment, the MIME type among it.
    pub data_version: u8,
    /// Number of files.
    pub count: u32,
    pub file_manifest_list: Vec<FileManifest>,
}

/// What makes a decoded file directory internally consistent against the
/// chunk directory lookup it was resolved with.
pub open spec fn fml_wf(l: FileManifestList, lookup: Map<u128, u32>) -> bool {
    &&& l.file_manifest_list@.len() == l.count as int
    &&& l.data_version <= 2
    &&& (forall|i: int|
        0 <= i < l.file_manifest_list@.len() ==> file_wf(#[trigger] l.file_manifest_list@[i], lookup))
    &&& (l.data_version < 2 ==> forall|i: int|
        0 <= i < l.file_manifest_list@.len() ==> (#[trigger] l.file_manifest_list@[i]).mime_type@
            =~= Seq::<char>::empty())
}

/// Where the file directory section's window ends: the declared length
/// past the nine framing bytes, clamped to `e`.
pub open spec fn file_window_end(b: Seq<u8>, p: int, e: int) -> int {
    let ds = u32_le(b.subrange(p, p + 4)) as int;
    if p + 9 + ds <= e {
        p + 9 + ds
    } else {
        e
    }
}

/// The filename and symlink-target columns decode exactly as the two runs
/// of length-prefixed strings at the start of the window.
pub open spec fn name_cols_ok(
    b: Seq<u8>,
    p: int,
    e: int,
    cnt: u32,
    filenames: Seq<String>,
    symlinks: Seq<String>,
) -> bool {
    let we = file_window_end(b, p, e);
    let names = spec_fstring_seq(b, p + 9, we, cnt as nat);
    &&& filenames.len() == cnt as int
    &&& symlinks.len() == cnt as int
    &&& names is Some
    &&& (forall|j: int| 0 <= j < cnt as int ==> names->Some_0.0[j] == #[trigger] filenames[j]@)
    &&& ({
        let links = spec_fstring_seq(b, names->Some_0.1, we, cnt as nat);
        &&& links is Some
        &&& (forall|j: int| 0 <= j < cnt as int ==> links->Some_0.0[j] == #[trigger] symlinks[j]@)
    })
}

/// A vector of strings holding exactly the given character sequences.
pub open spec fn strings_match(v: Seq<String>, s: Seq<Seq<char>>) -> bool {
    &&& v.len() == s.len()
    &&& (forall|k: int| 0 <= k < v.len() ==> #[trigger] v[k]@ == s[k])
}

/// The install-tag column: `n` length-prefixed string arrays back to back,
/// each a `u32` element count followed by that many length-prefixed
/// strings. The arrays' contents and the position after the last one, or
/// `None` when any read fails.
pub open spec fn spec_tags_seq(b: Seq<u8>, p: int, e: int, n: nat) -> Option<
    (Seq<Seq<Seq<char>>>, int),
>
    decreases n,
{
    if n == 0 {
        Some((Seq::empty(), p))
    } else if e - p < 4 {
        None
    } else {
        match spec_fstring_seq(b, p + 4, e, u32_le(b.subrange(p, p + 4)) as nat) {
            None => None,
            Some(arr) => match spec_tags_seq(b, arr.1, e, (n - 1) as nat) {
                None => None,
                Some(pair) => Some((seq![arr.0] + pair.0, pair.1)),
            },
        }
    }
}

/// A successful `n`-array parse followed by one more successful array is a
/// successful `n + 1`-array parse.
pub proof fn lemma_tags_seq_snoc(b: Seq<u8>, p: int, e: int, n: nat)
    requires
        spec_tags_seq(b, p, e, n) is Some,
        e - spec_tags_seq(b, p, e, n)->Some_0.1 >= 4,
        ({
            let q = spec_tags_seq(b, p, e, n)->Some_0.1;
            spec_fstring_seq(b, q + 4, e, u32_le(b.subrange(q, q + 4)) as nat) is Some
        }),
    ensures
        ({
            let q = spec_tags_seq(b, p, e, n)->Some_0.1;
            let arr = spec_fstring_seq(b, q + 4, e, u32_le(b.subrange(q, q + 4)) as nat)->Some_0;
            spec_tags_seq(b, p, e, n + 1) == Some(
                (spec_tags_seq(b, p, e, n)->Some_0.0 + seq![arr.0], arr.1),
            )
        }),
    decreases n,
{
    let pair = spec_tags_seq(b, p, e, n)->Some_0;
    let q = pair.1;
    let arr = spec_fstring_seq(b, q + 4, e, u32_le(b.subrange(q, q + 4)) as nat)->Some_0;
    if n == 0 {
        assert(q == p);
        assert(spec_tags_seq(b, arr.1, e, 0) == Some((Seq::<Seq<Seq<char>>>::empty(), arr.1)));
        assert(spec_tags_seq(b, p, e, 1) == Some(
            (seq![arr.0] + Seq::<Seq<Seq<char>>>::empty(), arr.1),
        ));
        assert(seq![arr.0] + Seq::<Seq<Seq<char>>>::empty() =~= pair.0 + seq![arr.0]);
    } else {
        let first = spec_fstring_seq(b, p + 4, e, u32_le(b.subrange(p, p + 4)) as nat)->Some_0;
        let rest = spec_tags_seq(b, first.1, e, (n - 1) as nat)->Some_0;
        assert(rest.1 == q);
        lemma_tags_seq_snoc(b, first.1, e, (n - 1) as nat);
        assert(spec_tags_seq(b, first.1, e, n) == Some((rest.0 + seq![arr.0], arr.1)));
        assert(spec_tags_seq(b, p, e, n + 1) == Some(
            (seq![first.0] + (rest.0 + seq![arr.0]), arr.1),
        ));
        assert(seq![first.0] + (rest.0 + seq![arr.0]) =~= pair.0 + seq![arr.0]);
    }
}

/// A failed array read after a successful `i`-array parse fails the whole
/// `n`-array parse, for every `n` beyond `i`.
pub proof fn lemma_tags_seq_fail(b: Seq<u8>, p: int, e: int, i: nat, n: nat)
    requires
        i < n,
        spec_tags_seq(b, p, e, i) is Some,
        ({
            let q = spec_tags_seq(b, p, e, i)->Some_0.1;
            e - q < 4 || spec_fstring_seq(b, q + 4, e, u32_le(b.subrange(q, q + 4)) as nat) is None
        }),
    ensures
        spec_tags_seq(b, p, e, n) is None,
    decreases n,
{
    if i == 0 {
    } else {
        let first = spec_fstring_seq(b, p + 4, e, u32_le(b.subrange(p, p + 4)) as nat)->Some_0;
        lemma_tags_seq_fail(b, first.1, e, (i - 1) as nat, (n - 1) as nat);
    }
}

/// The fields of one fixed 28-byte chunk-part record at `rp`.
pub open spec fn part_matches_at(cp: ChunkPart, b: Seq<u8>, rp: int) -> bool {
    &&& cp.data_size == u32_le(b.subrange(rp, rp + 4))
    &&& cp.parent_guid@ == crate::guid::guid_str_spec(b.subrange(rp + 4, rp + 20))
    &&& cp.offset == u32_le(b.subrange(rp + 20, rp + 24))
    &&& cp.size == u32_le(b.subrange(rp + 24, rp + 28))
}

/// Where a run of up to `n` part records ends: after all of them when each
/// decodes and resolves, else where the first failing record left the
/// cursor.
pub open spec fn parts_chain_end(b: Seq<u8>, p: int, e: int, lookup: Map<u128, u32>, n: nat) -> int
    decreases n,
{
    if n == 0 {
        p
    } else if part_read_ok(b, p, e, lookup) {
        parts_chain_end(b, p + 28, e, lookup, (n - 1) as nat)
    } else {
        part_read_end(b, p, e, lookup)
    }
}

/// How many leading records of a run decode and resolve: the kept parts
/// are exactly this longest prefix.
pub open spec fn parts_kept(b: Seq<u8>, p: int, e: int, lookup: Map<u128, u32>, n: nat) -> int
    decreases n,
{
    if n == 0 {
        0int
    } else if part_read_ok(b, p, e, lookup) {
        1 + parts_kept(b, p + 28, e, lookup, (n - 1) as nat)
    } else {
        0int
    }
}

/// Where one file's whole part block ends, its count field included; an
/// implausible declared count reads no records at all.
pub open spec fn file_parts_end(b: Seq<u8>, q: int, e: int, lookup: Map<u128, u32>) -> int {
    let cnt = u32_le(b.subrange(q, q + 4));
    if cnt > MAX_FILE_CHUNK_PARTS {
        q + 4
    } else {
        parts_chain_end(b, q + 4, e, lookup, cnt as nat)
    }
}

/// Where the part blocks of the first `k` files end.
pub open spec fn parts_pass_end(b: Seq<u8>, q: int, e: int, lookup: Map<u128, u32>, k: nat) -> int
    decreases k,
{
    if k == 0 {
        q
    } else {
        parts_pass_end(b, file_parts_end(b, q, e, lookup), e, lookup, (k - 1) as nat)
    }
}

/// Whether every file's part count is readable — the one failure the part
/// pass does not tolerate.
pub open spec fn parts_pass_ok(b: Seq<u8>, q: int, e: int, lookup: Map<u128, u32>, k: nat) -> bool
    decreases k,
{
    if k == 0 {
        true
    } else {
        e - q >= 4 && parts_pass_ok(b, file_parts_end(b, q, e, lookup), e, lookup, (k - 1) as nat)
    }
}

/// The part pass over one more file starts where the first `k` blocks end.
pub proof fn lemma_parts_pass_snoc(b: Seq<u8>, q: int, e: int, lookup: Map<u128, u32>, k: nat)
    ensures
        parts_pass_end(b, q, e, lookup, k + 1) == file_parts_end(
            b,
            parts_pass_end(b, q, e, lookup, k),
            e,
            lookup,
        ),
        parts_pass_ok(b, q, e, lookup, k + 1) == (parts_pass_ok(b, q, e, lookup, k) && e
            - parts_pass_end(b, q, e, lookup, k) >= 4),
    decreases k,
{
    let q2 = file_parts_end(b, q, e, lookup);
    if k == 0 {
        assert(parts_pass_end(b, q2, e, lookup, 0) == q2);
        assert(parts_pass_ok(b, q2, e, lookup, 0));
        assert(parts_pass_end(b, q, e, lookup, 1) == q2);
        assert(parts_pass_ok(b, q, e, lookup, 1) == (e - q >= 4));
    } else {
        lemma_parts_pass_snoc(b, q2, e, lookup, (k - 1) as nat);
    }
}

/// An unreadable part count after `i` good blocks fails the whole pass.
pub proof fn lemma_parts_pass_fail(b: Seq<u8>, q: int, e: int, lookup: Map<u128, u32>, i: nat, k: nat)
    requires
        i < k,
        parts_pass_ok(b, q, e, lookup, i),
        e - parts_pass_end(b, q, e, lookup, i) < 4,
    ensures
        !parts_pass_ok(b, q, e, lookup, k),
    decreases k,
{
    if i > 0 {
        lemma_parts_pass_fail(b, file_parts_end(b, q, e, lookup), e, lookup, (i - 1) as nat, (k
            - 1) as nat);
    }
}

/// Where the version-2 skip pass stands after the first `k` files: each
/// file contributes a `u32` entry count and a clamped skip of sixteen
/// bytes per entry.
pub open spec fn v2_skips_end(b: Seq<u8>, v: int, e: int, k: nat) -> int
    decreases k,
{
    if k == 0 {
        v
    } else if e - v < 4 {
        e
    } else {
        let sz = u32_le(b.subrange(v, v + 4)) as int;
        let nxt = if v + 4 + 16 * sz <= e {
            v + 4 + 16 * sz
        } else {
            e
        };
        v2_skips_end(b, nxt, e, (k - 1) as nat)
    }
}

/// Whether every skip-pass entry count is readable — the one failure that
/// abandons the enrichment wholesale.
pub open spec fn v2_skips_ok(b: Seq<u8>, v: int, e: int, k: nat) -> bool
    decreases k,
{
    if k == 0 {
        true
    } else {
        e - v >= 4 && ({
            let sz = u32_le(b.subrange(v, v + 4)) as int;
            let nxt = if v + 4 + 16 * sz <= e {
                v + 4 + 16 * sz
            } else {
                e
            };
            v2_skips_ok(b, nxt, e, (k - 1) as nat)
        })
    }
}

/// One more readable skip step extends the pass by one file.
pub proof fn lemma_v2_skips_snoc(b: Seq<u8>, v: int, e: int, k: nat)
    requires
        v2_skips_ok(b, v, e, k),
        e - v2_skips_end(b, v, e, k) >= 4,
    ensures
        v2_skips_ok(b, v, e, k + 1),
        v2_skips_end(b, v, e, k + 1) == ({
            let q = v2_skips_end(b, v, e, k);
            let sz = u32_le(b.subrange(q, q + 4)) as int;
            if q + 4 + 16 * sz <= e {
                q + 4 + 16 * sz
            } else {
                e
            }
        }),
    decreases k,
{
    if k == 0 {
        let q = v;
        let sz = u32_le(b.subrange(q, q + 4)) as int;
        let nxt = if q + 4 + 16 * sz <= e {
            q + 4 + 16 * sz
        } else {
            e
        };
        assert(v2_skips_end(b, nxt, e, 0) == nxt);
        assert(v2_skips_ok(b, nxt, e, 0));
    } else {
        let sz0 = u32_le(b.subrange(v, v + 4)) as int;
        let nxt0 = if v + 4 + 16 * sz0 <= e {
            v + 4 + 16 * sz0
        } else {
            e
        };
        lemma_v2_skips_snoc(b, nxt0, e, (k - 1) as nat);
    }
}

/// An unreadable skip count after `i` good steps fails the whole pass.
pub proof fn lemma_v2_skips_fail(b: Seq<u8>, v: int, e: int, i: nat, k: nat)
    requires
        i < k,
        v2_skips_ok(b, v, e, i),
        e - v2_skips_end(b, v, e, i) < 4,
    ensures
        !v2_skips_ok(b, v, e, k),
    decreases k,
{
    if i > 0 {
        let sz0 = u32_le(b.subrange(v, v + 4)) as int;
        let nxt0 = if v + 4 + 16 * sz0 <= e {
            v + 4 + 16 * sz0
        } else {
            e
        };
        lemma_v2_skips_fail(b, nxt0, e, (i - 1) as nat, (k - 1) as nat);
    }
}

/// The MIME type file `i` keeps when the skip pass succeeded: the string
/// run's value where it reaches, empty from the first failed read onward.
pub open spec fn v2_mime_of(b: Seq<u8>, ms: int, e: int, i: int) -> Seq<char> {
    if spec_fstring_seq(b, ms, e, (i + 1) as nat) is Some {
        spec_fstring_seq(b, ms, e, (i + 1) as nat)->Some_0.0[i]
    } else {
        Seq::empty()
    }
}

/// One decoded file's chunk parts, relative to its part block at `q`: the
/// longest decodable-and-resolvable prefix of the records, each field from
/// its 28-byte record, an implausible declared count keeping none.
pub open spec fn file_parts_match(
    f: FileManifest,
    b: Seq<u8>,
    q: int,
    e: int,
    lookup: Map<u128, u32>,
) -> bool {
    let cnt = u32_le(b.subrange(q, q + 4));
    let kept = if cnt > MAX_FILE_CHUNK_PARTS {
        0int
    } else {
        parts_kept(b, q + 4, e, lookup, cnt as nat)
    };
    &&& f.chunk_parts@.len() == kept
    &&& (forall|j: int|
        0 <= j < kept ==> part_matches_at(#[trigger] f.chunk_parts@[j], b, q + 4 + 28 * j))
}

/// Exactly when a file-directory read succeeds: plausible framing, a
/// recognized layout version, a plausible count, both name-column string
/// runs, the full hash and flag columns, every install-tag array, and
/// every file's part count readable. The version-2 enrichment never fails.
pub open spec fn file_read_ok(b: Seq<u8>, p: int, e: int, lookup: Map<u128, u32>) -> bool {
    let we = file_window_end(b, p, e);
    let cnt = u32_le(b.subrange(p + 5, p + 9));
    let names = spec_fstring_seq(b, p + 9, we, cnt as nat);
    &&& e - p >= 9
    &&& section_size_ok(b, p, e)
    &&& b[p + 4] <= 2
    &&& cnt <= MAX_FILE_COUNT
    &&& names is Some
    &&& ({
        let links = spec_fstring_seq(b, names->Some_0.1, we, cnt as nat);
        &&& links is Some
        &&& ({
            let base2 = links->Some_0.1;
            let tags = spec_tags_seq(b, base2 + 21 * (cnt as int), we, cnt as nat);
            &&& (cnt > 0 ==> we - base2 >= 21 * cnt)
            &&& tags is Some
            &&& parts_pass_ok(b, tags->Some_0.1, we, lookup, cnt as nat)
        })
    })
}

/// How the ghost column positions relate to the window's bytes: the two
/// name runs parse and end where the hash column begins.
pub open spec fn col_ctx(
    b: Seq<u8>,
    p: int,
    e: int,
    we: int,
    cnt: u32,
    q0: int,
    base2: int,
    t0: int,
) -> bool {
    &&& we == file_window_end(b, p, e)
    &&& spec_fstring_seq(b, p + 9, we, cnt as nat) is Some
    &&& q0 == spec_fstring_seq(b, p + 9, we, cnt as nat)->Some_0.1
    &&& spec_fstring_seq(b, q0, we, cnt as nat) is Some
    &&& base2 == spec_fstring_seq(b, q0, we, cnt as nat)->Some_0.1
    &&& t0 == base2 + 21 * (cnt as int)
}

/// Everything a successful file-directory read guarantees of its result,
/// relative to the section's bytes and the lookup it resolved against.
pub open spec fn file_read_ok_post(
    l: FileManifestList,
    b: Seq<u8>,
    p: int,
    e: int,
    lookup: Map<u128, u32>,
) -> bool {
    &&& section_size_ok(b, p, e)
    &&& e - p >= 9
    &&& l.data_size == u32_le(b.subrange(p, p + 4))
    &&& l.data_version == b[p + 4]
    &&& l.count == u32_le(b.subrange(p + 5, p + 9))
    &&& l.count <= MAX_FILE_COUNT
    &&& fml_wf(l, lookup)
    &&& (forall|i: int|
        0 <= i < l.file_manifest_list@.len() ==> (#[trigger] l.file_manifest_list@[i]).chunk_parts@.len()
            <= MAX_FILE_CHUNK_PARTS)
    &&& name_cols_ok(
        b,
        p,
        e,
        l.count,
        Seq::new(l.file_manifest_list@.len(), |i: int| l.file_manifest_list@[i].filename),
        Seq::new(l.file_manifest_list@.len(), |i: int| l.file_manifest_list@[i].symlink_target),
    )
    &&& ({
        let we = file_window_end(b, p, e);
        let cnt = u32_le(b.subrange(p + 5, p + 9));
        let names = spec_fstring_seq(b, p + 9, we, cnt as nat);
        let base2 = spec_fstring_seq(b, names->Some_0.1, we, cnt as nat)->Some_0.1;
        let tags = spec_tags_seq(b, base2 + 21 * (cnt as int), we, cnt as nat);
        &&& (cnt > 0 ==> we - base2 >= 21 * cnt)
        &&& (forall|i: int|
            0 <= i < l.file_manifest_list@.len() ==> (#[trigger] l.file_manifest_list@[i]).sha_hash@
                == crate::hexstr::hex_of(b.subrange(base2 + 20 * i, base2 + 20 * i + 20)))
        &&& (forall|i: int|
            0 <= i < l.file_manifest_list@.len()
                ==> (#[trigger] l.file_manifest_list@[i]).file_meta_flags == b[base2 + 20 * (
            cnt as int) + i])
        &&& tags is Some
        &&& (forall|i: int|
            0 <= i < l.file_manifest_list@.len() ==> strings_match(
                (#[trigger] l.file_manifest_list@[i]).install_tags@,
                tags->Some_0.0[i],
            ))
        &&& ({
            let q0p = tags->Some_0.1;
            &&& parts_pass_ok(b, q0p, we, lookup, cnt as nat)
            &&& (forall|i: int|
                0 <= i < l.file_manifest_list@.len() ==> file_parts_match(
                    #[trigger] l.file_manifest_list@[i],
                    b,
                    parts_pass_end(b, q0p, we, lookup, i as nat),
                    we,
                    lookup,
                ))
            &&& (b[p + 4] >= 2 ==> ({
                let v0 = parts_pass_end(b, q0p, we, lookup, cnt as nat);
                if v2_skips_ok(b, v0, we, cnt as nat) {
                    let ms = v2_skips_end(b, v0, we, cnt as nat);
                    forall|i: int|
                        0 <= i < l.file_manifest_list@.len()
                            ==> (#[trigger] l.file_manifest_list@[i]).mime_type@ == v2_mime_of(
                            b,
                            ms,
                            we,
                            i,
                        )
                } else {
                    forall|i: int|
                        0 <= i < l.file_manifest_list@.len()
                            ==> (#[trigger] l.file_manifest_list@[i]).mime_type@ =~= Seq::<
                            char,
                        >::empty()
                }
            }))
        })
    })
}

/// Decoding context carried through the loops: how the ghost aliases relate
/// to the reader the section came from, and the validated framing fields.
pub open spec fn file_read_ctx(
    rdr_old: ByteReader,
    rdr_now: ByteReader,
    b: Seq<u8>,
    p: int,
    e: int,
    ds: u32,
    dv: u8,
    cnt: u32,
) -> bool {
    &&& b == rdr_old.bytes()
    &&& p == rdr_old.pos_spec()
    &&& e == rdr_old.end_spec()
    &&& rdr_old.wf()
    &&& rdr_now.wf()
    &&& rdr_old.same_window(rdr_now)
    &&& rdr_now.pos_spec() == file_window_end(b, p, e)
    &&& section_size_ok(b, p, e)
    &&& e - p >= 9
    &&& ds == u32_le(b.subrange(p, p + 4))
    &&& dv == b[p + 4]
    &&& dv <= 2
    &&& cnt == u32_le(b.subrange(p + 5, p + 9))
    &&& cnt <= MAX_FILE_COUNT
}

/// Read one file's chunk-part block: its `u32` part count, then — when the
/// count is plausible — its records, keeping the longest prefix that
/// decodes and resolves against the directory. Fails only when the count
/// itself is unreadable.
#[verifier::rlimit(100)]
fn read_file_parts(sub: &mut ByteReader, chunk_list: &ChunkDataList) -> (r: Option<
    (Vec<ChunkPart>, i64),
>)
    requires
        old(sub).wf(),
    ensures
        final(sub).wf(),
        old(sub).same_window(*final(sub)),
        ({
            let b = old(sub).bytes();
            let qf = old(sub).pos_spec();
            let we = old(sub).end_spec();
            let lookup = chunk_list.chunk_lookup@;
            let cnt = u32_le(b.subrange(qf, qf + 4));
            match r {
                Some(pair) => {
                    let parts = pair.0;
                    let sum = pair.1;
                    &&& we - qf >= 4
                    &&& final(sub).pos_spec() == file_parts_end(b, qf, we, lookup)
                    &&& parts@.len() == (if cnt > MAX_FILE_CHUNK_PARTS {
                        0int
                    } else {
                        parts_kept(b, qf + 4, we, lookup, cnt as nat)
                    })
                    &&& parts@.len() <= MAX_FILE_CHUNK_PARTS
                    &&& (forall|k: int|
                        0 <= k < parts@.len() ==> part_resolves(#[trigger] parts@[k], lookup))
                    &&& (forall|k: int|
                        0 <= k < parts@.len() ==> part_matches_at(
                            #[trigger] parts@[k],
                            b,
                            qf + 4 + 28 * k,
                        ))
                    &&& sum as int == sum_part_sizes(parts@)
                    &&& 0 <= sum as int <= parts@.len() * 0xFFFFFFFF
                },
                None => we - qf < 4 && final(sub).pos_spec() == we,
            }
        }),
{
    let ghost b = old(sub).bytes();
    let ghost we = old(sub).end_spec();
    let ghost qf = old(sub).pos_spec();
    let ghost lookup = chunk_list.chunk_lookup@;
    let chunk_count = match sub.read_u32() {
        Some(v) => v,
        None => {
            return None;
        },
    };
    let ghost pcnt = chunk_count as nat;
    let mut parts: Vec<ChunkPart> = Vec::new();
    let mut size_sum: i64 = 0;
    if chunk_count <= MAX_FILE_CHUNK_PARTS {
        let mut failed = false;
        let mut j: u32 = 0;
        while j < chunk_count && !failed
            invariant
                sub.wf(),
                sub.bytes() == b,
                sub.end_spec() == we,
                lookup == chunk_list.chunk_lookup@,
                j <= chunk_count,
                chunk_count <= MAX_FILE_CHUNK_PARTS,
                pcnt == chunk_count as nat,
                parts@.len() <= j as int,
                !failed ==> {
                    &&& parts@.len() == j as int
                    &&& sub.pos_spec() == qf + 4 + 28 * (j as int)
                    &&& parts_chain_end(b, qf + 4, we, lookup, pcnt) == parts_chain_end(
                        b,
                        sub.pos_spec(),
                        we,
                        lookup,
                        (chunk_count - j) as nat,
                    )
                    &&& parts_kept(b, qf + 4, we, lookup, pcnt) == j as int + parts_kept(
                        b,
                        sub.pos_spec(),
                        we,
                        lookup,
                        (chunk_count - j) as nat,
                    )
                },
                failed ==> sub.pos_spec() == parts_chain_end(b, qf + 4, we, lookup, pcnt)
                    && parts@.len() == parts_kept(b, qf + 4, we, lookup, pcnt),
                size_sum as int == sum_part_sizes(parts@),
                0 <= size_sum as int <= parts@.len() * 0xFFFFFFFF,
                forall|k: int|
                    0 <= k < parts@.len() ==> part_resolves(#[trigger] parts@[k], lookup),
                forall|k: int|
                    0 <= k < parts@.len() ==> part_matches_at(
                        #[trigger] parts@[k],
                        b,
                        qf + 4 + 28 * k,
                    ),
            decreases chunk_count - j + (if failed {
                0int
            } else {
                1int
            }),
        {
            let ghost parts_prev = parts@;
            let ghost posb = sub.pos_spec();
            match ChunkPart::read(sub, &chunk_list.chunk_lookup, chunk_list.elements.as_slice())
            {
                Ok(cp) => {
                    proof {
                        crate::guid::lemma_guid_roundtrip(b.subrange(posb + 4, posb + 20));
                        assert(parts_prev.push(cp).drop_last() =~= parts_prev);
                        assert(parts_chain_end(b, posb, we, lookup, (chunk_count - j) as nat)
                            == parts_chain_end(
                            b,
                            posb + 28,
                            we,
                            lookup,
                            (chunk_count - j - 1) as nat,
                        ));
                        assert(parts_kept(b, posb, we, lookup, (chunk_count - j) as nat) == 1
                            + parts_kept(b, posb + 28, we, lookup, (chunk_count - j - 1) as nat));
                    }
                    size_sum = size_sum + cp.size as i64;
                    parts.push(cp);
                    j = j + 1;
                },
                Err(_) => {
                    proof {
                        assert(parts_chain_end(b, posb, we, lookup, (chunk_count - j) as nat)
                            == part_read_end(b, posb, we, lookup));
                        assert(parts_kept(b, posb, we, lookup, (chunk_count - j) as nat) == 0);
                    }
                    failed = true;
                },
            }
        }
        proof {
            if !failed {
                assert(parts_chain_end(b, sub.pos_spec(), we, lookup, 0) == sub.pos_spec());
                assert(parts_kept(b, sub.pos_spec(), we, lookup, 0) == 0);
            }
            assert(sub.pos_spec() == parts_chain_end(b, qf + 4, we, lookup, pcnt));
            assert(parts@.len() == parts_kept(b, qf + 4, we, lookup, pcnt));
        }
    }
    Some((parts, size_sum))
}

impl FileManifestList {
    /// Decode the file directory section at the reader's position: declared
    /// length, layout version (0 to 2), file count, then inside a window
    /// capped to the declared length the fixed columns, per-file chunk-part
    /// lists resolved against `chunk_list`, and the version-2 enrichment.
    /// A file with an implausible part count keeps no parts; a part that
    /// fails to resolve truncates that file's part list and the rest is
    /// kept; a short window inside the version-2 enrichment truncates only
    /// the enrichment.
    #[verifier::rlimit(100)]
    pub fn read(rdr: &mut ByteReader, chunk_list: &ChunkDataList) -> (r: Result<
        FileManifestList,
        ManifestError,
    >)
        requires
            old(rdr).wf(),
        ensures
            final(rdr).wf(),
            old(rdr).same_window(*final(rdr)),
            ({
                let b = old(rdr).bytes();
                let p = old(rdr).pos_spec();
                let e = old(rdr).end_spec();
                &&& (r is Ok <==> file_read_ok(b, p, e, chunk_list.chunk_lookup@))
                &&& final(rdr).pos_spec() == (if e - p < 4 {
                    e
                } else if !section_size_ok(b, p, e) {
                    p + 4
                } else if e - p < 5 {
                    e
                } else if b[p + 4] > 2 {
                    p + 5
                } else if e - p < 9 {
                    e
                } else {
                    file_window_end(b, p, e)
                })
                &&& match r {
                    Ok(l) => file_read_ok_post(l, b, p, e, chunk_list.chunk_lookup@),
                    Err(err) => err == if e - p < 4 {
                        ManifestError::Io
                    } else if !section_size_ok(b, p, e) {
                        ManifestError::Invalid
                    } else if e - p < 5 {
                        ManifestError::Io
                    } else if b[p + 4] > 2 {
                        ManifestError::Invalid
                    } else if e - p < 9 {
                        ManifestError::Io
                    } else if u32_le(b.subrange(p + 5, p + 9)) > MAX_FILE_COUNT {
                        ManifestError::Invalid
                    } else {
                        ManifestError::Io
                    },
                }
            }),
    {
        let ghost b = old(rdr).bytes();
        let ghost p = old(rdr).pos_spec();
        let ghost e = old(rdr).end_spec();
        let ghost lookup = chunk_list.chunk_lookup@;
        let data_size = match rdr.read_u32() {
            Some(v) => v,
            None => {
                return Err(ManifestError::Io);
            },
        };
        if data_size == 0 || data_size > MAX_SECTION_LEN {
            return Err(ManifestError::Invalid);
        }
        let data_version = match rdr.read_u8() {
            Some(v) => v,
            None => {
                return Err(ManifestError::Io);
            },
        };
        if data_version > 2 {
            return Err(ManifestError::Invalid);
        }
        let count = match rdr.read_u32() {
            Some(v) => v,
            None => {
                return Err(ManifestError::Io);
            },
        };
        let mut sub = rdr.take_window(data_size as usize);
        let ghost we = sub.end_spec();
        if count > MAX_FILE_COUNT {
            return Err(ManifestError::Invalid);
        }
        assert(we == file_window_end(b, p, e));
        assert(sub.pos_spec() == p + 9);

        let mut filenames: Vec<String> = Vec::new();
        let mut i: u32 = 0;
        while i < count
            invariant
                sub.wf(),
                sub.bytes() == b,
                sub.end_spec() == we,
                we == file_window_end(b, p, e),
                file_read_ctx(*old(rdr), *rdr, b, p, e, data_size, data_version, count),
                i <= count,
                filenames@.len() == i as int,
                spec_fstring_seq(b, p + 9, we, i as nat) is Some,
                spec_fstring_seq(b, p + 9, we, i as nat)->Some_0.1 == sub.pos_spec(),
                spec_fstring_seq(b, p + 9, we, i as nat)->Some_0.0.len() == i as int,
                forall|j: int|
                    0 <= j < i as int ==> spec_fstring_seq(b, p + 9, we, i as nat)->Some_0.0[j]
                        == #[trigger] filenames@[j]@,
            decreases count - i,
        {
            let ghost prev = spec_fstring_seq(b, p + 9, we, i as nat)->Some_0;
            match sub.read_fstring() {
                Some(s) => {
                    proof {
                        lemma_fstring_seq_snoc(b, p + 9, we, i as nat);
                    }
                    let ghost fn_prev = filenames@;
                    filenames.push(s);
                    proof {
                        assert forall|j: int|
                            0 <= j < i as int + 1 implies spec_fstring_seq(
                            b,
                            p + 9,
                            we,
                            (i + 1) as nat,
                        )->Some_0.0[j] == #[trigger] filenames@[j]@ by {
                            assert(spec_fstring_seq(b, p + 9, we, (i + 1) as nat)->Some_0.0
                                == prev.0 + seq![s@]);
                            if j < i as int {
                                assert(filenames@[j] == fn_prev[j]);
                                assert((prev.0 + seq![s@])[j] == prev.0[j]);
                            } else {
                                assert(filenames@[j] == s);
                                assert((prev.0 + seq![s@])[j] == s@);
                            }
                        }
                    }
                },
                None => {
                    proof {
                        lemma_fstring_seq_fail(b, p + 9, we, i as nat, count as nat);
                    }
                    return Err(ManifestError::Io);
                },
            }
            i = i + 1;
        }
        let ghost names = spec_fstring_seq(b, p + 9, we, count as nat);
        let ghost q0 = names->Some_0.1;
        assert(q0 == sub.pos_spec());

        let mut symlinks: Vec<String> = Vec::new();
        let mut i: u32 = 0;
        while i < count
            invariant
                sub.wf(),
                sub.bytes() == b,
                sub.end_spec() == we,
                we == file_window_end(b, p, e),
                file_read_ctx(*old(rdr), *rdr, b, p, e, data_size, data_version, count),
                i <= count,
                symlinks@.len() == i as int,
                filenames@.len() == count as int,
                names == spec_fstring_seq(b, p + 9, we, count as nat),
                names is Some,
                names->Some_0.0.len() == count as int,
                forall|j: int|
                    0 <= j < count as int ==> names->Some_0.0[j] == #[trigger] filenames@[j]@,
                q0 == names->Some_0.1,
                spec_fstring_seq(b, q0, we, i as nat) is Some,
                spec_fstring_seq(b, q0, we, i as nat)->Some_0.1 == sub.pos_spec(),
                spec_fstring_seq(b, q0, we, i as nat)->Some_0.0.len() == i as int,
                forall|j: int|
                    0 <= j < i as int ==> spec_fstring_seq(b, q0, we, i as nat)->Some_0.0[j]
                        == #[trigger] symlinks@[j]@,
            decreases count - i,
        {
            let ghost prev = spec_fstring_seq(b, q0, we, i as nat)->Some_0;
            match sub.read_fstring() {
                Some(s) => {
                    proof {
                        lemma_fstring_seq_snoc(b, q0, we, i as nat);
                    }
                    let ghost sl_prev = symlinks@;
                    symlinks.push(s);
                    proof {
                        assert forall|j: int|
                            0 <= j < i as int + 1 implies spec_fstring_seq(
                            b,
                            q0,
                            we,
                            (i + 1) as nat,
                        )->Some_0.0[j] == #[trigger] symlinks@[j]@ by {
                            assert(spec_fstring_seq(b, q0, we, (i + 1) as nat)->Some_0.0 == prev.0
                                + seq![s@]);
                            if j < i as int {
                                assert(symlinks@[j] == sl_prev[j]);
                                assert((prev.0 + seq![s@])[j] == prev.0[j]);
                            } else {
                                assert(symlinks@[j] == s);
                                assert((prev.0 + seq![s@])[j] == s@);
                            }
                        }
                    }
                },
                None => {
                    proof {
                        lemma_fstring_seq_fail(b, q0, we, i as nat, count as nat);
                    }
                    return Err(ManifestError::Io);
                },
            }
            i = i + 1;
        }
        assert(name_cols_ok(b, p, e, count, filenames@, symlinks@));
        let ghost base2 = spec_fstring_seq(b, q0, we, count as nat)->Some_0.1;
        let ghost t0 = base2 + 21 * (count as int);
        assert(base2 == sub.pos_spec());
        assert(col_ctx(b, p, e, we, count, q0, base2, t0));

        let mut shas: Vec<String> = Vec::new();
        let mut i: u32 = 0;
        while i < count
            invariant
                sub.wf(),
                sub.bytes() == b,
                sub.end_spec() == we,
                file_read_ctx(*old(rdr), *rdr, b, p, e, data_size, data_version, count),
                i <= count,
                shas@.len() == i as int,
                col_ctx(b, p, e, we, count, q0, base2, t0),
                0 <= base2 <= we,
                sub.pos_spec() == if base2 + 20 * (i as int) <= we {
                    base2 + 20 * (i as int)
                } else {
                    we
                },
                forall|j: int|
                    0 <= j < i as int && we >= base2 + 20 * j + 20 ==> #[trigger] shas@[j]@
                        == crate::hexstr::hex_of(b.subrange(base2 + 20 * j, base2 + 20 * j + 20)),
            decreases count - i,
        {
            let hb = sub.read_bytes_tolerant(20);
            if hb.len() == 20 {
                shas.push(crate::hexstr::hex_string(hb.as_slice()));
            } else {
                let mut padded = hb;
                while padded.len() < 20
                    invariant
                        padded@.len() <= 20,
                    decreases 20 - padded@.len(),
                {
                    padded.push(0);
                }
                shas.push(crate::hexstr::hex_string(padded.as_slice()));
            }
            i = i + 1;
        }

        let mut flags: Vec<u8> = Vec::new();
        let mut i: u32 = 0;
        while i < count
            invariant
                sub.wf(),
                sub.bytes() == b,
                sub.end_spec() == we,
                file_read_ctx(*old(rdr), *rdr, b, p, e, data_size, data_version, count),
                i <= count,
                flags@.len() == i as int,
                col_ctx(b, p, e, we, count, q0, base2, t0),
                0 <= base2 <= we,
                (sub.pos_spec() == base2 + 20 * (count as int) + i as int && sub.pos_spec() <= we)
                    || (i == 0 && sub.pos_spec() == we && we <= base2 + 20 * (count as int)),
                forall|j: int|
                    0 <= j < i as int ==> #[trigger] flags@[j] == b[base2 + 20 * (count as int)
                        + j],
            decreases count - i,
        {
            match sub.read_u8() {
                Some(v) => {
                    flags.push(v);
                },
                None => {
                    proof {
                        assert(count > 0);
                        assert(we - base2 < 21 * (count as int));
                    }
                    return Err(ManifestError::Io);
                },
            }
            i = i + 1;
        }
        assert(count > 0 ==> we - base2 >= 21 * (count as int));
        assert(forall|j: int|
            0 <= j < count as int ==> #[trigger] shas@[j]@ == crate::hexstr::hex_of(
                b.subrange(base2 + 20 * j, base2 + 20 * j + 20),
            ));
        assert(t0 == sub.pos_spec());

        let mut tags: Vec<Vec<String>> = Vec::new();
        let mut i: u32 = 0;
        while i < count
            invariant
                sub.wf(),
                sub.bytes() == b,
                sub.end_spec() == we,
                file_read_ctx(*old(rdr), *rdr, b, p, e, data_size, data_version, count),
                i <= count,
                tags@.len() == i as int,
                col_ctx(b, p, e, we, count, q0, base2, t0),
                spec_tags_seq(b, t0, we, i as nat) is Some,
                spec_tags_seq(b, t0, we, i as nat)->Some_0.1 == sub.pos_spec(),
                spec_tags_seq(b, t0, we, i as nat)->Some_0.0.len() == i as int,
                forall|j: int|
                    0 <= j < i as int ==> strings_match(
                        (#[trigger] tags@[j])@,
                        spec_tags_seq(b, t0, we, i as nat)->Some_0.0[j],
                    ),
            decreases count - i,
        {
            let ghost prev = spec_tags_seq(b, t0, we, i as nat)->Some_0;
            let ghost q = sub.pos_spec();
            match sub.read_fstring_array() {
                Some(v) => {
                    let ghost arrn = u32_le(b.subrange(q, q + 4)) as nat;
                    proof {
                        lemma_fstring_seq_len(b, q + 4, we, arrn);
                        lemma_tags_seq_snoc(b, t0, we, i as nat);
                    }
                    let ghost tags_prev = tags@;
                    let ghost vview = v@;
                    tags.push(v);
                    proof {
                        let newvals = spec_tags_seq(b, t0, we, (i + 1) as nat)->Some_0.0;
                        let arrvals = spec_fstring_seq(b, q + 4, we, arrn)->Some_0.0;
                        assert(newvals == prev.0 + seq![arrvals]);
                        assert forall|j: int| 0 <= j < i as int + 1 implies strings_match(
                            (#[trigger] tags@[j])@,
                            newvals[j],
                        ) by {
                            if j < i as int {
                                assert(tags@[j] == tags_prev[j]);
                                assert(newvals[j] == prev.0[j]);
                            } else {
                                assert(tags@ == tags_prev.push(tags@.last()));
                                assert(tags@[j] == tags@.last());
                                assert(tags@.last()@ == vview);
                                assert(newvals[j] == arrvals);
                                assert(vview.len() == arrvals.len());
                                assert(forall|k: int|
                                    0 <= k < vview.len() ==> #[trigger] vview[k]@ == arrvals[k]);
                            }
                        }
                    }
                },
                None => {
                    proof {
                        lemma_tags_seq_fail(b, t0, we, i as nat, count as nat);
                        assert(spec_tags_seq(b, base2 + 21 * (count as int), we, count as nat) is None);
                    }
                    return Err(ManifestError::Io);
                },
            }
            i = i + 1;
        }
        let ghost tagvals = spec_tags_seq(b, t0, we, count as nat);
        let ghost q0p = tagvals->Some_0.1;
        assert(q0p == sub.pos_spec());

        let mut files: Vec<FileManifest> = Vec::new();
        let mut i: u32 = 0;
        while i < count
            invariant
                sub.wf(),
                sub.bytes() == b,
                sub.end_spec() == we,
                file_read_ctx(*old(rdr), *rdr, b, p, e, data_size, data_version, count),
                lookup == chunk_list.chunk_lookup@,
                i <= count,
                col_ctx(b, p, e, we, count, q0, base2, t0),
                tagvals == spec_tags_seq(b, t0, we, count as nat),
                tagvals is Some,
                q0p == tagvals->Some_0.1,
                count as int == filenames@.len() == symlinks@.len() == shas@.len() == flags@.len()
                    == tags@.len(),
                forall|j: int|
                    0 <= j < count as int ==> strings_match(
                        (#[trigger] tags@[j])@,
                        tagvals->Some_0.0[j],
                    ),
                files@.len() == i as int,
                sub.pos_spec() == parts_pass_end(b, q0p, we, lookup, i as nat),
                parts_pass_ok(b, q0p, we, lookup, i as nat),
                forall|k: int| 0 <= k < i as int ==> file_wf(#[trigger] files@[k], lookup),
                forall|k: int|
                    0 <= k < i as int ==> (#[trigger] files@[k]).chunk_parts@.len()
                        <= MAX_FILE_CHUNK_PARTS,
                forall|k: int|
                    0 <= k < i as int ==> (#[trigger] files@[k]).mime_type@ =~= Seq::<
                        char,
                    >::empty(),
                forall|k: int|
                    0 <= k < i as int ==> (#[trigger] files@[k]).filename@ == filenames@[k]@
                        && files@[k].symlink_target@ == symlinks@[k]@ && files@[k].sha_hash@
                        == shas@[k]@ && files@[k].file_meta_flags == flags@[k],
                forall|k: int|
                    0 <= k < i as int ==> strings_match(
                        (#[trigger] files@[k]).install_tags@,
                        tagvals->Some_0.0[k],
                    ),
                forall|k: int|
                    0 <= k < i as int ==> file_parts_match(
                        #[trigger] files@[k],
                        b,
                        parts_pass_end(b, q0p, we, lookup, k as nat),
                        we,
                        lookup,
                    ),
            decreases count - i,
        {
            let idx = i as usize;
            let ghost qf = sub.pos_spec();
            let (parts, size_sum) = match read_file_parts(&mut sub, chunk_list) {
                Some(pair) => pair,
                None => {
                    proof {
                        lemma_parts_pass_fail(b, q0p, we, lookup, i as nat, count as nat);
                    }
                    return Err(ManifestError::Io);
                },
            };
            proof {
                assert(qf == parts_pass_end(b, q0p, we, lookup, i as nat));
                assert(sub.pos_spec() == file_parts_end(b, qf, we, lookup));
                lemma_parts_pass_snoc(b, q0p, we, lookup, i as nat);
            }
            files.push(
                FileManifest {
                    filename: filenames[idx].clone(),
                    symlink_target: symlinks[idx].clone(),
                    sha_hash: shas[idx].clone(),
                    file_meta_flags: flags[idx],
                    install_tags: tags[idx].clone(),
                    chunk_parts: parts,
                    file_size: size_sum,
                    mime_type: String::new(),
                },
            );
            proof {
                let nf2 = files@[i as int];
                assert(strings_match(nf2.install_tags@, tagvals->Some_0.0[i as int])) by {
                    assert(strings_match(tags@[i as int]@, tagvals->Some_0.0[i as int]));
                    assert forall|k: int|
                        0 <= k < nf2.install_tags@.len() implies #[trigger] nf2.install_tags@[k]@
                        == tags@[i as int]@[k]@ by {
                        assert(vstd::pervasive::cloned::<String>(
                            tags@[i as int]@[k],
                            nf2.install_tags@[k],
                        ));
                    }
                }
                assert(file_parts_match(nf2, b, qf, we, lookup));
            }
            i = i + 1;
        }

        if data_version >= 2 {
            let ghost v0 = sub.pos_spec();
            assert(v0 == parts_pass_end(b, q0p, we, lookup, count as nat));
            let mut skip_ok = true;
            let mut i: u32 = 0;
            while i < count && skip_ok
                invariant
                    sub.wf(),
                    sub.bytes() == b,
                    sub.end_spec() == we,
                    file_read_ctx(*old(rdr), *rdr, b, p, e, data_size, data_version, count),
                    i <= count,
                    skip_ok ==> sub.pos_spec() == v2_skips_end(b, v0, we, i as nat)
                        && v2_skips_ok(b, v0, we, i as nat),
                    !skip_ok ==> !v2_skips_ok(b, v0, we, count as nat),
                decreases count - i + (if skip_ok {
                    1int
                } else {
                    0int
                }),
            {
                match sub.read_u32() {
                    Some(array_size) => {
                        proof {
                            lemma_v2_skips_snoc(b, v0, we, i as nat);
                        }
                        sub.skip_long((array_size as u64) * 16);
                        i = i + 1;
                    },
                    None => {
                        proof {
                            lemma_v2_skips_fail(b, v0, we, i as nat, count as nat);
                        }
                        skip_ok = false;
                    },
                }
            }
            if skip_ok {
                assert(v2_skips_ok(b, v0, we, count as nat));
                let ghost ms = sub.pos_spec();
                assert(ms == v2_skips_end(b, v0, we, count as nat));
                let mut mimes: Vec<String> = Vec::new();
                let mut mime_fail = false;
                let mut i: u32 = 0;
                while i < count
                    invariant
                        sub.wf(),
                        sub.bytes() == b,
                        sub.end_spec() == we,
                        file_read_ctx(*old(rdr), *rdr, b, p, e, data_size, data_version, count),
                        lookup == chunk_list.chunk_lookup@,
                        i <= count,
                        mimes@.len() == i as int,
                        files@.len() == count as int,
                        forall|k: int| 0 <= k < files@.len() ==> file_wf(#[trigger] files@[k], lookup),
                        !mime_fail ==> spec_fstring_seq(b, ms, we, i as nat) is Some
                            && spec_fstring_seq(b, ms, we, i as nat)->Some_0.1 == sub.pos_spec(),
                        mime_fail ==> spec_fstring_seq(b, ms, we, (i + 1) as nat) is None,
                        forall|j: int|
                            0 <= j < i as int ==> #[trigger] mimes@[j]@ == v2_mime_of(b, ms, we, j),
                    decreases count - i,
                {
                    if mime_fail {
                        proof {
                            lemma_fstring_seq_none_mono(b, ms, we, (i + 1) as nat);
                        }
                        mimes.push(String::new());
                    } else {
                        let ghost prev = spec_fstring_seq(b, ms, we, i as nat)->Some_0;
                        match sub.read_fstring() {
                            Some(m) => {
                                proof {
                                    lemma_fstring_seq_len(b, ms, we, i as nat);
                                    lemma_fstring_seq_snoc(b, ms, we, i as nat);
                                }
                                mimes.push(m);
                            },
                            None => {
                                proof {
                                    lemma_fstring_seq_fail(b, ms, we, i as nat, (i + 1) as nat);
                                    lemma_fstring_seq_none_mono(b, ms, we, (i + 1) as nat);
                                }
                                mime_fail = true;
                                mimes.push(String::new());
                            },
                        }
                    }
                    i = i + 1;
                }
                let mut enriched: Vec<FileManifest> = Vec::new();
                let mut i: u32 = 0;
                while i < count
                    invariant
                        file_read_ctx(*old(rdr), *rdr, b, p, e, data_size, data_version, count),
                        lookup == chunk_list.chunk_lookup@,
                        i <= count,
                        count as int == mimes@.len(),
                        files@.len() == count as int - i as int,
                        enriched@.len() == i as int,
                        forall|k: int| 0 <= k < files@.len() ==> file_wf(#[trigger] files@[k], lookup),
                        forall|k: int|
                            0 <= k < files@.len() ==> (#[trigger] files@[k]).chunk_parts@.len()
                                <= MAX_FILE_CHUNK_PARTS,
                        forall|k: int|
                            0 <= k < files@.len() ==> (#[trigger] files@[k]).filename@
                                == filenames@[k + i as int]@ && files@[k].symlink_target@
                                == symlinks@[k + i as int]@ && files@[k].sha_hash@ == shas@[k
                                + i as int]@ && files@[k].file_meta_flags == flags@[k
                                + i as int],
                        forall|k: int|
                            0 <= k < files@.len() ==> strings_match(
                                (#[trigger] files@[k]).install_tags@,
                                tagvals->Some_0.0[k + i as int],
                            ),
                        forall|k: int|
                            0 <= k < files@.len() ==> file_parts_match(
                                #[trigger] files@[k],
                                b,
                                parts_pass_end(b, q0p, we, lookup, (k + i as int) as nat),
                                we,
                                lookup,
                            ),
                        forall|k: int|
                            0 <= k < i as int ==> file_wf(#[trigger] enriched@[k], lookup),
                        forall|k: int|
                            0 <= k < i as int ==> (#[trigger] enriched@[k]).chunk_parts@.len()
                                <= MAX_FILE_CHUNK_PARTS,
                        forall|k: int|
                            0 <= k < i as int ==> (#[trigger] enriched@[k]).filename@
                                == filenames@[k]@ && enriched@[k].symlink_target@ == symlinks@[k]@
                                && enriched@[k].sha_hash@ == shas@[k]@
                                && enriched@[k].file_meta_flags == flags@[k],
                        forall|k: int|
                            0 <= k < i as int ==> strings_match(
                                (#[trigger] enriched@[k]).install_tags@,
                                tagvals->Some_0.0[k],
                            ),
                        forall|k: int|
                            0 <= k < i as int ==> file_parts_match(
                                #[trigger] enriched@[k],
                                b,
                                parts_pass_end(b, q0p, we, lookup, k as nat),
                                we,
                                lookup,
                            ),
                        forall|k: int|
                            0 <= k < i as int ==> (#[trigger] enriched@[k]).mime_type@
                                == mimes@[k]@,
                    decreases count - i,
                {
                    let f = files.remove(0);
                    let g = FileManifest {
                        filename: f.filename,
                        symlink_target: f.symlink_target,
                        sha_hash: f.sha_hash,
                        file_meta_flags: f.file_meta_flags,
                        install_tags: f.install_tags,
                        chunk_parts: f.chunk_parts,
                        file_size: f.file_size,
                        mime_type: mimes[i as usize].clone(),
                    };
                    enriched.push(g);
                    i = i + 1;
                }
                files = enriched;
                let mut i: u32 = 0;
                while i < count
                    invariant
                        sub.wf(),
                        file_read_ctx(*old(rdr), *rdr, b, p, e, data_size, data_version, count),
                        lookup == chunk_list.chunk_lookup@,
                        i <= count,
                        files@.len() == count as int,
                        forall|k: int| 0 <= k < files@.len() ==> file_wf(#[trigger] files@[k], lookup),
                    decreases count - i,
                {
                    sub.skip_long(32);
                    i = i + 1;
                }
                assert(forall|j: int|
                    0 <= j < count as int ==> (#[trigger] files@[j]).mime_type@ == v2_mime_of(
                        b,
                        ms,
                        we,
                        j,
                    ));
            } else {
                assert(!v2_skips_ok(b, v0, we, count as nat));
                assert(forall|j: int|
                    0 <= j < count as int ==> (#[trigger] files@[j]).mime_type@ =~= Seq::<
                        char,
                    >::empty());
            }
        }

        proof {
            let fseq = Seq::new(files@.len(), |k: int| files@[k].filename);
            let sseq = Seq::new(files@.len(), |k: int| files@[k].symlink_target);
            assert(name_cols_ok(b, p, e, count, fseq, sseq)) by {
                assert(name_cols_ok(b, p, e, count, filenames@, symlinks@));
                assert forall|j: int| 0 <= j < count as int implies #[trigger] fseq[j]@
                    == filenames@[j]@ && sseq[j]@ == symlinks@[j]@ by {
                    assert(files@[j].filename@ == filenames@[j]@);
                    assert(files@[j].symlink_target@ == symlinks@[j]@);
                }
            }
            assert forall|j: int| 0 <= j < count as int implies (#[trigger] files@[j]).sha_hash@
                == crate::hexstr::hex_of(b.subrange(base2 + 20 * j, base2 + 20 * j + 20))
                && files@[j].file_meta_flags == b[base2 + 20 * (count as int) + j] by {
                assert(files@[j].sha_hash@ == shas@[j]@);
                assert(files@[j].file_meta_flags == flags@[j]);
            }
            assert(spec_tags_seq(b, base2 + 21 * (count as int), we, count as nat) == tagvals);
            assert(tagvals is Some);
            assert(q0p == tagvals->Some_0.1);
            assert(parts_pass_ok(b, q0p, we, lookup, count as nat));
            assert(forall|j: int|
                0 <= j < count as int ==> strings_match(
                    (#[trigger] files@[j]).install_tags@,
                    tagvals->Some_0.0[j],
                ));
            assert(forall|j: int|
                0 <= j < count as int ==> file_parts_match(
                    #[trigger] files@[j],
                    b,
                    parts_pass_end(b, q0p, we, lookup, j as nat),
                    we,
                    lookup,
                ));
        }
        Ok(FileManifestList { data_size, data_version, count, file_manifest_list: files })
    }
}

} // verus!
