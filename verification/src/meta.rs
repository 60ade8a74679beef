//! The metadata section: a length-framed record of build identity, decoded
//! inside a window capped to the declared section length.

use vstd::prelude::*;
use crate::error::ManifestError;
use crate::reader::{ByteReader, i32_le, u32_le, spec_fstring_value, spec_fstring_end,
    spec_fstring_seq, section_window_end};

verus! {

/// Sections above this byte length are rejected as implausible.
pub const MAX_SECTION_LEN: u32 = 1073741824;

#[derive(Debug, Clone)]
pub struct ManifestMeta {
    /// The declared byte length of the section, its own length field
    /// included.
    pub data_size: u32,
    /// Version of this record's own layout; 1 and above adds `build_id`.
    pub data_version: u8,
    pub feature_level: i32,
    pub is_file_data: bool,
    pub app_id: i32,
    pub app_name: String,
    pub build_version: String,
    pub launch_exe: String,
    pub launch_command: String,
    pub prereq_ids: Vec<String>,
    pub prereq_name: String,
    pub prereq_path: String,
    pub prereq_args: String,
    /// Present exactly when `data_version >= 1`.
    pub build_id: Option<String>,
}

/// Whether every field of the metadata record can be read from window
/// `[p + 4, section_window_end)`: the fixed fields, the eight strings, the
/// string array, and — for layout versions 1 and above — the build id.
pub open spec fn meta_parseable(b: Seq<u8>, p: int, e: int) -> bool {
    let we = section_window_end(b, p, e);
    let p1 = p + 4;
    &&& we - p1 >= 10
    &&& {
        let q0 = p1 + 10;
        &&& spec_fstring_value(b, q0, we) is Some
        &&& {
            let q1 = spec_fstring_end(b, q0, we);
            &&& spec_fstring_value(b, q1, we) is Some
            &&& {
                let q2 = spec_fstring_end(b, q1, we);
                &&& spec_fstring_value(b, q2, we) is Some
                &&& {
                    let q3 = spec_fstring_end(b, q2, we);
                    &&& spec_fstring_value(b, q3, we) is Some
                    &&& {
                        let q4 = spec_fstring_end(b, q3, we);
                        &&& we - q4 >= 4
                        &&& {
                            let n = u32_le(b.subrange(q4, q4 + 4));
                            &&& spec_fstring_seq(b, q4 + 4, we, n as nat) is Some
                            &&& {
                                let q5 = spec_fstring_seq(b, q4 + 4, we, n as nat)->Some_0.1;
                                &&& spec_fstring_value(b, q5, we) is Some
                                &&& {
                                    let q6 = spec_fstring_end(b, q5, we);
                                    &&& spec_fstring_value(b, q6, we) is Some
                                    &&& {
                                        let q7 = spec_fstring_end(b, q6, we);
                                        &&& spec_fstring_value(b, q7, we) is Some
                                        &&& (b[p1] >= 1 ==> spec_fstring_value(
                                            b,
                                            spec_fstring_end(b, q7, we),
                                            we,
                                        ) is Some)
                                    }
                                }
                            }
                        }
                    }
                }
            }
        }
    }
}

/// The field values a parseable metadata record decodes to.
pub open spec fn meta_matches(m: ManifestMeta, b: Seq<u8>, p: int, e: int) -> bool {
    let we = section_window_end(b, p, e);
    let p1 = p + 4;
    let q0 = p1 + 10;
    let q1 = spec_fstring_end(b, q0, we);
    let q2 = spec_fstring_end(b, q1, we);
    let q3 = spec_fstring_end(b, q2, we);
    let q4 = spec_fstring_end(b, q3, we);
    let n = u32_le(b.subrange(q4, q4 + 4));
    let ids = spec_fstring_seq(b, q4 + 4, we, n as nat)->Some_0.0;
    let q5 = spec_fstring_seq(b, q4 + 4, we, n as nat)->Some_0.1;
    let q6 = spec_fstring_end(b, q5, we);
    let q7 = spec_fstring_end(b, q6, we);
    &&& m.data_size == u32_le(b.subrange(p, p + 4))
    &&& m.data_version == b[p1]
    &&& m.feature_level == i32_le(b.subrange(p1 + 1, p1 + 5))
    &&& m.is_file_data == (b[p1 + 5] != 0)
    &&& m.app_id == i32_le(b.subrange(p1 + 6, p1 + 10))
    &&& spec_fstring_value(b, q0, we) == Some(m.app_name@)
    &&& spec_fstring_value(b, q1, we) == Some(m.build_version@)
    &&& spec_fstring_value(b, q2, we) == Some(m.launch_exe@)
    &&& spec_fstring_value(b, q3, we) == Some(m.launch_command@)
    &&& m.prereq_ids@.len() == n as int
    &&& (forall|i: int| 0 <= i < n as int ==> ids[i] == #[trigger] m.prereq_ids@[i]@)
    &&& spec_fstring_value(b, q5, we) == Some(m.prereq_name@)
    &&& spec_fstring_value(b, q6, we) == Some(m.prereq_path@)
    &&& spec_fstring_value(b, q7, we) == Some(m.prereq_args@)
    &&& (m.data_version >= 1 ==> m.build_id is Some && spec_fstring_value(
        b,
        spec_fstring_end(b, q7, we),
        we,
    ) == Some(m.build_id->Some_0@))
    &&& (m.data_version < 1 ==> m.build_id is None)
}

/// Where the reader stands after a metadata-section read, successful or
/// not: the declared boundary, except that an unreadable or implausible
/// length field leaves it right after whatever of the length was read.
pub open spec fn meta_section_end(b: Seq<u8>, p: int, e: int) -> int {
    if e - p < 4 {
        e
    } else {
        let ds = u32_le(b.subrange(p, p + 4));
        if ds == 0 || ds > MAX_SECTION_LEN {
            p + 4
        } else {
            section_window_end(b, p, e)
        }
    }
}

/// Exactly when a metadata-section read succeeds.
pub open spec fn meta_read_ok(b: Seq<u8>, p: int, e: int) -> bool {
    &&& e - p >= 4
    &&& 1 <= u32_le(b.subrange(p, p + 4)) <= MAX_SECTION_LEN
    &&& meta_parseable(b, p, e)
}

impl ManifestMeta {
    /// Decode the metadata section at the reader's position. The reader is
    /// left at the declared section boundary whether or not decoding
    /// succeeded, so the next section starts in the right place; a failure
    /// here is recoverable for the caller. The second result is how many
    /// bytes of the outer stream the section covered.
    pub fn read_meta(rdr: &mut ByteReader) -> (r: Result<(ManifestMeta, u64), ManifestError>)
        requires
            old(rdr).wf(),
        ensures
            final(rdr).wf(),
            old(rdr).same_window(*final(rdr)),
            final(rdr).pos_spec() == meta_section_end(
                old(rdr).bytes(),
                old(rdr).pos_spec(),
                old(rdr).end_spec(),
            ),
            r is Ok <==> meta_read_ok(old(rdr).bytes(), old(rdr).pos_spec(), old(rdr).end_spec()),
            match r {
                Ok((m, consumed)) => {
                    let b = old(rdr).bytes();
                    let p = old(rdr).pos_spec();
                    let e = old(rdr).end_spec();
                    let ds = u32_le(b.subrange(p, p + 4));
                    &&& old(rdr).remaining_spec() >= 4
                    &&& 1 <= ds <= MAX_SECTION_LEN
                    &&& meta_parseable(b, p, e)
                    &&& meta_matches(m, b, p, e)
                    &&& final(rdr).pos_spec() == section_window_end(b, p, e)
                    &&& consumed as int == section_window_end(b, p, e) - p
                },
                Err(err) => {
                    let b = old(rdr).bytes();
                    let p = old(rdr).pos_spec();
                    let e = old(rdr).end_spec();
                    if old(rdr).remaining_spec() < 4 {
                        err == ManifestError::Io && final(rdr).pos_spec() == e
                    } else {
                        let ds = u32_le(b.subrange(p, p + 4));
                        if ds == 0 || ds > MAX_SECTION_LEN {
                            err == ManifestError::Invalid && final(rdr).pos_spec() == p + 4
                        } else {
                            &&& !meta_parseable(b, p, e)
                            &&& err == ManifestError::Io
                            &&& final(rdr).pos_spec() == section_window_end(b, p, e)
                        }
                    }
                },
            },
    {
        let ghost b = old(rdr).bytes();
        let ghost p = old(rdr).pos_spec();
        let ghost e = old(rdr).end_spec();
        let data_size = match rdr.read_u32() {
            Some(v) => v,
            None => {
                return Err(ManifestError::Io);
            },
        };
        if data_size == 0 || data_size > MAX_SECTION_LEN {
            return Err(ManifestError::Invalid);
        }
        let adjusted: u32 = if data_size >= 4 {
            data_size - 4
        } else {
            0
        };
        let mut sub = rdr.take_window(adjusted as usize);
        assert(sub.end_spec() == section_window_end(b, p, e));
        let consumed = (sub.remaining() + 4) as u64;
        assert(consumed as int == section_window_end(b, p, e) - p);

        let data_version = match sub.read_u8() {
            Some(v) => v,
            None => {
                return Err(ManifestError::Io);
            },
        };
        let feature_level = match sub.read_i32() {
            Some(v) => v,
            None => {
                return Err(ManifestError::Io);
            },
        };
        let is_file_data_byte = match sub.read_u8() {
            Some(v) => v,
            None => {
                return Err(ManifestError::Io);
            },
        };
        let app_id = match sub.read_i32() {
            Some(v) => v,
            None => {
                return Err(ManifestError::Io);
            },
        };
        let app_name = match sub.read_fstring() {
            Some(v) => v,
            None => {
                return Err(ManifestError::Io);
            },
        };
        let build_version = match sub.read_fstring() {
            Some(v) => v,
            None => {
                return Err(ManifestError::Io);
            },
        };
        let launch_exe = match sub.read_fstring() {
            Some(v) => v,
            None => {
                return Err(ManifestError::Io);
            },
        };
        let launch_command = match sub.read_fstring() {
            Some(v) => v,
            None => {
                return Err(ManifestError::Io);
            },
        };
        let prereq_ids = match sub.read_fstring_array() {
            Some(v) => v,
            None => {
                return Err(ManifestError::Io);
            },
        };
        let prereq_name = match sub.read_fstring() {
            Some(v) => v,
            None => {
                return Err(ManifestError::Io);
            },
        };
        let prereq_path = match sub.read_fstring() {
            Some(v) => v,
            None => {
                return Err(ManifestError::Io);
            },
        };
        let prereq_args = match sub.read_fstring() {
            Some(v) => v,
            None => {
                return Err(ManifestError::Io);
            },
        };
        let build_id = if data_version >= 1 {
            match sub.read_fstring() {
                Some(v) => Some(v),
                None => {
                    return Err(ManifestError::Io);
                },
            }
        } else {
            None
        };
        Ok(
            (
                ManifestMeta {
                    data_size,
                    data_version,
                    feature_level,
                    is_file_data: is_file_data_byte != 0,
                    app_id,
                    app_name,
                    build_version,
                    launch_exe,
                    launch_command,
                    prereq_ids,
                    prereq_name,
                    prereq_path,
                    prereq_args,
                    build_id,
                },
                consumed,
            ),
        )
    }
}

} // verus!
