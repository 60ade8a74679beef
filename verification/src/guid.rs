//! 128-bit chunk identifiers: canonical string rendering, parsing of the
//! canonical form, and the integer key used by the chunk directory's lookup.

use vstd::prelude::*;
use crate::hexstr::{hex_of, hex_val, hex_digit, hex_string, push_char, lemma_hex_of_index,
    lemma_hex_of_len, lemma_hex_val_of_digit};
use crate::reader::u64_le;
use vstd::slice::slice_subrange;
use vstd::string::StrSliceExecFns;

verus! {

/// The canonical string form of a 16-byte identifier: lowercase hexadecimal
/// in five groups of 8, 4, 4, 4 and 12 digits, separated by hyphens.
pub open spec fn guid_str_spec(b: Seq<u8>) -> Seq<char>
    recommends
        b.len() == 16,
{
    hex_of(b.subrange(0, 4)) + seq!['-'] + hex_of(b.subrange(4, 6)) + seq!['-'] + hex_of(
        b.subrange(6, 8),
    ) + seq!['-'] + hex_of(b.subrange(8, 10)) + seq!['-'] + hex_of(b.subrange(10, 16))
}

/// Where byte `i` of a canonical identifier starts among the 36 characters.
pub open spec fn guid_char_index(i: int) -> int {
    2 * i + if i < 4 {
        0int
    } else if i < 6 {
        1int
    } else if i < 8 {
        2int
    } else if i < 10 {
        3int
    } else {
        4int
    }
}

/// The bytes encoded by a canonical identifier string, either case accepted;
/// `None` for anything that is not 36 characters in the hyphenated layout.
pub open spec fn guid_parse_spec(s: Seq<char>) -> Option<Seq<u8>> {
    if s.len() == 36 && s[8] == '-' && s[13] == '-' && s[18] == '-' && s[23] == '-' && (forall|
        i: int,
    |
        0 <= i < 16 ==> #[trigger] hex_val(s[guid_char_index(i)]) is Some && hex_val(
            s[guid_char_index(i) + 1],
        ) is Some) {
        Some(
            Seq::new(
                16,
                |i: int|
                    (hex_val(s[guid_char_index(i)])->Some_0 * 16 + hex_val(
                        s[guid_char_index(i) + 1],
                    )->Some_0) as u8,
            ),
        )
    } else {
        None
    }
}

/// The lookup key of a 16-byte identifier: its value as one little-endian
/// 128-bit integer.
pub open spec fn guid_key_spec(b: Seq<u8>) -> u128
    recommends
        b.len() == 16,
{
    (u64_le(b.subrange(0, 8)) + u64_le(b.subrange(8, 16)) * 18446744073709551616) as u128
}

/// Render 16 identifier bytes in the canonical hyphenated form.
pub fn guid_to_string(b: &[u8]) -> (r: String)
    requires
        b@.len() == 16,
    ensures
        r@ == guid_str_spec(b@),
{
    let mut r = hex_string(slice_subrange(b, 0, 4));
    push_char(&mut r, '-');
    let g2 = hex_string(slice_subrange(b, 4, 6));
    r.append(g2.as_str());
    push_char(&mut r, '-');
    let g3 = hex_string(slice_subrange(b, 6, 8));
    r.append(g3.as_str());
    push_char(&mut r, '-');
    let g4 = hex_string(slice_subrange(b, 8, 10));
    r.append(g4.as_str());
    push_char(&mut r, '-');
    let g5 = hex_string(slice_subrange(b, 10, 16));
    r.append(g5.as_str());
    assert(r@ =~= guid_str_spec(b@));
    r
}

/// The value of one hexadecimal digit character, or `None`.
fn hex_val_exec(c: char) -> (r: Option<u8>)
    ensures
        r == hex_val(c),
{
    let v = c as u32;
    if 48 <= v && v <= 57 {
        Some((v - 48) as u8)
    } else if 97 <= v && v <= 102 {
        Some((v - 87) as u8)
    } else if 65 <= v && v <= 70 {
        Some((v - 55) as u8)
    } else {
        None
    }
}

/// Parse a canonical hyphenated identifier string back to its 16 bytes.
pub fn guid_from_string(s: &str) -> (r: Option<Vec<u8>>)
    ensures
        match r {
            Some(v) => guid_parse_spec(s@) == Some(v@),
            None => guid_parse_spec(s@) is None,
        },
{
    let n = s.unicode_len();
    if n != 36 {
        return None;
    }
    if !(s.get_char(8) == '-' && s.get_char(13) == '-' && s.get_char(18) == '-' && s.get_char(23)
        == '-') {
        return None;
    }
    let mut out: Vec<u8> = Vec::new();
    let mut i: usize = 0;
    while i < 16
        invariant
            i <= 16,
            s@.len() == 36,
            out@.len() == i as int,
            forall|j: int|
                0 <= j < i as int ==> #[trigger] hex_val(s@[guid_char_index(j)]) is Some && hex_val(
                    s@[guid_char_index(j) + 1],
                ) is Some && out@[j] == (hex_val(s@[guid_char_index(j)])->Some_0 * 16 + hex_val(
                    s@[guid_char_index(j) + 1],
                )->Some_0) as u8,
        decreases 16 - i,
    {
        let ci: usize = 2 * i + if i < 4 {
            0usize
        } else if i < 6 {
            1usize
        } else if i < 8 {
            2usize
        } else if i < 10 {
            3usize
        } else {
            4usize
        };
        assert(ci as int == guid_char_index(i as int));
        let hi = match hex_val_exec(s.get_char(ci)) {
            Some(v) => v,
            None => {
                return None;
            },
        };
        let lo = match hex_val_exec(s.get_char(ci + 1)) {
            Some(v) => v,
            None => {
                return None;
            },
        };
        out.push(hi * 16 + lo);
        i = i + 1;
    }
    assert(guid_parse_spec(s@) == Some(out@)) by {
        assert(forall|j: int|
            0 <= j < 16 ==> #[trigger] hex_val(s@[guid_char_index(j)]) is Some && hex_val(
                s@[guid_char_index(j) + 1],
            ) is Some);
        assert(out@ =~= guid_parse_spec(s@)->Some_0);
    }
    Some(out)
}

/// Compute the lookup key of 16 identifier bytes.
pub fn guid_key(b: &[u8]) -> (r: u128)
    requires
        b@.len() == 16,
    ensures
        r == guid_key_spec(b@),
{
    let lo = read_u64_at(b, 0);
    let hi = read_u64_at(b, 8);
    (lo as u128) + (hi as u128) * 18446744073709551616
}

/// Little-endian `u64` of eight bytes starting at `at`.
fn read_u64_at(b: &[u8], at: usize) -> (r: u64)
    requires
        at + 8 <= b@.len(),
    ensures
        r == u64_le(b@.subrange(at as int, at as int + 8)),
{
    let b0 = b[at] as u64;
    let b1 = b[at + 1] as u64;
    let b2 = b[at + 2] as u64;
    let b3 = b[at + 3] as u64;
    let b4 = b[at + 4] as u64;
    let b5 = b[at + 5] as u64;
    let b6 = b[at + 6] as u64;
    let b7 = b[at + 7] as u64;
    let ghost w = b@.subrange(at as int, at as int + 8);
    assert(w[0] == b@[at as int] && w[1] == b@[at as int + 1] && w[2] == b@[at as int + 2] && w[3]
        == b@[at as int + 3] && w[4] == b@[at as int + 4] && w[5] == b@[at as int + 5] && w[6]
        == b@[at as int + 6] && w[7] == b@[at as int + 7]);
    b0 + b1 * 256 + b2 * 65536 + b3 * 16777216 + b4 * 4294967296 + b5 * 1099511627776 + b6
        * 281474976710656 + b7 * 72057594037927936
}

/// What the flexible identifier parser accepts: the hexadecimal forms the
/// outside parser recognizes, hyphenated or not, either case; the 16 bytes
/// depend on the characters alone.
pub uninterp spec fn guid_bytes_of(s: Seq<char>) -> Option<Seq<u8>>;

/// Relies on `uuid::Uuid::from_str` (via `parse_str`): parses the
/// hexadecimal identifier forms, with or without hyphens, either case; an
/// identifier is 16 bytes.
#[verifier::external_body]
pub fn parse_guid_flexible(s: &str) -> (r: Option<Vec<u8>>)
    ensures
        match r {
            Some(v) => guid_bytes_of(s@) == Some(v@) && v@.len() == 16,
            None => guid_bytes_of(s@) is None,
        },
{
    uuid::Uuid::parse_str(s).ok().map(|u| u.into_bytes().to_vec())
}

/// Rendering 16 bytes canonically and parsing the result gives the bytes
/// back: the canonical form loses nothing.
pub proof fn lemma_guid_roundtrip(b: Seq<u8>)
    requires
        b.len() == 16,
    ensures
        guid_parse_spec(guid_str_spec(b)) == Some(b),
{
    let s = guid_str_spec(b);
    lemma_hex_of_len(b.subrange(0, 4));
    lemma_hex_of_len(b.subrange(4, 6));
    lemma_hex_of_len(b.subrange(6, 8));
    lemma_hex_of_len(b.subrange(8, 10));
    lemma_hex_of_len(b.subrange(10, 16));
    assert(s.len() == 36);
    assert(s[8] == '-' && s[13] == '-' && s[18] == '-' && s[23] == '-');
    assert forall|i: int| 0 <= i < 16 implies #[trigger] s[guid_char_index(i)] == hex_digit(
        b[i] / 16,
    ) && s[guid_char_index(i) + 1] == hex_digit(b[i] % 16) by {
        if i < 4 {
            lemma_hex_of_index(b.subrange(0, 4), i);
        } else if i < 6 {
            lemma_hex_of_index(b.subrange(4, 6), i - 4);
        } else if i < 8 {
            lemma_hex_of_index(b.subrange(6, 8), i - 6);
        } else if i < 10 {
            lemma_hex_of_index(b.subrange(8, 10), i - 8);
        } else {
            lemma_hex_of_index(b.subrange(10, 16), i - 10);
        }
    }
    assert forall|i: int| 0 <= i < 16 implies #[trigger] hex_val(s[guid_char_index(i)]) == Some(
        (b[i] / 16) as u8,
    ) && hex_val(s[guid_char_index(i) + 1]) == Some((b[i] % 16) as u8) by {
        lemma_hex_val_of_digit(b[i] / 16);
        lemma_hex_val_of_digit(b[i] % 16);
    }
    assert(guid_parse_spec(s)->Some_0 =~= b);
}

} // verus!
