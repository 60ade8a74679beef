//! Lowercase hexadecimal rendering of byte sequences, and single characters
//! appended to strings.

use vstd::prelude::*;

verus! {

/// Relies on `String::push`: appends exactly one character.
#[verifier::external_body]
pub fn push_char(s: &mut String, c: char)
    ensures
        final(s)@ == old(s)@.push(c),
{
    s.push(c)
}

/// The lowercase hexadecimal digit for a value below 16.
pub open spec fn hex_digit(d: u8) -> char
    recommends
        d < 16,
{
    if d < 10 {
        (48 + d) as char
    } else {
        (87 + d) as char
    }
}

/// Lowercase hexadecimal rendering: two digits per byte, in order.
pub open spec fn hex_of(b: Seq<u8>) -> Seq<char>
    decreases b.len(),
{
    if b.len() == 0 {
        Seq::empty()
    } else {
        seq![hex_digit(b[0] / 16), hex_digit(b[0] % 16)] + hex_of(b.drop_first())
    }
}

pub proof fn lemma_hex_of_len(b: Seq<u8>)
    ensures
        hex_of(b).len() == 2 * b.len(),
    decreases b.len(),
{
    if b.len() > 0 {
        lemma_hex_of_len(b.drop_first());
    }
}

pub proof fn lemma_hex_of_index(b: Seq<u8>, i: int)
    requires
        0 <= i < b.len(),
    ensures
        hex_of(b).len() == 2 * b.len(),
        hex_of(b)[2 * i] == hex_digit(b[i] / 16),
        hex_of(b)[2 * i + 1] == hex_digit(b[i] % 16),
    decreases b.len(),
{
    lemma_hex_of_len(b);
    if i > 0 {
        lemma_hex_of_index(b.drop_first(), i - 1);
    }
}

/// Render bytes as a lowercase hexadecimal string.
pub fn hex_string(data: &[u8]) -> (r: String)
    ensures
        r@ == hex_of(data@),
{
    let n: usize = data.len();
    let mut r = String::new();
    assert(data@.skip(0) == data@);
    let mut i: usize = 0;
    while i < n
        invariant
            n == data@.len(),
            i <= n,
            hex_of(data@) =~= r@ + hex_of(data@.skip(i as int)),
        decreases n - i,
    {
        let b = data[i];
        let hi: u8 = b / 16;
        let lo: u8 = b % 16;
        let hc: char = (if hi < 10 {
            48 + hi
        } else {
            87 + hi
        }) as char;
        let lc: char = (if lo < 10 {
            48 + lo
        } else {
            87 + lo
        }) as char;
        push_char(&mut r, hc);
        push_char(&mut r, lc);
        assert(data@.skip(i as int).drop_first() == data@.skip(i + 1));
        i = i + 1;
    }
    assert(data@.skip(n as int) =~= Seq::<u8>::empty());
    r
}

/// The value of one hexadecimal digit character, either case.
pub open spec fn hex_val(c: char) -> Option<u8> {
    let v = c as u32;
    if 48 <= v <= 57 {
        Some((v - 48) as u8)
    } else if 97 <= v <= 102 {
        Some((v - 87) as u8)
    } else if 65 <= v <= 70 {
        Some((v - 55) as u8)
    } else {
        None
    }
}

pub proof fn lemma_hex_val_of_digit(d: u8)
    requires
        d < 16,
    ensures
        hex_val(hex_digit(d)) == Some(d),
{
}

/// The eight bytes of a `u64`, most significant first.
pub open spec fn u64_bytes_be(v: u64) -> Seq<u8> {
    seq![
        ((v / 72057594037927936) % 256) as u8,
        ((v / 281474976710656) % 256) as u8,
        ((v / 1099511627776) % 256) as u8,
        ((v / 4294967296) % 256) as u8,
        ((v / 16777216) % 256) as u8,
        ((v / 65536) % 256) as u8,
        ((v / 256) % 256) as u8,
        (v % 256) as u8,
    ]
}

/// Render a `u64` as exactly 16 lowercase hexadecimal digits, zero-padded.
pub fn u64_hex_string(v: u64) -> (r: String)
    ensures
        r@ == hex_of(u64_bytes_be(v)),
{
    let mut bytes: Vec<u8> = Vec::new();
    bytes.push(((v / 72057594037927936) % 256) as u8);
    bytes.push(((v / 281474976710656) % 256) as u8);
    bytes.push(((v / 1099511627776) % 256) as u8);
    bytes.push(((v / 4294967296) % 256) as u8);
    bytes.push(((v / 16777216) % 256) as u8);
    bytes.push(((v / 65536) % 256) as u8);
    bytes.push(((v / 256) % 256) as u8);
    bytes.push((v % 256) as u8);
    assert(bytes@ =~= u64_bytes_be(v));
    hex_string(bytes.as_slice())
}

/// The decimal digit character for a value below 10.
pub open spec fn dec_digit(d: u64) -> char
    recommends
        d < 10,
{
    (48 + d) as char
}

/// Decimal rendering of a `u64`: no sign, no leading zeros except for the
/// value zero itself.
pub open spec fn dec_of(n: u64) -> Seq<char>
    decreases n,
{
    if n < 10 {
        seq![dec_digit(n)]
    } else {
        dec_of(n / 10) + seq![dec_digit(n % 10)]
    }
}

/// Decimal rendering of a `u64` as ASCII bytes.
pub open spec fn dec_bytes_of(n: u64) -> Seq<u8>
    decreases n,
{
    if n < 10 {
        seq![(48 + n) as u8]
    } else {
        dec_bytes_of(n / 10) + seq![(48 + n % 10) as u8]
    }
}

/// Render a `u64` in decimal, as ASCII bytes.
pub fn dec_bytes(n: u64) -> (r: Vec<u8>)
    ensures
        r@ == dec_bytes_of(n),
{
    let mut digits: Vec<u8> = Vec::new();
    digits.push((48 + (n % 10)) as u8);
    let mut m: u64 = n / 10;
    assert(digits@.reverse() =~= seq![(48 + n % 10) as u8]);
    while m > 0
        invariant
            m > 0 ==> dec_bytes_of(n) == dec_bytes_of(m) + digits@.reverse(),
            m == 0 ==> dec_bytes_of(n) == digits@.reverse(),
            digits@.len() >= 1,
        decreases m,
    {
        let ghost prev = digits@;
        let d: u8 = (48 + (m % 10)) as u8;
        digits.push(d);
        proof {
            assert(digits@.reverse() =~= seq![(48 + m % 10) as u8] + prev.reverse());
        }
        m = m / 10;
    }
    let mut r: Vec<u8> = Vec::new();
    let len = digits.len();
    let mut k: usize = 0;
    while k < len
        invariant
            len == digits@.len(),
            k <= len,
            r@.len() == k as int,
            forall|j: int| 0 <= j < k as int ==> r@[j] == digits@[len - 1 - j],
        decreases len - k,
    {
        r.push(digits[len - 1 - k]);
        k = k + 1;
    }
    assert(r@ =~= digits@.reverse());
    r
}

/// The value of one decimal digit character.
pub open spec fn dec_val(c: char) -> Option<u8> {
    let v = c as u32;
    if 48 <= v <= 57 {
        Some((v - 48) as u8)
    } else {
        None
    }
}

/// The value of a run of decimal digit characters; `None` on a non-digit
/// or when the value exceeds `u64`.
pub open spec fn dec_value(s: Seq<char>) -> Option<u64>
    decreases s.len(),
{
    if s.len() == 0 {
        Some(0)
    } else {
        match dec_value(s.drop_last()) {
            None => None,
            Some(v) => match dec_val(s.last()) {
                None => None,
                Some(d) => if v <= (0xFFFFFFFFFFFFFFFF - d) / 10 {
                    Some((v * 10 + d) as u64)
                } else {
                    None
                },
            },
        }
    }
}

/// What parsing a decimal `u64` from a string yields: an optional leading
/// plus sign, then at least one digit, no other characters, value within
/// range — the inputs the standard integer parser accepts.
pub open spec fn dec_parse(s: Seq<char>) -> Option<u64> {
    let body = if s.len() >= 1 && s[0] == '+' {
        s.skip(1)
    } else {
        s
    };
    if body.len() == 0 {
        None
    } else {
        dec_value(body)
    }
}

/// A failed digit run stays failed however it is extended.
pub proof fn lemma_dec_value_fail_mono(t: Seq<char>, k: int)
    requires
        0 <= k <= t.len(),
        dec_value(t.subrange(0, k)) is None,
    ensures
        dec_value(t) is None,
    decreases t.len() - k,
{
    if k == t.len() {
        assert(t.subrange(0, k) =~= t);
    } else {
        let t2 = t.subrange(0, k + 1);
        assert(t2.drop_last() =~= t.subrange(0, k));
        lemma_dec_value_fail_mono(t, k + 1);
    }
}

/// Parse a decimal `u64`, exactly as the standard parser accepts one.
pub fn parse_decimal_u64(s: &str) -> (r: Option<u64>)
    ensures
        r == dec_parse(s@),
{
    let n = s.unicode_len();
    let start: usize = if n >= 1 && s.get_char(0) == '+' {
        1
    } else {
        0
    };
    let ghost body = s@.subrange(start as int, n as int);
    proof {
        if start == 1 {
            assert(body =~= s@.skip(1));
        } else {
            assert(body =~= s@);
        }
    }
    if n == start {
        return None;
    }
    let mut v: u64 = 0;
    let mut i: usize = start;
    while i < n
        invariant
            start <= i <= n,
            n == s@.len(),
            n > start,
            body == s@.subrange(start as int, n as int),
            dec_parse(s@) == dec_value(body),
            dec_value(s@.subrange(start as int, i as int)) == Some(v),
        decreases n - i,
    {
        let ghost prefix = s@.subrange(start as int, i as int);
        let c = s.get_char(i);
        let cv = c as u32;
        proof {
            assert(s@.subrange(start as int, i + 1).drop_last() =~= prefix);
            assert(s@.subrange(start as int, i + 1).last() == s@[i as int]);
        }
        if !(48 <= cv && cv <= 57) {
            proof {
                assert(dec_value(s@.subrange(start as int, i + 1)) is None);
                assert(body.subrange(0, i + 1 - start) =~= s@.subrange(start as int, i + 1));
                lemma_dec_value_fail_mono(body, i + 1 - start);
            }
            return None;
        }
        let d: u64 = (cv - 48) as u64;
        if v > (0xFFFFFFFFFFFFFFFF - d) / 10 {
            proof {
                assert(dec_value(s@.subrange(start as int, i + 1)) is None);
                assert(body.subrange(0, i + 1 - start) =~= s@.subrange(start as int, i + 1));
                lemma_dec_value_fail_mono(body, i + 1 - start);
            }
            return None;
        }
        v = v * 10 + d;
        i = i + 1;
    }
    assert(s@.subrange(start as int, n as int) == body);
    Some(v)
}

/// Render a `u64` in decimal.
pub fn dec_string(n: u64) -> (r: String)
    ensures
        r@ == dec_of(n),
{
    let mut digits: Vec<char> = Vec::new();
    digits.push((48 + (n % 10) as u8) as char);
    let mut m: u64 = n / 10;
    assert(digits@.reverse() =~= seq![dec_digit(n % 10)]);
    while m > 0
        invariant
            m > 0 ==> dec_of(n) == dec_of(m) + digits@.reverse(),
            m == 0 ==> dec_of(n) == digits@.reverse(),
            digits@.len() >= 1,
        decreases m,
    {
        let ghost prev = digits@;
        let d: char = (48 + (m % 10) as u8) as char;
        digits.push(d);
        proof {
            assert(digits@.reverse() =~= seq![dec_digit(m % 10)] + prev.reverse());
        }
        m = m / 10;
    }
    let mut r = String::new();
    let len = digits.len();
    let mut k: usize = 0;
    while k < len
        invariant
            len == digits@.len(),
            k <= len,
            r@.len() == k as int,
            forall|j: int| 0 <= j < k as int ==> r@[j] == digits@[len - 1 - j],
        decreases len - k,
    {
        push_char(&mut r, digits[len - 1 - k]);
        k = k + 1;
    }
    assert(r@ =~= digits@.reverse());
    r
}

} // verus!
