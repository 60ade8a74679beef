//! Cursor-based little-endian primitive decoding over a byte window.
//!
//! Reads are tolerant of short input where the format calls for it: a
//! fixed-width read consumes whatever is available and reports failure only
//! when fewer bytes remain than the value needs, and a window never lets a
//! reader touch bytes past its declared end.

use vstd::prelude::*;

verus! {

/// Little-endian value of four bytes.
pub open spec fn u32_le(b: Seq<u8>) -> u32
    recommends
        b.len() == 4,
{
    (b[0] + b[1] * 256 + b[2] * 65536 + b[3] * 16777216) as u32
}

/// Little-endian value of eight bytes.
pub open spec fn u64_le(b: Seq<u8>) -> u64
    recommends
        b.len() == 8,
{
    (b[0] + b[1] * 256 + b[2] * 65536 + b[3] * 16777216 + b[4] * 4294967296 + b[5]
        * 1099511627776 + b[6] * 281474976710656 + b[7] * 72057594037927936) as u64
}

/// Little-endian value of four bytes, reinterpreted as a signed integer.
pub open spec fn i32_le(b: Seq<u8>) -> i32
    recommends
        b.len() == 4,
{
    u32_le(b) as i32
}

/// What `String::from_utf8_lossy` decodes a byte sequence to.
pub uninterp spec fn lossy_decode(b: Seq<u8>) -> Seq<char>;

/// Relies on `String::from_utf8_lossy`: the decoding depends on the bytes
/// alone, and valid UTF-8 — in particular ASCII — decodes to itself.
#[verifier::external_body]
pub fn lossy_string(bytes: &[u8]) -> (r: String)
    ensures
        r@ == lossy_decode(bytes@),
        (forall|i: int| 0 <= i < bytes@.len() ==> bytes@[i] < 128) ==> r@ == Seq::new(
            bytes@.len(),
            |i: int| bytes@[i] as char,
        ),
{
    String::from_utf8_lossy(bytes).into_owned()
}

/// Strings above this length are rejected as implausible for this format.
pub const MAX_STRING_LEN: u32 = 1073741824;

/// Where a length-framed section's window ends: the declared `u32` length
/// at `p` counts itself, so the window holds the declared length minus the
/// four length bytes, clamped to `e`.
pub open spec fn section_window_end(b: Seq<u8>, p: int, e: int) -> int {
    let ds = u32_le(b.subrange(p, p + 4)) as int;
    let adj = if ds < 4 {
        0int
    } else {
        ds - 4
    };
    if p + 4 + adj <= e {
        p + 4 + adj
    } else {
        e
    }
}

/// Whether a section's declared `u32` byte length can be read at `p` and is
/// plausible: at least 1 and at most 1 GiB.
pub open spec fn section_size_ok(b: Seq<u8>, p: int, e: int) -> bool {
    &&& e - p >= 4
    &&& 1 <= u32_le(b.subrange(p, p + 4)) <= 1073741824
}

/// The string a length-prefixed string read yields from window `[p, e)` of
/// `b`: a `u32` length, then that many bytes decoded permissively. `None`
/// when the length field is short, implausibly large, or overruns the window.
pub open spec fn spec_fstring_value(b: Seq<u8>, p: int, e: int) -> Option<Seq<char>> {
    if e - p < 4 {
        None
    } else {
        let len = u32_le(b.subrange(p, p + 4)) as int;
        if len == 0 {
            Some(Seq::empty())
        } else if len > MAX_STRING_LEN {
            None
        } else if e - (p + 4) < len {
            None
        } else {
            Some(lossy_decode(b.subrange(p + 4, p + 4 + len)))
        }
    }
}

/// Where the cursor stands after a length-prefixed string read from
/// window `[p, e)`, whether or not the read succeeded.
pub open spec fn spec_fstring_end(b: Seq<u8>, p: int, e: int) -> int {
    if e - p < 4 {
        e
    } else {
        let len = u32_le(b.subrange(p, p + 4)) as int;
        if len == 0 {
            p + 4
        } else if len > MAX_STRING_LEN {
            p + 4
        } else if e - (p + 4) < len {
            e
        } else {
            p + 4 + len
        }
    }
}

/// The strings an `n`-element sequence of length-prefixed strings yields
/// from window `[p, e)`, with the position after the last one; `None` when
/// any single read fails.
pub open spec fn spec_fstring_seq(b: Seq<u8>, p: int, e: int, n: nat) -> Option<
    (Seq<Seq<char>>, int),
>
    decreases n,
{
    if n == 0 {
        Some((Seq::empty(), p))
    } else {
        match spec_fstring_value(b, p, e) {
            None => None,
            Some(s) => {
                let p2 = spec_fstring_end(b, p, e);
                match spec_fstring_seq(b, p2, e, (n - 1) as nat) {
                    None => None,
                    Some(pair) => Some((seq![s] + pair.0, pair.1)),
                }
            },
        }
    }
}

/// A successful `n`-string parse followed by one more successful read is a
/// successful `n + 1`-string parse.
pub proof fn lemma_fstring_seq_snoc(b: Seq<u8>, p: int, e: int, n: nat)
    requires
        spec_fstring_seq(b, p, e, n) is Some,
        spec_fstring_value(b, spec_fstring_seq(b, p, e, n)->Some_0.1, e) is Some,
    ensures
        spec_fstring_seq(b, p, e, n + 1) == Some(
            (
                spec_fstring_seq(b, p, e, n)->Some_0.0 + seq![
                    spec_fstring_value(b, spec_fstring_seq(b, p, e, n)->Some_0.1, e)->Some_0,
                ],
                spec_fstring_end(b, spec_fstring_seq(b, p, e, n)->Some_0.1, e),
            ),
        ),
    decreases n,
{
    let pair = spec_fstring_seq(b, p, e, n)->Some_0;
    let ss = pair.0;
    let q = pair.1;
    let v = spec_fstring_value(b, q, e)->Some_0;
    let q2 = spec_fstring_end(b, q, e);
    if n == 0 {
        assert(q == p);
        assert(spec_fstring_seq(b, q2, e, 0) == Some((Seq::<Seq<char>>::empty(), q2)));
        assert(spec_fstring_seq(b, p, e, 1) == Some(
            (seq![v] + Seq::<Seq<char>>::empty(), q2),
        ));
        assert(seq![v] + Seq::<Seq<char>>::empty() =~= ss + seq![v]);
    } else {
        let s0 = spec_fstring_value(b, p, e)->Some_0;
        let p2 = spec_fstring_end(b, p, e);
        let rest = spec_fstring_seq(b, p2, e, (n - 1) as nat)->Some_0;
        assert(rest.1 == q);
        lemma_fstring_seq_snoc(b, p2, e, (n - 1) as nat);
        assert(spec_fstring_seq(b, p2, e, n) == Some((rest.0 + seq![v], q2)));
        assert(spec_fstring_seq(b, p, e, n + 1) == Some((seq![s0] + (rest.0 + seq![v]), q2)));
        assert(seq![s0] + (rest.0 + seq![v]) =~= ss + seq![v]);
    }
}

/// A successful `n`-string parse yields exactly `n` strings.
pub proof fn lemma_fstring_seq_len(b: Seq<u8>, p: int, e: int, n: nat)
    requires
        spec_fstring_seq(b, p, e, n) is Some,
    ensures
        spec_fstring_seq(b, p, e, n)->Some_0.0.len() == n,
    decreases n,
{
    if n > 0 {
        let p2 = spec_fstring_end(b, p, e);
        lemma_fstring_seq_len(b, p2, e, (n - 1) as nat);
    }
}

/// A failed read after a successful `i`-string parse fails the whole
/// `n`-string parse, for every `n` beyond `i`.
pub proof fn lemma_fstring_seq_fail(b: Seq<u8>, p: int, e: int, i: nat, n: nat)
    requires
        i < n,
        spec_fstring_seq(b, p, e, i) is Some,
        spec_fstring_value(b, spec_fstring_seq(b, p, e, i)->Some_0.1, e) is None,
    ensures
        spec_fstring_seq(b, p, e, n) is None,
    decreases n,
{
    if i == 0 {
    } else {
        let p2 = spec_fstring_end(b, p, e);
        lemma_fstring_seq_fail(b, p2, e, (i - 1) as nat, (n - 1) as nat);
    }
}

/// A failed string-run parse stays failed for every longer run.
pub proof fn lemma_fstring_seq_none_mono(b: Seq<u8>, p: int, e: int, n: nat)
    requires
        spec_fstring_seq(b, p, e, n) is None,
    ensures
        spec_fstring_seq(b, p, e, n + 1) is None,
    decreases n,
{
    if n > 0 {
        if spec_fstring_value(b, p, e) is Some {
            let p2 = spec_fstring_end(b, p, e);
            lemma_fstring_seq_none_mono(b, p2, e, (n - 1) as nat);
        }
    }
}

/// A positioned cursor over a window `[pos, end)` of a byte slice.
pub struct ByteReader<'a> {
    data: &'a [u8],
    pos: usize,
    end: usize,
}

impl<'a> ByteReader<'a> {
    /// The whole underlying byte sequence (also the part outside the window).
    pub closed spec fn bytes(self) -> Seq<u8> {
        self.data@
    }

    pub closed spec fn pos_spec(self) -> int {
        self.pos as int
    }

    pub closed spec fn end_spec(self) -> int {
        self.end as int
    }

    pub open spec fn wf(self) -> bool {
        0 <= self.pos_spec() <= self.end_spec() <= self.bytes().len()
    }

    pub open spec fn remaining_spec(self) -> int {
        self.end_spec() - self.pos_spec()
    }

    /// The window is unchanged; only the position may have moved.
    pub open spec fn same_window(self, other: Self) -> bool {
        self.bytes() == other.bytes() && self.end_spec() == other.end_spec()
    }

    pub fn new(data: &'a [u8]) -> (r: Self)
        ensures
            r.wf(),
            r.bytes() == data@,
            r.pos_spec() == 0,
            r.end_spec() == data@.len(),
    {
        ByteReader { data, pos: 0, end: data.len() }
    }

    pub fn position(&self) -> (p: usize)
        ensures
            p == self.pos_spec(),
    {
        self.pos
    }

    pub fn remaining(&self) -> (n: usize)
        requires
            self.wf(),
        ensures
            n == self.remaining_spec(),
    {
        self.end - self.pos
    }

    /// Advance by `n` bytes, clamped to the window's end.
    pub fn skip_long(&mut self, n: u64)
        requires
            old(self).wf(),
        ensures
            final(self).wf(),
            old(self).same_window(*final(self)),
            final(self).pos_spec() == if old(self).remaining_spec() >= n as int {
                old(self).pos_spec() + n as int
            } else {
                old(self).end_spec()
            },
    {
        if n <= (self.end - self.pos) as u64 {
            self.pos = self.pos + n as usize;
        } else {
            self.pos = self.end;
        }
    }

    /// Read up to `n` bytes: whatever the window still holds, never more.
    pub fn read_bytes_tolerant(&mut self, n: usize) -> (r: Vec<u8>)
        requires
            old(self).wf(),
        ensures
            final(self).wf(),
            old(self).same_window(*final(self)),
            r@.len() == if old(self).remaining_spec() >= n as int {
                n as int
            } else {
                old(self).remaining_spec()
            },
            r@ == old(self).bytes().subrange(old(self).pos_spec(), old(self).pos_spec() + r@.len()),
            final(self).pos_spec() == old(self).pos_spec() + r@.len(),
    {
        let k: usize = if n <= self.end - self.pos {
            n
        } else {
            self.end - self.pos
        };
        let mut out: Vec<u8> = Vec::new();
        let mut i: usize = 0;
        while i < k
            invariant
                self.wf(),
                i <= k,
                self.pos_spec() + k as int <= self.end_spec(),
                out@ == self.bytes().subrange(self.pos_spec(), self.pos_spec() + i as int),
            decreases k - i,
        {
            out.push(self.data[self.pos + i]);
            assert(out@ == self.bytes().subrange(self.pos_spec(), self.pos_spec() + i + 1));
            i = i + 1;
        }
        self.pos = self.pos + k;
        out
    }

    /// Read one byte; `None` when the window is exhausted.
    pub fn read_u8(&mut self) -> (r: Option<u8>)
        requires
            old(self).wf(),
        ensures
            final(self).wf(),
            old(self).same_window(*final(self)),
            old(self).remaining_spec() >= 1 ==> r == Some(
                old(self).bytes()[old(self).pos_spec()],
            ) && final(self).pos_spec() == old(self).pos_spec() + 1,
            old(self).remaining_spec() < 1 ==> r is None && final(self).pos_spec() == old(
                self,
            ).end_spec(),
    {
        if self.pos < self.end {
            let b = self.data[self.pos];
            self.pos = self.pos + 1;
            Some(b)
        } else {
            None
        }
    }

    /// Read a little-endian `u32`. A short window consumes what was left and
    /// reports `None`.
    pub fn read_u32(&mut self) -> (r: Option<u32>)
        requires
            old(self).wf(),
        ensures
            final(self).wf(),
            old(self).same_window(*final(self)),
            old(self).remaining_spec() >= 4 ==> r == Some(
                u32_le(old(self).bytes().subrange(old(self).pos_spec(), old(self).pos_spec() + 4)),
            ) && final(self).pos_spec() == old(self).pos_spec() + 4,
            old(self).remaining_spec() < 4 ==> r is None && final(self).pos_spec() == old(
                self,
            ).end_spec(),
    {
        if self.end - self.pos >= 4 {
            let b0 = self.data[self.pos] as u32;
            let b1 = self.data[self.pos + 1] as u32;
            let b2 = self.data[self.pos + 2] as u32;
            let b3 = self.data[self.pos + 3] as u32;
            self.pos = self.pos + 4;
            Some(b0 + b1 * 256 + b2 * 65536 + b3 * 16777216)
        } else {
            self.pos = self.end;
            None
        }
    }

    /// Read a little-endian `i32`.
    pub fn read_i32(&mut self) -> (r: Option<i32>)
        requires
            old(self).wf(),
        ensures
            final(self).wf(),
            old(self).same_window(*final(self)),
            old(self).remaining_spec() >= 4 ==> r == Some(
                i32_le(old(self).bytes().subrange(old(self).pos_spec(), old(self).pos_spec() + 4)),
            ) && final(self).pos_spec() == old(self).pos_spec() + 4,
            old(self).remaining_spec() < 4 ==> r is None && final(self).pos_spec() == old(
                self,
            ).end_spec(),
    {
        match self.read_u32() {
            Some(v) => Some(v as i32),
            None => None,
        }
    }

    /// Read a little-endian `u64`.
    pub fn read_u64(&mut self) -> (r: Option<u64>)
        requires
            old(self).wf(),
        ensures
            final(self).wf(),
            old(self).same_window(*final(self)),
            old(self).remaining_spec() >= 8 ==> r == Some(
                u64_le(old(self).bytes().subrange(old(self).pos_spec(), old(self).pos_spec() + 8)),
            ) && final(self).pos_spec() == old(self).pos_spec() + 8,
            old(self).remaining_spec() < 8 ==> r is None && final(self).pos_spec() == old(
                self,
            ).end_spec(),
    {
        if self.end - self.pos >= 8 {
            let b0 = self.data[self.pos] as u64;
            let b1 = self.data[self.pos + 1] as u64;
            let b2 = self.data[self.pos + 2] as u64;
            let b3 = self.data[self.pos + 3] as u64;
            let b4 = self.data[self.pos + 4] as u64;
            let b5 = self.data[self.pos + 5] as u64;
            let b6 = self.data[self.pos + 6] as u64;
            let b7 = self.data[self.pos + 7] as u64;
            self.pos = self.pos + 8;
            Some(
                b0 + b1 * 256 + b2 * 65536 + b3 * 16777216 + b4 * 4294967296 + b5 * 1099511627776
                    + b6 * 281474976710656 + b7 * 72057594037927936,
            )
        } else {
            self.pos = self.end;
            None
        }
    }

    /// Read a length-prefixed string: a `u32` byte length, then that many
    /// bytes decoded permissively (invalid sequences replaced, never
    /// rejected). Fails on a short window or an implausibly large length.
    pub fn read_fstring(&mut self) -> (r: Option<String>)
        requires
            old(self).wf(),
        ensures
            final(self).wf(),
            old(self).same_window(*final(self)),
            match r {
                Some(s) => spec_fstring_value(
                    old(self).bytes(),
                    old(self).pos_spec(),
                    old(self).end_spec(),
                ) == Some(s@),
                None => spec_fstring_value(
                    old(self).bytes(),
                    old(self).pos_spec(),
                    old(self).end_spec(),
                ) is None,
            },
            final(self).pos_spec() == spec_fstring_end(
                old(self).bytes(),
                old(self).pos_spec(),
                old(self).end_spec(),
            ),
    {
        let len = match self.read_u32() {
            Some(v) => v,
            None => {
                return None;
            },
        };
        if len == 0 {
            return Some(String::new());
        }
        if len > MAX_STRING_LEN {
            return None;
        }
        let buf = self.read_bytes_tolerant(len as usize);
        if buf.len() < len as usize {
            return None;
        }
        Some(lossy_string(buf.as_slice()))
    }

    /// Read a `u32` count, then that many length-prefixed strings.
    pub fn read_fstring_array(&mut self) -> (r: Option<Vec<String>>)
        requires
            old(self).wf(),
        ensures
            final(self).wf(),
            old(self).same_window(*final(self)),
            final(self).pos_spec() >= old(self).pos_spec(),
            match r {
                Some(v) => old(self).remaining_spec() >= 4 && {
                    let n = u32_le(
                        old(self).bytes().subrange(old(self).pos_spec(), old(self).pos_spec() + 4),
                    );
                    let parsed = spec_fstring_seq(
                        old(self).bytes(),
                        old(self).pos_spec() + 4,
                        old(self).end_spec(),
                        n as nat,
                    );
                    &&& parsed is Some
                    &&& v@.len() == n as int
                    &&& (forall|i: int| 0 <= i < n as int ==> parsed->Some_0.0[i] == v@[i]@)
                    &&& final(self).pos_spec() == parsed->Some_0.1
                },
                None => old(self).remaining_spec() < 4 || spec_fstring_seq(
                    old(self).bytes(),
                    old(self).pos_spec() + 4,
                    old(self).end_spec(),
                    u32_le(
                        old(self).bytes().subrange(old(self).pos_spec(), old(self).pos_spec() + 4),
                    ) as nat,
                ) is None,
            },
    {
        let ghost b = old(self).bytes();
        let ghost e = old(self).end_spec();
        let n = match self.read_u32() {
            Some(v) => v,
            None => {
                return None;
            },
        };
        let ghost p0 = self.pos_spec();
        let mut out: Vec<String> = Vec::new();
        let mut i: u32 = 0;
        while i < n
            invariant
                self.wf(),
                self.bytes() == b,
                self.end_spec() == e,
                old(self).same_window(*self),
                self.pos_spec() >= old(self).pos_spec(),
                old(self).remaining_spec() >= 4,
                p0 == old(self).pos_spec() + 4,
                n == u32_le(b.subrange(old(self).pos_spec(), old(self).pos_spec() + 4)),
                i <= n,
                out@.len() == i as int,
                spec_fstring_seq(b, p0, e, i as nat) is Some,
                spec_fstring_seq(b, p0, e, i as nat)->Some_0.0.len() == i as int,
                spec_fstring_seq(b, p0, e, i as nat)->Some_0.1 == self.pos_spec(),
                forall|j: int|
                    0 <= j < i as int ==> spec_fstring_seq(b, p0, e, i as nat)->Some_0.0[j]
                        == #[trigger] out@[j]@,
            decreases n - i,
    {
            let ghost q = self.pos_spec();
            let ghost prev = spec_fstring_seq(b, p0, e, i as nat)->Some_0;
            let s = match self.read_fstring() {
                Some(s) => s,
                None => {
                    proof {
                        lemma_fstring_seq_fail(b, p0, e, i as nat, n as nat);
                    }
                    return None;
                },
            };
            proof {
                lemma_fstring_seq_snoc(b, p0, e, i as nat);
                assert(spec_fstring_seq(b, p0, e, (i + 1) as nat) == Some(
                    (prev.0 + seq![s@], spec_fstring_end(b, q, e)),
                ));
            }
            let ghost out_prev = out@;
            out.push(s);
            i = i + 1;
            proof {
                assert forall|j: int| 0 <= j < i as int implies spec_fstring_seq(
                    b,
                    p0,
                    e,
                    i as nat,
                )->Some_0.0[j] == #[trigger] out@[j]@ by {
                    assert(spec_fstring_seq(b, p0, e, i as nat)->Some_0.0 == prev.0 + seq![s@]);
                    if j < i as int - 1 {
                        assert(out@[j] == out_prev[j]);
                        assert((prev.0 + seq![s@])[j] == prev.0[j]);
                    } else {
                        assert(out@[j] == s);
                        assert((prev.0 + seq![s@])[j] == s@);
                    }
                }
            }
        }
        Some(out)
    }

    /// Peek at up to `n` bytes without advancing the position.
    pub fn peek_bytes(&mut self, n: usize) -> (r: Vec<u8>)
        requires
            old(self).wf(),
        ensures
            final(self).wf(),
            old(self).same_window(*final(self)),
            final(self).pos_spec() == old(self).pos_spec(),
            r@.len() == if old(self).remaining_spec() >= n as int {
                n as int
            } else {
                old(self).remaining_spec()
            },
            r@ == old(self).bytes().subrange(old(self).pos_spec(), old(self).pos_spec() + r@.len()),
    {
        let saved = self.pos;
        let r = self.read_bytes_tolerant(n);
        self.pos = saved;
        r
    }

    /// Read a 128-bit identifier stored as four big-endian 32-bit words and
    /// reassemble it into its canonical string: each word's bytes are
    /// reversed. This mixed endianness is a quirk of the format, preserved
    /// exactly.
    pub fn read_guid(&mut self) -> (r: Option<String>)
        requires
            old(self).wf(),
        ensures
            final(self).wf(),
            old(self).same_window(*final(self)),
            old(self).remaining_spec() >= 16 ==> {
                let raw = old(self).bytes().subrange(old(self).pos_spec(), old(self).pos_spec() + 16);
                &&& r is Some
                &&& r->Some_0@ == crate::guid::guid_str_spec(
                    Seq::new(16, |i: int| raw[4 * (i / 4) + 3 - (i % 4)]),
                )
                &&& final(self).pos_spec() == old(self).pos_spec() + 16
            },
            old(self).remaining_spec() < 16 ==> r is None && final(self).pos_spec() == old(
                self,
            ).end_spec(),
    {
        let raw = self.read_bytes_tolerant(16);
        if raw.len() < 16 {
            return None;
        }
        let mut swapped: Vec<u8> = Vec::new();
        let mut i: usize = 0;
        while i < 16
            invariant
                raw@.len() == 16,
                i <= 16,
                swapped@.len() == i as int,
                forall|j: int|
                    0 <= j < i as int ==> #[trigger] swapped@[j] == raw@[4 * (j / 4) + 3 - (j % 4)],
            decreases 16 - i,
        {
            let group = i / 4;
            let k = i % 4;
            swapped.push(raw[4 * group + 3 - k]);
            i = i + 1;
        }
        let s = crate::guid::guid_to_string(swapped.as_slice());
        proof {
            assert(swapped@ =~= Seq::new(16, |j: int| raw@[4 * (j / 4) + 3 - (j % 4)]));
        }
        Some(s)
    }

    /// Split off a sub-window of at most `size` bytes starting at the current
    /// position. The sub-reader can never read past that boundary, however
    /// much the fields inside it over-request; this reader moves to the
    /// boundary.
    pub fn take_window(&mut self, size: usize) -> (r: ByteReader<'a>)
        requires
            old(self).wf(),
        ensures
            final(self).wf(),
            r.wf(),
            old(self).same_window(*final(self)),
            r.bytes() == old(self).bytes(),
            r.pos_spec() == old(self).pos_spec(),
            r.end_spec() == if old(self).remaining_spec() >= size as int {
                old(self).pos_spec() + size as int
            } else {
                old(self).end_spec()
            },
            final(self).pos_spec() == r.end_spec(),
    {
        let child_end: usize = if size <= self.end - self.pos {
            self.pos + size
        } else {
            self.end
        };
        let r = ByteReader { data: self.data, pos: self.pos, end: child_end };
        self.pos = child_end;
        r
    }
}

} // verus!
