//! The decoding half of the range coder of RFC 6716, section 4.1.
//!
//! The decoder keeps a window `[0, rng)` and the distance `val` from the top of
//! that window to the coded point. A symbol is decoded against an inverse
//! cumulative distribution (ICDF) table; afterwards the window is scaled back
//! up ("normalized") by reading further bytes of the buffer.
use vstd::prelude::*;
use vstd::arithmetic::power2::pow2;

verus! {

/// Lower bound of the range after normalization (`EC_CODE_BOT`, 2^23).
pub const EC_CODE_BOT: u32 = 0x0080_0000;

/// Upper bound of the range (`EC_CODE_TOP`, 2^31).
pub const EC_CODE_TOP: u32 = 0x8000_0000;

/// The mathematical state of a range decoder.
pub struct DecoderView {
    /// The whole input buffer.
    pub buf: Seq<u8>,
    /// Number of bytes read from the front of `buf`.
    pub offs: int,
    /// Size of the current window.
    pub rng: int,
    /// Distance from the top of the window to the coded value.
    pub val: int,
    /// The last byte read.
    pub rem: int,
}

/// The byte at `offs`, or 0 past the end of the buffer.
pub open spec fn read_byte_spec(buf: Seq<u8>, offs: int) -> int {
    if 0 <= offs < buf.len() {
        buf[offs] as int
    } else {
        0
    }
}

/// The read position after one byte read.
pub open spec fn next_offs(buf: Seq<u8>, offs: int) -> int {
    if 0 <= offs < buf.len() {
        offs + 1
    } else {
        offs
    }
}

/// Scale the window up by whole bytes until it exceeds `EC_CODE_BOT`.
/// Each step shifts one more byte in; the top bit of the new byte completes
/// the 7 bits left over from the previous one, and the bits enter inverted.
pub open spec fn normalize_spec(v: DecoderView) -> DecoderView
    decreases EC_CODE_TOP - v.rng,
{
    if v.rng <= 0 || v.rng > EC_CODE_BOT as int {
        v
    } else {
        let b = read_byte_spec(v.buf, v.offs);
        let sym = (v.rem * 256 + b) / 2;
        normalize_spec(
            DecoderView {
                buf: v.buf,
                offs: next_offs(v.buf, v.offs),
                rng: v.rng * 256,
                val: v.val * 256 + 255 - sym % 256,
                rem: b,
            },
        )
    }
}

/// The state of a decoder freshly started on `buf`.
pub open spec fn init_spec(buf: Seq<u8>) -> DecoderView {
    let b = read_byte_spec(buf, 0);
    normalize_spec(
        DecoderView { buf, offs: next_offs(buf, 0), rng: 128, val: 127 - b / 2, rem: b },
    )
}

/// The first four bytes of `buf` (0 past its end) read as a big-endian number.
pub open spec fn be32(buf: Seq<u8>) -> int {
    read_byte_spec(buf, 0) * 0x100_0000 + read_byte_spec(buf, 1) * 0x1_0000 + read_byte_spec(buf, 2)
        * 0x100 + read_byte_spec(buf, 3)
}

/// Appending byte `b` to a bit string `x` whose last bit is that of the
/// previous byte `p`: the new 8 bits of `x/2` are the low bit of `p` followed
/// by the top 7 bits of `b`.
proof fn lemma_shift_in_byte(x: int, p: int, b: int)
    requires
        x >= 0,
        0 <= p < 256,
        0 <= b < 256,
        x % 2 == p % 2,
    ensures
        ((p * 256 + b) / 2) % 256 == 128 * (p % 2) + b / 2,
        256 * (x / 2) + ((p * 256 + b) / 2) % 256 == (x * 256 + b) / 2,
        (x * 256 + b) % 2 == b % 2,
{
    let bh = b / 2;
    let bl = b % 2;
    let ph = p / 2;
    let pl = p % 2;
    let xh = x / 2;
    assert(b == 2 * bh + bl && 0 <= bl < 2 && 0 <= bh < 128);
    assert(p == 2 * ph + pl && 0 <= pl < 2);
    assert(x == 2 * xh + pl);
    vstd::arithmetic::div_mod::lemma_fundamental_div_mod_converse(
        p * 256 + b,
        2,
        p * 128 + bh,
        bl,
    );
    vstd::arithmetic::div_mod::lemma_fundamental_div_mod_converse(
        p * 128 + bh,
        256,
        ph,
        128 * pl + bh,
    );
    vstd::arithmetic::div_mod::lemma_fundamental_div_mod_converse(
        x * 256 + b,
        2,
        256 * xh + 128 * pl + bh,
        bl,
    );
}

/// One normalization step shifts the window up by a byte: the new `val` is
/// `256 * val + 255` minus the next 8 bits of the stream, which are the low
/// bit of the previous byte followed by the top 7 bits of the byte read.
pub proof fn lemma_normalize_step(v: DecoderView)
    requires
        window_inv(v),
        v.rng <= EC_CODE_BOT as int,
    ensures
        normalize_spec(v) == normalize_spec(
            DecoderView {
                buf: v.buf,
                offs: next_offs(v.buf, v.offs),
                rng: 256 * v.rng,
                val: 256 * v.val + 255 - (128 * (v.rem % 2) + read_byte_spec(v.buf, v.offs) / 2),
                rem: read_byte_spec(v.buf, v.offs),
            },
        ),
{
    lemma_shift_in_byte(v.rem, v.rem, read_byte_spec(v.buf, v.offs));
}

/// A fresh decoder has read the first four bytes (all there are of a shorter
/// buffer), its window is `[0, 2^31)`, and `val` is `2^31 - 1` minus the first
/// 31 bits of the stream, that is the first four bytes read as a big-endian
/// number and halved.
pub proof fn lemma_init_closed_form(buf: Seq<u8>)
    ensures
        init_spec(buf) == (DecoderView {
            buf,
            offs: if buf.len() >= 4 {
                4
            } else {
                buf.len() as int
            },
            rng: EC_CODE_TOP as int,
            val: 0x7fff_ffff - be32(buf) / 2,
            rem: read_byte_spec(buf, 3),
        }),
{
    let b0 = read_byte_spec(buf, 0);
    let b1 = read_byte_spec(buf, 1);
    let b2 = read_byte_spec(buf, 2);
    let b3 = read_byte_spec(buf, 3);
    let x1 = b0 * 256 + b1;
    let x2 = x1 * 256 + b2;
    let x3 = x2 * 256 + b3;
    let v0 = DecoderView { buf, offs: next_offs(buf, 0), rng: 128, val: 127 - b0 / 2, rem: b0 };
    assert(read_byte_spec(buf, v0.offs) == b1);
    lemma_shift_in_byte(b0, b0, b1);
    let v1 = DecoderView {
        buf,
        offs: next_offs(buf, v0.offs),
        rng: 0x8000,
        val: 0x7fff - x1 / 2,
        rem: b1,
    };
    assert(normalize_spec(v0) == normalize_spec(v1));
    assert(read_byte_spec(buf, v1.offs) == b2);
    lemma_shift_in_byte(x1, b1, b2);
    let v2 = DecoderView {
        buf,
        offs: next_offs(buf, v1.offs),
        rng: 0x80_0000,
        val: 0x7f_ffff - x2 / 2,
        rem: b2,
    };
    assert(normalize_spec(v1) == normalize_spec(v2));
    assert(read_byte_spec(buf, v2.offs) == b3);
    lemma_shift_in_byte(x2, b2, b3);
    let v3 = DecoderView {
        buf,
        offs: next_offs(buf, v2.offs),
        rng: 0x8000_0000,
        val: 0x7fff_ffff - x3 / 2,
        rem: b3,
    };
    assert(normalize_spec(v2) == normalize_spec(v3));
    assert(normalize_spec(v3) == v3);
    assert(x3 == be32(buf));
}

/// The first index `k' >= k` of `icdf` with `val >= r * icdf[k']`
/// (the length of `icdf` when there is none).
pub open spec fn icdf_scan(val: int, r: int, icdf: Seq<u8>, k: nat) -> int
    decreases icdf.len() - k,
{
    if k >= icdf.len() {
        k as int
    } else if val >= r * icdf[k as int] {
        k as int
    } else {
        icdf_scan(val, r, icdf, k + 1)
    }
}

/// An ICDF table holds a 0 (at an index that fits in an `i32`), so that
/// decoding against it always stops inside it.
pub open spec fn icdf_terminated(icdf: Seq<u8>) -> bool {
    exists|z: int| 0 <= z < icdf.len() && z <= i32::MAX && icdf[z] == 0
}

/// Every entry of `icdf` is below `2^ftb`.
pub open spec fn icdf_fits(icdf: Seq<u8>, ftb: nat) -> bool {
    forall|k: int| 0 <= k < icdf.len() ==> (icdf[k] as nat) < pow2(ftb)
}

/// The symbol decoded against `icdf` (with `ftb` bits of precision) from state `v`.
pub open spec fn icdf_symbol(v: DecoderView, icdf: Seq<u8>, ftb: nat) -> int {
    icdf_scan(v.val, v.rng / (pow2(ftb) as int), icdf, 0)
}

/// Decoding one symbol: the symbol `k` is the first whose scaled ICDF entry
/// lies at or below `val`; the window shrinks to that symbol's interval and
/// is normalized again.
pub open spec fn decode_icdf_spec(v: DecoderView, icdf: Seq<u8>, ftb: nat) -> (int, DecoderView) {
    let r = v.rng / (pow2(ftb) as int);
    let k = icdf_symbol(v, icdf, ftb);
    let s = r * icdf[k];
    let t = if k == 0 {
        v.rng
    } else {
        r * icdf[k - 1]
    };
    (k, normalize_spec(DecoderView { val: v.val - s, rng: t - s, ..v }))
}

/// The invariant of a decoder between two symbols.
pub open spec fn decoder_inv(v: DecoderView) -> bool {
    &&& EC_CODE_BOT < v.rng <= EC_CODE_TOP
    &&& 0 <= v.val < v.rng
    &&& 0 <= v.rem < 256
    &&& 0 <= v.offs <= v.buf.len()
}

/// The invariant inside normalization: the window may be small but not empty.
pub open spec fn window_inv(v: DecoderView) -> bool {
    &&& 0 < v.rng <= EC_CODE_TOP
    &&& 0 <= v.val < v.rng
    &&& 0 <= v.rem < 256
    &&& 0 <= v.offs <= v.buf.len()
}

/// Normalization ends in a decoder state, and never changes the buffer.
pub proof fn lemma_normalize(v: DecoderView)
    requires
        window_inv(v),
    ensures
        decoder_inv(normalize_spec(v)),
        normalize_spec(v).buf == v.buf,
    decreases EC_CODE_TOP - v.rng,
{
    if v.rng <= EC_CODE_BOT as int {
        let b = read_byte_spec(v.buf, v.offs);
        let sym = (v.rem * 256 + b) / 2;
        let w = DecoderView {
            buf: v.buf,
            offs: next_offs(v.buf, v.offs),
            rng: v.rng * 256,
            val: v.val * 256 + 255 - sym % 256,
            rem: b,
        };
        assert(v.val * 256 + 255 < v.rng * 256) by (nonlinear_arith)
            requires
                v.val < v.rng,
        ;
        assert(v.rng * 256 <= EC_CODE_TOP) by (nonlinear_arith)
            requires
                v.rng <= EC_CODE_BOT as int,
        ;
        assert(v.rng * 256 > v.rng) by (nonlinear_arith)
            requires
                v.rng > 0,
        ;
        lemma_normalize(w);
    }
}

/// The scan stops at or before any 0 entry at or after `k`.
pub proof fn lemma_icdf_scan_bound(val: int, r: int, icdf: Seq<u8>, k: nat, z: int)
    requires
        val >= 0,
        k <= z < icdf.len(),
        icdf[z] == 0,
    ensures
        k <= icdf_scan(val, r, icdf, k) <= z,
        val >= r * icdf[icdf_scan(val, r, icdf, k)],
        forall|j: int| k <= j < icdf_scan(val, r, icdf, k) ==> val < r * icdf[j],
    decreases icdf.len() - k,
{
    if val >= r * icdf[k as int] {
    } else {
        if k as int == z {
            assert(r * icdf[z] == 0) by (nonlinear_arith)
                requires
                    icdf[z] == 0,
            ;
        }
        lemma_icdf_scan_bound(val, r, icdf, k + 1, z);
    }
}

/// The scan gives the same index on `icdf` and on its prefix of length `m`
/// when that prefix ends with 0 and `val` is not negative.
proof fn lemma_icdf_scan_prefix(val: int, r: int, icdf: Seq<u8>, m: int, k: nat)
    requires
        val >= 0,
        0 < m <= icdf.len(),
        k < m,
        icdf[m - 1] == 0,
    ensures
        icdf_scan(val, r, icdf, k) == icdf_scan(val, r, icdf.subrange(0, m), k),
        k <= icdf_scan(val, r, icdf, k) < m,
    decreases m - k,
{
    let p = icdf.subrange(0, m);
    assert(p[k as int] == icdf[k as int]);
    if val >= r * icdf[k as int] {
    } else {
        if k as int == m - 1 {
            assert(r * icdf[m - 1] == 0) by (nonlinear_arith)
                requires
                    icdf[m - 1] == 0,
            ;
        }
        lemma_icdf_scan_prefix(val, r, icdf, m, k + 1);
    }
}

/// Decoding against an ICDF table only reads it up to its first terminating
/// 0: a table and its prefix ending at a 0 give the same symbol and state.
pub proof fn lemma_decode_icdf_prefix(v: DecoderView, icdf: Seq<u8>, m: int, ftb: nat)
    requires
        v.val >= 0,
        0 < m <= icdf.len(),
        icdf[m - 1] == 0,
    ensures
        decode_icdf_spec(v, icdf, ftb) == decode_icdf_spec(v, icdf.subrange(0, m), ftb),
{
    let r = v.rng / (pow2(ftb) as int);
    lemma_icdf_scan_prefix(v.val, r, icdf, m, 0);
    let k = icdf_symbol(v, icdf, ftb);
    let p = icdf.subrange(0, m);
    assert(icdf_symbol(v, p, ftb) == k);
    assert(p[k] == icdf[k]);
    if k > 0 {
        assert(p[k - 1] == icdf[k - 1]);
    }
}

/// Decoding one symbol from a decoder state keeps the decoder invariant and
/// the buffer; the symbol lies inside the table, at or before each of its 0
/// entries, and is the first index whose scaled entry lies at or below `val`.
pub proof fn lemma_decode_icdf_spec(v: DecoderView, icdf: Seq<u8>, ftb: nat)
    requires
        decoder_inv(v),
        ftb < 32,
        icdf_terminated(icdf),
        icdf_fits(icdf, ftb),
    ensures
        ({
            let (k, w) = decode_icdf_spec(v, icdf, ftb);
            let r = v.rng / (pow2(ftb) as int);
            &&& decoder_inv(w)
            &&& w.buf == v.buf
            &&& 0 <= k < icdf.len()
            &&& forall|z: int| 0 <= z < icdf.len() && icdf[z] == 0 ==> k <= z
            &&& r * icdf[k] <= v.val
            &&& forall|j: int| 0 <= j < k ==> v.val < r * #[trigger] icdf[j]
        }),
{
    vstd::arithmetic::power2::lemma_pow2_pos(ftb);
    let p = pow2(ftb) as int;
    let r = v.rng / p;
    let z = choose|z: int| 0 <= z < icdf.len() && z <= i32::MAX && icdf[z] == 0;
    assert(0 <= r && r * p <= v.rng) by (nonlinear_arith)
        requires
            r == v.rng / p,
            p > 0,
            v.rng >= 0,
    ;
    assert forall|j: int| 0 <= j < icdf.len() implies 0 <= r * #[trigger] icdf[j] <= v.rng by {
        assert(0 <= r * icdf[j] <= r * p) by (nonlinear_arith)
            requires
                0 <= icdf[j] < p,
                r >= 0,
        ;
    }
    lemma_icdf_scan_bound(v.val, r, icdf, 0, z);
    let k = icdf_symbol(v, icdf, ftb);
    let s = r * icdf[k];
    let t = if k == 0 {
        v.rng
    } else {
        r * icdf[k - 1]
    };
    assert forall|z2: int| 0 <= z2 < icdf.len() && icdf[z2] == 0 implies k <= z2 by {
        if z2 < k {
            assert(r * icdf[z2] == 0) by (nonlinear_arith)
                requires
                    icdf[z2] == 0,
            ;
        }
    }
    lemma_normalize(DecoderView { val: v.val - s, rng: t - s, ..v });
}

/// The range coder, in its decoding role: reads symbols from a byte buffer.
pub struct RangeCoder<'a> {
    buf: &'a [u8],
    offs: usize,
    rng: u32,
    val: u32,
    rem: u32,
}

impl<'a> View for RangeCoder<'a> {
    type V = DecoderView;

    closed spec fn view(&self) -> DecoderView {
        DecoderView {
            buf: self.buf@,
            offs: self.offs as int,
            rng: self.rng as int,
            val: self.val as int,
            rem: self.rem as int,
        }
    }
}

/// One normalization of a window given by its parts; returns the new
/// `(offs, rng, val, rem)`.
fn normalize_parts(buf: &[u8], offs: usize, rng: u32, val: u32, rem: u32) -> (res: (
    usize,
    u32,
    u32,
    u32,
))
    requires
        window_inv(
            DecoderView {
                buf: buf@,
                offs: offs as int,
                rng: rng as int,
                val: val as int,
                rem: rem as int,
            },
        ),
    ensures
        normalize_spec(
            DecoderView {
                buf: buf@,
                offs: offs as int,
                rng: rng as int,
                val: val as int,
                rem: rem as int,
            },
        ) == (DecoderView {
            buf: buf@,
            offs: res.0 as int,
            rng: res.1 as int,
            val: res.2 as int,
            rem: res.3 as int,
        }),
        decoder_inv(
            DecoderView {
                buf: buf@,
                offs: res.0 as int,
                rng: res.1 as int,
                val: res.2 as int,
                rem: res.3 as int,
            },
        ),
{
    let ghost start = DecoderView {
        buf: buf@,
        offs: offs as int,
        rng: rng as int,
        val: val as int,
        rem: rem as int,
    };
    let mut offs = offs;
    let mut rng = rng;
    let mut val = val;
    let mut rem = rem;
    while rng <= EC_CODE_BOT
        invariant
            window_inv(
                DecoderView {
                    buf: buf@,
                    offs: offs as int,
                    rng: rng as int,
                    val: val as int,
                    rem: rem as int,
                },
            ),
            normalize_spec(
                DecoderView {
                    buf: buf@,
                    offs: offs as int,
                    rng: rng as int,
                    val: val as int,
                    rem: rem as int,
                },
            ) == normalize_spec(start),
        decreases EC_CODE_TOP - rng,
    {
        let b: u32 = if offs < buf.len() {
            let x = buf[offs] as u32;
            offs = offs + 1;
            x
        } else {
            0
        };
        let sym: u32 = (rem * 256 + b) / 2;
        assert(val * 256 + 255 < rng * 256) by (nonlinear_arith)
            requires
                val < rng,
        ;
        assert(rng * 256 <= EC_CODE_TOP) by (nonlinear_arith)
            requires
                rng <= EC_CODE_BOT,
        ;
        assert(rng * 256 > rng) by (nonlinear_arith)
            requires
                rng > 0,
        ;
        rng = rng * 256;
        val = val * 256 + 255 - sym % 256;
        rem = b;
    }
    proof {
        lemma_normalize(
            DecoderView {
                buf: buf@,
                offs: offs as int,
                rng: rng as int,
                val: val as int,
                rem: rem as int,
            },
        );
    }
    (offs, rng, val, rem)
}

impl<'a> RangeCoder<'a> {
    #[verifier::type_invariant]
    spec fn well_formed(self) -> bool {
        decoder_inv(self@)
    }

    /// Starts decoding `buf` (bytes past its end read as 0): the first four
    /// bytes are read, the window is `[0, 2^31)` and `val` is `2^31 - 1` minus
    /// those bytes read as a big-endian number and halved.
    pub fn new(buf: &'a [u8]) -> (d: Self)
        ensures
            d@ == init_spec(buf@),
            d@.buf == buf@,
            d@.offs == if buf@.len() >= 4 {
                4
            } else {
                buf@.len() as int
            },
            d@.rng == EC_CODE_TOP,
            d@.val == 0x7fff_ffff - be32(buf@) / 2,
            d@.rem == read_byte_spec(buf@, 3),
    {
        proof {
            lemma_init_closed_form(buf@);
        }
        let b: u32 = if buf.len() > 0 {
            buf[0] as u32
        } else {
            0
        };
        let offs: usize = if buf.len() > 0 {
            1
        } else {
            0
        };
        let (offs, rng, val, rem) = normalize_parts(buf, offs, 128, 127 - b / 2, b);
        RangeCoder { buf, offs, rng, val, rem }
    }

    /// Decodes one symbol against the ICDF table `icdf` whose entries count
    /// in units of `2^-ftb`. The table must hold a 0 and its entries must be
    /// below `2^ftb`.
    pub fn decode_icdf(&mut self, icdf: &[u8], ftb: u32) -> (s: i32)
        requires
            ftb < 32,
            icdf_terminated(icdf@),
            icdf_fits(icdf@, ftb as nat),
        ensures
            (s as int, final(self)@) == decode_icdf_spec(old(self)@, icdf@, ftb as nat),
            0 <= s < icdf@.len(),
            forall|z: int| 0 <= z < icdf@.len() && icdf@[z] == 0 ==> s <= z,
            final(self)@.buf == old(self)@.buf,
            decoder_inv(old(self)@),
            decoder_inv(final(self)@),
            // The symbol is the first whose scaled ICDF entry lies at or below `val`.
            (old(self)@.rng / (pow2(ftb as nat) as int)) * icdf@[s as int] <= old(self)@.val,
            forall|j: int|
                0 <= j < s ==> old(self)@.val < (old(self)@.rng / (pow2(ftb as nat) as int))
                    * #[trigger] icdf@[j],
    {
        proof {
            use_type_invariant(&*self);
            vstd::bits::lemma_u32_shr_is_div(self.rng, ftb);
            vstd::arithmetic::power2::lemma_pow2_pos(ftb as nat);
        }
        let ghost v = self@;
        let ghost z = choose|z: int| 0 <= z < icdf@.len() && z <= i32::MAX && icdf@[z] == 0;
        let ghost p = pow2(ftb as nat) as int;
        let rng = self.rng;
        let val = self.val;
        let r: u32 = rng >> ftb;
        assert(r * p <= rng) by (nonlinear_arith)
            requires
                r == rng as int / p,
                p > 0,
        ;
        assert forall|j: int| 0 <= j < icdf@.len() implies r * icdf@[j] <= rng by {
            assert(r * icdf@[j] <= r * p) by (nonlinear_arith)
                requires
                    icdf@[j] < p,
                    r >= 0,
            ;
        }
        proof {
            lemma_icdf_scan_bound(val as int, r as int, icdf@, 0, z);
        }
        let mut k: usize = 0;
        loop
            invariant
                0 <= k <= z < icdf@.len(),
                z <= i32::MAX,
                r == v.rng / p,
                val == v.val,
                icdf_scan(val as int, r as int, icdf@, k as nat) == icdf_scan(
                    val as int,
                    r as int,
                    icdf@,
                    0,
                ),
                forall|j: int| 0 <= j < icdf@.len() ==> r * icdf@[j] <= rng,
                forall|j: int| 0 <= j < k ==> val < r * icdf@[j],
                icdf@[z] == 0,
            ensures
                k == icdf_scan(val as int, r as int, icdf@, 0),
                0 <= k <= z,
                z <= i32::MAX,
                val >= r * icdf@[k as int],
                forall|j: int| 0 <= j < k ==> val < r * icdf@[j],
            decreases z - k,
        {
            let s: u32 = r * icdf[k] as u32;
            if val >= s {
                break ;
            }
            proof {
                if k as int == z {
                    assert(r * icdf@[z] == 0) by (nonlinear_arith)
                        requires
                            icdf@[z] == 0,
                    ;
                }
            }
            k = k + 1;
        }
        proof {
            assert forall|z2: int| 0 <= z2 < icdf@.len() && icdf@[z2] == 0 implies k <= z2 by {
                if z2 < k {
                    assert(r * icdf@[z2] == 0) by (nonlinear_arith)
                        requires
                            icdf@[z2] == 0,
                    ;
                }
            }
        }
        let s: u32 = r * icdf[k] as u32;
        let t: u32 = if k == 0 {
            rng
        } else {
            r * icdf[k - 1] as u32
        };
        let (offs, rng2, val2, rem) = normalize_parts(self.buf, self.offs, t - s, val - s, self.rem);
        *self = RangeCoder { buf: self.buf, offs, rng: rng2, val: val2, rem };
        k as i32
    }
}

} // verus!
