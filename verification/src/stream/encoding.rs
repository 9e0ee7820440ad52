//! The wire encodings that the stream reads and writes, stated as
//! mathematical functions on byte sequences, with the lemmas that tie the
//! readers to the writers.

use vstd::prelude::*;

verus! {

/// `n` zero bytes.
pub open spec fn zeros(n: nat) -> Seq<u8> {
    Seq::new(n, |i: int| 0u8)
}

/// `data` grown with zero bytes to hold at least `len` bytes.
pub open spec fn grown(data: Seq<u8>, len: int) -> Seq<u8> {
    if len <= data.len() {
        data
    } else {
        data + zeros((len - data.len()) as nat)
    }
}

/// `data` with `bytes` written over it from position `pos`, grown with zero
/// bytes first where it is too short.
pub open spec fn written_at(data: Seq<u8>, pos: int, bytes: Seq<u8>) -> Seq<u8> {
    let g = grown(data, pos + bytes.len());
    g.take(pos) + bytes + g.skip(pos + bytes.len())
}

/// The unsigned number below 2^32 that has the same 32 bits as `v`.
pub open spec fn unsigned32(v: int) -> int {
    if v < 0 {
        v + 0x1_0000_0000
    } else {
        v
    }
}

/// The unsigned number below 2^16 that has the same 16 bits as `v`.
pub open spec fn unsigned16(v: int) -> int {
    if v < 0 {
        v + 0x1_0000
    } else {
        v
    }
}

/// The two big-endian bytes of a 16-bit integer.
pub open spec fn be16_bytes(v: i16) -> Seq<u8> {
    let u = unsigned16(v as int);
    seq![(u / 0x100) as u8, (u % 0x100) as u8]
}

/// The four big-endian bytes of a 32-bit integer.
pub open spec fn be32_bytes(v: i32) -> Seq<u8> {
    let u = unsigned32(v as int);
    seq![
        (u / 0x100_0000) as u8,
        (u / 0x1_0000 % 0x100) as u8,
        (u / 0x100 % 0x100) as u8,
        (u % 0x100) as u8,
    ]
}

/// The 16-bit integer whose big-endian bytes start `b`.
pub open spec fn be16_value(b: Seq<u8>) -> i16 {
    let u = b[0] * 0x100 + b[1];
    (if u >= 0x8000 {
        u - 0x1_0000
    } else {
        u
    }) as i16
}

/// The 32-bit integer whose big-endian bytes start `b`.
pub open spec fn be32_value(b: Seq<u8>) -> i32 {
    let u = b[0] * 0x100_0000 + b[1] * 0x1_0000 + b[2] * 0x100 + b[3];
    (if u >= 0x8000_0000 {
        u - 0x1_0000_0000
    } else {
        u
    }) as i32
}

/// The digits, base 256, of a number made of four byte digits.
proof fn lemma_base256_digits(b0: u8, b1: u8, b2: u8, b3: u8)
    ensures
        (b0 * 0x100_0000 + b1 * 0x1_0000 + b2 * 0x100 + b3) / 0x100_0000 == b0,
        (b0 * 0x100_0000 + b1 * 0x1_0000 + b2 * 0x100 + b3) / 0x1_0000 % 0x100 == b1,
        (b0 * 0x100_0000 + b1 * 0x1_0000 + b2 * 0x100 + b3) / 0x100 % 0x100 == b2,
        (b0 * 0x100_0000 + b1 * 0x1_0000 + b2 * 0x100 + b3) % 0x100 == b3,
{
    assert((b0 * 0x100_0000 + b1 * 0x1_0000 + b2 * 0x100 + b3) / 0x100_0000 == b0) by (bit_vector);
    assert((b0 * 0x100_0000 + b1 * 0x1_0000 + b2 * 0x100 + b3) / 0x1_0000 % 0x100 == b1) by (bit_vector);
    assert((b0 * 0x100_0000 + b1 * 0x1_0000 + b2 * 0x100 + b3) / 0x100 % 0x100 == b2) by (bit_vector);
    assert((b0 * 0x100_0000 + b1 * 0x1_0000 + b2 * 0x100 + b3) % 0x100 == b3) by (bit_vector);
}

/// Four bytes read as a big-endian integer give back the same four bytes
/// when written.
pub proof fn lemma_be32_bytes_of_value(b: Seq<u8>)
    requires
        b.len() == 4,
    ensures
        be32_bytes(be32_value(b)) == b,
{
    lemma_base256_digits(b[0], b[1], b[2], b[3]);
    let u = b[0] * 0x100_0000 + b[1] * 0x1_0000 + b[2] * 0x100 + b[3];
    assert(unsigned32(be32_value(b) as int) == u);
    assert(be32_bytes(be32_value(b)) =~= b);
}

/// Big-endian bytes read back give the integer they were made from.
pub proof fn lemma_be32_roundtrip(v: i32)
    ensures
        be32_bytes(v).len() == 4,
        be32_value(be32_bytes(v)) == v,
{
}

/// Big-endian bytes read back give the integer they were made from.
pub proof fn lemma_be16_roundtrip(v: i16)
    ensures
        be16_bytes(v).len() == 2,
        be16_value(be16_bytes(v)) == v,
{
}


/// The signed 32-bit integer with the same 32 bits as the unsigned `u`.
pub open spec fn signed32(u: int) -> i32 {
    (if u >= 0x8000_0000 {
        u - 0x1_0000_0000
    } else {
        u
    }) as i32
}

/// The unsigned number below 2^64 that has the same 64 bits as `v`.
pub open spec fn unsigned64(v: int) -> int {
    if v < 0 {
        v + 0x1_0000_0000_0000_0000
    } else {
        v
    }
}

/// The high 32 bits of a 64-bit integer, as a signed 32-bit integer.
pub open spec fn high_word(v: i64) -> i32 {
    signed32(unsigned64(v as int) / 0x1_0000_0000)
}

/// The low 32 bits of a 64-bit integer, as a signed 32-bit integer.
pub open spec fn low_word(v: i64) -> i32 {
    signed32(unsigned64(v as int) % 0x1_0000_0000)
}

/// The unsigned number whose big-endian bytes are the first 8 bytes of `b`.
pub open spec fn be64_unsigned(b: Seq<u8>) -> int {
    b[0] * 0x100_0000_0000_0000 + b[1] * 0x1_0000_0000_0000 + b[2] * 0x100_0000_0000
        + b[3] * 0x1_0000_0000 + b[4] * 0x100_0000 + b[5] * 0x1_0000 + b[6] * 0x100 + b[7]
}

/// The base-256 digits of a 32-bit number put back together give the number.
proof fn lemma_base256_compose(x: u32)
    ensures
        (x / 0x100_0000) * 0x100_0000 + (x / 0x1_0000 % 0x100) * 0x1_0000 + (x / 0x100 % 0x100) * 0x100
            + x % 0x100 == x,
{
    assert((x / 0x100_0000) * 0x100_0000 + (x / 0x1_0000 % 0x100) * 0x1_0000 + (x / 0x100 % 0x100)
        * 0x100 + x % 0x100 == x) by (bit_vector);
}

/// The big-endian bytes of a 32-bit integer, read as an unsigned number,
/// give its 32 bits.
pub proof fn lemma_be32_bytes_unsigned(v: i32)
    ensures
        be32_bytes(v)[0] * 0x100_0000 + be32_bytes(v)[1] * 0x1_0000 + be32_bytes(v)[2] * 0x100
            + be32_bytes(v)[3] == unsigned32(v as int),
{
    let u = unsigned32(v as int);
    lemma_base256_compose(u as u32);
}

/// A 64-bit integer is its high word times 2^32 plus its low word, both
/// taken unsigned: the two words together hold exactly its 64 bits.
pub proof fn law_words_of_long(v: i64)
    ensures
        unsigned32(high_word(v) as int) * 0x1_0000_0000 + unsigned32(low_word(v) as int) == unsigned64(v as int),
        0 <= unsigned64(v as int) < 0x1_0000_0000_0000_0000,
        (v as int) == (if unsigned64(v as int) >= 0x8000_0000_0000_0000 {
            unsigned64(v as int) - 0x1_0000_0000_0000_0000
        } else {
            unsigned64(v as int)
        }),
{
    let u = unsigned64(v as int);
    let h = u / 0x1_0000_0000;
    let l = u % 0x1_0000_0000;
    assert(0 <= h < 0x1_0000_0000);
    assert(0 <= l < 0x1_0000_0000);
    assert(unsigned32(signed32(h) as int) == h);
    assert(unsigned32(signed32(l) as int) == l);
    assert(h * 0x1_0000_0000 + l == u);
}

/// The eight bytes of a long long, its high word's big-endian bytes and
/// then its low word's, are the big-endian bytes of its 64 bits.
pub proof fn law_long_long_bytes(v: i64)
    ensures
        (be32_bytes(high_word(v)) + be32_bytes(low_word(v))).len() == 8,
        be64_unsigned(be32_bytes(high_word(v)) + be32_bytes(low_word(v))) == unsigned64(v as int),
{
    let b = be32_bytes(high_word(v)) + be32_bytes(low_word(v));
    let bh = be32_bytes(high_word(v));
    let bl = be32_bytes(low_word(v));
    lemma_be32_bytes_unsigned(high_word(v));
    lemma_be32_bytes_unsigned(low_word(v));
    law_words_of_long(v);
    assert(b[0] == bh[0] && b[1] == bh[1] && b[2] == bh[2] && b[3] == bh[3]);
    assert(b[4] == bl[0] && b[5] == bl[1] && b[6] == bl[2] && b[7] == bl[3]);
    let hi = bh[0] * 0x100_0000 + bh[1] * 0x1_0000 + bh[2] * 0x100 + bh[3];
    let lo = bl[0] * 0x100_0000 + bl[1] * 0x1_0000 + bl[2] * 0x100 + bl[3];
    assert(be64_unsigned(b) == hi * 0x1_0000_0000 + lo);
}

/// 128 to the power `k`: the weight of the `k`-th 7-bit group.
pub open spec fn pow128(k: nat) -> nat
    decreases k,
{
    if k == 0 {
        1
    } else {
        128 * pow128((k - 1) as nat)
    }
}

/// The bytes after the first of a variable-length integer: each holds the
/// low 7 bits of `w` and, in its top bit, whether `f` is still non-zero;
/// both move on by 7 bits per byte until `f` runs out.
pub open spec fn vint_tail(w: nat, f: nat) -> Seq<u8>
    decreases f,
{
    let b = (w % 128 + if f != 0 { 128nat } else { 0nat }) as u8;
    if f == 0 {
        seq![b]
    } else {
        seq![b] + vint_tail(w / 128, f / 128)
    }
}

/// The variable-length encoding of `v`. The first byte holds the sign in
/// bit 6 and the low 6 bits of `v`; further bytes hold 7 bits each of `v`
/// shifted right by 6, for as long as the magnitude `v` (or `-v - 1` when
/// `v` is negative) has bits left above them. Bit 7 marks that a byte
/// follows.
pub open spec fn vint_bytes(v: i32) -> Seq<u8> {
    let x = v as int;
    let sign: int = if x < 0 { 64 } else { 0 };
    let f = (if x < 0 { -x - 1 } else { x }) / 64;
    let w = (x / 64) % 0x1_0000_0000;
    if f == 0 {
        seq![(sign + x % 64) as u8]
    } else {
        seq![(sign + x % 64 + 128) as u8] + vint_tail(w as nat, (f / 128) as nat)
    }
}

/// The 7-bit group that the `k`-th byte of a variable-length integer adds.
/// The first byte carries its sign bit (bit 6) into bit 0 of the group.
pub open spec fn vint_group(b: u8, k: nat) -> nat {
    if k == 0 {
        (2 * (b % 64) + (b / 64) % 2) as nat
    } else {
        (b % 128) as nat
    }
}

/// What reading a variable-length integer from position `i` finds, with the
/// groups read so far summing to `acc` over `k` bytes.
pub enum VintScan {
    /// A byte without bit 7 ends it: the groups sum to `sum`, and the byte
    /// after it is at `next`.
    Done { sum: nat, next: int },
    /// The bytes run out first.
    Exhausted,
    /// A sixth byte is there to read: a shift past 32 bits.
    Overlong,
}

pub open spec fn vint_scan(data: Seq<u8>, i: int, acc: nat, k: nat) -> VintScan
    decreases 5 - k,
{
    if i < 0 || i >= data.len() {
        VintScan::Exhausted
    } else if k >= 5 {
        VintScan::Overlong
    } else {
        let b = data[i];
        let acc2 = acc + vint_group(b, k) * pow128(k);
        if b < 128 {
            VintScan::Done { sum: acc2, next: i + 1 }
        } else {
            vint_scan(data, i + 1, acc2, k + 1)
        }
    }
}

/// Zig-zag decoding of a 32-bit number: bit 0 is the sign, the other bits
/// the magnitude (complemented for negatives).
pub open spec fn zigzag_value(r: nat) -> i32 {
    let h = (r / 2) as int;
    (if r % 2 == 0 {
        h
    } else {
        -h - 1
    }) as i32
}


/// Or-ing a 7-bit group in above the groups already read adds it at its
/// weight, modulo 2^32 (the group at shift 28 loses its top bits).
pub proof fn lemma_or_shift(r: u32, g: u32, k: u32)
    requires
        k < 5,
        r < pow128(k as nat),
        g < 128,
    ensures
        (r | (g << (7 * k))) as int == (r + g * pow128(k as nat)) % 0x1_0000_0000,
{
    reveal_with_fuel(pow128, 5);
    if k == 0 {
        assert((r | (g << 0u32)) as int == (r + g) % 0x1_0000_0000) by (bit_vector)
            requires
                r < 1,
                g < 128,
        ;
    } else if k == 1 {
        assert((r | (g << 7u32)) as int == (r + g * 128) % 0x1_0000_0000) by (bit_vector)
            requires
                r < 128,
                g < 128,
        ;
    } else if k == 2 {
        assert((r | (g << 14u32)) as int == (r + g * 0x4000) % 0x1_0000_0000) by (bit_vector)
            requires
                r < 0x4000,
                g < 128,
        ;
    } else if k == 3 {
        assert((r | (g << 21u32)) as int == (r + g * 0x20_0000) % 0x1_0000_0000) by (bit_vector)
            requires
                r < 0x20_0000,
                g < 128,
        ;
    } else {
        assert((r | (g << 28u32)) as int == (r + g * 0x1000_0000) % 0x1_0000_0000) by (bit_vector)
            requires
                r < 0x1000_0000,
                g < 128,
        ;
    }
}


/// Reading back the bytes after the first of a variable-length integer
/// whose remaining bits `w` fit the groups left: the groups add `w` at the
/// weight of the current byte, and the reading stops right after them.
proof fn lemma_scan_tail(d: Seq<u8>, i: int, acc: nat, k: nat, w: nat)
    requires
        1 <= k <= 4,
        0 <= i,
        w < pow128((5 - k) as nat),
        acc < pow128(k),
        i + vint_tail(w, w / 128).len() <= d.len(),
        d.subrange(i, i + vint_tail(w, w / 128).len()) == vint_tail(w, w / 128),
    ensures
        vint_tail(w, w / 128).len() <= 5 - k,
        vint_scan(d, i, acc, k) == (VintScan::Done {
            sum: acc + w * pow128(k),
            next: i + vint_tail(w, w / 128).len(),
        }),
    decreases w,
{
    let t = vint_tail(w, w / 128);
    let p = pow128(k);
    assert(d[i] == t[0]);
    if w / 128 == 0 {
        assert(t.len() == 1);
        assert(w % 128 == w);
    } else {
        let w2 = w / 128;
        let acc2 = acc + (w % 128) * p;
        assert(pow128((5 - k) as nat) == 128 * pow128((4 - k) as nat));
        assert(k <= 3) by {
            if k == 4 {
                assert(pow128(1) == 128) by {
                    reveal_with_fuel(pow128, 2);
                }
            }
        }
        assert(w2 < pow128((4 - k) as nat)) by (nonlinear_arith)
            requires
                w < 128 * pow128((4 - k) as nat),
                w2 == w / 128,
        ;
        assert(pow128(k + 1) == 128 * p);
        assert(acc2 < pow128(k + 1)) by (nonlinear_arith)
            requires
                acc < p,
                w % 128 < 128,
                acc2 == acc + (w % 128) * p,
                pow128(k + 1) == 128 * p,
        ;
        assert(t == seq![t[0]] + vint_tail(w2, w2 / 128));
        let t2 = vint_tail(w2, w2 / 128);
        assert(d.subrange(i + 1, i + 1 + t2.len()) =~= t2) by {
            assert forall|j: int| 0 <= j < t2.len() implies d.subrange(i + 1, i + 1 + t2.len())[j] == t2[j] by {
                assert(d.subrange(i, i + t.len())[j + 1] == t[j + 1]);
            }
        }
        lemma_scan_tail(d, i + 1, acc2, k + 1, w2);
        assert(acc2 + w2 * pow128(k + 1) == acc + w * p) by (nonlinear_arith)
            requires
                acc2 == acc + (w % 128) * p,
                pow128(k + 1) == 128 * p,
                w2 == w / 128,
        ;
    }
}

/// A non-negative integer's variable-length bytes, read back, sum to twice
/// the integer (its zig-zag form), and the reading stops right after them.
pub proof fn lemma_vint_scan_nonneg(d: Seq<u8>, i: int, v: i32)
    requires
        v >= 0,
        0 <= i,
        i + vint_bytes(v).len() <= d.len(),
        d.subrange(i, i + vint_bytes(v).len()) == vint_bytes(v),
    ensures
        vint_bytes(v).len() <= 5,
        vint_scan(d, i, 0, 0) == (VintScan::Done { sum: 2 * v as nat, next: i + vint_bytes(v).len() }),
{
    let bytes = vint_bytes(v);
    let x = v as int;
    let f = x / 64;
    assert(d[i] == bytes[0]);
    reveal_with_fuel(pow128, 5);
    if f == 0 {
        assert(x % 64 == x);
        assert(bytes == seq![x as u8]);
        assert(bytes[0] < 128);
        assert(vint_group(bytes[0], 0) == 2 * x);
        let g0 = vint_group(d[i], 0);
        let p0 = pow128(0);
        assert(g0 * p0 == 2 * x) by (nonlinear_arith)
            requires
                p0 == 1,
                g0 == 2 * x,
        ;
    } else {
        let w = (x / 64) % 0x1_0000_0000;
        assert(w == f);
        assert(f < 0x200_0000);
        let tail = vint_tail(w as nat, (f / 128) as nat);
        assert(bytes == seq![bytes[0]] + tail);
        assert(d.subrange(i + 1, i + 1 + tail.len()) =~= tail) by {
            assert forall|j: int| 0 <= j < tail.len() implies d.subrange(i + 1, i + 1 + tail.len())[j] == tail[j] by {
                assert(d.subrange(i, i + bytes.len())[j + 1] == bytes[j + 1]);
            }
        }
        assert(vint_group(bytes[0], 0) == 2 * (x % 64));
        lemma_scan_tail(d, i + 1, (2 * (x % 64)) as nat, 1, w as nat);
        assert(bytes[0] >= 128);
        assert(i < d.len());
        assert(d[i] >= 128);
        let g0 = vint_group(d[i], 0);
        let p0 = pow128(0);
        assert(g0 * p0 == 2 * (x % 64)) by (nonlinear_arith)
            requires
                p0 == 1,
                g0 == 2 * (x % 64),
        ;
        assert(vint_scan(d, i, 0, 0) == vint_scan(d, i + 1, (2 * (x % 64)) as nat, 1));
        assert(2 * (x % 64) + w * 128 == 2 * x);
    }
}


/// One step of reading a variable-length integer: the running value with
/// the next group or-ed in is the sum so far plus the group at its weight,
/// modulo 2^32, and the sum stays below the weight of the following byte.
pub proof fn lemma_vint_step(result: u32, acc: nat, g: u32, k: u32)
    requires
        k < 5,
        acc < pow128(k as nat),
        result as int == acc % 0x1_0000_0000,
        g < 128,
    ensures
        (result | (g << (7 * k))) as int == (acc + g * pow128(k as nat)) % 0x1_0000_0000,
        acc + g * pow128(k as nat) < pow128((k + 1) as nat),
{
    reveal_with_fuel(pow128, 5);
    let p = pow128(k as nat);
    assert(p <= 0x1000_0000);
    assert(result == acc);
    lemma_or_shift(result, g, k);
    assert((g as nat) * p <= 127 * p) by (nonlinear_arith)
        requires
            g < 128,
    ;
    assert(pow128((k + 1) as nat) == 128 * p);
}

} // verus!
