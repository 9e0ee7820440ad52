//! What reading gives back of writing: the stream's round-trip laws.
//!
//! Each law starts from any stream state `s`, writes a value at its offset,
//! moves the offset back to where the writing began, and reads.

use vstd::prelude::*;
use vstd::utf8::{encode_utf8, encode_utf8_decode_utf8, encode_utf8_valid_utf8};
use crate::stream::byte_stream::StreamState;
use crate::stream::encoding::{
    grown, high_word, low_word, signed32, written_at,
    be16_bytes, be32_bytes, lemma_be16_roundtrip, lemma_be32_roundtrip, lemma_vint_scan_nonneg,
    vint_bytes, be64_unsigned, law_long_long_bytes, unsigned64,
};

verus! {

/// Written bytes sit in the data right at the offset where they went.
pub proof fn lemma_put_bytes(s: StreamState, b: Seq<u8>)
    ensures
        s.put(b).data.len() >= s.offset + b.len(),
        s.put(b).data.subrange(s.offset as int, (s.offset + b.len()) as int) == b,
        s.put(b).offset == s.offset + b.len(),
        s.put(b).bit_offset == 0,
{
    assert(s.put(b).data.subrange(s.offset as int, (s.offset + b.len()) as int) =~= b);
}

/// A 32-bit integer reads back as written, and the reading ends where the
/// writing ended.
pub proof fn law_int_roundtrip(s: StreamState, v: i32)
    ensures
        s.write_int(v).at(s.offset).read_int() == (v, s.write_int(v)),
{
    lemma_put_bytes(s, be32_bytes(v));
    lemma_be32_roundtrip(v);
    assert(s.write_int(v).at(s.offset).read_int().1 =~= s.write_int(v));
}

/// A 16-bit integer reads back as written.
pub proof fn law_short_roundtrip(s: StreamState, v: i16)
    ensures
        s.write_short(v).at(s.offset).read_short() == (v, s.write_short(v)),
{
    lemma_put_bytes(s, be16_bytes(v));
    lemma_be16_roundtrip(v);
    assert(s.write_short(v).at(s.offset).read_short().1 =~= s.write_short(v));
}

/// A non-negative variable-length integer reads back as written. (A
/// negative one does not: -1 is written as the byte 0x7F, which reads back
/// as -64.)
pub proof fn law_vint_roundtrip(s: StreamState, v: i32)
    requires
        v >= 0,
    ensures
        s.write_vint(v).at(s.offset).can_read_vint(),
        s.write_vint(v).at(s.offset).read_vint() == (v, s.write_vint(v)),
{
    let w = s.write_vint(v);
    lemma_put_bytes(s, vint_bytes(v));
    lemma_vint_scan_nonneg(w.data, s.offset as int, v);
    assert(w.at(s.offset).read_vint().1 =~= w);
}

/// Two 32-bit integers, written as a long, read back as written.
pub proof fn law_long_roundtrip(s: StreamState, v1: i32, v2: i32)
    ensures
        s.write_long(v1, v2).at(s.offset).read_long() == ((v1, v2), s.write_long(v1, v2)),
{
    let w = s.write_long(v1, v2);
    s.lemma_put_put(be32_bytes(v1), be32_bytes(v2));
    lemma_put_bytes(s, be32_bytes(v1) + be32_bytes(v2));
    lemma_be32_roundtrip(v1);
    lemma_be32_roundtrip(v2);
    let o = s.offset as int;
    assert(w.data.subrange(o, o + 4) =~= be32_bytes(v1)) by {
        assert(w.data.subrange(o, o + 8)[0] == w.data[o]);
    }
    assert(w.data.subrange(o + 4, o + 8) =~= be32_bytes(v2)) by {
        assert(w.data.subrange(o, o + 8)[4] == w.data[o + 4]);
    }
    assert(w.at(s.offset).read_long().1 =~= w);
}

/// A 64-bit integer goes on the stream as the 8 big-endian bytes of its 64
/// bits, at the offset: read as an unsigned big-endian number they give the
/// integer modulo 2^64, and the offset moves past them.
pub proof fn law_long_long_on_stream(s: StreamState, v: i64)
    ensures
        s.write_long_long(v).offset == s.offset + 8,
        s.write_long_long(v).data.len() >= s.offset + 8,
        be64_unsigned(s.write_long_long(v).data.subrange(s.offset as int, s.offset + 8int)) == unsigned64(v as int),
{
    let b = be32_bytes(high_word(v)) + be32_bytes(low_word(v));
    s.lemma_put_put(be32_bytes(high_word(v)), be32_bytes(low_word(v)));
    law_long_long_bytes(v);
    lemma_put_bytes(s, b);
}

/// Two non-negative variable-length integers, written as a logic long,
/// read back as written.
pub proof fn law_logic_long_roundtrip(s: StreamState, v1: i32, v2: i32)
    requires
        v1 >= 0,
        v2 >= 0,
    ensures
        s.write_logic_long(v1, v2).at(s.offset).can_read_logic_long(),
        s.write_logic_long(v1, v2).at(s.offset).read_logic_long() == ((v1, v2), s.write_logic_long(v1, v2)),
{
    lemma_two_vints(s, v1, v2);
}

/// Two non-negative variable-length integers written one after the other
/// read back one after the other.
proof fn lemma_two_vints(s: StreamState, v1: i32, v2: i32)
    requires
        v1 >= 0,
        v2 >= 0,
    ensures
        s.write_vint(v1).write_vint(v2).at(s.offset).can_read_vint(),
        s.write_vint(v1).write_vint(v2).at(s.offset).read_vint() == (
            v1,
            s.write_vint(v1).write_vint(v2).at(s.write_vint(v1).offset),
        ),
        s.write_vint(v1).write_vint(v2).at(s.write_vint(v1).offset).can_read_vint(),
        s.write_vint(v1).write_vint(v2).at(s.write_vint(v1).offset).read_vint() == (
            v2,
            s.write_vint(v1).write_vint(v2),
        ),
{
    let b1 = vint_bytes(v1);
    let b2 = vint_bytes(v2);
    let w = s.write_vint(v1).write_vint(v2);
    let o = s.offset as int;
    s.lemma_put_put(b1, b2);
    lemma_put_bytes(s, b1 + b2);
    assert(w.data.subrange(o, o + b1.len()) =~= b1) by {
        assert forall|j: int| 0 <= j < b1.len() implies w.data.subrange(o, o + b1.len())[j] == b1[j] by {
            assert(w.data.subrange(o, o + b1.len() + b2.len())[j] == (b1 + b2)[j]);
        }
    }
    lemma_vint_scan_nonneg(w.data, o, v1);
    assert(w.at(s.offset).read_vint().1 =~= w.at(s.write_vint(v1).offset));
    let s1 = s.write_vint(v1);
    lemma_put_bytes(s1, b2);
    lemma_vint_scan_nonneg(w.data, s1.offset as int, v2);
    assert(w.at(s1.offset).read_vint().1 =~= w);
}

/// A data reference reads back as written when its first value is at least
/// 1 and its second is not negative; one whose first value is below 1 reads
/// back as (0, 0).
pub proof fn law_data_reference_roundtrip(s: StreamState, v1: i32, v2: i32)
    requires
        v1 < 1 || v2 >= 0,
    ensures
        s.write_data_reference(v1, v2).at(s.offset).can_read_data_reference(),
        s.write_data_reference(v1, v2).at(s.offset).read_data_reference() == (
            if v1 < 1 { (0i32, 0i32) } else { (v1, v2) },
            s.write_data_reference(v1, v2),
        ),
{
    if v1 < 1 {
        law_vint_roundtrip(s, 0);
    } else {
        lemma_two_vints(s, v1, v2);
    }
}

/// A string of fewer than 90000 UTF-8 bytes reads back as written.
pub proof fn law_string_roundtrip(s: StreamState, text: Seq<char>)
    requires
        encode_utf8(text).len() < 90000,
    ensures
        s.write_string(Some(encode_utf8(text))).at(s.offset).read_string() == (
            text,
            s.write_string(Some(encode_utf8(text))),
        ),
{
    let b = encode_utf8(text);
    let n = b.len() as i32;
    let w = s.write_string(Some(b));
    let s1 = s.write_int(n);
    s.lemma_put_put(be32_bytes(n), b);
    lemma_put_bytes(s, be32_bytes(n) + b);
    lemma_be32_roundtrip(n);
    let o = s.offset as int;
    assert(w.data.subrange(o, o + 4) =~= be32_bytes(n)) by {
        assert forall|j: int| 0 <= j < 4 implies w.data.subrange(o, o + 4)[j] == be32_bytes(n)[j] by {
            assert(w.data.subrange(o, o + 4 + b.len())[j] == (be32_bytes(n) + b)[j]);
        }
    }
    assert(w.data.subrange(o + 4, o + 4 + b.len()) =~= b) by {
        assert forall|j: int| 0 <= j < b.len() implies w.data.subrange(o + 4, o + 4 + b.len())[j] == b[j] by {
            assert(w.data.subrange(o, o + 4 + b.len())[j + 4] == (be32_bytes(n) + b)[j + 4]);
        }
    }
    encode_utf8_decode_utf8(text);
    encode_utf8_valid_utf8(text);
    assert(w.at(s.offset).read_int().0 == n);
    if n == 0 {
        assert(text.len() == 0) by {
            assert(b =~= Seq::<u8>::empty());
        }
        assert(text =~= Seq::<char>::empty());
    }
    assert(w.at(s.offset).read_string().1 =~= w);
}

/// No string, or one of more than 90000 bytes, reads back as the empty
/// string.
pub proof fn law_absent_string_reads_empty(s: StreamState, value: Option<Seq<u8>>)
    requires
        value matches Some(b) ==> b.len() > 90000,
    ensures
        s.write_string(value).at(s.offset).read_string() == (
            Seq::<char>::empty(),
            s.write_string(value),
        ),
{
    law_int_roundtrip(s, -1i32);
}


/// Whether a state's first `k` bytes are behind its offset, and its offset
/// within its data.
pub open spec fn settled(s: StreamState, k: int) -> bool {
    0 <= k <= s.offset <= s.data.len()
}

/// Writing behind a settled prefix leaves the prefix as it was.
pub proof fn lemma_put_keeps_prefix(s: StreamState, b: Seq<u8>, k: int)
    requires
        settled(s, k),
    ensures
        settled(s.put(b), k),
        s.put(b).data.take(k) == s.data.take(k),
{
    lemma_put_bytes(s, b);
    assert(s.put(b).data.take(k) =~= s.data.take(k));
}

/// Writing an `int` behind a settled prefix leaves the prefix as it was.
pub proof fn lemma_write_int_keeps_prefix(s: StreamState, v: i32, k: int)
    requires
        settled(s, k),
    ensures
        settled(s.write_int(v), k),
        s.write_int(v).data.take(k) == s.data.take(k),
{
    lemma_put_keeps_prefix(s, be32_bytes(v), k);
}

/// Writing a variable-length integer behind a settled prefix leaves the
/// prefix as it was.
pub proof fn lemma_write_vint_keeps_prefix(s: StreamState, v: i32, k: int)
    requires
        settled(s, k),
    ensures
        settled(s.write_vint(v), k),
        s.write_vint(v).data.take(k) == s.data.take(k),
{
    lemma_put_keeps_prefix(s, vint_bytes(v), k);
}

/// Writing a string behind a settled prefix leaves the prefix as it was.
pub proof fn lemma_write_string_keeps_prefix(s: StreamState, value: Option<Seq<u8>>, k: int)
    requires
        settled(s, k),
    ensures
        settled(s.write_string(value), k),
        s.write_string(value).data.take(k) == s.data.take(k),
{
    match value {
        Some(b) => {
            if b.len() <= 90000 {
                lemma_write_int_keeps_prefix(s, b.len() as i32, k);
                lemma_put_keeps_prefix(s.write_int(b.len() as i32), b, k);
            } else {
                lemma_write_int_keeps_prefix(s, -1i32, k);
            }
        },
        None => {
            lemma_write_int_keeps_prefix(s, -1i32, k);
        },
    }
}


/// The state after writing the booleans `bits`, in order.
pub open spec fn write_booleans(s: StreamState, bits: Seq<bool>) -> StreamState
    decreases bits.len(),
{
    if bits.len() == 0 {
        s
    } else {
        write_booleans(s, bits.drop_last()).write_boolean(bits.last())
    }
}

/// Bit `j` of the bytes from position `base`: bit `j % 8` of byte `j / 8`.
pub open spec fn bit_at(data: Seq<u8>, base: int, j: int) -> bool {
    (data[base + j / 8] >> ((j % 8) as u8)) & 1u8 == 1u8
}

/// The number of bytes that `n` booleans take.
pub open spec fn packed_len(n: nat) -> nat {
    (n + 7) / 8
}

/// Setting bit `k` of a byte sets that bit and leaves the others.
proof fn lemma_set_bit(x: u8, k: u8, j: u8)
    requires
        k < 8,
        j < 8,
    ensures
        ((x | (1u8 << k)) >> j) & 1u8 == (if j == k { 1u8 } else { (x >> j) & 1u8 }),
{
    assert(((x | (1u8 << k)) >> j) & 1u8 == (if j == k { 1u8 } else { (x >> j) & 1u8 })) by (bit_vector)
        requires
            k < 8,
            j < 8,
    ;
}

/// No bit of the zero byte is set.
proof fn lemma_zero_bits(j: u8)
    requires
        j < 8,
    ensures
        (0u8 >> j) & 1u8 == 0u8,
{
    assert((0u8 >> j) & 1u8 == 0u8) by (bit_vector);
}

/// A boolean written while no boolean byte is open goes into a fresh byte
/// at the offset, wherever the offset stands: that byte is 1 for `true` and
/// 0 for `false`, whatever it held before. The offset moves past it, the bit
/// offset becomes 1, every other byte stays, and the data grows, with zero
/// bytes, only where the offset was at or past its end.
pub proof fn law_boolean_opens_byte(s: StreamState, v: bool)
    requires
        s.bit_offset == 0,
    ensures
        s.write_boolean(v).offset == s.offset + 1,
        s.write_boolean(v).bit_offset == 1,
        s.write_boolean(v).data.len() == (if s.offset < s.data.len() {
            s.data.len() as int
        } else {
            s.offset + 1int
        }),
        s.write_boolean(v).data[s.offset as int] == (if v { 1u8 } else { 0u8 }),
        forall|i: int|
            0 <= i < s.write_boolean(v).data.len() && i != s.offset ==> #[trigger] s.write_boolean(v).data[i]
                == (if i < s.data.len() { s.data[i] } else { 0u8 }),
{
    let o = s.offset as int;
    let w = written_at(s.data, o, seq![0u8]);
    let g = grown(s.data, o + 1);
    assert(w.len() == g.len());
    assert(w[o] == 0u8);
    assert forall|i: int| 0 <= i < w.len() && i != o implies #[trigger] w[i]
        == (if i < s.data.len() { s.data[i] } else { 0u8 }) by {
        if i < o {
            assert(w[i] == g[i]);
        } else {
            assert(w[i] == g[i]);
        }
    }
    assert((0u8 | (1u8 << 0u8)) == 1u8) by (bit_vector);
}

/// A boolean written while a boolean byte is open changes only the bit at
/// the bit offset of the last byte before the offset: `true` sets that bit,
/// `false` leaves it, every other bit and every other byte stays, the
/// offset stays, and the bit offset moves on, closing the byte after its
/// eighth boolean.
pub proof fn law_boolean_sets_bit(s: StreamState, v: bool, j: u8)
    requires
        1 <= s.bit_offset < 8,
        1 <= s.offset <= s.data.len(),
        j < 8,
    ensures
        s.write_boolean(v).offset == s.offset,
        s.write_boolean(v).bit_offset == (s.bit_offset + 1) % 8,
        s.write_boolean(v).data.len() == s.data.len(),
        forall|i: int|
            0 <= i < s.data.len() && i != s.offset - 1 ==> #[trigger] s.write_boolean(v).data[i] == s.data[i],
        (s.write_boolean(v).data[s.offset - 1] >> j) & 1u8 == (if v && j == s.bit_offset {
            1u8
        } else {
            (s.data[s.offset - 1] >> j) & 1u8
        }),
{
    if v {
        lemma_set_bit(s.data[s.offset - 1], s.bit_offset as u8, j);
    }
}

/// A run of booleans written at the end of the data, starting with no
/// boolean byte open, packs into `(n + 7) / 8` new bytes: boolean `i` is
/// bit `i % 8` of new byte `i / 8`, every other bit of the new bytes is 0,
/// the old bytes stay, and the bit offset ends at `n % 8`. Each boolean can
/// be written when the new bytes fit.
pub proof fn law_booleans_pack(s: StreamState, bits: Seq<bool>)
    requires
        s.bit_offset == 0,
        s.offset == s.data.len(),
    ensures
        write_booleans(s, bits).data.len() == s.data.len() + packed_len(bits.len()),
        write_booleans(s, bits).offset == write_booleans(s, bits).data.len(),
        write_booleans(s, bits).data.take(s.data.len() as int) == s.data,
        write_booleans(s, bits).bit_offset == bits.len() % 8,
        forall|j: int|
            0 <= j < 8 * packed_len(bits.len()) ==> #[trigger] bit_at(write_booleans(s, bits).data, s.offset as int, j)
                == (j < bits.len() && bits[j]),
        s.has_room(packed_len(bits.len())) ==> forall|i: int|
            0 <= i < bits.len() ==> #[trigger] write_booleans(s, bits.take(i)).can_write_boolean(bits[i]),
    decreases bits.len(),
{
    let n = bits.len();
    let base = s.offset as int;
    if n == 0 {
        assert(s.data.take(s.data.len() as int) =~= s.data);
        assert(packed_len(n) == 0);
    } else {
        let m = (n - 1) as nat;
        let prev = bits.drop_last();
        let v = bits.last();
        law_booleans_pack(s, prev);
        let t0 = write_booleans(s, prev);
        let t = write_booleans(s, bits);
        assert(t == t0.write_boolean(v));
        let k = m % 8;
        if k == 0 {
            assert(packed_len(n) == packed_len(m) + 1);
            assert(8 * packed_len(m) == m);
            let opened = written_at(t0.data, t0.offset as int, seq![0u8]);
            assert(opened =~= t0.data.push(0u8));
            assert(t.data.len() == t0.data.len() + 1);
            assert(t.data.take(s.data.len() as int) =~= t0.data.take(s.data.len() as int));
            assert forall|j: int|
                0 <= j < 8 * packed_len(bits.len()) implies #[trigger] bit_at(write_booleans(s, bits).data, s.offset as int, j)
                    == (j < bits.len() && bits[j]) by {
                if j < m {
                    assert(prev.len() == m);
                    assert(bit_at(t0.data, base, j) == (j < m && prev[j]));
                    assert(prev[j] == bits[j]);
                    assert(t.data[base + j / 8] == t0.data[base + j / 8]);
                } else {
                    assert(base + j / 8 == t0.data.len());
                    assert((j % 8 == 0) == (j == m));
                    lemma_set_bit(0u8, 0u8, (j % 8) as u8);
                    lemma_zero_bits((j % 8) as u8);
                    if v {
                        assert(t.data[base + j / 8] == 0u8 | (1u8 << 0u8));
                    } else {
                        assert(t.data[base + j / 8] == 0u8);
                    }
                }
            }
        } else {
            assert(packed_len(n) == packed_len(m));
            assert(packed_len(m) >= 1);
            let last = t0.offset - 1;
            assert(last == base + m / 8);
            assert forall|j: int|
                0 <= j < 8 * packed_len(bits.len()) implies #[trigger] bit_at(write_booleans(s, bits).data, s.offset as int, j)
                    == (j < bits.len() && bits[j]) by {
                assert(prev.len() == m);
                assert(j < 8 * packed_len(m));
                assert(bit_at(t0.data, base, j) == (j < m && prev[j]));
                if j < m {
                    assert(prev[j] == bits[j]);
                }
                if j / 8 == m / 8 {
                    assert((j % 8 == k) == (j == m));
                    assert(base + j / 8 == last);
                    lemma_set_bit(t0.data[last], k as u8, (j % 8) as u8);
                    if v {
                        assert(t.data[last] == t0.data[last] | (1u8 << (k as u8)));
                    } else {
                        assert(t.data == t0.data);
                    }
                } else {
                    assert(t.data[base + j / 8] == t0.data[base + j / 8]);
                }
            }
            assert(t.data.take(s.data.len() as int) =~= t0.data.take(s.data.len() as int));
        }
        if s.has_room(packed_len(n)) {
            assert forall|i: int| 0 <= i < n implies #[trigger] write_booleans(s, bits.take(i)).can_write_boolean(bits[i]) by {
                assert(bits.take(i) =~= prev.take(i)) by {
                    if i < m {
                    }
                }
                if i < m {
                    assert(prev[i] == bits[i]);
                    assert(packed_len(m) <= packed_len(n));
                    assert(s.has_room(packed_len(m)));
                } else {
                    assert(prev.take(i) =~= prev);
                }
            }
        }
    }
}


/// One write call on a stream, with its arguments.
pub enum StreamWrite {
    Int(i32),
    Short(i16),
    Byte(u8),
    Bytes(Seq<u8>),
    Text(Option<Seq<u8>>),
    Vint(i32),
    Long(i32, i32),
    LongLong(i64),
    LogicLong(i32, i32),
    DataReference(i32, i32),
    Boolean(bool),
}

impl StreamWrite {
    /// The state after the write.
    pub open spec fn apply(self, s: StreamState) -> StreamState {
        match self {
            StreamWrite::Int(v) => s.write_int(v),
            StreamWrite::Short(v) => s.write_short(v),
            StreamWrite::Byte(b) => s.write_byte(b),
            StreamWrite::Bytes(b) => s.write_bytes(b),
            StreamWrite::Text(t) => s.write_string(t),
            StreamWrite::Vint(v) => s.write_vint(v),
            StreamWrite::Long(a, b) => s.write_long(a, b),
            StreamWrite::LongLong(v) => s.write_long_long(v),
            StreamWrite::LogicLong(a, b) => s.write_logic_long(a, b),
            StreamWrite::DataReference(a, b) => s.write_data_reference(a, b),
            StreamWrite::Boolean(v) => s.write_boolean(v),
        }
    }

    /// The bytes the write puts at the offset. A boolean writes into the
    /// bits of a byte instead (see `law_booleans_pack`), so it has none.
    pub open spec fn encoding(self) -> Seq<u8> {
        match self {
            StreamWrite::Int(v) => be32_bytes(v),
            StreamWrite::Short(v) => be16_bytes(v),
            StreamWrite::Byte(b) => seq![b],
            StreamWrite::Bytes(b) => if b.len() > 0 {
                be32_bytes(signed32((b.len() % 0x1_0000_0000) as int)) + b
            } else {
                be32_bytes(-1i32)
            },
            StreamWrite::Text(t) => match t {
                Some(b) => if b.len() <= 90000 {
                    be32_bytes(b.len() as i32) + b
                } else {
                    be32_bytes(-1i32)
                },
                None => be32_bytes(-1i32),
            },
            StreamWrite::Vint(v) => vint_bytes(v),
            StreamWrite::Long(a, b) => be32_bytes(a) + be32_bytes(b),
            StreamWrite::LongLong(v) => be32_bytes(high_word(v)) + be32_bytes(low_word(v)),
            StreamWrite::LogicLong(a, b) => vint_bytes(a) + vint_bytes(b),
            StreamWrite::DataReference(a, b) => if a < 1 {
                vint_bytes(0)
            } else {
                vint_bytes(a) + vint_bytes(b)
            },
            StreamWrite::Boolean(_) => Seq::empty(),
        }
    }
}

/// The state after the writes `ws`, in order.
pub open spec fn apply_writes(s: StreamState, ws: Seq<StreamWrite>) -> StreamState
    decreases ws.len(),
{
    if ws.len() == 0 {
        s
    } else {
        ws.last().apply(apply_writes(s, ws.drop_last()))
    }
}

/// The encodings of the writes `ws`, one after the other.
pub open spec fn encode_writes(ws: Seq<StreamWrite>) -> Seq<u8>
    decreases ws.len(),
{
    if ws.len() == 0 {
        Seq::empty()
    } else {
        encode_writes(ws.drop_last()) + ws.last().encoding()
    }
}

/// Writing at the end of the data appends.
pub proof fn lemma_put_at_end(s: StreamState, b: Seq<u8>)
    requires
        s.offset == s.data.len(),
    ensures
        s.put(b) == (StreamState { data: s.data + b, offset: s.offset + b.len(), bit_offset: 0 }),
{
    assert(s.put(b).data =~= s.data + b);
}

/// Every write other than a boolean puts its encoding at the offset.
pub proof fn lemma_write_is_put(s: StreamState, w: StreamWrite)
    requires
        !(w is Boolean),
    ensures
        w.apply(s) == s.put(w.encoding()),
{
    match w {
        StreamWrite::Bytes(b) => {
            if b.len() > 0 {
                s.lemma_put_put(be32_bytes(signed32((b.len() % 0x1_0000_0000) as int)), b);
            }
        },
        StreamWrite::Text(t) => {
            if let Some(b) = t {
                if b.len() <= 90000 {
                    s.lemma_put_put(be32_bytes(b.len() as i32), b);
                }
            }
        },
        StreamWrite::Long(a, b) => {
            s.lemma_put_put(be32_bytes(a), be32_bytes(b));
        },
        StreamWrite::LongLong(v) => {
            s.lemma_put_put(be32_bytes(high_word(v)), be32_bytes(low_word(v)));
        },
        StreamWrite::LogicLong(a, b) => {
            s.lemma_put_put(vint_bytes(a), vint_bytes(b));
        },
        StreamWrite::DataReference(a, b) => {
            if a >= 1 {
                s.lemma_put_put(vint_bytes(a), vint_bytes(b));
            }
        },
        _ => {},
    }
}

/// Writes at the end of the data keep the offset at the end: the length
/// always equals the offset. Without booleans, the data grows by exactly
/// the encodings of the writes, in order, and the bit offset ends at 0.
pub proof fn law_writes_append(s: StreamState, ws: Seq<StreamWrite>)
    requires
        s.offset == s.data.len(),
        s.bit_offset != 0 ==> s.offset >= 1,
    ensures
        apply_writes(s, ws).offset == apply_writes(s, ws).data.len(),
        apply_writes(s, ws).bit_offset != 0 ==> apply_writes(s, ws).offset >= 1,
        (forall|i: int| 0 <= i < ws.len() ==> !(#[trigger] ws[i] is Boolean)) ==> {
            &&& apply_writes(s, ws).data == s.data + encode_writes(ws)
            &&& ws.len() > 0 ==> apply_writes(s, ws).bit_offset == 0
        },
    decreases ws.len(),
{
    if ws.len() > 0 {
        let prev = ws.drop_last();
        let w = ws.last();
        law_writes_append(s, prev);
        let t0 = apply_writes(s, prev);
        if w is Boolean {
            if t0.bit_offset == 0 {
                assert(written_at(t0.data, t0.offset as int, seq![0u8]) =~= t0.data.push(0u8));
            }
        } else {
            lemma_write_is_put(t0, w);
            lemma_put_at_end(t0, w.encoding());
            if forall|i: int| 0 <= i < ws.len() ==> !(#[trigger] ws[i] is Boolean) {
                assert forall|i: int| 0 <= i < prev.len() implies !(#[trigger] prev[i] is Boolean) by {
                    assert(prev[i] == ws[i]);
                }
                assert(s.data + encode_writes(ws) =~= s.data + encode_writes(prev) + w.encoding());
            }
        }
    }
}

/// Writes to a new stream leave exactly the encodings of the writes, in
/// order, with the offset and the length both at their total size.
pub proof fn law_writes_from_new_stream(ws: Seq<StreamWrite>)
    requires
        forall|i: int| 0 <= i < ws.len() ==> !(#[trigger] ws[i] is Boolean),
    ensures
        apply_writes(StreamState { data: Seq::empty(), offset: 0, bit_offset: 0 }, ws).data == encode_writes(ws),
        apply_writes(StreamState { data: Seq::empty(), offset: 0, bit_offset: 0 }, ws).offset
            == encode_writes(ws).len(),
{
    let s = StreamState { data: Seq::empty(), offset: 0, bit_offset: 0 };
    law_writes_append(s, ws);
    assert(s.data + encode_writes(ws) =~= encode_writes(ws));
}

} // verus!
