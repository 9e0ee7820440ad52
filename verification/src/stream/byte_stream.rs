//! A cursor over a growable byte buffer that reads and writes the protocol's
//! primitive values: big-endian integers, length-prefixed strings and byte
//! arrays, variable-length integers and packed booleans.

use vstd::prelude::*;
use bytes::BytesMut;
use crate::stream::bytes_buf::{
    bytes_of, buf_as_slice, buf_clear, buf_len, buf_new, buf_resize, buf_set,
};
use crate::stream::text::{string_from_utf8, utf8_or_empty};
use vstd::slice::{slice_subrange, slice_to_vec};
use vstd::string::StringSliceAdditionalSpecFns;
use crate::stream::encoding::{
    be16_bytes, be16_value, be32_bytes, be32_value, grown, high_word, lemma_vint_step, low_word,
    pow128, signed32, vint_bytes, vint_group, vint_scan, vint_tail, written_at, zigzag_value,
    VintScan,
};

verus! {

/// What a `ByteStream` is, mathematically: its bytes, the position of the
/// next byte to read or write, and the next free bit of the last byte that
/// a boolean went into (0 when no boolean byte is open).
pub struct StreamState {
    pub data: Seq<u8>,
    pub offset: nat,
    pub bit_offset: nat,
}

impl StreamState {
    /// The state after `bytes` are written at the offset.
    pub open spec fn put(self, bytes: Seq<u8>) -> StreamState {
        StreamState {
            data: written_at(self.data, self.offset as int, bytes),
            offset: self.offset + bytes.len(),
            bit_offset: 0,
        }
    }

    /// The same state with the offset moved to `offset`.
    pub open spec fn at(self, offset: nat) -> StreamState {
        StreamState { offset: offset, ..self }
    }

    /// Whether `n` more bytes from the offset can be held by the buffer.
    pub open spec fn has_room(self, n: nat) -> bool {
        self.offset + n <= isize::MAX
    }

    /// Reading a 32-bit integer: the integer and the state after it. Where
    /// fewer than 4 bytes are left the result is 0 and the offset stays.
    pub open spec fn read_int(self) -> (i32, StreamState) {
        let o = self.offset as int;
        if o + 4 <= self.data.len() {
            (be32_value(self.data.subrange(o, o + 4)), StreamState { offset: self.offset + 4, bit_offset: 0, ..self })
        } else {
            (0, StreamState { bit_offset: 0, ..self })
        }
    }

    /// Reading a 16-bit integer, as `read_int` with 2 bytes.
    pub open spec fn read_short(self) -> (i16, StreamState) {
        let o = self.offset as int;
        if o + 2 <= self.data.len() {
            (be16_value(self.data.subrange(o, o + 2)), StreamState { offset: self.offset + 2, bit_offset: 0, ..self })
        } else {
            (0, StreamState { bit_offset: 0, ..self })
        }
    }

    pub open spec fn write_int(self, v: i32) -> StreamState {
        self.put(be32_bytes(v))
    }

    pub open spec fn write_short(self, v: i16) -> StreamState {
        self.put(be16_bytes(v))
    }

    pub open spec fn write_byte(self, b: u8) -> StreamState {
        self.put(seq![b])
    }

    /// Whether reading a variable-length integer here would not shift past
    /// 32 bits (it would on a sixth byte that continues the number).
    pub open spec fn can_read_vint(self) -> bool {
        !(vint_scan(self.data, self.offset as int, 0, 0) is Overlong)
    }

    /// Reading a variable-length integer: its zig-zag decoded value and the
    /// state after it. Where the bytes run out first the result is 0 and the
    /// offset ends at the end of the data. The bit offset is left alone.
    pub open spec fn read_vint(self) -> (i32, StreamState) {
        match vint_scan(self.data, self.offset as int, 0, 0) {
            VintScan::Done { sum, next } => (zigzag_value(sum % 0x1_0000_0000), self.at(next as nat)),
            VintScan::Exhausted => (
                0,
                self.at(if self.offset >= self.data.len() { self.offset } else { self.data.len() }),
            ),
            VintScan::Overlong => (0, self),
        }
    }

    pub open spec fn write_vint(self, v: i32) -> StreamState {
        self.put(vint_bytes(v))
    }

    /// Writing `a` and then `b` is writing `a + b`.
    pub proof fn lemma_put_put(self, a: Seq<u8>, b: Seq<u8>)
        ensures
            self.put(a).put(b) == self.put(a + b),
    {
        let d = self.data;
        let p = self.offset as int;
        let d1 = self.put(a).data;
        let d2 = self.put(a).put(b).data;
        let d3 = self.put(a + b).data;
        assert(d1.len() == if p + a.len() <= d.len() { d.len() as int } else { p + a.len() });
        assert(d2.len() == d3.len());
        assert forall|i: int| 0 <= i < d2.len() implies d2[i] == d3[i] by {
            if i < p {
            } else if i < p + a.len() {
            } else if i < p + a.len() + b.len() {
            } else {
            }
        }
        assert(d2 =~= d3);
    }

    /// Writing a string: its byte length as an `int`, then its bytes; or
    /// the length -1 for no string or one over 90000 bytes.
    pub open spec fn write_string(self, value: Option<Seq<u8>>) -> StreamState {
        match value {
            Some(b) => if b.len() <= 90000 {
                self.write_int(b.len() as i32).put(b)
            } else {
                self.write_int(-1i32)
            },
            None => self.write_int(-1i32),
        }
    }

    /// Room for `write_string(value)`.
    pub open spec fn has_room_for_string(self, value: Option<Seq<u8>>) -> bool {
        match value {
            Some(b) => if b.len() <= 90000 {
                self.has_room(4 + b.len())
            } else {
                self.has_room(4)
            },
            None => self.has_room(4),
        }
    }

    /// Reading a string: an `int` length, then that many bytes decoded as
    /// UTF-8. A length that is not in 1..90000, or that runs past the data,
    /// gives the empty string and leaves the offset after the length.
    pub open spec fn read_string(self) -> (Seq<char>, StreamState) {
        let (n, s1) = self.read_int();
        let o = s1.offset as int;
        if 0 < n < 90000 && o + n <= s1.data.len() {
            (utf8_or_empty(s1.data.subrange(o, o + n)), s1.at((o + n) as nat))
        } else {
            (Seq::empty(), s1)
        }
    }

    /// Whether `read_string` stays clear of offsets past `usize::MAX`.
    pub open spec fn can_read_string(self) -> bool {
        &&& self.offset + 4 <= usize::MAX
        &&& 0 < self.read_int().0 < 90000 ==> self.read_int().1.offset + self.read_int().0 <= usize::MAX
    }

    /// Reading a data reference: a variable-length integer and, unless it
    /// is 0, a second one.
    pub open spec fn read_data_reference(self) -> ((i32, i32), StreamState) {
        let (a, s1) = self.read_vint();
        if a == 0 {
            ((0, 0), s1)
        } else {
            let (b, s2) = s1.read_vint();
            ((a, b), s2)
        }
    }

    pub open spec fn can_read_data_reference(self) -> bool {
        &&& self.can_read_vint()
        &&& self.read_vint().0 != 0 ==> self.read_vint().1.can_read_vint()
    }

    /// Writing a data reference: 0 alone when the first value is below 1,
    /// else both values, as variable-length integers.
    pub open spec fn write_data_reference(self, v1: i32, v2: i32) -> StreamState {
        if v1 < 1 {
            self.write_vint(0)
        } else {
            self.write_vint(v1).write_vint(v2)
        }
    }

    /// Writing a boolean: a fresh zero byte is opened when no boolean byte
    /// is open, `true` sets the bit at the bit offset in the last byte
    /// before the offset, and the bit offset moves on, closing the byte
    /// after 8 booleans.
    pub open spec fn write_boolean(self, value: bool) -> StreamState {
        let s1 = if self.bit_offset == 0 {
            StreamState {
                data: written_at(self.data, self.offset as int, seq![0u8]),
                offset: self.offset + 1,
                ..self
            }
        } else {
            self
        };
        let last = s1.offset - 1;
        let s2 = if value {
            StreamState {
                data: s1.data.update(last, s1.data[last] | (1u8 << (self.bit_offset as u8))),
                ..s1
            }
        } else {
            s1
        };
        StreamState { bit_offset: (self.bit_offset + 1) % 8, ..s2 }
    }

    /// The conditions under which `write_boolean` can write: room for a
    /// fresh byte, or an open byte to set a bit in.
    pub open spec fn can_write_boolean(self, value: bool) -> bool {
        &&& self.bit_offset == 0 ==> self.has_room(1)
        &&& (self.bit_offset != 0 && value) ==> 1 <= self.offset <= self.data.len()
    }

    /// Reading a boolean: a variable-length integer of at least 1.
    pub open spec fn read_boolean(self) -> (bool, StreamState) {
        (self.read_vint().0 >= 1, self.read_vint().1)
    }

    /// Writing a 64-bit integer: its high and then its low 32 bits.
    pub open spec fn write_long_long(self, v: i64) -> StreamState {
        self.write_int(high_word(v)).write_int(low_word(v))
    }

    pub open spec fn write_logic_long(self, v1: i32, v2: i32) -> StreamState {
        self.write_vint(v1).write_vint(v2)
    }

    pub open spec fn read_logic_long(self) -> ((i32, i32), StreamState) {
        let (a, s1) = self.read_vint();
        let (b, s2) = s1.read_vint();
        ((a, b), s2)
    }

    pub open spec fn can_read_logic_long(self) -> bool {
        self.can_read_vint() && self.read_vint().1.can_read_vint()
    }

    pub open spec fn write_long(self, v1: i32, v2: i32) -> StreamState {
        self.write_int(v1).write_int(v2)
    }

    pub open spec fn read_long(self) -> ((i32, i32), StreamState) {
        let (a, s1) = self.read_int();
        let (b, s2) = s1.read_int();
        ((a, b), s2)
    }

    /// Writing a byte array: its length as an `int` (taken modulo 2^32),
    /// then its bytes; or the length -1 for an empty array.
    pub open spec fn write_bytes(self, b: Seq<u8>) -> StreamState {
        if b.len() > 0 {
            self.write_int(signed32((b.len() % 0x1_0000_0000) as int)).put(b)
        } else {
            self.write_int(-1i32)
        }
    }

    /// The state after the buffer is grown to hold `capacity` bytes from the
    /// offset.
    pub open spec fn ensure_capacity(self, capacity: nat) -> StreamState {
        StreamState { data: grown(self.data, (self.offset + capacity) as int), ..self }
    }

    /// The state after `skip(len)`: `len` counts bits.
    pub open spec fn skip(self, len: nat) -> StreamState {
        StreamState {
            offset: self.offset + len / 8,
            bit_offset: (self.bit_offset + len % 256) % 8,
            ..self
        }
    }
}

/// The next free bit of the open boolean byte: always below 8.
struct BitOffset {
    bits: u8,
}

impl BitOffset {
    #[verifier::type_invariant]
    spec fn below_eight(self) -> bool {
        self.bits < 8
    }
}

pub struct ByteStream {
    buffer: BytesMut,
    offset: usize,
    bit_offset: BitOffset,
}

impl View for ByteStream {
    type V = StreamState;

    closed spec fn view(&self) -> StreamState {
        StreamState {
            data: bytes_of(self.buffer),
            offset: self.offset as nat,
            bit_offset: (self.bit_offset.bits % 8) as nat,
        }
    }
}

impl ByteStream {
    /// The open boolean byte never has more than 8 bits: the bit offset of
    /// a stream is below 8.
    pub proof fn lemma_bit_offset_below_eight(s: &ByteStream)
        ensures
            s@.bit_offset < 8,
    {
    }

    pub fn new() -> (s: Self)
        ensures
            s@ == (StreamState { data: Seq::empty(), offset: 0, bit_offset: 0 }),
    {
        ByteStream { buffer: buf_new(), offset: 0, bit_offset: BitOffset { bits: 0 } }
    }

    /// Grows the buffer with zero bytes so that `capacity` bytes fit from the
    /// offset.
    pub fn ensure_capacity(&mut self, capacity: usize)
        requires
            old(self)@.has_room(capacity as nat),
        ensures
            final(self)@ == old(self)@.ensure_capacity(capacity as nat),
    {
        let needed = self.offset + capacity;
        if needed > buf_len(&self.buffer) {
            buf_resize(&mut self.buffer, needed, 0);
            assert(bytes_of(self.buffer) =~= grown(old(self)@.data, needed as int));
        }
    }

    /// Writes `bytes` at the offset and moves past them.
    fn put_bytes(&mut self, bytes: &[u8])
        requires
            old(self)@.has_room(bytes@.len()),
        ensures
            final(self)@ == old(self)@.put(bytes@),
    {
        self.bit_offset = BitOffset { bits: 0 };
        let n = bytes.len();
        self.ensure_capacity(n);
        let ghost g = bytes_of(self.buffer);
        let start = self.offset;
        let mut i: usize = 0;
        while i < n
            invariant
                i <= n,
                n == bytes@.len(),
                start == self.offset,
                start == old(self)@.offset,
                self@.bit_offset == 0,
                g == grown(old(self)@.data, start + n),
                g.len() >= start + n,
                start + n <= isize::MAX,
                bytes_of(self.buffer) =~= g.take(start as int) + bytes@.take(i as int) + g.skip(start + i),
            decreases n - i,
        {
            buf_set(&mut self.buffer, start + i, bytes[i]);
            assert(bytes@.take(i + 1) =~= bytes@.take(i as int).push(bytes@[i as int]));
            i = i + 1;
        }
        self.offset = start + n;
        assert(bytes@.take(n as int) =~= bytes@);
    }

    pub fn read_int(&mut self) -> (v: i32)
        requires
            old(self)@.offset + 4 <= usize::MAX,
        ensures
            (v, final(self)@) == old(self)@.read_int(),
    {
        self.bit_offset = BitOffset { bits: 0 };
        if self.offset + 4 <= buf_len(&self.buffer) {
            let s = buf_as_slice(&self.buffer);
            let o = self.offset;
            let v = be32_decode(s[o], s[o + 1], s[o + 2], s[o + 3]);
            self.offset = o + 4;
            v
        } else {
            0
        }
    }

    pub fn read_short(&mut self) -> (v: i16)
        requires
            old(self)@.offset + 2 <= usize::MAX,
        ensures
            (v, final(self)@) == old(self)@.read_short(),
    {
        self.bit_offset = BitOffset { bits: 0 };
        if self.offset + 2 <= buf_len(&self.buffer) {
            let s = buf_as_slice(&self.buffer);
            let o = self.offset;
            let v = be16_decode(s[o], s[o + 1]);
            self.offset = o + 2;
            v
        } else {
            0
        }
    }

    pub fn read_vint(&mut self) -> (v: i32)
        requires
            old(self)@.can_read_vint(),
        ensures
            (v, final(self)@) == old(self)@.read_vint(),
    {
        let ghost s0 = self@;
        let ghost start = self.offset as int;
        let ghost mut acc: nat = 0;
        let mut result: u32 = 0;
        let mut shift: u32 = 0;
        let mut k: u32 = 0;
        loop
            invariant
                s0 == old(self)@,
                self@.data == s0.data,
                self@.bit_offset == s0.bit_offset,
                s0.offset == start,
                s0.can_read_vint(),
                k <= 5,
                shift == 7 * k,
                self.offset == start + k,
                k > 0 ==> start + k <= s0.data.len(),
                vint_scan(s0.data, start, 0, 0) == vint_scan(s0.data, start + k, acc, k as nat),
                acc < pow128(k as nat),
                result as int == acc % 0x1_0000_0000,
            decreases 5 - k,
        {
            let len = buf_len(&self.buffer);
            if self.offset >= len {
                return 0;
            }
            assert(k < 5);
            let byte = buf_as_slice(&self.buffer)[self.offset];
            self.offset = self.offset + 1;
            // The first byte holds the sign in bit 6: its group moves that
            // bit to bit 0, under the 6 low bits shifted up by one. Later
            // bytes give their low 7 bits. Bit 7 says that more follow.
            let g: u32 = if k == 0 {
                2 * ((byte % 64) as u32) + ((byte / 64) % 2) as u32
            } else {
                (byte % 128) as u32
            };
            assert(g as nat == vint_group(byte, k as nat));
            proof {
                lemma_vint_step(result, acc, g, k);
                acc = acc + (g as nat) * pow128(k as nat);
            }
            result = result | (g << shift);
            shift = shift + 7;
            k = k + 1;
            if byte < 128 {
                let half = result / 2;
                if result % 2 == 0 {
                    return half as i32;
                } else {
                    return -(half as i32) - 1;
                }
            }
        }
    }

    pub fn write_vint(&mut self, value: i32)
        requires
            old(self)@.has_room(vint_bytes(value).len()),
        ensures
            final(self)@ == old(self)@.write_vint(value),
    {
        let ghost bytes = vint_bytes(value);
        // `u` has the 32 bits of `value`; `flipped` is its magnitude (`!value`
        // for a negative one) and `w` its bits shifted right by 6 with the
        // sign copied in, both as unsigned numbers.
        let neg = value < 0;
        let u: u32 = if neg {
            ((value + 2147483647 + 1) as u32) + 0x8000_0000
        } else {
            value as u32
        };
        let sign: u8 = if neg { 64 } else { 0 };
        let temp: u8 = sign + (u % 64) as u8;
        let mut flipped: u32 = if neg { (-(value + 1)) as u32 } else { value as u32 };
        flipped = flipped / 64;
        let mut w: u32 = if neg { u / 64 + 0xFC00_0000 } else { u / 64 };
        assert(temp as int == (if neg { 64int } else { 0 }) + (value as int) % 64);
        assert(w as int == (value as int / 64) % 0x1_0000_0000);
        if flipped == 0 {
            self.write_byte(temp);
            return;
        }
        self.write_byte(temp + 128);
        flipped = flipped / 128;
        let ghost mut written: Seq<u8> = seq![(temp + 128) as u8];
        assert(bytes == written + vint_tail(w as nat, flipped as nat));
        loop
            invariant
                bytes == vint_bytes(value),
                self@ == old(self)@.put(written),
                bytes == written + vint_tail(w as nat, flipped as nat),
                old(self)@.has_room(bytes.len()),
            decreases flipped,
        {
            let r: u8 = if flipped != 0 { 128 } else { 0 };
            let b: u8 = (w % 128) as u8 + r;
            proof {
                old(self)@.lemma_put_put(written, seq![b]);
                if flipped != 0 {
                    assert(vint_tail(w as nat, flipped as nat) == seq![b] + vint_tail((w / 128) as nat, (flipped / 128) as nat));
                }
            }
            self.write_byte(b);
            proof {
                written = written + seq![b];
            }
            w = w / 128;
            if flipped == 0 {
                assert(bytes =~= written);
                return;
            }
            flipped = flipped / 128;
            assert(bytes =~= written + vint_tail(w as nat, flipped as nat));
        }
    }

    pub fn write_string(&mut self, value: Option<&str>)
        requires
            old(self)@.has_room_for_string(str_bytes(value)),
        ensures
            final(self)@ == old(self)@.write_string(str_bytes(value)),
    {
        match value {
            Some(s) if s.len() <= 90000 => {
                let bytes = s.as_bytes();
                self.write_int(bytes.len() as i32);
                self.put_bytes(bytes);
            },
            _ => {
                self.write_int(-1i32);
            },
        }
    }

    pub fn read_string(&mut self) -> (text: String)
        requires
            old(self)@.can_read_string(),
        ensures
            (text@, final(self)@) == old(self)@.read_string(),
    {
        let length = self.read_int();
        if length > 0 && length < 90000 && self.offset + (length as usize) <= buf_len(&self.buffer) {
            let o = self.offset;
            let n = length as usize;
            let all = buf_as_slice(&self.buffer);
            let bytes = slice_to_vec(slice_subrange(all, o, o + n));
            let text = match string_from_utf8(bytes) {
                Ok(text) => text,
                Err(_) => String::new(),
            };
            self.offset = o + n;
            text
        } else {
            String::new()
        }
    }

    pub fn read_data_reference(&mut self) -> (r: [i32; 2])
        requires
            old(self)@.can_read_data_reference(),
        ensures
            ((r[0], r[1]), final(self)@) == old(self)@.read_data_reference(),
    {
        let a1 = self.read_vint();
        let a2 = if a1 == 0 { 0 } else { self.read_vint() };
        [a1, a2]
    }

    pub fn write_data_reference(&mut self, value1: i32, value2: i32)
        requires
            if value1 < 1 {
                old(self)@.has_room(1)
            } else {
                old(self)@.has_room(vint_bytes(value1).len() + vint_bytes(value2).len())
            },
        ensures
            final(self)@ == old(self)@.write_data_reference(value1, value2),
    {
        if value1 < 1 {
            assert(vint_bytes(0) == seq![0u8]);
            self.write_vint(0);
        } else {
            self.write_vint(value1);
            self.write_vint(value2);
        }
    }

    pub fn write_boolean(&mut self, value: bool)
        requires
            old(self)@.can_write_boolean(value),
        ensures
            final(self)@ == old(self)@.write_boolean(value),
    {
        proof {
            use_type_invariant(&self.bit_offset);
        }
        let bit = self.bit_offset.bits;
        if bit == 0 {
            self.ensure_capacity(1);
            let o = self.offset;
            buf_set(&mut self.buffer, o, 0);
            self.offset = o + 1;
            assert(bytes_of(self.buffer) =~= written_at(old(self)@.data, o as int, seq![0u8]));
        }
        if value {
            let last = self.offset - 1;
            let b = buf_as_slice(&self.buffer)[last];
            buf_set(&mut self.buffer, last, b | (1u8 << bit));
        }
        self.bit_offset = BitOffset { bits: (bit + 1) % 8 };
    }

    pub fn read_boolean(&mut self) -> (b: bool)
        requires
            old(self)@.can_read_vint(),
        ensures
            (b, final(self)@) == old(self)@.read_boolean(),
    {
        self.read_vint() >= 1
    }

    pub fn write_long_long(&mut self, value: i64)
        requires
            old(self)@.has_room(8),
        ensures
            final(self)@ == old(self)@.write_long_long(value),
    {
        let u: u64 = if value < 0 {
            ((value + 9223372036854775807 + 1) as u64) + 0x8000_0000_0000_0000
        } else {
            value as u64
        };
        let high = i32_from_bits((u / 0x1_0000_0000) as u32);
        let low = i32_from_bits((u % 0x1_0000_0000) as u32);
        self.write_int(high);
        self.write_int(low);
    }

    pub fn write_logic_long(&mut self, value1: i32, value2: i32)
        requires
            old(self)@.has_room(vint_bytes(value1).len() + vint_bytes(value2).len()),
        ensures
            final(self)@ == old(self)@.write_logic_long(value1, value2),
    {
        self.write_vint(value1);
        self.write_vint(value2);
    }

    pub fn read_logic_long(&mut self) -> (r: [i32; 2])
        requires
            old(self)@.can_read_logic_long(),
        ensures
            ((r[0], r[1]), final(self)@) == old(self)@.read_logic_long(),
    {
        let a = self.read_vint();
        let b = self.read_vint();
        [a, b]
    }

    pub fn write_long(&mut self, value1: i32, value2: i32)
        requires
            old(self)@.has_room(8),
        ensures
            final(self)@ == old(self)@.write_long(value1, value2),
    {
        self.write_int(value1);
        self.write_int(value2);
    }

    pub fn read_long(&mut self) -> (r: [i32; 2])
        requires
            old(self)@.offset + 8 <= usize::MAX,
        ensures
            ((r[0], r[1]), final(self)@) == old(self)@.read_long(),
    {
        let a = self.read_int();
        let b = self.read_int();
        [a, b]
    }

    pub fn write_bytes(&mut self, buffer: &[u8])
        requires
            old(self)@.has_room(4 + buffer@.len()),
        ensures
            final(self)@ == old(self)@.write_bytes(buffer@),
    {
        if buffer.len() != 0 {
            let n = buffer.len();
            self.write_int(i32_from_bits(((n as u64) % 0x1_0000_0000) as u32));
            self.put_bytes(buffer);
        } else {
            self.write_int(-1i32);
        }
    }

    /// Moves the cursor by `len` bits: whole bytes move the offset, the rest
    /// (of `len` taken modulo 256) moves the bit offset.
    pub fn skip(&mut self, len: usize)
        requires
            old(self)@.bit_offset + len % 256 <= 255,
            old(self)@.offset + len / 8 <= usize::MAX,
        ensures
            final(self)@ == old(self)@.skip(len as nat),
    {
        proof {
            use_type_invariant(&self.bit_offset);
        }
        let low = (len % 256) as u8;
        self.bit_offset = BitOffset { bits: (self.bit_offset.bits + low) % 8 };
        self.offset = self.offset + len / 8;
    }

    pub fn write_short(&mut self, value: i16)
        requires
            old(self)@.has_room(2),
        ensures
            final(self)@ == old(self)@.write_short(value),
    {
        let bytes = be16_encode(value);
        self.put_bytes(bytes.as_slice());
    }

    pub fn write_int(&mut self, value: i32)
        requires
            old(self)@.has_room(4),
        ensures
            final(self)@ == old(self)@.write_int(value),
    {
        let bytes = be32_encode(value);
        self.put_bytes(bytes.as_slice());
    }

    pub fn write_byte(&mut self, value: u8)
        requires
            old(self)@.has_room(1),
        ensures
            final(self)@ == old(self)@.write_byte(value),
    {
        self.bit_offset = BitOffset { bits: 0 };
        self.ensure_capacity(1);
        let o = self.offset;
        buf_set(&mut self.buffer, o, value);
        self.offset = o + 1;
        assert(bytes_of(self.buffer) =~= written_at(old(self)@.data, o as int, seq![value]));
    }

    /// Empties the stream.
    pub fn reset(&mut self)
        ensures
            final(self)@ == (StreamState { data: Seq::empty(), offset: 0, bit_offset: 0 }),
    {
        buf_clear(&mut self.buffer);
        self.offset = 0;
        self.bit_offset = BitOffset { bits: 0 };
    }

    pub fn get_length(&self) -> (n: usize)
        ensures
            n == self@.data.len(),
    {
        buf_len(&self.buffer)
    }

    pub fn get_buffer(&self) -> (b: &BytesMut)
        ensures
            bytes_of(*b) == self@.data,
    {
        &self.buffer
    }

    /// Puts `b` in place of the buffer, rewinds, and hands back the old
    /// buffer.
    pub fn replace_buffer(&mut self, b: BytesMut) -> (old_buffer: BytesMut)
        ensures
            bytes_of(old_buffer) == old(self)@.data,
            final(self)@ == (StreamState { data: bytes_of(b), offset: 0, bit_offset: 0 }),
    {
        self.offset = 0;
        self.bit_offset = BitOffset { bits: 0 };
        let mut other = b;
        std::mem::swap(&mut self.buffer, &mut other);
        other
    }
}

/// The byte sequence of an optional string.
pub open spec fn str_bytes(value: Option<&str>) -> Option<Seq<u8>> {
    match value {
        Some(s) => Some(s.spec_bytes()),
        None => None,
    }
}

/// The signed 32-bit integer with the bits of `u`.
fn i32_from_bits(u: u32) -> (v: i32)
    ensures
        v == signed32(u as int),
{
    if u >= 0x8000_0000 {
        ((u - 0x8000_0000) as i32) - 2147483647 - 1
    } else {
        u as i32
    }
}

/// The four big-endian bytes of `v`.
fn be32_encode(v: i32) -> (bytes: Vec<u8>)
    ensures
        bytes@ == be32_bytes(v),
{
    let u: u32 = if v < 0 {
        ((v + 2147483647 + 1) as u32) + 0x8000_0000
    } else {
        v as u32
    };
    let bytes = vec![
        (u / 0x100_0000) as u8,
        (u / 0x1_0000 % 0x100) as u8,
        (u / 0x100 % 0x100) as u8,
        (u % 0x100) as u8,
    ];
    assert(bytes@ =~= be32_bytes(v));
    bytes
}

/// The two big-endian bytes of `v`.
fn be16_encode(v: i16) -> (bytes: Vec<u8>)
    ensures
        bytes@ == be16_bytes(v),
{
    let u: u16 = if v < 0 {
        ((v + 32767 + 1) as u16) + 0x8000
    } else {
        v as u16
    };
    let bytes = vec![(u / 0x100) as u8, (u % 0x100) as u8];
    assert(bytes@ =~= be16_bytes(v));
    bytes
}

/// The 32-bit integer with big-endian bytes `b0 b1 b2 b3`.
fn be32_decode(b0: u8, b1: u8, b2: u8, b3: u8) -> (v: i32)
    ensures
        v == be32_value(seq![b0, b1, b2, b3]),
{
    let u: u32 = (b0 as u32) * 0x100_0000 + (b1 as u32) * 0x1_0000 + (b2 as u32) * 0x100 + (b3 as u32);
    if u >= 0x8000_0000 {
        ((u - 0x8000_0000) as i32) - 2147483647 - 1
    } else {
        u as i32
    }
}

/// The 16-bit integer with big-endian bytes `b0 b1`.
fn be16_decode(b0: u8, b1: u8) -> (v: i16)
    ensures
        v == be16_value(seq![b0, b1]),
{
    let u: u16 = (b0 as u16) * 0x100 + (b1 as u16);
    if u >= 0x8000 {
        ((u - 0x8000) as i16) - 32767 - 1
    } else {
        u as i16
    }
}

} // verus!
