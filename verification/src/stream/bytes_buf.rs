//! Trusted interface to `bytes::BytesMut`, the growable byte buffer that the
//! stream and the framing code keep their data in.
//!
//! Each item here is believed by Verus without proof; its doc comment says
//! which function of the `bytes` crate it calls and what is claimed of it.
//! Growing calls ask that the resulting length stays within `isize::MAX`,
//! beyond which the allocation behind `BytesMut` panics.

use vstd::prelude::*;
use bytes::{Buf, BufMut, BytesMut};

verus! {

#[verifier::external_type_specification]
#[verifier::external_body]
pub struct ExBytesMut(BytesMut);

/// The bytes that a `BytesMut` holds, from its read position to its end.
pub uninterp spec fn bytes_of(buf: BytesMut) -> Seq<u8>;

/// `BytesMut::new`: an empty buffer.
#[verifier::external_body]
pub(crate) fn buf_new() -> (buf: BytesMut)
    ensures
        bytes_of(buf) == Seq::<u8>::empty(),
{
    BytesMut::new()
}

/// `BytesMut::len`: the number of bytes held.
#[verifier::external_body]
pub(crate) fn buf_len(buf: &BytesMut) -> (n: usize)
    ensures
        n == bytes_of(*buf).len(),
{
    buf.len()
}

/// `<BytesMut as Deref>::deref`: the held bytes as a slice.
#[verifier::external_body]
pub(crate) fn buf_as_slice(buf: &BytesMut) -> (s: &[u8])
    ensures
        s@ == bytes_of(*buf),
{
    &buf[..]
}

/// `<BytesMut as DerefMut>::deref_mut` followed by an index assignment:
/// replaces the byte at `index`, which must be held (else the index panics).
#[verifier::external_body]
pub(crate) fn buf_set(buf: &mut BytesMut, index: usize, value: u8)
    requires
        index < bytes_of(*old(buf)).len(),
    ensures
        bytes_of(*final(buf)) == bytes_of(*old(buf)).update(index as int, value),
{
    buf[index] = value;
}

/// `BytesMut::resize`: extends the buffer with copies of `value` up to
/// `new_len` bytes, or truncates it to `new_len` bytes.
#[verifier::external_body]
pub(crate) fn buf_resize(buf: &mut BytesMut, new_len: usize, value: u8)
    requires
        new_len <= isize::MAX,
    ensures
        bytes_of(*final(buf)) == (if new_len <= bytes_of(*old(buf)).len() {
            bytes_of(*old(buf)).take(new_len as int)
        } else {
            bytes_of(*old(buf)) + Seq::new(
                (new_len - bytes_of(*old(buf)).len()) as nat,
                |i: int| value,
            )
        }),
{
    buf.resize(new_len, value);
}

/// `BytesMut::clear`: removes every byte.
#[verifier::external_body]
pub(crate) fn buf_clear(buf: &mut BytesMut)
    ensures
        bytes_of(*final(buf)) == Seq::<u8>::empty(),
{
    buf.clear();
}

/// `<BytesMut as Clone>::clone`: a new buffer with the same bytes.
#[verifier::external_body]
pub(crate) fn buf_clone(buf: &BytesMut) -> (copy: BytesMut)
    ensures
        bytes_of(copy) == bytes_of(*buf),
{
    buf.clone()
}

/// `<BytesMut as Buf>::get_u8`: takes the first byte off the front; panics
/// on an empty buffer.
#[verifier::external_body]
pub(crate) fn buf_get_u8(buf: &mut BytesMut) -> (b: u8)
    requires
        bytes_of(*old(buf)).len() >= 1,
    ensures
        b == bytes_of(*old(buf))[0],
        bytes_of(*final(buf)) == bytes_of(*old(buf)).skip(1),
{
    buf.get_u8()
}

/// `<BytesMut as Buf>::get_u16`: takes the first two bytes off the front and
/// reads them as a big-endian number; panics when fewer are held.
#[verifier::external_body]
pub(crate) fn buf_get_u16(buf: &mut BytesMut) -> (v: u16)
    requires
        bytes_of(*old(buf)).len() >= 2,
    ensures
        v == bytes_of(*old(buf))[0] * 256 + bytes_of(*old(buf))[1],
        bytes_of(*final(buf)) == bytes_of(*old(buf)).skip(2),
{
    buf.get_u16()
}

/// `<BytesMut as BufMut>::put_u8`: appends one byte.
#[verifier::external_body]
pub(crate) fn buf_put_u8(buf: &mut BytesMut, b: u8)
    requires
        bytes_of(*old(buf)).len() + 1 <= isize::MAX,
    ensures
        bytes_of(*final(buf)) == bytes_of(*old(buf)).push(b),
{
    buf.put_u8(b);
}

/// `<BytesMut as BufMut>::put_u16`: appends a number as two big-endian bytes.
#[verifier::external_body]
pub(crate) fn buf_put_u16(buf: &mut BytesMut, v: u16)
    requires
        bytes_of(*old(buf)).len() + 2 <= isize::MAX,
    ensures
        bytes_of(*final(buf)) == bytes_of(*old(buf)) + seq![(v / 256) as u8, (v % 256) as u8],
{
    buf.put_u16(v);
}

/// `BytesMut::extend_from_slice`: appends the bytes of a slice.
#[verifier::external_body]
pub(crate) fn buf_extend(buf: &mut BytesMut, src: &[u8])
    requires
        bytes_of(*old(buf)).len() + src@.len() <= isize::MAX,
    ensures
        bytes_of(*final(buf)) == bytes_of(*old(buf)) + src@,
{
    buf.extend_from_slice(src);
}

/// `<BytesMut as From<&[u8]>>::from`: a new buffer holding a copy of a slice.
#[verifier::external_body]
pub(crate) fn buf_from_slice(src: &[u8]) -> (buf: BytesMut)
    ensures
        bytes_of(buf) == src@,
{
    BytesMut::from(src)
}

} // verus!
