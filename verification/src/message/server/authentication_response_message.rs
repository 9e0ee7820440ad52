//! The server's answer to a login: the account id twice, then the fixed
//! settings of this server (environment "dev", region "RU").

use vstd::prelude::*;
use bytes::BytesMut;
use vstd::string::StringSliceAdditionalSpecFns;
use vstd::utf8::{encode_utf8, is_ascii_chars_encode_utf8};
use crate::message::piranha_message::{
    fresh_stream, Coder, FactoryMessage, MessageHeader, MessageOps, PiranhaMessage,
};
use crate::networking::client::ClientConnection;
use crate::stream::byte_stream::{ByteStream, StreamState};
use crate::stream::bytes_buf::bytes_of;
use crate::stream::encoding::{be32_bytes, vint_bytes};
use crate::stream::laws::{
    lemma_put_bytes, lemma_write_int_keeps_prefix, lemma_write_string_keeps_prefix,
    lemma_write_vint_keeps_prefix, settled,
};

verus! {

/// The bytes of the text "dev".
pub open spec fn dev_bytes() -> Seq<u8> {
    seq![0x64u8, 0x65u8, 0x76u8]
}

/// The bytes of the text "RU".
pub open spec fn ru_bytes() -> Seq<u8> {
    seq![0x52u8, 0x55u8]
}

/// The first part of an authentication response: the account id twice
/// and three empty strings.
pub open spec fn response_ids(s: StreamState, high: i32, low: i32) -> StreamState {
    let none = Some(Seq::<u8>::empty());
    s.write_int(high).write_int(low).write_int(high).write_int(low)
        .write_string(none).write_string(none).write_string(none)
}

/// The second part: 29, 0, 0, the environment "dev", and 0, 0, 0.
pub open spec fn response_environment(s: StreamState) -> StreamState {
    s.write_int(29).write_int(0).write_int(0)
        .write_string(Some(dev_bytes()))
        .write_int(0).write_int(0).write_int(0)
}

/// The third part: three empty strings, 0, and an empty string, the region
/// "RU" and an empty string.
pub open spec fn response_region(s: StreamState) -> StreamState {
    let none = Some(Seq::<u8>::empty());
    s.write_string(none).write_string(none).write_string(none)
        .write_int(0)
        .write_string(none).write_string(Some(ru_bytes())).write_string(none)
}

/// The last part: 1, an empty string, 0, 0, the variable-length integer 0,
/// an empty string, the variable-length integers 1 and 1, and an empty
/// string.
pub open spec fn response_tail(s: StreamState) -> StreamState {
    let none = Some(Seq::<u8>::empty());
    s.write_int(1)
        .write_string(none)
        .write_int(0)
        .write_int(0)
        .write_vint(0)
        .write_string(none)
        .write_vint(1).write_vint(1)
        .write_string(none)
}

/// The body of an authentication response for the account id
/// (`high`, `low`), written from the stream state `s`.
#[verifier::opaque]
pub open spec fn authentication_response_body(s: StreamState, high: i32, low: i32) -> StreamState {
    response_tail(response_region(response_environment(response_ids(s, high, low))))
}

/// The number of bytes an authentication response body takes.
pub open spec fn authentication_response_len() -> nat {
    116
}

/// The UTF-8 bytes of the texts this message writes.
proof fn lemma_text_bytes()
    ensures
        "".spec_bytes() == Seq::<u8>::empty(),
        "dev".spec_bytes() == dev_bytes(),
        "RU".spec_bytes() == ru_bytes(),
{
    reveal_strlit("");
    reveal_strlit("dev");
    reveal_strlit("RU");
    assert(encode_utf8(""@) =~= Seq::<u8>::empty()) by {
        is_ascii_chars_encode_utf8(""@);
    }
    is_ascii_chars_encode_utf8("dev"@);
    assert(encode_utf8("dev"@) =~= dev_bytes());
    is_ascii_chars_encode_utf8("RU"@);
    assert(encode_utf8("RU"@) =~= ru_bytes());
}


fn write_ids(stream: &mut ByteStream, high_id: i32, low_id: i32)
    requires
        old(stream)@.has_room(28),
    ensures
        final(stream)@ == response_ids(old(stream)@, high_id, low_id),
        final(stream)@.offset == old(stream)@.offset + 28,
{
    proof {
        lemma_text_bytes();
    }
    stream.write_int(high_id);
    stream.write_int(low_id);

    stream.write_int(high_id);
    stream.write_int(low_id);

    stream.write_string(Some(""));

    stream.write_string(Some(""));
    stream.write_string(Some(""));
}

fn write_environment(stream: &mut ByteStream)
    requires
        old(stream)@.has_room(31),
    ensures
        final(stream)@ == response_environment(old(stream)@),
        final(stream)@.offset == old(stream)@.offset + 31,
{
    proof {
        lemma_text_bytes();
    }
    stream.write_int(29);
    stream.write_int(0);
    stream.write_int(0);

    stream.write_string(Some("dev"));

    stream.write_int(0);
    stream.write_int(0);
    stream.write_int(0);
}

fn write_region(stream: &mut ByteStream)
    requires
        old(stream)@.has_room(30),
    ensures
        final(stream)@ == response_region(old(stream)@),
        final(stream)@.offset == old(stream)@.offset + 30,
{
    proof {
        lemma_text_bytes();
    }
    stream.write_string(Some(""));
    stream.write_string(Some(""));
    stream.write_string(Some(""));

    stream.write_int(0);

    stream.write_string(Some(""));
    stream.write_string(Some("RU"));
    stream.write_string(Some(""));
}

fn write_tail(stream: &mut ByteStream)
    requires
        old(stream)@.has_room(27),
    ensures
        final(stream)@ == response_tail(old(stream)@),
        final(stream)@.offset == old(stream)@.offset + 27,
{
    proof {
        lemma_text_bytes();
        assert(vint_bytes(0) == seq![0u8]);
        assert(vint_bytes(1) == seq![1u8]);
    }
    stream.write_int(1);

    stream.write_string(Some(""));

    stream.write_int(0);

    stream.write_int(0);

    stream.write_vint(0);

    stream.write_string(Some(""));

    stream.write_vint(1);
    stream.write_vint(1);

    stream.write_string(Some(""));
}

/// The environment part leaves a settled prefix as it was.
proof fn lemma_environment_keeps_prefix(s: StreamState, k: int)
    requires
        settled(s, k),
    ensures
        settled(response_environment(s), k),
        response_environment(s).data.take(k) == s.data.take(k),
{
    let s1 = s.write_int(29);
    let s2 = s1.write_int(0);
    let s3 = s2.write_int(0);
    let s4 = s3.write_string(Some(dev_bytes()));
    let s5 = s4.write_int(0);
    let s6 = s5.write_int(0);
    lemma_write_int_keeps_prefix(s, 29, k);
    lemma_write_int_keeps_prefix(s1, 0, k);
    lemma_write_int_keeps_prefix(s2, 0, k);
    lemma_write_string_keeps_prefix(s3, Some(dev_bytes()), k);
    lemma_write_int_keeps_prefix(s4, 0, k);
    lemma_write_int_keeps_prefix(s5, 0, k);
    lemma_write_int_keeps_prefix(s6, 0, k);
}

/// The region part leaves a settled prefix as it was.
proof fn lemma_region_keeps_prefix(s: StreamState, k: int)
    requires
        settled(s, k),
    ensures
        settled(response_region(s), k),
        response_region(s).data.take(k) == s.data.take(k),
{
    let none = Some(Seq::<u8>::empty());
    let s1 = s.write_string(none);
    let s2 = s1.write_string(none);
    let s3 = s2.write_string(none);
    let s4 = s3.write_int(0);
    let s5 = s4.write_string(none);
    let s6 = s5.write_string(Some(ru_bytes()));
    lemma_write_string_keeps_prefix(s, none, k);
    lemma_write_string_keeps_prefix(s1, none, k);
    lemma_write_string_keeps_prefix(s2, none, k);
    lemma_write_int_keeps_prefix(s3, 0, k);
    lemma_write_string_keeps_prefix(s4, none, k);
    lemma_write_string_keeps_prefix(s5, Some(ru_bytes()), k);
    lemma_write_string_keeps_prefix(s6, none, k);
}

/// The last part leaves a settled prefix as it was.
proof fn lemma_tail_keeps_prefix(s: StreamState, k: int)
    requires
        settled(s, k),
    ensures
        settled(response_tail(s), k),
        response_tail(s).data.take(k) == s.data.take(k),
{
    let none = Some(Seq::<u8>::empty());
    let s1 = s.write_int(1);
    let s2 = s1.write_string(none);
    let s3 = s2.write_int(0);
    let s4 = s3.write_int(0);
    let s5 = s4.write_vint(0);
    let s6 = s5.write_string(none);
    let s7 = s6.write_vint(1);
    let s8 = s7.write_vint(1);
    lemma_write_int_keeps_prefix(s, 1, k);
    lemma_write_string_keeps_prefix(s1, none, k);
    lemma_write_int_keeps_prefix(s2, 0, k);
    lemma_write_int_keeps_prefix(s3, 0, k);
    lemma_write_vint_keeps_prefix(s4, 0, k);
    lemma_write_string_keeps_prefix(s5, none, k);
    lemma_write_vint_keeps_prefix(s6, 1, k);
    lemma_write_vint_keeps_prefix(s7, 1, k);
    lemma_write_string_keeps_prefix(s8, none, k);
}

/// An authentication response starts, where it is written, with the
/// account id: the big-endian high half, then the low half.
pub proof fn law_response_starts_with_ids(s: StreamState, high: i32, low: i32)
    requires
        s.offset <= s.data.len(),
    ensures
        authentication_response_body(s, high, low).data.subrange(s.offset as int, s.offset + 8int)
            == be32_bytes(high) + be32_bytes(low),
{
    reveal(authentication_response_body);
    let none = Some(Seq::<u8>::empty());
    let o = s.offset as int;
    let k = o + 8;
    let ids = be32_bytes(high) + be32_bytes(low);
    let s2 = s.write_int(high).write_int(low);
    s.lemma_put_put(be32_bytes(high), be32_bytes(low));
    lemma_put_bytes(s, ids);
    assert(s2.data.take(k).subrange(o, k) == ids);
    assert(settled(s2, k));
    let s3 = s2.write_int(high);
    let s4 = s3.write_int(low);
    let s5 = s4.write_string(none);
    let s6 = s5.write_string(none);
    lemma_write_int_keeps_prefix(s2, high, k);
    lemma_write_int_keeps_prefix(s3, low, k);
    lemma_write_string_keeps_prefix(s4, none, k);
    lemma_write_string_keeps_prefix(s5, none, k);
    lemma_write_string_keeps_prefix(s6, none, k);
    let t1 = response_ids(s, high, low);
    lemma_environment_keeps_prefix(t1, k);
    let t2 = response_environment(t1);
    lemma_region_keeps_prefix(t2, k);
    let t3 = response_region(t2);
    lemma_tail_keeps_prefix(t3, k);
    let t4 = response_tail(t3);
    assert(t4.data.take(k) == s2.data.take(k));
    assert(t4.data.subrange(o, k) =~= t4.data.take(k).subrange(o, k));
}

/// The four zero bytes of the `int` 0, which are also those of an empty
/// string (its length 0 and no text).
pub open spec fn zero_int_bytes() -> Seq<u8> {
    seq![0u8, 0u8, 0u8, 0u8]
}

/// The bytes of the first part: the account id twice and three empty
/// strings.
pub open spec fn response_ids_bytes(high: i32, low: i32) -> Seq<u8> {
    let z = zero_int_bytes();
    be32_bytes(high) + be32_bytes(low) + be32_bytes(high) + be32_bytes(low) + z + z + z
}

/// The bytes of the second part: 29, 0, 0, the string "dev", and 0, 0, 0.
pub open spec fn response_environment_bytes() -> Seq<u8> {
    let z = zero_int_bytes();
    seq![0u8, 0u8, 0u8, 29u8] + z + z + seq![0u8, 0u8, 0u8, 3u8, 0x64u8, 0x65u8, 0x76u8] + z + z + z
}

/// The bytes of the third part: three empty strings, 0, an empty string,
/// the string "RU" and an empty string.
pub open spec fn response_region_bytes() -> Seq<u8> {
    let z = zero_int_bytes();
    z + z + z + z + z + seq![0u8, 0u8, 0u8, 2u8, 0x52u8, 0x55u8] + z
}

/// The bytes of the last part: 1, an empty string, 0, 0, the one-byte
/// integer 0, an empty string, the one-byte integers 1 and 1, and an empty
/// string.
pub open spec fn response_tail_bytes() -> Seq<u8> {
    let z = zero_int_bytes();
    seq![0u8, 0u8, 0u8, 1u8] + z + z + z + seq![0u8] + z + seq![1u8] + seq![1u8] + z
}

/// The 116 bytes of an authentication response body for the account id
/// (`high`, `low`).
pub open spec fn authentication_response_bytes(high: i32, low: i32) -> Seq<u8> {
    response_ids_bytes(high, low) + response_environment_bytes() + response_region_bytes()
        + response_tail_bytes()
}

/// Writing an `int` after bytes is writing the bytes and its four bytes.
proof fn lemma_then_int(s: StreamState, acc: Seq<u8>, v: i32)
    ensures
        s.put(acc).write_int(v) == s.put(acc + be32_bytes(v)),
{
    s.lemma_put_put(acc, be32_bytes(v));
}

/// Writing a string of at most 90000 bytes after bytes is writing the bytes,
/// its length and its text.
proof fn lemma_then_string(s: StreamState, acc: Seq<u8>, b: Seq<u8>)
    requires
        b.len() <= 90000,
    ensures
        s.put(acc).write_string(Some(b)) == s.put(acc + be32_bytes(b.len() as i32) + b),
{
    s.lemma_put_put(acc, be32_bytes(b.len() as i32));
    s.lemma_put_put(acc + be32_bytes(b.len() as i32), b);
}

/// The first part writes its bytes at the offset.
proof fn lemma_ids_put(s: StreamState, high: i32, low: i32)
    ensures
        response_ids(s, high, low) == s.put(response_ids_bytes(high, low)),
{
    let e = Seq::<u8>::empty();
    let a1 = be32_bytes(high);
    let a2 = a1 + be32_bytes(low);
    let a3 = a2 + be32_bytes(high);
    let a4 = a3 + be32_bytes(low);
    let a5 = a4 + be32_bytes(0) + e;
    let a6 = a5 + be32_bytes(0) + e;
    let a7 = a6 + be32_bytes(0) + e;
    lemma_then_int(s, a1, low);
    lemma_then_int(s, a2, high);
    lemma_then_int(s, a3, low);
    lemma_then_string(s, a4, e);
    lemma_then_string(s, a5, e);
    lemma_then_string(s, a6, e);
    assert(be32_bytes(0) =~= zero_int_bytes());
    assert(a7 =~= response_ids_bytes(high, low));
}

/// The second part writes its bytes at the offset.
proof fn lemma_environment_put(t: StreamState)
    ensures
        response_environment(t) == t.put(response_environment_bytes()),
{
    let z = be32_bytes(0);
    let a1 = be32_bytes(29);
    let a2 = a1 + z;
    let a3 = a2 + z;
    let a4 = a3 + be32_bytes(3) + dev_bytes();
    let a5 = a4 + z;
    let a6 = a5 + z;
    let a7 = a6 + z;
    lemma_then_int(t, a1, 0);
    lemma_then_int(t, a2, 0);
    lemma_then_string(t, a3, dev_bytes());
    lemma_then_int(t, a4, 0);
    lemma_then_int(t, a5, 0);
    lemma_then_int(t, a6, 0);
    assert(z =~= zero_int_bytes());
    assert(a1 =~= seq![0u8, 0u8, 0u8, 29u8]);
    assert(be32_bytes(3) + dev_bytes() =~= seq![0u8, 0u8, 0u8, 3u8, 0x64u8, 0x65u8, 0x76u8]);
    assert(a7 =~= response_environment_bytes());
}

/// The third part writes its bytes at the offset.
#[verifier::rlimit(40)]
proof fn lemma_region_put(t: StreamState)
    ensures
        response_region(t) == t.put(response_region_bytes()),
{
    let e = Seq::<u8>::empty();
    let z = be32_bytes(0);
    let a1 = z + e;
    let a2 = a1 + z + e;
    let a3 = a2 + z + e;
    let a4 = a3 + z;
    let a5 = a4 + z + e;
    let a6 = a5 + be32_bytes(2) + ru_bytes();
    let a7 = a6 + z + e;
    lemma_then_string(t, a1, e);
    lemma_then_string(t, a2, e);
    lemma_then_int(t, a3, 0);
    lemma_then_string(t, a4, e);
    lemma_then_string(t, a5, ru_bytes());
    lemma_then_string(t, a6, e);
    assert(t.write_string(Some(e)) == t.put(be32_bytes(0)).put(e));
    t.lemma_put_put(be32_bytes(0), e);
    assert(z =~= zero_int_bytes());
    assert(be32_bytes(2) + ru_bytes() =~= seq![0u8, 0u8, 0u8, 2u8, 0x52u8, 0x55u8]);
    assert(a7 =~= response_region_bytes());
}

/// The last part writes its bytes at the offset.
proof fn lemma_tail_put(t: StreamState)
    ensures
        response_tail(t) == t.put(response_tail_bytes()),
{
    let e = Seq::<u8>::empty();
    let z = be32_bytes(0);
    let a1 = be32_bytes(1);
    let a2 = a1 + z + e;
    let a3 = a2 + z;
    let a4 = a3 + z;
    let a5 = a4 + vint_bytes(0);
    let a6 = a5 + z + e;
    let a7 = a6 + vint_bytes(1);
    let a8 = a7 + vint_bytes(1);
    let a9 = a8 + z + e;
    lemma_then_string(t, a1, e);
    lemma_then_int(t, a2, 0);
    lemma_then_int(t, a3, 0);
    t.lemma_put_put(a4, vint_bytes(0));
    lemma_then_string(t, a5, e);
    t.lemma_put_put(a6, vint_bytes(1));
    t.lemma_put_put(a7, vint_bytes(1));
    lemma_then_string(t, a8, e);
    assert(vint_bytes(0) == seq![0u8]);
    assert(vint_bytes(1) == seq![1u8]);
    assert(z =~= zero_int_bytes());
    assert(a1 =~= seq![0u8, 0u8, 0u8, 1u8]);
    assert(a9 =~= response_tail_bytes());
}

/// The body, written from any stream state, is its bytes put at the offset.
#[verifier::rlimit(40)]
proof fn lemma_body_is_put(s: StreamState, high: i32, low: i32)
    ensures
        authentication_response_body(s, high, low) == s.put(authentication_response_bytes(high, low)),
{
    reveal(authentication_response_body);
    let ids = response_ids_bytes(high, low);
    let env = response_environment_bytes();
    let reg = response_region_bytes();
    let tail = response_tail_bytes();
    let t1 = response_ids(s, high, low);
    lemma_ids_put(s, high, low);
    let t2 = response_environment(t1);
    assert(t2 == s.put(ids + env)) by {
        lemma_environment_put(t1);
        s.lemma_put_put(ids, env);
    }
    let t3 = response_region(t2);
    assert(t3 == s.put(ids + env + reg)) by {
        lemma_region_put(t2);
        s.lemma_put_put(ids + env, reg);
    }
    let t4 = response_tail(t3);
    assert(t4 == s.put(ids + env + reg + tail)) by {
        lemma_tail_put(t3);
        s.lemma_put_put(ids + env + reg, tail);
    }
    assert(ids + env + reg + tail =~= authentication_response_bytes(high, low));
}

/// An authentication response body, written from any stream state, puts
/// exactly its 116 fixed bytes at the offset, for every account id: the
/// account id (high, low) twice, then the server's fixed settings. The
/// offset moves past them, and the bytes before them stay.
pub proof fn law_response_bytes(s: StreamState, high: i32, low: i32)
    ensures
        authentication_response_bytes(high, low).len() == authentication_response_len(),
        authentication_response_body(s, high, low) == s.put(authentication_response_bytes(high, low)),
        authentication_response_body(s, high, low).offset == s.offset + authentication_response_len(),
        authentication_response_body(s, high, low).data.subrange(s.offset as int, s.offset + 116int)
            == authentication_response_bytes(high, low),
        authentication_response_body(s, high, low).data.subrange(s.offset + 8int, s.offset + 16int)
            == be32_bytes(high) + be32_bytes(low),
{
    let all = authentication_response_bytes(high, low);
    lemma_body_is_put(s, high, low);
    lemma_put_bytes(s, all);
    let o = s.offset as int;
    let d = s.put(all).data;
    assert(d.subrange(o + 8, o + 16) =~= d.subrange(o, o + 116).subrange(8, 16));
    assert(all.subrange(8, 16) =~= be32_bytes(high) + be32_bytes(low));
}

pub struct AuthenticationResponseMessage {
    message: PiranhaMessage,
}

impl AuthenticationResponseMessage {
    /// An authentication response over the body `bytes`.
    pub fn new(bytes: BytesMut) -> (m: Self)
        ensures
            m.stream_state() == fresh_stream(bytes_of(bytes)),
            m.header() == (MessageHeader { id: 20104, version: 0, name: "AuthenticationResponseMessage"@ }),
    {
        let mut message = PiranhaMessage::new(bytes, "AuthenticationResponseMessage");
        message.set_message_id(20104);
        AuthenticationResponseMessage { message }
    }

    pub fn get_message_type_name() -> (name: &'static str)
        ensures
            name@ == "AuthenticationResponseMessage"@,
    {
        "AuthenticationResponseMessage"
    }
}

impl MessageOps for AuthenticationResponseMessage {
    closed spec fn stream_state(&self) -> StreamState {
        self.message.stream_state()
    }

    closed spec fn header(&self) -> MessageHeader {
        self.message.header()
    }

    fn get_stream(&mut self) -> (s: &mut ByteStream) {
        self.message.get_stream()
    }

    fn get_message_id(&self) -> (id: u16) {
        self.message.get_message_id()
    }

    fn set_message_id(&mut self, id: u16) {
        self.message.set_message_id(id)
    }

    fn get_message_version(&self) -> (version: u16) {
        self.message.get_message_version()
    }

    fn set_message_version(&mut self, version: u16) {
        self.message.set_message_version(version)
    }

    fn get_message_type_name(&self) -> (name: &str) {
        self.message.get_message_type_name()
    }
}

impl Coder for AuthenticationResponseMessage {
    open spec fn encode_requires(&self) -> bool {
        self.stream_state().has_room(authentication_response_len())
    }

    /// Writes the response body for the connection's account id.
    fn encode(&mut self, client: &mut ClientConnection)
        ensures
            final(self).stream_state() == authentication_response_body(
                old(self).stream_state(),
                old(client).high_id(),
                old(client).low_id(),
            ),
            final(self).header() == old(self).header(),
            *final(client) == *old(client),
    {
        proof {
            reveal(authentication_response_body);
        }
        let high_id = client.get_high_id();
        let low_id = client.get_low_id();
        let stream = self.get_stream();
        write_ids(stream, high_id, low_id);
        write_environment(stream);
        write_region(stream);
        write_tail(stream);
    }

    /// Nothing to decode.
    fn decode(&mut self, client: &mut ClientConnection)
        ensures
            *final(self) == *old(self),
            *final(client) == *old(client),
    {
    }

    /// Nothing to do.
    fn process(&mut self, client: &mut ClientConnection)
        ensures
            *final(self) == *old(self),
            *final(client) == *old(client),
    {
    }
}

impl FactoryMessage for AuthenticationResponseMessage {
    fn new(buffer: BytesMut) -> (m: Self)
        ensures
            m.stream_state() == fresh_stream(bytes_of(buffer)),
            m.header() == (MessageHeader { id: 20104, version: 0, name: "AuthenticationResponseMessage"@ }),
    {
        AuthenticationResponseMessage::new(buffer)
    }
}

} // verus!
