//! Messages: a byte stream together with a message id, a version and a
//! type name, and the operations that every message offers.

use vstd::prelude::*;
use bytes::BytesMut;
use crate::networking::client::ClientConnection;
use crate::stream::byte_stream::{str_bytes, ByteStream, StreamState};
use crate::stream::bytes_buf::{buf_as_slice, buf_extend, buf_new, buf_put_u16, buf_put_u8, bytes_of};
use crate::stream::encoding::vint_bytes;

verus! {

/// Everything of a message but its stream.
pub struct MessageHeader {
    pub id: u16,
    pub version: u16,
    pub name: Seq<char>,
}

/// A message as it goes on the wire: the id (2 bytes), the body length
/// (3 bytes, modulo 2^24), the version (2 bytes), all big-endian, then the
/// body and a fixed 7-byte trailer.
pub open spec fn frame_bytes(id: u16, version: u16, body: Seq<u8>) -> Seq<u8> {
    let n = body.len() % 0x100_0000;
    seq![
        (id / 0x100) as u8,
        (id % 0x100) as u8,
        (n / 0x1_0000) as u8,
        (n / 0x100 % 0x100) as u8,
        (n % 0x100) as u8,
        (version / 0x100) as u8,
        (version % 0x100) as u8,
    ] + body + seq![0xFFu8, 0xFFu8, 0u8, 0u8, 0u8, 0u8, 0u8]
}

/// The three length bytes of the header are those of the length modulo
/// 2^24.
proof fn lemma_length_bytes(n: nat, length: u32)
    requires
        length == n % 0x1_0000_0000,
    ensures
        (length / 0x1_0000) % 0x100 == (n % 0x100_0000) / 0x1_0000,
        (length / 0x100) % 0x100 == (n % 0x100_0000) / 0x100 % 0x100,
        length % 0x100 == (n % 0x100_0000) % 0x100,
{
    vstd::arithmetic::div_mod::lemma_mod_mod(n as int, 0x100_0000, 0x100);
    assert(0x100_0000int * 0x100 == 0x1_0000_0000);
    let low = length % 0x100_0000;
    assert(low == n % 0x100_0000);
    assert((length / 0x1_0000) % 0x100 == (length % 0x100_0000) / 0x1_0000) by (bit_vector);
    assert((length / 0x100) % 0x100 == (length % 0x100_0000) / 0x100 % 0x100) by (bit_vector);
    assert(length % 0x100 == (length % 0x100_0000) % 0x100) by (bit_vector);
}

/// A 16-bit number is its high byte times 256 plus its low byte.
proof fn lemma_two_bytes(x: u16)
    ensures
        (x / 0x100) * 0x100 + x % 0x100 == x,
{
}

/// A number below 2^24 is put back together from its three bytes.
proof fn lemma_three_bytes(x: u32)
    requires
        x < 0x100_0000,
    ensures
        (x / 0x1_0000) * 0x1_0000 + (x / 0x100 % 0x100) * 0x100 + x % 0x100 == x,
        x / 0x1_0000 < 0x100,
{
    assert((x / 0x1_0000) * 0x1_0000 + (x / 0x100 % 0x100) * 0x100 + x % 0x100 == x) by (bit_vector);
    assert(x < 0x100_0000 ==> x / 0x1_0000 < 0x100) by (bit_vector);
}

/// Every framed message, an empty one too, is its 7 header bytes, its body
/// and the 7-byte trailer FF FF 00 00 00 00 00, so it is 14 bytes longer
/// than its body. The header holds the id in its first two bytes, the body
/// length modulo 2^24 in the next three and the version in the last two,
/// each big-endian.
pub proof fn law_frame_layout(id: u16, version: u16, body: Seq<u8>)
    ensures
        frame_bytes(id, version, body).len() == body.len() + 14,
        frame_bytes(id, version, body).subrange(7, 7 + body.len() as int) == body,
        frame_bytes(id, version, body).subrange(body.len() + 7int, body.len() + 14int)
            == seq![0xFFu8, 0xFFu8, 0u8, 0u8, 0u8, 0u8, 0u8],
        frame_bytes(id, version, body)[0] * 0x100 + frame_bytes(id, version, body)[1] == id,
        frame_bytes(id, version, body)[2] * 0x1_0000 + frame_bytes(id, version, body)[3] * 0x100
            + frame_bytes(id, version, body)[4] == body.len() % 0x100_0000,
        frame_bytes(id, version, body)[5] * 0x100 + frame_bytes(id, version, body)[6] == version,
{
    let f = frame_bytes(id, version, body);
    let n = body.len() % 0x100_0000;
    lemma_two_bytes(id);
    lemma_two_bytes(version);
    lemma_three_bytes(n as u32);
    assert(f.subrange(7, 7 + body.len() as int) =~= body);
    assert(f.subrange(body.len() + 7int, body.len() + 14int) =~= seq![0xFFu8, 0xFFu8, 0u8, 0u8, 0u8, 0u8, 0u8]);
}

/// The operations of a message. Apart from the accessors, each reads or
/// writes the message's stream and leaves the header alone.
pub trait MessageOps {
    /// The state of the message's stream.
    spec fn stream_state(&self) -> StreamState;

    /// The message's id, version and type name.
    spec fn header(&self) -> MessageHeader;

    fn get_stream(&mut self) -> (s: &mut ByteStream)
        ensures
            s@ == old(self).stream_state(),
            final(self).stream_state() == final(s)@,
            final(self).header() == old(self).header(),
    ;

    fn get_message_id(&self) -> (id: u16)
        ensures
            id == self.header().id,
    ;

    fn set_message_id(&mut self, id: u16)
        ensures
            final(self).header() == (MessageHeader { id, ..old(self).header() }),
            final(self).stream_state() == old(self).stream_state(),
    ;

    fn get_message_version(&self) -> (version: u16)
        ensures
            version == self.header().version,
    ;

    fn set_message_version(&mut self, version: u16)
        ensures
            final(self).header() == (MessageHeader { version, ..old(self).header() }),
            final(self).stream_state() == old(self).stream_state(),
    ;

    fn get_message_type_name(&self) -> (name: &str)
        ensures
            name@ == self.header().name,
    ;

    fn read_int(&mut self) -> (v: i32)
        requires
            old(self).stream_state().offset + 4 <= usize::MAX,
        ensures
            (v, final(self).stream_state()) == old(self).stream_state().read_int(),
            final(self).header() == old(self).header(),
    {
        self.get_stream().read_int()
    }

    fn write_int(&mut self, value: i32)
        requires
            old(self).stream_state().has_room(4),
        ensures
            final(self).stream_state() == old(self).stream_state().write_int(value),
            final(self).header() == old(self).header(),
    {
        self.get_stream().write_int(value)
    }

    fn read_short(&mut self) -> (v: i16)
        requires
            old(self).stream_state().offset + 2 <= usize::MAX,
        ensures
            (v, final(self).stream_state()) == old(self).stream_state().read_short(),
            final(self).header() == old(self).header(),
    {
        self.get_stream().read_short()
    }

    fn write_short(&mut self, value: i16)
        requires
            old(self).stream_state().has_room(2),
        ensures
            final(self).stream_state() == old(self).stream_state().write_short(value),
            final(self).header() == old(self).header(),
    {
        self.get_stream().write_short(value)
    }

    fn read_string(&mut self) -> (text: String)
        requires
            old(self).stream_state().can_read_string(),
        ensures
            (text@, final(self).stream_state()) == old(self).stream_state().read_string(),
            final(self).header() == old(self).header(),
    {
        self.get_stream().read_string()
    }

    fn write_string(&mut self, value: Option<&str>)
        requires
            old(self).stream_state().has_room_for_string(str_bytes(value)),
        ensures
            final(self).stream_state() == old(self).stream_state().write_string(str_bytes(value)),
            final(self).header() == old(self).header(),
    {
        self.get_stream().write_string(value)
    }

    fn read_vint(&mut self) -> (v: i32)
        requires
            old(self).stream_state().can_read_vint(),
        ensures
            (v, final(self).stream_state()) == old(self).stream_state().read_vint(),
            final(self).header() == old(self).header(),
    {
        self.get_stream().read_vint()
    }

    fn write_vint(&mut self, value: i32)
        requires
            old(self).stream_state().has_room(vint_bytes(value).len()),
        ensures
            final(self).stream_state() == old(self).stream_state().write_vint(value),
            final(self).header() == old(self).header(),
    {
        self.get_stream().write_vint(value)
    }

    fn read_boolean(&mut self) -> (b: bool)
        requires
            old(self).stream_state().can_read_vint(),
        ensures
            (b, final(self).stream_state()) == old(self).stream_state().read_boolean(),
            final(self).header() == old(self).header(),
    {
        self.get_stream().read_boolean()
    }

    fn write_boolean(&mut self, value: bool)
        requires
            old(self).stream_state().can_write_boolean(value),
        ensures
            final(self).stream_state() == old(self).stream_state().write_boolean(value),
            final(self).header() == old(self).header(),
    {
        self.get_stream().write_boolean(value)
    }

    fn read_data_reference(&mut self) -> (r: [i32; 2])
        requires
            old(self).stream_state().can_read_data_reference(),
        ensures
            ((r[0], r[1]), final(self).stream_state()) == old(self).stream_state().read_data_reference(),
            final(self).header() == old(self).header(),
    {
        self.get_stream().read_data_reference()
    }

    fn write_data_reference(&mut self, value1: i32, value2: i32)
        requires
            if value1 < 1 {
                old(self).stream_state().has_room(1)
            } else {
                old(self).stream_state().has_room(
                    vint_bytes(value1).len()
                        + vint_bytes(value2).len(),
                )
            },
        ensures
            final(self).stream_state() == old(self).stream_state().write_data_reference(value1, value2),
            final(self).header() == old(self).header(),
    {
        self.get_stream().write_data_reference(value1, value2)
    }

    fn read_logic_long(&mut self) -> (r: [i32; 2])
        requires
            old(self).stream_state().can_read_logic_long(),
        ensures
            ((r[0], r[1]), final(self).stream_state()) == old(self).stream_state().read_logic_long(),
            final(self).header() == old(self).header(),
    {
        self.get_stream().read_logic_long()
    }

    fn write_logic_long(&mut self, value1: i32, value2: i32)
        requires
            old(self).stream_state().has_room(
                vint_bytes(value1).len()
                    + vint_bytes(value2).len(),
            ),
        ensures
            final(self).stream_state() == old(self).stream_state().write_logic_long(value1, value2),
            final(self).header() == old(self).header(),
    {
        self.get_stream().write_logic_long(value1, value2)
    }

    fn read_long(&mut self) -> (r: [i32; 2])
        requires
            old(self).stream_state().offset + 8 <= usize::MAX,
        ensures
            ((r[0], r[1]), final(self).stream_state()) == old(self).stream_state().read_long(),
            final(self).header() == old(self).header(),
    {
        self.get_stream().read_long()
    }

    fn write_long(&mut self, value1: i32, value2: i32)
        requires
            old(self).stream_state().has_room(8),
        ensures
            final(self).stream_state() == old(self).stream_state().write_long(value1, value2),
            final(self).header() == old(self).header(),
    {
        self.get_stream().write_long(value1, value2)
    }

    fn write_long_long(&mut self, value: i64)
        requires
            old(self).stream_state().has_room(8),
        ensures
            final(self).stream_state() == old(self).stream_state().write_long_long(value),
            final(self).header() == old(self).header(),
    {
        self.get_stream().write_long_long(value)
    }

    fn write_byte(&mut self, value: u8)
        requires
            old(self).stream_state().has_room(1),
        ensures
            final(self).stream_state() == old(self).stream_state().write_byte(value),
            final(self).header() == old(self).header(),
    {
        self.get_stream().write_byte(value)
    }

    fn write_bytes(&mut self, buffer: &[u8])
        requires
            old(self).stream_state().has_room(4 + buffer@.len()),
        ensures
            final(self).stream_state() == old(self).stream_state().write_bytes(buffer@),
            final(self).header() == old(self).header(),
    {
        self.get_stream().write_bytes(buffer)
    }

    fn reset(&mut self)
        ensures
            final(self).stream_state() == (StreamState { data: Seq::empty(), offset: 0, bit_offset: 0 }),
            final(self).header() == old(self).header(),
    {
        self.get_stream().reset()
    }

    fn get_length(&mut self) -> (n: usize)
        ensures
            n == old(self).stream_state().data.len(),
            final(self).stream_state() == old(self).stream_state(),
            final(self).header() == old(self).header(),
    {
        self.get_stream().get_length()
    }

    fn get_buffer(&mut self) -> (buffer: &BytesMut)
        ensures
            bytes_of(*buffer) == old(self).stream_state().data,
            final(self).stream_state() == old(self).stream_state(),
            final(self).header() == old(self).header(),
    {
        self.get_stream().get_buffer()
    }

    fn replace_buffer(&mut self, buffer: BytesMut) -> (old_buffer: BytesMut)
        ensures
            bytes_of(old_buffer) == old(self).stream_state().data,
            final(self).stream_state() == (StreamState { data: bytes_of(buffer), offset: 0, bit_offset: 0 }),
            final(self).header() == old(self).header(),
    {
        self.get_stream().replace_buffer(buffer)
    }

    /// The message framed for the wire: header, stream bytes, trailer.
    fn packet(&mut self) -> (packet: BytesMut)
        requires
            old(self).stream_state().data.len() + 14 <= isize::MAX,
        ensures
            bytes_of(packet) == frame_bytes(
                old(self).header().id,
                old(self).header().version,
                old(self).stream_state().data,
            ),
            final(self).stream_state() == old(self).stream_state(),
            final(self).header() == old(self).header(),
    {
        let ghost n = old(self).stream_state().data.len();
        let ghost body_bytes = old(self).stream_state().data;
        let mut header = buf_new();
        let id = self.get_message_id();
        buf_put_u16(&mut header, id);
        let length = ((self.get_length() as u64) % 0x1_0000_0000) as u32;
        proof {
            lemma_length_bytes(n, length);
        }
        buf_put_u8(&mut header, ((length / 0x1_0000) % 0x100) as u8);
        buf_put_u8(&mut header, ((length / 0x100) % 0x100) as u8);
        buf_put_u8(&mut header, (length % 0x100) as u8);
        let version = self.get_message_version();
        buf_put_u16(&mut header, version);
        let ghost head = bytes_of(header);
        assert(head =~= frame_bytes(id, version, body_bytes).take(7));
        let mut data = buf_new();
        buf_extend(&mut data, buf_as_slice(&header));
        let body = self.get_buffer();
        buf_extend(&mut data, buf_as_slice(body));
        let trailer: Vec<u8> = vec![0xFF, 0xFF, 0x0, 0x0, 0x0, 0x0, 0x0];
        buf_extend(&mut data, trailer.as_slice());
        assert(bytes_of(data) == head + body_bytes + trailer@);
        assert(bytes_of(data) =~= frame_bytes(id, version, body_bytes));
        data
    }

    /// Whether a message id is one the server sends (20000 and above).
    fn is_server_message(id: u16) -> (server: bool)
        ensures
            server == (id >= 20_000),
    {
        id >= 20_000
    }
}


/// The stream of a message just made from the bytes `data`: all of them,
/// with the cursor at the start.
pub open spec fn fresh_stream(data: Seq<u8>) -> StreamState {
    StreamState { data, offset: 0, bit_offset: 0 }
}

/// The message that every concrete message is built on.
pub struct PiranhaMessage {
    stream: ByteStream,
    message_id: u16,
    message_version: u16,
    message_type_name: String,
}

impl PiranhaMessage {
    /// A message over the bytes `bytes`, with id 20000, version 0 and the
    /// given type name.
    pub fn new(bytes: BytesMut, msg_type_name: &str) -> (m: Self)
        ensures
            m.stream_state() == fresh_stream(bytes_of(bytes)),
            m.header() == (MessageHeader { id: 20_000, version: 0, name: msg_type_name@ }),
    {
        let mut stream = ByteStream::new();
        stream.replace_buffer(bytes);
        PiranhaMessage {
            stream,
            message_id: 20_000,
            message_version: 0,
            message_type_name: msg_type_name.to_string(),
        }
    }
}

impl MessageOps for PiranhaMessage {
    closed spec fn stream_state(&self) -> StreamState {
        self.stream@
    }

    closed spec fn header(&self) -> MessageHeader {
        MessageHeader { id: self.message_id, version: self.message_version, name: self.message_type_name@ }
    }

    fn get_stream(&mut self) -> (s: &mut ByteStream) {
        &mut self.stream
    }

    fn get_message_id(&self) -> (id: u16) {
        self.message_id
    }

    fn set_message_id(&mut self, id: u16) {
        self.message_id = id;
    }

    fn get_message_version(&self) -> (version: u16) {
        self.message_version
    }

    fn set_message_version(&mut self, version: u16) {
        self.message_version = version;
    }

    fn get_message_type_name(&self) -> (name: &str) {
        self.message_type_name.as_str()
    }
}

/// The three steps of handling a message, each given the state of the
/// connection it came from. What a step does to the message and the
/// connection is stated by each message; `encode_requires` is what a
/// message needs of itself before encoding.
pub trait Coder: Sized {
    spec fn encode_requires(&self) -> bool;

    fn encode(&mut self, client: &mut ClientConnection)
        requires
            old(self).encode_requires(),
    ;

    fn decode(&mut self, client: &mut ClientConnection);

    fn process(&mut self, client: &mut ClientConnection);
}

/// A message that the factory can make from a received body.
pub trait FactoryMessage: Coder + MessageOps {
    fn new(buffer: BytesMut) -> Self;
}

} // verus!
