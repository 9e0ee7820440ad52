//! The login message: its body starts with the two halves of the account
//! id, which encoding stores on the connection.

use vstd::prelude::*;
use bytes::BytesMut;
use crate::message::piranha_message::{
    fresh_stream, Coder, FactoryMessage, MessageHeader, MessageOps, PiranhaMessage,
};
use crate::networking::client::ClientConnection;
use crate::stream::byte_stream::{ByteStream, StreamState};
use crate::stream::bytes_buf::bytes_of;

verus! {

pub struct TitanLoginMessage {
    message: PiranhaMessage,
}

impl TitanLoginMessage {
    /// A login message over the received body `bytes`.
    pub fn new(bytes: BytesMut) -> (m: Self)
        ensures
            m.stream_state() == fresh_stream(bytes_of(bytes)),
            m.header() == (MessageHeader { id: 10101, version: 0, name: "TitanLoginMessage"@ }),
    {
        let mut message = PiranhaMessage::new(bytes, "TitanLoginMessage");
        message.set_message_id(10101);
        TitanLoginMessage { message }
    }

    pub fn get_message_type_name() -> (name: &'static str)
        ensures
            name@ == "TitanLoginMessage"@,
    {
        "TitanLoginMessage"
    }
}

impl MessageOps for TitanLoginMessage {
    closed spec fn stream_state(&self) -> StreamState {
        self.message.stream_state()
    }

    closed spec fn header(&self) -> MessageHeader {
        self.message.header()
    }

    fn get_stream(&mut self) -> (s: &mut ByteStream) {
        self.message.get_stream()
    }

    fn get_message_id(&self) -> (id: u16) {
        self.message.get_message_id()
    }

    fn set_message_id(&mut self, id: u16) {
        self.message.set_message_id(id)
    }

    fn get_message_version(&self) -> (version: u16) {
        self.message.get_message_version()
    }

    fn set_message_version(&mut self, version: u16) {
        self.message.set_message_version(version)
    }

    fn get_message_type_name(&self) -> (name: &str) {
        self.message.get_message_type_name()
    }
}

impl Coder for TitanLoginMessage {
    open spec fn encode_requires(&self) -> bool {
        self.stream_state().offset + 8 <= usize::MAX
    }

    /// Reads the high and then the low half of the account id and stores
    /// them on the connection.
    fn encode(&mut self, client: &mut ClientConnection)
        ensures
            final(self).stream_state() == old(self).stream_state().read_int().1.read_int().1,
            final(self).header() == old(self).header(),
            final(client).high_id() == old(self).stream_state().read_int().0,
            final(client).low_id() == old(self).stream_state().read_int().1.read_int().0,
    {
        let high_id = self.read_int();
        let low_id = self.read_int();
        client.set_high_id(high_id);
        client.set_low_id(low_id);
    }

    /// Nothing to decode.
    fn decode(&mut self, client: &mut ClientConnection)
        ensures
            *final(self) == *old(self),
            *final(client) == *old(client),
    {
    }

    /// Nothing to change: the ids read are reported by the server's log.
    fn process(&mut self, client: &mut ClientConnection)
        ensures
            *final(self) == *old(self),
            *final(client) == *old(client),
    {
    }
}

impl FactoryMessage for TitanLoginMessage {
    fn new(buffer: BytesMut) -> (m: Self)
        ensures
            m.stream_state() == fresh_stream(bytes_of(buffer)),
            m.header() == (MessageHeader { id: 10101, version: 0, name: "TitanLoginMessage"@ }),
    {
        TitanLoginMessage::new(buffer)
    }
}

} // verus!
