//! The first message a client sends. It carries nothing that the server
//! reads.

use vstd::prelude::*;
use bytes::BytesMut;
use crate::message::piranha_message::{
    fresh_stream, Coder, FactoryMessage, MessageHeader, MessageOps, PiranhaMessage,
};
use crate::networking::client::ClientConnection;
use crate::stream::byte_stream::{ByteStream, StreamState};
use crate::stream::bytes_buf::bytes_of;

verus! {

pub struct ClientHelloMessage {
    message: PiranhaMessage,
}

impl ClientHelloMessage {
    /// A hello message over the received body `bytes`.
    pub fn new(bytes: BytesMut) -> (m: Self)
        ensures
            m.stream_state() == fresh_stream(bytes_of(bytes)),
            m.header() == (MessageHeader { id: 10100, version: 0, name: "ClientHelloMessage"@ }),
    {
        let mut message = PiranhaMessage::new(bytes, "ClientHelloMessage");
        message.set_message_id(10100);
        ClientHelloMessage { message }
    }

    pub fn get_message_type_name() -> (name: &'static str)
        ensures
            name@ == "ClientHelloMessage"@,
    {
        "ClientHelloMessage"
    }
}

impl MessageOps for ClientHelloMessage {
    closed spec fn stream_state(&self) -> StreamState {
        self.message.stream_state()
    }

    closed spec fn header(&self) -> MessageHeader {
        self.message.header()
    }

    fn get_stream(&mut self) -> (s: &mut ByteStream) {
        self.message.get_stream()
    }

    fn get_message_id(&self) -> (id: u16) {
        self.message.get_message_id()
    }

    fn set_message_id(&mut self, id: u16) {
        self.message.set_message_id(id)
    }

    fn get_message_version(&self) -> (version: u16) {
        self.message.get_message_version()
    }

    fn set_message_version(&mut self, version: u16) {
        self.message.set_message_version(version)
    }

    fn get_message_type_name(&self) -> (name: &str) {
        self.message.get_message_type_name()
    }
}

impl Coder for ClientHelloMessage {
    open spec fn encode_requires(&self) -> bool {
        true
    }

    /// Nothing to encode.
    fn encode(&mut self, client: &mut ClientConnection)
        ensures
            *final(self) == *old(self),
            *final(client) == *old(client),
    {
    }

    /// Nothing to decode.
    fn decode(&mut self, client: &mut ClientConnection)
        ensures
            *final(self) == *old(self),
            *final(client) == *old(client),
    {
    }

    /// Nothing to do.
    fn process(&mut self, client: &mut ClientConnection)
        ensures
            *final(self) == *old(self),
            *final(client) == *old(client),
    {
    }
}

impl FactoryMessage for ClientHelloMessage {
    fn new(buffer: BytesMut) -> (m: Self)
        ensures
            m.stream_state() == fresh_stream(bytes_of(buffer)),
            m.header() == (MessageHeader { id: 10100, version: 0, name: "ClientHelloMessage"@ }),
    {
        ClientHelloMessage::new(buffer)
    }
}

} // verus!
