//! Turning a received message body into the message its type names, and
//! running that message's handling steps.

use vstd::prelude::*;
use bytes::BytesMut;
use crate::message::client::client_hello_message::ClientHelloMessage;
use crate::message::client::titan_login_message::TitanLoginMessage;
use crate::message::piranha_message::{fresh_stream, Coder, FactoryMessage, MessageHeader, MessageOps};
use crate::message::server::authentication_response_message::{
    authentication_response_body, law_response_starts_with_ids, AuthenticationResponseMessage,
};
use crate::stream::encoding::{be32_value, lemma_be32_bytes_of_value};
use crate::networking::client::ClientConnection;
use crate::stream::bytes_buf::bytes_of;

verus! {

pub struct LogicLaserMessageFactory;

/// A message that the factory made and handled.
pub enum HandledMessage {
    ClientHello(ClientHelloMessage),
    TitanLogin(TitanLoginMessage),
    AuthenticationResponse(AuthenticationResponseMessage),
}

/// What handling a body of type `message_type` gives: the message of that
/// type over the body after decoding, processing and encoding, and the
/// connection after them; no message, and the connection unchanged, for a
/// type the factory does not know.
pub open spec fn handled(
    message_type: u16,
    body: Seq<u8>,
    before: ClientConnection,
    result: Option<HandledMessage>,
    after: ClientConnection,
) -> bool {
    let s = fresh_stream(body);
    if message_type == 10100 {
        &&& result matches Some(HandledMessage::ClientHello(m))
        &&& m.stream_state() == s
        &&& m.header() == (MessageHeader { id: 10100, version: 0, name: "ClientHelloMessage"@ })
        &&& after == before
    } else if message_type == 10101 {
        &&& result matches Some(HandledMessage::TitanLogin(m))
        &&& m.stream_state() == s.read_int().1.read_int().1
        &&& m.header() == (MessageHeader { id: 10101, version: 0, name: "TitanLoginMessage"@ })
        &&& after.high_id() == s.read_int().0
        &&& after.low_id() == s.read_int().1.read_int().0
    } else if message_type == 20104 {
        &&& result matches Some(HandledMessage::AuthenticationResponse(m))
        &&& m.stream_state() == authentication_response_body(s, before.high_id(), before.low_id())
        &&& m.header() == (MessageHeader {
            id: 20104,
            version: 0,
            name: "AuthenticationResponseMessage"@,
        })
        &&& after == before
    } else {
        &&& result is None
        &&& after == before
    }
}

/// A handled login leaves on the connection the two big-endian `int`s that
/// start the login's body.
proof fn lemma_login_ids(body: Seq<u8>, c0: ClientConnection, login: Option<HandledMessage>, c1: ClientConnection)
    requires
        body.len() >= 8,
        handled(10101, body, c0, login, c1),
    ensures
        c1.high_id() == be32_value(body.subrange(0, 4)),
        c1.low_id() == be32_value(body.subrange(4, 8)),
{
    let s = fresh_stream(body);
    assert(s.read_int().0 == be32_value(body.subrange(0, 4)));
    assert(s.read_int().1.offset == 4);
    assert(s.read_int().1.data == body);
    assert(s.read_int().1.read_int().0 == be32_value(body.subrange(4, 8)));
}

/// A handled authentication response holds the response body for the
/// connection's account id.
proof fn lemma_response_state(
    body: Seq<u8>,
    c1: ClientConnection,
    response: Option<HandledMessage>,
    c2: ClientConnection,
)
    requires
        handled(20104, body, c1, response, c2),
    ensures
        response matches Some(HandledMessage::AuthenticationResponse(m))
            && m.stream_state() == authentication_response_body(fresh_stream(body), c1.high_id(), c1.low_id()),
{
}

/// A login followed, on the same connection, by an authentication
/// response: the response starts with the eight bytes that the login's body
/// started with, the account id that the client logged in with.
pub proof fn law_response_echoes_login(
    login_body: Seq<u8>,
    response_body: Seq<u8>,
    c0: ClientConnection,
    login: Option<HandledMessage>,
    c1: ClientConnection,
    response: Option<HandledMessage>,
    c2: ClientConnection,
)
    requires
        login_body.len() >= 8,
        handled(10101, login_body, c0, login, c1),
        handled(20104, response_body, c1, response, c2),
    ensures
        response matches Some(HandledMessage::AuthenticationResponse(m))
            && m.stream_state().data.subrange(0, 8) == login_body.subrange(0, 8),
{
    lemma_login_ids(login_body, c0, login, c1);
    lemma_response_state(response_body, c1, response, c2);
    lemma_be32_bytes_of_value(login_body.subrange(0, 4));
    lemma_be32_bytes_of_value(login_body.subrange(4, 8));
    law_response_starts_with_ids(fresh_stream(response_body), c1.high_id(), c1.low_id());
    assert(login_body.subrange(0, 8) =~= login_body.subrange(0, 4) + login_body.subrange(4, 8));
}

impl LogicLaserMessageFactory {
    /// Makes the message of type `message_type` over `buffer` and runs its
    /// decode, process and encode steps on `client`; `None` for a type that
    /// is not known.
    pub fn create_message_by_type(
        message_type: u16,
        buffer: BytesMut,
        client: &mut ClientConnection,
    ) -> (result: Option<HandledMessage>)
        ensures
            handled(message_type, bytes_of(buffer), *old(client), result, *final(client)),
    {
        match message_type {
            10100 => {
                let mut message = <ClientHelloMessage as FactoryMessage>::new(buffer);
                message.decode(client);
                message.process(client);
                message.encode(client);
                Some(HandledMessage::ClientHello(message))
            },
            10101 => {
                let mut message = <TitanLoginMessage as FactoryMessage>::new(buffer);
                message.decode(client);
                message.process(client);
                message.encode(client);
                Some(HandledMessage::TitanLogin(message))
            },
            20104 => {
                let mut message = <AuthenticationResponseMessage as FactoryMessage>::new(buffer);
                message.decode(client);
                message.process(client);
                message.encode(client);
                Some(HandledMessage::AuthenticationResponse(message))
            },
            _ => None,
        }
    }
}

impl HandledMessage {
    /// The type name of the message.
    pub fn get_message_type_name(&self) -> (name: &str)
        ensures
            name@ == match self {
                HandledMessage::ClientHello(m) => m.header().name,
                HandledMessage::TitanLogin(m) => m.header().name,
                HandledMessage::AuthenticationResponse(m) => m.header().name,
            },
    {
        match self {
            HandledMessage::ClientHello(m) => m.get_message_type_name(),
            HandledMessage::TitanLogin(m) => m.get_message_type_name(),
            HandledMessage::AuthenticationResponse(m) => m.get_message_type_name(),
        }
    }
}

} // verus!
