use bytes::BytesMut;
use piranha_server::message::client::client_hello_message::ClientHelloMessage;
use piranha_server::message::client::titan_login_message::TitanLoginMessage;
use piranha_server::message::logic_laser_message_factory::{HandledMessage, LogicLaserMessageFactory};
use piranha_server::message::message_manager::{MessageManager, ReceiveOutcome};
use piranha_server::message::piranha_message::{Coder, MessageOps, PiranhaMessage};
use piranha_server::message::server::authentication_response_message::AuthenticationResponseMessage;
use piranha_server::networking::client::ClientConnection;

/// The body that the server writes for an authentication response to the
/// account id (high, low).
fn expected_response(high: i32, low: i32) -> Vec<u8> {
    let mut v = Vec::new();
    let int = |v: &mut Vec<u8>, x: i32| v.extend_from_slice(&x.to_be_bytes());
    let text = |v: &mut Vec<u8>, s: &str| {
        v.extend_from_slice(&(s.len() as i32).to_be_bytes());
        v.extend_from_slice(s.as_bytes());
    };
    int(&mut v, high);
    int(&mut v, low);
    int(&mut v, high);
    int(&mut v, low);
    text(&mut v, "");
    text(&mut v, "");
    text(&mut v, "");
    int(&mut v, 29);
    int(&mut v, 0);
    int(&mut v, 0);
    text(&mut v, "dev");
    int(&mut v, 0);
    int(&mut v, 0);
    int(&mut v, 0);
    text(&mut v, "");
    text(&mut v, "");
    text(&mut v, "");
    int(&mut v, 0);
    text(&mut v, "");
    text(&mut v, "RU");
    text(&mut v, "");
    int(&mut v, 1);
    text(&mut v, "");
    int(&mut v, 0);
    int(&mut v, 0);
    v.push(0);
    text(&mut v, "");
    v.push(1);
    v.push(1);
    text(&mut v, "");
    v
}

fn login_body(high: i32, low: i32) -> BytesMut {
    let mut body = Vec::new();
    body.extend_from_slice(&high.to_be_bytes());
    body.extend_from_slice(&low.to_be_bytes());
    BytesMut::from(&body[..])
}

#[test]
fn piranha_message_defaults() {
    let m = PiranhaMessage::new(BytesMut::from(&[1u8, 2][..]), "Test");
    assert_eq!(m.get_message_id(), 20_000);
    assert_eq!(m.get_message_version(), 0);
    assert_eq!(m.get_message_type_name(), "Test");
}

#[test]
fn setters_change_only_their_field() {
    let mut m = PiranhaMessage::new(BytesMut::new(), "Test");
    m.set_message_id(10100);
    m.set_message_version(3);
    assert_eq!(m.get_message_id(), 10100);
    assert_eq!(m.get_message_version(), 3);
    assert_eq!(m.get_message_type_name(), "Test");
}

#[test]
fn message_reads_its_body() {
    let mut m = PiranhaMessage::new(login_body(7, -8), "Test");
    assert_eq!(m.read_int(), 7);
    assert_eq!(m.read_int(), -8);
    assert_eq!(m.get_length(), 8);
}

#[test]
fn packet_frames_the_body() {
    let mut m = PiranhaMessage::new(BytesMut::new(), "Test");
    m.set_message_id(0x4E88);
    m.set_message_version(2);
    m.write_int(0x0A0B0C0D);
    let packet = m.packet();
    assert_eq!(
        &packet[..],
        &[0x4E, 0x88, 0, 0, 4, 0, 2, 0x0A, 0x0B, 0x0C, 0x0D, 0xFF, 0xFF, 0, 0, 0, 0, 0]
    );
}

#[test]
fn server_message_ids() {
    assert!(!<PiranhaMessage as MessageOps>::is_server_message(10101));
    assert!(<PiranhaMessage as MessageOps>::is_server_message(20_000));
    assert!(<PiranhaMessage as MessageOps>::is_server_message(20104));
}

#[test]
fn message_ids_and_names() {
    let hello = ClientHelloMessage::new(BytesMut::new());
    assert_eq!(hello.get_message_id(), 10100);
    assert_eq!(ClientHelloMessage::get_message_type_name(), "ClientHelloMessage");
    let login = TitanLoginMessage::new(BytesMut::new());
    assert_eq!(login.get_message_id(), 10101);
    assert_eq!(TitanLoginMessage::get_message_type_name(), "TitanLoginMessage");
    let response = AuthenticationResponseMessage::new(BytesMut::new());
    assert_eq!(response.get_message_id(), 20104);
    assert_eq!(
        AuthenticationResponseMessage::get_message_type_name(),
        "AuthenticationResponseMessage"
    );
}

#[test]
fn client_connection_ids() {
    let mut c = ClientConnection::new();
    assert_eq!((c.get_high_id(), c.get_low_id()), (0, 0));
    c.set_high_id(5);
    c.set_low_id(-6);
    assert_eq!((c.get_high_id(), c.get_low_id()), (5, -6));
    c.set_high_id(1);
    assert_eq!((c.get_high_id(), c.get_low_id()), (1, -6));
}

#[test]
fn login_encode_stores_the_ids() {
    let mut client = ClientConnection::new();
    let mut login = TitanLoginMessage::new(login_body(12, 345));
    login.decode(&mut client);
    login.process(&mut client);
    login.encode(&mut client);
    assert_eq!(client.get_high_id(), 12);
    assert_eq!(client.get_low_id(), 345);
}

#[test]
fn short_login_body_gives_zero_ids() {
    let mut client = ClientConnection::new();
    client.set_high_id(9);
    let mut login = TitanLoginMessage::new(BytesMut::from(&[0u8, 0, 0, 3][..]));
    login.encode(&mut client);
    assert_eq!(client.get_high_id(), 3);
    assert_eq!(client.get_low_id(), 0);
}

#[test]
fn authentication_response_body() {
    let mut client = ClientConnection::new();
    client.set_high_id(1);
    client.set_low_id(77);
    let mut response = AuthenticationResponseMessage::new(BytesMut::new());
    response.encode(&mut client);
    assert_eq!(response.get_length(), 116);
    assert_eq!(&response.get_stream().get_buffer()[..], &expected_response(1, 77)[..]);
    assert_eq!((client.get_high_id(), client.get_low_id()), (1, 77));
}

#[test]
fn factory_handles_login() {
    let mut client = ClientConnection::new();
    let handled = LogicLaserMessageFactory::create_message_by_type(10101, login_body(4, 2), &mut client);
    match handled {
        Some(HandledMessage::TitanLogin(m)) => {
            assert_eq!(m.get_message_type_name(), "TitanLoginMessage");
        },
        _ => panic!("expected a login message"),
    }
    assert_eq!((client.get_high_id(), client.get_low_id()), (4, 2));
}

#[test]
fn factory_handles_hello() {
    let mut client = ClientConnection::new();
    let handled = LogicLaserMessageFactory::create_message_by_type(10100, BytesMut::new(), &mut client);
    assert!(matches!(handled, Some(HandledMessage::ClientHello(_))));
    assert_eq!(handled.unwrap().get_message_type_name(), "ClientHelloMessage");
}

#[test]
fn factory_answers_authentication() {
    let mut client = ClientConnection::new();
    client.set_high_id(3);
    client.set_low_id(4);
    let handled = LogicLaserMessageFactory::create_message_by_type(20104, BytesMut::new(), &mut client);
    match handled {
        Some(HandledMessage::AuthenticationResponse(mut m)) => {
            assert_eq!(&m.get_stream().get_buffer()[..], &expected_response(3, 4)[..]);
        },
        _ => panic!("expected an authentication response"),
    }
}

#[test]
fn factory_ignores_unknown_types() {
    let mut client = ClientConnection::new();
    client.set_high_id(8);
    let handled = LogicLaserMessageFactory::create_message_by_type(1, login_body(1, 1), &mut client);
    assert!(handled.is_none());
    assert_eq!((client.get_high_id(), client.get_low_id()), (8, 0));
}

#[test]
fn receive_rejects_short_data() {
    let mut client = ClientConnection::new();
    let outcome = MessageManager::receive_message(&BytesMut::from(&[0x27u8, 0x75, 0, 0, 0, 0][..]), &mut client);
    assert!(matches!(outcome, ReceiveOutcome::TooShort));
}

#[test]
fn receive_dispatches_a_login() {
    let mut client = ClientConnection::new();
    let mut data = vec![0x27, 0x75, 0, 0, 8, 0, 1];
    data.extend_from_slice(&login_body(10, 20)[..]);
    let outcome = MessageManager::receive_message(&BytesMut::from(&data[..]), &mut client);
    match outcome {
        ReceiveOutcome::Dispatched { message_id, length, version, available, handled } => {
            assert_eq!(message_id, 10101);
            assert_eq!(length, 8);
            assert_eq!(version, 1);
            assert_eq!(available, 8);
            assert!(matches!(handled, Some(HandledMessage::TitanLogin(_))));
        },
        ReceiveOutcome::TooShort => panic!("expected a dispatched message"),
    }
    assert_eq!((client.get_high_id(), client.get_low_id()), (10, 20));
}

#[test]
fn receive_with_too_large_length_takes_an_empty_body() {
    let mut client = ClientConnection::new();
    client.set_high_id(5);
    let mut data = vec![0x27, 0x75, 0, 1, 0, 0, 0];
    data.extend_from_slice(&login_body(10, 20)[..]);
    let outcome = MessageManager::receive_message(&BytesMut::from(&data[..]), &mut client);
    match outcome {
        ReceiveOutcome::Dispatched { length, available, .. } => {
            assert_eq!(length, 256);
            assert_eq!(available, 8);
        },
        ReceiveOutcome::TooShort => panic!("expected a dispatched message"),
    }
    // The login read an empty body.
    assert_eq!((client.get_high_id(), client.get_low_id()), (0, 0));
}

#[test]
fn packet_then_receive_gives_back_the_message() {
    let mut m = PiranhaMessage::new(login_body(31, 32), "Test");
    m.set_message_id(10101);
    let packet = m.packet();
    let mut client = ClientConnection::new();
    let outcome = MessageManager::receive_message(&packet, &mut client);
    assert!(matches!(outcome, ReceiveOutcome::Dispatched { message_id: 10101, length: 8, version: 0, .. }));
    assert_eq!((client.get_high_id(), client.get_low_id()), (31, 32));
}

#[test]
fn response_echoes_the_login_id() {
    let mut client = ClientConnection::new();
    let body = login_body(-7, 123_456);
    let login_bytes = body[..8].to_vec();
    LogicLaserMessageFactory::create_message_by_type(10101, body, &mut client);
    let response = LogicLaserMessageFactory::create_message_by_type(20104, BytesMut::new(), &mut client);
    match response {
        Some(HandledMessage::AuthenticationResponse(mut m)) => {
            assert_eq!(&m.get_stream().get_buffer()[..8], &login_bytes[..]);
        },
        _ => panic!("expected an authentication response"),
    }
}

#[test]
fn response_written_over_a_longer_body_keeps_its_tail() {
    let mut client = ClientConnection::new();
    client.set_high_id(2);
    let long_body = vec![0xEEu8; 120];
    let mut response = AuthenticationResponseMessage::new(BytesMut::from(&long_body[..]));
    response.encode(&mut client);
    let written = response.get_stream().get_buffer()[..].to_vec();
    assert_eq!(written.len(), 120);
    assert_eq!(&written[..116], &expected_response(2, 0)[..]);
    assert_eq!(&written[116..], &[0xEE; 4]);
}

#[test]
fn message_stream_operations() {
    let mut m = PiranhaMessage::new(BytesMut::new(), "Test");
    m.write_string(Some("ok"));
    m.write_vint(300);
    m.write_boolean(true);
    m.write_logic_long(1, 2);
    m.write_data_reference(3, 4);
    m.write_long(5, 6);
    m.write_long_long(7);
    m.write_short(8);
    m.write_byte(9);
    m.write_bytes(&[1, 2]);
    let bytes = m.replace_buffer(BytesMut::new());
    assert_eq!(m.get_length(), 0);
    let mut r = PiranhaMessage::new(bytes, "Reader");
    assert_eq!(r.read_string(), "ok");
    assert_eq!(r.read_vint(), 300);
    // The boolean byte 1 reads back as the variable-length integer 1.
    assert!(r.read_boolean());
    assert_eq!(r.read_logic_long(), [1, 2]);
    assert_eq!(r.read_data_reference(), [3, 4]);
    assert_eq!(r.read_long(), [5, 6]);
    assert_eq!(r.read_long(), [0, 7]);
    assert_eq!(r.read_short(), 8);
    let n = r.get_length();
    assert_eq!(&r.get_buffer()[n - 7..], &[9, 0, 0, 0, 2, 1, 2]);
    r.reset();
    assert_eq!(r.get_length(), 0);
}
