//! Reading the header of a received message and handing its body to the
//! factory.

use vstd::prelude::*;
use bytes::BytesMut;
use vstd::slice::slice_subrange;
use crate::message::logic_laser_message_factory::{handled, HandledMessage, LogicLaserMessageFactory};
use crate::message::piranha_message::frame_bytes;
use crate::networking::client::ClientConnection;
use crate::stream::bytes_buf::{
    buf_as_slice, buf_clone, buf_from_slice, buf_get_u16, buf_get_u8, buf_len, buf_new, bytes_of,
};

verus! {

/// The length of a message header: id (2), body length (3), version (2).
pub open spec fn header_len() -> int {
    7
}

/// The message id at the start of received bytes `d`.
pub open spec fn frame_id(d: Seq<u8>) -> u16 {
    (d[0] * 0x100 + d[1]) as u16
}

/// The body length that received bytes `d` announce.
pub open spec fn frame_length(d: Seq<u8>) -> u32 {
    (d[2] * 0x1_0000 + d[3] * 0x100 + d[4]) as u32
}

/// The message version in received bytes `d`.
pub open spec fn frame_version(d: Seq<u8>) -> u16 {
    (d[5] * 0x100 + d[6]) as u16
}

/// The body of received bytes `d`: the announced number of bytes after the
/// header, or no bytes when fewer than announced follow it.
pub open spec fn frame_payload(d: Seq<u8>) -> Seq<u8> {
    if frame_length(d) <= d.len() - 7 {
        d.subrange(7, 7 + frame_length(d))
    } else {
        Seq::empty()
    }
}

/// What came of receiving some bytes.
pub enum ReceiveOutcome {
    /// Fewer bytes than a header: nothing was handled.
    TooShort,
    /// The header was read and the body handed to the factory. `available`
    /// is the number of bytes after the header; a `length` above it means
    /// the body was taken as empty.
    Dispatched {
        message_id: u16,
        length: u32,
        version: u16,
        available: usize,
        handled: Option<HandledMessage>,
    },
}

pub struct MessageManager;

impl MessageManager {
    /// Reads the header of `data` and has the factory handle the body for
    /// `client`.
    pub fn receive_message(data: &BytesMut, client: &mut ClientConnection) -> (outcome: ReceiveOutcome)
        ensures
            bytes_of(*data).len() < header_len() ==> {
                &&& outcome is TooShort
                &&& *final(client) == *old(client)
            },
            bytes_of(*data).len() >= header_len() ==> {
                &&& outcome matches ReceiveOutcome::Dispatched { message_id, length, version, available, handled: h }
                &&& message_id == frame_id(bytes_of(*data))
                &&& length == frame_length(bytes_of(*data))
                &&& version == frame_version(bytes_of(*data))
                &&& available == bytes_of(*data).len() - header_len()
                &&& handled(message_id, frame_payload(bytes_of(*data)), *old(client), h, *final(client))
            },
    {
        let len = buf_len(data);
        if len < 7 {
            return ReceiveOutcome::TooShort;
        }
        let ghost d = bytes_of(*data);
        let mut reader = buf_clone(data);
        let msg_id = buf_get_u16(&mut reader);
        let b0 = buf_get_u8(&mut reader);
        let b1 = buf_get_u8(&mut reader);
        let b2 = buf_get_u8(&mut reader);
        let msg_length: u32 = (b0 as u32) * 0x1_0000 + (b1 as u32) * 0x100 + (b2 as u32);
        let msg_version = buf_get_u16(&mut reader);
        assert(b0 == d[2] && b1 == d[3] && b2 == d[4]);
        assert(msg_id == frame_id(d));
        assert(msg_version == frame_version(d));
        let available = len - 7;
        let body = if (msg_length as usize) <= available {
            buf_from_slice(slice_subrange(buf_as_slice(data), 7, 7 + msg_length as usize))
        } else {
            buf_new()
        };
        let handled = LogicLaserMessageFactory::create_message_by_type(msg_id, body, client);
        ReceiveOutcome::Dispatched {
            message_id: msg_id,
            length: msg_length,
            version: msg_version,
            available,
            handled,
        }
    }
}

/// A message framed for the wire, with a body shorter than 2^24 bytes,
/// reads back with its id, version and body.
pub proof fn law_frame_roundtrip(id: u16, version: u16, body: Seq<u8>)
    requires
        body.len() < 0x100_0000,
    ensures
        frame_bytes(id, version, body).len() >= header_len(),
        frame_id(frame_bytes(id, version, body)) == id,
        frame_length(frame_bytes(id, version, body)) == body.len(),
        frame_version(frame_bytes(id, version, body)) == version,
        frame_payload(frame_bytes(id, version, body)) == body,
{
    let f = frame_bytes(id, version, body);
    assert(f.subrange(7, 7 + body.len() as int) =~= body);
}


/// Whatever bytes follow a frame in the same read, the header of the frame
/// is read from its first 7 bytes and the body handed on is exactly the
/// frame's body: the announced length, when it fits what follows the
/// header, cuts the body out and leaves the rest.
pub proof fn law_frame_payload_ignores_following(id: u16, version: u16, body: Seq<u8>, extra: Seq<u8>)
    requires
        body.len() < 0x100_0000,
    ensures
        frame_id(frame_bytes(id, version, body) + extra) == id,
        frame_length(frame_bytes(id, version, body) + extra) == body.len(),
        frame_version(frame_bytes(id, version, body) + extra) == version,
        frame_payload(frame_bytes(id, version, body) + extra) == body,
{
    let f = frame_bytes(id, version, body);
    let d = f + extra;
    law_frame_roundtrip(id, version, body);
    assert(d[0] == f[0] && d[1] == f[1] && d[2] == f[2] && d[3] == f[3]);
    assert(d[4] == f[4] && d[5] == f[5] && d[6] == f[6]);
    assert(d.subrange(7, 7 + body.len() as int) =~= body);
}

/// Received bytes cut off inside a frame's body announce more than follows
/// the header, and the body handed on is empty.
pub proof fn law_cut_frame_payload_empty(id: u16, version: u16, body: Seq<u8>, k: int)
    requires
        body.len() < 0x100_0000,
        7 <= k < 7 + body.len(),
    ensures
        frame_length(frame_bytes(id, version, body).take(k)) == body.len(),
        frame_payload(frame_bytes(id, version, body).take(k)) == Seq::<u8>::empty(),
{
    let f = frame_bytes(id, version, body);
    let d = f.take(k);
    law_frame_roundtrip(id, version, body);
    assert(d[2] == f[2] && d[3] == f[3] && d[4] == f[4]);
}

} // verus!
