//! The per-connection state that message handling reads and changes: the
//! two halves of the player's account id.

use vstd::prelude::*;

verus! {

/// A connected client's account id, as a high and a low half. The socket
/// that the client talks through stays with the program that serves it.
pub struct ClientConnection {
    high_id: i32,
    low_id: i32,
}

impl ClientConnection {
    pub closed spec fn high_id(&self) -> i32 {
        self.high_id
    }

    pub closed spec fn low_id(&self) -> i32 {
        self.low_id
    }

    /// A new connection, with both halves of the id 0.
    pub fn new() -> (c: Self)
        ensures
            c.high_id() == 0,
            c.low_id() == 0,
    {
        ClientConnection { high_id: 0, low_id: 0 }
    }

    pub fn set_high_id(&mut self, high_id: i32)
        ensures
            final(self).high_id() == high_id,
            final(self).low_id() == old(self).low_id(),
    {
        self.high_id = high_id;
    }

    pub fn set_low_id(&mut self, low_id: i32)
        ensures
            final(self).low_id() == low_id,
            final(self).high_id() == old(self).high_id(),
    {
        self.low_id = low_id;
    }

    pub fn get_high_id(&self) -> (id: i32)
        ensures
            id == self.high_id(),
    {
        self.high_id
    }

    pub fn get_low_id(&self) -> (id: i32)
        ensures
            id == self.low_id(),
    {
        self.low_id
    }
}

} // verus!
