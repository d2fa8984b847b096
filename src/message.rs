//! Message groups: the set of requests, or of events, of one interface.
use crate::wire::Message;
use vstd::prelude::*;

verus! {

/// A group of messages that can be written to and read from the wire,
/// typically the requests or the events of one interface.
pub trait MessageGroup: Sized {
    /// The opcode of this message.
    fn opcode(&self) -> u16;

    /// Whether this message ends the life of the object it is sent on.
    fn is_destructor(&self) -> bool;

    /// The lowest object version in which this message exists.
    fn since(&self) -> u32;

    /// Reads a message of this group from its raw form.
    fn from_raw(msg: Message) -> Result<Self, ()>;

    /// The raw form of this message, sent by or to object `send_id`.
    fn into_raw(self, send_id: u32) -> Message;
}

/// A value that cannot be built outside this library, which never builds one.
pub struct Unbuildable {
    none: (),
}

/// A group without any message: its only variant holds an `Unbuildable`, so
/// no value of it exists and its methods are never reached.
pub enum NoMessage {
    Never(Unbuildable),
}

impl MessageGroup for NoMessage {
    fn opcode(&self) -> u16 {
        0
    }

    fn is_destructor(&self) -> bool {
        false
    }

    fn since(&self) -> u32 {
        1
    }

    fn from_raw(msg: Message) -> (r: Result<NoMessage, ()>)
        ensures
            r is Err,
    {
        Err(())
    }

    fn into_raw(self, send_id: u32) -> Message {
        Message { sender_id: send_id, opcode: 0, args: Vec::new() }
    }
}

} // verus!
