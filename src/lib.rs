//! Protocol engine of a socket-based, object-oriented display-server protocol:
//! the object registry, the wire codec, the read coordination between event
//! queues, the root object's dispatcher and the per-peer bookkeeping.
use vstd::prelude::*;

pub mod client;
pub mod connection;
pub mod guard;
pub mod map;
pub mod message;
pub mod queue;
pub mod wire;

verus! {

} // verus!
