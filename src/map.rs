//! Registry of live protocol objects, keyed by their numeric id.
//!
//! Each object carries two independent destruction flags, one for each party of
//! the connection. An id leaves the registry exactly when both are set.
use std::collections::HashMap;
use vstd::prelude::*;

verus! {

broadcast use vstd::std_specs::hash::group_hash_axioms;

/// Id of the root object of every connection.
pub const DISPLAY_ID: u32 = 1;

/// First id of the range allocated by the acceptor side.
pub const SERVER_ID_LIMIT: u32 = 0xff00_0000;

/// What the registry keeps about one object.
#[derive(Clone, Copy, Debug, PartialEq, Eq, Structural)]
pub struct ObjectMeta {
    /// Index of the object's interface in the connection's interface table.
    pub interface: usize,
    /// Negotiated version of the object.
    pub version: u32,
    /// Event queue that inbound messages for this object are routed to.
    pub queue: usize,
    /// The local side is done with the object.
    pub locally_destroyed: bool,
    /// The remote side acknowledged the object's destruction.
    pub remote_destroyed: bool,
    /// A handler is attached for the object's inbound messages; without one
    /// they go to the dispatching thread's fallback.
    pub dispatcher: bool,
}

impl ObjectMeta {
    /// A freshly created object: neither side has destroyed it.
    pub open spec fn fresh(interface: usize, version: u32, queue: usize) -> ObjectMeta {
        ObjectMeta {
            interface,
            version,
            queue,
            locally_destroyed: false,
            remote_destroyed: false,
            dispatcher: false,
        }
    }
}

/// Which party of the connection allocates an id.
#[derive(Clone, Copy, Debug, PartialEq, Eq, Structural)]
pub enum Side {
    /// The initiator: ids below `SERVER_ID_LIMIT`.
    Client,
    /// The acceptor: ids from `SERVER_ID_LIMIT` on.
    Server,
}

/// The object registry of one connection.
pub struct ObjectMap {
    objects: HashMap<u32, ObjectMeta>,
    next_client: u32,
    next_server: u32,
}

impl View for ObjectMap {
    type V = Map<u32, ObjectMeta>;

    closed spec fn view(&self) -> Map<u32, ObjectMeta> {
        self.objects@
    }
}

/// The result of marking one side's destruction of an object.
pub open spec fn mark_result(m: Map<u32, ObjectMeta>, id: u32, local: bool) -> Map<u32, ObjectMeta> {
    if !m.contains_key(id) {
        m
    } else {
        let o = m[id];
        let o2 = if local {
            ObjectMeta { locally_destroyed: true, ..o }
        } else {
            ObjectMeta { remote_destroyed: true, ..o }
        };
        if o2.locally_destroyed && o2.remote_destroyed {
            m.remove(id)
        } else {
            m.insert(id, o2)
        }
    }
}

impl ObjectMap {
    /// No object in the registry carries both destruction flags, and the id
    /// counters stay in their ranges.
    pub closed spec fn wf(&self) -> bool {
        &&& forall|id: u32| #[trigger]
            self.objects@.contains_key(id) ==> !(self.objects@[id].locally_destroyed
                && self.objects@[id].remote_destroyed)
        &&& 1 <= self.next_client <= SERVER_ID_LIMIT
        &&& SERVER_ID_LIMIT <= self.next_server
    }

    /// The next id that `allocate_id` hands out for a side, if any is left.
    pub closed spec fn next_id(&self, side: Side) -> Option<u32> {
        match side {
            Side::Client => if self.next_client < SERVER_ID_LIMIT {
                Some(self.next_client)
            } else {
                None
            },
            Side::Server => if self.next_server < u32::MAX {
                Some(self.next_server)
            } else {
                None
            },
        }
    }

    /// An empty registry.
    pub fn new() -> (r: ObjectMap)
        ensures
            r.wf(),
            r@ == Map::<u32, ObjectMeta>::empty(),
            r.next_id(Side::Client) == Some(2u32),
            r.next_id(Side::Server) == Some(SERVER_ID_LIMIT),
    {
        ObjectMap { objects: HashMap::new(), next_client: 2, next_server: SERVER_ID_LIMIT }
    }

    /// Whether an object with this id is registered.
    pub fn contains(&self, id: u32) -> (r: bool)
        ensures
            r == self@.contains_key(id),
    {
        self.objects.contains_key(&id)
    }

    /// The metadata of the object with this id, if it is registered.
    pub fn find(&self, id: u32) -> (r: Option<ObjectMeta>)
        ensures
            r == (if self@.contains_key(id) { Some(self@[id]) } else { None::<ObjectMeta> }),
    {
        match self.objects.get(&id) {
            Some(o) => Some(*o),
            None => None,
        }
    }

    /// Registers a fresh object under `id`. Fails, changing nothing, where the
    /// id is 0 or already in use.
    pub fn insert_at(&mut self, id: u32, interface: usize, version: u32, queue: usize) -> (r: Result<(), ()>)
        requires
            old(self).wf(),
        ensures
            final(self).wf(),
            r is Ok <==> (id != 0 && !old(self)@.contains_key(id)),
            r is Ok ==> final(self)@ == old(self)@.insert(id, ObjectMeta::fresh(interface, version, queue)),
            r is Err ==> final(self)@ == old(self)@,
            final(self).next_id(Side::Client) == old(self).next_id(Side::Client),
            final(self).next_id(Side::Server) == old(self).next_id(Side::Server),
    {
        if id == 0 || self.objects.contains_key(&id) {
            return Err(());
        }
        let meta = ObjectMeta {
            interface,
            version,
            queue,
            locally_destroyed: false,
            remote_destroyed: false,
            dispatcher: false,
        };
        self.objects.insert(id, meta);
        Ok(())
    }

    /// Hands out the next id of a side's range, strictly above every id that
    /// side was given before. `None` once the range is used up.
    pub fn allocate_id(&mut self, side: Side) -> (r: Option<u32>)
        requires
            old(self).wf(),
        ensures
            final(self).wf(),
            final(self)@ == old(self)@,
            r == old(self).next_id(side),
            r is Some ==> final(self).next_id(side) is Some ==> final(self).next_id(side)->0 > r->0,
            r is Some ==> match side {
                Side::Client => 1 <= r->0 < SERVER_ID_LIMIT,
                Side::Server => SERVER_ID_LIMIT <= r->0,
            },
            r is None ==> final(self).next_id(side) is None,
            side == Side::Client ==> final(self).next_id(Side::Server) == old(self).next_id(Side::Server),
            side == Side::Server ==> final(self).next_id(Side::Client) == old(self).next_id(Side::Client),
    {
        match side {
            Side::Client => {
                if self.next_client < SERVER_ID_LIMIT {
                    let id = self.next_client;
                    self.next_client = id + 1;
                    Some(id)
                } else {
                    None
                }
            },
            Side::Server => {
                if self.next_server < u32::MAX {
                    let id = self.next_server;
                    self.next_server = id + 1;
                    Some(id)
                } else {
                    None
                }
            },
        }
    }

    fn mark(&mut self, id: u32, local: bool) -> (removed: bool)
        requires
            old(self).wf(),
        ensures
            final(self).wf(),
            final(self)@ == mark_result(old(self)@, id, local),
            removed == (old(self)@.contains_key(id) && !final(self)@.contains_key(id)),
            final(self).next_id(Side::Client) == old(self).next_id(Side::Client),
            final(self).next_id(Side::Server) == old(self).next_id(Side::Server),
    {
        match self.objects.get(&id) {
            None => false,
            Some(o) => {
                let mut o2 = *o;
                if local {
                    o2.locally_destroyed = true;
                } else {
                    o2.remote_destroyed = true;
                }
                if o2.locally_destroyed && o2.remote_destroyed {
                    self.objects.remove(&id);
                    true
                } else {
                    self.objects.insert(id, o2);
                    false
                }
            },
        }
    }

    /// Records that the local side is done with the object. The object is
    /// removed where the remote side had already acknowledged its destruction;
    /// the result says whether it was. An unknown id changes nothing.
    pub fn mark_locally_destroyed(&mut self, id: u32) -> (removed: bool)
        requires
            old(self).wf(),
        ensures
            final(self).wf(),
            final(self)@ == mark_result(old(self)@, id, true),
            removed == (old(self)@.contains_key(id) && !final(self)@.contains_key(id)),
            removed <==> (old(self)@.contains_key(id) && old(self)@[id].remote_destroyed),
            final(self).next_id(Side::Client) == old(self).next_id(Side::Client),
            final(self).next_id(Side::Server) == old(self).next_id(Side::Server),
    {
        self.mark(id, true)
    }

    /// Records that the remote side acknowledged the object's destruction. The
    /// object is removed where the local side was already done with it; the
    /// result says whether it was. An unknown id changes nothing.
    pub fn mark_remote_destroyed(&mut self, id: u32) -> (removed: bool)
        requires
            old(self).wf(),
        ensures
            final(self).wf(),
            final(self)@ == mark_result(old(self)@, id, false),
            removed == (old(self)@.contains_key(id) && !final(self)@.contains_key(id)),
            removed <==> (old(self)@.contains_key(id) && old(self)@[id].locally_destroyed),
            final(self).next_id(Side::Client) == old(self).next_id(Side::Client),
            final(self).next_id(Side::Server) == old(self).next_id(Side::Server),
    {
        self.mark(id, false)
    }

    /// Moves inbound routing for a registered object to another queue. An
    /// unknown id changes nothing; the result says whether the id was known.
    pub fn assign_queue(&mut self, id: u32, queue: usize) -> (r: bool)
        requires
            old(self).wf(),
        ensures
            final(self).wf(),
            r == old(self)@.contains_key(id),
            r ==> final(self)@ == old(self)@.insert(id, ObjectMeta { queue, ..old(self)@[id] }),
            !r ==> final(self)@ == old(self)@,
            final(self).next_id(Side::Client) == old(self).next_id(Side::Client),
            final(self).next_id(Side::Server) == old(self).next_id(Side::Server),
    {
        match self.objects.get(&id) {
            None => false,
            Some(o) => {
                let o2 = ObjectMeta { queue, ..*o };
                self.objects.insert(id, o2);
                true
            },
        }
    }

    /// Records that a handler is attached to a registered object. An unknown
    /// id changes nothing; the result says whether the id was known.
    pub fn set_dispatcher(&mut self, id: u32) -> (r: bool)
        requires
            old(self).wf(),
        ensures
            final(self).wf(),
            r == old(self)@.contains_key(id),
            r ==> final(self)@ == old(self)@.insert(id, ObjectMeta { dispatcher: true, ..old(self)@[id] }),
            !r ==> final(self)@ == old(self)@,
            final(self).next_id(Side::Client) == old(self).next_id(Side::Client),
            final(self).next_id(Side::Server) == old(self).next_id(Side::Server),
    {
        match self.objects.get(&id) {
            None => false,
            Some(o) => {
                let o2 = ObjectMeta { dispatcher: true, ..*o };
                self.objects.insert(id, o2);
                true
            },
        }
    }
}

/// An id stays in the registry until both destruction flags have been set on
/// it: a registered object never carries both, marking one side keeps the
/// object registered unless the other side was already marked, and marking the
/// second side removes it.
pub proof fn lemma_present_until_both_destroyed(m: ObjectMap, id: u32, local: bool)
    requires
        m.wf(),
    ensures
        m@.contains_key(id) ==> !(m@[id].locally_destroyed && m@[id].remote_destroyed),
        mark_result(m@, id, local).contains_key(id) <==> (m@.contains_key(id) && !(if local {
            m@[id].remote_destroyed
        } else {
            m@[id].locally_destroyed
        })),
        forall|other: u32|
            other != id ==> (#[trigger] mark_result(m@, id, local).contains_key(other)
                <==> m@.contains_key(other)),
{
}

} // verus!
