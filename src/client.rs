//! Bookkeeping for one connected peer on the acceptor side: whether it is
//! still connected, and the destructors to run when it disconnects.
//!
//! Threads are named by plain numeric ids. Resource creation and destructor
//! registration belong to the thread that hosts the display.
use vstd::prelude::*;

verus! {

/// Mathematical state of a peer's bookkeeping.
pub struct ClientStateV {
    pub alive: bool,
    /// The thread that hosts the display.
    pub owner: u64,
    /// Registered destructors, in registration order.
    pub destructors: Seq<u64>,
}

/// State and destructors to run after the peer disconnects: the first
/// disconnection hands out every registered destructor, in order, and clears
/// the list; any later one hands out nothing.
pub open spec fn disconnected(s: ClientStateV) -> (ClientStateV, Seq<u64>) {
    if s.alive {
        (ClientStateV { alive: false, destructors: Seq::empty(), ..s }, s.destructors)
    } else {
        (s, Seq::empty())
    }
}

/// One peer's bookkeeping. Destructors are named by tokens that the caller
/// maps to the code to run.
pub struct ClientState {
    alive: bool,
    owner: u64,
    destructors: Vec<u64>,
}

impl View for ClientState {
    type V = ClientStateV;

    closed spec fn view(&self) -> ClientStateV {
        ClientStateV { alive: self.alive, owner: self.owner, destructors: self.destructors@ }
    }
}

impl ClientState {
    /// A connected peer owned by thread `owner`, with no destructor.
    pub fn new(owner: u64) -> (r: ClientState)
        ensures
            r@ == (ClientStateV { alive: true, owner, destructors: Seq::empty() }),
    {
        let r = ClientState { alive: true, owner, destructors: Vec::new() };
        assert(r@.destructors =~= Seq::<u64>::empty());
        r
    }

    /// Whether the peer is still connected.
    pub fn alive(&self) -> (r: bool)
        ensures
            r == self@.alive,
    {
        self.alive
    }

    /// Whether `thread` hosts the display, the only thread that may register
    /// destructors and create resources. Calling those from any other thread is
    /// a programming error, which callers must catch with this test.
    pub fn is_owner(&self, thread: u64) -> (r: bool)
        ensures
            r == (thread == self@.owner),
    {
        thread == self.owner
    }

    /// Registers a destructor, from the owning thread `thread`.
    pub fn add_destructor(&mut self, thread: u64, token: u64)
        requires
            thread == old(self)@.owner,
        ensures
            final(self)@ == (ClientStateV { destructors: old(self)@.destructors.push(token), ..old(self)@ }),
    {
        self.destructors.push(token);
    }

    /// Whether a resource may be created now, from the owning thread
    /// `thread`: `false` once the peer is gone.
    pub fn create_resource(&self, thread: u64) -> (r: bool)
        requires
            thread == self@.owner,
        ensures
            r == self@.alive,
    {
        self.alive
    }

    /// The peer disconnected: it is no longer alive, and the destructors to
    /// run are returned in registration order, each exactly once over all calls.
    pub fn disconnect(&mut self) -> (r: Vec<u64>)
        ensures
            (final(self)@, r@) == disconnected(old(self)@),
    {
        if !self.alive {
            let r: Vec<u64> = Vec::new();
            assert(r@ =~= Seq::<u64>::empty());
            return r;
        }
        self.alive = false;
        let mut r: Vec<u64> = Vec::new();
        core::mem::swap(&mut r, &mut self.destructors);
        assert(self.destructors@ =~= Seq::<u64>::empty());
        r
    }
}

/// Liveness flips to false on the first disconnection and stays false; the
/// destructors handed out over two disconnections are exactly those that were
/// registered, in registration order, none twice.
pub proof fn lemma_destructors_run_once(s: ClientStateV)
    ensures
        !disconnected(s).0.alive,
        !disconnected(disconnected(s).0).0.alive,
        disconnected(s).1 + disconnected(disconnected(s).0).1 == (if s.alive {
            s.destructors
        } else {
            Seq::empty()
        }),
{
    assert(disconnected(s).1 + disconnected(disconnected(s).0).1 =~= (if s.alive {
        s.destructors
    } else {
        Seq::<u64>::empty()
    }));
}

} // verus!
