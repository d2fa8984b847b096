//! Read coordination between the event queues of one connection, and the
//! messages each queue holds until it dispatches them.
//!
//! Several threads, each owning a queue, share one socket. A thread declares
//! its intent to read with `prepare_read`, then either `read_events` or
//! `cancel_read`. Only one thread reads the socket at a time: the last one of
//! the declared readers to call `read_events` does, the others wait until the
//! read serial changes.
use crate::connection::{display_effect, route, routed_view, Connection, Dispatched, InterfaceV, ProtocolErrorV, Routed};
use crate::map::{ObjectMeta, DISPLAY_ID};
use crate::wire::{Message, MessageParseError, MessageV};
use vstd::prelude::*;

verus! {

/// Mathematical state of the coordination.
pub struct ReadStateV {
    /// Per queue: its thread has declared the intent to read.
    pub intents: Seq<bool>,
    /// Messages read but not yet dispatched, each with its queue, in wire order.
    pub buffered: Seq<(usize, MessageV)>,
    /// A thread is reading the socket now.
    pub reading: bool,
    /// Changes each time waiting threads are let go.
    pub serial: u64,
}

/// What a thread that called `read_events` does next.
#[derive(Clone, Copy, Debug, PartialEq, Eq, Structural)]
pub enum ReadAction {
    /// Read the socket, then hand the routed messages to `complete_read`.
    Read,
    /// Wait until the read serial changes.
    Wait,
    /// The queue had not declared an intent to read: nothing to do.
    NotPrepared,
}

pub open spec fn next_serial(s: u64) -> u64 {
    if s == u64::MAX {
        0
    } else {
        (s + 1) as u64
    }
}

/// Whether queue `q` holds a message not yet dispatched.
pub open spec fn has_pending(buf: Seq<(usize, MessageV)>, q: int) -> bool {
    exists|i: int| 0 <= i < buf.len() && #[trigger] buf[i].0 == q
}

/// Whether a queue may declare the intent to read: it holds no message.
pub open spec fn can_prepare(s: ReadStateV, q: int) -> bool {
    !has_pending(s.buffered, q)
}

/// The state after a successful `prepare_read` on queue `q`.
pub open spec fn prepared(s: ReadStateV, q: int) -> ReadStateV {
    ReadStateV { intents: s.intents.update(q, true), ..s }
}

/// Whether a queue other than `q` has declared the intent to read.
pub open spec fn others_intend(s: ReadStateV, q: int) -> bool {
    exists|j: int| 0 <= j < s.intents.len() && j != q && #[trigger] s.intents[j]
}

/// What `read_events` on queue `q` does: without an intent, nothing; else
/// the intent is consumed, and the thread reads where no other queue still
/// intends to and nobody is reading, or waits otherwise.
pub open spec fn read_transition(s: ReadStateV, q: int) -> (ReadAction, ReadStateV) {
    if !s.intents[q] {
        (ReadAction::NotPrepared, s)
    } else {
        let c = ReadStateV { intents: s.intents.update(q, false), ..s };
        if !s.reading && !others_intend(s, q) {
            (ReadAction::Read, ReadStateV { reading: true, ..c })
        } else {
            (ReadAction::Wait, c)
        }
    }
}

/// Whether cancelling queue `q`'s intent leaves nobody to read: its intent
/// was the last one and no read is under way. Waiting threads must then be
/// let go, since no read will complete for them.
pub open spec fn cancel_releases(s: ReadStateV, q: int) -> bool {
    s.intents[q] && !s.reading && !others_intend(s, q)
}

/// The state after `cancel_read` on queue `q`.
pub open spec fn cancelled(s: ReadStateV, q: int) -> ReadStateV {
    ReadStateV {
        intents: s.intents.update(q, false),
        serial: if cancel_releases(s, q) {
            next_serial(s.serial)
        } else {
            s.serial
        },
        ..s
    }
}

/// Whether a message from `sender` is still wanted: its object is registered
/// and the local side has not destroyed it.
pub open spec fn live(objs: Map<u32, ObjectMeta>, sender: u32) -> bool {
    objs.contains_key(sender) && !objs[sender].locally_destroyed
}

/// Progress of dispatching one queue over the buffered messages.
pub struct DispatchState {
    /// The registry, as root-object messages change it.
    pub objs: Map<u32, ObjectMeta>,
    /// The recorded protocol error.
    pub err: Option<ProtocolErrorV>,
    /// Messages handed out, each with whether its object has a handler.
    pub out: Seq<(MessageV, bool)>,
    /// Buffered messages of the other queues, kept in order.
    pub rest: Seq<(usize, MessageV)>,
    /// A root-object message was rejected: dispatch stopped there.
    pub failed: bool,
}

/// Dispatching queue `q` meets buffered message `e`. A message of another
/// queue is kept. Once dispatch has stopped, the queue's messages are
/// dropped. A root-object message goes to the root dispatcher, and one it
/// rejects stops dispatch. Another message is handed out where its object is
/// still live, and dropped silently where the object was destroyed.
pub open spec fn dispatch_step(s: DispatchState, e: (usize, MessageV), q: int, ifaces: Seq<InterfaceV>) -> DispatchState {
    if e.0 != q {
        DispatchState { rest: s.rest.push(e), ..s }
    } else if s.failed {
        s
    } else if e.1.sender_id == DISPLAY_ID {
        let (d, objs, err) = display_effect(s.objs, s.err, ifaces, e.1);
        if d == Dispatched::BadMsg {
            DispatchState { failed: true, ..s }
        } else {
            DispatchState { objs, err, ..s }
        }
    } else if live(s.objs, e.1.sender_id) {
        DispatchState { out: s.out.push((e.1, s.objs[e.1.sender_id].dispatcher)), ..s }
    } else {
        s
    }
}

/// Dispatching queue `q` over the buffered messages, in order, from `init`.
pub open spec fn dispatch_run(buf: Seq<(usize, MessageV)>, q: int, ifaces: Seq<InterfaceV>, init: DispatchState) -> DispatchState
    decreases buf.len(),
{
    if buf.len() == 0 {
        init
    } else {
        dispatch_step(dispatch_run(buf.drop_last(), q, ifaces, init), buf.last(), q, ifaces)
    }
}

/// Where dispatching starts on a connection: its registry and error, nothing
/// handed out or kept yet.
pub open spec fn dispatch_start(conn: Connection) -> DispatchState {
    DispatchState { objs: conn.objects(), err: conn.error(), out: Seq::empty(), rest: Seq::empty(), failed: false }
}

/// What a thread dispatching its queue does next.
#[derive(Clone, Copy, Debug, PartialEq, Eq, Structural)]
pub enum DispatchStep {
    /// The connection is dead: stop with this error.
    Fail(MessageParseError),
    /// The queue holds messages: take them with `dispatch_pending`.
    Dispatch,
    /// Nothing is buffered: flush, `prepare_read`, then `read_events`.
    Read,
}

/// A message handed out for dispatch.
#[derive(Clone, Debug, PartialEq, Eq)]
pub struct Delivery {
    pub message: Message,
    /// The message goes to its object's handler; otherwise to the fallback.
    pub to_handler: bool,
}

pub open spec fn deliveries_view(v: Seq<Delivery>) -> Seq<(MessageV, bool)> {
    v.map_values(|d: Delivery| (d.message@, d.to_handler))
}

/// Coordination state and buffered messages of all the queues of one connection.
pub struct ReadCoordinator {
    intents: Vec<bool>,
    buffered: Vec<Routed>,
    reading: bool,
    serial: u64,
}

impl View for ReadCoordinator {
    type V = ReadStateV;

    closed spec fn view(&self) -> ReadStateV {
        ReadStateV {
            intents: self.intents@,
            buffered: routed_view(self.buffered@),
            reading: self.reading,
            serial: self.serial,
        }
    }
}

impl ReadCoordinator {
    /// Number of queues.
    pub open spec fn queues(&self) -> nat {
        self@.intents.len()
    }

    /// Every buffered message belongs to an existing queue.
    pub open spec fn wf(&self) -> bool {
        forall|i: int| 0 <= i < self@.buffered.len() ==> #[trigger] self@.buffered[i].0 < self.queues()
    }

    /// Number of queues.
    pub fn queue_count(&self) -> (r: usize)
        ensures
            r == self.queues(),
    {
        self.intents.len()
    }

    /// A connection with only its root queue, numbered 0.
    pub fn new() -> (r: ReadCoordinator)
        ensures
            r@.intents == seq![false],
            r@.buffered == Seq::<(usize, MessageV)>::empty(),
            !r@.reading,
            r@.serial == 0,
            r.wf(),
    {
        let r = ReadCoordinator { intents: vec![false], buffered: Vec::new(), reading: false, serial: 0 };
        assert(r@.intents =~= seq![false]);
        assert(r@.buffered =~= Seq::<(usize, MessageV)>::empty());
        r
    }

    /// The read serial: a thread told to wait goes on once it has changed.
    pub fn serial(&self) -> (r: u64)
        ensures
            r == self@.serial,
    {
        self.serial
    }

    /// Adds a queue, holding no message; returns its number.
    pub fn add_queue(&mut self) -> (q: usize)
        requires
            old(self).wf(),
        ensures
            final(self).wf(),
            !has_pending(final(self)@.buffered, q as int),
            q == old(self).queues(),
            final(self)@ == (ReadStateV { intents: old(self)@.intents.push(false), ..old(self)@ }),
    {
        let q = self.intents.len();
        self.intents.push(false);
        assert(self@.buffered == old(self)@.buffered);
        assert forall|i: int| 0 <= i < self@.buffered.len() implies #[trigger] self@.buffered[i].0 < self.queues() by {
            assert(old(self)@.buffered[i].0 < old(self).queues());
        }
        assert(!has_pending(self@.buffered, q as int)) by {
            if has_pending(self@.buffered, q as int) {
                let i = choose|i: int| 0 <= i < self@.buffered.len() && #[trigger] self@.buffered[i].0 == q;
                assert(old(self)@.buffered[i].0 < old(self).queues());
            }
        }
        q
    }

    /// Declares queue `q`'s intent to read. Fails, changing nothing, while the
    /// queue holds undispatched messages.
    pub fn prepare_read(&mut self, q: usize) -> (r: Result<(), ()>)
        requires
            old(self).wf(),
            q < old(self).queues(),
        ensures
            final(self).wf(),
            r is Ok <==> can_prepare(old(self)@, q as int),
            r is Ok ==> final(self)@ == prepared(old(self)@, q as int),
            r is Err ==> final(self)@ == old(self)@,
    {
        let mut i: usize = 0;
        while i < self.buffered.len()
            invariant
                self.wf(),
                self@ == old(self)@,
                i <= self.buffered@.len(),
                forall|k: int| 0 <= k < i ==> (#[trigger] routed_view(self.buffered@)[k]).0 != q,
            decreases self.buffered@.len() - i,
        {
            if self.buffered[i].queue == q {
                assert(routed_view(self.buffered@)[i as int].0 == q);
                return Err(());
            }
            i = i + 1;
        }
        self.intents.set(q, true);
        assert forall|i: int| 0 <= i < self@.buffered.len() implies #[trigger] self@.buffered[i].0 < self.queues() by {
            assert(old(self)@.buffered[i].0 < old(self).queues());
        }
        Ok(())
    }

    fn others_intend_now(&self, q: usize) -> (r: bool)
        requires
            q < self.queues(),
        ensures
            r == others_intend(self@, q as int),
    {
        let mut j: usize = 0;
        while j < self.intents.len()
            invariant
                j <= self.intents@.len(),
                forall|k: int| 0 <= k < j && k != q ==> !#[trigger] self.intents@[k],
            decreases self.intents@.len() - j,
        {
            if j != q && self.intents[j] {
                assert(self@.intents[j as int]);
                return true;
            }
            j = j + 1;
        }
        false
    }

    fn bump_serial(&mut self)
        ensures
            final(self)@ == (ReadStateV { serial: next_serial(old(self)@.serial), ..old(self)@ }),
    {
        self.serial = if self.serial == u64::MAX { 0 } else { self.serial + 1 };
    }

    /// Withdraws queue `q`'s intent to read, leaving every other queue's as it
    /// is. Where that leaves nobody to read, the serial changes, so that
    /// waiting threads go on; the result says whether it did.
    pub fn cancel_read(&mut self, q: usize) -> (released: bool)
        requires
            old(self).wf(),
            q < old(self).queues(),
        ensures
            final(self).wf(),
            final(self)@ == cancelled(old(self)@, q as int),
            released == cancel_releases(old(self)@, q as int),
    {
        let released = self.intents[q] && !self.reading && !self.others_intend_now(q);
        self.intents.set(q, false);
        if released {
            self.bump_serial();
        }
        assert(final(self)@.intents =~= cancelled(old(self)@, q as int).intents);
        released
    }

    /// Queue `q`'s thread is ready to read. The intent is consumed. Where no
    /// other queue still intends to read and nobody is reading, this thread
    /// reads; otherwise it waits until the serial changes.
    pub fn read_events(&mut self, q: usize) -> (r: ReadAction)
        requires
            old(self).wf(),
            q < old(self).queues(),
        ensures
            final(self).wf(),
            (r, final(self)@) == read_transition(old(self)@, q as int),
    {
        if !self.intents[q] {
            return ReadAction::NotPrepared;
        }
        let others = self.others_intend_now(q);
        self.intents.set(q, false);
        assert forall|i: int| 0 <= i < self@.buffered.len() implies #[trigger] self@.buffered[i].0 < self.queues() by {
            assert(old(self)@.buffered[i].0 < old(self).queues());
        }
        if self.reading || others {
            ReadAction::Wait
        } else {
            self.reading = true;
            ReadAction::Read
        }
    }

    /// The reading thread is done: the routed messages are buffered after
    /// those already held, in wire order, and waiting threads go on.
    pub fn complete_read(&mut self, routed: Vec<Routed>)
        requires
            old(self).wf(),
            forall|i: int| 0 <= i < routed@.len() ==> #[trigger] routed@[i].queue < old(self).queues(),
        ensures
            final(self).wf(),
            final(self)@ == (ReadStateV {
                buffered: old(self)@.buffered + routed_view(routed@),
                reading: false,
                serial: next_serial(old(self)@.serial),
                ..old(self)@
            }),
    {
        let mut routed = routed;
        let ghost orig = routed_view(routed@);
        let ghost start = routed_view(self.buffered@);
        assert forall|k: int| 0 <= k < orig.len() implies #[trigger] orig[k].0 < old(self).queues() by {
            assert(routed@[k].queue < old(self).queues());
        }
        let mut i: usize = 0;
        let n = routed.len();
        while routed.len() > 0
            invariant
                n == orig.len(),
                i + routed@.len() == n,
                routed_view(routed@) == orig.skip(i as int),
                routed_view(self.buffered@) == start + orig.take(i as int),
                forall|k: int| 0 <= k < start.len() ==> #[trigger] start[k].0 < old(self).queues(),
                forall|k: int| 0 <= k < orig.len() ==> #[trigger] orig[k].0 < old(self).queues(),
                self.intents@ == old(self).intents@,
                self.reading == old(self).reading,
                self.serial == old(self).serial,
            decreases routed@.len(),
        {
            let ghost prev = routed@;
            let r = routed.remove(0);
            let ghost e = (r.queue, r.message@);
            proof {
                assert(routed@ =~= prev.subrange(1, prev.len() as int));
                assert(routed_view(prev)[0] == e);
                assert(orig[i as int] == e);
                assert forall|k: int| 0 <= k < routed@.len() implies #[trigger] routed_view(routed@)[k] == routed_view(prev)[k + 1] by {}
            }
            let ghost bprev = self.buffered@;
            self.buffered.push(r);
            assert(routed_view(self.buffered@) =~= routed_view(bprev).push(e));
            assert(orig.take(i as int + 1) =~= orig.take(i as int).push(e));
            i = i + 1;
            assert(routed_view(routed@) =~= orig.skip(i as int));
            assert(routed_view(self.buffered@) =~= start + orig.take(i as int));
        }
        assert(orig.take(i as int) =~= orig);
        self.reading = false;
        self.bump_serial();
    }

    /// Takes queue `q`'s buffered messages for dispatch, in the order they
    /// were read; see `dispatch_step`. Root-object messages are handled here,
    /// on `conn`; the others are returned, each marked for its object's
    /// handler or the fallback. Dispatch stops at the first root-object
    /// message the root dispatcher rejects: the messages before it are
    /// returned with the error, which kills the connection, and none after it.
    /// Other queues keep their messages. On a dead connection nothing is
    /// dispatched: the call returns nothing but the connection's error and
    /// changes nothing.
    pub fn dispatch_pending(&mut self, q: usize, conn: &mut Connection) -> (r: (Vec<Delivery>, Option<MessageParseError>))
        requires
            q < old(self).queues(),
            old(self).wf(),
            old(conn).wf(),
        ensures
            final(self).wf(),
            final(conn).wf(),
            final(conn).queue_bound() == old(conn).queue_bound(),
            final(conn).ifaces() == old(conn).ifaces(),
            old(conn).fatal() is Some ==> r.0@.len() == 0 && r.1 == old(conn).fatal() && final(self)@ == old(self)@
                && final(conn).objects() == old(conn).objects() && final(conn).error() == old(conn).error()
                && final(conn).fatal() == old(conn).fatal(),
            old(conn).fatal() is None ==> {
                let s = dispatch_run(old(self)@.buffered, q as int, old(conn).ifaces(), dispatch_start(*old(conn)));
                &&& deliveries_view(r.0@) == s.out
                &&& r.1 == (if s.failed { Some(MessageParseError::Malformed) } else { None })
                &&& final(conn).fatal() == r.1
                &&& final(conn).objects() == s.objs
                &&& final(conn).error() == s.err
                &&& final(self)@ == (ReadStateV { buffered: s.rest, ..old(self)@ })
            },
    {
        if let Some(e) = conn.fatal_error() {
            return (Vec::new(), Some(e));
        }
        let ghost ifaces = conn.ifaces();
        let ghost init = dispatch_start(*conn);
        let mut all: Vec<Routed> = Vec::new();
        core::mem::swap(&mut all, &mut self.buffered);
        let ghost orig = routed_view(all@);
        let n = all.len();
        let mut out: Vec<Delivery> = Vec::new();
        let mut failed = false;
        let mut i: usize = 0;
        assert(orig.take(0) =~= Seq::<(usize, MessageV)>::empty());
        assert(routed_view(self.buffered@) =~= Seq::<(usize, MessageV)>::empty());
        assert(deliveries_view(out@) =~= Seq::<(MessageV, bool)>::empty());
        while all.len() > 0
            invariant
                n == orig.len(),
                i + all@.len() == n,
                orig == old(self)@.buffered,
                routed_view(all@) == orig.skip(i as int),
                conn.wf(),
                conn.ifaces() == ifaces,
                conn.queue_bound() == old(conn).queue_bound(),
                ifaces == old(conn).ifaces(),
                init == dispatch_start(*old(conn)),
                ({
                    let st = dispatch_run(orig.take(i as int), q as int, ifaces, init);
                    &&& routed_view(self.buffered@) == st.rest
                    &&& deliveries_view(out@) == st.out
                    &&& conn.objects() == st.objs
                    &&& conn.error() == st.err
                    &&& failed == st.failed
                    &&& conn.fatal() == (if failed { Some(MessageParseError::Malformed) } else { None })
                }),
                self.intents@ == old(self).intents@,
                self.reading == old(self).reading,
                self.serial == old(self).serial,
            decreases all@.len(),
        {
            let ghost prev = all@;
            let r = all.remove(0);
            let ghost e = (r.queue, r.message@);
            let ghost st = dispatch_run(orig.take(i as int), q as int, ifaces, init);
            proof {
                assert(all@ =~= prev.subrange(1, prev.len() as int));
                assert(routed_view(prev)[0] == e);
                assert forall|k: int| 0 <= k < all@.len() implies #[trigger] routed_view(all@)[k] == routed_view(prev)[k + 1] by {}
                assert(orig.skip(i as int)[0] == e);
                assert(orig.take(i as int + 1).drop_last() =~= orig.take(i as int));
                assert(orig.take(i as int + 1).last() == e);
            }
            let ghost bprev = self.buffered@;
            let ghost oprev = out@;
            if r.queue != q {
                self.buffered.push(r);
                assert(routed_view(self.buffered@) =~= routed_view(bprev).push(e));
            } else if failed {
            } else if r.message.sender_id == DISPLAY_ID {
                let d = conn.handle_display_event(&r.message);
                if d == Dispatched::BadMsg {
                    failed = true;
                }
            } else {
                match conn.object(r.message.sender_id) {
                    Some(o) => {
                        if !o.locally_destroyed {
                            out.push(Delivery { message: r.message, to_handler: o.dispatcher });
                            assert(deliveries_view(out@) =~= deliveries_view(oprev).push((e.1, o.dispatcher)));
                        }
                    },
                    None => {},
                }
            }
            i = i + 1;
            assert(routed_view(all@) =~= orig.skip(i as int));
        }
        assert(orig.take(i as int) =~= orig);
        proof {
            lemma_rest_queues(orig, q as int, ifaces, init, old(self).queues());
        }
        (out, if failed { Some(MessageParseError::Malformed) } else { None })
    }

    /// The next step of a dispatch loop on queue `q`: stop once the
    /// connection is dead, dispatch what the queue holds, or else read.
    pub fn next_step(&self, q: usize, conn: &Connection) -> (r: DispatchStep)
        requires
            q < self.queues(),
        ensures
            r == (if conn.fatal() is Some {
                DispatchStep::Fail(conn.fatal()->0)
            } else if has_pending(self@.buffered, q as int) {
                DispatchStep::Dispatch
            } else {
                DispatchStep::Read
            }),
    {
        match conn.fatal_error() {
            Some(e) => {
                return DispatchStep::Fail(e);
            },
            None => {},
        }
        assert(conn.fatal() is None);
        assert(self@.buffered == routed_view(self.buffered@));
        let mut i: usize = 0;
        while i < self.buffered.len()
            invariant
                i <= self.buffered@.len(),
                conn.fatal() is None,
                self@.buffered == routed_view(self.buffered@),
                forall|k: int| 0 <= k < i ==> (#[trigger] routed_view(self.buffered@)[k]).0 != q,
            decreases self.buffered@.len() - i,
        {
            if self.buffered[i].queue == q {
                assert(routed_view(self.buffered@)[i as int].0 == q);
                assert(has_pending(self@.buffered, q as int));
                return DispatchStep::Dispatch;
            }
            i = i + 1;
        }
        DispatchStep::Read
    }

    /// The reading thread got `bytes` and `fds` from the socket: reads the
    /// messages on `conn` and buffers them for their queues in wire order, or,
    /// where the read fails, kills the connection and buffers nothing. Either
    /// way the read is over and waiting threads go on. Returns how many bytes
    /// and file descriptors were used.
    pub fn finish_read(&mut self, conn: &mut Connection, bytes: &[u8], fds: &[i32]) -> (r: Result<(usize, usize), MessageParseError>)
        requires
            old(conn).wf(),
            old(self).wf(),
            old(conn).queue_bound() <= old(self).queues(),
        ensures
            final(self).wf(),
            final(conn).wf(),
            final(conn).ifaces() == old(conn).ifaces(),
            final(conn).error() == old(conn).error(),
            final(conn).queue_bound() == old(conn).queue_bound(),
            old(conn).fatal() is Some ==> r == Err::<(usize, usize), MessageParseError>(old(conn).fatal()->0)
                && final(conn).fatal() == old(conn).fatal() && final(conn).objects() == old(conn).objects(),
            old(conn).fatal() is None ==> match route(old(conn).objects(), old(conn).ifaces(), bytes@, fds@) {
                Ok((ms, n, nf, objs)) => r == Ok::<(usize, usize), MessageParseError>((n as usize, nf as usize))
                    && final(conn).objects() == objs && final(conn).fatal() is None
                    && final(self)@.buffered == old(self)@.buffered + ms,
                Err(e) => r == Err::<(usize, usize), MessageParseError>(e) && final(conn).fatal() == Some(e)
                    && final(self)@.buffered == old(self)@.buffered,
            },
            final(self)@.intents == old(self)@.intents,
            !final(self)@.reading,
            final(self)@.serial == next_serial(old(self)@.serial),
    {
        match conn.receive(bytes, fds) {
            Ok((routed, n, nf)) => {
                self.complete_read(routed);
                Ok((n, nf))
            },
            Err(e) => {
                let none: Vec<Routed> = Vec::new();
                assert(routed_view(none@) =~= Seq::<(usize, MessageV)>::empty());
                self.complete_read(none);
                assert(old(self)@.buffered + Seq::<(usize, MessageV)>::empty() =~= old(self)@.buffered);
                Err(e)
            },
        }
    }
}

proof fn lemma_rest_queues(buf: Seq<(usize, MessageV)>, q: int, ifaces: Seq<InterfaceV>, init: DispatchState, n: nat)
    requires
        init.rest.len() == 0,
        forall|i: int| 0 <= i < buf.len() ==> #[trigger] buf[i].0 < n,
    ensures
        forall|i: int| 0 <= i < dispatch_run(buf, q, ifaces, init).rest.len() ==> #[trigger] dispatch_run(buf, q, ifaces, init).rest[i].0 < n,
    decreases buf.len(),
{
    if buf.len() > 0 {
        assert forall|i: int| 0 <= i < buf.drop_last().len() implies #[trigger] buf.drop_last()[i].0 < n by {
            assert(buf[i].0 < n);
        }
        lemma_rest_queues(buf.drop_last(), q, ifaces, init, n);
        assert(buf[buf.len() - 1].0 < n);
        let o = dispatch_run(buf, q, ifaces, init).rest;
        let p = dispatch_run(buf.drop_last(), q, ifaces, init).rest;
        assert forall|i: int| 0 <= i < o.len() implies #[trigger] o[i].0 < n by {
            if i < p.len() {
                assert(o[i] == p[i]);
                assert(p[i].0 < n);
            }
        }
    }
}

proof fn lemma_rest_not_pending(buf: Seq<(usize, MessageV)>, q: int, ifaces: Seq<InterfaceV>, init: DispatchState)
    requires
        init.rest.len() == 0,
    ensures
        !has_pending(dispatch_run(buf, q, ifaces, init).rest, q),
    decreases buf.len(),
{
    if buf.len() > 0 {
        lemma_rest_not_pending(buf.drop_last(), q, ifaces, init);
        let o = dispatch_run(buf, q, ifaces, init).rest;
        let p = dispatch_run(buf.drop_last(), q, ifaces, init).rest;
        assert forall|i: int| 0 <= i < o.len() implies #[trigger] o[i].0 != q by {
            if i < p.len() {
                assert(o[i] == p[i]);
                assert(!(p[i].0 == q));
            }
        }
    }
}

/// Cancelling a read twice, with no `prepare_read` in between, leaves the
/// state as cancelling it once does; and it never touches another queue's
/// intent, the buffered messages or the reader.
pub proof fn lemma_cancel_read_idempotent(s: ReadStateV, q: int)
    requires
        0 <= q < s.intents.len(),
    ensures
        cancelled(cancelled(s, q), q) == cancelled(s, q),
        forall|j: int| 0 <= j < s.intents.len() && j != q ==> #[trigger] cancelled(s, q).intents[j] == s.intents[j],
        cancelled(s, q).buffered == s.buffered,
        cancelled(s, q).reading == s.reading,
{
    assert(cancelled(cancelled(s, q), q).intents =~= cancelled(s, q).intents);
}

/// `prepare_read` is refused exactly while the queue holds undispatched
/// messages, and once `dispatch_pending` has taken them it is allowed.
pub proof fn lemma_prepare_after_drain(s: ReadStateV, q: int)
    requires
        0 <= q < s.intents.len(),
    ensures
        has_pending(s.buffered, q) ==> !can_prepare(s, q),
        forall|ifaces: Seq<InterfaceV>, init: DispatchState| init.rest.len() == 0 ==>
            #[trigger] can_prepare(ReadStateV { buffered: dispatch_run(s.buffered, q, ifaces, init).rest, ..s }, q),
{
    assert forall|ifaces: Seq<InterfaceV>, init: DispatchState| init.rest.len() == 0 implies
        #[trigger] can_prepare(ReadStateV { buffered: dispatch_run(s.buffered, q, ifaces, init).rest, ..s }, q) by {
        lemma_rest_not_pending(s.buffered, q, ifaces, init);
    }
}

} // verus!

verus! {

/// At most one thread reads the socket at a time: while a read is under way,
/// `read_events` on any queue never elects another reader, and the read stays
/// under way. A thread told to wait is not let go by `read_events` or
/// `prepare_read` on any queue, since neither changes the serial: only
/// `complete_read`, which ends the read and buffers what it routed, or a
/// `cancel_read` that leaves nobody to read, does.
pub proof fn lemma_single_reader(s: ReadStateV, q: int)
    requires
        0 <= q < s.intents.len(),
    ensures
        s.reading ==> read_transition(s, q).0 != ReadAction::Read && read_transition(s, q).1.reading,
        read_transition(s, q).1.serial == s.serial,
        prepared(s, q).serial == s.serial,
        read_transition(s, q).0 == ReadAction::Read ==> !s.reading && read_transition(s, q).1.reading,
{
}

} // verus!
