//! State shared by every handle of one connection: the object registry, the
//! interface table, the fatal protocol error, and the root object's dispatcher.
use crate::map::{lemma_present_until_both_destroyed, mark_result, ObjectMap, ObjectMeta, Side, DISPLAY_ID};
use crate::wire::{
    args_view, decode_message_at, parse_message, sigs_view, word_at, ArgV, Argument, ArgumentType,
    Message, MessageParseError, MessageV,
};
use vstd::prelude::*;

verus! {

/// Static description of one interface.
pub struct InterfaceDesc {
    pub name: String,
    /// Highest version of the interface.
    pub version: u32,
    /// Signature of each request, by opcode.
    pub requests: Vec<Vec<ArgumentType>>,
    /// Signature of each event, by opcode.
    pub events: Vec<Vec<ArgumentType>>,
    /// Interface of the object that the new-id argument of each event
    /// creates, by opcode.
    pub event_children: Vec<Option<usize>>,
}

/// Mathematical value of an interface description.
pub struct InterfaceV {
    pub name: Seq<char>,
    pub version: u32,
    pub requests: Seq<Seq<ArgumentType>>,
    pub events: Seq<Seq<ArgumentType>>,
    pub event_children: Seq<Option<usize>>,
}

impl View for InterfaceDesc {
    type V = InterfaceV;

    open spec fn view(&self) -> InterfaceV {
        InterfaceV {
            name: self.name@,
            version: self.version,
            requests: sigs_view(self.requests@),
            events: sigs_view(self.events@),
            event_children: self.event_children@,
        }
    }
}

pub open spec fn ifaces_view(v: Seq<InterfaceDesc>) -> Seq<InterfaceV> {
    v.map_values(|d: InterfaceDesc| d@)
}

/// The fatal error a peer reported for one of the objects.
#[derive(Clone, Debug, PartialEq, Eq)]
pub struct ProtocolError {
    pub code: u32,
    pub object_id: u32,
    pub object_interface: String,
    pub message: Vec<u8>,
}

/// Mathematical value of a protocol error record.
pub struct ProtocolErrorV {
    pub code: u32,
    pub object_id: u32,
    pub object_interface: Seq<char>,
    pub message: Seq<u8>,
}

impl View for ProtocolError {
    type V = ProtocolErrorV;

    open spec fn view(&self) -> ProtocolErrorV {
        ProtocolErrorV {
            code: self.code,
            object_id: self.object_id,
            object_interface: self.object_interface@,
            message: self.message@,
        }
    }
}

pub open spec fn error_view(e: Option<ProtocolError>) -> Option<ProtocolErrorV> {
    match e {
        Some(p) => Some(p@),
        None => None,
    }
}

/// Whether a dispatcher could use a message.
#[derive(Clone, Copy, Debug, PartialEq, Eq, Structural)]
pub enum Dispatched {
    Yes,
    BadMsg,
}

/// The two events of the root object.
pub enum DisplayEvent {
    /// A peer reports a fatal error on an object.
    Error { object_id: u32, code: u32, message: Seq<u8> },
    /// A peer acknowledges the destruction of an object.
    DeleteId { id: u32 },
}

/// The root-object event a message carries, if it is one.
pub open spec fn display_event(m: MessageV) -> Option<DisplayEvent> {
    if m.opcode == 0 && m.args.len() == 3 {
        match (m.args[0], m.args[1], m.args[2]) {
            (ArgV::Object(object_id), ArgV::Uint(code), ArgV::Str(Some(message))) => Some(
                DisplayEvent::Error { object_id, code, message },
            ),
            _ => None,
        }
    } else if m.opcode == 1 && m.args.len() == 1 {
        match m.args[0] {
            ArgV::Uint(id) => Some(DisplayEvent::DeleteId { id }),
            _ => None,
        }
    } else {
        None
    }
}

/// What the root object's dispatcher does with a message: whether it could
/// use it, and the registry and recorded protocol error after it.
pub open spec fn display_effect(
    objs: Map<u32, ObjectMeta>,
    err: Option<ProtocolErrorV>,
    ifaces: Seq<InterfaceV>,
    m: MessageV,
) -> (Dispatched, Map<u32, ObjectMeta>, Option<ProtocolErrorV>) {
    match display_event(m) {
        None => (Dispatched::BadMsg, objs, err),
        Some(DisplayEvent::Error { object_id, code, message }) => if !objs.contains_key(object_id) {
            (Dispatched::BadMsg, objs, err)
        } else {
            (
                Dispatched::Yes,
                objs,
                if err is None {
                    Some(
                        ProtocolErrorV {
                            code,
                            object_id,
                            object_interface: iface_name(ifaces, objs[object_id].interface),
                            message,
                        },
                    )
                } else {
                    err
                },
            )
        },
        Some(DisplayEvent::DeleteId { id }) => (Dispatched::Yes, mark_result(objs, id, false), err),
    }
}

/// Name of the interface at `idx` in the table, `<unknown>` past its end.
pub open spec fn iface_name(ifaces: Seq<InterfaceV>, idx: usize) -> Seq<char> {
    if idx < ifaces.len() {
        ifaces[idx as int].name
    } else {
        "<unknown>"@
    }
}

/// A decoded inbound message and the event queue it is routed to.
#[derive(Clone, Debug, PartialEq, Eq)]
pub struct Routed {
    pub queue: usize,
    pub message: Message,
}

pub open spec fn routed_view(v: Seq<Routed>) -> Seq<(usize, MessageV)> {
    v.map_values(|r: Routed| (r.queue, r.message@))
}

/// Interface of the object created by the new-id argument of event `opcode`.
pub open spec fn child_of(i: InterfaceV, opcode: u16) -> Option<usize> {
    if (opcode as int) < i.event_children.len() {
        i.event_children[opcode as int]
    } else {
        None
    }
}

/// The registry after registering the object of each new-id argument, in
/// argument order, with interface `child`, and the version and queue given.
/// `None` where an id is 0 or already taken, or no child interface is known.
pub open spec fn add_children(
    objs: Map<u32, ObjectMeta>,
    args: Seq<ArgV>,
    child: Option<usize>,
    version: u32,
    queue: usize,
) -> Option<Map<u32, ObjectMeta>>
    decreases args.len(),
{
    if args.len() == 0 {
        Some(objs)
    } else {
        match add_children(objs, args.drop_last(), child, version, queue) {
            None => None,
            Some(o2) => match args.last() {
                ArgV::NewId(id) => if id == 0 || o2.contains_key(id) || child is None {
                    None
                } else {
                    Some(o2.insert(id, ObjectMeta::fresh(child->0, version, queue)))
                },
                _ => Some(o2),
            },
        }
    }
}

proof fn lemma_add_children_fails_on_prefix(
    objs: Map<u32, ObjectMeta>,
    args: Seq<ArgV>,
    j: int,
    child: Option<usize>,
    version: u32,
    queue: usize,
)
    requires
        0 <= j <= args.len(),
        add_children(objs, args.take(j), child, version, queue) is None,
    ensures
        add_children(objs, args, child, version, queue) is None,
    decreases args.len(),
{
    if j == args.len() {
        assert(args.take(j) =~= args);
    } else {
        assert(args.drop_last().take(j) =~= args.take(j));
        lemma_add_children_fails_on_prefix(objs, args.drop_last(), j, child, version, queue);
    }
}

/// Whether a non-null object argument of type `t` may name `id`: a
/// registered object, of the expected interface where `t` names one.
pub open spec fn ref_ok(objs: Map<u32, ObjectMeta>, id: u32, t: ArgumentType) -> bool {
    id == 0 || (objs.contains_key(id) && match t {
        ArgumentType::TypedObject(_, iface) => objs[id].interface == iface,
        _ => true,
    })
}

/// Whether every object argument, read with signature `sig`, names a
/// registered object of the expected interface, or is null.
pub open spec fn refs_known(objs: Map<u32, ObjectMeta>, args: Seq<ArgV>, sig: Seq<ArgumentType>) -> bool {
    forall|i: int| 0 <= i < args.len() ==> match #[trigger] args[i] {
        ArgV::Object(id) => i < sig.len() && ref_ok(objs, id, sig[i]),
        _ => true,
    }
}

/// Routed messages, bytes and file descriptors taken, and the registry after
/// the read; or why the read failed.
pub type RouteResult = Result<(Seq<(usize, MessageV)>, nat, nat, Map<u32, ObjectMeta>), MessageParseError>;

/// Reads the complete messages at the front of `b` and routes each to the
/// queue of the object it is sent to: the routed messages, the bytes and file
/// descriptors they took, and the registry after the read. Each new-id
/// argument registers its object, with the sender's version and queue, before
/// the next message is read. Messages for an object the local side has
/// destroyed are consumed and dropped; an incomplete message at the end stays
/// for the next read. A message for an unknown object, one that does not
/// decode, one with an object argument naming an unknown object, or one whose
/// new id cannot be registered fails the whole read.
pub open spec fn route(objs: Map<u32, ObjectMeta>, ifaces: Seq<InterfaceV>, b: Seq<u8>, fds: Seq<i32>) -> RouteResult
    decreases b.len(),
{
    if b.len() < 8 {
        Ok((Seq::empty(), 0, 0, objs))
    } else {
        let id = word_at(b, 0);
        if !objs.contains_key(id) || objs[id].interface >= ifaces.len() {
            Err(MessageParseError::Malformed)
        } else {
            let o = objs[id];
            let iface = ifaces[o.interface as int];
            match parse_message(b, iface.events, fds) {
                Err(MessageParseError::MissingData) => Ok((Seq::empty(), 0, 0, objs)),
                Err(e) => Err(e),
                Ok((m, n, nf)) => if n < 8 || n > b.len() || !refs_known(objs, m.args, iface.events[m.opcode as int]) {
                    Err(MessageParseError::Malformed)
                } else {
                    match add_children(objs, m.args, child_of(iface, m.opcode), o.version, o.queue) {
                        None => Err(MessageParseError::Malformed),
                        Some(objs2) => match route(objs2, ifaces, b.skip(n as int), fds.skip(nf as int)) {
                            Err(e) => Err(e),
                            Ok((ms, n2, nf2, objs3)) => Ok(
                                (
                                    if o.locally_destroyed {
                                        ms
                                    } else {
                                        seq![(o.queue, m)] + ms
                                    },
                                    n + n2,
                                    nf + nf2,
                                    objs3,
                                ),
                            ),
                        },
                    }
                },
            }
        }
    }
}

pub open spec fn route_after(p: Seq<(usize, MessageV)>, n0: nat, f0: nat, r: RouteResult) -> RouteResult {
    match r {
        Ok((ms, n, nf, o)) => Ok((p + ms, n0 + n, f0 + nf, o)),
        Err(e) => Err(e),
    }
}

/// Why a request cannot be sent on an object.
#[derive(Clone, Copy, Debug, PartialEq, Eq, Structural)]
pub enum SendError {
    /// No object with this id is registered.
    UnknownObject,
    /// The local side already destroyed the object.
    UseAfterDestroy,
    /// A new-id argument names an id that is 0 or taken, or no interface is
    /// given for the object it creates.
    BadNewId,
}

/// One connection's shared state.
pub struct Connection {
    map: ObjectMap,
    interfaces: Vec<InterfaceDesc>,
    last_error: Option<ProtocolError>,
    fatal: Option<MessageParseError>,
    queue_bound: usize,
}

impl Connection {
    pub closed spec fn wf(&self) -> bool {
        &&& self.map.wf()
        &&& forall|id: u32| #[trigger] self.map@.contains_key(id) ==> self.map@[id].queue < self.queue_bound
    }

    /// Every registered object's queue number is below this bound.
    pub closed spec fn queue_bound(&self) -> usize {
        self.queue_bound
    }

    /// The bound on queue numbers; see `queue_bound`.
    pub fn queue_limit(&self) -> (r: usize)
        ensures
            r == self.queue_bound(),
    {
        self.queue_bound
    }

    /// Every registered object's queue number is below `queue_bound`.
    pub proof fn lemma_queues_below_bound(&self)
        requires
            self.wf(),
        ensures
            forall|id: u32| #[trigger] self.objects().contains_key(id) ==> self.objects()[id].queue < self.queue_bound(),
    {
    }

    /// The registered objects.
    pub closed spec fn objects(&self) -> Map<u32, ObjectMeta> {
        self.map@
    }

    /// The interface table.
    pub closed spec fn ifaces(&self) -> Seq<InterfaceV> {
        ifaces_view(self.interfaces@)
    }

    /// The recorded protocol error, if any.
    pub closed spec fn error(&self) -> Option<ProtocolErrorV> {
        error_view(self.last_error)
    }

    /// Why the connection is dead, once a read failed or the root object
    /// received a message it cannot use. Nothing is read or dispatched after.
    pub closed spec fn fatal(&self) -> Option<MessageParseError> {
        self.fatal
    }

    /// The error that killed the connection, if one did.
    pub fn fatal_error(&self) -> (r: Option<MessageParseError>)
        ensures
            r == self.fatal(),
    {
        self.fatal
    }

    /// A connection whose only object is the root object, id 1, of the
    /// interface at `display_interface`, routed to queue 0, whose handler is
    /// `handle_display_event`.
    pub fn new(interfaces: Vec<InterfaceDesc>, display_interface: usize) -> (r: Connection)
        ensures
            r.wf(),
            r.objects() == Map::<u32, ObjectMeta>::empty().insert(
                DISPLAY_ID,
                ObjectMeta { dispatcher: true, ..ObjectMeta::fresh(display_interface, 1, 0) },
            ),
            r.ifaces() == ifaces_view(interfaces@),
            r.error() is None,
            r.fatal() is None,
            r.queue_bound() == 1,
    {
        let mut map = ObjectMap::new();
        let _ = map.insert_at(DISPLAY_ID, display_interface, 1, 0);
        let _ = map.set_dispatcher(DISPLAY_ID);
        Connection { map, interfaces, last_error: None, fatal: None, queue_bound: 1 }
    }

    /// The metadata of a registered object.
    pub fn object(&self, id: u32) -> (r: Option<ObjectMeta>)
        ensures
            r == (if self.objects().contains_key(id) { Some(self.objects()[id]) } else { None::<ObjectMeta> }),
    {
        self.map.find(id)
    }

    /// Registers a fresh object; fails, changing nothing, where the id is 0 or taken.
    pub fn insert_object(&mut self, id: u32, interface: usize, version: u32, queue: usize) -> (r: Result<(), ()>)
        requires
            old(self).wf(),
            queue < usize::MAX,
        ensures
            final(self).wf(),
            r is Ok <==> (id != 0 && !old(self).objects().contains_key(id)),
            r is Ok ==> final(self).objects() == old(self).objects().insert(id, ObjectMeta::fresh(interface, version, queue)),
            r is Err ==> final(self).objects() == old(self).objects(),
            final(self).ifaces() == old(self).ifaces(),
            final(self).error() == old(self).error(),
            final(self).fatal() == old(self).fatal(),
            final(self).queue_bound() == (if r is Ok && queue >= old(self).queue_bound() {
                (queue + 1) as usize
            } else {
                old(self).queue_bound()
            }),
    {
        let r = self.map.insert_at(id, interface, version, queue);
        if r.is_ok() && queue >= self.queue_bound {
            self.queue_bound = queue + 1;
        }
        r
    }

    /// Whether a request may be sent on an object: it must be registered and
    /// not destroyed by the local side.
    pub fn check_send(&self, id: u32) -> (r: Result<(), SendError>)
        ensures
            r == (if !self.objects().contains_key(id) {
                Err(SendError::UnknownObject)
            } else if self.objects()[id].locally_destroyed {
                Err(SendError::UseAfterDestroy)
            } else {
                Ok(())
            }),
    {
        match self.map.find(id) {
            None => Err(SendError::UnknownObject),
            Some(o) => if o.locally_destroyed {
                Err(SendError::UseAfterDestroy)
            } else {
                Ok(())
            },
        }
    }

    /// The local side is done with an object. It stays registered until the
    /// peer acknowledges; the result says whether it was removed now.
    pub fn destroy_object(&mut self, id: u32) -> (removed: bool)
        requires
            old(self).wf(),
        ensures
            final(self).wf(),
            final(self).objects() == mark_result(old(self).objects(), id, true),
            removed <==> (old(self).objects().contains_key(id) && old(self).objects()[id].remote_destroyed),
            final(self).ifaces() == old(self).ifaces(),
            final(self).queue_bound() == old(self).queue_bound(),
            final(self).error() == old(self).error(),
            final(self).fatal() == old(self).fatal(),
    {
        self.map.mark_locally_destroyed(id)
    }

    /// Routes future inbound messages for an object to another queue.
    pub fn assign_queue(&mut self, id: u32, queue: usize) -> (r: bool)
        requires
            old(self).wf(),
            queue < usize::MAX,
        ensures
            final(self).wf(),
            r == old(self).objects().contains_key(id),
            r ==> final(self).objects() == old(self).objects().insert(id, ObjectMeta { queue, ..old(self).objects()[id] }),
            !r ==> final(self).objects() == old(self).objects(),
            final(self).ifaces() == old(self).ifaces(),
            final(self).error() == old(self).error(),
            final(self).fatal() == old(self).fatal(),
            final(self).queue_bound() == (if r && queue >= old(self).queue_bound() {
                (queue + 1) as usize
            } else {
                old(self).queue_bound()
            }),
    {
        let r = self.map.assign_queue(id, queue);
        if r && queue >= self.queue_bound {
            self.queue_bound = queue + 1;
        }
        r
    }

    /// Attaches a handler to a registered object: its inbound messages go to
    /// that handler instead of the fallback.
    pub fn attach_dispatcher(&mut self, id: u32) -> (r: bool)
        requires
            old(self).wf(),
        ensures
            final(self).wf(),
            r == old(self).objects().contains_key(id),
            r ==> final(self).objects() == old(self).objects().insert(id, ObjectMeta { dispatcher: true, ..old(self).objects()[id] }),
            !r ==> final(self).objects() == old(self).objects(),
            final(self).ifaces() == old(self).ifaces(),
            final(self).queue_bound() == old(self).queue_bound(),
            final(self).error() == old(self).error(),
            final(self).fatal() == old(self).fatal(),
    {
        self.map.set_dispatcher(id)
    }

    /// The id `allocate_id` hands out next for a side, if any is left.
    pub closed spec fn next_id(&self, side: Side) -> Option<u32> {
        self.map.next_id(side)
    }

    /// Hands out the next id of a side's range for an object this side
    /// creates, strictly above every id that side was given before; `None`
    /// once the range is used up. Nothing is registered yet.
    pub fn allocate_id(&mut self, side: Side) -> (r: Option<u32>)
        requires
            old(self).wf(),
        ensures
            final(self).wf(),
            final(self).objects() == old(self).objects(),
            r == old(self).next_id(side),
            r is Some ==> final(self).next_id(side) is Some ==> final(self).next_id(side)->0 > r->0,
            r is None ==> final(self).next_id(side) is None,
            final(self).ifaces() == old(self).ifaces(),
            final(self).error() == old(self).error(),
            final(self).fatal() == old(self).fatal(),
            final(self).queue_bound() == old(self).queue_bound(),
    {
        self.map.allocate_id(side)
    }

    /// A handler rejected a message as malformed: the connection is dead,
    /// with error `e` unless it was dead already. Nothing else changes.
    pub fn poison(&mut self, e: MessageParseError) -> (r: MessageParseError)
        ensures
            final(self).fatal() == (if old(self).fatal() is None { Some(e) } else { old(self).fatal() }),
            r == final(self).fatal()->0,
            final(self).objects() == old(self).objects(),
            final(self).ifaces() == old(self).ifaces(),
            final(self).error() == old(self).error(),
            final(self).queue_bound() == old(self).queue_bound(),
            final(self).wf() == old(self).wf(),
    {
        if self.fatal.is_none() {
            self.fatal = Some(e);
        }
        match self.fatal {
            Some(f) => f,
            None => e,
        }
    }

    /// Checks a request before it is sent and registers the objects its
    /// new-id arguments create, with interface `child` and the sender's
    /// version and queue. Fails where the sender is unknown or destroyed by
    /// this side, changing nothing, or where a new id cannot be registered.
    pub fn prepare_request(&mut self, msg: &Message, child: Option<usize>) -> (r: Result<(), SendError>)
        requires
            old(self).wf(),
        ensures
            final(self).wf(),
            final(self).ifaces() == old(self).ifaces(),
            final(self).error() == old(self).error(),
            final(self).fatal() == old(self).fatal(),
            final(self).queue_bound() == old(self).queue_bound(),
            !old(self).objects().contains_key(msg.sender_id) ==> r == Err::<(), SendError>(SendError::UnknownObject)
                && final(self).objects() == old(self).objects(),
            old(self).objects().contains_key(msg.sender_id) && old(self).objects()[msg.sender_id].locally_destroyed
                ==> r == Err::<(), SendError>(SendError::UseAfterDestroy) && final(self).objects() == old(self).objects(),
            old(self).objects().contains_key(msg.sender_id) && !old(self).objects()[msg.sender_id].locally_destroyed ==> {
                let o = old(self).objects()[msg.sender_id];
                let grown = add_children(old(self).objects(), msg@.args, child, o.version, o.queue);
                &&& (r is Ok <==> grown is Some)
                &&& (r is Ok ==> final(self).objects() == grown->Some_0)
                &&& (r is Err ==> r == Err::<(), SendError>(SendError::BadNewId))
            },
    {
        let o = match self.map.find(msg.sender_id) {
            None => {
                return Err(SendError::UnknownObject);
            },
            Some(o) => o,
        };
        if o.locally_destroyed {
            return Err(SendError::UseAfterDestroy);
        }
        if self.insert_children(&msg.args, child, o.version, o.queue) {
            Ok(())
        } else {
            Err(SendError::BadNewId)
        }
    }

    fn interface_name(&self, idx: usize) -> (r: String)
        ensures
            r@ == iface_name(self.ifaces(), idx),
    {
        if idx < self.interfaces.len() {
            self.interfaces[idx].name.clone()
        } else {
            "<unknown>".to_owned()
        }
    }

    /// Dispatches an event sent by the root object. A fatal-error event on a
    /// registered object is recorded, unless an error was recorded before;
    /// one on an unknown object is a bad message. A deletion acknowledgment
    /// marks the object destroyed by the peer, removing it where the local
    /// side was done with it. Any other message is a bad message. A bad
    /// message changes nothing but the connection's fatal state: it kills
    /// the connection, unless it was dead already.
    pub fn handle_display_event(&mut self, msg: &Message) -> (r: Dispatched)
        requires
            old(self).wf(),
        ensures
            final(self).wf(),
            final(self).ifaces() == old(self).ifaces(),
            final(self).queue_bound() == old(self).queue_bound(),
            final(self).fatal() == (if r == Dispatched::BadMsg && old(self).fatal() is None {
                Some(MessageParseError::Malformed)
            } else {
                old(self).fatal()
            }),
            (r, final(self).objects(), final(self).error()) == display_effect(old(self).objects(), old(self).error(), old(self).ifaces(), msg@),
            match display_event(msg@) {
                None => r == Dispatched::BadMsg && final(self).objects() == old(self).objects()
                    && final(self).error() == old(self).error(),
                Some(DisplayEvent::Error { object_id, code, message }) => if !old(self).objects().contains_key(object_id) {
                    r == Dispatched::BadMsg && final(self).objects() == old(self).objects()
                        && final(self).error() == old(self).error()
                } else {
                    r == Dispatched::Yes && final(self).objects() == old(self).objects()
                        && final(self).error() == (if old(self).error() is None {
                            Some(ProtocolErrorV {
                                code,
                                object_id,
                                object_interface: iface_name(old(self).ifaces(), old(self).objects()[object_id].interface),
                                message,
                            })
                        } else {
                            old(self).error()
                        })
                },
                Some(DisplayEvent::DeleteId { id }) => r == Dispatched::Yes
                    && final(self).objects() == mark_result(old(self).objects(), id, false)
                    && final(self).error() == old(self).error(),
            },
    {
        let r = {
            let ghost args = msg@.args;
            if msg.opcode == 0 && msg.args.len() == 3 {
                assert(args[0] == msg.args@[0]@);
                assert(args[1] == msg.args@[1]@);
                assert(args[2] == msg.args@[2]@);
                match (&msg.args[0], &msg.args[1], &msg.args[2]) {
                    (Argument::Object(object_id), Argument::Uint(code), Argument::Str(Some(text))) => {
                        match self.map.find(*object_id) {
                            None => Dispatched::BadMsg,
                            Some(o) => {
                                if self.last_error.is_none() {
                                    let object_interface = self.interface_name(o.interface);
                                    self.last_error = Some(
                                        ProtocolError {
                                            code: *code,
                                            object_id: *object_id,
                                            object_interface,
                                            message: copy_bytes(text),
                                        },
                                    );
                                }
                                Dispatched::Yes
                            },
                        }
                    },
                    _ => Dispatched::BadMsg,
                }
            } else if msg.opcode == 1 && msg.args.len() == 1 {
                assert(args[0] == msg.args@[0]@);
                match &msg.args[0] {
                    Argument::Uint(id) => {
                        let _ = self.map.mark_remote_destroyed(*id);
                        Dispatched::Yes
                    },
                    _ => Dispatched::BadMsg,
                }
            } else {
                Dispatched::BadMsg
            }
        };
        if r == Dispatched::BadMsg && self.fatal.is_none() {
            self.fatal = Some(MessageParseError::Malformed);
        }
        r
    }

    /// Registers the object of each new-id argument; see `add_children`.
    /// Returns whether every one could be registered.
    fn insert_children(&mut self, args: &Vec<Argument>, child: Option<usize>, version: u32, queue: usize) -> (ok: bool)
        requires
            old(self).wf(),
            queue < old(self).queue_bound(),
        ensures
            final(self).wf(),
            final(self).ifaces() == old(self).ifaces(),
            final(self).error() == old(self).error(),
            final(self).fatal() == old(self).fatal(),
            final(self).queue_bound() == old(self).queue_bound(),
            ok == add_children(old(self).objects(), args_view(args@), child, version, queue) is Some,
            ok ==> final(self).objects() == add_children(old(self).objects(), args_view(args@), child, version, queue)->Some_0,
    {
        let ghost av = args_view(args@);
        let mut i: usize = 0;
        while i < args.len()
            invariant
                self.wf(),
                i <= args@.len(),
                av == args_view(args@),
                self.ifaces() == old(self).ifaces(),
                self.error() == old(self).error(),
                self.fatal() == old(self).fatal(),
                self.queue_bound() == old(self).queue_bound(),
                queue < self.queue_bound(),
                add_children(old(self).objects(), av.take(i as int), child, version, queue) == Some(self.objects()),
            decreases args@.len() - i,
        {
            assert(av.take(i as int + 1).drop_last() =~= av.take(i as int));
            assert(av.take(i as int + 1).last() == args@[i as int]@);
            match &args[i] {
                Argument::NewId(id) => {
                    match child {
                        None => {
                            proof {
                                lemma_add_children_fails_on_prefix(old(self).objects(), av, i + 1, child, version, queue);
                            }
                            return false;
                        },
                        Some(c) => {
                            if self.map.insert_at(*id, c, version, queue).is_err() {
                                proof {
                                    lemma_add_children_fails_on_prefix(old(self).objects(), av, i + 1, child, version, queue);
                                }
                                return false;
                            }
                        },
                    }
                },
                _ => {},
            }
            i = i + 1;
        }
        assert(av.take(i as int) =~= av);
        true
    }

    /// Reads the complete messages at the front of `bytes`, taking file
    /// descriptors from the front of `fds`, routes each to its object's queue
    /// and registers the objects they create; see `route`. On success returns
    /// the routed messages and how many bytes and file descriptors they took.
    /// A failed read kills the connection: the error is recorded, and every
    /// later read fails with it, changing nothing. What the failed read
    /// registered before failing is left unspecified.
    pub fn receive(&mut self, bytes: &[u8], fds: &[i32]) -> (r: Result<(Vec<Routed>, usize, usize), MessageParseError>)
        requires
            old(self).wf(),
        ensures
            final(self).wf(),
            final(self).ifaces() == old(self).ifaces(),
            final(self).error() == old(self).error(),
            final(self).queue_bound() == old(self).queue_bound(),
            r matches Ok((ms, n, nf)) ==> forall|i: int| 0 <= i < ms@.len() ==> #[trigger] ms@[i].queue < old(self).queue_bound(),
            old(self).fatal() is Some ==> r == Err::<(Vec<Routed>, usize, usize), MessageParseError>(old(self).fatal()->0)
                && final(self).objects() == old(self).objects() && final(self).fatal() == old(self).fatal(),
            old(self).fatal() is None ==> match r {
                Ok((ms, n, nf)) => route(old(self).objects(), old(self).ifaces(), bytes@, fds@)
                    == Ok::<(Seq<(usize, MessageV)>, nat, nat, Map<u32, ObjectMeta>), MessageParseError>(
                    (routed_view(ms@), n as nat, nf as nat, final(self).objects()),
                ) && final(self).fatal() is None,
                Err(e) => route(old(self).objects(), old(self).ifaces(), bytes@, fds@)
                    == Err::<(Seq<(usize, MessageV)>, nat, nat, Map<u32, ObjectMeta>), MessageParseError>(e)
                    && final(self).fatal() == Some(e),
            },
    {
        if let Some(e) = self.fatal {
            return Err(e);
        }
        let r = self.receive_messages(bytes, fds);
        if let Err(e) = r {
            self.fatal = Some(e);
        }
        r
    }

    fn refs_known_now(&self, args: &Vec<Argument>, sig: &Vec<ArgumentType>) -> (r: bool)
        ensures
            r == refs_known(self.objects(), args_view(args@), sig@),
    {
        let ghost av = args_view(args@);
        let mut i: usize = 0;
        while i < args.len()
            invariant
                i <= args@.len(),
                av == args_view(args@),
                forall|k: int| 0 <= k < i ==> match #[trigger] av[k] {
                    ArgV::Object(id) => k < sig@.len() && ref_ok(self.objects(), id, sig@[k]),
                    _ => true,
                },
            decreases args@.len() - i,
        {
            assert(av[i as int] == args@[i as int]@);
            match &args[i] {
                Argument::Object(id) => {
                    if *id != 0 {
                        if i >= sig.len() {
                            return false;
                        }
                        match self.map.find(*id) {
                            None => {
                                return false;
                            },
                            Some(o) => {
                                match sig[i] {
                                    ArgumentType::TypedObject(_, iface) => {
                                        if o.interface != iface {
                                            return false;
                                        }
                                    },
                                    _ => {},
                                }
                            },
                        }
                    } else if i >= sig.len() {
                        return false;
                    }
                },
                _ => {},
            }
            i = i + 1;
        }
        true
    }

    fn receive_messages(&mut self, bytes: &[u8], fds: &[i32]) -> (r: Result<(Vec<Routed>, usize, usize), MessageParseError>)
        requires
            old(self).wf(),
        ensures
            final(self).wf(),
            final(self).ifaces() == old(self).ifaces(),
            final(self).error() == old(self).error(),
            final(self).fatal() == old(self).fatal(),
            final(self).queue_bound() == old(self).queue_bound(),
            r matches Ok((ms, n, nf)) ==> forall|i: int| 0 <= i < ms@.len() ==> #[trigger] ms@[i].queue < old(self).queue_bound(),
            match r {
                Ok((ms, n, nf)) => route(old(self).objects(), old(self).ifaces(), bytes@, fds@)
                    == Ok::<(Seq<(usize, MessageV)>, nat, nat, Map<u32, ObjectMeta>), MessageParseError>(
                    (routed_view(ms@), n as nat, nf as nat, final(self).objects()),
                ),
                Err(e) => route(old(self).objects(), old(self).ifaces(), bytes@, fds@)
                    == Err::<(Seq<(usize, MessageV)>, nat, nat, Map<u32, ObjectMeta>), MessageParseError>(e),
            },
    {
        let ghost objs0 = self.objects();
        let ghost ifaces = self.ifaces();
        let mut out: Vec<Routed> = Vec::new();
        let mut pos: usize = 0;
        let mut fi: usize = 0;
        let fds_len = fds.len();
        proof {
            assert(bytes@.skip(0) =~= bytes@);
            assert(fds@.skip(0) =~= fds@);
            assert(routed_view(out@) =~= Seq::<(usize, MessageV)>::empty());
            match route(objs0, ifaces, bytes@, fds@) {
                Ok((ms, n, nf, o)) => {
                    assert(Seq::<(usize, MessageV)>::empty() + ms =~= ms);
                },
                Err(e) => {},
            }
        }
        loop
            invariant
                self.wf(),
                pos <= bytes@.len(),
                fi <= fds@.len(),
                fds_len == fds@.len(),
                ifaces == self.ifaces(),
                ifaces == old(self).ifaces(),
                objs0 == old(self).objects(),
                self.error() == old(self).error(),
                self.fatal() == old(self).fatal(),
                self.queue_bound() == old(self).queue_bound(),
                forall|k: int| 0 <= k < out@.len() ==> #[trigger] out@[k].queue < old(self).queue_bound(),
                route_after(routed_view(out@), pos as nat, fi as nat, route(self.objects(), ifaces, bytes@.skip(pos as int), fds@.skip(fi as int)))
                    == route(objs0, ifaces, bytes@, fds@),
            decreases bytes@.len() - pos,
        {
            let ghost cur = bytes@.skip(pos as int);
            let ghost curf = fds@.skip(fi as int);
            let ghost before = routed_view(out@);
            let ghost objs = self.objects();
            if bytes.len() - pos < 8 {
                assert(before + Seq::<(usize, MessageV)>::empty() =~= before);
                return Ok((out, pos, fi));
            }
            let id = (bytes[pos] as u32) | ((bytes[pos + 1] as u32) << 8u32) | ((bytes[pos + 2] as u32) << 16u32)
                | ((bytes[pos + 3] as u32) << 24u32);
            assert(word_at(cur, 0) == id);
            let o = match self.map.find(id) {
                None => {
                    return Err(MessageParseError::Malformed);
                },
                Some(o) => o,
            };
            if o.interface >= self.interfaces.len() {
                return Err(MessageParseError::Malformed);
            }
            let sigs = &self.interfaces[o.interface].events;
            assert(ifaces[o.interface as int].events == sigs_view(sigs@));
            match decode_message_at(bytes, pos, sigs, fds, fi) {
                Err(MessageParseError::MissingData) => {
                    assert(before + Seq::<(usize, MessageV)>::empty() =~= before);
                    return Ok((out, pos, fi));
                },
                Err(e) => {
                    return Err(e);
                },
                Ok((m, n, nf)) => {
                    let ghost mv = m@;
                    assert((mv.opcode as int) < sigs@.len());
                    if !self.refs_known_now(&m.args, &sigs[m.opcode as usize]) {
                        return Err(MessageParseError::Malformed);
                    }
                    let children = &self.interfaces[o.interface].event_children;
                    let child = if (m.opcode as usize) < children.len() {
                        children[m.opcode as usize]
                    } else {
                        None
                    };
                    assert(child == child_of(ifaces[o.interface as int], mv.opcode));
                    if !self.insert_children(&m.args, child, o.version, o.queue) {
                        return Err(MessageParseError::Malformed);
                    }
                    assert(cur.skip(n as int) =~= bytes@.skip(pos + n));
                    assert(curf.skip(nf as int) =~= fds@.skip(fi + nf));
                    let ghost rest = route(self.objects(), ifaces, bytes@.skip(pos + n), fds@.skip(fi + nf));
                    if !o.locally_destroyed {
                        out.push(Routed { queue: o.queue, message: m });
                        assert(routed_view(out@) =~= before.push((o.queue, mv)));
                        proof {
                            match rest {
                                Ok((ms, n2, nf2, o3)) => {
                                    assert(before + (seq![(o.queue, mv)] + ms) =~= before.push((o.queue, mv)) + ms);
                                },
                                Err(e) => {},
                            }
                        }
                    }
                    pos = pos + n;
                    fi = fi + nf;
                },
            }
        }
    }

    /// The protocol error the peer reported, if it reported one.
    pub fn protocol_error(&self) -> (r: Option<ProtocolError>)
        ensures
            error_view(r) == self.error(),
    {
        match &self.last_error {
            None => None,
            Some(e) => Some(
                ProtocolError {
                    code: e.code,
                    object_id: e.object_id,
                    object_interface: e.object_interface.clone(),
                    message: copy_bytes(&e.message),
                },
            ),
        }
    }
}

fn copy_bytes(v: &Vec<u8>) -> (r: Vec<u8>)
    ensures
        r@ == v@,
{
    let mut r: Vec<u8> = Vec::new();
    let mut i: usize = 0;
    while i < v.len()
        invariant
            i <= v@.len(),
            r@ == v@.take(i as int),
        decreases v@.len() - i,
    {
        r.push(v[i]);
        i = i + 1;
        assert(r@ =~= v@.take(i as int));
    }
    assert(v@.take(i as int) =~= v@);
    r
}

/// A read stops at the first message that cannot be read: one sent by an
/// object that is not registered, or one whose bytes do not decode, fails the
/// whole read with that error instead of being skipped; and a failure further
/// on in the stream fails the read of everything before it too.
pub proof fn lemma_malformed_stops_read(objs: Map<u32, ObjectMeta>, ifaces: Seq<InterfaceV>, b: Seq<u8>, fds: Seq<i32>)
    requires
        b.len() >= 8,
    ensures
        !objs.contains_key(word_at(b, 0)) ==> route(objs, ifaces, b, fds)
            == Err::<(Seq<(usize, MessageV)>, nat, nat, Map<u32, ObjectMeta>), MessageParseError>(MessageParseError::Malformed),
        ({
            let id = word_at(b, 0);
            objs.contains_key(id) && objs[id].interface < ifaces.len()
                && parse_message(b, ifaces[objs[id].interface as int].events, fds)
                == Err::<(MessageV, nat, nat), MessageParseError>(MessageParseError::Malformed)
                ==> route(objs, ifaces, b, fds)
                == Err::<(Seq<(usize, MessageV)>, nat, nat, Map<u32, ObjectMeta>), MessageParseError>(MessageParseError::Malformed)
        }),
        ({
            let id = word_at(b, 0);
            let o = objs[id];
            let iface = ifaces[o.interface as int];
            let (m, n, nf) = parse_message(b, iface.events, fds)->Ok_0;
            let grown = add_children(objs, m.args, child_of(iface, m.opcode), o.version, o.queue);
            objs.contains_key(id) && o.interface < ifaces.len() && parse_message(b, iface.events, fds) is Ok
                && refs_known(objs, m.args, iface.events[m.opcode as int]) && grown is Some && route(grown->Some_0, ifaces, b.skip(n as int), fds.skip(nf as int)) is Err
                ==> route(objs, ifaces, b, fds) == route(grown->Some_0, ifaces, b.skip(n as int), fds.skip(nf as int))
        }),
{
}

/// No object registered on a well-formed connection carries both destruction
/// flags: an object stays only until both sides are done with it.
pub proof fn lemma_connection_objects_not_both_destroyed(c: Connection)
    requires
        c.wf(),
    ensures
        forall|id: u32| #[trigger] c.objects().contains_key(id)
            ==> !(c.objects()[id].locally_destroyed && c.objects()[id].remote_destroyed),
{
    assert forall|id: u32| #[trigger] c.objects().contains_key(id)
        implies !(c.objects()[id].locally_destroyed && c.objects()[id].remote_destroyed) by {
        lemma_present_until_both_destroyed(c.map, id, true);
    }
}

/// The request, on the root object, that asks the peer to acknowledge every
/// request sent before it through the new callback object `callback_id`.
pub fn sync_request(callback_id: u32) -> (r: Message)
    ensures
        r@ == (MessageV { sender_id: DISPLAY_ID, opcode: 0, args: seq![ArgV::NewId(callback_id)] }),
{
    let args = vec![Argument::NewId(callback_id)];
    let r = Message { sender_id: DISPLAY_ID, opcode: 0, args };
    assert(r@.args =~= seq![ArgV::NewId(callback_id)]);
    r
}

/// Progress of one roundtrip: it is over once the peer has sent the `done`
/// event (opcode 0) of the roundtrip's callback object.
pub struct Roundtrip {
    callback: u32,
    done: bool,
}

impl Roundtrip {
    pub closed spec fn callback(&self) -> u32 {
        self.callback
    }

    pub closed spec fn is_done(&self) -> bool {
        self.done
    }

    /// A roundtrip waiting on callback object `callback_id`.
    pub fn new(callback_id: u32) -> (r: Roundtrip)
        ensures
            r.callback() == callback_id,
            !r.is_done(),
    {
        Roundtrip { callback: callback_id, done: false }
    }

    /// Takes note of one dispatched event; returns whether it is this
    /// roundtrip's acknowledgment, which the roundtrip consumes. Any other
    /// event is left for its handler or the fallback.
    pub fn observe(&mut self, msg: &Message) -> (r: bool)
        ensures
            final(self).callback() == old(self).callback(),
            r == (msg.sender_id == old(self).callback() && msg.opcode == 0),
            final(self).is_done() == (old(self).is_done() || r),
    {
        if msg.sender_id == self.callback && msg.opcode == 0 {
            self.done = true;
            true
        } else {
            false
        }
    }

    /// Whether the acknowledgment has been seen.
    pub fn done(&self) -> (r: bool)
        ensures
            r == self.is_done(),
    {
        self.done
    }
}

} // verus!
