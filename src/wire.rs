//! Binary wire format of protocol messages.
//!
//! A message is a 4-byte sender id, a 4-byte word holding the total length in
//! bytes (high half) and the opcode (low half), then the arguments in order.
//! Words are little-endian. Strings and arrays carry a 4-byte length and are
//! zero-padded to a 4-byte boundary; file descriptors travel beside the bytes.
use vstd::prelude::*;

verus! {

/// The type of one argument in a message signature.
#[derive(Clone, Copy, Debug, PartialEq, Eq, Structural)]
pub enum ArgumentType {
    /// Signed 32-bit integer.
    Int,
    /// Unsigned 32-bit integer.
    Uint,
    /// Signed fixed-point value with 8 fractional bits.
    Fixed,
    /// String; the flag says whether it may be absent.
    Str(bool),
    /// Byte array.
    Array,
    /// Reference to an object of any interface; the flag says whether it may
    /// be null.
    Object(bool),
    /// Reference to an object of the interface at the given index of the
    /// interface table; the flag says whether it may be null.
    TypedObject(bool, usize),
    /// Id of an object created by the message.
    NewId,
    /// File descriptor, carried out of band.
    Fd,
}

/// One argument of a message.
#[derive(Clone, Debug, PartialEq, Eq)]
pub enum Argument {
    Int(i32),
    Uint(u32),
    Fixed(i32),
    /// String contents without the terminating NUL; `None` for a null string.
    Str(Option<Vec<u8>>),
    Array(Vec<u8>),
    Object(u32),
    NewId(u32),
    Fd(i32),
}

/// Mathematical value of an argument.
pub enum ArgV {
    Int(i32),
    Uint(u32),
    Fixed(i32),
    Str(Option<Seq<u8>>),
    Array(Seq<u8>),
    Object(u32),
    NewId(u32),
    Fd(i32),
}

impl View for Argument {
    type V = ArgV;

    open spec fn view(&self) -> ArgV {
        match self {
            Argument::Int(i) => ArgV::Int(*i),
            Argument::Uint(u) => ArgV::Uint(*u),
            Argument::Fixed(f) => ArgV::Fixed(*f),
            Argument::Str(s) => ArgV::Str(
                match s {
                    Some(v) => Some(v@),
                    None => None,
                },
            ),
            Argument::Array(a) => ArgV::Array(a@),
            Argument::Object(o) => ArgV::Object(*o),
            Argument::NewId(o) => ArgV::NewId(*o),
            Argument::Fd(f) => ArgV::Fd(*f),
        }
    }
}

/// A message: the object it is sent by or to, its opcode, its arguments.
#[derive(Clone, Debug, PartialEq, Eq)]
pub struct Message {
    pub sender_id: u32,
    pub opcode: u16,
    pub args: Vec<Argument>,
}

/// Mathematical value of a message.
pub struct MessageV {
    pub sender_id: u32,
    pub opcode: u16,
    pub args: Seq<ArgV>,
}

pub open spec fn args_view(args: Seq<Argument>) -> Seq<ArgV> {
    args.map_values(|a: Argument| a@)
}

impl View for Message {
    type V = MessageV;

    open spec fn view(&self) -> MessageV {
        MessageV { sender_id: self.sender_id, opcode: self.opcode, args: args_view(self.args@) }
    }
}

/// Why bytes could not be read as a message.
#[derive(Clone, Copy, Debug, PartialEq, Eq, Structural)]
pub enum MessageParseError {
    /// The message is not complete yet: more bytes are needed.
    MissingData,
    /// The message needs more file descriptors than were received.
    MissingFd,
    /// The bytes do not form a message of the expected signature.
    Malformed,
}

/// Largest total length a message header can state.
pub const MAX_MESSAGE_LEN: usize = 0xffff;

/// The four little-endian bytes of a word.
pub open spec fn word(x: u32) -> Seq<u8> {
    seq![(x & 0xff) as u8, ((x >> 8u32) & 0xff) as u8, ((x >> 16u32) & 0xff) as u8, ((x >> 24u32) & 0xff) as u8]
}

/// The word whose little-endian bytes start at `i`.
pub open spec fn word_at(b: Seq<u8>, i: int) -> u32 {
    (b[i] as u32) | ((b[i + 1] as u32) << 8u32) | ((b[i + 2] as u32) << 16u32) | ((b[i + 3] as u32) << 24u32)
}

/// Number of zero bytes that bring `n` bytes to a 4-byte boundary.
pub open spec fn padding(n: nat) -> nat {
    ((4 - (n % 4) as int) % 4) as nat
}

pub open spec fn zeros(n: nat) -> Seq<u8> {
    Seq::new(n, |i: int| 0u8)
}

/// The inline bytes of one argument.
pub open spec fn arg_bytes(a: ArgV) -> Seq<u8> {
    match a {
        ArgV::Int(i) => word(i as u32),
        ArgV::Uint(u) => word(u),
        ArgV::Fixed(f) => word(f as u32),
        ArgV::Str(None) => word(0),
        ArgV::Str(Some(s)) => word((s.len() + 1) as u32) + s + seq![0u8] + zeros(padding(s.len() + 1)),
        ArgV::Array(b) => word(b.len() as u32) + b + zeros(padding(b.len())),
        ArgV::Object(id) => word(id),
        ArgV::NewId(id) => word(id),
        ArgV::Fd(_) => Seq::empty(),
    }
}

/// The file descriptors one argument sends beside the bytes.
pub open spec fn arg_fds(a: ArgV) -> Seq<i32> {
    match a {
        ArgV::Fd(f) => seq![f],
        _ => Seq::empty(),
    }
}

/// The inline bytes of a list of arguments.
pub open spec fn args_bytes(args: Seq<ArgV>) -> Seq<u8>
    decreases args.len(),
{
    if args.len() == 0 {
        Seq::empty()
    } else {
        args_bytes(args.drop_last()) + arg_bytes(args.last())
    }
}

/// The file descriptors a list of arguments sends, in argument order.
pub open spec fn args_fds(args: Seq<ArgV>) -> Seq<i32>
    decreases args.len(),
{
    if args.len() == 0 {
        Seq::empty()
    } else {
        args_fds(args.drop_last()) + arg_fds(args.last())
    }
}

/// The bytes of a whole message.
pub open spec fn message_bytes(m: MessageV) -> Seq<u8> {
    let payload = args_bytes(m.args);
    word(m.sender_id) + word(((8 + payload.len()) * 65536 + m.opcode) as u32) + payload
}

/// Number of file-descriptor arguments in a signature.
pub open spec fn fd_count(sig: Seq<ArgumentType>) -> nat
    decreases sig.len(),
{
    if sig.len() == 0 {
        0
    } else {
        fd_count(sig.drop_last()) + if sig.last() == ArgumentType::Fd { 1nat } else { 0nat }
    }
}

/// Reads one argument of type `t` at the start of `b`: the argument, the
/// number of bytes and the number of file descriptors it takes.
pub open spec fn parse_arg(b: Seq<u8>, t: ArgumentType, fds: Seq<i32>) -> Result<(ArgV, nat, nat), MessageParseError> {
    if t == ArgumentType::Fd {
        if fds.len() == 0 {
            Err(MessageParseError::MissingFd)
        } else {
            Ok((ArgV::Fd(fds[0]), 0, 1))
        }
    } else if b.len() < 4 {
        Err(MessageParseError::Malformed)
    } else {
        let w = word_at(b, 0);
        match t {
            ArgumentType::Int => Ok((ArgV::Int(w as i32), 4, 0)),
            ArgumentType::Uint => Ok((ArgV::Uint(w), 4, 0)),
            ArgumentType::Fixed => Ok((ArgV::Fixed(w as i32), 4, 0)),
            ArgumentType::Object(nullable) => if w == 0 && !nullable {
                Err(MessageParseError::Malformed)
            } else {
                Ok((ArgV::Object(w), 4, 0))
            },
            ArgumentType::TypedObject(nullable, _) => if w == 0 && !nullable {
                Err(MessageParseError::Malformed)
            } else {
                Ok((ArgV::Object(w), 4, 0))
            },
            ArgumentType::NewId => if w == 0 {
                Err(MessageParseError::Malformed)
            } else {
                Ok((ArgV::NewId(w), 4, 0))
            },
            ArgumentType::Str(nullable) => if w == 0 {
                if nullable {
                    Ok((ArgV::Str(None), 4, 0))
                } else {
                    Err(MessageParseError::Malformed)
                }
            } else {
                let total = 4 + w + padding(w as nat);
                if b.len() < total || b[4 + w - 1] != 0 {
                    Err(MessageParseError::Malformed)
                } else {
                    Ok((ArgV::Str(Some(b.subrange(4, 4 + w - 1))), total as nat, 0))
                }
            },
            _ => {
                let total = 4 + w + padding(w as nat);
                if b.len() < total {
                    Err(MessageParseError::Malformed)
                } else {
                    Ok((ArgV::Array(b.subrange(4, 4 + w)), total as nat, 0))
                }
            },
        }
    }
}

/// Reads arguments of the given signature that fill `b` exactly.
pub open spec fn parse_args(b: Seq<u8>, sig: Seq<ArgumentType>, fds: Seq<i32>) -> Result<Seq<ArgV>, MessageParseError>
    decreases sig.len(),
{
    if sig.len() == 0 {
        if b.len() == 0 {
            Ok(Seq::empty())
        } else {
            Err(MessageParseError::Malformed)
        }
    } else {
        match parse_arg(b, sig[0], fds) {
            Err(e) => Err(e),
            Ok((a, nb, nf)) => match parse_args(b.skip(nb as int), sig.skip(1), fds.skip(nf as int)) {
                Err(e) => Err(e),
                Ok(rest) => Ok(seq![a] + rest),
            },
        }
    }
}

/// Reads one message at the start of `b`, taking the signature of its opcode
/// from `sigs`: the message, the number of bytes and the number of file
/// descriptors it takes.
pub open spec fn parse_message(b: Seq<u8>, sigs: Seq<Seq<ArgumentType>>, fds: Seq<i32>) -> Result<(MessageV, nat, nat), MessageParseError> {
    if b.len() < 8 {
        Err(MessageParseError::MissingData)
    } else {
        let sender_id = word_at(b, 0);
        let w = word_at(b, 4);
        let len = w / 65536;
        let opcode = w % 65536;
        if len < 8 || len % 4 != 0 || opcode >= sigs.len() {
            Err(MessageParseError::Malformed)
        } else if b.len() < len {
            Err(MessageParseError::MissingData)
        } else {
            match parse_args(b.subrange(8, len as int), sigs[opcode as int], fds) {
                Err(e) => Err(e),
                Ok(args) => Ok((MessageV { sender_id, opcode: opcode as u16, args }, len as nat, fd_count(sigs[opcode as int]))),
            }
        }
    }
}

} // verus!

verus! {

/// `p` in front of the arguments of a successful parse; errors pass through.
pub open spec fn prefixed(p: Seq<ArgV>, r: Result<Seq<ArgV>, MessageParseError>) -> Result<Seq<ArgV>, MessageParseError> {
    match r {
        Ok(rest) => Ok(p + rest),
        Err(e) => Err(e),
    }
}

pub open spec fn sigs_view(sigs: Seq<Vec<ArgumentType>>) -> Seq<Seq<ArgumentType>> {
    sigs.map_values(|s: Vec<ArgumentType>| s@)
}

fn read_word(b: &[u8], pos: usize) -> (r: u32)
    requires
        pos + 4 <= b@.len(),
    ensures
        r == word_at(b@, pos as int),
{
    (b[pos] as u32) | ((b[pos + 1] as u32) << 8u32) | ((b[pos + 2] as u32) << 16u32) | ((b[pos + 3] as u32) << 24u32)
}

fn copy_range(b: &[u8], start: usize, end: usize) -> (r: Vec<u8>)
    requires
        start <= end <= b@.len(),
    ensures
        r@ == b@.subrange(start as int, end as int),
{
    let mut r: Vec<u8> = Vec::new();
    let mut i: usize = start;
    while i < end
        invariant
            start <= i <= end <= b@.len(),
            r@ == b@.subrange(start as int, i as int),
        decreases end - i,
    {
        r.push(b[i]);
        i = i + 1;
        assert(r@ =~= b@.subrange(start as int, i as int));
    }
    r
}

proof fn lemma_fd_count_step(sig: Seq<ArgumentType>, i: int)
    requires
        0 <= i < sig.len(),
    ensures
        fd_count(sig.take(i + 1)) == fd_count(sig.take(i)) + if sig[i] == ArgumentType::Fd { 1nat } else { 0nat },
{
    assert(sig.take(i + 1).drop_last() =~= sig.take(i));
}

/// Reads the arguments of signature `sig` that fill `b[start..end]` exactly,
/// taking file descriptors from the front of `fds`. On success also returns
/// how many file descriptors were taken.
fn decode_args(b: &[u8], start: usize, end: usize, sig: &Vec<ArgumentType>, fds: &[i32], fstart: usize) -> (r: Result<(Vec<Argument>, usize), MessageParseError>)
    requires
        start <= end <= b@.len(),
        fstart <= fds@.len(),
    ensures
        match r {
            Ok((args, nf)) => parse_args(b@.subrange(start as int, end as int), sig@, fds@.skip(fstart as int)) == Ok::<Seq<ArgV>, MessageParseError>(args_view(args@))
                && nf == fd_count(sig@) && fstart + nf <= fds@.len(),
            Err(e) => parse_args(b@.subrange(start as int, end as int), sig@, fds@.skip(fstart as int)) == Err::<Seq<ArgV>, MessageParseError>(e),
        },
{
    let mut acc: Vec<Argument> = Vec::new();
    let mut pos: usize = start;
    let mut fi: usize = fstart;
    let mut i: usize = 0;
    proof {
        let r0 = parse_args(b@.subrange(start as int, end as int), sig@, fds@.skip(fstart as int));
        assert(sig@.skip(0) =~= sig@);
        assert(args_view(acc@) =~= Seq::<ArgV>::empty());
        match r0 {
            Ok(rest) => {
                assert(Seq::<ArgV>::empty() + rest =~= rest);
            },
            Err(e) => {},
        }
    }
    while i < sig.len()
        invariant
            start <= pos <= end <= b@.len(),
            fstart <= fi <= fds@.len(),
            i <= sig@.len(),
            fi - fstart == fd_count(sig@.take(i as int)),
            prefixed(args_view(acc@), parse_args(b@.subrange(pos as int, end as int), sig@.skip(i as int), fds@.skip(fi as int)))
                == parse_args(b@.subrange(start as int, end as int), sig@, fds@.skip(fstart as int)),
        decreases sig@.len() - i,
    {
        let ghost cur = b@.subrange(pos as int, end as int);
        let ghost curf = fds@.skip(fi as int);
        let ghost before = args_view(acc@);
        let t = sig[i];
        assert(sig@.skip(i as int)[0] == t);
        assert(sig@.skip(i as int).skip(1) =~= sig@.skip(i as int + 1));
        proof { lemma_fd_count_step(sig@, i as int); }
        let arg: Argument;
        let nb: usize;
        let nf: usize;
        if t == ArgumentType::Fd {
            if fi >= fds.len() {
                return Err(MessageParseError::MissingFd);
            }
            arg = Argument::Fd(fds[fi]);
            nb = 0;
            nf = 1;
        } else {
            if end - pos < 4 {
                return Err(MessageParseError::Malformed);
            }
            let w = read_word(b, pos);
            assert(word_at(cur, 0) == w);
            match t {
                ArgumentType::Int => {
                    arg = Argument::Int(#[verifier::truncate] (w as i32));
                    nb = 4;
                },
                ArgumentType::Uint => {
                    arg = Argument::Uint(w);
                    nb = 4;
                },
                ArgumentType::Fixed => {
                    arg = Argument::Fixed(#[verifier::truncate] (w as i32));
                    nb = 4;
                },
                ArgumentType::Object(nullable) => {
                    if w == 0 && !nullable {
                        return Err(MessageParseError::Malformed);
                    }
                    arg = Argument::Object(w);
                    nb = 4;
                },
                ArgumentType::TypedObject(nullable, _) => {
                    if w == 0 && !nullable {
                        return Err(MessageParseError::Malformed);
                    }
                    arg = Argument::Object(w);
                    nb = 4;
                },
                ArgumentType::NewId => {
                    if w == 0 {
                        return Err(MessageParseError::Malformed);
                    }
                    arg = Argument::NewId(w);
                    nb = 4;
                },
                ArgumentType::Str(nullable) => {
                    if w == 0 {
                        if !nullable {
                            return Err(MessageParseError::Malformed);
                        }
                        arg = Argument::Str(None);
                        nb = 4;
                    } else {
                        let total: u64 = 4 + w as u64 + (4 - (w as u64 % 4)) % 4;
                        if ((end - pos) as u64) < total {
                            return Err(MessageParseError::Malformed);
                        }
                        let last = pos + 4 + w as usize - 1;
                        assert(cur[4 + w - 1] == b@[last as int]);
                        if b[last] != 0 {
                            return Err(MessageParseError::Malformed);
                        }
                        let s = copy_range(b, pos + 4, last);
                        assert(s@ =~= cur.subrange(4, 4 + w - 1));
                        arg = Argument::Str(Some(s));
                        nb = total as usize;
                    }
                },
                _ => {
                    let total: u64 = 4 + w as u64 + (4 - (w as u64 % 4)) % 4;
                    if ((end - pos) as u64) < total {
                        return Err(MessageParseError::Malformed);
                    }
                    let a = copy_range(b, pos + 4, pos + 4 + w as usize);
                    assert(a@ =~= cur.subrange(4, 4 + w));
                    arg = Argument::Array(a);
                    nb = total as usize;
                },
            }
            nf = 0;
        }
        assert(parse_arg(cur, t, curf) == Ok::<(ArgV, nat, nat), MessageParseError>((arg@, nb as nat, nf as nat)));
        assert(cur.skip(nb as int) =~= b@.subrange(pos + nb, end as int));
        assert(curf.skip(nf as int) =~= fds@.skip(fi + nf));
        acc.push(arg);
        assert(args_view(acc@) =~= before.push(arg@));
        let ghost r = parse_args(b@.subrange(pos + nb, end as int), sig@.skip(i + 1), fds@.skip(fi + nf));
        assert(prefixed(before, prefixed(seq![arg@], r)) == prefixed(before.push(arg@), r)) by {
            match r {
                Ok(rest) => {
                    assert(before + (seq![arg@] + rest) =~= before.push(arg@) + rest);
                },
                Err(e) => {},
            }
        }
        pos = pos + nb;
        fi = fi + nf;
        i = i + 1;
    }
    assert(sig@.take(i as int) =~= sig@);
    if pos != end {
        return Err(MessageParseError::Malformed);
    }
    assert(args_view(acc@) + Seq::<ArgV>::empty() =~= args_view(acc@));
    Ok((acc, fi - fstart))
}

/// Reads one message at `b[start..]`, taking file descriptors from
/// `fds[fstart..]`; see `decode_message`.
pub fn decode_message_at(b: &[u8], start: usize, sigs: &Vec<Vec<ArgumentType>>, fds: &[i32], fstart: usize) -> (r: Result<(Message, usize, usize), MessageParseError>)
    requires
        start <= b@.len(),
        fstart <= fds@.len(),
    ensures
        match r {
            Ok((m, n, nf)) => parse_message(b@.skip(start as int), sigs_view(sigs@), fds@.skip(fstart as int))
                == Ok::<(MessageV, nat, nat), MessageParseError>((m@, n as nat, nf as nat))
                && 8 <= n && start + n <= b@.len() && fstart + nf <= fds@.len(),
            Err(e) => parse_message(b@.skip(start as int), sigs_view(sigs@), fds@.skip(fstart as int))
                == Err::<(MessageV, nat, nat), MessageParseError>(e),
        },
{
    let ghost c = b@.skip(start as int);
    if b.len() - start < 8 {
        return Err(MessageParseError::MissingData);
    }
    let sender_id = read_word(b, start);
    let w = read_word(b, start + 4);
    assert(word_at(c, 0) == sender_id);
    assert(word_at(c, 4) == w);
    let len = w / 65536;
    let opcode = w % 65536;
    if len < 8 || len % 4 != 0 || opcode as usize >= sigs.len() {
        return Err(MessageParseError::Malformed);
    }
    if b.len() - start < len as usize {
        return Err(MessageParseError::MissingData);
    }
    let sig = &sigs[opcode as usize];
    assert(sigs_view(sigs@)[opcode as int] == sig@);
    assert(b@.subrange(start + 8, start + len) =~= c.subrange(8, len as int));
    match decode_args(b, start + 8, start + len as usize, sig, fds, fstart) {
        Err(e) => Err(e),
        Ok((args, nf)) => {
            let m = Message { sender_id, opcode: opcode as u16, args };
            Ok((m, len as usize, nf))
        },
    }
}

/// Reads one message at the start of `b`. The signature of each opcode stands
/// in `sigs`; file descriptors are taken from the front of `fds`. On success
/// returns the message, the number of bytes and the number of file descriptors
/// it took. `MissingData` means that the message is not complete yet.
pub fn decode_message(b: &[u8], sigs: &Vec<Vec<ArgumentType>>, fds: &[i32]) -> (r: Result<(Message, usize, usize), MessageParseError>)
    ensures
        match r {
            Ok((m, n, nf)) => parse_message(b@, sigs_view(sigs@), fds@) == Ok::<(MessageV, nat, nat), MessageParseError>((m@, n as nat, nf as nat)),
            Err(e) => parse_message(b@, sigs_view(sigs@), fds@) == Err::<(MessageV, nat, nat), MessageParseError>(e),
        },
{
    assert(b@.skip(0) =~= b@);
    assert(fds@.skip(0) =~= fds@);
    decode_message_at(b, 0, sigs, fds, 0)
}

} // verus!

verus! {

fn push_word(out: &mut Vec<u8>, x: u32)
    ensures
        final(out)@ == old(out)@ + word(x),
{
    out.push((x & 0xff) as u8);
    out.push(((x >> 8u32) & 0xff) as u8);
    out.push(((x >> 16u32) & 0xff) as u8);
    out.push(((x >> 24u32) & 0xff) as u8);
    assert(final(out)@ =~= old(out)@ + word(x));
}

fn push_bytes(out: &mut Vec<u8>, s: &Vec<u8>)
    ensures
        final(out)@ == old(out)@ + s@,
{
    let mut i: usize = 0;
    while i < s.len()
        invariant
            i <= s@.len(),
            out@ == old(out)@ + s@.take(i as int),
        decreases s@.len() - i,
    {
        out.push(s[i]);
        i = i + 1;
        assert(out@ =~= old(out)@ + s@.take(i as int));
    }
    assert(s@.take(i as int) =~= s@);
}

fn push_zeros(out: &mut Vec<u8>, n: usize)
    ensures
        final(out)@ == old(out)@ + zeros(n as nat),
{
    let mut i: usize = 0;
    while i < n
        invariant
            i <= n,
            out@ == old(out)@ + zeros(i as nat),
        decreases n - i,
    {
        out.push(0u8);
        i = i + 1;
        assert(out@ =~= old(out)@ + zeros(i as nat));
    }
}

proof fn lemma_args_bytes_prefix_len(a: Seq<ArgV>, j: int)
    requires
        0 <= j <= a.len(),
    ensures
        args_bytes(a.take(j)).len() <= args_bytes(a).len(),
    decreases a.len(),
{
    if j == a.len() {
        assert(a.take(j) =~= a);
    } else {
        assert(a.drop_last().take(j) =~= a.take(j));
        lemma_args_bytes_prefix_len(a.drop_last(), j);
    }
}

proof fn lemma_args_step(a: Seq<ArgV>, i: int)
    requires
        0 <= i < a.len(),
    ensures
        args_bytes(a.take(i + 1)) == args_bytes(a.take(i)) + arg_bytes(a[i]),
        args_fds(a.take(i + 1)) == args_fds(a.take(i)) + arg_fds(a[i]),
{
    assert(a.take(i + 1).drop_last() =~= a.take(i));
}

/// Writes a message: its bytes and the file descriptors to send beside them.
/// `None` where the message would be longer than its header can state.
pub fn encode_message(m: &Message) -> (r: Option<(Vec<u8>, Vec<i32>)>)
    ensures
        r is Some <==> 8 + args_bytes(m@.args).len() <= MAX_MESSAGE_LEN,
        r matches Some((bytes, fds)) ==> bytes@ == message_bytes(m@) && fds@ == args_fds(m@.args),
{
    let ghost av = m@.args;
    let mut payload: Vec<u8> = Vec::new();
    let mut fds: Vec<i32> = Vec::new();
    let mut i: usize = 0;
    while i < m.args.len()
        invariant
            i <= m.args@.len(),
            av == args_view(m.args@),
            payload@ == args_bytes(av.take(i as int)),
            fds@ == args_fds(av.take(i as int)),
        decreases m.args@.len() - i,
    {
        proof { lemma_args_step(av, i as int); }
        assert(av[i as int] == m.args@[i as int]@);
        match &m.args[i] {
            Argument::Int(x) => push_word(&mut payload, *x as u32),
            Argument::Uint(x) => push_word(&mut payload, *x),
            Argument::Fixed(x) => push_word(&mut payload, *x as u32),
            Argument::Str(None) => push_word(&mut payload, 0),
            Argument::Str(Some(s)) => {
                if s.len() >= MAX_MESSAGE_LEN {
                    proof { lemma_args_bytes_prefix_len(av, i + 1); }
                    return None;
                }
                let n = s.len() + 1;
                push_word(&mut payload, n as u32);
                push_bytes(&mut payload, s);
                payload.push(0u8);
                push_zeros(&mut payload, (4 - n % 4) % 4);
            },
            Argument::Array(a) => {
                if a.len() >= MAX_MESSAGE_LEN {
                    proof { lemma_args_bytes_prefix_len(av, i + 1); }
                    return None;
                }
                push_word(&mut payload, a.len() as u32);
                push_bytes(&mut payload, a);
                push_zeros(&mut payload, (4 - a.len() % 4) % 4);
            },
            Argument::Object(x) => push_word(&mut payload, *x),
            Argument::NewId(x) => push_word(&mut payload, *x),
            Argument::Fd(f) => fds.push(*f),
        }
        assert(payload@ =~= args_bytes(av.take(i as int)) + arg_bytes(av[i as int]));
        assert(fds@ =~= args_fds(av.take(i as int)) + arg_fds(av[i as int]));
        i = i + 1;
    }
    assert(av.take(i as int) =~= av);
    if payload.len() > MAX_MESSAGE_LEN - 8 {
        return None;
    }
    let total = payload.len() + 8;
    let mut out: Vec<u8> = Vec::new();
    push_word(&mut out, m.sender_id);
    push_word(&mut out, (total as u32) * 65536 + m.opcode as u32);
    push_bytes(&mut out, &payload);
    assert(out@ =~= message_bytes(m@));
    Some((out, fds))
}

} // verus!

verus! {

/// Whether an argument can be sent as an argument of type `t`: its kind
/// matches, a null value only where `t` allows it, and lengths that a message
/// header can hold.
pub open spec fn arg_conforms(a: ArgV, t: ArgumentType) -> bool {
    match (a, t) {
        (ArgV::Int(_), ArgumentType::Int) => true,
        (ArgV::Uint(_), ArgumentType::Uint) => true,
        (ArgV::Fixed(_), ArgumentType::Fixed) => true,
        (ArgV::Str(None), ArgumentType::Str(nullable)) => nullable,
        (ArgV::Str(Some(s)), ArgumentType::Str(_)) => s.len() < MAX_MESSAGE_LEN,
        (ArgV::Array(b), ArgumentType::Array) => b.len() < MAX_MESSAGE_LEN,
        (ArgV::Object(id), ArgumentType::Object(nullable)) => id != 0 || nullable,
        (ArgV::Object(id), ArgumentType::TypedObject(nullable, _)) => id != 0 || nullable,
        (ArgV::NewId(id), ArgumentType::NewId) => id != 0,
        (ArgV::Fd(_), ArgumentType::Fd) => true,
        _ => false,
    }
}

/// Whether a list of arguments fits a signature, argument by argument.
pub open spec fn conforms(args: Seq<ArgV>, sig: Seq<ArgumentType>) -> bool {
    &&& args.len() == sig.len()
    &&& forall|i: int| 0 <= i < args.len() ==> #[trigger] arg_conforms(args[i], sig[i])
}

proof fn lemma_word(pre: Seq<u8>, x: u32, rest: Seq<u8>)
    ensures
        word_at(pre + word(x) + rest, pre.len() as int) == x,
{
    let b = pre + word(x) + rest;
    let n = pre.len() as int;
    assert(b[n] == word(x)[0]);
    assert(b[n + 1] == word(x)[1]);
    assert(b[n + 2] == word(x)[2]);
    assert(b[n + 3] == word(x)[3]);
    assert(((((x & 0xff) as u8) as u32) | (((((x >> 8u32) & 0xff) as u8) as u32) << 8u32) | (((((x >> 16u32) & 0xff) as u8) as u32) << 16u32)
        | (((((x >> 24u32) & 0xff) as u8) as u32) << 24u32)) == x) by (bit_vector);
}

proof fn lemma_args_front(a: Seq<ArgV>)
    requires
        a.len() > 0,
    ensures
        args_bytes(a) == arg_bytes(a[0]) + args_bytes(a.skip(1)),
        args_fds(a) == arg_fds(a[0]) + args_fds(a.skip(1)),
    decreases a.len(),
{
    if a.len() == 1 {
        assert(a.drop_last() =~= Seq::<ArgV>::empty());
        assert(a.skip(1) =~= Seq::<ArgV>::empty());
        assert(args_bytes(a) =~= arg_bytes(a[0]) + args_bytes(a.skip(1)));
        assert(args_fds(a) =~= arg_fds(a[0]) + args_fds(a.skip(1)));
    } else {
        lemma_args_front(a.drop_last());
        assert(a.skip(1).drop_last() =~= a.drop_last().skip(1));
        assert(a.skip(1).last() == a.last());
        assert(args_bytes(a) =~= arg_bytes(a[0]) + args_bytes(a.skip(1)));
        assert(args_fds(a) =~= arg_fds(a[0]) + args_fds(a.skip(1)));
    }
}

proof fn lemma_args_bytes_aligned(a: Seq<ArgV>)
    ensures
        args_bytes(a).len() % 4 == 0,
    decreases a.len(),
{
    if a.len() > 0 {
        lemma_args_bytes_aligned(a.drop_last());
    }
}

proof fn lemma_fd_count(args: Seq<ArgV>, sig: Seq<ArgumentType>)
    requires
        conforms(args, sig),
    ensures
        fd_count(sig) == args_fds(args).len(),
    decreases args.len(),
{
    if args.len() > 0 {
        let n = args.len() - 1;
        assert(arg_conforms(args[n], sig[n]));
        assert forall|i: int| 0 <= i < args.drop_last().len() implies #[trigger] arg_conforms(args.drop_last()[i], sig.drop_last()[i]) by {
            assert(arg_conforms(args[i], sig[i]));
        }
        lemma_fd_count(args.drop_last(), sig.drop_last());
    }
}

#[verifier::rlimit(60)]
proof fn lemma_arg_round_trip(a: ArgV, t: ArgumentType, rest: Seq<u8>, fds: Seq<i32>)
    requires
        arg_conforms(a, t),
    ensures
        parse_arg(arg_bytes(a) + rest, t, arg_fds(a) + fds)
            == Ok::<(ArgV, nat, nat), MessageParseError>((a, arg_bytes(a).len(), arg_fds(a).len())),
{
    let b = arg_bytes(a) + rest;
    let e = Seq::<u8>::empty();
    match a {
        ArgV::Int(i) => {
            lemma_word(e, i as u32, rest);
            assert(e + word(i as u32) + rest =~= b);
            assert(((i as u32) as i32) == i) by (bit_vector);
        },
        ArgV::Uint(u) => {
            lemma_word(e, u, rest);
            assert(e + word(u) + rest =~= b);
        },
        ArgV::Fixed(i) => {
            lemma_word(e, i as u32, rest);
            assert(e + word(i as u32) + rest =~= b);
            assert(((i as u32) as i32) == i) by (bit_vector);
        },
        ArgV::Str(None) => {
            lemma_word(e, 0, rest);
            assert(e + word(0) + rest =~= b);
        },
        ArgV::Str(Some(s)) => {
            let w = (s.len() + 1) as u32;
            let tail = s + seq![0u8] + zeros(padding(s.len() + 1)) + rest;
            lemma_word(e, w, tail);
            assert(e + word(w) + tail =~= b);
            assert(b.subrange(4, 4 + w - 1) =~= s);
            assert(b[4 + w - 1] == 0);
        },
        ArgV::Array(x) => {
            let w = x.len() as u32;
            let tail = x + zeros(padding(x.len())) + rest;
            lemma_word(e, w, tail);
            assert(e + word(w) + tail =~= b);
            assert(b.subrange(4, 4 + w) =~= x);
        },
        ArgV::Object(id) => {
            lemma_word(e, id, rest);
            assert(e + word(id) + rest =~= b);
        },
        ArgV::NewId(id) => {
            lemma_word(e, id, rest);
            assert(e + word(id) + rest =~= b);
        },
        ArgV::Fd(f) => {
            assert((arg_fds(a) + fds)[0] == f);
        },
    }
}

proof fn lemma_args_round_trip(args: Seq<ArgV>, sig: Seq<ArgumentType>, fds: Seq<i32>)
    requires
        conforms(args, sig),
    ensures
        parse_args(args_bytes(args), sig, args_fds(args) + fds) == Ok::<Seq<ArgV>, MessageParseError>(args),
    decreases args.len(),
{
    if args.len() == 0 {
        assert(args_bytes(args) =~= Seq::<u8>::empty());
        assert(args =~= Seq::<ArgV>::empty());
    } else {
        lemma_args_front(args);
        let tail = args.skip(1);
        let tsig = sig.skip(1);
        assert(arg_conforms(args[0], sig[0]));
        assert forall|i: int| 0 <= i < tail.len() implies #[trigger] arg_conforms(tail[i], tsig[i]) by {
            assert(arg_conforms(args[i + 1], sig[i + 1]));
        }
        let f = args_fds(args) + fds;
        assert(f =~= arg_fds(args[0]) + (args_fds(tail) + fds));
        lemma_arg_round_trip(args[0], sig[0], args_bytes(tail), args_fds(tail) + fds);
        let nb = arg_bytes(args[0]).len() as int;
        let nf = arg_fds(args[0]).len() as int;
        assert(args_bytes(args).skip(nb) =~= args_bytes(tail));
        assert(f.skip(nf) =~= args_fds(tail) + fds);
        lemma_args_round_trip(tail, tsig, fds);
        assert(seq![args[0]] + tail =~= args);
    }
}

/// Reading back what `encode_message` wrote gives the message itself, however
/// its arguments are combined, null strings and null object references
/// included: the message's own bytes are consumed exactly, along with exactly
/// its own file descriptors, whatever follows in the stream.
pub proof fn lemma_decode_encode(m: MessageV, sigs: Seq<Seq<ArgumentType>>, rest: Seq<u8>, fds: Seq<i32>)
    requires
        (m.opcode as int) < sigs.len(),
        conforms(m.args, sigs[m.opcode as int]),
        8 + args_bytes(m.args).len() <= MAX_MESSAGE_LEN,
    ensures
        parse_message(message_bytes(m) + rest, sigs, args_fds(m.args) + fds)
            == Ok::<(MessageV, nat, nat), MessageParseError>((m, message_bytes(m).len(), args_fds(m.args).len())),
{
    let payload = args_bytes(m.args);
    let len = 8 + payload.len();
    let h = (len * 65536 + m.opcode) as u32;
    let b = message_bytes(m) + rest;
    let e = Seq::<u8>::empty();
    lemma_word(e, m.sender_id, word(h) + payload + rest);
    assert(e + word(m.sender_id) + (word(h) + payload + rest) =~= b);
    lemma_word(word(m.sender_id), h, payload + rest);
    assert(word(m.sender_id) + word(h) + (payload + rest) =~= b);
    assert(h as int == len * 65536 + m.opcode);
    assert(h / 65536 == len && h % 65536 == m.opcode) by (nonlinear_arith)
        requires
            h as int == len * 65536 + m.opcode,
            0 <= m.opcode < 65536,
    ;
    lemma_args_bytes_aligned(m.args);
    assert(b.subrange(8, len as int) =~= payload);
    lemma_args_round_trip(m.args, sigs[m.opcode as int], fds);
    lemma_fd_count(m.args, sigs[m.opcode as int]);
}

} // verus!
