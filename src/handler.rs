//! The per-connection decisions: which transports a protocol and role use,
//! the handshake exchange, and the relay between the two sides.
use vstd::prelude::*;
use vstd::string::StringSliceAdditionalSpecFns;

use std::sync::Arc;

use crate::args::{Commands, CustomHandshake};
use crate::cipher::Cipher;
use crate::bytes::bytes_eq;
use crate::copy::{add_sat, CopyBuffer, CopyStep};
use crate::stream::{transformed_range, Mode};

verus! {

/// One side of a relayed connection.
#[derive(Debug, Clone, Copy, PartialEq, Eq, Structural)]
pub enum Side {
    /// The side that connected to the listen address.
    Peer,
    /// The side this service connected to on the peer's behalf.
    Remote,
}

impl Side {
    pub open spec fn spec_other(self) -> Side {
        match self {
            Side::Peer => Side::Remote,
            Side::Remote => Side::Peer,
        }
    }

    /// The opposite side.
    pub fn other(self) -> (r: Side)
        ensures
            r == self.spec_other(),
    {
        match self {
            Side::Peer => Side::Remote,
            Side::Remote => Side::Peer,
        }
    }
}

/// The wire protocol.
#[derive(Debug, Clone, Copy, PartialEq, Eq, Structural)]
pub enum Protocol {
    Udp,
    Tcp,
    /// UDP datagrams framed over a TCP stream.
    Uot,
}

/// How peers are accepted.
#[derive(Debug, Clone, Copy, PartialEq, Eq, Structural)]
pub enum ListenKind {
    /// A UDP pseudo-listener; accepting reads the peer's first datagram.
    Udp,
    /// A TCP listener, with Nagle's algorithm off on each accepted stream.
    Tcp,
}

/// How the remote side is reached.
#[derive(Debug, Clone, Copy, PartialEq, Eq, Structural)]
pub enum DialKind {
    /// A UDP pseudo-connection from an unspecified local address.
    Udp,
    /// A TCP connection, with Nagle's algorithm off.
    Tcp,
}

/// The transports of one protocol and role. A framed side carries UDP
/// datagrams over TCP, and is framed only after the handshake.
#[derive(Debug, Clone, Copy, PartialEq, Eq, Structural)]
pub struct ConnectionPlan {
    pub listen: ListenKind,
    pub dial: DialKind,
    pub peer_framed: bool,
    pub remote_framed: bool,
}

/// The bytes of a protocol's name.
pub open spec fn protocol_name(p: Protocol) -> Seq<u8> {
    match p {
        Protocol::Udp => seq![0x75u8, 0x64u8, 0x70u8],
        Protocol::Tcp => seq![0x74u8, 0x63u8, 0x70u8],
        Protocol::Uot => seq![0x75u8, 0x6fu8, 0x74u8],
    }
}

impl Protocol {
    /// Reads a protocol name: `udp`, `tcp` or `uot`.
    pub fn parse(name: &str) -> (r: Option<Protocol>)
        ensures
            match r {
                Some(p) => name.spec_bytes() == protocol_name(p),
                None => forall|p: Protocol| name.spec_bytes() != #[trigger] protocol_name(p),
            },
    {
        let b = name.as_bytes();
        let udp: [u8; 3] = [0x75, 0x64, 0x70];
        let tcp: [u8; 3] = [0x74, 0x63, 0x70];
        let uot: [u8; 3] = [0x75, 0x6f, 0x74];
        let udp = udp.as_slice();
        assert(udp@ == protocol_name(Protocol::Udp));
        let tcp = tcp.as_slice();
        assert(tcp@ == protocol_name(Protocol::Tcp));
        let uot = uot.as_slice();
        assert(uot@ == protocol_name(Protocol::Uot));
        if bytes_eq(b, udp) {
            Some(Protocol::Udp)
        } else if bytes_eq(b, tcp) {
            Some(Protocol::Tcp)
        } else if bytes_eq(b, uot) {
            Some(Protocol::Uot)
        } else {
            assert forall|p: Protocol| b@ != #[trigger] protocol_name(p) by {
                match p {
                    Protocol::Udp => {},
                    Protocol::Tcp => {},
                    Protocol::Uot => {},
                }
            }
            None
        }
    }
}

/// The transports that `protocol` uses in `role`.
pub fn plan(protocol: Protocol, role: Commands) -> (r: ConnectionPlan)
    ensures
        r.listen == (if protocol == Protocol::Tcp || (protocol == Protocol::Uot && role == Commands::Server) {
            ListenKind::Tcp
        } else {
            ListenKind::Udp
        }),
        r.dial == (if protocol == Protocol::Tcp || (protocol == Protocol::Uot && role == Commands::Client) {
            DialKind::Tcp
        } else {
            DialKind::Udp
        }),
        r.peer_framed == (protocol == Protocol::Uot && role == Commands::Server),
        r.remote_framed == (protocol == Protocol::Uot && role == Commands::Client),
{
    match protocol {
        Protocol::Udp => ConnectionPlan {
            listen: ListenKind::Udp,
            dial: DialKind::Udp,
            peer_framed: false,
            remote_framed: false,
        },
        Protocol::Tcp => ConnectionPlan {
            listen: ListenKind::Tcp,
            dial: DialKind::Tcp,
            peer_framed: false,
            remote_framed: false,
        },
        Protocol::Uot => match role {
            Commands::Client => ConnectionPlan {
                listen: ListenKind::Udp,
                dial: DialKind::Tcp,
                peer_framed: false,
                remote_framed: true,
            },
            Commands::Server => ConnectionPlan {
                listen: ListenKind::Tcp,
                dial: DialKind::Udp,
                peer_framed: true,
                remote_framed: false,
            },
        },
    }
}

/// The handshake one end performs: on `side`, it writes `write` and reads
/// `read_len` bytes (contents unchecked), writing first when `write_first`.
#[derive(Debug)]
pub struct HandshakePlan {
    pub side: Side,
    pub write_first: bool,
    pub write: Vec<u8>,
    pub read_len: usize,
}

/// The handshake of `role` for the pair `request`, `response`: side, order,
/// bytes written, count read.
pub open spec fn handshake_of(role: Commands, request: Seq<u8>, response: Seq<u8>) -> (
    Side,
    bool,
    Seq<u8>,
    nat,
) {
    match role {
        Commands::Client => (Side::Remote, true, request, response.len()),
        Commands::Server => (Side::Peer, false, response, request.len()),
    }
}

/// The handshake of `role`: a client writes the request to the remote side and
/// then reads as many bytes as the response holds; a server reads as many
/// bytes as the request holds from the peer and then writes the response.
pub fn handshake_plan(role: Commands, hs: &CustomHandshake) -> (r: HandshakePlan)
    ensures
        (r.side, r.write_first, r.write@, r.read_len as nat) == handshake_of(
            role,
            hs.request@,
            hs.response@,
        ),
{
    match role {
        Commands::Client => HandshakePlan {
            side: Side::Remote,
            write_first: true,
            write: vstd::slice::slice_to_vec(&hs.request),
            read_len: hs.response.len(),
        },
        Commands::Server => HandshakePlan {
            side: Side::Peer,
            write_first: false,
            write: vstd::slice::slice_to_vec(&hs.response),
            read_len: hs.request.len(),
        },
    }
}

/// With the same pair configured at both ends, the client's write is what the
/// server reads and the server's write is what the client reads: the client
/// sends the request first, the server answers with the response, and each
/// end reads exactly as many bytes as the other writes.
pub proof fn lemma_handshake_exchange(request: Seq<u8>, response: Seq<u8>)
    ensures
        ({
            let client = handshake_of(Commands::Client, request, response);
            let server = handshake_of(Commands::Server, request, response);
            &&& client.0 == Side::Remote && server.0 == Side::Peer
            &&& client.1 && !server.1
            &&& client.2 == request && server.3 == request.len()
            &&& server.2 == response && client.3 == response.len()
        }),
{
}

/// The transform applied to bytes read from `from`: a client encrypts what
/// its peer sends and decrypts what comes back; a server does the reverse.
pub open spec fn spec_read_mode(role: Commands, from: Side) -> Mode {
    if (role == Commands::Client) == (from == Side::Peer) {
        Mode::Encrypt
    } else {
        Mode::Decrypt
    }
}

/// The transform applied to bytes read from `from` in `role`.
pub fn read_mode(role: Commands, from: Side) -> (r: Mode)
    ensures
        r == spec_read_mode(role, from),
{
    match (role, from) {
        (Commands::Client, Side::Peer) | (Commands::Server, Side::Remote) => Mode::Encrypt,
        _ => Mode::Decrypt,
    }
}

/// Why a relay ended.
#[derive(Debug, Clone, Copy, PartialEq, Eq, Structural)]
pub enum RelayEnd {
    /// A read from this side gave no byte.
    Closed(Side),
    /// A read from this side failed.
    ReadFailed(Side),
    /// A write to this side failed.
    WriteFailed(Side),
    /// This side took no byte of a non-empty write.
    WriteZero(Side),
    /// This side reported taking more bytes than it was given.
    WriteOverrun(Side),
    /// The connection's deadline elapsed.
    DeadlineExceeded,
}

/// What happened on a relayed connection.
#[derive(Debug, Clone, Copy, PartialEq, Eq, Structural)]
pub enum RelayEvent {
    /// A read from `from` filled `n` bytes of that side's buffer.
    Read { from: Side, n: usize },
    /// A read from this side failed.
    ReadFailed(Side),
    /// A write to `to` reported taking `n` bytes of what was pending for it.
    Wrote { to: Side, n: usize },
    /// A write to this side failed.
    WriteFailed(Side),
    /// The deadline elapsed.
    DeadlineElapsed,
}

/// What the relay does next.
#[derive(Debug, Clone, Copy, PartialEq, Eq, Structural)]
pub enum RelayAction {
    /// Write the pending bytes to this side.
    Write(Side),
    /// Wait for the next read from either side, or the deadline.
    Read,
    /// Tear the whole connection down.
    Stop(RelayEnd),
}

/// The cipher transform of `b[0..n]` in `mode`, if a cipher is configured.
pub open spec fn relayed(cipher: Option<Arc<Cipher>>, mode: Mode, b: Seq<u8>, n: int) -> Seq<u8> {
    match cipher {
        Some(c) => transformed_range(&*c, mode, b, 0, n),
        None => b,
    }
}

/// What `relay_step` asks of its event and of the buffer it names: a read
/// comes right after `begin_read` on the buffer of the side read from; a
/// write reports on the buffer read from the other side, while bytes are pending.
pub open spec fn relay_ready(ev: RelayEvent, cb: CopyBuffer, buf: Seq<u8>) -> bool {
    match ev {
        RelayEvent::Read { from, n } => {
            &&& cb.wf(buf)
            &&& cb.pos() == 0
            &&& cb.cap() == 0
            &&& !cb.read_done()
            &&& n <= buf.len()
        },
        RelayEvent::Wrote { to, n } => cb.wf(buf) && cb.pos() < cb.cap(),
        _ => true,
    }
}

/// One step of the relay of `role`. A read of no byte from either side, any
/// failure (a write that took no byte, or claims more than it was given,
/// included), and the deadline end the whole connection. A read of `n > 0`
/// bytes transforms them (with the role's mode, when a cipher is configured)
/// and has them written in full to the other side; once the other side has
/// taken them all, the relay reads again.
pub fn relay_step(
    role: Commands,
    cipher: &Option<Arc<Cipher>>,
    ev: RelayEvent,
    cb: &mut CopyBuffer,
    buf: &mut [u8],
) -> (r: RelayAction)
    requires
        relay_ready(ev, *old(cb), old(buf)@),
    ensures
        match ev {
            RelayEvent::Read { from, n } => {
                &&& final(cb).wf(final(buf)@)
                &&& final(buf)@ == if n == 0 {
                    old(buf)@
                } else {
                    relayed(*cipher, spec_read_mode(role, from), old(buf)@, n as int)
                }
                &&& final(cb).pos() == 0
                &&& final(cb).cap() == n
                &&& final(cb).read_done() == (n == 0)
                &&& final(cb).sent() == Seq::<u8>::empty()
                &&& final(cb).amt() == old(cb).amt()
                &&& r == if n == 0 {
                    RelayAction::Stop(RelayEnd::Closed(from))
                } else {
                    RelayAction::Write(from.spec_other())
                }
            },
            RelayEvent::Wrote { to, n } => {
                &&& final(cb).wf(final(buf)@)
                &&& final(buf)@ == old(buf)@
                &&& final(cb).cap() == old(cb).cap()
                &&& 0 < n <= old(cb).cap() - old(cb).pos() ==> (final(cb).pos(), final(cb).sent())
                    == old(cb).written(old(buf)@, n as nat)
                &&& final(cb).amt() == if 0 < n <= old(cb).cap() - old(cb).pos() {
                    add_sat(old(cb).amt(), n as nat)
                } else {
                    old(cb).amt()
                }
                &&& final(cb).read_done() == old(cb).read_done()
                &&& r == if n == 0 {
                    RelayAction::Stop(RelayEnd::WriteZero(to))
                } else if n > old(cb).cap() - old(cb).pos() {
                    RelayAction::Stop(RelayEnd::WriteOverrun(to))
                } else if old(cb).pos() + n == old(cb).cap() {
                    RelayAction::Read
                } else {
                    RelayAction::Write(to)
                }
            },
            RelayEvent::ReadFailed(s) => r == RelayAction::Stop(RelayEnd::ReadFailed(s)),
            RelayEvent::WriteFailed(s) => r == RelayAction::Stop(RelayEnd::WriteFailed(s)),
            RelayEvent::DeadlineElapsed => r == RelayAction::Stop(RelayEnd::DeadlineExceeded),
        },
{
    match ev {
        RelayEvent::Read { from, n } => {
            cb.on_read(buf, n);
            if n == 0 {
                return RelayAction::Stop(RelayEnd::Closed(from));
            }
            match cipher {
                Some(c) => {
                    let c: &Cipher = &**c;
                    cb.transform(c, read_mode(role, from), buf);
                },
                None => {},
            }
            RelayAction::Write(from.other())
        },
        RelayEvent::Wrote { to, n } => {
            if n > cb.remaining() {
                return RelayAction::Stop(RelayEnd::WriteOverrun(to));
            }
            match cb.on_written(buf, n) {
                Err(_) => RelayAction::Stop(RelayEnd::WriteZero(to)),
                Ok(()) => {
                    if cb.step() == CopyStep::Write {
                        RelayAction::Write(to)
                    } else {
                        RelayAction::Read
                    }
                },
            }
        },
        RelayEvent::ReadFailed(s) => RelayAction::Stop(RelayEnd::ReadFailed(s)),
        RelayEvent::WriteFailed(s) => RelayAction::Stop(RelayEnd::WriteFailed(s)),
        RelayEvent::DeadlineElapsed => RelayAction::Stop(RelayEnd::DeadlineExceeded),
    }
}

/// The first datagram, read from the peer while accepting it, is relayed
/// before anything else: its `n` bytes, transformed as bytes read from the
/// peer are, become the pending bytes for the remote side, once. An empty
/// datagram leaves nothing to write, and the buffer ready for the next read.
pub fn first_packet(
    role: Commands,
    cipher: &Option<Arc<Cipher>>,
    cb: &mut CopyBuffer,
    buf: &mut [u8],
    n: usize,
) -> (r: RelayAction)
    requires
        relay_ready(RelayEvent::Read { from: Side::Peer, n }, *old(cb), old(buf)@),
    ensures
        final(cb).wf(final(buf)@),
        final(cb).pos() == 0,
        !final(cb).read_done(),
        n == 0 ==> r == RelayAction::Read && final(buf)@ == old(buf)@ && final(cb).cap() == 0,
        n > 0 ==> {
            &&& r == RelayAction::Write(Side::Remote)
            &&& final(cb).cap() == n
            &&& final(cb).spec_pending(final(buf)@) == relayed(
                *cipher,
                spec_read_mode(role, Side::Peer),
                old(buf)@,
                n as int,
            ).subrange(0, n as int)
        },
{
    if n == 0 {
        return RelayAction::Read;
    }
    relay_step(role, cipher, RelayEvent::Read { from: Side::Peer, n }, cb, buf)
}

/// A new pool slot: `size` zero bytes.
pub fn new_slot(size: usize) -> (r: Vec<u8>)
    ensures
        r@ == Seq::new(size as nat, |i: int| 0u8),
{
    let mut v: Vec<u8> = Vec::with_capacity(size);
    let mut i: usize = 0;
    while i < size
        invariant
            i <= size,
            v@ == Seq::new(i as nat, |j: int| 0u8),
        decreases size - i,
    {
        v.push(0u8);
        i = i + 1;
        assert(v@ =~= Seq::new(i as nat, |j: int| 0u8));
    }
    v
}

} // verus!
