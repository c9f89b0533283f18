//! TCP on smoltcp: one socket's two byte queues and its state.
//!
//! The socket itself, its retransmissions and its timers are smoltcp's; here
//! is what we put into its send queue, what we take out of its receive queue,
//! and how we read its state.

use vstd::prelude::*;

use smoltcp::iface::{Interface, SocketHandle, SocketSet};
use smoltcp::socket::tcp::{self as outside, Socket as TcpSocket};
use smoltcp::wire::{IpAddress, IpCidr, IpEndpoint, Ipv4Address};

use crate::addr::{Ipv4Addr, SocketAddrV4};

verus! {

/// The states of RFC 9293.
#[derive(Debug, Clone, Copy, PartialEq, Eq, Structural)]
pub enum TcpState {
    Closed,
    Listen,
    SynSent,
    SynReceived,
    Established,
    FinWait1,
    FinWait2,
    CloseWait,
    Closing,
    LastAck,
    TimeWait,
}

/// What a TCP socket holds.
pub struct Tcp {
    pub state: TcpState,
    /// The bytes in the send queue: sent or not, they are not acknowledged.
    pub unsent: Seq<u8>,
    /// How many bytes the send queue can hold.
    pub send_capacity: nat,
    /// The bytes in the receive queue.
    pub unread: Seq<u8>,
    /// How many of them, from the oldest on, lie in front of the place where
    /// the queue wraps around in its buffer.
    pub run: nat,
    /// Whether the peer has closed its half of the connection.
    pub finished: bool,
    /// How many bytes the receive queue can hold.
    pub recv_capacity: nat,
    /// Our endpoint and the peer's, of the connection there is.
    pub flow: Option<(SocketAddrV4, SocketAddrV4)>,
    /// Whether a short segment waits until the one before is acknowledged.
    pub nagle: bool,
}

impl Tcp {
    /// Whether the socket has a connection or waits for one.
    pub open spec fn is_open(self) -> bool {
        !(self.state is Closed || self.state is TimeWait)
    }

    /// Whether packets are exchanged with a peer.
    pub open spec fn is_active(self) -> bool {
        !(self.state is Closed || self.state is TimeWait || self.state is Listen)
    }

    /// Whether our half of the connection is open.
    pub open spec fn may_send(self) -> bool {
        self.state is Established || self.state is CloseWait
    }

    /// Whether there is something to receive, or may be.
    pub open spec fn may_recv(self) -> bool {
        self.state is Established || self.state is FinWait1 || self.state is FinWait2
            || self.unread.len() > 0
    }

    /// How many of `len` bytes the send queue takes.
    pub open spec fn room_for(self, len: nat) -> nat {
        if self.unsent.len() + len <= self.send_capacity {
            len
        } else if self.unsent.len() <= self.send_capacity {
            (self.send_capacity - self.unsent.len()) as nat
        } else {
            0
        }
    }

    /// The socket after as much of `data` as fits went into the send queue,
    /// where our half of the connection is open.
    pub open spec fn sent(self, data: Seq<u8>) -> Tcp {
        if self.may_send() {
            Tcp { unsent: self.unsent + data.take(self.room_for(data.len()) as int), ..self }
        } else {
            self
        }
    }

    /// How many of `len` bytes are taken for sending.
    pub open spec fn accepts(self, len: nat) -> nat {
        if self.may_send() {
            self.room_for(len)
        } else {
            0
        }
    }

    /// What a read into `len` bytes returns: how many bytes it moved; zero
    /// where nothing is left and the connection is over; `None` where nothing
    /// has arrived.
    pub open spec fn reads(self, len: nat) -> Option<usize> {
        if taken(self.unread, len) > 0 {
            Some(taken(self.unread, len) as usize)
        } else if !self.is_active() {
            Some(0)
        } else {
            None
        }
    }

    /// What `buf` holds after a read into it.
    pub open spec fn read(self, buf: Seq<u8>) -> Seq<u8> {
        let n = taken(self.unread, buf.len()) as int;
        self.unread.take(n) + buf.skip(n)
    }

    /// The socket after a read into `len` bytes.
    pub open spec fn after_read(self, len: nat) -> Tcp {
        self.without(taken(self.unread, len))
    }

    /// How many of the unread bytes can be looked at in one piece: some, where
    /// there are any.
    pub open spec fn chunk(self) -> nat {
        if 0 < self.run <= self.unread.len() {
            self.run
        } else {
            self.unread.len()
        }
    }

    /// The socket without its `n` oldest unread bytes.
    pub open spec fn without(self, n: nat) -> Tcp {
        if n == 0 {
            self
        } else {
            Tcp {
                unread: self.unread.skip(n as int),
                run: if n < self.chunk() {
                    (self.chunk() - n) as nat
                } else {
                    (self.unread.len() - n) as nat
                },
                ..self
            }
        }
    }

    /// The socket after our half of the connection is closed.
    pub open spec fn closed(self) -> Tcp {
        Tcp {
            state: match self.state {
                TcpState::Listen => TcpState::Closed,
                TcpState::SynSent => TcpState::Closed,
                TcpState::SynReceived => TcpState::FinWait1,
                TcpState::Established => TcpState::FinWait1,
                TcpState::CloseWait => TcpState::LastAck,
                other => other,
            },
            ..self
        }
    }
}

/// A TCP socket of smoltcp.
#[verifier::external_type_specification]
#[verifier::external_body]
pub struct ExTcpSocket<'a>(TcpSocket<'a>);

/// A network interface of smoltcp.
#[verifier::external_type_specification]
#[verifier::external_body]
pub struct ExInterface(Interface);

/// The set of sockets that an interface serves.
#[verifier::external_type_specification]
#[verifier::external_body]
pub struct ExSocketSet<'a>(SocketSet<'a>);

/// Where a socket stands in its set.
#[verifier::external_type_specification]
#[verifier::external_body]
pub struct ExSocketHandle(SocketHandle);

/// What the TCP sockets of a set hold.
pub uninterp spec fn sockets(set: SocketSet<'_>) -> Map<SocketHandle, Tcp>;

/// What a TCP socket holds.
pub uninterp spec fn tcp(s: TcpSocket<'_>) -> Tcp;

/// The addresses of an interface, each with the prefix length of its network.
pub uninterp spec fn addresses(iface: Interface) -> Seq<(Ipv4Addr, u8)>;

/// Whether an address lies in the network around another one.
pub open spec fn in_network(a: Ipv4Addr, of: (Ipv4Addr, u8)) -> bool {
    let size = vstd::arithmetic::power2::pow2((32 - of.1) as nat);
    a.bits() / size == of.0.bits() / size
}

/// The first address whose network `remote` lies in.
pub open spec fn nearest(addrs: Seq<(Ipv4Addr, u8)>, remote: Ipv4Addr) -> Option<Ipv4Addr>
    decreases addrs.len(),
{
    if addrs.len() == 0 {
        None
    } else if in_network(remote, addrs[0]) {
        Some(addrs[0].0)
    } else {
        nearest(addrs.skip(1), remote)
    }
}

/// The address from which `remote` is reached: the nearest, or else the first,
/// if there is one.
pub open spec fn source_of(addrs: Seq<(Ipv4Addr, u8)>, remote: Ipv4Addr) -> Option<Ipv4Addr> {
    match nearest(addrs, remote) {
        Some(a) => Some(a),
        None => if addrs.len() == 0 {
            None
        } else {
            Some(addrs[0].0)
        },
    }
}

/// Why bytes were not taken.
#[derive(Debug, Clone, Copy, PartialEq, Eq, Structural)]
pub enum SendError {
    InvalidState,
}

/// Why there are no bytes to take.
#[derive(Debug, Clone, Copy, PartialEq, Eq, Structural)]
pub enum RecvError {
    InvalidState,
    Finished,
}

/// Why a connection was not started.
#[derive(Debug, Clone, Copy, PartialEq, Eq, Structural)]
pub enum ConnectError {
    InvalidState,
    Unaddressable,
}

// ---------------------------------------------------------------------------
// The socket's operations
// ---------------------------------------------------------------------------

/// `tcp::Socket::may_send`: true in ESTABLISHED and CLOSE-WAIT.
pub assume_specification<'a>[ TcpSocket::<'a>::may_send ](s: &TcpSocket<'a>) -> (r:
    bool)
    ensures
        r == tcp(*s).may_send(),
;

/// `tcp::Socket::may_recv`: true in ESTABLISHED, FIN-WAIT-1 and FIN-WAIT-2,
/// and while the receive queue holds anything.
pub assume_specification<'a>[ TcpSocket::<'a>::may_recv ](s: &TcpSocket<'a>) -> (r:
    bool)
    ensures
        r == tcp(*s).may_recv(),
;

/// `tcp::Socket::can_recv`: true while the receive queue holds anything.
pub assume_specification<'a>[ TcpSocket::<'a>::can_recv ](s: &TcpSocket<'a>) -> (r:
    bool)
    ensures
        r == (tcp(*s).unread.len() > 0),
;

/// `tcp::Socket::is_active`: false in CLOSED, TIME-WAIT and LISTEN.
pub assume_specification<'a>[ TcpSocket::<'a>::is_active ](s: &TcpSocket<'a>) -> (r:
    bool)
    ensures
        r == tcp(*s).is_active(),
;

/// `tcp::Socket::close`: moves to the state in which our half is closed, and
/// keeps both queues.
pub assume_specification<'a>[ TcpSocket::<'a>::close ](s: &mut TcpSocket<'a>)
    ensures
        tcp(*final(s)) == tcp(*old(s)).closed(),
;

/// `tcp::Socket::set_nagle_enabled`: sets the flag and changes nothing else.
pub assume_specification<'a>[ TcpSocket::<'a>::set_nagle_enabled ](
    s: &mut TcpSocket<'a>,
    enabled: bool,
)
    ensures
        tcp(*final(s)) == (Tcp { nagle: enabled, ..tcp(*old(s)) }),
;

/// `tcp::Socket::new`: a closed socket with empty queues, each as large as its
/// buffer. It panics on a receive buffer over 1 GiB.
#[verifier::external_body]
fn new_socket(rx: Vec<u8>, tx: Vec<u8>) -> (r: TcpSocket<'static>)
    requires
        rx@.len() <= 0x4000_0000,
    ensures
        tcp(r) == (Tcp {
            state: TcpState::Closed,
            unsent: Seq::empty(),
            send_capacity: tx@.len(),
            unread: Seq::empty(),
            run: 0,
            finished: false,
            recv_capacity: rx@.len(),
            flow: None,
            nagle: true,
        }),
{
    TcpSocket::new(outside::SocketBuffer::new(rx), outside::SocketBuffer::new(tx))
}

/// `tcp::Socket::state`.
#[verifier::external_body]
fn state(s: &TcpSocket<'_>) -> (r: TcpState)
    ensures
        r == tcp(*s).state,
{
    match s.state() {
        outside::State::Closed => TcpState::Closed,
        outside::State::Listen => TcpState::Listen,
        outside::State::SynSent => TcpState::SynSent,
        outside::State::SynReceived => TcpState::SynReceived,
        outside::State::Established => TcpState::Established,
        outside::State::FinWait1 => TcpState::FinWait1,
        outside::State::FinWait2 => TcpState::FinWait2,
        outside::State::CloseWait => TcpState::CloseWait,
        outside::State::Closing => TcpState::Closing,
        outside::State::LastAck => TcpState::LastAck,
        outside::State::TimeWait => TcpState::TimeWait,
    }
}

/// `tcp::Socket::send_slice`: queues as much of `data` as there is room for,
/// from its start, and returns how much that was; refuses where our half of
/// the connection is not open.
#[verifier::external_body]
fn send_slice(s: &mut TcpSocket<'_>, data: &[u8]) -> (r: Result<usize, SendError>)
    ensures
        r == if tcp(*old(s)).may_send() {
            Ok(tcp(*old(s)).room_for(data@.len()) as usize)
        } else {
            Err(SendError::InvalidState)
        },
        tcp(*final(s)) == tcp(*old(s)).sent(data@),
{
    s.send_slice(data).map_err(
        |e|
            match e {
                outside::SendError::InvalidState => SendError::InvalidState,
            },
    )
}

/// `tcp::Socket::recv_slice`: moves the oldest received bytes into `buf`, as
/// many as both hold, and leaves the rest of `buf` alone; refuses where
/// nothing was received and nothing can be, and says whether that is because
/// the peer has closed its half.
#[verifier::external_body]
fn recv_slice(s: &mut TcpSocket<'_>, buf: &mut [u8]) -> (r: Result<usize, RecvError>)
    ensures
        r == if tcp(*old(s)).may_recv() {
            Ok(taken(tcp(*old(s)).unread, old(buf)@.len()) as usize)
        } else if tcp(*old(s)).finished {
            Err(RecvError::Finished)
        } else {
            Err(RecvError::InvalidState)
        },
        final(buf)@ == tcp(*old(s)).read(old(buf)@),
        tcp(*final(s)) == tcp(*old(s)).after_read(old(buf)@.len()),
{
    s.recv_slice(buf).map_err(
        |e|
            match e {
                outside::RecvError::InvalidState => RecvError::InvalidState,
                outside::RecvError::Finished => RecvError::Finished,
            },
    )
}

/// `tcp::Socket::recv` with a reader that takes all it is shown: moves the
/// oldest received bytes that lie in one piece to the end of `acc`.
#[verifier::external_body]
fn recv_all(s: &mut TcpSocket<'_>, acc: &mut Vec<u8>)
    requires
        tcp(*old(s)).may_recv(),
    ensures
        final(acc)@ == old(acc)@ + tcp(*old(s)).unread.take(tcp(*old(s)).chunk() as int),
        tcp(*final(s)) == tcp(*old(s)).without(tcp(*old(s)).chunk()),
{
    let _ = s.recv(|data| take_all(acc, data));
}

/// `tcp::Socket::connect`, on the interface's context: starts a connection
/// from the interface's address for `remote` and the given port. It refuses a
/// socket that is open, and endpoints without an address or a port.
#[verifier::external_body]
fn connect(
    s: &mut TcpSocket<'_>,
    iface: &mut Interface,
    remote: SocketAddrV4,
    local_port: u16,
) -> (r: Result<(), ConnectError>)
    ensures
        r == connect_result(
            tcp(*old(s)),
            source_of(addresses(*old(iface)), remote.ip),
            remote,
            local_port,
        ),
        tcp(*final(s)) == connecting(
            tcp(*old(s)),
            source_of(addresses(*old(iface)), remote.ip),
            remote,
            local_port,
        ),
        addresses(*final(iface)) == addresses(*old(iface)),
{
    let addr = IpAddress::Ipv4(Ipv4Address::from(remote.ip.octets()));
    let endpoint = IpEndpoint::new(addr, remote.port);
    s.connect(iface.context(), endpoint, local_port).map_err(
        |e|
            match e {
                outside::ConnectError::InvalidState => ConnectError::InvalidState,
                outside::ConnectError::Unaddressable => ConnectError::Unaddressable,
            },
    )
}

/// `SocketSet::new`, on a vector, and `SocketSet::add`: a set that holds the
/// one socket, under the handle that comes with it.
#[verifier::external_body]
fn set_of(s: TcpSocket<'static>) -> (r: (SocketSet<'static>, SocketHandle))
    ensures
        sockets(r.0) == Map::<SocketHandle, Tcp>::empty().insert(r.1, tcp(s)),
{
    let mut set = SocketSet::new(Vec::new());
    let handle = set.add(s);
    (set, handle)
}

/// `SocketSet::get_mut`: the TCP socket under a handle. It panics on a handle
/// that stands for none.
#[verifier::external_body]
fn get_mut<'a>(set: &'a mut SocketSet<'static>, handle: SocketHandle) -> (r: &'a mut TcpSocket<
    'static,
>)
    requires
        sockets(*old(set)).contains_key(handle),
    ensures
        tcp(*r) == sockets(*old(set))[handle],
        sockets(*final(set)) == sockets(*old(set)).insert(handle, tcp(*final(r))),
{
    set.get_mut::<TcpSocket>(handle)
}

/// `Interface::update_ip_addrs` with a push of one address and its network
/// behind those that there are. An interface with addresses may have no room
/// for another, and then keeps what it has. It panics on a multicast address
/// and on the broadcast address, and on a prefix longer than an address.
#[verifier::external_body]
fn assign_address(iface: &mut Interface, ip: Ipv4Addr, prefix_len: u8)
    requires
        ip.is_assignable(),
        prefix_len <= 32,
    ensures
        addresses(*final(iface)) == addresses(*old(iface)).push((ip, prefix_len)) || (addresses(
            *old(iface),
        ).len() > 0 && addresses(*final(iface)) == addresses(*old(iface))),
{
    let addr = IpAddress::Ipv4(Ipv4Address::from(ip.octets()));
    iface.update_ip_addrs(
        |addrs|
            {
                let _ = addrs.push(IpCidr::new(addr, prefix_len));
            },
    );
}

/// How many bytes of `unread` a buffer of `len` bytes takes.
pub open spec fn taken(unread: Seq<u8>, len: nat) -> nat {
    if unread.len() <= len {
        unread.len()
    } else {
        len
    }
}

/// Whether a connection can be started, and why not.
pub open spec fn connect_result(
    t: Tcp,
    source: Option<Ipv4Addr>,
    remote: SocketAddrV4,
    local_port: u16,
) -> Result<(), ConnectError> {
    if t.is_open() {
        Err(ConnectError::InvalidState)
    } else if remote.port == 0 || remote.ip.is_unspecified() || local_port == 0 || source is None {
        Err(ConnectError::Unaddressable)
    } else {
        Ok(())
    }
}

/// The socket after a connection was started, where it could be.
pub open spec fn connecting(
    t: Tcp,
    source: Option<Ipv4Addr>,
    remote: SocketAddrV4,
    local_port: u16,
) -> Tcp {
    if connect_result(t, source, remote, local_port) is Ok {
        Tcp {
            state: TcpState::SynSent,
            unsent: Seq::empty(),
            unread: Seq::empty(),
            run: 0,
            finished: false,
            flow: Some((SocketAddrV4 { ip: source->Some_0, port: local_port }, remote)),
            ..t
        }
    } else {
        t
    }
}

/// Appends all of `data` to `acc`, and says so.
fn take_all(acc: &mut Vec<u8>, data: &[u8]) -> (r: (usize, ()))
    ensures
        final(acc)@ == old(acc)@ + data@,
        r.0 == data@.len(),
{
    acc.extend_from_slice(data);
    assert(acc@ =~= old(acc)@ + data@);
    (data.len(), ())
}

// ---------------------------------------------------------------------------
// What we do with it
// ---------------------------------------------------------------------------

/// The size of each queue.
pub const QUEUE_LEN: usize = 65535;

/// The prefix length of the network around our address.
pub const PREFIX_LEN: u8 = 24;

/// A closed socket with empty queues.
pub open spec fn new_tcp(nagle: bool) -> Tcp {
    Tcp {
        state: TcpState::Closed,
        unsent: Seq::empty(),
        send_capacity: QUEUE_LEN as nat,
        unread: Seq::empty(),
        run: 0,
        finished: false,
        recv_capacity: QUEUE_LEN as nat,
        flow: None,
        nagle,
    }
}

/// A closed socket for a connection. Without Nagle's rule a short last segment
/// leaves at once instead of waiting for an acknowledgement that the peer may
/// delay.
pub fn stream_socket(nagle: bool) -> (r: TcpSocket<'static>)
    ensures
        tcp(r) == new_tcp(nagle),
{
    let mut s = new_socket(vec![0u8; 65535], vec![0u8; 65535]);
    if !nagle {
        s.set_nagle_enabled(false);
    }
    s
}

/// Hands as much of `buf` to the send queue as it takes right now, and returns
/// how much that was. Short by design: zero where the queue is full or our
/// half of the connection is closed.
pub fn send(s: &mut TcpSocket<'_>, buf: &[u8]) -> (r: Result<usize, SendError>)
    ensures
        r == Ok::<usize, SendError>(tcp(*old(s)).accepts(buf@.len()) as usize),
        tcp(*final(s)) == tcp(*old(s)).sent(buf@),
{
    let ghost before = tcp(*s);
    let mut sent: usize = 0;
    proof {
        assert(before.unsent + buf@.take(0) == before.unsent);
    }
    while sent < buf.len()
        invariant_except_break
            sent == 0 || sent == before.room_for(buf@.len()),
        invariant
            sent <= buf@.len(),
            before.may_send() || sent == 0,
            sent <= before.room_for(buf@.len()),
            before == tcp(*old(s)),
            tcp(*s) == (Tcp { unsent: before.unsent + buf@.take(sent as int), ..before }),
        ensures
            sent == before.accepts(buf@.len()),
        decreases buf@.len() - sent,
    {
        if !s.may_send() {
            break;
        }
        let rest = vstd::slice::slice_subrange(buf, sent, buf.len());
        match send_slice(s, rest) {
            Ok(0) => {
                assert(tcp(*s).unsent =~= before.unsent + buf@.take(sent as int));
                break;
            },
            Ok(n) => {
                proof {
                    assert(buf@.take(sent as int) + rest@.take(n as int) =~= buf@.take(sent + n));
                    assert(tcp(*s).unsent =~= before.unsent + buf@.take(sent + n));
                }
                sent = sent + n;
            },
            Err(e) => {
                return Err(e);
            },
        }
    }
    proof {
        if !before.may_send() {
            assert(tcp(*s) == before);
        }
    }
    Ok(sent)
}

/// Takes received bytes into `buf`. `None` where nothing has arrived, `Some(0)`
/// where nothing is left and the connection is over.
pub fn recv(s: &mut TcpSocket<'_>, buf: &mut [u8]) -> (r: Option<usize>)
    ensures
        r == tcp(*old(s)).reads(old(buf)@.len()),
        final(buf)@ == tcp(*old(s)).read(old(buf)@),
        tcp(*final(s)) == tcp(*old(s)).after_read(old(buf)@.len()),
{
    let ghost t = tcp(*s);
    let ghost before = buf@;
    assert(before.len() == buf.len());
    if s.can_recv() {
        if let Ok(n) = recv_slice(s, buf) {
            if n > 0 {
                return Some(n);
            }
        }
    }
    proof {
        assert(taken(t.unread, before.len()) == 0);
        assert(t.unread.take(0) + before.skip(0) =~= before);
    }
    if !s.is_active() {
        return Some(0);
    }
    None
}

/// Moves received bytes to the end of `acc`: some, where there are any.
pub fn recv_into(s: &mut TcpSocket<'_>, acc: &mut Vec<u8>)
    ensures
        final(acc)@ == old(acc)@ + tcp(*old(s)).unread.take(tcp(*old(s)).chunk() as int),
        tcp(*final(s)) == tcp(*old(s)).without(tcp(*old(s)).chunk()),
{
    if s.may_recv() {
        recv_all(s, acc);
    } else {
        proof {
            assert(acc@ + tcp(*s).unread.take(0) =~= acc@);
        }
    }
}


/// One pass of the handshake: `true` once established, `false` while it is
/// still in flight, and `None` where it was refused.
pub fn handshake(state: TcpState) -> (r: Option<bool>)
    ensures
        r == match state {
            TcpState::Established => Some(true),
            TcpState::Closed => None,
            _ => Some(false),
        },
{
    match state {
        TcpState::Established => Some(true),
        TcpState::Closed => None,
        _ => Some(false),
    }
}

/// One TCP connection with its interface. The caller polls the interface; the
/// functions here say what happens between polls.
pub struct Stream {
    pub iface: Interface,
    pub sockets: SocketSet<'static>,
    pub handle: SocketHandle,
}

impl Stream {
    pub open spec fn wf(self) -> bool {
        sockets(self.sockets).contains_key(self.handle)
    }

    /// What the connection's socket holds.
    pub open spec fn tcp(self) -> Tcp {
        sockets(self.sockets)[self.handle]
    }

    /// The address from which `remote` is reached, if there is one.
    pub open spec fn source(self, remote: Ipv4Addr) -> Option<Ipv4Addr> {
        source_of(addresses(self.iface), remote)
    }

    /// The interface keeps its addresses, and the socket its place: a connection
    /// changes by what its socket holds, and by nothing else.
    pub open spec fn keeps(self, after: Stream) -> bool {
        &&& addresses(after.iface) == addresses(self.iface)
        &&& after.handle == self.handle
    }

    /// The interface has the addresses that `iface` had, and ours behind them.
    /// Only an interface that had some may not have ours.
    pub open spec fn addresses_from(self, iface: Interface, our_ip: Ipv4Addr) -> bool {
        addresses(self.iface) == addresses(iface).push((our_ip, PREFIX_LEN)) || (addresses(
            iface,
        ).len() > 0 && addresses(self.iface) == addresses(iface))
    }

    /// A closed connection on an interface, which is given our address.
    pub fn new(iface: Interface, our_ip: Ipv4Addr, nagle: bool) -> (r: Stream)
        requires
            our_ip.is_assignable(),
        ensures
            r.wf(),
            r.tcp() == new_tcp(nagle),
            r.addresses_from(iface, our_ip),
    {
        let mut iface = iface;
        assign_address(&mut iface, our_ip, PREFIX_LEN);
        let (sockets, handle) = set_of(stream_socket(nagle));
        Stream { iface, sockets, handle }
    }

    /// Starts a connection to `remote`. The SYN leaves with the next poll.
    pub fn start_connect(&mut self, remote: SocketAddrV4, local_port: u16) -> (r: Result<
        (),
        ConnectError,
    >)
        requires
            old(self).wf(),
        ensures
            final(self).wf(),
            old(self).keeps(*final(self)),
            r == connect_result(old(self).tcp(), old(self).source(remote.ip), remote, local_port),
            final(self).tcp() == connecting(
                old(self).tcp(),
                old(self).source(remote.ip),
                remote,
                local_port,
            ),
    {
        let s = get_mut(&mut self.sockets, self.handle);
        connect(s, &mut self.iface, remote, local_port)
    }

    pub fn state(&mut self) -> (r: TcpState)
        requires
            old(self).wf(),
        ensures
            final(self).wf(),
            old(self).keeps(*final(self)),
            final(self).tcp() == old(self).tcp(),
            r == old(self).tcp().state,
    {
        state(get_mut(&mut self.sockets, self.handle))
    }

    /// Hands as much of `buf` to the send queue as it takes right now.
    pub fn send(&mut self, buf: &[u8]) -> (r: Result<usize, SendError>)
        requires
            old(self).wf(),
        ensures
            final(self).wf(),
            old(self).keeps(*final(self)),
            r == Ok::<usize, SendError>(old(self).tcp().accepts(buf@.len()) as usize),
            final(self).tcp() == old(self).tcp().sent(buf@),
    {
        send(get_mut(&mut self.sockets, self.handle), buf)
    }

    /// Takes received bytes into `buf`.
    pub fn recv(&mut self, buf: &mut [u8]) -> (r: Option<usize>)
        requires
            old(self).wf(),
        ensures
            final(self).wf(),
            old(self).keeps(*final(self)),
            r == old(self).tcp().reads(old(buf)@.len()),
            final(buf)@ == old(self).tcp().read(old(buf)@),
            final(self).tcp() == old(self).tcp().after_read(old(buf)@.len()),
    {
        recv(get_mut(&mut self.sockets, self.handle), buf)
    }

    /// Whether our half of the connection is open.
    pub fn may_send(&mut self) -> (r: bool)
        requires
            old(self).wf(),
        ensures
            final(self).wf(),
            old(self).keeps(*final(self)),
            final(self).tcp() == old(self).tcp(),
            r == old(self).tcp().may_send(),
    {
        get_mut(&mut self.sockets, self.handle).may_send()
    }

    /// Hands `data` to the send queue, as much as it takes right now. The rest
    /// is lost.
    pub fn offer(&mut self, data: &[u8])
        requires
            old(self).wf(),
        ensures
            final(self).wf(),
            old(self).keeps(*final(self)),
            final(self).tcp() == old(self).tcp().sent(data@),
    {
        let _ = send_slice(get_mut(&mut self.sockets, self.handle), data);
    }

    /// Moves received bytes to the end of `acc`: some, where there are any.
    pub fn recv_into(&mut self, acc: &mut Vec<u8>)
        requires
            old(self).wf(),
        ensures
            final(self).wf(),
            old(self).keeps(*final(self)),
            final(acc)@ == old(acc)@ + old(self).tcp().unread.take(
                old(self).tcp().chunk() as int,
            ),
            final(self).tcp() == old(self).tcp().without(old(self).tcp().chunk()),
    {
        recv_into(get_mut(&mut self.sockets, self.handle), acc)
    }

    /// Closes our half of the connection.
    pub fn close(&mut self)
        requires
            old(self).wf(),
        ensures
            final(self).wf(),
            old(self).keeps(*final(self)),
            final(self).tcp() == old(self).tcp().closed(),
    {
        get_mut(&mut self.sockets, self.handle).close()
    }
}

// ---------------------------------------------------------------------------
// Laws
// ---------------------------------------------------------------------------

/// Where our address is the only one, every peer is reached from it.
pub proof fn only_address_is_the_source(our_ip: Ipv4Addr, remote: Ipv4Addr)
    ensures
        source_of(seq![(our_ip, PREFIX_LEN)], remote) == Some(our_ip),
{
    reveal_with_fuel(nearest, 2);
}

/// The send queue never holds more than it can: whatever is offered, a full
/// queue takes nothing, and the caller is told how much was taken.
pub proof fn sending_keeps_to_the_capacity(t: Tcp, data: Seq<u8>)
    requires
        t.unsent.len() <= t.send_capacity,
    ensures
        t.sent(data).unsent.len() == t.unsent.len() + t.accepts(data.len()),
        t.sent(data).unsent.len() <= t.send_capacity,
        t.accepts(data.len()) <= data.len(),
        t.unsent.len() == t.send_capacity ==> t.accepts(data.len()) == 0,
        !t.may_send() ==> t.accepts(data.len()) == 0 && t.sent(data) == t,
{
}

/// Sending a buffer in two calls queues the same bytes as sending it in one:
/// nothing is lost, repeated or reordered between the calls.
pub proof fn sends_concatenate(t: Tcp, a: Seq<u8>, b: Seq<u8>)
    requires
        t.unsent.len() + a.len() <= t.send_capacity,
    ensures
        t.sent(a).sent(b) == t.sent(a + b),
        t.accepts(a.len()) + t.sent(a).accepts(b.len()) == t.accepts(a.len() + b.len()),
{
    if t.may_send() {
        let n = t.room_for(a.len() + b.len()) as int;
        assert(a.take(a.len() as int) == a);
        assert((a + b).take(n) =~= a + b.take(n - a.len()));
        assert((t.unsent + a) + b.take(n - a.len()) =~= t.unsent + (a + b).take(n));
    }
}

/// What two reads give, one after the other, is what one read of both their
/// sizes gives.
pub proof fn reads_concatenate(t: Tcp, m: nat, n: nat)
    ensures
        t.unread.take(taken(t.unread, m) as int) + t.after_read(m).unread.take(
            taken(t.after_read(m).unread, n) as int,
        ) == t.unread.take(taken(t.unread, m + n) as int),
        t.after_read(m).after_read(n) == t.after_read(m + n),
{
    let first = taken(t.unread, m) as int;
    let second = taken(t.after_read(m).unread, n) as int;
    assert(first + second == taken(t.unread, m + n));
    assert(t.unread.take(first) + t.unread.skip(first).take(second) =~= t.unread.take(
        first + second,
    ));
    assert(t.unread.skip(first).skip(second) =~= t.unread.skip(first + second));
}

/// The end of the stream is reported only once everything received was read
/// and the connection is over, and from then on at every read.
pub proof fn end_of_stream_comes_last(t: Tcp, len: nat)
    requires
        0 < len <= usize::MAX,
    ensures
        t.reads(len) == Some(0usize) <==> t.unread.len() == 0 && !t.is_active(),
        t.reads(len) == Some(0usize) ==> t.after_read(len) == t,
        t.reads(len) is None <==> t.unread.len() == 0 && t.is_active(),
{
}

/// Closing twice is closing once, and what was queued before is still sent.
pub proof fn closing_is_idempotent(t: Tcp)
    ensures
        t.closed().closed() == t.closed(),
        !t.closed().may_send(),
        t.closed().unsent == t.unsent,
        t.closed().unread == t.unread,
{
}

} // verus!
