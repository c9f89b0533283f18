//! The pipe: standard input to a socket, and a socket to standard output.
//!
//! The caller performs what is decided here, in one loop, and reports what
//! came of it.

use vstd::prelude::*;

use crate::addr::{Ipv4Addr, SocketAddrV4};
use crate::socket::{parse_mac, Protocol, SocketError};
use crate::text::{chars_of, decimal, parse_uint, quote, same_text};

verus! {

/// The CPU that the pipe runs on unless it is told otherwise.
pub const DEFAULT_CPU: usize = 2;

/// How many nanoseconds a UDP pipe waits for a straggling reply before calling
/// it done.
pub const UDP_IDLE: u64 = 250_000_000;

// ---------------------------------------------------------------------------
// Arguments
// ---------------------------------------------------------------------------

/// How the pipe is called.
pub open spec fn usage_text() -> Seq<char> {
    "usage: rustssi <tcp|udp> <ifname> <our-ipv4> <server-ipv4> <port> <server-mac> [cpu]"@
}

pub fn usage() -> (r: &'static str)
    ensures
        r@ == usage_text(),
{
    "usage: rustssi <tcp|udp> <ifname> <our-ipv4> <server-ipv4> <port> <server-mac> [cpu]"
}

/// What the pipe is called with.
#[derive(Debug)]
pub struct PipeArgs {
    pub proto: Protocol,
    pub ifname: String,
    pub our_ip: Ipv4Addr,
    pub server: SocketAddrV4,
    pub peer_mac: [u8; 6],
    pub cpu: usize,
}

/// Why the pipe cannot be called like that.
#[derive(Debug)]
pub enum PipeArgsError {
    Missing,
    UnknownProtocol(String),
    BadOurIp,
    BadServerIp,
    BadPort,
    BadMac(String),
    BadCpu,
}

impl PipeArgsError {
    pub open spec fn text(self) -> Seq<char> {
        match self {
            PipeArgsError::Missing => usage_text(),
            PipeArgsError::UnknownProtocol(other) => "unknown protocol "@
                + crate::text::debug_quoted(other@) + "\n"@ + usage_text(),
            PipeArgsError::BadOurIp => "bad our-ipv4"@,
            PipeArgsError::BadServerIp => "bad server-ipv4"@,
            PipeArgsError::BadPort => "bad port"@,
            PipeArgsError::BadMac(m) => m@,
            PipeArgsError::BadCpu => "bad cpu"@,
        }
    }

    pub fn message(&self) -> (r: String)
        ensures
            r@ == self.text(),
    {
        match self {
            PipeArgsError::Missing => String::from_str(usage()),
            PipeArgsError::UnknownProtocol(other) => {
                let mut m = String::new();
                m.append("unknown protocol ");
                m.append(quote(other.as_str()).as_str());
                m.append("\n");
                m.append(usage());
                assert(m@ =~= self.text());
                m
            },
            PipeArgsError::BadOurIp => String::from_str("bad our-ipv4"),
            PipeArgsError::BadServerIp => String::from_str("bad server-ipv4"),
            PipeArgsError::BadPort => String::from_str("bad port"),
            PipeArgsError::BadMac(m) => m.clone(),
            PipeArgsError::BadCpu => String::from_str("bad cpu"),
        }
    }
}

/// The transport of the given name.
pub open spec fn protocol_of(s: Seq<char>) -> Option<Protocol> {
    if s == "tcp"@ {
        Some(Protocol::Tcp)
    } else if s == "udp"@ {
        Some(Protocol::Udp)
    } else {
        None
    }
}

pub fn parse_protocol(s: &str) -> (r: Option<Protocol>)
    ensures
        r == protocol_of(s@),
{
    if same_text(s, "tcp") {
        Some(Protocol::Tcp)
    } else if same_text(s, "udp") {
        Some(Protocol::Udp)
    } else {
        None
    }
}

/// The port that a text denotes.
pub open spec fn port_of(s: Seq<char>) -> Option<nat> {
    crate::text::uint_value(s, 10, u16::MAX as nat)
}

/// The CPU that a text denotes.
pub open spec fn cpu_of(s: Seq<char>) -> Option<nat> {
    crate::text::uint_value(s, 10, usize::MAX as nat)
}

/// What a call with these arguments means: each is looked at in turn, and the
/// first that is missing or wrong decides.
pub open spec fn args_mean(args: Seq<Seq<char>>, r: Result<PipeArgs, PipeArgsError>) -> bool {
    if args.len() == 0 {
        r == Err::<PipeArgs, PipeArgsError>(PipeArgsError::Missing)
    } else if protocol_of(args[0]) is None {
        r matches Err(PipeArgsError::UnknownProtocol(other)) && other@ == args[0]
    } else if args.len() < 3 {
        r == Err::<PipeArgs, PipeArgsError>(PipeArgsError::Missing)
    } else if Ipv4Addr::from_dotted(args[2]) is None {
        r == Err::<PipeArgs, PipeArgsError>(PipeArgsError::BadOurIp)
    } else if args.len() < 4 {
        r == Err::<PipeArgs, PipeArgsError>(PipeArgsError::Missing)
    } else if Ipv4Addr::from_dotted(args[3]) is None {
        r == Err::<PipeArgs, PipeArgsError>(PipeArgsError::BadServerIp)
    } else if args.len() < 5 {
        r == Err::<PipeArgs, PipeArgsError>(PipeArgsError::Missing)
    } else if port_of(args[4]) is None {
        r == Err::<PipeArgs, PipeArgsError>(PipeArgsError::BadPort)
    } else if args.len() < 6 {
        r == Err::<PipeArgs, PipeArgsError>(PipeArgsError::Missing)
    } else if crate::socket::mac_bytes(args[5]) is None {
        r matches Err(PipeArgsError::BadMac(m)) && m@ == crate::socket::bad_mac(args[5])
    } else if args.len() > 6 && cpu_of(args[6]) is None {
        r == Err::<PipeArgs, PipeArgsError>(PipeArgsError::BadCpu)
    } else {
        r matches Ok(a) && {
            &&& a.proto == protocol_of(args[0])->Some_0
            &&& a.ifname@ == args[1]
            &&& a.our_ip == Ipv4Addr::from_dotted(args[2])->Some_0
            &&& a.server.ip == Ipv4Addr::from_dotted(args[3])->Some_0
            &&& a.server.port == port_of(args[4])->Some_0
            &&& a.peer_mac@ == crate::socket::mac_bytes(args[5])->Some_0
            &&& a.cpu == if args.len() > 6 {
                cpu_of(args[6])->Some_0
            } else {
                DEFAULT_CPU as nat
            }
        }
    }
}

/// Reads a number up to `max`.
pub(crate) fn number(s: &str, max: u64) -> (r: Option<u64>)
    ensures
        r is Some <==> crate::text::uint_value(s@, 10, max as nat) is Some,
        r matches Some(v) ==> v == crate::text::uint_value(s@, 10, max as nat)->Some_0,
{
    let chars = chars_of(s);
    parse_uint(chars.as_slice(), 10, max)
}

impl PipeArgs {
    /// Reads the arguments behind the program's name.
    pub fn parse(args: &Vec<String>) -> (r: Result<PipeArgs, PipeArgsError>)
        ensures
            args_mean(args.deep_view(), r),
    {
        if args.len() == 0 {
            return Err(PipeArgsError::Missing);
        }
        let proto = match parse_protocol(args[0].as_str()) {
            Some(proto) => proto,
            None => {
                return Err(PipeArgsError::UnknownProtocol(args[0].clone()));
            },
        };
        if args.len() < 3 {
            return Err(PipeArgsError::Missing);
        }
        let our_ip = match Ipv4Addr::parse(args[2].as_str()) {
            Some(ip) => ip,
            None => {
                return Err(PipeArgsError::BadOurIp);
            },
        };
        if args.len() < 4 {
            return Err(PipeArgsError::Missing);
        }
        let server_ip = match Ipv4Addr::parse(args[3].as_str()) {
            Some(ip) => ip,
            None => {
                return Err(PipeArgsError::BadServerIp);
            },
        };
        if args.len() < 5 {
            return Err(PipeArgsError::Missing);
        }
        let port: u16 = match number(args[4].as_str(), 65535) {
            Some(port) => port as u16,
            None => {
                return Err(PipeArgsError::BadPort);
            },
        };
        if args.len() < 6 {
            return Err(PipeArgsError::Missing);
        }
        let peer_mac = match parse_mac(args[5].as_str()) {
            Ok(mac) => mac,
            Err(m) => {
                return Err(PipeArgsError::BadMac(m));
            },
        };
        let cpu: usize = if args.len() > 6 {
            match number(args[6].as_str(), usize::MAX as u64) {
                Some(cpu) => cpu as usize,
                None => {
                    return Err(PipeArgsError::BadCpu);
                },
            }
        } else {
            DEFAULT_CPU
        };
        let server = SocketAddrV4::new(server_ip, port);
        Ok(PipeArgs { proto, ifname: args[1].clone(), our_ip, server, peer_mac, cpu })
    }
}

// ---------------------------------------------------------------------------
// Handshake
// ---------------------------------------------------------------------------

/// What to do after a pass of the handshake.
#[derive(Debug, Clone, Copy, PartialEq, Eq, Structural)]
pub enum HandshakeStep {
    Connected,
    Again,
    Interrupted,
    TimedOut,
    Failed(SocketError),
}

/// Decides after a pass of the handshake. The socket never blocks, so the
/// deadline and the signal check are the caller's, who reports on both.
pub fn handshake_step(
    polled: Result<bool, SocketError>,
    running: bool,
    past_deadline: bool,
) -> (r: HandshakeStep)
    ensures
        r == match polled {
            Err(e) => HandshakeStep::Failed(e),
            Ok(true) => HandshakeStep::Connected,
            Ok(false) => if !running {
                HandshakeStep::Interrupted
            } else if past_deadline {
                HandshakeStep::TimedOut
            } else {
                HandshakeStep::Again
            },
        },
{
    match polled {
        Err(e) => HandshakeStep::Failed(e),
        Ok(established) => if established {
            HandshakeStep::Connected
        } else if !running {
            HandshakeStep::Interrupted
        } else if past_deadline {
            HandshakeStep::TimedOut
        } else {
            HandshakeStep::Again
        },
    }
}

/// How an endpoint is written.
pub open spec fn endpoint_text(a: SocketAddrV4) -> Seq<char> {
    a.ip.dotted() + ":"@ + crate::text::decimal_digits(a.port as nat)
}

fn endpoint(a: SocketAddrV4) -> (r: String)
    ensures
        r@ == endpoint_text(a),
{
    let mut m = a.ip.to_text();
    m.append(":");
    m.append(decimal(a.port as u64).as_str());
    m
}

/// What is said of a handshake that took too long.
pub fn timeout_message(peer: SocketAddrV4) -> (r: String)
    ensures
        r@ == "handshake to "@ + endpoint_text(peer) + " timed out"@,
{
    let mut m = String::new();
    m.append("handshake to ");
    m.append(endpoint(peer).as_str());
    m.append(" timed out");
    assert(m@ =~= "handshake to "@ + endpoint_text(peer) + " timed out"@);
    m
}

/// What is said of a connection that stands.
pub fn connected_message(local: SocketAddrV4, peer: SocketAddrV4) -> (r: String)
    ensures
        r@ == "-- connected "@ + endpoint_text(local) + " -> "@ + endpoint_text(peer) + " --"@,
{
    let mut m = String::new();
    m.append("-- connected ");
    m.append(endpoint(local).as_str());
    m.append(" -> ");
    m.append(endpoint(peer).as_str());
    m.append(" --");
    assert(m@ =~= "-- connected "@ + endpoint_text(local) + " -> "@ + endpoint_text(peer)
        + " --"@);
    m
}

// ---------------------------------------------------------------------------
// The loop
// ---------------------------------------------------------------------------

/// What standard input had.
#[derive(Debug)]
pub enum Input {
    Data(Vec<u8>),
    Nothing,
    /// It has ended.
    Ended,
}

/// What to do with the socket's sending half.
#[derive(Debug, Clone, Copy, PartialEq, Eq, Structural)]
pub enum Outgoing {
    /// Send what is pending.
    Send,
    /// Close it: all input was sent.
    Close,
    Nothing,
}

/// What a receive came to.
#[derive(Debug, Clone, Copy, PartialEq, Eq, Structural)]
pub enum Incoming {
    Bytes(usize),
    WouldBlock,
    Interrupted,
    Failed,
}

/// What to do after a receive.
#[derive(Debug, Clone, Copy, PartialEq, Eq, Structural)]
pub enum Next {
    /// Write that many bytes out, and note the time.
    Write(usize),
    Again,
    Stop,
    Fail,
}

/// The state of a pipe.
#[derive(Debug)]
pub struct Pipe {
    pub proto: Protocol,
    /// Unsent tail: what the socket would not take waits here while receiving
    /// goes on.
    pub pending: Vec<u8>,
    pub stdin_done: bool,
    pub closed: bool,
}

impl Pipe {
    pub fn new(proto: Protocol) -> (r: Pipe)
        ensures
            r.proto == proto,
            r.pending@.len() == 0,
            !r.stdin_done,
            !r.closed,
    {
        Pipe { proto, pending: Vec::new(), stdin_done: false, closed: false }
    }

    /// Takes what standard input had.
    pub fn input(&mut self, input: Input)
        ensures
            final(self).proto == old(self).proto,
            final(self).closed == old(self).closed,
            final(self).stdin_done == (old(self).stdin_done || input is Ended),
            final(self).pending@ == match input {
                Input::Data(data) => old(self).pending@ + data@,
                _ => old(self).pending@,
            },
    {
        match input {
            Input::Data(data) => {
                self.pending.extend_from_slice(data.as_slice());
                assert(self.pending@ =~= old(self).pending@ + data@);
            },
            Input::Nothing => {},
            Input::Ended => {
                self.stdin_done = true;
            },
        }
    }

    /// What to do with the sending half now. It is closed once, when standard
    /// input has ended and nothing of it is pending.
    pub fn outgoing(&mut self) -> (r: Outgoing)
        ensures
            r == if old(self).pending@.len() > 0 {
                Outgoing::Send
            } else if old(self).stdin_done && !old(self).closed {
                Outgoing::Close
            } else {
                Outgoing::Nothing
            },
            *final(self) == (Pipe { closed: old(self).closed || r is Close, ..*old(self) }),
    {
        if self.pending.len() > 0 {
            Outgoing::Send
        } else if self.stdin_done && !self.closed {
            self.closed = true;
            Outgoing::Close
        } else {
            Outgoing::Nothing
        }
    }

    /// Notes that the first `n` pending bytes were sent.
    pub fn sent(&mut self, n: usize)
        requires
            n <= old(self).pending@.len(),
        ensures
            final(self).proto == old(self).proto,
            final(self).stdin_done == old(self).stdin_done,
            final(self).closed == old(self).closed,
            final(self).pending@ == old(self).pending@.skip(n as int),
    {
        let rest = self.pending.split_off(n);
        assert(rest@ =~= old(self).pending@.skip(n as int));
        self.pending = rest;
    }

    /// What to do after a receive, with `idle` nanoseconds since the last one
    /// that brought anything. Zero bytes are the peer's end of the stream. UDP
    /// has no such thing: once all input was sent and the peer has been quiet
    /// for [`UDP_IDLE`], there is nothing left to wait for.
    pub fn received(&self, incoming: Incoming, idle: u64) -> (r: Next)
        ensures
            r == match incoming {
                Incoming::Bytes(0) => Next::Stop,
                Incoming::Bytes(n) => Next::Write(n),
                Incoming::WouldBlock => if self.proto is Udp && self.closed && idle > UDP_IDLE {
                    Next::Stop
                } else {
                    Next::Again
                },
                Incoming::Interrupted => Next::Stop,
                Incoming::Failed => Next::Fail,
            },
    {
        match incoming {
            Incoming::Bytes(n) => if n == 0 {
                Next::Stop
            } else {
                Next::Write(n)
            },
            Incoming::WouldBlock => match self.proto {
                Protocol::Udp => if self.closed && idle > UDP_IDLE {
                    Next::Stop
                } else {
                    Next::Again
                },
                Protocol::Tcp => Next::Again,
            },
            Incoming::Interrupted => Next::Stop,
            Incoming::Failed => Next::Fail,
        }
    }
}

// ---------------------------------------------------------------------------
// Laws
// ---------------------------------------------------------------------------

/// A step of a pipe, with all of the input so far and all that was sent of it.
pub open spec fn flows(input: Seq<u8>, sent: Seq<u8>, pending: Seq<u8>) -> bool {
    input == sent + pending
}

/// What goes in comes out, in order and once: input and sends keep the sent
/// bytes and the pending ones together the whole input.
pub proof fn nothing_is_lost(
    input: Seq<u8>,
    sent: Seq<u8>,
    pending: Seq<u8>,
    data: Seq<u8>,
    n: int,
)
    requires
        flows(input, sent, pending),
        0 <= n <= pending.len(),
    ensures
        flows(input + data, sent, pending + data),
        flows(input, sent + pending.take(n), pending.skip(n)),
        pending.len() == 0 ==> sent == input,
{
    assert(input + data =~= sent + (pending + data));
    assert((sent + pending.take(n)) + pending.skip(n) =~= sent + pending);
    assert(pending.len() == 0 ==> sent + pending =~= sent);
}

} // verus!
