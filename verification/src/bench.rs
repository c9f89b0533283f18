//! The throughput bench: its options, its control message and what its consume
//! loop counts. The same loop serves either transport on either stack.

use vstd::prelude::*;

use crate::addr::{Ipv4Addr, SocketAddrV4};
use crate::pipe::{number, parse_protocol};
use crate::socket::{parse_mac, Protocol, XdpMode};
use crate::text::{chars_of, decimal, quote, same_text, string_of};

verus! {

/// Give up once the peer has been quiet for that many nanoseconds: UDP loses
/// the tail, so there is no other way to know the blast is over.
pub const IDLE: u64 = 500_000_000;

// ---------------------------------------------------------------------------
// Arguments
// ---------------------------------------------------------------------------

/// How the bench is called.
pub open spec fn usage_text() -> Seq<char> {
    "usage: rustssi-bench --stack <kernel|speedy> --proto <udp|tcp> --if <NAME> --local-ip <IPV4> --peer-ip <IPV4> --port <N> --peer-mac <MAC> --cpu <N> --queue <N> --count <N> --size <N> [--xdp-mode <copy|zerocopy|auto>] [--mode <consume|echo>]\n(--if, --peer-mac, --queue, --xdp-mode are ignored by the kernel stack;\n --mode echo sends every message straight back, for the peer to time round trips)"@
}

pub fn usage() -> (r: &'static str)
    ensures
        r@ == usage_text(),
{
    "usage: rustssi-bench --stack <kernel|speedy> --proto <udp|tcp> --if <NAME> --local-ip <IPV4> --peer-ip <IPV4> --port <N> --peer-mac <MAC> --cpu <N> --queue <N> --count <N> --size <N> [--xdp-mode <copy|zerocopy|auto>] [--mode <consume|echo>]\n(--if, --peer-mac, --queue, --xdp-mode are ignored by the kernel stack;\n --mode echo sends every message straight back, for the peer to time round trips)"
}

/// Why the bench cannot be called like that.
#[derive(Debug)]
pub enum ArgError {
    Help,
    /// An argument that is no flag.
    Unexpected(String),
    /// A flag without a value.
    NoValue(String),
    /// A flag that has to be there.
    Missing(String),
    /// A flag's value that cannot be parsed.
    BadValue(String, String),
    BadMac(String),
    UnknownProtocol(String),
    UnknownXdpMode(String),
    UnknownStack(String),
    /// There is nothing to count.
    Zero,
}

/// An error as text, for contracts.
pub enum ArgErrorView {
    Help,
    Unexpected(Seq<char>),
    NoValue(Seq<char>),
    Missing(Seq<char>),
    BadValue(Seq<char>, Seq<char>),
    BadMac(Seq<char>),
    UnknownProtocol(Seq<char>),
    UnknownXdpMode(Seq<char>),
    UnknownStack(Seq<char>),
    Zero,
}

impl View for ArgError {
    type V = ArgErrorView;

    open spec fn view(&self) -> ArgErrorView {
        match self {
            ArgError::Help => ArgErrorView::Help,
            ArgError::Unexpected(s) => ArgErrorView::Unexpected(s@),
            ArgError::NoValue(s) => ArgErrorView::NoValue(s@),
            ArgError::Missing(s) => ArgErrorView::Missing(s@),
            ArgError::BadValue(k, v) => ArgErrorView::BadValue(k@, v@),
            ArgError::BadMac(s) => ArgErrorView::BadMac(s@),
            ArgError::UnknownProtocol(s) => ArgErrorView::UnknownProtocol(s@),
            ArgError::UnknownXdpMode(s) => ArgErrorView::UnknownXdpMode(s@),
            ArgError::UnknownStack(s) => ArgErrorView::UnknownStack(s@),
            ArgError::Zero => ArgErrorView::Zero,
        }
    }
}

impl ArgErrorView {
    /// What the error says. `cause` says what is wrong with a value that
    /// cannot be parsed.
    pub open spec fn text(self, cause: Seq<char>) -> Seq<char> {
        match self {
            ArgErrorView::Help => usage_text(),
            ArgErrorView::Unexpected(s) => "unexpected argument "@ + crate::text::debug_quoted(s)
                + "\n"@ + usage_text(),
            ArgErrorView::NoValue(s) => "missing value for --"@ + s + "\n"@ + usage_text(),
            ArgErrorView::Missing(s) => "missing --"@ + s + "\n"@ + usage_text(),
            ArgErrorView::BadValue(k, v) => "bad --"@ + k + " "@ + crate::text::debug_quoted(v)
                + ": "@ + cause,
            ArgErrorView::BadMac(s) => s,
            ArgErrorView::UnknownProtocol(s) => "unknown protocol "@ + crate::text::debug_quoted(s)
                + "\n"@ + usage_text(),
            ArgErrorView::UnknownXdpMode(s) => "unknown xdp mode "@ + crate::text::debug_quoted(s)
                + "\n"@ + usage_text(),
            ArgErrorView::UnknownStack(s) => "unknown stack "@ + crate::text::debug_quoted(s)
                + "\n"@ + usage_text(),
            ArgErrorView::Zero => "--count and --size must be non-zero"@ + "\n"@ + usage_text(),
        }
    }
}

impl ArgError {
    pub fn message(&self, cause: &str) -> (r: String)
        ensures
            r@ == self@.text(cause@),
    {
        let mut m = String::new();
        match self {
            ArgError::Help => {
                m.append(usage());
                assert(m@ =~= usage_text());
                return m;
            },
            ArgError::BadValue(k, v) => {
                m.append("bad --");
                m.append(k.as_str());
                m.append(" ");
                m.append(quote(v.as_str()).as_str());
                m.append(": ");
                m.append(cause);
                assert(m@ =~= self@.text(cause@));
                return m;
            },
            ArgError::BadMac(s) => {
                return s.clone();
            },
            ArgError::Unexpected(s) => {
                m.append("unexpected argument ");
                m.append(quote(s.as_str()).as_str());
            },
            ArgError::NoValue(s) => {
                m.append("missing value for --");
                m.append(s.as_str());
            },
            ArgError::Missing(s) => {
                m.append("missing --");
                m.append(s.as_str());
            },
            ArgError::UnknownProtocol(s) => {
                m.append("unknown protocol ");
                m.append(quote(s.as_str()).as_str());
            },
            ArgError::UnknownXdpMode(s) => {
                m.append("unknown xdp mode ");
                m.append(quote(s.as_str()).as_str());
            },
            ArgError::UnknownStack(s) => {
                m.append("unknown stack ");
                m.append(quote(s.as_str()).as_str());
            },
            ArgError::Zero => {
                m.append("--count and --size must be non-zero");
            },
        }
        m.append("\n");
        m.append(usage());
        assert(m@ =~= self@.text(cause@));
        m
    }
}

/// The flags of a call and their values. A flag that is given twice has its
/// last value.
#[derive(Debug)]
pub struct Args {
    pairs: Vec<(String, String)>,
}

/// The map that pairs make up, one after another.
pub open spec fn map_of(pairs: Seq<(Seq<char>, Seq<char>)>) -> Map<Seq<char>, Seq<char>>
    decreases pairs.len(),
{
    if pairs.len() == 0 {
        Map::empty()
    } else {
        map_of(pairs.drop_last()).insert(pairs.last().0, pairs.last().1)
    }
}

impl View for Args {
    type V = Map<Seq<char>, Seq<char>>;

    closed spec fn view(&self) -> Map<Seq<char>, Seq<char>> {
        map_of(self.texts())
    }
}

/// Whether an argument is a flag.
pub open spec fn is_flag(s: Seq<char>) -> bool {
    s.len() >= 2 && s[0] == '-' && s[1] == '-'
}

/// What arguments mean, on top of those before them.
pub open spec fn args_from(args: Seq<Seq<char>>, before: Map<Seq<char>, Seq<char>>) -> Result<
    Map<Seq<char>, Seq<char>>,
    ArgErrorView,
>
    decreases args.len(),
{
    if args.len() == 0 {
        Ok(before)
    } else if !is_flag(args[0]) {
        Err(ArgErrorView::Unexpected(args[0]))
    } else if args[0].skip(2) == "help"@ {
        Err(ArgErrorView::Help)
    } else if args.len() == 1 {
        Err(ArgErrorView::NoValue(args[0].skip(2)))
    } else {
        args_from(args.skip(2), before.insert(args[0].skip(2), args[1]))
    }
}

impl Args {
    closed spec fn texts(&self) -> Seq<(Seq<char>, Seq<char>)> {
        Seq::new(self.pairs@.len(), |i: int| (self.pairs@[i].0@, self.pairs@[i].1@))
    }

    fn insert(&mut self, key: String, value: String)
        ensures
            final(self)@ == old(self)@.insert(key@, value@),
    {
        self.pairs.push((key, value));
        assert(self.texts().drop_last() =~= old(self).texts());
    }

    /// The value of a flag, if it was given.
    pub fn get(&self, key: &str) -> (r: Option<&str>)
        ensures
            r is Some <==> self@.contains_key(key@),
            r matches Some(v) ==> v@ == self@[key@],
    {
        let mut i: usize = self.pairs.len();
        assert(self.texts().take(i as int) =~= self.texts());
        while i > 0
            invariant
                i <= self.pairs@.len(),
                self@.contains_key(key@) == map_of(self.texts().take(i as int)).contains_key(key@),
                self@.contains_key(key@) ==> self@[key@] == map_of(
                    self.texts().take(i as int),
                )[key@],
            decreases i,
        {
            proof {
                assert(self.texts().take(i as int).drop_last() =~= self.texts().take(i - 1));
                assert(self.texts().take(i as int).last() == self.texts()[i - 1]);
            }
            if same_text(self.pairs[i - 1].0.as_str(), key) {
                return Some(self.pairs[i - 1].1.as_str());
            }
            i = i - 1;
        }
        None
    }
}

/// Reads the arguments behind the program's name: flags, each with its value.
pub fn parse_args(args: &Vec<String>) -> (r: Result<Args, ArgError>)
    ensures
        r is Ok <==> args_from(args.deep_view(), Map::empty()) is Ok,
        r matches Ok(map) ==> map@ == args_from(args.deep_view(), Map::empty())->Ok_0,
        r matches Err(e) ==> e@ == args_from(args.deep_view(), Map::empty())->Err_0,
{
    let mut map = Args { pairs: Vec::new() };
    let ghost all = args.deep_view();
    let mut i: usize = 0;
    assert(map@ =~= Map::<Seq<char>, Seq<char>>::empty());
    assert(all.skip(0) =~= all);
    while i < args.len()
        invariant
            i <= args@.len(),
            all == args.deep_view(),
            args_from(all, Map::empty()) == args_from(all.skip(i as int), map@),
        decreases args@.len() - i,
    {
        let flag = args[i].as_str();
        assert(all.skip(i as int)[0] == flag@);
        let chars = chars_of(flag);
        if chars.len() < 2 || chars[0] != '-' || chars[1] != '-' {
            return Err(ArgError::Unexpected(args[i].clone()));
        }
        let key = string_of(vstd::slice::slice_subrange(chars.as_slice(), 2, chars.len()));
        assert(key@ =~= flag@.skip(2));
        if same_text(key.as_str(), "help") {
            return Err(ArgError::Help);
        }
        if i + 1 == args.len() {
            return Err(ArgError::NoValue(key));
        }
        proof {
            assert(all.skip(i as int)[1] == args@[i + 1]@);
            assert(all.skip(i as int).skip(2) =~= all.skip(i + 2));
        }
        map.insert(key, args[i + 1].clone());
        i = i + 2;
    }
    Ok(map)
}

/// The value of a flag that has to be there.
pub fn arg<'a>(map: &'a Args, key: &str) -> (r: Result<&'a str, ArgError>)
    ensures
        r is Ok <==> map@.contains_key(key@),
        r matches Ok(v) ==> v@ == map@[key@],
        r matches Err(e) ==> e@ == ArgErrorView::Missing(key@),
{
    match map.get(key) {
        Some(v) => Ok(v),
        None => Err(ArgError::Missing(String::from_str(key))),
    }
}

/// The number up to `max` that a flag has to give.
pub open spec fn number_of(
    map: Map<Seq<char>, Seq<char>>,
    key: Seq<char>,
    max: nat,
) -> Result<nat, ArgErrorView> {
    if !map.contains_key(key) {
        Err(ArgErrorView::Missing(key))
    } else {
        match crate::text::uint_value(map[key], 10, max) {
            Some(v) => Ok(v),
            None => Err(ArgErrorView::BadValue(key, map[key])),
        }
    }
}

/// The address that a flag has to give.
pub open spec fn ip_of(map: Map<Seq<char>, Seq<char>>, key: Seq<char>) -> Result<
    Ipv4Addr,
    ArgErrorView,
> {
    if !map.contains_key(key) {
        Err(ArgErrorView::Missing(key))
    } else {
        match Ipv4Addr::from_dotted(map[key]) {
            Some(ip) => Ok(ip),
            None => Err(ArgErrorView::BadValue(key, map[key])),
        }
    }
}

/// Reads the number up to `max` that a flag has to give.
pub fn parse(map: &Args, key: &str, max: u64) -> (r: Result<u64, ArgError>)
    ensures
        r is Ok <==> number_of(map@, key@, max as nat) is Ok,
        r matches Ok(v) ==> v == number_of(map@, key@, max as nat)->Ok_0,
        r matches Err(e) ==> e@ == number_of(map@, key@, max as nat)->Err_0,
{
    let raw = match arg(map, key) {
        Ok(raw) => raw,
        Err(e) => {
            return Err(e);
        },
    };
    match number(raw, max) {
        Some(v) => Ok(v),
        None => Err(ArgError::BadValue(String::from_str(key), String::from_str(raw))),
    }
}

/// Reads the address that a flag has to give.
pub fn parse_ip(map: &Args, key: &str) -> (r: Result<Ipv4Addr, ArgError>)
    ensures
        r is Ok <==> ip_of(map@, key@) is Ok,
        r matches Ok(v) ==> v == ip_of(map@, key@)->Ok_0,
        r matches Err(e) ==> e@ == ip_of(map@, key@)->Err_0,
{
    let raw = match arg(map, key) {
        Ok(raw) => raw,
        Err(e) => {
            return Err(e);
        },
    };
    match Ipv4Addr::parse(raw) {
        Some(v) => Ok(v),
        None => Err(ArgError::BadValue(String::from_str(key), String::from_str(raw))),
    }
}

/// The bind mode that a call asks for.
pub open spec fn xdp_mode_of(map: Map<Seq<char>, Seq<char>>) -> Result<XdpMode, ArgErrorView> {
    if !map.contains_key("xdp-mode"@) || map["xdp-mode"@] == "auto"@ {
        Ok(XdpMode::Auto)
    } else if map["xdp-mode"@] == "copy"@ {
        Ok(XdpMode::Copy)
    } else if map["xdp-mode"@] == "zerocopy"@ {
        Ok(XdpMode::ZeroCopy)
    } else {
        Err(ArgErrorView::UnknownXdpMode(map["xdp-mode"@]))
    }
}

pub fn xdp_mode(map: &Args) -> (r: Result<XdpMode, ArgError>)
    ensures
        r is Ok <==> xdp_mode_of(map@) is Ok,
        r matches Ok(v) ==> v == xdp_mode_of(map@)->Ok_0,
        r matches Err(e) ==> e@ == xdp_mode_of(map@)->Err_0,
{
    match map.get("xdp-mode") {
        None => Ok(XdpMode::Auto),
        Some(s) => if same_text(s, "auto") {
            Ok(XdpMode::Auto)
        } else if same_text(s, "copy") {
            Ok(XdpMode::Copy)
        } else if same_text(s, "zerocopy") {
            Ok(XdpMode::ZeroCopy)
        } else {
            Err(ArgError::UnknownXdpMode(String::from_str(s)))
        },
    }
}

/// Whether every message is sent straight back.
pub fn echo_mode(map: &Args) -> (r: bool)
    ensures
        r == (map@.contains_key("mode"@) && map@["mode"@] == "echo"@),
{
    match map.get("mode") {
        Some(s) => same_text(s, "echo"),
        None => false,
    }
}

/// The network stack that is measured.
#[derive(Debug, Clone, Copy, PartialEq, Eq, Structural)]
pub enum Stack {
    Kernel,
    Speedy,
}

/// Reads the name of a stack.
pub fn parse_stack(s: &str) -> (r: Result<Stack, ArgError>)
    ensures
        s@ == "kernel"@ ==> r == Ok::<Stack, ArgError>(Stack::Kernel),
        s@ == "speedy"@ ==> r == Ok::<Stack, ArgError>(Stack::Speedy),
        r is Err <==> s@ != "kernel"@ && s@ != "speedy"@,
        r matches Err(e) ==> e@ == ArgErrorView::UnknownStack(s@),
{
    proof {
        reveal_strlit("kernel");
        reveal_strlit("speedy");
        assert("kernel"@[0] != "speedy"@[0]);
    }
    if same_text(s, "kernel") {
        Ok(Stack::Kernel)
    } else if same_text(s, "speedy") {
        Ok(Stack::Speedy)
    } else {
        Err(ArgError::UnknownStack(String::from_str(s)))
    }
}

/// What the bench is called with.
#[derive(Debug)]
pub struct Options {
    pub stack: String,
    pub proto: Protocol,
    pub ifname: String,
    pub local_ip: Ipv4Addr,
    pub peer: SocketAddrV4,
    pub peer_mac: [u8; 6],
    pub cpu: usize,
    pub queue: u32,
    pub count: u64,
    pub size: usize,
    pub xdp_mode: XdpMode,
    pub echo: bool,
}

/// The first flag that is missing or wrong, in the order in which they are
/// looked at.
pub open spec fn options_error(map: Map<Seq<char>, Seq<char>>) -> Option<ArgErrorView> {
    if !map.contains_key("stack"@) {
        Some(ArgErrorView::Missing("stack"@))
    } else if !map.contains_key("proto"@) {
        Some(ArgErrorView::Missing("proto"@))
    } else if crate::pipe::protocol_of(map["proto"@]) is None {
        Some(ArgErrorView::UnknownProtocol(map["proto"@]))
    } else if !map.contains_key("if"@) {
        Some(ArgErrorView::Missing("if"@))
    } else if let Err(e) = ip_of(map, "local-ip"@) {
        Some(e)
    } else if let Err(e) = ip_of(map, "peer-ip"@) {
        Some(e)
    } else if let Err(e) = number_of(map, "port"@, u16::MAX as nat) {
        Some(e)
    } else if !map.contains_key("peer-mac"@) {
        Some(ArgErrorView::Missing("peer-mac"@))
    } else if crate::socket::mac_bytes(map["peer-mac"@]) is None {
        Some(ArgErrorView::BadMac(crate::socket::bad_mac(map["peer-mac"@])))
    } else if let Err(e) = number_of(map, "cpu"@, usize::MAX as nat) {
        Some(e)
    } else if let Err(e) = number_of(map, "queue"@, u32::MAX as nat) {
        Some(e)
    } else if let Err(e) = number_of(map, "count"@, u64::MAX as nat) {
        Some(e)
    } else if let Err(e) = number_of(map, "size"@, usize::MAX as nat) {
        Some(e)
    } else if let Err(e) = xdp_mode_of(map) {
        Some(e)
    } else if number_of(map, "count"@, u64::MAX as nat)->Ok_0 == 0 || number_of(
        map,
        "size"@,
        usize::MAX as nat,
    )->Ok_0 == 0 {
        Some(ArgErrorView::Zero)
    } else {
        None
    }
}

impl Options {
    /// Whether these are the options that the flags give.
    pub open spec fn are(self, map: Map<Seq<char>, Seq<char>>) -> bool {
        &&& self.stack@ == map["stack"@]
        &&& self.proto == crate::pipe::protocol_of(map["proto"@])->Some_0
        &&& self.ifname@ == map["if"@]
        &&& self.local_ip == ip_of(map, "local-ip"@)->Ok_0
        &&& self.peer.ip == ip_of(map, "peer-ip"@)->Ok_0
        &&& self.peer.port == number_of(map, "port"@, u16::MAX as nat)->Ok_0
        &&& self.peer_mac@ == crate::socket::mac_bytes(map["peer-mac"@])->Some_0
        &&& self.cpu == number_of(map, "cpu"@, usize::MAX as nat)->Ok_0
        &&& self.queue == number_of(map, "queue"@, u32::MAX as nat)->Ok_0
        &&& self.count == number_of(map, "count"@, u64::MAX as nat)->Ok_0
        &&& self.size == number_of(map, "size"@, usize::MAX as nat)->Ok_0
        &&& self.xdp_mode == xdp_mode_of(map)->Ok_0
        &&& self.echo == (map.contains_key("mode"@) && map["mode"@] == "echo"@)
    }

    /// Reads the options out of the flags. The name of the stack is looked at
    /// later, by [`parse_stack`].
    pub fn from_args(map: &Args) -> (r: Result<Options, ArgError>)
        ensures
            r is Ok <==> options_error(map@) is None,
            r matches Ok(o) ==> o.are(map@),
            r matches Err(e) ==> e@ == options_error(map@)->Some_0,
    {
        let stack = match arg(map, "stack") {
            Ok(v) => v,
            Err(e) => {
                return Err(e);
            },
        };
        let proto_name = match arg(map, "proto") {
            Ok(v) => v,
            Err(e) => {
                return Err(e);
            },
        };
        let proto = match parse_protocol(proto_name) {
            Some(v) => v,
            None => {
                return Err(ArgError::UnknownProtocol(String::from_str(proto_name)));
            },
        };
        let ifname = match arg(map, "if") {
            Ok(v) => v,
            Err(e) => {
                return Err(e);
            },
        };
        let local_ip = match parse_ip(map, "local-ip") {
            Ok(v) => v,
            Err(e) => {
                return Err(e);
            },
        };
        let peer_ip = match parse_ip(map, "peer-ip") {
            Ok(v) => v,
            Err(e) => {
                return Err(e);
            },
        };
        let port: u64 = match parse(map, "port", 65535) {
            Ok(v) => v,
            Err(e) => {
                return Err(e);
            },
        };
        let mac = match arg(map, "peer-mac") {
            Ok(v) => v,
            Err(e) => {
                return Err(e);
            },
        };
        let peer_mac = match parse_mac(mac) {
            Ok(v) => v,
            Err(m) => {
                return Err(ArgError::BadMac(m));
            },
        };
        let cpu: u64 = match parse(map, "cpu", usize::MAX as u64) {
            Ok(v) => v,
            Err(e) => {
                return Err(e);
            },
        };
        let queue: u64 = match parse(map, "queue", u32::MAX as u64) {
            Ok(v) => v,
            Err(e) => {
                return Err(e);
            },
        };
        let count: u64 = match parse(map, "count", u64::MAX) {
            Ok(v) => v,
            Err(e) => {
                return Err(e);
            },
        };
        let size: u64 = match parse(map, "size", usize::MAX as u64) {
            Ok(v) => v,
            Err(e) => {
                return Err(e);
            },
        };
        let xdp_mode = match xdp_mode(map) {
            Ok(v) => v,
            Err(e) => {
                return Err(e);
            },
        };
        if count == 0 || size == 0 {
            return Err(ArgError::Zero);
        }
        Ok(
            Options {
                stack: String::from_str(stack),
                proto,
                ifname: String::from_str(ifname),
                local_ip,
                peer: SocketAddrV4::new(peer_ip, port as u16),
                peer_mac,
                cpu: cpu as usize,
                queue: queue as u32,
                count,
                size: size as usize,
                xdp_mode,
                echo: echo_mode(map),
            },
        )
    }
}

impl Options {
    /// How many of the received bytes are sent straight back, if any: all of a
    /// message, in echo mode. The end of a stream is no message.
    pub fn echoes(&self, received: Option<usize>) -> (r: Option<usize>)
        ensures
            r == if self.echo && received is Some && received->Some_0 > 0 {
                received
            } else {
                None
            },
    {
        match received {
            Some(n) => if self.echo && n > 0 {
                Some(n)
            } else {
                None
            },
            None => None,
        }
    }
}

// ---------------------------------------------------------------------------
// The run
// ---------------------------------------------------------------------------

/// The request to the peer: how many messages, of which size, and whether they
/// are to be sent back.
pub open spec fn control_text(echo: bool, count: u64, size: usize) -> Seq<char> {
    "RUSTSSI "@ + (if echo {
        "ECHO "@
    } else {
        Seq::empty()
    }) + crate::text::decimal_digits(count as nat) + " "@ + crate::text::decimal_digits(
        size as nat,
    ) + "\n"@
}

pub fn control_message(echo: bool, count: u64, size: usize) -> (r: String)
    ensures
        r@ == control_text(echo, count, size),
{
    let mut m = String::new();
    m.append("RUSTSSI ");
    if echo {
        m.append("ECHO ");
    }
    m.append(decimal(count).as_str());
    m.append(" ");
    m.append(decimal(size as u64).as_str());
    m.append("\n");
    assert(m@ =~= control_text(echo, count, size));
    m
}

/// What the consume loop has counted.
#[derive(Debug, Clone, Copy, PartialEq, Eq, Structural)]
pub struct Meter {
    pub proto: Protocol,
    pub count: u64,
    pub size: usize,
    pub msgs: u64,
    pub bytes: u64,
    /// Empty passes.
    pub spins: u64,
}

/// What to do after a pass of the consume loop.
#[derive(Debug, Clone, Copy, PartialEq, Eq, Structural)]
pub enum Tick {
    Again,
    /// Note the time: something arrived.
    ReadClock,
    /// Stop if nothing has arrived for [`IDLE`].
    CheckIdle,
    /// The stream has ended.
    Stop,
}

impl Meter {
    /// What is wanted fits the counters.
    pub open spec fn wf(self) -> bool {
        self.count * self.size <= u64::MAX && self.size > 0
    }

    /// How many whole messages have arrived. A TCP read is an arbitrary slice
    /// of the stream, not a message.
    pub open spec fn messages(self) -> nat {
        match self.proto {
            Protocol::Udp => self.msgs as nat,
            Protocol::Tcp => self.bytes as nat / self.size as nat,
        }
    }

    pub fn new(proto: Protocol, count: u64, size: usize) -> (r: Meter)
        ensures
            r == (Meter { proto, count, size, msgs: 0, bytes: 0, spins: 0 }),
    {
        Meter { proto, count, size, msgs: 0, bytes: 0, spins: 0 }
    }

    /// Whether all that was asked for has arrived.
    pub fn done(&self) -> (r: bool)
        requires
            self.wf(),
        ensures
            r == match self.proto {
                Protocol::Udp => self.msgs >= self.count,
                Protocol::Tcp => self.bytes >= self.count * self.size,
            },
    {
        match self.proto {
            Protocol::Udp => self.msgs >= self.count,
            Protocol::Tcp => {
                let want_bytes: u64 = self.count * self.size as u64;
                self.bytes >= want_bytes
            },
        }
    }

    /// Counts what a pass received, and says what to do. Reading the clock
    /// costs more than receiving a message, so it is read once per batch.
    pub fn tick(&mut self, received: Option<usize>) -> (r: Tick)
        requires
            old(self).msgs < u64::MAX,
            old(self).spins < u64::MAX,
            received matches Some(n) ==> old(self).bytes + n <= u64::MAX,
        ensures
            match received {
                Some(0) => r is Stop && *final(self) == *old(self),
                Some(n) => {
                    &&& *final(self) == (Meter {
                        msgs: (old(self).msgs + 1) as u64,
                        bytes: (old(self).bytes + n) as u64,
                        ..*old(self)
                    })
                    &&& r == if (old(self).msgs + 1) % 64 == 0 {
                        Tick::ReadClock
                    } else {
                        Tick::Again
                    }
                },
                None => {
                    &&& *final(self) == (Meter {
                        spins: (old(self).spins + 1) as u64,
                        ..*old(self)
                    })
                    &&& r == if (old(self).spins + 1) % 1024 == 0 {
                        Tick::CheckIdle
                    } else {
                        Tick::Again
                    }
                },
            },
    {
        match received {
            Some(n) => {
                if n == 0 {
                    return Tick::Stop;
                }
                self.msgs = self.msgs + 1;
                self.bytes = self.bytes + n as u64;
                let msgs: u64 = self.msgs;
                assert(msgs & 63 == msgs % 64) by (bit_vector);
                if msgs & 63 == 0 {
                    Tick::ReadClock
                } else {
                    Tick::Again
                }
            },
            None => {
                self.spins = self.spins + 1;
                let spins: u64 = self.spins;
                assert(spins & 1023 == spins % 1024) by (bit_vector);
                if spins & 1023 == 0 {
                    Tick::CheckIdle
                } else {
                    Tick::Again
                }
            },
        }
    }

    /// Whether the peer has been quiet for too long.
    pub fn idle(elapsed: u64) -> (r: bool)
        ensures
            r == (elapsed > IDLE),
    {
        elapsed > IDLE
    }

    /// How many messages have arrived.
    pub fn received(&self) -> (r: u64)
        requires
            self.size > 0,
        ensures
            r == self.messages(),
    {
        match self.proto {
            Protocol::Udp => self.msgs,
            Protocol::Tcp => self.bytes / self.size as u64,
        }
    }

    /// How many messages are missing.
    pub fn lost(&self) -> (r: u64)
        requires
            self.size > 0,
        ensures
            r == if self.messages() >= self.count {
                0
            } else {
                self.count - self.messages()
            },
    {
        self.count.saturating_sub(self.received())
    }
}

/// A run that is done has lost nothing.
pub proof fn done_means_nothing_lost(m: Meter)
    requires
        m.wf(),
        match m.proto {
            Protocol::Udp => m.msgs >= m.count,
            Protocol::Tcp => m.bytes >= m.count * m.size,
        },
    ensures
        m.messages() >= m.count,
{
    if m.proto is Tcp {
        vstd::arithmetic::div_mod::lemma_div_is_ordered(
            m.count * m.size,
            m.bytes as int,
            m.size as int,
        );
        vstd::arithmetic::div_mod::lemma_div_by_multiple(m.count as int, m.size as int);
    }
}

} // verus!
