//! Two ends over a wire in memory: ours, and a peer that listens.

use std::cell::RefCell;
use std::collections::VecDeque;
use std::rc::Rc;

use rtrb::RingBuffer;
use smoltcp::iface::{Config as IfaceConfig, Interface, SocketHandle, SocketSet};
use smoltcp::phy::{self, Device, DeviceCapabilities, Medium};
use smoltcp::socket::tcp;
use smoltcp::time::Instant;
use smoltcp::wire::{HardwareAddress, IpAddress, IpCidr};

use xskip::addr::{Ipv4Addr, SocketAddrV4};
use xskip::net::Session;
use xskip::ring::Completions;
use xskip::socket::{
    Config, ErrorKind, HugePage, Link, Plane, Sent, Socket, SocketError, XdpMode, Xsk,
};
use xskip::tcp::{handshake, ConnectError, Stream, TcpState};

type Queue = Rc<RefCell<VecDeque<Vec<u8>>>>;

struct Wire {
    rx: Queue,
    tx: Queue,
}

struct RxToken(Vec<u8>);

struct TxToken(Queue);

impl phy::RxToken for RxToken {
    fn consume<R, F: FnOnce(&[u8]) -> R>(self, f: F) -> R {
        f(&self.0)
    }
}

impl phy::TxToken for TxToken {
    fn consume<R, F: FnOnce(&mut [u8]) -> R>(self, len: usize, f: F) -> R {
        let mut packet = vec![0; len];
        let r = f(&mut packet);
        self.0.borrow_mut().push_back(packet);
        r
    }
}

impl Device for Wire {
    type RxToken<'a> = RxToken;
    type TxToken<'a> = TxToken;

    fn receive(&mut self, _: Instant) -> Option<(RxToken, TxToken)> {
        let packet = self.rx.borrow_mut().pop_front()?;
        Some((RxToken(packet), TxToken(self.tx.clone())))
    }

    fn transmit(&mut self, _: Instant) -> Option<TxToken> {
        Some(TxToken(self.tx.clone()))
    }

    fn capabilities(&self) -> DeviceCapabilities {
        let mut c = DeviceCapabilities::default();
        c.medium = Medium::Ip;
        c.max_transmission_unit = 1500;
        c
    }
}

fn interface(device: &mut Wire) -> Interface {
    Interface::new(IfaceConfig::new(HardwareAddress::Ip), device, Instant::from_micros(0))
}

struct Peer {
    device: Wire,
    iface: Interface,
    sockets: SocketSet<'static>,
    handle: SocketHandle,
}

impl Peer {
    fn socket(&mut self) -> &mut tcp::Socket<'static> {
        self.sockets.get_mut(self.handle)
    }
}

/// Our device, and the peer at 10.0.0.2 that listens on port 6667.
fn network() -> (Wire, Peer) {
    let (a, b) = (Queue::default(), Queue::default());
    let ours = Wire { rx: a.clone(), tx: b.clone() };
    let mut device = Wire { rx: b, tx: a };
    let mut iface = interface(&mut device);
    iface.update_ip_addrs(|addrs| {
        addrs.push(IpCidr::new(IpAddress::v4(10, 0, 0, 2), 24)).unwrap();
    });
    let mut socket = tcp::Socket::new(
        tcp::SocketBuffer::new(vec![0; 4096]),
        tcp::SocketBuffer::new(vec![0; 4096]),
    );
    socket.listen(6667).unwrap();
    let mut sockets = SocketSet::new(Vec::new());
    let handle = sockets.add(socket);
    (ours, Peer { device, iface, sockets, handle })
}

/// Polls both ends until nothing moves, from the given time in milliseconds.
fn exchange(stream: &mut Stream, device: &mut Wire, peer: &mut Peer, from: i64) {
    for i in 0..20 {
        let now = Instant::from_millis(from + i * 20);
        stream.iface.poll(now, device, &mut stream.sockets);
        peer.iface.poll(now, &mut peer.device, &mut peer.sockets);
    }
}

const OURS: Ipv4Addr = Ipv4Addr { a: 10, b: 0, c: 0, d: 1 };

fn server(port: u16) -> SocketAddrV4 {
    SocketAddrV4::new(Ipv4Addr::new(10, 0, 0, 2), port)
}

fn connected() -> (Stream, Wire, Peer) {
    let (mut device, mut peer) = network();
    let mut stream = Stream::new(interface(&mut device), OURS, false);
    assert_eq!(stream.state(), TcpState::Closed);
    assert_eq!(stream.start_connect(server(6667), 49321), Ok(()));
    assert_eq!(stream.state(), TcpState::SynSent);
    exchange(&mut stream, &mut device, &mut peer, 0);
    assert_eq!(stream.state(), TcpState::Established);
    (stream, device, peer)
}

#[test]
fn handshake_reaches_the_peer_from_our_endpoint() {
    let (_, _, mut peer) = connected();
    let remote = peer.socket().remote_endpoint().unwrap();
    assert_eq!(remote.addr, IpAddress::v4(10, 0, 0, 1));
    assert_eq!(remote.port, 49321);
}

/// A connection starts from the address whose network the peer is in.
#[test]
fn the_nearest_address_is_the_source() {
    for (other, port) in [([192, 168, 0, 1], 6667), ([10, 0, 1, 9], 6667)] {
        let (mut device, mut peer) = network();
        let mut iface = interface(&mut device);
        let [a, b, c, d] = other;
        iface.update_ip_addrs(|addrs| {
            addrs.push(IpCidr::new(IpAddress::v4(a, b, c, d), 24)).unwrap();
        });
        let mut stream = Stream::new(iface, OURS, false);
        stream.start_connect(server(port), 49321).unwrap();
        exchange(&mut stream, &mut device, &mut peer, 0);
        let remote = peer.socket().remote_endpoint().unwrap();
        assert_eq!(remote.addr, IpAddress::v4(10, 0, 0, 1));
    }
}

#[test]
fn handshake_states() {
    assert_eq!(handshake(TcpState::Established), Some(true));
    assert_eq!(handshake(TcpState::Closed), None);
    assert_eq!(handshake(TcpState::SynSent), Some(false));
    assert_eq!(handshake(TcpState::CloseWait), Some(false));
}

#[test]
fn connect_refuses_what_cannot_be_addressed() {
    let (mut device, _) = network();
    let mut stream = Stream::new(interface(&mut device), OURS, true);
    let err = Err(ConnectError::Unaddressable);
    assert_eq!(stream.start_connect(server(0), 49321), err);
    assert_eq!(stream.start_connect(server(6667), 0), err);
    let nowhere = SocketAddrV4::new(Ipv4Addr::new(0, 0, 0, 0), 6667);
    assert_eq!(stream.start_connect(nowhere, 49321), err);
    assert_eq!(stream.state(), TcpState::Closed);
    assert_eq!(stream.start_connect(server(6667), 49321), Ok(()));
    assert_eq!(
        stream.start_connect(server(6667), 49321),
        Err(ConnectError::InvalidState)
    );
}

#[test]
fn bytes_flow_both_ways() {
    let (mut stream, mut device, mut peer) = connected();
    assert!(stream.may_send());
    assert_eq!(stream.send(b"hello"), Ok(5));
    exchange(&mut stream, &mut device, &mut peer, 1000);
    let mut buf = [0; 16];
    assert_eq!(peer.socket().recv_slice(&mut buf), Ok(5));
    assert_eq!(&buf[..5], b"hello");

    let mut buf = [9; 4];
    assert_eq!(stream.recv(&mut buf), None);
    peer.socket().send_slice(b"abcdef").unwrap();
    exchange(&mut stream, &mut device, &mut peer, 2000);
    assert_eq!(stream.recv(&mut buf), Some(4));
    assert_eq!(&buf, b"abcd");
    assert_eq!(stream.recv(&mut buf), Some(2));
    assert_eq!(&buf, b"efcd");
    assert_eq!(stream.recv(&mut buf), None);
}

#[test]
fn sends_are_short_when_the_queue_is_full() {
    let (mut stream, mut device, mut peer) = connected();
    assert_eq!(stream.send(&vec![1; 65000]), Ok(65000));
    assert_eq!(stream.send(&vec![2; 1000]), Ok(535));
    assert_eq!(stream.send(&[3; 10]), Ok(0));
    // The peer stops reading, so its window closes and ours stays shut.
    exchange(&mut stream, &mut device, &mut peer, 1000);
    assert_eq!(stream.send(&vec![4; 65535]), Ok(4096));
    assert_eq!(stream.send(&[5; 10]), Ok(0));
}

#[test]
fn sends_and_reads_concatenate() {
    let (mut stream, mut device, mut peer) = connected();
    assert_eq!(stream.send(b"one "), Ok(4));
    assert_eq!(stream.send(b"two"), Ok(3));
    exchange(&mut stream, &mut device, &mut peer, 1000);
    assert_eq!(heard(&mut peer), "one two");
    peer.socket().send_slice(b"abcdefg").unwrap();
    exchange(&mut stream, &mut device, &mut peer, 2000);
    let mut got = Vec::new();
    for size in [2, 1, 3, 4] {
        let mut buf = vec![0; size];
        let n = stream.recv(&mut buf).unwrap();
        got.extend_from_slice(&buf[..n]);
    }
    assert_eq!(got, b"abcdefg");
}

#[test]
fn nothing_is_sent_before_the_handshake_or_after_the_close() {
    let (mut device, mut peer) = network();
    let mut stream = Stream::new(interface(&mut device), OURS, false);
    assert!(!stream.may_send());
    assert_eq!(stream.send(b"x"), Ok(0));
    stream.start_connect(server(6667), 49321).unwrap();
    exchange(&mut stream, &mut device, &mut peer, 0);
    assert_eq!(stream.send(b"bye"), Ok(3));
    stream.close();
    assert_eq!(stream.state(), TcpState::FinWait1);
    assert_eq!(stream.send(b"x"), Ok(0));
    stream.close();
    assert_eq!(stream.state(), TcpState::FinWait1);
    // What was queued before still arrives.
    exchange(&mut stream, &mut device, &mut peer, 1000);
    let mut buf = [0; 16];
    assert_eq!(peer.socket().recv_slice(&mut buf), Ok(3));
}

#[test]
fn end_of_stream_comes_after_the_last_byte() {
    let (mut stream, mut device, mut peer) = connected();
    peer.socket().send_slice(b"last").unwrap();
    peer.socket().close();
    exchange(&mut stream, &mut device, &mut peer, 1000);
    assert_eq!(stream.state(), TcpState::CloseWait);
    let mut buf = [0; 16];
    assert_eq!(stream.recv(&mut buf), Some(4));
    // The connection is still ours to close.
    assert_eq!(stream.recv(&mut buf), None);
    stream.close();
    assert_eq!(stream.state(), TcpState::LastAck);
    exchange(&mut stream, &mut device, &mut peer, 2000);
    assert_eq!(stream.state(), TcpState::Closed);
    assert_eq!(stream.recv(&mut buf), Some(0));
    assert_eq!(stream.recv(&mut buf), Some(0));
}

#[test]
fn received_bytes_are_appended() {
    let (mut stream, mut device, mut peer) = connected();
    let mut acc = b"ab".to_vec();
    stream.recv_into(&mut acc);
    assert_eq!(acc, b"ab");
    peer.socket().send_slice(b"cdef").unwrap();
    exchange(&mut stream, &mut device, &mut peer, 1000);
    stream.recv_into(&mut acc);
    assert_eq!(acc, b"abcdef");
}

/// Small segments leave at once.
#[test]
fn nagle_is_off_where_asked() {
    for (nagle, packets) in [(false, 2), (true, 1)] {
        let (mut device, mut peer) = network();
        let mut stream = Stream::new(interface(&mut device), OURS, nagle);
        stream.start_connect(server(6667), 49321).unwrap();
        exchange(&mut stream, &mut device, &mut peer, 0);
        let now = Instant::from_millis(1000);
        let mut sent = 0;
        for _ in 0..2 {
            stream.send(b"x").unwrap();
            stream.iface.poll(now, &mut device, &mut stream.sockets);
            sent += device.tx.borrow_mut().drain(..).count();
        }
        assert_eq!(sent, packets);
    }
}

// ---------------------------------------------------------------------------
// Through the socket
// ---------------------------------------------------------------------------

fn tcp_socket() -> (Socket, Wire, Peer) {
    let (mut device, peer) = network();
    let cfg = Config {
        ifindex: 1,
        our_ip: OURS,
        our_mac: [1; 6],
        peer_mac: [2; 6],
        queue_id: 0,
        mtu: 1500,
        hugepage: HugePage::Off,
        xdp_mode: XdpMode::Copy,
    };
    let xsk = Xsk::new(1500, 4096).unwrap();
    let link = Link::Tcp(interface(&mut device), 0);
    (Socket::new(link, cfg, xsk, 49321).unwrap(), device, peer)
}

fn poll_both(sock: &mut Socket, device: &mut Wire, peer: &mut Peer, from: i64) {
    match &mut sock.plane {
        Plane::Tcp(t) => exchange(&mut t.stream, device, peer, from),
        Plane::Udp(_) => unreachable!(),
    }
}

fn send(sock: &mut Socket, buf: &[u8]) -> Result<usize, SocketError> {
    let comp = Completions { desc: &[], producer: 0, consumer: 0 };
    let step = sock.send(&mut [], &comp, buf, 0)?;
    assert!(step.done);
    assert_eq!(step.datagram, None);
    let Sent(n) = step.sent;
    Ok(n)
}

#[test]
fn tcp_socket_connects_sends_and_receives() {
    let (mut sock, mut device, mut peer) = tcp_socket();
    assert_eq!(send(&mut sock, b"x"), Err(SocketError::NotConnected));
    assert_eq!(sock.poll_connect(), Err(SocketError::NotConnected));
    assert!(!sock.wants_recv(1));
    sock.connect(server(6667)).unwrap();
    assert_eq!(sock.poll_connect(), Ok(false));
    poll_both(&mut sock, &mut device, &mut peer, 0);
    assert_eq!(sock.poll_connect(), Ok(true));
    assert_eq!(sock.registered_keys(), [sock.key_for(server(6667))]);

    assert_eq!(send(&mut sock, b""), Ok(0));
    assert_eq!(send(&mut sock, b"ping"), Ok(4));
    poll_both(&mut sock, &mut device, &mut peer, 1000);
    let mut buf = [0; 8];
    assert_eq!(peer.socket().recv_slice(&mut buf), Ok(4));
    peer.socket().send_slice(b"pong").unwrap();
    poll_both(&mut sock, &mut device, &mut peer, 2000);
    assert!(sock.wants_recv(8));
    assert!(!sock.wants_recv(0));
    let r = sock.recv(&[], None, &mut [], &mut buf);
    assert_eq!(r.received, Some(4));
    assert_eq!(&buf[..4], b"pong");
    assert_eq!(sock.recv(&[], None, &mut [], &mut buf).received, None);
    assert_eq!(sock.recv(&[], None, &mut [], &mut []).received, None);

    sock.close();
    peer.socket().close();
    poll_both(&mut sock, &mut device, &mut peer, 3000);
    assert_eq!(sock.recv(&[], None, &mut [], &mut buf).received, Some(0));
}

#[test]
fn a_refused_connection_says_so() {
    let (mut sock, mut device, mut peer) = tcp_socket();
    sock.connect(server(7)).unwrap();
    poll_both(&mut sock, &mut device, &mut peer, 0);
    let e = sock.poll_connect().unwrap_err();
    assert_eq!(e, SocketError::ConnectionRefused);
    assert_eq!(e.kind(), ErrorKind::ConnectionRefused);
    assert_eq!(e.message().unwrap(), "connection refused");
}

#[test]
fn a_connect_that_fails_leaves_the_socket_unconnected() {
    let (mut sock, _, _) = tcp_socket();
    let e = sock.connect(server(0)).unwrap_err();
    assert_eq!(e, SocketError::TcpConnect(ConnectError::Unaddressable));
    assert_eq!(e.message().unwrap(), "tcp connect: Unaddressable");
    assert_eq!(sock.remote, None);
    // Its key is in the map all the same, and is not forgotten.
    assert_eq!(sock.registered_keys(), [sock.key_for(server(0))]);
    sock.connect(server(6667)).unwrap();
    let e = sock.connect(server(7)).unwrap_err();
    assert_eq!(e.message().unwrap(), "tcp connect: InvalidState");
    assert_eq!(sock.remote, Some(server(6667)));
    assert_eq!(
        sock.registered_keys(),
        [sock.key_for(server(0)), sock.key_for(server(6667)), sock.key_for(server(7))]
    );
}

// ---------------------------------------------------------------------------
// A chat session
// ---------------------------------------------------------------------------

/// All that the peer has received, as text.
fn heard(peer: &mut Peer) -> String {
    let mut buf = [0; 4096];
    let n = peer.socket().recv_slice(&mut buf).unwrap();
    String::from_utf8(buf[..n].to_vec()).unwrap()
}

#[test]
fn a_session_registers_joins_and_answers() {
    let (mut stream, mut device, mut peer) = connected();
    let (mut to_ui, mut shown) = RingBuffer::<String>::new(16);
    let (mut to_net, mut from_ui) = RingBuffer::<String>::new(16);
    let mut session = Session::new("me".to_string(), "#test".to_string());

    // It introduces itself, once.
    assert!(session.pass(&mut stream, &mut to_ui).is_empty());
    assert!(session.pass(&mut stream, &mut to_ui).is_empty());
    exchange(&mut stream, &mut device, &mut peer, 1000);
    assert_eq!(heard(&mut peer), "NICK me\r\nUSER me 0 * :me\r\n");
    assert!(!session.registered && !session.joined);

    // A welcome, a ping and half a line come in; a command is waiting.
    peer.socket().send_slice(b":s 001 me :hi\r\nPING :tok en\r\n:a!u@h JO").unwrap();
    exchange(&mut stream, &mut device, &mut peer, 2000);
    to_net.push("PRIVMSG #test :yo".to_string()).unwrap();
    let replies = session.pass(&mut stream, &mut to_ui);
    while session.command(&mut stream, &mut from_ui) {}
    session.reply(&mut stream, replies);
    assert!(session.registered && session.joined);
    assert_eq!(session.rx_acc, b":a!u@h JO");
    exchange(&mut stream, &mut device, &mut peer, 3000);
    assert_eq!(
        heard(&mut peer),
        "JOIN #test\r\nPRIVMSG #test :yo\r\nPONG :tok en\r\n"
    );
    let lines: Vec<String> = std::iter::from_fn(|| shown.pop().ok()).collect();
    assert_eq!(lines, ["001 me hi", "-- registered --", "PING tok en"]);

    // The rest of the line.
    peer.socket().send_slice(b"IN #test\r\n").unwrap();
    exchange(&mut stream, &mut device, &mut peer, 4000);
    assert!(session.pass(&mut stream, &mut to_ui).is_empty());
    assert_eq!(shown.pop().unwrap(), "* a joined #test");
    assert!(session.rx_acc.is_empty());
}

#[test]
fn a_session_waits_for_the_connection() {
    let (mut device, mut peer) = network();
    let mut stream = Stream::new(interface(&mut device), OURS, true);
    let (mut to_ui, _shown) = RingBuffer::<String>::new(1);
    let (mut to_net, mut from_ui) = RingBuffer::<String>::new(1);
    let mut session = Session::new("n".to_string(), "#c".to_string());
    assert!(session.pass(&mut stream, &mut to_ui).is_empty());
    assert!(!session.sent_registration);
    // A command is lost while nothing can be sent.
    to_net.push("QUIT".to_string()).unwrap();
    assert!(session.command(&mut stream, &mut from_ui));
    assert!(!session.command(&mut stream, &mut from_ui));
    stream.start_connect(server(6667), 49321).unwrap();
    exchange(&mut stream, &mut device, &mut peer, 0);
    session.pass(&mut stream, &mut to_ui);
    assert!(session.sent_registration);
    exchange(&mut stream, &mut device, &mut peer, 1000);
    assert_eq!(heard(&mut peer), "NICK n\r\nUSER n 0 * :n\r\n");
}

/// A command that is in the queue is sent by the next call, oldest first.
#[test]
fn waiting_commands_are_sent_in_order() {
    let (mut stream, mut device, mut peer) = connected();
    let (mut to_net, mut from_ui) = RingBuffer::<String>::new(4);
    let session = Session::new("n".to_string(), "#c".to_string());
    assert!(!session.command(&mut stream, &mut from_ui));
    to_net.push("A 1".to_string()).unwrap();
    to_net.push("B \u{e9}".to_string()).unwrap();
    assert!(session.command(&mut stream, &mut from_ui));
    to_net.push("C".to_string()).unwrap();
    assert!(session.command(&mut stream, &mut from_ui));
    assert!(session.command(&mut stream, &mut from_ui));
    assert!(!session.command(&mut stream, &mut from_ui));
    exchange(&mut stream, &mut device, &mut peer, 1000);
    assert_eq!(heard(&mut peer), "A 1\r\nB \u{e9}\r\nC\r\n");
}

/// Lines that find the queue full are dropped, and the session goes on.
#[test]
fn a_full_ui_queue_drops_lines() {
    let (mut stream, mut device, mut peer) = connected();
    let (mut to_ui, mut shown) = RingBuffer::<String>::new(1);
    let mut session = Session::new("n".to_string(), "#c".to_string());
    peer.socket().send_slice(b"A 1\r\nPING :t\r\nB 2\r\n").unwrap();
    exchange(&mut stream, &mut device, &mut peer, 1000);
    assert_eq!(session.pass(&mut stream, &mut to_ui), [b"PONG :t".to_vec()]);
    assert_eq!(shown.pop().unwrap(), "A 1");
    assert!(shown.pop().is_err());
}
