use xskip::addr::{Ipv4Addr, SocketAddrV4};
use xskip::pipe::{
    connected_message, handshake_step, timeout_message, usage, HandshakeStep, Incoming, Input,
    Next, Outgoing, Pipe, PipeArgs, PipeArgsError, UDP_IDLE,
};
use xskip::socket::{Protocol, SocketError};

fn args(s: &str) -> Result<PipeArgs, PipeArgsError> {
    PipeArgs::parse(&s.split_whitespace().map(String::from).collect())
}

fn complaint(s: &str) -> String {
    args(s).unwrap_err().message()
}

#[test]
fn arguments_are_read() {
    let a = args("udp sp0 10.0.0.1 10.0.0.2 6667 00:11:22:33:44:55").unwrap();
    assert_eq!(a.proto, Protocol::Udp);
    assert_eq!(a.ifname, "sp0");
    assert_eq!(a.our_ip, Ipv4Addr::new(10, 0, 0, 1));
    assert_eq!(a.server, SocketAddrV4::new(Ipv4Addr::new(10, 0, 0, 2), 6667));
    assert_eq!(a.peer_mac, [0, 0x11, 0x22, 0x33, 0x44, 0x55]);
    assert_eq!(a.cpu, 2);
    let a = args("tcp sp0 10.0.0.1 10.0.0.2 6667 00:11:22:33:44:55 7").unwrap();
    assert_eq!(a.proto, Protocol::Tcp);
    assert_eq!(a.cpu, 7);
}

#[test]
fn the_first_wrong_argument_decides() {
    for missing in [
        "",
        "tcp",
        "tcp sp0",
        "tcp sp0 10.0.0.1",
        "tcp sp0 10.0.0.1 10.0.0.2",
        "tcp sp0 10.0.0.1 10.0.0.2 6667",
    ] {
        assert_eq!(complaint(missing), usage());
    }
    assert_eq!(complaint("sctp"), format!("unknown protocol \"sctp\"\n{}", usage()));
    assert_eq!(complaint("tcp sp0 10.0.0"), "bad our-ipv4");
    assert_eq!(complaint("tcp sp0 10.0.0.1 x y"), "bad server-ipv4");
    assert_eq!(complaint("tcp sp0 10.0.0.1 10.0.0.2 65536"), "bad port");
    assert_eq!(complaint("tcp sp0 10.0.0.1 10.0.0.2 1 m"), "bad MAC \"m\"");
    assert_eq!(complaint("tcp sp0 10.0.0.1 10.0.0.2 1 0:1:2:3:4:5 -1"), "bad cpu");
}

#[test]
fn addresses_are_dotted_decimal() {
    assert_eq!(Ipv4Addr::parse("0.1.20.255"), Some(Ipv4Addr::new(0, 1, 20, 255)));
    for bad in [
        "", "1.2.3", "1.2.3.4.5", "1.2.3.256", "1.2.3.04", "1.2.3.+4", "1.2.3.", "1..2.3",
        "1.2.3.4 ", "1.2.3.0004", "a.b.c.d", "00.1.2.3",
    ] {
        assert_eq!(Ipv4Addr::parse(bad), None, "{bad:?}");
    }
    assert_eq!(Ipv4Addr::new(1, 20, 255, 0).to_text(), "1.20.255.0");
    assert!(Ipv4Addr::new(10, 0, 0, 1).assignable());
    assert!(Ipv4Addr::new(0, 0, 0, 0).assignable());
    assert!(!Ipv4Addr::new(224, 0, 0, 1).assignable());
    assert!(!Ipv4Addr::new(255, 255, 255, 255).assignable());
    assert_eq!(Ipv4Addr::new(1, 2, 3, 4).octets(), [1, 2, 3, 4]);
}

#[test]
fn handshake_steps() {
    assert_eq!(handshake_step(Ok(true), false, true), HandshakeStep::Connected);
    assert_eq!(handshake_step(Ok(false), true, false), HandshakeStep::Again);
    assert_eq!(handshake_step(Ok(false), true, true), HandshakeStep::TimedOut);
    assert_eq!(handshake_step(Ok(false), false, true), HandshakeStep::Interrupted);
    let e = SocketError::ConnectionRefused;
    assert_eq!(handshake_step(Err(e), true, false), HandshakeStep::Failed(e));
    let peer = SocketAddrV4::new(Ipv4Addr::new(10, 0, 0, 2), 80);
    assert_eq!(timeout_message(peer), "handshake to 10.0.0.2:80 timed out");
    let local = SocketAddrV4::new(Ipv4Addr::new(10, 0, 0, 1), 40000);
    assert_eq!(connected_message(local, peer), "-- connected 10.0.0.1:40000 -> 10.0.0.2:80 --");
}

#[test]
fn input_waits_until_it_is_sent() {
    let mut p = Pipe::new(Protocol::Tcp);
    assert_eq!(p.outgoing(), Outgoing::Nothing);
    p.input(Input::Data(b"abc".to_vec()));
    p.input(Input::Nothing);
    p.input(Input::Data(b"def".to_vec()));
    assert_eq!(p.outgoing(), Outgoing::Send);
    assert_eq!(p.pending, b"abcdef");
    p.sent(4);
    assert_eq!(p.pending, b"ef");
    p.sent(0);
    p.input(Input::Ended);
    assert_eq!(p.outgoing(), Outgoing::Send);
    p.sent(2);
    // Closed once, after the last byte.
    assert_eq!(p.outgoing(), Outgoing::Close);
    assert_eq!(p.outgoing(), Outgoing::Nothing);
}

#[test]
fn only_udp_gives_up_on_a_quiet_peer() {
    let mut p = Pipe::new(Protocol::Udp);
    assert_eq!(p.received(Incoming::Bytes(0), 0), Next::Stop);
    assert_eq!(p.received(Incoming::Bytes(9), 0), Next::Write(9));
    assert_eq!(p.received(Incoming::Interrupted, 0), Next::Stop);
    assert_eq!(p.received(Incoming::Failed, 0), Next::Fail);
    assert_eq!(p.received(Incoming::WouldBlock, UDP_IDLE + 1), Next::Again);
    p.input(Input::Ended);
    assert_eq!(p.outgoing(), Outgoing::Close);
    assert_eq!(p.received(Incoming::WouldBlock, UDP_IDLE), Next::Again);
    assert_eq!(p.received(Incoming::WouldBlock, UDP_IDLE + 1), Next::Stop);
    p.proto = Protocol::Tcp;
    assert_eq!(p.received(Incoming::WouldBlock, UDP_IDLE + 1), Next::Again);
}
