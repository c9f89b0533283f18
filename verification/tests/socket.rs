use xskip::addr::{Ipv4Addr, SocketAddrV4};
use xskip::ring::{Completions, Desc};
use xskip::socket::{
    after_attach, bad_mtu, flow_key, frame_size_for, mac_from_file, parse_mac, parse_mtu, umem_reg_error, AttachStep, BindStep, Clock, Config,
    ErrorKind, HugePage, Link, Plane, Sent, Socket, SocketError, XdpAttachment, XdpMode, Xsk,
};
use xskip::tcp::SendError;

#[test]
fn frame_size_follows_the_mtu() {
    // Rounded up to a power of two, never under the kernel's 2 KiB floor.
    assert_eq!(frame_size_for(1500, 4096).unwrap(), 2048);
    assert_eq!(frame_size_for(1400, 4096).unwrap(), 2048);
    assert_eq!(frame_size_for(576, 4096).unwrap(), 2048);
    // 3000 + 14 needs the next chunk up.
    assert_eq!(frame_size_for(3000, 4096).unwrap(), 4096);
    // Exactly one page of payload already overflows: the header goes in too.
    assert!(frame_size_for(4096, 4096).is_err());
    assert!(frame_size_for(9000, 4096).is_err());
    // A bigger page is a bigger ceiling.
    assert_eq!(frame_size_for(9000, 65536).unwrap(), 16384);
}

#[test]
fn mac_parsing() {
    assert_eq!(
        parse_mac("00:11:22:33:44:55").unwrap(),
        [0x00, 0x11, 0x22, 0x33, 0x44, 0x55]
    );
    assert!(parse_mac("00:11:22:33:44").is_err());
    assert!(parse_mac("00:11:22:33:44:55:66").is_err());
    assert!(parse_mac("zz:11:22:33:44:55").is_err());
}

/// The key has to match `struct flow` in the BPF program byte for byte.
/// Get the order or endianness wrong and nothing errors - the lookup just
/// never matches and no packet is ever redirected.
#[test]
fn flow_key_matches_the_bpf_struct_layout() {
    let local = SocketAddrV4::new(Ipv4Addr::new(10, 99, 0, 1), 49160);
    let remote = SocketAddrV4::new(Ipv4Addr::new(10, 99, 0, 2), 6667);

    assert_eq!(
        flow_key(local, remote),
        [
            10, 99, 0, 2, // remote addr, network order
            0x1a, 0x0b, // remote port 6667, big endian
            10, 99, 0, 1, // local addr
            0xc0, 0x08, // local port 49160
        ]
    );

    // Direction is load-bearing: only peer->us is keyed, so a hairpinned
    // copy of our own output cannot match and be redirected back at us.
    assert_ne!(flow_key(local, remote), flow_key(remote, local));
}

#[test]
fn different_flows_have_different_keys() {
    let ends = [
        SocketAddrV4::new(Ipv4Addr::new(10, 0, 0, 1), 0x0102),
        SocketAddrV4::new(Ipv4Addr::new(10, 0, 0, 1), 0x0201),
        SocketAddrV4::new(Ipv4Addr::new(1, 0, 0, 10), 0x0102),
    ];
    let mut keys = Vec::new();
    for local in ends {
        for remote in ends {
            keys.push(flow_key(local, remote));
        }
    }
    keys.sort();
    keys.dedup();
    assert_eq!(keys.len(), 9);
}

#[test]
fn constants_match_the_system() {
    assert_eq!(xskip::socket::ENOBUFS, libc::ENOBUFS);
    assert_eq!(xskip::socket::RLIM_INFINITY, libc::RLIM_INFINITY);
    assert_eq!(xskip::socket::MAP_HUGE_SHIFT as i32, libc::MAP_HUGE_SHIFT);
    assert_eq!(xskip::socket::CONNECT_TIMEOUT, 10);
}

#[test]
fn frame_size_at_the_edges() {
    assert_eq!(frame_size_for(0, 4096).unwrap(), 2048);
    assert_eq!(frame_size_for(2034, 4096).unwrap(), 2048);
    assert_eq!(frame_size_for(2035, 4096).unwrap(), 4096);
    assert_eq!(frame_size_for(4082, 4096).unwrap(), 4096);
    let e = frame_size_for(9000, 4096).unwrap_err();
    assert_eq!(e.kind(), ErrorKind::InvalidInput);
    assert_eq!(
        e.message().unwrap(),
        "mtu 9000 needs 16384-byte UMEM frames, over the 4096-byte page limit for aligned chunks"
    );
    assert!(frame_size_for(1500, 1024).is_err());
}

#[test]
fn errors_say_what_is_wrong() {
    assert_eq!(SocketError::NotConnected.kind(), ErrorKind::NotConnected);
    assert_eq!(SocketError::NotConnected.message(), None);
    let e = SocketError::TcpSend(SendError::InvalidState);
    assert_eq!(e.kind(), ErrorKind::Other);
    assert_eq!(e.message().unwrap(), "tcp send: InvalidState");
}

#[test]
fn mac_parts_are_bytes_in_hexadecimal() {
    assert_eq!(parse_mac("A:b:+c:0d:EE:ff").unwrap(), [10, 11, 12, 13, 0xee, 0xff]);
    assert_eq!(parse_mac("100:1:2:3:4:5").unwrap_err(), "bad MAC \"100:1:2:3:4:5\"");
    assert_eq!(parse_mac(":1:2:3:4:5").unwrap_err(), "bad MAC \":1:2:3:4:5\"");
    assert_eq!(parse_mac("a\nb").unwrap_err(), "bad MAC \"a\\nb\"");
    assert!(parse_mac("").is_err());
    assert!(parse_mac("-1:1:2:3:4:5").is_err());
}

#[test]
fn mtu_is_a_number_on_a_line() {
    assert_eq!(parse_mtu("1500\n"), Some(1500));
    assert_eq!(parse_mtu(" 9000 "), Some(9000));
    assert_eq!(parse_mtu("\n"), None);
    assert_eq!(parse_mtu("0x10"), None);
    assert_eq!(parse_mtu("99999999999999999999999"), None);
    assert_eq!(bad_mtu("eth0", "no"), "mtu of eth0: no");
}

#[test]
fn hugepages() {
    assert_eq!(HugePage::Off.bytes(), None);
    assert_eq!(HugePage::Mb2.bytes(), Some(2 << 20));
    assert_eq!(HugePage::Gb1.bytes(), Some(1 << 30));
    assert_eq!(HugePage::Mb2.map_flag(8 << 20), Some(libc::MAP_HUGE_2MB));
    assert_eq!(HugePage::Gb1.map_flag(1 << 30), Some(libc::MAP_HUGE_1GB));
    assert_eq!(HugePage::Gb1.map_flag(8 << 20), None);
    assert_eq!(HugePage::Off.map_flag(8 << 20), None);
    assert_eq!(HugePage::Mb2.backing(true), HugePage::Mb2);
    assert_eq!(HugePage::Mb2.backing(false), HugePage::Off);
    assert_eq!(HugePage::Mb2.label(), "2 MiB hugepages");
    assert_eq!(HugePage::Gb1.label(), "1 GiB hugepages");
    assert_eq!(
        HugePage::Off.label(),
        "normal pages (hugetlb pool empty; sysctl vm.nr_hugepages)"
    );
}

#[test]
fn bind_and_attach_attempts_come_in_order() {
    let names = |m: XdpMode| -> Vec<(u16, &str)> {
        m.attempts().iter().map(|a| (a.flag, a.label)).collect()
    };
    let zc = (libc::XDP_ZEROCOPY, "zero-copy");
    let cp = (libc::XDP_COPY, "copy mode");
    assert_eq!(names(XdpMode::Copy), [cp]);
    assert_eq!(names(XdpMode::ZeroCopy), [zc]);
    assert_eq!(names(XdpMode::Auto), [zc, cp]);

    let a = XdpAttachment::attempts(7);
    assert_eq!(a[0], XdpAttachment { ifindex: 7, native: true });
    assert_eq!(a[1], XdpAttachment { ifindex: 7, native: false });
    assert_eq!(a[0].label(), "native");
    assert_eq!(a[1].label(), "generic");
}

#[test]
fn a_mac_file_is_trimmed() {
    assert_eq!(mac_from_file("00:11:22:33:44:55\n"), Ok([0, 0x11, 0x22, 0x33, 0x44, 0x55]));
    assert_eq!(mac_from_file(" x\n"), Err("bad MAC \"x\"".to_string()));
}

/// The first attempt that works decides, and its label is kept.
#[test]
fn binding_falls_back() {
    let attempts = XdpMode::Auto.attempts();
    let mut x = Xsk::new(1500, 4096).unwrap();
    match x.after_bind(&attempts, 0, false) {
        BindStep::Try(next) => assert_eq!(next.flag, libc::XDP_COPY),
        other => panic!("{other:?}"),
    }
    assert_eq!(x.bind_label, "");
    assert!(matches!(x.after_bind(&attempts, 1, true), BindStep::Bound));
    assert_eq!(x.bind_label, "copy mode");

    let mut x = Xsk::new(1500, 4096).unwrap();
    assert!(matches!(x.after_bind(&attempts, 0, true), BindStep::Bound));
    assert_eq!(x.bind_label, "zero-copy");

    let mut x = Xsk::new(1500, 4096).unwrap();
    assert!(matches!(x.after_bind(&attempts, 1, false), BindStep::Failed));
    assert!(matches!(x.after_bind(&XdpMode::Copy.attempts(), 0, false), BindStep::Failed));
    assert_eq!(x.bind_label, "");
}

#[test]
fn attaching_falls_back() {
    let native = XdpAttachment { ifindex: 7, native: true };
    let generic = XdpAttachment { ifindex: 7, native: false };
    assert_eq!(after_attach(7, 0, true), AttachStep::Done(native));
    assert_eq!(after_attach(7, 0, false), AttachStep::Try(generic));
    assert_eq!(after_attach(7, 1, true), AttachStep::Done(generic));
    assert_eq!(after_attach(7, 1, false), AttachStep::Failed);
}

#[test]
fn a_refused_umem_is_explained() {
    let m = umem_reg_error(Some(libc::ENOBUFS), "No buffer space", 8 << 20, Some(64 << 10));
    assert_eq!(
        m.unwrap(),
        "register 8192 KiB UMEM: No buffer space (RLIMIT_MEMLOCK is 64 KiB; \
         grant cap_ipc_lock or raise the memlock limit)"
    );
    assert_eq!(umem_reg_error(Some(libc::EINVAL), "x", 8 << 20, Some(1)), None);
    assert_eq!(umem_reg_error(None, "x", 8 << 20, Some(1)), None);
    assert_eq!(umem_reg_error(Some(libc::ENOBUFS), "x", 1, Some(libc::RLIM_INFINITY)), None);
    assert_eq!(umem_reg_error(Some(libc::ENOBUFS), "x", 1, None), None);
}

#[test]
fn the_clock_is_read_once_per_batch() {
    let mut c = Clock::new(5);
    assert!(c.due());
    assert_eq!(c.now(Some(100)), 100);
    for _ in 1..32 {
        assert!(!c.due());
        assert_eq!(c.now(None), 100);
    }
    assert!(c.due());
    assert_eq!(c.now(Some(200)), 200);
}

#[test]
fn the_driver_is_told_once_per_batch() {
    let mut x = Xsk::new(1500, 4096).unwrap();
    assert!(!x.kick_tx(1));
    x.tx_submit(0x400000, 60);
    x.tx_submit(0x400800, 60);
    assert!(x.kick_tx(1));
    assert!(!x.kick_tx(1));
    x.tx_submit(0x400000, 60);
    assert!(!x.kick_tx(0));
    assert!(!x.kick_tx(1));
    assert!(x.kick_rx(1));
    assert!(!x.kick_rx(0));
    x.huge = HugePage::Mb2;
    x.bind_label = "copy mode";
    assert_eq!(
        x.report(3),
        "-- UMEM: 8 MiB, 4096 x 2048-byte frames on 2 MiB hugepages; bound copy mode on queue 3 --"
    );
    assert!(Xsk::new(9000, 4096).is_err());
}

// ---------------------------------------------------------------------------
// UDP through the socket
// ---------------------------------------------------------------------------

struct End {
    sock: Socket,
    umem: Vec<u8>,
    fill: Vec<u64>,
}

fn config(last: u8, mtu: usize) -> Config {
    Config {
        ifindex: 1,
        our_ip: Ipv4Addr::new(10, 0, 0, last),
        our_mac: [last; 6],
        peer_mac: [3 - last; 6],
        queue_id: 9,
        mtu,
        hugepage: HugePage::Off,
        xdp_mode: XdpMode::Copy,
    }
}

fn end(last: u8) -> End {
    let xsk = Xsk::new(1500, 4096).unwrap();
    let umem = vec![0; xsk.rings.umem_len()];
    let sock = Socket::new(Link::Udp, config(last, 1500), xsk, 40000 + last as u16).unwrap();
    End { sock, umem, fill: vec![0; 2048] }
}

fn none() -> Completions<'static> {
    Completions { desc: &[0; 2048], producer: 0, consumer: 0 }
}

/// Sends a buffer, and returns the frames that it became.
fn send(e: &mut End, buf: &[u8]) -> Vec<Vec<u8>> {
    let mut frames = Vec::new();
    let mut at = 0;
    loop {
        let step = e.sock.send(&mut e.umem, &none(), buf, at).unwrap();
        let d = step.datagram.unwrap().submit.unwrap().desc;
        frames.push(e.umem[d.addr as usize..][..d.len as usize].to_vec());
        let Sent(n) = step.sent;
        assert_eq!(step.datagram.unwrap().accepted, n - at);
        at = n;
        if step.done {
            assert_eq!(at, buf.len());
            return frames;
        }
    }
}

fn recv(e: &mut End, frame: &[u8], buf: &mut [u8]) -> Option<usize> {
    e.umem[4096 + 256..][..frame.len()].copy_from_slice(frame);
    let got = Desc { addr: 4096 + 256, len: frame.len() as u32, options: 0 };
    let r = e.sock.recv(&e.umem, Some(got), &mut e.fill, buf);
    // The frame goes back, whatever it held.
    let producer = r.fill_producer.unwrap();
    assert_eq!(e.fill[producer as usize - 1], 4096);
    r.received
}

#[test]
fn an_mtu_without_room_is_refused() {
    for mtu in [0, 28] {
        let e = config(1, mtu).check().unwrap_err();
        assert_eq!(e, SocketError::MtuTooSmall { mtu });
        assert_eq!(e.kind(), ErrorKind::InvalidInput);
        let xsk = Xsk::new(mtu, 4096).unwrap();
        assert!(matches!(
            Socket::new(Link::Udp, config(1, mtu), xsk, 1),
            Err(SocketError::MtuTooSmall { .. })
        ));
    }
    assert_eq!(
        config(1, 28).check().unwrap_err().message().unwrap(),
        "mtu 28 leaves no room for an IPv4+UDP header"
    );
    assert!(config(1, 29).check().is_ok());
}

#[test]
fn udp_sockets_talk_to_each_other() {
    let (mut a, mut b) = (end(1), end(2));
    assert_eq!(a.sock.local(), SocketAddrV4::new(Ipv4Addr::new(10, 0, 0, 1), 40001));
    assert_eq!(a.sock.local_port(), 40001);
    assert_eq!(a.sock.queue_id, 9);
    assert_eq!(a.sock.max_udp_payload(), 1472);
    assert_eq!(a.sock.poll_connect(), Err(SocketError::NotConnected));
    assert!(a.sock.registered_keys().is_empty());
    a.sock.connect(b.sock.local()).unwrap();
    b.sock.connect(a.sock.local()).unwrap();
    assert_eq!(a.sock.poll_connect(), Ok(true));
    assert_eq!(
        a.sock.registered_keys(),
        [flow_key(a.sock.local(), b.sock.local())]
    );

    let buf: Vec<u8> = (0..4000u32).map(|i| i as u8).collect();
    let frames = send(&mut a, &buf);
    assert_eq!(frames.iter().map(|f| f.len()).collect::<Vec<_>>(), [1514, 1514, 1098]);
    let mut got = Vec::new();
    for f in &frames {
        let mut part = [0; 2000];
        let n = recv(&mut b, f, &mut part).unwrap();
        got.extend_from_slice(&part[..n]);
    }
    assert_eq!(got, buf);
    match &mut a.sock.plane {
        Plane::Udp(u) => assert!(u.xsk.kick_tx(1)),
        Plane::Tcp(_) => unreachable!(),
    }
    a.sock.close();
    assert_eq!(a.sock.poll_connect(), Ok(true));
}

/// A socket that was connected more than once remembers every flow.
#[test]
fn every_registered_key_is_kept() {
    let mut a = end(1);
    let local = a.sock.local();
    let peers = [
        SocketAddrV4::new(Ipv4Addr::new(10, 0, 0, 2), 1),
        SocketAddrV4::new(Ipv4Addr::new(10, 0, 0, 3), 2),
    ];
    for peer in peers {
        a.sock.connect(peer).unwrap();
        assert_eq!(a.sock.remote, Some(peer));
    }
    assert_eq!(
        a.sock.registered_keys(),
        [flow_key(local, peers[0]), flow_key(local, peers[1])]
    );
}

#[test]
fn a_buffer_of_whole_datagrams_has_no_empty_tail() {
    let (mut a, b) = (end(1), end(2));
    a.sock.connect(b.sock.local()).unwrap();
    let frames = send(&mut a, &[7; 2944]);
    assert_eq!(frames.iter().map(|f| f.len()).collect::<Vec<_>>(), [1514, 1514]);
}

#[test]
fn udp_receive_truncates_and_drops() {
    let (mut a, mut b) = (end(1), end(2));
    a.sock.connect(b.sock.local()).unwrap();
    b.sock.connect(a.sock.local()).unwrap();
    let frame = send(&mut a, b"abcdef").remove(0);
    let mut buf = [b'.'; 4];
    assert_eq!(recv(&mut b, &frame, &mut buf), Some(4));
    assert_eq!(&buf, b"abcd");
    let mut buf = [b'.'; 8];
    assert_eq!(recv(&mut b, &frame, &mut buf), Some(6));
    assert_eq!(&buf, b"abcdef..");
    // Our own output does not come back to us.
    assert_eq!(recv(&mut a, &frame, &mut buf), None);
    assert_eq!(&buf, b"abcdef..");
    // Nothing in the ring.
    assert_eq!(b.sock.recv(&b.umem, None, &mut b.fill, &mut buf).received, None);
}

#[test]
fn udp_send_without_a_peer_fails() {
    let mut a = end(1);
    assert_eq!(
        a.sock.send(&mut a.umem, &none(), b"x", 0),
        Err(SocketError::NotConnected)
    );
    let mut buf = [0; 4];
    assert_eq!(a.sock.recv(&a.umem, None, &mut a.fill, &mut buf).received, None);
}

/// A datagram that finds no frame is dropped, and reported as sent.
#[test]
fn an_empty_pool_drops_the_datagram() {
    let (mut a, b) = (end(1), end(2));
    a.sock.connect(b.sock.local()).unwrap();
    for _ in 0..2048 {
        send(&mut a, b"x");
    }
    let before = a.umem.clone();
    let step = a.sock.send(&mut a.umem, &none(), b"lost", 0).unwrap();
    assert_eq!(step.sent, Sent(4));
    assert!(step.done);
    let d = step.datagram.unwrap();
    assert_eq!(d.accepted, 4);
    assert_eq!(d.comp_consumer, Some(0));
    assert_eq!(d.submit, None);
    assert_eq!(a.umem, before);
    // Once a frame completes, it is sent from again.
    let mut desc = [0; 2048];
    desc[0] = 2048 * 3000;
    let comp = Completions { desc: &desc, producer: 1, consumer: 0 };
    let step = a.sock.send(&mut a.umem, &comp, b"kept", 0).unwrap();
    assert_eq!(step.datagram.unwrap().comp_consumer, Some(1));
    assert_eq!(step.datagram.unwrap().submit.unwrap().desc.addr, 2048 * 3000);
}
