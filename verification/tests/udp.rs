use xskip::addr::{Ipv4Addr, SocketAddrV4};
use xskip::udp::Framing;
use xskip::wire::{ETH_HDR_LEN, UDP_OVERHEAD};

/// What `frame_size_for` hands back for a standard 1500-byte link.
const FRAME_SIZE: u32 = 2048;

fn framing() -> Framing {
    Framing {
        src_mac: [0x02, 0, 0, 0, 0, 1],
        dst_mac: [0x02, 0, 0, 0, 0, 2],
        local: SocketAddrV4::new(Ipv4Addr::new(10, 0, 0, 1), 49321),
        remote: Some(SocketAddrV4::new(Ipv4Addr::new(10, 0, 0, 2), 6667)),
    }
}

/// The peer sees our src/dst swapped.
fn mirror(f: &Framing) -> Framing {
    Framing {
        src_mac: f.dst_mac,
        dst_mac: f.src_mac,
        local: f.remote.unwrap(),
        remote: Some(f.local),
    }
}

#[test]
fn udp_frame_round_trip() {
    let f = framing();
    let payload = b"payload over udp\r\n";
    let mut frame = [0u8; FRAME_SIZE as usize];
    let n = f.build(&mut frame, payload);
    assert_eq!(n, ETH_HDR_LEN + UDP_OVERHEAD + payload.len());
    assert_eq!(&frame[0..6], &f.dst_mac);
    assert_eq!(&frame[6..12], &f.src_mac);
    assert_eq!(mirror(&f).parse(&frame[..n]), Some(&payload[..]));
}

/// The largest datagram `send` builds on a 1500-byte link still frames to
/// exactly one MTU and parses back whole.
#[test]
fn udp_frame_at_max_payload() {
    const MTU: usize = 1500;
    let f = framing();
    let payload = vec![0xabu8; MTU - UDP_OVERHEAD];
    let mut frame = [0u8; FRAME_SIZE as usize];
    let n = f.build(&mut frame, &payload);
    assert_eq!(n, ETH_HDR_LEN + MTU);
    assert_eq!(mirror(&f).parse(&frame[..n]), Some(&payload[..]));
}

#[test]
fn udp_frame_rejects_other_flows() {
    let f = framing();
    let mut frame = [0u8; FRAME_SIZE as usize];
    let n = f.build(&mut frame, b"x");
    let mut peer = mirror(&f);

    // Wrong peer port, wrong peer address, and not-yet-connected all drop.
    peer.remote = Some(SocketAddrV4::new(Ipv4Addr::new(10, 0, 0, 1), 1234));
    assert_eq!(peer.parse(&frame[..n]), None);
    peer.remote = Some(SocketAddrV4::new(Ipv4Addr::new(10, 0, 0, 9), 49321));
    assert_eq!(peer.parse(&frame[..n]), None);
    peer.remote = None;
    assert_eq!(peer.parse(&frame[..n]), None);
}

#[test]
fn udp_frame_rejects_non_ipv4_ethertype() {
    let f = framing();
    let mut frame = [0u8; FRAME_SIZE as usize];
    let n = f.build(&mut frame, b"x");
    frame[12..14].copy_from_slice(&0x86ddu16.to_be_bytes());
    assert_eq!(mirror(&f).parse(&frame[..n]), None);
}

#[test]
fn udp_frame_bytes() {
    let f = framing();
    let mut frame = [0xeeu8; 50];
    let n = f.build(&mut frame, b"hi!");
    assert_eq!(n, 45);
    assert_eq!(
        frame[..n],
        [
            0x02, 0x00, 0x00, 0x00, 0x00, 0x02, 0x02, 0x00, 0x00, 0x00, 0x00, 0x01, 0x08, 0x00,
            0x45, 0x00, 0x00, 0x1f, 0x00, 0x00, 0x40, 0x00, 0x40, 0x11, 0x26, 0xcc, 0x0a, 0x00,
            0x00, 0x01, 0x0a, 0x00, 0x00, 0x02, 0xc0, 0xa9, 0x1a, 0x0b, 0x00, 0x0b, 0x87, 0xb7,
            0x68, 0x69, 0x21,
        ]
    );
    // What stands behind the frame is left alone.
    assert_eq!(frame[n..], [0xee; 5]);
}

/// A checksum that comes out as zero is sent as all ones: zero says that there
/// is none.
#[test]
fn udp_checksum_is_never_zero() {
    let mut frame = [0u8; 64];
    framing().build(&mut frame, &[0x11, 0x23]);
    assert_eq!(frame[40..42], [0xff, 0xff]);
}

#[test]
fn padding_behind_a_frame_is_ignored() {
    let f = framing();
    let mut frame = [0u8; 60];
    f.build(&mut frame, b"x");
    assert_eq!(mirror(&f).parse(&frame), Some(&b"x"[..]));
}

/// Inbound frames may carry partial checksums, which are not verified.
#[test]
fn inbound_checksums_are_not_verified() {
    let f = framing();
    let mut frame = [0u8; 60];
    let n = f.build(&mut frame, b"x");
    frame[24] ^= 0x5a;
    frame[40] ^= 0x5a;
    assert_eq!(mirror(&f).parse(&frame[..n]), Some(&b"x"[..]));
}

#[test]
fn damaged_frames_are_dropped() {
    let f = framing();
    let mut good = [0u8; 60];
    let n = f.build(&mut good, b"xyz");
    let peer = mirror(&f);

    // Too short for an Ethernet header, an IPv4 header, the declared length.
    assert_eq!(peer.parse(&good[..0]), None);
    assert_eq!(peer.parse(&good[..13]), None);
    assert_eq!(peer.parse(&good[..20]), None);
    assert_eq!(peer.parse(&good[..n - 1]), None);

    // Another IP version, a fragment, another fragment, another protocol, a
    // datagram length that does not fit.
    for (at, value) in [(14, 0x65), (20, 0x20), (21, 0x01), (23, 6), (39, 7), (39, 200)] {
        let mut bad = good;
        bad[at] = value;
        assert_eq!(peer.parse(&bad[..n]), None, "byte {at}");
    }
}

/// A datagram to port zero is for nobody.
#[test]
fn port_zero_is_dropped() {
    let mut f = framing();
    f.remote = Some(SocketAddrV4::new(Ipv4Addr::new(10, 0, 0, 2), 0));
    let mut frame = [0u8; 60];
    let n = f.build(&mut frame, b"x");
    assert_eq!(mirror(&f).parse(&frame[..n]), None);
}

#[test]
fn empty_payload_is_framed_and_parsed() {
    let f = framing();
    let mut frame = [0u8; 60];
    let n = f.build(&mut frame, b"");
    assert_eq!(n, ETH_HDR_LEN + UDP_OVERHEAD);
    assert_eq!(mirror(&f).parse(&frame[..n]), Some(&b""[..]));
}

#[test]
fn ip_options_are_skipped() {
    let f = framing();
    let mut plain = [0u8; 60];
    let n = f.build(&mut plain, b"abc");
    let mut frame = [0u8; 64];
    frame[..34].copy_from_slice(&plain[..34]);
    frame[34..38].copy_from_slice(&[1, 1, 1, 0]);
    frame[38..n + 4].copy_from_slice(&plain[34..n]);
    frame[14] = 0x46;
    frame[17] += 4;
    assert_eq!(mirror(&f).parse(&frame[..n + 4]), Some(&b"abc"[..]));
}
