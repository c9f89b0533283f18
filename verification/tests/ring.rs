use xskip::frame::{frame, frame_mut, outgoing_packet, received_packet};
use xskip::ring::{needs_wakeup, Completions, Desc, Rings};
use xskip::xsk::{
    bind_address, device_checksums, ring_map_len, umem_reg, wants_hugepages, XskSocket,
};
use xskip::xsk::{HUGE_2MB, XDP_COPY, XDP_USE_NEED_WAKEUP, XDP_ZEROCOPY};
use xskip::wire::{Checksum, checksum_caps};

/// Eight frames of 2 KiB, four of them to receive into.
fn rings() -> Rings {
    Rings::new(2048, 8, 4, 4, 4)
}

fn none() -> Completions<'static> {
    Completions { desc: &[0; 4], producer: 0, consumer: 0 }
}

#[test]
fn constants_are_the_systems() {
    assert_eq!(XDP_COPY, libc::XDP_COPY);
    assert_eq!(XDP_ZEROCOPY, libc::XDP_ZEROCOPY);
    assert_eq!(XDP_USE_NEED_WAKEUP, libc::XDP_USE_NEED_WAKEUP);
    assert_eq!(xskip::ring::XDP_RING_NEED_WAKEUP, libc::XDP_RING_NEED_WAKEUP);
    assert_eq!(HUGE_2MB, 2 << 20);
    for mode in [libc::XDP_COPY, libc::XDP_ZEROCOPY] {
        let a = bind_address(mode, 3, 1);
        assert_eq!(a.flags, mode | libc::XDP_USE_NEED_WAKEUP);
        assert_eq!((a.ifindex, a.queue_id, a.shared_umem_fd), (3, 1, 0));
    }
    let reg = umem_reg(0x7000, &rings());
    assert_eq!((reg.addr, reg.len, reg.chunk_size), (0x7000, 16384, 2048));
    assert_eq!((reg.headroom, reg.flags, reg.tx_metadata_len), (0, 0, 0));
}

#[test]
fn first_fill_hands_over_the_receive_frames() {
    let mut r = rings();
    let mut fill = [u64::MAX; 4];
    assert_eq!(r.fill_frames(&mut fill, 0, 4), Some(4));
    assert_eq!(fill, [0, 2048, 4096, 6144]);
    // The ring is full now.
    assert_eq!(r.fill_frames(&mut fill, 0, 4), None);
    // Two were consumed: two more go in, round the slots.
    assert_eq!(r.fill_frames(&mut fill, 2, 9), Some(6));
    assert_eq!(fill, [8192, 10240, 4096, 6144]);
}

#[test]
fn a_short_fill_takes_only_so_many() {
    let mut r = rings();
    let mut fill = [u64::MAX; 4];
    assert_eq!(r.fill_frames(&mut fill, 0, 0), None);
    assert_eq!(r.fill_frames(&mut fill, 0, 1), Some(1));
    assert_eq!(fill, [0, u64::MAX, u64::MAX, u64::MAX]);
}

#[test]
fn addresses_are_rounded_down_to_their_frame() {
    let r = rings();
    assert_eq!(r.frame_base(0), 0);
    assert_eq!(r.frame_base(2047), 0);
    assert_eq!(r.frame_base(2048), 2048);
    assert_eq!(r.frame_base(6144 + 256), 6144);
    assert_eq!(r.umem_len(), 16384);
    assert_eq!(r.frame_size(), 2048);
}

#[test]
fn recycled_frames_go_back_to_the_fill_ring() {
    let mut r = rings();
    let mut fill = [0; 4];
    r.fill_frames(&mut fill, 0, 4);
    assert_eq!(r.recycle(&mut fill, 2048 + 256), 5);
    assert_eq!(r.recycle(&mut fill, 6144), 6);
    assert_eq!(fill, [2048, 6144, 4096, 6144]);
}

#[test]
fn rx_is_read_in_order_and_wraps() {
    let r = rings();
    assert_eq!(r.rx_peek(7, 7), None);
    assert_eq!(r.rx_peek(7, 5), Some((1, 6)));
    assert_eq!(r.rx_peek(0, u32::MAX), Some((3, 0)));
}

#[test]
fn transmit_frames_come_from_the_pool_then_from_completions() {
    let mut r = rings();
    for want in [14336, 12288, 10240, 8192] {
        assert_eq!(r.tx_alloc(&none()), (Some(want), None));
    }
    // Nothing is left and nothing completed.
    assert_eq!(r.tx_alloc(&none()), (None, Some(0)));
    // Three completed, over the end of the counter.
    let comp = Completions {
        desc: &[8192, 10240 + 14, 77, 12288],
        producer: 2,
        consumer: u32::MAX,
    };
    assert_eq!(r.tx_alloc(&comp), (Some(10240), Some(2)));
    assert_eq!(r.tx_alloc(&none()), (Some(8192), None));
    assert_eq!(r.tx_alloc(&none()), (Some(12288), None));
    assert_eq!(r.tx_alloc(&none()), (None, Some(0)));
}

#[test]
fn completions_are_checked() {
    let r = rings();
    assert!(none().fit(&r));
    let comp = |desc: &'static [u64], producer, consumer| {
        Completions { desc, producer, consumer }.fit(&r)
    };
    assert!(!comp(&[0; 3], 0, 0));
    assert!(comp(&[8192, 16383, 16384, 0], 2, 0));
    assert!(!comp(&[8192, 16383, 16384, 0], 3, 0));
    assert!(comp(&[0, 16384, 16384, 0], 1, u32::MAX));
    assert!(!comp(&[0, 16384, 16384, 0], 2, u32::MAX));
    let d = Desc { addr: 100, len: 28, options: 0 };
    assert!(d.inside(128));
    assert!(!d.inside(127));
    assert!(!Desc { addr: u64::MAX, len: 1, options: 0 }.inside(128));
}

#[test]
fn submits_fill_the_tx_ring_in_order() {
    let mut r = rings();
    for i in 0..6u32 {
        let s = r.tx_submit(8192, 60 + i);
        assert_eq!(s.slot, (i % 4) as usize);
        assert_eq!(s.desc, Desc { addr: 8192, len: 60 + i, options: 0 });
        assert_eq!(s.producer, i + 1);
    }
}

#[test]
fn wakeup_flag() {
    assert!(!needs_wakeup(0));
    assert!(needs_wakeup(1));
    assert!(!needs_wakeup(2));
    assert!(needs_wakeup(3));
}

#[test]
fn the_copy_mode_socket() {
    let s = XskSocket::new(5, true, 4096, 4096, 2048, 2048, 2048);
    assert_eq!(s.fd(), 5);
    assert!(s.hugepages());
    assert_eq!(s.rings.umem_len(), 16 << 20);
    assert!(s.kick_tx(1));
    assert!(!s.kick_tx(0));
    assert!(s.kick_rx(1));
    assert!(!s.kick_rx(0));
    assert!(wants_hugepages(16 << 20));
    assert!(!wants_hugepages((16 << 20) + 4096));
    assert_eq!(ring_map_len(320, 2048, 8), 320 + 16384);
    assert_eq!(device_checksums().udp, Checksum::Both);
    assert_eq!(device_checksums().tcp, Checksum::Tx);
    assert_eq!(checksum_caps().udp, Checksum::Tx);
}

#[test]
fn frames_are_pieces_of_the_umem() {
    let mut umem: Vec<u8> = (0..=255).collect();
    assert_eq!(frame(&umem, 16, 4), [16, 17, 18, 19]);
    frame_mut(&mut umem, 16, 2).copy_from_slice(&[1, 2]);
    assert_eq!(umem[15..19], [15, 1, 2, 18]);
}

#[test]
fn ethernet_headers_are_stripped_and_added() {
    let mut umem: Vec<u8> = (0..=255).collect();
    assert_eq!(received_packet(&umem, 16, 17), [30, 31, 32]);
    assert_eq!(received_packet(&umem, 16, 14), [0u8; 0]);
    assert_eq!(received_packet(&umem, 16, 3), [0u8; 0]);
    let packet = outgoing_packet(&mut umem, 100, 3, &[1; 6], &[2; 6]);
    assert_eq!(packet, [114, 115, 116]);
    packet.copy_from_slice(&[7, 8, 9]);
    assert_eq!(
        umem[99..118],
        [99, 1, 1, 1, 1, 1, 1, 2, 2, 2, 2, 2, 2, 8, 0, 7, 8, 9, 117]
    );
}
