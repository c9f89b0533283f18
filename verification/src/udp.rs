//! The UDP plane: Ethernet/IPv4/UDP framing straight in and out of UMEM frames.

use vstd::prelude::*;
use vstd::slice::slice_subrange;

use crate::addr::{Ipv4Addr, SocketAddrV4};
use crate::frame::{frame, frame_mut};
use crate::ring::{Completions, Desc, Submit};
use crate::socket::{SocketError, Xsk};
use crate::wire::{
    checksum_caps, copy_to_front, emit_ipv4, emit_udp, ipv4_payload, parse_ipv4, parse_udp,
    udp_payload, Ipv4Header, UdpHeader, ETH_HDR_LEN, IPV4_HEADER_LEN, PROTO_UDP, UDP_HEADER_LEN,
    UDP_OVERHEAD,
};

verus! {

/// The first byte of the EtherType of IPv4, `0x0800`.
pub const ETHERTYPE_IPV4_HI: u8 = 0x08;

/// The second byte of the EtherType of IPv4.
pub const ETHERTYPE_IPV4_LO: u8 = 0x00;

/// The hop limit of the datagrams we send.
pub const HOP_LIMIT: u8 = 64;

/// The Ethernet header of an IPv4 frame.
pub open spec fn ethernet_bytes(dst_mac: Seq<u8>, src_mac: Seq<u8>) -> Seq<u8> {
    dst_mac + src_mac + seq![ETHERTYPE_IPV4_HI, ETHERTYPE_IPV4_LO]
}

/// Writes the Ethernet header of an IPv4 frame to the start of `frame`.
pub fn write_ethernet(frame: &mut [u8], dst_mac: &[u8; 6], src_mac: &[u8; 6])
    requires
        old(frame)@.len() >= ETH_HDR_LEN,
    ensures
        final(frame)@ == ethernet_bytes(dst_mac@, src_mac@) + old(frame)@.skip(
            ETH_HDR_LEN as int,
        ),
{
    let header: [u8; 14] = [
        dst_mac[0],
        dst_mac[1],
        dst_mac[2],
        dst_mac[3],
        dst_mac[4],
        dst_mac[5],
        src_mac[0],
        src_mac[1],
        src_mac[2],
        src_mac[3],
        src_mac[4],
        src_mac[5],
        ETHERTYPE_IPV4_HI,
        ETHERTYPE_IPV4_LO,
    ];
    assert(header@ == ethernet_bytes(dst_mac@, src_mac@));
    copy_to_front(frame, header.as_slice());
}

/// Ethernet/IPv4/UDP header construction and matching for the UDP plane.
#[derive(Debug, Clone, Copy)]
pub struct Framing {
    pub src_mac: [u8; 6],
    pub dst_mac: [u8; 6],
    pub local: SocketAddrV4,
    pub remote: Option<SocketAddrV4>,
}

/// The IPv4 header of a datagram of `payload_len` bytes from `src` to `dst`.
pub open spec fn ip_header(src: Ipv4Addr, dst: Ipv4Addr, payload_len: nat) -> Ipv4Header {
    Ipv4Header {
        src,
        dst,
        next_header: PROTO_UDP,
        payload_len: (UDP_HEADER_LEN + payload_len) as usize,
        hop_limit: HOP_LIMIT,
    }
}

/// The bytes of a frame that carries `payload` from `local` to `remote`.
pub open spec fn frame_bytes(
    dst_mac: Seq<u8>,
    src_mac: Seq<u8>,
    local: SocketAddrV4,
    remote: SocketAddrV4,
    payload: Seq<u8>,
) -> Seq<u8> {
    ethernet_bytes(dst_mac, src_mac) + crate::wire::ipv4_emitted(
        ip_header(local.ip, remote.ip, payload.len()),
        crate::wire::Checksum::Tx,
    ) + crate::wire::udp_emitted(
        local.ip,
        remote.ip,
        UdpHeader { src_port: local.port, dst_port: remote.port },
        payload,
        crate::wire::Checksum::Tx,
    )
}

/// The payload that `frame` carries from `remote` to `local`, if it does:
/// an Ethernet frame with an IPv4 packet with a UDP datagram between exactly
/// these two endpoints.
pub open spec fn payload_of(
    local: SocketAddrV4,
    remote: SocketAddrV4,
    frame: Seq<u8>,
) -> Option<Seq<u8>> {
    let packet = frame.skip(ETH_HDR_LEN as int);
    let datagram = packet.subrange(
        crate::wire::ipv4_header_len(packet) as int,
        crate::wire::ipv4_total_len(packet) as int,
    );
    if frame.len() < ETH_HDR_LEN || frame[12] != ETHERTYPE_IPV4_HI || frame[13]
        != ETHERTYPE_IPV4_LO {
        None
    } else {
        match crate::wire::ipv4_accepted(packet, crate::wire::Checksum::Tx) {
            None => None,
            Some(ip) => if ip.next_header != PROTO_UDP || ip.src != remote.ip || ip.dst
                != local.ip {
                None
            } else {
                match crate::wire::udp_accepted(
                    ip.src,
                    ip.dst,
                    datagram,
                    crate::wire::Checksum::Tx,
                ) {
                    None => None,
                    Some(udp) => if udp.src_port != remote.port || udp.dst_port != local.port {
                        None
                    } else {
                        Some(
                            datagram.subrange(
                                UDP_HEADER_LEN as int,
                                crate::wire::udp_len(datagram) as int,
                            ),
                        )
                    },
                }
            },
        }
    }
}

impl Framing {
    /// Write a complete frame for `payload` into `frame`; returns its length.
    /// The frame must hold it, and its IPv4 length field must be able to say
    /// so.
    pub fn build(&self, frame: &mut [u8], payload: &[u8]) -> (r: usize)
        requires
            self.remote is Some,
            old(frame)@.len() >= ETH_HDR_LEN + UDP_OVERHEAD + payload@.len(),
            UDP_OVERHEAD + payload@.len() <= 0xffff,
        ensures
            r == ETH_HDR_LEN + UDP_OVERHEAD + payload@.len(),
            final(frame)@ == frame_bytes(
                self.dst_mac@,
                self.src_mac@,
                self.local,
                self.remote->Some_0,
                payload@,
            ) + old(frame)@.skip(r as int),
    {
        let remote: SocketAddrV4 = self.remote.unwrap();
        let total: usize = ETH_HDR_LEN + UDP_OVERHEAD + payload.len();
        let caps = checksum_caps();
        let ghost before = frame@;

        write_ethernet(frame, &self.dst_mac, &self.src_mac);
        let ghost mid = frame@;
        let (eth, packet) = frame.split_at_mut(ETH_HDR_LEN);
        let ip = Ipv4Header {
            src: self.local.ip,
            dst: remote.ip,
            next_header: PROTO_UDP,
            payload_len: UDP_HEADER_LEN + payload.len(),
            hop_limit: HOP_LIMIT,
        };
        emit_ipv4(packet, &ip, caps.ipv4);
        let (header, datagram) = packet.split_at_mut(IPV4_HEADER_LEN);
        let udp = UdpHeader { src_port: self.local.port, dst_port: remote.port };
        emit_udp(datagram, self.local.ip, remote.ip, &udp, payload, caps.udp);
        proof {
            let bytes = frame_bytes(self.dst_mac@, self.src_mac@, self.local, remote, payload@);
            assert(frame@ == bytes + before.skip(total as int));
        }
        total
    }

    /// The payload of a frame from our peer to us; `None` for any other frame.
    pub fn parse<'a>(&self, frame: &'a [u8]) -> (r: Option<&'a [u8]>)
        ensures
            r is Some <==> self.remote is Some && payload_of(
                self.local,
                self.remote->Some_0,
                frame@,
            ) is Some,
            r matches Some(p) ==> p@ == payload_of(
                self.local,
                self.remote->Some_0,
                frame@,
            )->Some_0,
    {
        let remote: SocketAddrV4 = match self.remote {
            Some(remote) => remote,
            None => {
                return None;
            },
        };
        if frame.len() < ETH_HDR_LEN || frame[12] != ETHERTYPE_IPV4_HI || frame[13]
            != ETHERTYPE_IPV4_LO {
            return None;
        }
        let caps = checksum_caps();
        let packet: &'a [u8] = slice_subrange(frame, ETH_HDR_LEN, frame.len());
        let ip = match parse_ipv4(packet, caps.ipv4) {
            Some(ip) => ip,
            None => {
                return None;
            },
        };
        if ip.next_header != PROTO_UDP || ip.src != remote.ip || ip.dst != self.local.ip {
            return None;
        }
        let datagram: &'a [u8] = ipv4_payload(packet);
        let udp = match parse_udp(datagram, ip.src, ip.dst, caps.udp) {
            Some(udp) => udp,
            None => {
                return None;
            },
        };
        if udp.src_port != remote.port || udp.dst_port != self.local.port {
            return None;
        }
        Some(udp_payload(datagram))
    }
}

// ---------------------------------------------------------------------------
// The plane
// ---------------------------------------------------------------------------

/// UDP over an AF_XDP socket of its own.
#[derive(Debug)]
pub struct UdpPlane {
    pub xsk: Xsk,
    pub framing: Framing,
}

/// A datagram that was taken.
#[derive(Debug, Clone, Copy, PartialEq, Eq, Structural)]
pub struct Datagram {
    /// How many payload bytes were taken.
    pub accepted: usize,
    /// The COMPLETION ring's consumer to publish, where that ring was read.
    pub comp_consumer: Option<u32>,
    /// What goes into the TX ring, unless the datagram was dropped.
    pub submit: Option<Submit>,
}

/// A pass over the RX ring.
#[derive(Debug, Clone, Copy, PartialEq, Eq, Structural)]
pub struct Receipt {
    /// How many payload bytes were received, if any.
    pub received: Option<usize>,
    /// The FILL ring's producer to publish, where a frame went back into it.
    pub fill_producer: Option<u32>,
}

/// How many bytes of a payload a buffer of `len` bytes takes.
pub open spec fn truncated(payload: Seq<u8>, len: nat) -> nat {
    if payload.len() <= len {
        payload.len()
    } else {
        len
    }
}

impl UdpPlane {
    pub open spec fn wf(self) -> bool {
        self.xsk.rings.wf()
    }

    /// What sending one datagram does, with the UMEM holding `umem` before and
    /// `umem_after` after it.
    pub open spec fn sent(
        self,
        after: UdpPlane,
        umem: Seq<u8>,
        umem_after: Seq<u8>,
        comp: Completions<'_>,
        payload: Seq<u8>,
        r: Result<Datagram, SocketError>,
    ) -> bool {
        let v = self.xsk.rings@;
        let comp_consumer = if v.pool.len() == 0 {
            Some(comp.producer)
        } else {
            None
        };
        let accepted = payload.len() as usize;
        &&& after.framing == self.framing
        &&& after.xsk.huge == self.xsk.huge
        &&& after.xsk.bind_label == self.xsk.bind_label
        &&& match (self.framing.remote, v.next_frame(comp@)) {
            (None, _) => {
                &&& r == Err::<Datagram, SocketError>(SocketError::NotConnected)
                &&& after.xsk.rings@ == v
                &&& after.xsk.tx_pending == self.xsk.tx_pending
                &&& umem_after == umem
            },
            (Some(remote), Some(addr)) => {
                let f = self.framing;
                let bytes = frame_bytes(f.dst_mac@, f.src_mac@, f.local, remote, payload);
                let submit = crate::socket::submitted(v, addr, bytes.len() as u32);
                &&& r == Ok::<Datagram, SocketError>(
                    Datagram { accepted, comp_consumer, submit: Some(submit) },
                )
                &&& after.xsk.rings@ == (crate::ring::RingsView {
                    sent: submit.producer,
                    ..v.allocated(comp@)
                })
                &&& after.xsk.tx_pending
                &&& umem_after == umem.take(addr as int) + bytes + umem.skip(addr + bytes.len())
            },
            (Some(_), None) => {
                &&& r == Ok::<Datagram, SocketError>(
                    Datagram { accepted, comp_consumer, submit: None },
                )
                &&& after.xsk.rings@ == v.allocated(comp@)
                &&& after.xsk.tx_pending == self.xsk.tx_pending
                &&& umem_after == umem
            },
        }
    }

    /// What receiving does, with `got` out of the RX ring, the FILL ring
    /// holding `fill` before and `fill_after` after it, and `buf` likewise.
    pub open spec fn received(
        self,
        after: UdpPlane,
        umem: Seq<u8>,
        got: Option<Desc>,
        fill: Seq<u64>,
        fill_after: Seq<u64>,
        buf: Seq<u8>,
        buf_after: Seq<u8>,
        r: Receipt,
    ) -> bool {
        &&& after.framing == self.framing
        &&& after.xsk.huge == self.xsk.huge
        &&& after.xsk.bind_label == self.xsk.bind_label
        &&& after.xsk.tx_pending == self.xsk.tx_pending
        &&& match got {
            None => {
                &&& r == (Receipt { received: None, fill_producer: None })
                &&& after.xsk.rings@ == self.xsk.rings@
                &&& fill_after == fill
                &&& buf_after == buf
            },
            Some(d) => {
                let v = self.xsk.rings@;
                let producer = crate::ring::ahead(v.filled, 1);
                let payload = match payload_of(
                    self.framing.local,
                    self.framing.remote->Some_0,
                    umem.subrange(d.addr as int, d.addr + d.len),
                ) {
                    Some(p) => p,
                    None => Seq::empty(),
                };
                let n = truncated(payload, buf.len());
                &&& r.received == if n > 0 {
                    Some(n as usize)
                } else {
                    None
                }
                &&& r.fill_producer == Some(producer)
                &&& after.xsk.rings@ == (crate::ring::RingsView { filled: producer, ..v })
                &&& fill_after == fill.update(
                    v.filled as int % v.fill_size as int,
                    crate::ring::base_of(d.addr as nat, v.frame_size) as u64,
                )
                &&& buf_after == payload.take(n as int) + buf.skip(n as int)
            },
        }
    }

    /// Sends one datagram. The payload counts as taken, like with `sendto`,
    /// also where the pool has no frame left and it is dropped: UDP is lossy
    /// by contract, and a drop here is indistinguishable from a drop on the
    /// wire. Of the UMEM only the frame that is sent from changes.
    pub fn send(&mut self, umem: &mut [u8], comp: &Completions<'_>, payload: &[u8]) -> (r: Result<
        Datagram,
        SocketError,
    >)
        requires
            old(self).wf(),
            old(umem)@.len() == old(self).xsk.rings@.umem_len(),
            comp.fits(old(self).xsk.rings@),
            ETH_HDR_LEN + UDP_OVERHEAD + payload@.len() <= old(self).xsk.rings@.frame_size,
            UDP_OVERHEAD + payload@.len() <= 0xffff,
        ensures
            final(self).wf(),
            old(self).sent(*final(self), old(umem)@, final(umem)@, *comp, payload@, r),
    {
        if self.framing.remote.is_none() {
            return Err(SocketError::NotConnected);
        }
        let ghost v = self.xsk.rings@;
        let ghost before = umem@;
        let (addr, comp_consumer) = self.xsk.rings.tx_alloc(comp);
        let mut submit: Option<Submit> = None;
        if let Some(addr) = addr {
            let framing: Framing = self.framing;
            let frame_size: usize = self.xsk.rings.frame_size() as usize;
            proof {
                crate::ring::lemma_next_is_frame(v, comp@);
            }
            let frame = frame_mut(umem, addr as usize, frame_size);
            let n: usize = framing.build(frame, payload);
            proof {
                let bytes = frame_bytes(
                    framing.dst_mac@,
                    framing.src_mac@,
                    framing.local,
                    framing.remote->Some_0,
                    payload@,
                );
                assert(bytes.len() == n);
                assert(umem@ =~= before.take(addr as int) + bytes + before.skip(addr + n));
            }
            submit = Some(self.xsk.tx_submit(addr, n as u32));
        }
        Ok(Datagram { accepted: payload.len(), comp_consumer, submit })
    }

    /// Copy one datagram from the peer into `buf`, truncating like
    /// `SOCK_DGRAM`. `got` is what the RX ring held, if anything. Its frame
    /// goes back into the FILL ring, whether it held a datagram for us or not.
    pub fn recv_into(
        &mut self,
        umem: &[u8],
        got: Option<Desc>,
        fill: &mut [u64],
        buf: &mut [u8],
    ) -> (r: Receipt)
        requires
            old(self).wf(),
            old(fill)@.len() == old(self).xsk.rings@.fill_size,
            got matches Some(d) ==> d.addr + d.len <= umem@.len() && old(
                self,
            ).framing.remote is Some,
        ensures
            final(self).wf(),
            old(self).received(
                *final(self),
                umem@,
                got,
                old(fill)@,
                final(fill)@,
                old(buf)@,
                final(buf)@,
                r,
            ),
    {
        let d: Desc = match got {
            Some(d) => d,
            None => {
                return Receipt { received: None, fill_producer: None };
            },
        };
        let ghost before = buf@;
        let framing: Framing = self.framing;
        assert(d.addr + d.len <= umem.len());
        let bytes = frame(umem, d.addr as usize, d.len as usize);
        let mut n: usize = 0;
        if let Some(p) = framing.parse(bytes) {
            n = if p.len() <= buf.len() {
                p.len()
            } else {
                buf.len()
            };
            copy_to_front(buf, slice_subrange(p, 0, n));
            assert(n == truncated(p@, before.len()));
            assert(buf@ =~= p@.take(n as int) + before.skip(n as int));
        }
        let producer: u32 = self.xsk.rings.recycle(fill, d.addr);
        let received: Option<usize> = if n > 0 {
            Some(n)
        } else {
            None
        };
        assert(buf@.len() == before.len());
        assert(Seq::<u8>::empty().take(0) + before.skip(0) =~= before);
        Receipt { received, fill_producer: Some(producer) }
    }
}

// ---------------------------------------------------------------------------
// Laws
// ---------------------------------------------------------------------------

/// A frame built for one flow, with or without padding behind it, parses back
/// to its payload at the peer, and is dropped everywhere else: an endpoint
/// accepts it exactly if it is the frame's destination, listens to the frame's
/// source, and has a port other than zero.
pub proof fn built_frame_is_parsed_by_its_peer_only(
    dst_mac: Seq<u8>,
    src_mac: Seq<u8>,
    local: SocketAddrV4,
    remote: SocketAddrV4,
    payload: Seq<u8>,
    padding: Seq<u8>,
    at: SocketAddrV4,
    from: SocketAddrV4,
)
    requires
        dst_mac.len() == 6,
        src_mac.len() == 6,
        UDP_OVERHEAD + payload.len() <= 0xffff,
    ensures
        payload_of(at, from, frame_bytes(dst_mac, src_mac, local, remote, payload) + padding)
            == (if at == remote && from == local && remote.port != 0 {
            Some(payload)
        } else {
            None
        }),
{
    let ip = ip_header(local.ip, remote.ip, payload.len());
    let head = crate::wire::ipv4_emitted(ip, crate::wire::Checksum::Tx);
    let udp = UdpHeader { src_port: local.port, dst_port: remote.port };
    let body = crate::wire::udp_emitted(
        local.ip,
        remote.ip,
        udp,
        payload,
        crate::wire::Checksum::Tx,
    );
    let frame = frame_bytes(dst_mac, src_mac, local, remote, payload) + padding;
    let packet = frame.skip(ETH_HDR_LEN as int);
    assert(head.len() == IPV4_HEADER_LEN);
    assert(body.len() == UDP_HEADER_LEN + payload.len());
    assert(packet == head + body + padding);
    assert(frame[12] == ETHERTYPE_IPV4_HI && frame[13] == ETHERTYPE_IPV4_LO);
    assert forall|k: int| 0 <= k < 20 implies packet[k] == head[k] by {}
    assert(crate::wire::ipv4_total_len(packet) == UDP_OVERHEAD + payload.len());
    assert(crate::wire::ipv4_header_len(packet) == IPV4_HEADER_LEN);
    assert(crate::wire::ipv4_accepted(packet, crate::wire::Checksum::Tx) == Some(ip));
    let datagram = packet.subrange(20, crate::wire::ipv4_total_len(packet) as int);
    assert(datagram == body);
    assert(crate::wire::udp_len(datagram) == UDP_HEADER_LEN + payload.len());
    assert(crate::addr::be16_at(datagram, 0) == local.port);
    assert(crate::addr::be16_at(datagram, 2) == remote.port);
    assert(datagram.subrange(UDP_HEADER_LEN as int, crate::wire::udp_len(datagram) as int)
        == payload);
}

/// A frame of another EtherType carries no datagram.
pub proof fn other_ethertypes_are_dropped(local: SocketAddrV4, remote: SocketAddrV4, frame: Seq<u8>)
    requires
        frame.len() >= ETH_HDR_LEN,
        crate::addr::be16_at(frame, 12) != 0x0800,
    ensures
        payload_of(local, remote, frame) is None,
{
}

/// A fragment of a datagram is dropped rather than half-delivered: there is no
/// reassembly.
pub proof fn fragments_are_dropped(local: SocketAddrV4, remote: SocketAddrV4, frame: Seq<u8>)
    requires
        frame.len() >= ETH_HDR_LEN + IPV4_HEADER_LEN,
        crate::addr::be16_at(frame, 20) % 0x4000 != 0,
    ensures
        payload_of(local, remote, frame) is None,
{
    let packet = frame.skip(ETH_HDR_LEN as int);
    assert(packet[6] == frame[20] && packet[7] == frame[21]);
}

/// The checksums of a built frame are valid: a receiver that verifies them
/// accepts the header and the datagram.
pub proof fn built_frame_has_valid_checksums(
    local: SocketAddrV4,
    remote: SocketAddrV4,
    payload: Seq<u8>,
)
    requires
        UDP_OVERHEAD + payload.len() <= 0xffff,
    ensures
        crate::wire::folded(
            crate::wire::word_sum(
                crate::wire::ipv4_emitted(
                    ip_header(local.ip, remote.ip, payload.len()),
                    crate::wire::Checksum::Tx,
                ),
            ),
        ) == 0xffff,
        crate::wire::udp_verifies(
            local.ip,
            remote.ip,
            crate::wire::udp_emitted(
                local.ip,
                remote.ip,
                UdpHeader { src_port: local.port, dst_port: remote.port },
                payload,
                crate::wire::Checksum::Tx,
            ),
        ),
{
    crate::wire::lemma_ipv4_checksum(ip_header(local.ip, remote.ip, payload.len()));
    crate::wire::lemma_udp_checksum(
        local.ip,
        remote.ip,
        UdpHeader { src_port: local.port, dst_port: remote.port },
        payload,
    );
}

/// UDP has no end of stream: a receive brings at least one byte or nothing.
pub proof fn udp_has_no_end_of_stream(
    plane: UdpPlane,
    after: UdpPlane,
    umem: Seq<u8>,
    got: Option<Desc>,
    fill: Seq<u64>,
    fill_after: Seq<u64>,
    buf: Seq<u8>,
    buf_after: Seq<u8>,
    r: Receipt,
)
    requires
        buf.len() <= usize::MAX,
        plane.received(after, umem, got, fill, fill_after, buf, buf_after, r),
    ensures
        r.received != Some(0usize),
{
}

/// Sending writes to a transmit frame that is not in flight, and to nothing
/// else: no receive frame changes.
pub proof fn sending_leaves_receive_frames_alone(
    plane: UdpPlane,
    after: UdpPlane,
    umem: Seq<u8>,
    umem_after: Seq<u8>,
    comp: Completions<'_>,
    payload: Seq<u8>,
    r: Result<Datagram, SocketError>,
    in_flight: Seq<u64>,
    i: int,
)
    requires
        plane.wf(),
        umem.len() == plane.xsk.rings@.umem_len(),
        ETH_HDR_LEN + UDP_OVERHEAD + payload.len() <= plane.xsk.rings@.frame_size,
        UDP_OVERHEAD + payload.len() <= 0xffff,
        plane.sent(after, umem, umem_after, comp, payload, r),
        plane.xsk.rings@.refilled(comp@).accounts_for(in_flight),
        0 <= i < plane.xsk.rings@.fill_size,
    ensures
        umem_after.len() == umem.len(),
        ({
            let v = plane.xsk.rings@;
            let start = v.rx_frames()[i] as int;
            umem_after.subrange(start, start + v.frame_size) == umem.subrange(
                start,
                start + v.frame_size,
            )
        }),
        r matches Ok(d) ==> (d.submit matches Some(s) ==> !in_flight.contains(s.desc.addr)),
{
    let v = plane.xsk.rings@;
    let start = v.rx_frames()[i] as int;
    let frame_size = v.frame_size as int;
    if plane.framing.remote is Some && v.next_frame(comp@) is Some {
        let addr = v.next_frame(comp@)->Some_0;
        crate::ring::allocated_frame_is_not_in_flight(v, comp@, in_flight);
        let j = choose|j: int| 0 <= j < v.tx_frames().len() && v.tx_frames()[j] == addr;
        let all = v.rx_frames() + v.tx_frames();
        crate::ring::frames_do_not_overlap(v, i, v.fill_size + j);
        assert(all[i] == v.rx_frames()[i]);
        assert(all[v.fill_size + j] == addr);
        let f = plane.framing;
        let bytes = frame_bytes(f.dst_mac@, f.src_mac@, f.local, f.remote->Some_0, payload);
        assert(bytes.len() == ETH_HDR_LEN + UDP_OVERHEAD + payload.len());
        assert(umem_after.subrange(start, start + frame_size) =~= umem.subrange(
            start,
            start + frame_size,
        ));
    }
}

} // verus!
