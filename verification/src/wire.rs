//! IPv4 and UDP headers, emitted and parsed by `smoltcp::wire`.
//!
//! The layouts are stated here byte by byte, with their RFC 1071 checksums, so
//! that what is framed and what is accepted can be reasoned about.

use vstd::prelude::*;

use smoltcp::phy;
use smoltcp::wire::{
    IpAddress, IpProtocol, Ipv4Address, Ipv4Packet, Ipv4Repr, UdpPacket, UdpRepr,
};

use crate::addr::{be16, be16_at, Ipv4Addr};

verus! {

pub const ETH_HDR_LEN: usize = 14;

pub const IPV4_HEADER_LEN: usize = 20;

pub const UDP_HEADER_LEN: usize = 8;

/// What an IPv4 and a UDP header take out of the MTU.
pub const UDP_OVERHEAD: usize = 28;

/// The protocol number of UDP.
pub const PROTO_UDP: u8 = 17;

/// When a protocol's checksum is computed and when it is verified.
#[derive(Debug, Clone, Copy, PartialEq, Eq, Structural)]
pub enum Checksum {
    /// Verify when receiving, compute when sending.
    Both,
    /// Verify when receiving.
    Rx,
    /// Compute when sending.
    Tx,
    /// Neither.
    Ignored,
}

impl Checksum {
    pub open spec fn verifies(self) -> bool {
        self is Both || self is Rx
    }

    pub open spec fn computes(self) -> bool {
        self is Both || self is Tx
    }
}

/// The checksum policy of every protocol in use.
#[derive(Debug, Clone, Copy, PartialEq, Eq, Structural)]
pub struct ChecksumCaps {
    pub ipv4: Checksum,
    pub tcp: Checksum,
    pub udp: Checksum,
    pub icmpv4: Checksum,
}

/// Checksums are computed when sending and not verified when receiving: a
/// sender that offloads them leaves inbound frames with partial ones.
pub fn checksum_caps() -> (r: ChecksumCaps)
    ensures
        r.ipv4 is Tx,
        r.tcp is Tx,
        r.udp is Tx,
        r.icmpv4 is Tx,
{
    ChecksumCaps {
        ipv4: Checksum::Tx,
        tcp: Checksum::Tx,
        udp: Checksum::Tx,
        icmpv4: Checksum::Tx,
    }
}

// ---------------------------------------------------------------------------
// RFC 1071
// ---------------------------------------------------------------------------

/// The sum of the 16-bit words of `s`, an odd last byte padded with a zero.
pub open spec fn word_sum(s: Seq<u8>) -> nat
    decreases s.len(),
{
    if s.len() == 0 {
        0
    } else if s.len() == 1 {
        s[0] as nat * 256
    } else {
        be16_at(s, 0) + word_sum(s.skip(2))
    }
}

/// A sum of 16-bit words in ones' complement arithmetic.
pub open spec fn folded(sum: nat) -> nat {
    if sum == 0 {
        0
    } else {
        (sum - 1) as nat % 0xffff + 1
    }
}

/// The checksum of words with the given sum.
pub open spec fn checksum_of(sum: nat) -> nat {
    (0xffff - folded(sum)) as nat
}

// ---------------------------------------------------------------------------
// IPv4
// ---------------------------------------------------------------------------

/// What an IPv4 header says.
#[derive(Debug, Clone, Copy, PartialEq, Eq, Structural)]
pub struct Ipv4Header {
    pub src: Ipv4Addr,
    pub dst: Ipv4Addr,
    pub next_header: u8,
    pub payload_len: usize,
    pub hop_limit: u8,
}

/// The header's 20 bytes with a checksum of the given value: version 4, no
/// options, no fragmentation.
pub open spec fn ipv4_bytes(h: Ipv4Header, checksum: nat) -> Seq<u8> {
    seq![0x45u8, 0u8] + be16((h.payload_len + IPV4_HEADER_LEN) as nat) + seq![0u8, 0u8, 0x40u8, 0u8]
        + seq![h.hop_limit, h.next_header] + be16(checksum) + h.src.bytes() + h.dst.bytes()
}

/// The header as it is sent under a checksum policy.
pub open spec fn ipv4_emitted(h: Ipv4Header, policy: Checksum) -> Seq<u8> {
    if policy.computes() {
        ipv4_bytes(h, checksum_of(word_sum(ipv4_bytes(h, 0))))
    } else {
        ipv4_bytes(h, 0)
    }
}

/// The header length in bytes that a packet declares.
pub open spec fn ipv4_header_len(s: Seq<u8>) -> nat {
    (s[0] % 16) as nat * 4
}

/// The total length in bytes that a packet declares.
pub open spec fn ipv4_total_len(s: Seq<u8>) -> nat {
    be16_at(s, 2)
}

/// Whether the declared lengths fit the packet and each other.
pub open spec fn ipv4_fits(s: Seq<u8>) -> bool {
    &&& s.len() >= IPV4_HEADER_LEN
    &&& IPV4_HEADER_LEN <= ipv4_header_len(s) <= ipv4_total_len(s) <= s.len()
}

/// The header of a packet that is accepted under a checksum policy: version 4,
/// lengths that fit, no fragment, and a valid checksum if it is verified.
pub open spec fn ipv4_accepted(s: Seq<u8>, policy: Checksum) -> Option<Ipv4Header> {
    if ipv4_fits(s) && s[0] / 16 == 4 && s[6] % 64 == 0 && s[7] == 0 && (policy.verifies()
        ==> folded(word_sum(s.take(ipv4_header_len(s) as int))) == 0xffff) {
        Some(
            Ipv4Header {
                src: Ipv4Addr::at(s, 12),
                dst: Ipv4Addr::at(s, 16),
                next_header: s[9],
                payload_len: (ipv4_total_len(s) - ipv4_header_len(s)) as usize,
                hop_limit: s[8],
            },
        )
    } else {
        None
    }
}

/// `Ipv4Repr::emit`: writes the header's 20 bytes at the start of `packet`,
/// with the header checksum where the policy computes it and a zero one where
/// not, and leaves the bytes behind them alone.
#[verifier::external_body]
pub(crate) fn emit_ipv4(packet: &mut [u8], h: &Ipv4Header, policy: Checksum)
    requires
        old(packet)@.len() >= IPV4_HEADER_LEN,
        h.payload_len + IPV4_HEADER_LEN <= 0xffff,
    ensures
        final(packet)@ == ipv4_emitted(*h, policy) + old(packet)@.skip(IPV4_HEADER_LEN as int),
{
    let mut caps = phy::ChecksumCapabilities::ignored();
    caps.ipv4 = match policy {
        Checksum::Both => phy::Checksum::Both,
        Checksum::Rx => phy::Checksum::Rx,
        Checksum::Tx => phy::Checksum::Tx,
        Checksum::Ignored => phy::Checksum::None,
    };
    let repr = Ipv4Repr {
        src_addr: Ipv4Address::from(h.src.octets()),
        dst_addr: Ipv4Address::from(h.dst.octets()),
        next_header: IpProtocol::from(h.next_header),
        payload_len: h.payload_len,
        hop_limit: h.hop_limit,
    };
    repr.emit(&mut Ipv4Packet::new_unchecked(packet), &caps)
}

/// `Ipv4Repr::parse`: reads the header of a packet, and refuses one whose
/// lengths do not fit, whose version is not 4, which is a fragment, or, where
/// the policy verifies it, whose header checksum is wrong.
#[verifier::external_body]
pub(crate) fn parse_ipv4(packet: &[u8], policy: Checksum) -> (r: Option<Ipv4Header>)
    ensures
        r == ipv4_accepted(packet@, policy),
{
    let mut caps = phy::ChecksumCapabilities::ignored();
    caps.ipv4 = match policy {
        Checksum::Both => phy::Checksum::Both,
        Checksum::Rx => phy::Checksum::Rx,
        Checksum::Tx => phy::Checksum::Tx,
        Checksum::Ignored => phy::Checksum::None,
    };
    let h = Ipv4Repr::parse(&Ipv4Packet::new_unchecked(packet), &caps).ok()?;
    let ([a, b, c, d], [e, f, g, i]) = (h.src_addr.octets(), h.dst_addr.octets());
    let (src, dst) = (Ipv4Addr { a, b, c, d }, Ipv4Addr { a: e, b: f, c: g, d: i });
    let next_header = u8::from(h.next_header);
    Some(Ipv4Header { src, dst, next_header, payload_len: h.payload_len, hop_limit: h.hop_limit })
}

/// `Ipv4Packet::payload`: the bytes between the declared header length and the
/// declared total length.
#[verifier::external_body]
pub(crate) fn ipv4_payload(packet: &[u8]) -> (r: &[u8])
    requires
        ipv4_fits(packet@),
    ensures
        r@ == packet@.subrange(ipv4_header_len(packet@) as int, ipv4_total_len(packet@) as int),
{
    Ipv4Packet::new_unchecked(packet).payload()
}

// ---------------------------------------------------------------------------
// UDP
// ---------------------------------------------------------------------------

/// The ports of a UDP header.
#[derive(Debug, Clone, Copy, PartialEq, Eq, Structural)]
pub struct UdpHeader {
    pub src_port: u16,
    pub dst_port: u16,
}

/// The pseudo header that a UDP checksum covers besides the datagram.
pub open spec fn pseudo_header(src: Ipv4Addr, dst: Ipv4Addr, len: nat) -> Seq<u8> {
    src.bytes() + dst.bytes() + seq![0u8, PROTO_UDP] + be16(len)
}

/// A datagram with a checksum of the given value.
pub open spec fn udp_bytes(h: UdpHeader, payload: Seq<u8>, checksum: nat) -> Seq<u8> {
    be16(h.src_port as nat) + be16(h.dst_port as nat) + be16(payload.len() + UDP_HEADER_LEN as nat)
        + be16(checksum) + payload
}

/// The checksum of a datagram: all ones where it would come out as zero, which
/// says that there is none.
pub open spec fn udp_checksum(src: Ipv4Addr, dst: Ipv4Addr, datagram: Seq<u8>) -> nat {
    let c = checksum_of(
        word_sum(pseudo_header(src, dst, datagram.len())) + word_sum(datagram),
    );
    if c == 0 {
        0xffff
    } else {
        c
    }
}

/// The datagram as it is sent under a checksum policy.
pub open spec fn udp_emitted(
    src: Ipv4Addr,
    dst: Ipv4Addr,
    h: UdpHeader,
    payload: Seq<u8>,
    policy: Checksum,
) -> Seq<u8> {
    if policy.computes() {
        udp_bytes(h, payload, udp_checksum(src, dst, udp_bytes(h, payload, 0)))
    } else {
        udp_bytes(h, payload, 0)
    }
}

/// The length in bytes that a datagram declares.
pub open spec fn udp_len(s: Seq<u8>) -> nat {
    be16_at(s, 4)
}

/// Whether the declared length fits the datagram.
pub open spec fn udp_fits(s: Seq<u8>) -> bool {
    s.len() >= UDP_HEADER_LEN && UDP_HEADER_LEN <= udp_len(s) <= s.len()
}

/// Whether a datagram carries no checksum, or a valid one.
pub open spec fn udp_verifies(src: Ipv4Addr, dst: Ipv4Addr, s: Seq<u8>) -> bool {
    be16_at(s, 6) == 0 || folded(
        word_sum(pseudo_header(src, dst, udp_len(s))) + word_sum(s.take(udp_len(s) as int)),
    ) == 0xffff
}

/// The ports of a datagram that is accepted under a checksum policy: a length
/// that fits, a destination port, and a valid checksum if it is verified.
pub open spec fn udp_accepted(
    src: Ipv4Addr,
    dst: Ipv4Addr,
    s: Seq<u8>,
    policy: Checksum,
) -> Option<UdpHeader> {
    if udp_fits(s) && be16_at(s, 2) != 0 && (policy.verifies() ==> udp_verifies(src, dst, s)) {
        Some(UdpHeader { src_port: be16_at(s, 0) as u16, dst_port: be16_at(s, 2) as u16 })
    } else {
        None
    }
}

/// Copies `src` to the start of `dst`.
pub fn copy_to_front(dst: &mut [u8], src: &[u8])
    requires
        src@.len() <= old(dst)@.len(),
    ensures
        final(dst)@ == src@ + old(dst)@.skip(src@.len() as int),
{
    let mut i: usize = 0;
    while i < src.len()
        invariant
            i <= src@.len() <= dst@.len(),
            dst@.len() == old(dst)@.len(),
            forall|k: int| 0 <= k < i ==> dst@[k] == src@[k],
            forall|k: int| i <= k < dst@.len() ==> dst@[k] == old(dst)@[k],
        decreases src@.len() - i,
    {
        dst[i] = src[i];
        i = i + 1;
    }
    assert(dst@ == src@ + old(dst)@.skip(src@.len() as int));
}

/// `UdpRepr::emit`: writes a header and the payload at the start of `datagram`,
/// with the checksum where the policy computes it and a zero one where not,
/// and leaves the bytes behind them alone.
#[verifier::external_body]
pub(crate) fn emit_udp(
    datagram: &mut [u8],
    src: Ipv4Addr,
    dst: Ipv4Addr,
    h: &UdpHeader,
    payload: &[u8],
    policy: Checksum,
)
    requires
        old(datagram)@.len() >= UDP_HEADER_LEN + payload@.len(),
        UDP_HEADER_LEN + payload@.len() <= 0xffff,
    ensures
        final(datagram)@ == udp_emitted(src, dst, *h, payload@, policy) + old(datagram)@.skip(
            UDP_HEADER_LEN + payload@.len(),
        ),
{
    let mut caps = phy::ChecksumCapabilities::ignored();
    caps.udp = match policy {
        Checksum::Both => phy::Checksum::Both,
        Checksum::Rx => phy::Checksum::Rx,
        Checksum::Tx => phy::Checksum::Tx,
        Checksum::Ignored => phy::Checksum::None,
    };
    let repr = UdpRepr { src_port: h.src_port, dst_port: h.dst_port };
    let src = IpAddress::Ipv4(Ipv4Address::from(src.octets()));
    let dst = IpAddress::Ipv4(Ipv4Address::from(dst.octets()));
    let mut packet = UdpPacket::new_unchecked(datagram);
    repr.emit(&mut packet, &src, &dst, payload.len(), |b| copy_to_front(b, payload), &caps)
}

/// `UdpRepr::parse`: reads the ports of a datagram, and refuses one whose
/// length does not fit, whose destination port is zero, or, where the policy
/// verifies it, whose checksum is there and wrong.
#[verifier::external_body]
pub(crate) fn parse_udp(datagram: &[u8], src: Ipv4Addr, dst: Ipv4Addr, policy: Checksum) -> (r:
    Option<UdpHeader>)
    ensures
        r == udp_accepted(src, dst, datagram@, policy),
{
    let mut caps = phy::ChecksumCapabilities::ignored();
    caps.udp = match policy {
        Checksum::Both => phy::Checksum::Both,
        Checksum::Rx => phy::Checksum::Rx,
        Checksum::Tx => phy::Checksum::Tx,
        Checksum::Ignored => phy::Checksum::None,
    };
    let src = IpAddress::Ipv4(Ipv4Address::from(src.octets()));
    let dst = IpAddress::Ipv4(Ipv4Address::from(dst.octets()));
    let h = UdpRepr::parse(&UdpPacket::new_unchecked(datagram), &src, &dst, &caps).ok()?;
    Some(UdpHeader { src_port: h.src_port, dst_port: h.dst_port })
}

/// `UdpPacket::payload`: the bytes between the header and the declared length.
#[verifier::external_body]
pub(crate) fn udp_payload(datagram: &[u8]) -> (r: &[u8])
    requires
        udp_fits(datagram@),
    ensures
        r@ == datagram@.subrange(UDP_HEADER_LEN as int, udp_len(datagram@) as int),
{
    UdpPacket::new_unchecked(datagram).payload()
}

// ---------------------------------------------------------------------------
// Checksum facts
// ---------------------------------------------------------------------------

/// Words are summed one after another.
proof fn lemma_word_sum_concat(a: Seq<u8>, b: Seq<u8>)
    requires
        a.len() % 2 == 0,
    ensures
        word_sum(a + b) == word_sum(a) + word_sum(b),
    decreases a.len(),
{
    if a.len() == 0 {
        assert(a + b == b);
    } else {
        assert((a + b).skip(2) == a.skip(2) + b);
        lemma_word_sum_concat(a.skip(2), b);
    }
}

/// A checksum adds its value to the sum that it is put into.
proof fn lemma_word_sum_with(front: Seq<u8>, checksum: nat, back: Seq<u8>)
    requires
        front.len() % 2 == 0,
        checksum <= 0xffff,
    ensures
        word_sum(front + be16(checksum) + back) == word_sum(front + be16(0) + back) + checksum,
{
    reveal_with_fuel(word_sum, 3);
    assert(be16(checksum).skip(2) == Seq::<u8>::empty());
    assert(be16(0).skip(2) == Seq::<u8>::empty());
    lemma_word_sum_concat(front + be16(checksum), back);
    lemma_word_sum_concat(front + be16(0), back);
    lemma_word_sum_concat(front, be16(checksum));
    lemma_word_sum_concat(front, be16(0));
}

/// A sum and its checksum together fold to all ones.
proof fn lemma_checksum_folds(sum: nat)
    requires
        sum > 0,
    ensures
        folded(sum + checksum_of(sum)) == 0xffff,
        checksum_of(sum) < 0xffff,
        folded(sum + 0xffff) == folded(sum),
{
}

/// The emitted header's words fold to all ones.
pub(crate) proof fn lemma_ipv4_checksum(h: Ipv4Header)
    ensures
        folded(word_sum(ipv4_emitted(h, Checksum::Tx))) == 0xffff,
{
    let front = seq![0x45u8, 0u8] + be16((h.payload_len + IPV4_HEADER_LEN) as nat)
        + seq![0u8, 0u8, 0x40u8, 0u8] + seq![h.hop_limit, h.next_header];
    let back = h.src.bytes() + h.dst.bytes();
    let c = checksum_of(word_sum(ipv4_bytes(h, 0)));
    assert(ipv4_bytes(h, 0) == front + be16(0) + back);
    assert(ipv4_bytes(h, c) == front + be16(c) + back);
    lemma_word_sum_with(front, c, back);
    assert(word_sum(ipv4_bytes(h, 0)) > 0) by {
        assert(be16_at(ipv4_bytes(h, 0), 0) > 0);
    }
    lemma_checksum_folds(word_sum(ipv4_bytes(h, 0)));
}

/// The emitted datagram verifies.
pub(crate) proof fn lemma_udp_checksum(
    src: Ipv4Addr,
    dst: Ipv4Addr,
    h: UdpHeader,
    payload: Seq<u8>,
)
    requires
        UDP_HEADER_LEN + payload.len() <= 0xffff,
    ensures
        udp_verifies(src, dst, udp_emitted(src, dst, h, payload, Checksum::Tx)),
{
    let front = be16(h.src_port as nat) + be16(h.dst_port as nat) + be16(
        payload.len() + UDP_HEADER_LEN as nat,
    );
    let bare = udp_bytes(h, payload, 0);
    let c = udp_checksum(src, dst, bare);
    let sent = udp_bytes(h, payload, c);
    let pseudo = pseudo_header(src, dst, bare.len());
    assert(bare == front + be16(0) + payload);
    assert(sent == front + be16(c) + payload);
    assert(udp_len(sent) == sent.len());
    assert(sent.take(sent.len() as int) == sent);
    lemma_word_sum_with(front, c, payload);
    let addresses = src.bytes() + dst.bytes();
    let rest = seq![0u8, PROTO_UDP] + be16(bare.len());
    assert(pseudo == addresses + rest);
    lemma_word_sum_concat(addresses, rest);
    assert(word_sum(pseudo) > 0) by {
        assert(be16_at(rest, 0) > 0);
    }
    lemma_checksum_folds(word_sum(pseudo) + word_sum(bare));
}

} // verus!
