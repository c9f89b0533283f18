//! UMEM frames as byte slices: where a packet lies in its frame.

use vstd::prelude::*;
use vstd::slice::slice_subrange;

use crate::udp::write_ethernet;
use crate::wire::ETH_HDR_LEN;

verus! {

/// The `len` bytes at `addr`.
pub fn frame(umem: &[u8], addr: usize, len: usize) -> (r: &[u8])
    requires
        addr + len <= umem@.len(),
    ensures
        r@ == umem@.subrange(addr as int, addr + len),
{
    assert(addr + len <= umem.len());
    slice_subrange(umem, addr, addr + len)
}

/// The `len` bytes at `addr`, for building a packet in place.
pub fn frame_mut(umem: &mut [u8], addr: usize, len: usize) -> (r: &mut [u8])
    requires
        addr + len <= old(umem)@.len(),
    ensures
        r@ == old(umem)@.subrange(addr as int, addr + len),
        final(umem)@ == old(umem)@.take(addr as int) + final(r)@ + old(umem)@.skip(addr + len),
{
    let (_, tail) = umem.split_at_mut(addr);
    let (r, _) = tail.split_at_mut(len);
    r
}

/// The IP packet of a received frame of `len` bytes at `addr`: all behind the
/// Ethernet header, and nothing where the frame is shorter than that.
pub fn received_packet(umem: &[u8], addr: usize, len: usize) -> (r: &[u8])
    requires
        addr + len <= umem@.len(),
        addr + ETH_HDR_LEN <= umem@.len(),
    ensures
        r@ == if len >= ETH_HDR_LEN {
            umem@.subrange(addr + ETH_HDR_LEN, addr + len)
        } else {
            Seq::empty()
        },
{
    assert(addr + ETH_HDR_LEN <= umem.len());
    let start: usize = addr + ETH_HDR_LEN;
    let ip_len: usize = len.saturating_sub(ETH_HDR_LEN);
    slice_subrange(umem, start, start + ip_len)
}

/// Starts an outgoing frame at `addr` with its Ethernet header, and gives out
/// the `len` bytes behind it for the IP packet.
pub fn outgoing_packet<'a>(
    umem: &'a mut [u8],
    addr: usize,
    len: usize,
    dst_mac: &[u8; 6],
    src_mac: &[u8; 6],
) -> (r: &'a mut [u8])
    requires
        addr + ETH_HDR_LEN + len <= old(umem)@.len(),
    ensures
        r@ == old(umem)@.subrange(addr + ETH_HDR_LEN, addr + ETH_HDR_LEN + len),
        final(umem)@ == old(umem)@.take(addr as int) + crate::udp::ethernet_bytes(
            dst_mac@,
            src_mac@,
        ) + final(r)@ + old(umem)@.skip(addr + ETH_HDR_LEN + len),
{
    assert(ETH_HDR_LEN + len <= umem.len());
    let frame = frame_mut(umem, addr, ETH_HDR_LEN + len);
    write_ethernet(frame, dst_mac, src_mac);
    let (_, packet) = frame.split_at_mut(ETH_HDR_LEN);
    packet
}

} // verus!
