//! A copy-mode AF_XDP socket that tells the driver about every frame at once.

use vstd::arithmetic::power2::is_pow2;
use vstd::prelude::*;

use crate::ring::{needs_wakeup, Rings};
use crate::wire::{Checksum, ChecksumCaps};

verus! {

/// Bind flag: the kernel copies packets between its buffers and the UMEM.
pub const XDP_COPY: u16 = 2;

/// Bind flag: the driver reads and writes the UMEM itself.
pub const XDP_ZEROCOPY: u16 = 4;

/// Bind flag: system calls are needed only where a ring asks for one.
pub const XDP_USE_NEED_WAKEUP: u16 = 8;

/// The size of a 2 MiB page.
pub const HUGE_2MB: usize = 0x20_0000;

/// What an AF_XDP socket is bound to: a queue of an interface, in a copy mode.
#[derive(Debug, Clone, Copy, PartialEq, Eq, Structural)]
pub struct BindAddress {
    pub flags: u16,
    pub ifindex: u32,
    pub queue_id: u32,
    pub shared_umem_fd: u32,
}

/// The address to bind to, for one of the two copy modes. The UMEM is not
/// shared, and system calls are only wanted where a ring asks for one.
pub fn bind_address(mode: u16, ifindex: u32, queue_id: u32) -> (r: BindAddress)
    requires
        mode == XDP_COPY || mode == XDP_ZEROCOPY,
    ensures
        r == (BindAddress {
            flags: (mode + XDP_USE_NEED_WAKEUP) as u16,
            ifindex,
            queue_id,
            shared_umem_fd: 0,
        }),
{
    assert(2u16 | 8 == 10 && 4u16 | 8 == 12) by (bit_vector);
    BindAddress { flags: mode | XDP_USE_NEED_WAKEUP, ifindex, queue_id, shared_umem_fd: 0 }
}

/// How a UMEM is registered with the kernel.
#[derive(Debug, Clone, Copy, PartialEq, Eq, Structural)]
pub struct UmemReg {
    pub addr: u64,
    pub len: u64,
    pub chunk_size: u32,
    pub headroom: u32,
    pub flags: u32,
    pub tx_metadata_len: u32,
}

/// The registration of a UMEM at `addr`: aligned chunks of one frame each,
/// without headroom.
pub fn umem_reg(addr: u64, rings: &Rings) -> (r: UmemReg)
    requires
        rings.wf(),
    ensures
        r == (UmemReg {
            addr,
            len: rings@.umem_len() as u64,
            chunk_size: rings@.frame_size as u32,
            headroom: 0,
            flags: 0,
            tx_metadata_len: 0,
        }),
{
    UmemReg {
        addr,
        len: rings.umem_len() as u64,
        chunk_size: rings.frame_size(),
        headroom: 0,
        flags: 0,
        tx_metadata_len: 0,
    }
}

/// Whether a UMEM of `len` bytes is tried on 2 MiB pages first: it has to be
/// made up of them. Normal pages are the second choice.
pub fn wants_hugepages(len: usize) -> (r: bool)
    ensures
        r == (len as int % 0x20_0000 == 0),
{
    len % HUGE_2MB == 0
}

/// The checksum policy of the device over this socket: TCP and what carries it
/// are computed when sending and not verified when receiving. UDP is not used,
/// and keeps the default of both.
pub fn device_checksums() -> (r: ChecksumCaps)
    ensures
        r == (ChecksumCaps {
            ipv4: Checksum::Tx,
            tcp: Checksum::Tx,
            udp: Checksum::Both,
            icmpv4: Checksum::Tx,
        }),
{
    ChecksumCaps {
        ipv4: Checksum::Tx,
        tcp: Checksum::Tx,
        udp: Checksum::Both,
        icmpv4: Checksum::Tx,
    }
}

/// The bytes of a ring's shared memory: what lies in front of its `size`
/// entries of `elem` bytes each, and those.
pub fn ring_map_len(desc_offset: usize, size: u32, elem: usize) -> (r: usize)
    requires
        desc_offset + size * elem <= usize::MAX,
    ensures
        r == desc_offset + size * elem,
{
    proof {
        vstd::arithmetic::mul::lemma_mul_nonnegative(size as int, elem as int);
    }
    desc_offset + size as usize * elem
}

/// An AF_XDP socket with its own UMEM.
#[derive(Debug)]
pub struct XskSocket {
    pub fd: i32,
    pub huge: bool,
    pub rings: Rings,
}

impl XskSocket {
    /// The socket behind `fd`, with rings of the given sizes and a UMEM of
    /// `frame_count` frames, on hugepages or not.
    pub fn new(
        fd: i32,
        huge: bool,
        frame_size: u32,
        frame_count: u32,
        fill_size: u32,
        rx_size: u32,
        tx_size: u32,
    ) -> (r: XskSocket)
        requires
            is_pow2(frame_size as int),
            is_pow2(fill_size as int),
            is_pow2(rx_size as int),
            is_pow2(tx_size as int),
            fill_size <= frame_count,
            frame_size * frame_count <= usize::MAX,
        ensures
            r.fd == fd,
            r.huge == huge,
            r.rings.wf(),
            r.rings@ == crate::ring::new_rings(
                frame_size as nat,
                frame_count as nat,
                fill_size as nat,
                rx_size as nat,
                tx_size as nat,
            ),
    {
        let rings = Rings::new(frame_size, frame_count, fill_size, rx_size, tx_size);
        XskSocket { fd, huge, rings }
    }

    pub fn fd(&self) -> (r: i32)
        ensures
            r == self.fd,
    {
        self.fd
    }

    /// Whether the UMEM is backed by 2 MiB hugepages.
    pub fn hugepages(&self) -> (r: bool)
        ensures
            r == self.huge,
    {
        self.huge
    }

    /// Whether the driver has to be told about queued frames, by the TX ring's
    /// flags.
    pub fn kick_tx(&self, tx_flags: u32) -> (r: bool)
        ensures
            r == (tx_flags % 2 == 1),
    {
        needs_wakeup(tx_flags)
    }

    /// Whether to nudge the driver to service the FILL ring, by that ring's
    /// flags.
    pub fn kick_rx(&self, fill_flags: u32) -> (r: bool)
        ensures
            r == (fill_flags % 2 == 1),
    {
        needs_wakeup(fill_flags)
    }
}

} // verus!
