//! `Socket` - an AF_XDP socket shaped like a UNIX socket.
//!
//! Create, `connect`, `send`, `recv`; one `connect` serves both transports.
//! Nothing here blocks: every call is one pass, and the caller owns the loop.
//!
//! Frame size comes from the interface MTU by [`frame_size_for`], so the UMEM
//! sizes itself to the link.

use vstd::arithmetic::power2::is_pow2;
use vstd::prelude::*;

use smoltcp::iface::Interface;

use crate::addr::{port_hi, port_lo, Ipv4Addr, SocketAddrV4};
use crate::ring::{needs_wakeup, Completions, Desc, Rings, Submit};
use crate::tcp::{handshake, Stream};
use crate::text::{chars_of, decimal, parse_uint, quote, split_bounds};
use crate::udp::{Datagram, Framing, Receipt, UdpPlane};
use crate::wire::{ETH_HDR_LEN, UDP_OVERHEAD};
use crate::xsk::{XDP_COPY, XDP_ZEROCOPY};

verus! {

/// How many frames the UMEM holds.
pub const FRAME_COUNT: u32 = 4096;

pub const FILL_SIZE: u32 = 2048;

pub const RX_SIZE: u32 = 2048;

pub const TX_SIZE: u32 = 2048;

/// `XDP_UMEM_MIN_CHUNK_SIZE`: the kernel refuses a smaller UMEM chunk.
pub const MIN_CHUNK_SIZE: usize = 2048;

/// How many seconds a TCP handshake may take before a caller should give up.
/// The socket does not enforce it; the caller owns the loop.
pub const CONNECT_TIMEOUT: u64 = 10;

/// The `errno` for a UMEM over the limit on locked memory.
pub const ENOBUFS: i32 = 105;

/// The limit that is none.
pub const RLIM_INFINITY: u64 = 0xffff_ffff_ffff_ffff;

/// Where `mmap` expects the binary logarithm of a hugepage's size.
pub const MAP_HUGE_SHIFT: u32 = 26;

// ---------------------------------------------------------------------------
// Errors
// ---------------------------------------------------------------------------

/// What kind of error an operation reports.
#[derive(Debug, Clone, Copy, PartialEq, Eq, Structural)]
pub enum ErrorKind {
    NotConnected,
    ConnectionRefused,
    InvalidInput,
    Other,
}

/// Why an operation on a socket failed.
#[derive(Debug, Clone, Copy, PartialEq, Eq, Structural)]
pub enum SocketError {
    /// The socket has no peer.
    NotConnected,
    /// The SYN was answered with an RST, or the socket never opened.
    ConnectionRefused,
    /// No payload fits behind the headers.
    MtuTooSmall { mtu: usize },
    /// A packet of this MTU needs a frame that is larger than a page.
    FrameTooLarge { mtu: usize, size: usize, page_size: usize },
    /// The TCP socket refused to send.
    TcpSend(crate::tcp::SendError),
    /// The TCP socket refused to connect.
    TcpConnect(crate::tcp::ConnectError),
}

impl SocketError {
    pub open spec fn spec_kind(self) -> ErrorKind {
        match self {
            SocketError::NotConnected => ErrorKind::NotConnected,
            SocketError::ConnectionRefused => ErrorKind::ConnectionRefused,
            SocketError::MtuTooSmall { .. } => ErrorKind::InvalidInput,
            SocketError::FrameTooLarge { .. } => ErrorKind::InvalidInput,
            SocketError::TcpSend(_) => ErrorKind::Other,
            SocketError::TcpConnect(_) => ErrorKind::Other,
        }
    }

    pub fn kind(&self) -> (r: ErrorKind)
        ensures
            r == self.spec_kind(),
    {
        match self {
            SocketError::NotConnected => ErrorKind::NotConnected,
            SocketError::ConnectionRefused => ErrorKind::ConnectionRefused,
            SocketError::MtuTooSmall { .. } => ErrorKind::InvalidInput,
            SocketError::FrameTooLarge { .. } => ErrorKind::InvalidInput,
            SocketError::TcpSend(_) => ErrorKind::Other,
            SocketError::TcpConnect(_) => ErrorKind::Other,
        }
    }

    /// What the error says besides its kind.
    pub open spec fn text(self) -> Option<Seq<char>> {
        match self {
            SocketError::NotConnected => None,
            SocketError::ConnectionRefused => Some("connection refused"@),
            SocketError::MtuTooSmall { mtu } => Some(
                "mtu "@ + crate::text::decimal_digits(mtu as nat)
                    + " leaves no room for an IPv4+UDP header"@,
            ),
            SocketError::FrameTooLarge { mtu, size, page_size } => Some(
                "mtu "@ + crate::text::decimal_digits(mtu as nat) + " needs "@
                    + crate::text::decimal_digits(size as nat)
                    + "-byte UMEM frames, over the "@ + crate::text::decimal_digits(
                    page_size as nat,
                ) + "-byte page limit for aligned chunks"@,
            ),
            SocketError::TcpSend(crate::tcp::SendError::InvalidState) => Some(
                "tcp send: InvalidState"@,
            ),
            SocketError::TcpConnect(crate::tcp::ConnectError::InvalidState) => Some(
                "tcp connect: InvalidState"@,
            ),
            SocketError::TcpConnect(crate::tcp::ConnectError::Unaddressable) => Some(
                "tcp connect: Unaddressable"@,
            ),
        }
    }

    /// The message, where the error has one besides its kind.
    pub fn message(&self) -> (r: Option<String>)
        ensures
            r is Some <==> self.text() is Some,
            r matches Some(m) ==> m@ == self.text()->Some_0,
    {
        let mut m: String = String::new();
        match self {
            SocketError::NotConnected => {
                return None;
            },
            SocketError::ConnectionRefused => {
                m.append("connection refused");
            },
            SocketError::MtuTooSmall { mtu } => {
                m.append("mtu ");
                m.append(decimal(*mtu as u64).as_str());
                m.append(" leaves no room for an IPv4+UDP header");
            },
            SocketError::FrameTooLarge { mtu, size, page_size } => {
                m.append("mtu ");
                m.append(decimal(*mtu as u64).as_str());
                m.append(" needs ");
                m.append(decimal(*size as u64).as_str());
                m.append("-byte UMEM frames, over the ");
                m.append(decimal(*page_size as u64).as_str());
                m.append("-byte page limit for aligned chunks");
            },
            SocketError::TcpSend(crate::tcp::SendError::InvalidState) => {
                m.append("tcp send: InvalidState");
            },
            SocketError::TcpConnect(crate::tcp::ConnectError::InvalidState) => {
                m.append("tcp connect: InvalidState");
            },
            SocketError::TcpConnect(crate::tcp::ConnectError::Unaddressable) => {
                m.append("tcp connect: Unaddressable");
            },
        }
        assert(m@ =~= self.text()->Some_0);
        Some(m)
    }
}

// ---------------------------------------------------------------------------
// Frame size
// ---------------------------------------------------------------------------

/// `from` doubled until it is `at_least` that much.
pub open spec fn doubled(from: nat, at_least: nat) -> nat
    decreases
        if from < at_least {
            at_least - from
        } else {
            0
        },
{
    if from == 0 || from >= at_least {
        from
    } else {
        doubled(2 * from, at_least)
    }
}

/// The frame size for packets of `mtu` bytes: the kernel's minimum, doubled
/// until a packet and its Ethernet header fit.
pub open spec fn chunk_size(mtu: nat) -> nat {
    doubled(MIN_CHUNK_SIZE as nat, ETH_HDR_LEN as nat + mtu)
}

/// The size of the UMEM frames for packets of `mtu` bytes: a power of two, at
/// most a page.
pub fn frame_size_for(mtu: usize, page_size: usize) -> (r: Result<u32, SocketError>)
    requires
        ETH_HDR_LEN + mtu <= usize::MAX / 2 + 1,
    ensures
        r == if chunk_size(mtu as nat) > page_size {
            Err(
                SocketError::FrameTooLarge {
                    mtu,
                    size: chunk_size(mtu as nat) as usize,
                    page_size,
                },
            )
        } else {
            Ok((chunk_size(mtu as nat) % 0x1_0000_0000) as u32)
        },
{
    proof {
        lemma_chunk_fits(mtu);
        lemma_doubled_grows(MIN_CHUNK_SIZE as nat, ETH_HDR_LEN as nat + mtu as nat);
    }
    let need: usize = ETH_HDR_LEN + mtu;
    let mut size: usize = MIN_CHUNK_SIZE;
    while size < need
        invariant
            size > 0,
            need == ETH_HDR_LEN + mtu,
            doubled(size as nat, need as nat) == chunk_size(mtu as nat),
            chunk_size(mtu as nat) <= usize::MAX,
        decreases
            if size < need {
                need - size
            } else {
                0
            },
    {
        proof {
            lemma_doubled_grows(2 * size as nat, need as nat);
        }
        size = size * 2;
    }
    if size > page_size {
        return Err(SocketError::FrameTooLarge { mtu, size, page_size });
    }
    Ok((size as u64 % 0x1_0000_0000) as u32)
}

proof fn lemma_doubled_grows(from: nat, at_least: nat)
    requires
        from > 0,
    ensures
        doubled(from, at_least) >= from,
        doubled(from, at_least) >= at_least,
    decreases
        if from < at_least {
            at_least - from
        } else {
            0
        },
{
    if from < at_least {
        lemma_doubled_grows(2 * from, at_least);
    }
}

/// The frame size is the smallest power of two that the kernel accepts and
/// that holds a packet with its Ethernet header.
pub proof fn frame_size_is_the_smallest(mtu: nat)
    ensures
        is_pow2(chunk_size(mtu) as int),
        chunk_size(mtu) >= MIN_CHUNK_SIZE,
        chunk_size(mtu) >= ETH_HDR_LEN + mtu,
        forall|p: int| #[trigger]
            is_pow2(p) && p >= MIN_CHUNK_SIZE && p >= ETH_HDR_LEN + mtu ==> p >= chunk_size(mtu),
{
    lemma_min_chunk();
    lemma_doubled_grows(MIN_CHUNK_SIZE as nat, ETH_HDR_LEN as nat + mtu);
    lemma_doubled_pow2(MIN_CHUNK_SIZE as nat, ETH_HDR_LEN as nat + mtu);
    assert forall|p: int| #[trigger]
        is_pow2(p) && p >= MIN_CHUNK_SIZE && p >= ETH_HDR_LEN + mtu implies p >= chunk_size(
        mtu,
    ) by {
        lemma_doubled_least(MIN_CHUNK_SIZE as nat, ETH_HDR_LEN as nat + mtu, p as nat);
    }
}

/// The frame size for a packet of up to half the address space is a number.
proof fn lemma_chunk_fits(mtu: usize)
    requires
        ETH_HDR_LEN + mtu <= usize::MAX / 2 + 1,
    ensures
        chunk_size(mtu as nat) <= usize::MAX,
{
    lemma_min_chunk();
    let e = (usize::BITS - 1) as nat;
    vstd::arithmetic::power2::lemma2_to64();
    vstd::arithmetic::power2::lemma2_to64_rest();
    vstd::arithmetic::power2::lemma_pow2(e);
    let half = vstd::arithmetic::power2::pow2(e);
    assert(half == usize::MAX / 2 + 1);
    vstd::arithmetic::power2::is_pow2_equiv(half as int);
    assert(is_pow2(half as int));
    lemma_doubled_least(MIN_CHUNK_SIZE as nat, ETH_HDR_LEN as nat + mtu as nat, half);
}

proof fn lemma_min_chunk()
    ensures
        is_pow2(2048),
        is_pow2(4096),
{
    reveal_with_fuel(is_pow2, 14);
}

proof fn lemma_doubled_pow2(from: nat, at_least: nat)
    requires
        is_pow2(from as int),
    ensures
        is_pow2(doubled(from, at_least) as int),
    decreases
        if from < at_least {
            at_least - from
        } else {
            0
        },
{
    reveal(is_pow2);
    if from < at_least {
        assert((2 * from) / 2 == from);
        lemma_doubled_pow2(2 * from, at_least);
    }
}

/// Powers of two are at least twice as large as those below them.
proof fn lemma_pow2_gap(p: nat, q: nat)
    requires
        is_pow2(p as int),
        is_pow2(q as int),
        p < q,
    ensures
        2 * p <= q,
    decreases q,
{
    reveal(is_pow2);
    if p > 1 {
        lemma_pow2_gap(p / 2, q / 2);
    }
}

proof fn lemma_doubled_least(from: nat, at_least: nat, p: nat)
    requires
        is_pow2(from as int),
        is_pow2(p as int),
        p >= from,
        p >= at_least,
    ensures
        doubled(from, at_least) <= p,
    decreases
        if from < at_least {
            at_least - from
        } else {
            0
        },
{
    reveal(is_pow2);
    if from < at_least {
        assert((2 * from) / 2 == from);
        lemma_pow2_gap(from, p);
        lemma_doubled_least(2 * from, at_least, p);
    }
}

// ---------------------------------------------------------------------------
// Configuration
// ---------------------------------------------------------------------------

/// How many bytes were sent.
#[must_use]
#[derive(Debug, Clone, Copy, PartialEq, Eq, Structural)]
pub struct Sent(pub usize);

#[derive(Debug, Clone, Copy, PartialEq, Eq, Structural)]
pub enum Protocol {
    Tcp,
    Udp,
}

/// UMEM backing pages. The kernel only accepts sizes its hugetlb pools are
/// built for, so this is a fixed list rather than a free-form byte count.
#[derive(Debug, Clone, Copy, PartialEq, Eq, Structural)]
pub enum HugePage {
    Off,
    Mb2,
    Gb1,
}

impl HugePage {
    /// The size of a page, where it is not the system's.
    pub open spec fn page_bytes(self) -> Option<usize> {
        match self {
            HugePage::Off => None,
            HugePage::Mb2 => Some(0x20_0000),
            HugePage::Gb1 => Some(0x4000_0000),
        }
    }

    pub fn bytes(self) -> (r: Option<usize>)
        ensures
            r == self.page_bytes(),
    {
        match self {
            HugePage::Off => None,
            HugePage::Mb2 => Some(0x20_0000),
            HugePage::Gb1 => Some(0x4000_0000),
        }
    }

    pub open spec fn label_text(self) -> Seq<char> {
        match self {
            HugePage::Off => "normal pages (hugetlb pool empty; sysctl vm.nr_hugepages)"@,
            HugePage::Mb2 => "2 MiB hugepages"@,
            HugePage::Gb1 => "1 GiB hugepages"@,
        }
    }

    pub fn label(self) -> (r: &'static str)
        ensures
            r@ == self.label_text(),
    {
        match self {
            HugePage::Off => "normal pages (hugetlb pool empty; sysctl vm.nr_hugepages)",
            HugePage::Mb2 => "2 MiB hugepages",
            HugePage::Gb1 => "1 GiB hugepages",
        }
    }

    /// Whether `len` bytes are made up of pages of this size.
    pub open spec fn divides(self, len: nat) -> bool {
        self.page_bytes() is Some && len % self.page_bytes()->Some_0 as nat == 0
    }

    /// How to ask `mmap` for `len` bytes on pages of this size: the binary
    /// logarithm of the size, where its flags expect it. `None` where normal
    /// pages are to be asked for at once.
    pub fn map_flag(self, len: usize) -> (r: Option<i32>)
        ensures
            r is Some <==> self.divides(len as nat),
            r matches Some(flag) ==> flag == 0x400_0000 * (if self is Mb2 {
                21int
            } else {
                30int
            }),
    {
        match self.bytes() {
            Some(size) => {
                if len % size != 0 {
                    return None;
                }
                let log: i32 = match self {
                    HugePage::Gb1 => 30,
                    _ => 21,
                };
                assert(21i32 << 26u32 == 0x5400_0000 && 30i32 << 26u32 == 0x7800_0000)
                    by (bit_vector);
                Some(log << MAP_HUGE_SHIFT)
            },
            None => None,
        }
    }

    /// What the UMEM is backed by, once mapping it on these pages worked or
    /// did not.
    pub fn backing(self, mapped: bool) -> (r: HugePage)
        ensures
            r == if mapped {
                self
            } else {
                HugePage::Off
            },
    {
        if mapped {
            self
        } else {
            HugePage::Off
        }
    }
}

/// AF_XDP bind mode. `Copy` works everywhere; `ZeroCopy` needs a driver that
/// supports it. `Auto` asks for zero-copy and falls back rather than refusing
/// to bind.
#[derive(Debug, Clone, Copy, PartialEq, Eq, Structural)]
pub enum XdpMode {
    Copy,
    ZeroCopy,
    Auto,
}

/// A way to bind: its flag, and its name to report if it takes.
#[derive(Debug, Clone, Copy)]
pub struct BindAttempt {
    pub flag: u16,
    pub label: &'static str,
}

impl BindAttempt {
    pub open spec fn is_zero_copy(self) -> bool {
        self.flag == XDP_ZEROCOPY && self.label@ == "zero-copy"@
    }

    pub open spec fn is_copy(self) -> bool {
        self.flag == XDP_COPY && self.label@ == "copy mode"@
    }
}

impl XdpMode {
    /// The ways to bind that are tried, in order.
    pub fn attempts(self) -> (r: Vec<BindAttempt>)
        ensures
            self is Copy ==> r@.len() == 1 && r@[0].is_copy(),
            self is ZeroCopy ==> r@.len() == 1 && r@[0].is_zero_copy(),
            self is Auto ==> r@.len() == 2 && r@[0].is_zero_copy() && r@[1].is_copy(),
    {
        let zc = BindAttempt { flag: XDP_ZEROCOPY, label: "zero-copy" };
        let cp = BindAttempt { flag: XDP_COPY, label: "copy mode" };
        match self {
            XdpMode::Copy => vec![cp],
            XdpMode::ZeroCopy => vec![zc],
            XdpMode::Auto => vec![zc, cp],
        }
    }
}

/// What to do after an attempt to bind.
#[derive(Debug, Clone, Copy)]
pub enum BindStep {
    /// The socket is bound.
    Bound,
    /// Try this next.
    Try(BindAttempt),
    /// There is nothing left to try.
    Failed,
}

/// What to do after the attempt at `i`.
pub open spec fn bind_step(attempts: Seq<BindAttempt>, i: int, bound: bool) -> BindStep {
    if bound {
        BindStep::Bound
    } else if i + 1 < attempts.len() {
        BindStep::Try(attempts[i + 1])
    } else {
        BindStep::Failed
    }
}

/// Which attempt binds the socket, from the one at `i` on, where `works` says
/// of each whether it would.
pub open spec fn bound_by(attempts: Seq<BindAttempt>, works: Seq<bool>, i: int) -> Option<int>
    decreases attempts.len() - i,
{
    if i >= attempts.len() {
        None
    } else {
        match bind_step(attempts, i, works[i]) {
            BindStep::Bound => Some(i),
            BindStep::Try(_) => bound_by(attempts, works, i + 1),
            BindStep::Failed => None,
        }
    }
}

/// The label that the attempts from the one at `i` on leave a socket with,
/// which had the label `before`.
pub open spec fn label_after(
    attempts: Seq<BindAttempt>,
    works: Seq<bool>,
    i: int,
    before: Seq<char>,
) -> Seq<char>
    decreases attempts.len() - i,
{
    if i >= attempts.len() {
        before
    } else {
        match bind_step(attempts, i, works[i]) {
            BindStep::Bound => attempts[i].label@,
            BindStep::Try(_) => label_after(attempts, works, i + 1, before),
            BindStep::Failed => before,
        }
    }
}

/// What to do after an attempt to attach the XDP program.
#[derive(Debug, Clone, Copy, PartialEq, Eq, Structural)]
pub enum AttachStep {
    /// The program is attached like this.
    Done(XdpAttachment),
    /// Try this next.
    Try(XdpAttachment),
    /// There is nothing left to try.
    Failed,
}

/// What to do after the attempt at `i` to attach the XDP program: native
/// first, generic where that fails.
pub fn after_attach(ifindex: u32, i: usize, attached: bool) -> (r: AttachStep)
    requires
        i < 2,
    ensures
        r == if attached {
            AttachStep::Done(XdpAttachment { ifindex, native: i == 0 })
        } else if i == 0 {
            AttachStep::Try(XdpAttachment { ifindex, native: false })
        } else {
            AttachStep::Failed
        },
{
    let attempts = XdpAttachment::attempts(ifindex);
    if attached {
        AttachStep::Done(attempts[i])
    } else if i + 1 < 2 {
        AttachStep::Try(attempts[i + 1])
    } else {
        AttachStep::Failed
    }
}

/// An XDP program on an interface: native (driver) or generic.
///
/// The mode is not cosmetic: a zero-copy socket can only be fed by the
/// driver's own path, so a generic attachment redirects into a void.
#[derive(Debug, Clone, Copy, PartialEq, Eq, Structural)]
pub struct XdpAttachment {
    pub ifindex: u32,
    pub native: bool,
}

impl XdpAttachment {
    /// The attachments that are tried on an interface, in order: native first,
    /// generic second.
    pub fn attempts(ifindex: u32) -> (r: [XdpAttachment; 2])
        ensures
            r@ == seq![
                (XdpAttachment { ifindex, native: true }),
                (XdpAttachment { ifindex, native: false }),
            ],
    {
        let r: [XdpAttachment; 2] = [
            XdpAttachment { ifindex, native: true },
            XdpAttachment { ifindex, native: false },
        ];
        assert(r@ =~= seq![
            (XdpAttachment { ifindex, native: true }),
            (XdpAttachment { ifindex, native: false }),
        ]);
        r
    }

    pub fn label(&self) -> (r: &'static str)
        ensures
            self.native ==> r@ == "native"@,
            !self.native ==> r@ == "generic"@,
    {
        if self.native {
            "native"
        } else {
            "generic"
        }
    }
}

#[derive(Debug, Clone, Copy)]
pub struct Config {
    pub ifindex: u32,
    pub our_ip: Ipv4Addr,
    pub our_mac: [u8; 6],
    pub peer_mac: [u8; 6],
    pub queue_id: u32,
    pub mtu: usize,
    pub hugepage: HugePage,
    pub xdp_mode: XdpMode,
}

// ---------------------------------------------------------------------------
// Flow keys
// ---------------------------------------------------------------------------

/// The key under which the XDP program looks a flow up: what an inbound packet
/// says, source first, packed and in network order.
pub open spec fn flow_bytes(local: SocketAddrV4, remote: SocketAddrV4) -> Seq<u8> {
    remote.ip.bytes() + crate::addr::be16(remote.port as nat) + local.ip.bytes()
        + crate::addr::be16(local.port as nat)
}

pub fn flow_key(local: SocketAddrV4, remote: SocketAddrV4) -> (r: [u8; 12])
    ensures
        r@ == flow_bytes(local, remote),
{
    let r: [u8; 12] = [
        remote.ip.a,
        remote.ip.b,
        remote.ip.c,
        remote.ip.d,
        port_hi(remote.port),
        port_lo(remote.port),
        local.ip.a,
        local.ip.b,
        local.ip.c,
        local.ip.d,
        port_hi(local.port),
        port_lo(local.port),
    ];
    assert(r@ =~= flow_bytes(local, remote));
    r
}

/// Different flows have different keys.
pub proof fn flow_keys_differ(
    local: SocketAddrV4,
    remote: SocketAddrV4,
    other_local: SocketAddrV4,
    other_remote: SocketAddrV4,
)
    ensures
        flow_bytes(local, remote) == flow_bytes(other_local, other_remote) <==> local
            == other_local && remote == other_remote,
{
    let a = flow_bytes(local, remote);
    let b = flow_bytes(other_local, other_remote);
    if a == b {
        assert(forall|i: int| 0 <= i < 12 ==> a[i] == b[i]);
        assert(a[0] == remote.ip.a && a[1] == remote.ip.b && a[2] == remote.ip.c && a[3]
            == remote.ip.d && a[6] == local.ip.a && a[7] == local.ip.b && a[8] == local.ip.c && a[9]
            == local.ip.d);
        assert(b[0] == other_remote.ip.a && b[1] == other_remote.ip.b && b[2] == other_remote.ip.c
            && b[3] == other_remote.ip.d && b[6] == other_local.ip.a && b[7] == other_local.ip.b
            && b[8] == other_local.ip.c && b[9] == other_local.ip.d);
        assert(a[4] as nat * 256 + a[5] as nat == remote.port);
        assert(b[4] as nat * 256 + b[5] as nat == other_remote.port);
        assert(a[10] as nat * 256 + a[11] as nat == local.port);
        assert(b[10] as nat * 256 + b[11] as nat == other_local.port);
    }
}

/// Direction is load-bearing: only what comes from the peer is keyed, so a
/// copy of our own output that comes back to us does not match, unless both
/// ends are the same.
pub proof fn flow_key_has_a_direction(local: SocketAddrV4, remote: SocketAddrV4)
    requires
        local != remote,
    ensures
        flow_bytes(local, remote) != flow_bytes(remote, local),
{
    flow_keys_differ(local, remote, remote, local);
}

// ---------------------------------------------------------------------------
// What the system says, as text
// ---------------------------------------------------------------------------

/// The bytes of a MAC address: six hexadecimal numbers between colons.
pub open spec fn mac_bytes(s: Seq<char>) -> Option<Seq<u8>> {
    let parts = crate::text::split_on(s, ':');
    if parts.len() == 6 && forall|i: int|
        0 <= i < 6 ==> crate::text::uint_value(#[trigger] parts[i], 16, 255) is Some {
        Some(Seq::new(6, |i: int| crate::text::uint_value(parts[i], 16, 255)->Some_0 as u8))
    } else {
        None
    }
}

/// What is said of a text that is no MAC address.
pub open spec fn bad_mac(s: Seq<char>) -> Seq<char> {
    "bad MAC "@ + crate::text::debug_quoted(s)
}

pub(crate) fn bad_mac_message(s: &str) -> (r: String)
    ensures
        r@ == bad_mac(s@),
{
    let mut m = String::new();
    m.append("bad MAC ");
    m.append(quote(s).as_str());
    assert(m@ =~= bad_mac(s@));
    m
}

pub fn parse_mac(s: &str) -> (r: Result<[u8; 6], String>)
    ensures
        r is Ok <==> mac_bytes(s@) is Some,
        r matches Ok(mac) ==> mac@ == mac_bytes(s@)->Some_0,
        r matches Err(m) ==> m@ == bad_mac(s@),
{
    let chars = chars_of(s);
    let bounds = split_bounds(chars.as_slice(), ':');
    let ghost parts = crate::text::split_on(s@, ':');
    let mut out: [u8; 6] = [0; 6];
    let mut n: usize = 0;
    while n < bounds.len()
        invariant
            n <= bounds@.len(),
            n <= 6,
            chars@ == s@,
            parts == crate::text::split_on(s@, ':'),
            bounds@.len() == parts.len(),
            forall|i: int|
                0 <= i < bounds@.len() ==> (#[trigger] bounds@[i]).0 <= bounds@[i].1
                    <= chars@.len() && parts[i] == chars@.subrange(
                    bounds@[i].0 as int,
                    bounds@[i].1 as int,
                ),
            forall|i: int|
                0 <= i < n ==> crate::text::uint_value(#[trigger] parts[i], 16, 255) is Some
                    && out@[i] == crate::text::uint_value(parts[i], 16, 255)->Some_0,
        decreases bounds@.len() - n,
    {
        if n == 6 {
            return Err(bad_mac_message(s));
        }
        let (from, to) = bounds[n];
        match parse_uint(vstd::slice::slice_subrange(chars.as_slice(), from, to), 16, 255) {
            Some(v) => {
                out[n] = v as u8;
            },
            None => {
                assert(crate::text::uint_value(parts[n as int], 16, 255) is None);
                return Err(bad_mac_message(s));
            },
        }
        n = n + 1;
    }
    if n != 6 {
        return Err(bad_mac_message(s));
    }
    assert(out@ =~= mac_bytes(s@)->Some_0);
    Ok(out)
}

/// Reads the MAC address in an interface's file: a text with white space
/// around it.
pub fn mac_from_file(s: &str) -> (r: Result<[u8; 6], String>)
    ensures
        r is Ok <==> mac_bytes(crate::text::trimmed(s@)) is Some,
        r matches Ok(mac) ==> mac@ == mac_bytes(crate::text::trimmed(s@))->Some_0,
        r matches Err(m) ==> m@ == bad_mac(crate::text::trimmed(s@)),
{
    parse_mac(s.trim())
}

/// What an interface's MTU file says: a decimal number, with white space
/// around it.
pub open spec fn mtu_value(s: Seq<char>) -> Option<nat> {
    crate::text::uint_value(crate::text::trimmed(s), 10, usize::MAX as nat)
}

/// Reads the MTU out of the text of an interface's file.
pub fn parse_mtu(s: &str) -> (r: Option<usize>)
    ensures
        r is Some <==> mtu_value(s@) is Some,
        r matches Some(mtu) ==> mtu == mtu_value(s@)->Some_0,
{
    let chars = chars_of(s.trim());
    match parse_uint(chars.as_slice(), 10, usize::MAX as u64) {
        Some(v) => Some(v as usize),
        None => None,
    }
}

/// What is said of the text of an interface's MTU file that is no number, for
/// the given reason.
pub fn bad_mtu(ifname: &str, cause: &str) -> (r: String)
    ensures
        r@ == "mtu of "@ + ifname@ + ": "@ + cause@,
{
    let mut m = String::new();
    m.append("mtu of ");
    m.append(ifname);
    m.append(": ");
    m.append(cause);
    assert(m@ =~= "mtu of "@ + ifname@ + ": "@ + cause@);
    m
}

/// What is said where the kernel refused to register the UMEM: only a refusal
/// for want of lockable memory, with a limit on it, is explained.
pub open spec fn umem_reg_text(
    errno: Option<i32>,
    e: Seq<char>,
    umem_len: nat,
    limit: Option<u64>,
) -> Option<Seq<char>> {
    if errno == Some(ENOBUFS) && limit is Some && limit != Some(RLIM_INFINITY) {
        Some(
            "register "@ + crate::text::decimal_digits(umem_len / 1024) + " KiB UMEM: "@ + e
                + " (RLIMIT_MEMLOCK is "@ + crate::text::decimal_digits(
                limit->Some_0 as nat / 1024,
            ) + " KiB; grant cap_ipc_lock or raise the memlock limit)"@,
        )
    } else {
        None
    }
}

/// The message for a refused UMEM registration, where there is more to say
/// than the system's own `e`. `limit` is the limit on locked memory, where it
/// could be read.
pub fn umem_reg_error(errno: Option<i32>, e: &str, umem_len: usize, limit: Option<u64>) -> (r:
    Option<String>)
    ensures
        r is Some <==> umem_reg_text(errno, e@, umem_len as nat, limit) is Some,
        r matches Some(m) ==> m@ == umem_reg_text(errno, e@, umem_len as nat, limit)->Some_0,
{
    if errno != Some(ENOBUFS) {
        return None;
    }
    match limit {
        Some(cur) => {
            if cur == RLIM_INFINITY {
                return None;
            }
            let mut m = String::new();
            m.append("register ");
            m.append(decimal((umem_len / 1024) as u64).as_str());
            m.append(" KiB UMEM: ");
            m.append(e);
            m.append(" (RLIMIT_MEMLOCK is ");
            m.append(decimal(cur / 1024).as_str());
            m.append(" KiB; grant cap_ipc_lock or raise the memlock limit)");
            assert(m@ =~= umem_reg_text(errno, e@, umem_len as nat, limit)->Some_0);
            Some(m)
        },
        None => None,
    }
}

// ---------------------------------------------------------------------------
// The AF_XDP socket
// ---------------------------------------------------------------------------

/// An AF_XDP socket whose frames are sized to the link, and which tells the
/// driver about queued frames once per batch.
#[derive(Debug)]
pub struct Xsk {
    pub rings: Rings,
    /// Frames published to the TX ring that the driver has not been told
    /// about. The ring asks for a wakeup whether or not anything is queued, so
    /// without this a kick in a polling loop would fire on every idle spin.
    pub tx_pending: bool,
    pub huge: HugePage,
    pub bind_label: &'static str,
}

impl Xsk {
    /// The bookkeeping for a link of the given MTU, each frame large enough
    /// for one packet.
    pub fn new(mtu: usize, page_size: usize) -> (r: Result<Xsk, SocketError>)
        requires
            ETH_HDR_LEN + mtu <= usize::MAX / 2 + 1,
            page_size <= u32::MAX,
            page_size * FRAME_COUNT <= usize::MAX,
        ensures
            r is Err <==> chunk_size(mtu as nat) > page_size,
            r matches Err(e) ==> e == (SocketError::FrameTooLarge {
                mtu,
                size: chunk_size(mtu as nat) as usize,
                page_size,
            }),
            r matches Ok(x) ==> {
                &&& x.rings.wf()
                &&& x.rings@ == crate::ring::new_rings(
                    chunk_size(mtu as nat),
                    FRAME_COUNT as nat,
                    FILL_SIZE as nat,
                    RX_SIZE as nat,
                    TX_SIZE as nat,
                )
                &&& !x.tx_pending
                &&& x.huge is Off
                &&& x.bind_label@ == ""@
            },
    {
        proof {
            lemma_chunk_fits(mtu);
        }
        match frame_size_for(mtu, page_size) {
            Ok(frame_size) => {
                proof {
                    frame_size_is_the_smallest(mtu as nat);
                    lemma_min_chunk();
                    assert(frame_size * FRAME_COUNT <= page_size * FRAME_COUNT)
                        by (nonlinear_arith)
                        requires
                            frame_size <= page_size,
                    ;
                }
                let rings = Rings::new(frame_size, FRAME_COUNT, FILL_SIZE, RX_SIZE, TX_SIZE);
                Ok(Xsk { rings, tx_pending: false, huge: HugePage::Off, bind_label: "" })
            },
            Err(e) => Err(e),
        }
    }

    /// Decides after the attempt at `i` to bind: whether the socket is bound, and
    /// how, or what to try next.
    pub fn after_bind(&mut self, attempts: &Vec<BindAttempt>, i: usize, bound: bool) -> (r: BindStep)
        requires
            i < attempts@.len(),
        ensures
            r == bind_step(attempts@, i as int, bound),
            bound ==> final(self).bind_label@ == attempts@[i as int].label@,
            !bound ==> final(self).bind_label@ == old(self).bind_label@,
            final(self).rings == old(self).rings,
            final(self).huge == old(self).huge,
            final(self).tx_pending == old(self).tx_pending,
    {
        let n: usize = attempts.len();
        if bound {
            self.bind_label = attempts[i].label;
            BindStep::Bound
        } else if i + 1 < n {
            BindStep::Try(attempts[i + 1])
        } else {
            BindStep::Failed
        }
    }

    /// Queues the `len` bytes at `addr` on the TX ring: what to write into
    /// which slot, and the producer to publish after it.
    ///
    /// Nothing is sent until the driver is told, by [`Self::kick_tx`] at the
    /// end of a batch.
    pub fn tx_submit(&mut self, addr: u64, len: u32) -> (r: Submit)
        requires
            old(self).rings.wf(),
        ensures
            final(self).rings.wf(),
            r == submitted(old(self).rings@, addr, len),
            final(self).rings@ == (crate::ring::RingsView {
                sent: r.producer,
                ..old(self).rings@
            }),
            final(self).tx_pending,
            final(self).huge == old(self).huge,
            final(self).bind_label == old(self).bind_label,
    {
        let r = self.rings.tx_submit(addr, len);
        self.tx_pending = true;
        r
    }

    /// Whether the driver has to be told about queued frames now, by the TX
    /// ring's flags. It counts as told afterwards. `false` where nothing was
    /// queued, which is most calls in a polling loop.
    pub fn kick_tx(&mut self, tx_flags: u32) -> (r: bool)
        ensures
            r == (old(self).tx_pending && tx_flags % 2 == 1),
            *final(self) == (Xsk { tx_pending: false, ..*old(self) }),
    {
        if !self.tx_pending {
            return false;
        }
        self.tx_pending = false;
        needs_wakeup(tx_flags)
    }

    /// Whether to nudge the driver to service the FILL ring, by that ring's
    /// flags.
    pub fn kick_rx(&self, fill_flags: u32) -> (r: bool)
        ensures
            r == (fill_flags % 2 == 1),
    {
        needs_wakeup(fill_flags)
    }
}

impl Xsk {
    /// What is said of the UMEM once the socket is bound.
    pub open spec fn report_text(self, queue_id: u32) -> Seq<char> {
        "-- UMEM: "@ + crate::text::decimal_digits(self.rings@.umem_len() / 0x10_0000) + " MiB, "@
            + crate::text::decimal_digits(FRAME_COUNT as nat) + " x "@
            + crate::text::decimal_digits(self.rings@.frame_size) + "-byte frames on "@
            + self.huge.label_text() + "; bound "@ + self.bind_label@ + " on queue "@
            + crate::text::decimal_digits(queue_id as nat) + " --"@
    }

    pub fn report(&self, queue_id: u32) -> (r: String)
        requires
            self.rings.wf(),
        ensures
            r@ == self.report_text(queue_id),
    {
        let mut m = String::new();
        m.append("-- UMEM: ");
        m.append(decimal((self.rings.umem_len() / 0x10_0000) as u64).as_str());
        m.append(" MiB, ");
        m.append(decimal(FRAME_COUNT as u64).as_str());
        m.append(" x ");
        m.append(decimal(self.rings.frame_size() as u64).as_str());
        m.append("-byte frames on ");
        m.append(self.huge.label());
        m.append("; bound ");
        m.append(self.bind_label);
        m.append(" on queue ");
        m.append(decimal(queue_id as u64).as_str());
        m.append(" --");
        assert(m@ =~= self.report_text(queue_id));
        m
    }
}

/// The next entry of the TX ring.
pub open spec fn submitted(v: crate::ring::RingsView, addr: u64, len: u32) -> Submit {
    Submit {
        slot: (v.sent as int % v.tx_size as int) as usize,
        desc: crate::ring::Desc { addr, len, options: 0 },
        producer: crate::ring::ahead(v.sent, 1),
    }
}

// ---------------------------------------------------------------------------
// Clock
// ---------------------------------------------------------------------------

/// Polls served from one clock reading before taking another.
pub const CLOCK_TICKS: u32 = 32;

/// A clock that is read once per [`CLOCK_TICKS`] polls.
#[derive(Debug, Clone, Copy, PartialEq, Eq, Structural)]
pub struct Clock {
    /// The last reading, in microseconds.
    pub micros: i64,
    /// For how many more polls it serves.
    pub ticks_left: u32,
}

impl Clock {
    pub fn new(micros: i64) -> (r: Clock)
        ensures
            r == (Clock { micros, ticks_left: 0 }),
    {
        Clock { micros, ticks_left: 0 }
    }

    /// Whether the next poll needs a new reading.
    pub fn due(&self) -> (r: bool)
        ensures
            r == (self.ticks_left == 0),
    {
        self.ticks_left == 0
    }

    /// The time for the next poll. `reading` is a new reading, where one is
    /// due.
    pub fn now(&mut self, reading: Option<i64>) -> (r: i64)
        requires
            reading is Some <==> old(self).ticks_left == 0,
        ensures
            r == if old(self).ticks_left == 0 {
                reading->Some_0
            } else {
                old(self).micros
            },
            *final(self) == (Clock {
                micros: r,
                ticks_left: ((if old(self).ticks_left == 0 {
                    CLOCK_TICKS
                } else {
                    old(self).ticks_left
                }) - 1) as u32,
            }),
    {
        if let Some(micros) = reading {
            self.micros = micros;
            self.ticks_left = CLOCK_TICKS;
        }
        self.ticks_left = self.ticks_left - 1;
        self.micros
    }
}

// ---------------------------------------------------------------------------
// The socket
// ---------------------------------------------------------------------------

/// TCP over an AF_XDP socket of its own. The caller polls the stream's
/// interface, whose packets pass through the frames.
pub struct TcpPlane {
    pub xsk: Xsk,
    pub clock: Clock,
    pub stream: Stream,
}

pub enum Plane {
    Tcp(TcpPlane),
    Udp(UdpPlane),
}

/// What a transport needs from the system besides the AF_XDP socket.
pub enum Link {
    /// A fresh interface, and the time in microseconds.
    Tcp(Interface, i64),
    Udp,
}

/// A socket of either transport. It starts unconnected; one `connect` serves
/// both.
pub struct Socket {
    pub queue_id: u32,
    pub mtu: usize,
    pub our_ip: Ipv4Addr,
    /// The local port that the system reserved for us.
    pub port: u16,
    pub connected: bool,
    pub remote: Option<SocketAddrV4>,
    /// Every peer whose flow was put into the XDP program's map for us.
    pub remotes: Vec<SocketAddrV4>,
    pub plane: Plane,
}

/// How far a send has come.
#[derive(Debug, Clone, Copy, PartialEq, Eq, Structural)]
pub struct SendStep {
    /// How many bytes of the buffer were taken so far.
    pub sent: Sent,
    /// Whether that was the last step.
    pub done: bool,
    /// What happened to the datagram of this step, if it was one.
    pub datagram: Option<Datagram>,
}

/// Where the datagram ends that starts at `from` in a buffer of `len` bytes,
/// with at most `max` bytes to a datagram.
pub open spec fn chunk_end(from: nat, max: nat, len: nat) -> nat {
    if from + max <= len {
        from + max
    } else {
        len
    }
}

impl Plane {
    pub open spec fn xsk(self) -> Xsk {
        match self {
            Plane::Tcp(t) => t.xsk,
            Plane::Udp(u) => u.xsk,
        }
    }
}

impl Socket {
    /// What holds between calls: payloads fit behind the headers and packets
    /// into frames, a connected socket has a peer, whose flow is registered,
    /// and the UDP plane frames for the same flow that the socket tells of.
    pub open spec fn wf(self) -> bool {
        &&& self.mtu > UDP_OVERHEAD
        &&& self.plane.xsk().rings.wf()
        &&& ETH_HDR_LEN + self.mtu <= self.plane.xsk().rings@.frame_size
        &&& self.connected == (self.remote is Some)
        &&& self.remote matches Some(remote) ==> self.remotes@.contains(remote)
        &&& match self.plane {
            Plane::Tcp(t) => t.stream.wf(),
            Plane::Udp(u) => u.framing.local == self.endpoint() && u.framing.remote == self.remote,
        }
    }

    /// Our own endpoint.
    pub open spec fn endpoint(self) -> SocketAddrV4 {
        SocketAddrV4 { ip: self.our_ip, port: self.port }
    }

    /// The keys that this socket has registered, one for each connect.
    pub open spec fn keys(self) -> Seq<Seq<u8>> {
        self.remotes@.map_values(|remote: SocketAddrV4| flow_bytes(self.endpoint(), remote))
    }

    /// The same socket, but for its peers and what its plane does.
    pub open spec fn same_setup(self, other: Socket) -> bool {
        &&& self.queue_id == other.queue_id
        &&& self.mtu == other.mtu
        &&& self.our_ip == other.our_ip
        &&& self.port == other.port
    }

    /// The same socket, but for what its plane does.
    pub open spec fn same_but_plane(self, other: Socket) -> bool {
        &&& self.same_setup(other)
        &&& self.connected == other.connected
        &&& self.remote == other.remote
        &&& self.remotes@ == other.remotes@
    }

    /// A socket over `xsk` and the reserved `port`. An MTU without room for an
    /// IPv4 and a UDP header is refused, as is done before `xsk` is set up by
    /// [`Config::check`].
    pub fn new(link: Link, cfg: Config, xsk: Xsk, port: u16) -> (r: Result<Socket, SocketError>)
        requires
            xsk.rings.wf(),
            ETH_HDR_LEN + cfg.mtu <= xsk.rings@.frame_size,
            link is Tcp ==> cfg.our_ip.is_assignable(),
        ensures
            r is Err <==> cfg.mtu <= UDP_OVERHEAD,
            r matches Err(e) ==> e == (SocketError::MtuTooSmall { mtu: cfg.mtu }),
            r matches Ok(s) ==> {
                &&& s.wf()
                &&& s.queue_id == cfg.queue_id
                &&& s.mtu == cfg.mtu
                &&& s.our_ip == cfg.our_ip
                &&& s.port == port
                &&& s.remote is None
                &&& s.remotes@.len() == 0
                &&& match (link, s.plane) {
                    (Link::Udp, Plane::Udp(u)) => u == (UdpPlane {
                        xsk,
                        framing: Framing {
                            src_mac: cfg.our_mac,
                            dst_mac: cfg.peer_mac,
                            local: SocketAddrV4 { ip: cfg.our_ip, port },
                            remote: None,
                        },
                    }),
                    (Link::Tcp(iface, micros), Plane::Tcp(t)) => {
                        &&& t.xsk == xsk
                        &&& t.clock == (Clock { micros, ticks_left: 0 })
                        &&& t.stream.tcp() == crate::tcp::new_tcp(false)
                        &&& t.stream.addresses_from(iface, cfg.our_ip)
                    },
                    _ => false,
                }
            },
    {
        if let Err(e) = cfg.check() {
            return Err(e);
        }
        let plane = match link {
            Link::Tcp(iface, micros) => Plane::Tcp(
                TcpPlane {
                    xsk,
                    clock: Clock::new(micros),
                    stream: Stream::new(iface, cfg.our_ip, false),
                },
            ),
            Link::Udp => Plane::Udp(
                UdpPlane {
                    xsk,
                    framing: Framing {
                        src_mac: cfg.our_mac,
                        dst_mac: cfg.peer_mac,
                        local: SocketAddrV4::new(cfg.our_ip, port),
                        remote: None,
                    },
                },
            ),
        };
        Ok(
            Socket {
                queue_id: cfg.queue_id,
                mtu: cfg.mtu,
                our_ip: cfg.our_ip,
                port,
                connected: false,
                remote: None,
                remotes: Vec::new(),
                plane,
            },
        )
    }

    /// The key that has to be in the XDP program's map before
    /// [`Self::connect`] to `remote`, so that matching packets get redirected
    /// to us.
    pub fn key_for(&self, remote: SocketAddrV4) -> (r: [u8; 12])
        ensures
            r@ == flow_bytes(self.endpoint(), remote),
    {
        flow_key(self.local(), remote)
    }

    /// The keys that this socket has registered, to be removed when it goes.
    pub fn registered_keys(&self) -> (r: Vec<[u8; 12]>)
        ensures
            r@.len() == self.remotes@.len(),
            forall|i: int|
                0 <= i < r@.len() ==> (#[trigger] r@[i])@ == flow_bytes(
                    self.endpoint(),
                    self.remotes@[i],
                ),
    {
        let mut r: Vec<[u8; 12]> = Vec::new();
        let mut i: usize = 0;
        while i < self.remotes.len()
            invariant
                i <= self.remotes@.len(),
                r@.len() == i,
                forall|k: int|
                    0 <= k < i ==> (#[trigger] r@[k])@ == flow_bytes(
                        self.endpoint(),
                        self.remotes@[k],
                    ),
            decreases self.remotes@.len() - i,
        {
            r.push(flow_key(self.local(), self.remotes[i]));
            i = i + 1;
        }
        r
    }

    /// Starts the flow to `remote`, whose key is in the XDP program's map: for
    /// TCP the handshake, whose SYN leaves with the next poll. UDP is usable at
    /// once, there is nothing to negotiate. The key is noted, also where this
    /// fails: it is in the map.
    pub fn connect(&mut self, remote: SocketAddrV4) -> (r: Result<(), SocketError>)
        requires
            old(self).wf(),
        ensures
            final(self).wf(),
            final(self).plane.xsk() == old(self).plane.xsk(),
            match (old(self).plane, final(self).plane) {
                (Plane::Udp(before), Plane::Udp(after)) => {
                    &&& r is Ok
                    &&& after.framing == (Framing { remote: Some(remote), ..before.framing })
                },
                (Plane::Tcp(before), Plane::Tcp(after)) => {
                    let source = before.stream.source(remote.ip);
                    let t = before.stream.tcp();
                    &&& r is Ok <==> crate::tcp::connect_result(
                        t,
                        source,
                        remote,
                        old(self).port,
                    ) is Ok
                    &&& r matches Err(e) ==> e == SocketError::TcpConnect(
                        crate::tcp::connect_result(t, source, remote, old(self).port)->Err_0,
                    )
                    &&& after.stream.tcp() == crate::tcp::connecting(
                        t,
                        source,
                        remote,
                        old(self).port,
                    )
                    &&& after.clock == before.clock
                    &&& before.stream.keeps(after.stream)
                },
                _ => false,
            },
            old(self).same_setup(*final(self)),
            final(self).remotes@ == old(self).remotes@.push(remote),
            r is Ok ==> final(self).connected && final(self).remote == Some(remote),
            r is Err ==> final(self).connected == old(self).connected && final(self).remote == old(
                self,
            ).remote,
    {
        let local_port: u16 = self.port;
        self.remotes.push(remote);
        proof {
            assert(self.remotes@.last() == remote);
            if let Some(before) = self.remote {
                let i = choose|i: int|
                    0 <= i < old(self).remotes@.len() && old(self).remotes@[i] == before;
                assert(self.remotes@[i] == before);
            }
        }
        match &mut self.plane {
            Plane::Tcp(t) => {
                if let Err(e) = t.stream.start_connect(remote, local_port) {
                    return Err(SocketError::TcpConnect(e));
                }
            },
            Plane::Udp(u) => {
                u.framing.remote = Some(remote);
            },
        }
        self.remote = Some(remote);
        self.connected = true;
        Ok(())
    }

    /// How the handshake is going: `true` once established. For TCP the caller
    /// polls the interface first.
    pub fn poll_connect(&mut self) -> (r: Result<bool, SocketError>)
        requires
            old(self).wf(),
        ensures
            final(self).wf(),
            final(self).plane.xsk() == old(self).plane.xsk(),
            old(self).same_but_plane(*final(self)),
            match (old(self).plane, final(self).plane) {
                (Plane::Udp(before), Plane::Udp(after)) => before == after,
                (Plane::Tcp(before), Plane::Tcp(after)) => {
                    &&& after.stream.tcp() == before.stream.tcp()
                    &&& after.clock == before.clock
                    &&& before.stream.keeps(after.stream)
                },
                _ => false,
            },
            r == if !old(self).connected {
                Err(SocketError::NotConnected)
            } else {
                match old(self).plane {
                    Plane::Udp(_) => Ok(true),
                    Plane::Tcp(t) => match t.stream.tcp().state {
                        crate::tcp::TcpState::Established => Ok(true),
                        crate::tcp::TcpState::Closed => Err(SocketError::ConnectionRefused),
                        _ => Ok(false),
                    },
                }
            },
    {
        if !self.connected {
            return Err(SocketError::NotConnected);
        }
        match &mut self.plane {
            Plane::Tcp(t) => match handshake(t.stream.state()) {
                Some(established) => Ok(established),
                None => Err(SocketError::ConnectionRefused),
            },
            Plane::Udp(_) => Ok(true),
        }
    }

    /// Our own endpoint: the configured address plus the reserved port.
    pub fn local(&self) -> (r: SocketAddrV4)
        ensures
            r == self.endpoint(),
    {
        SocketAddrV4::new(self.our_ip, self.port)
    }

    pub fn local_port(&self) -> (r: u16)
        ensures
            r == self.port,
    {
        self.port
    }

    pub fn max_udp_payload(&self) -> (r: usize)
        requires
            self.wf(),
        ensures
            r == self.mtu - UDP_OVERHEAD,
    {
        self.mtu - UDP_OVERHEAD
    }

    /// Sends what stands at `from` in `buf`. The caller repeats this from
    /// where the last step ended, starting at zero, until it is done.
    ///
    /// TCP takes what the send queue accepts right now, in one step, and the
    /// caller polls the interface afterwards. UDP takes one datagram per step
    /// and the whole buffer in the end, and the caller kicks the driver once
    /// after that.
    pub fn send(
        &mut self,
        umem: &mut [u8],
        comp: &Completions<'_>,
        buf: &[u8],
        from: usize,
    ) -> (r: Result<SendStep, SocketError>)
        requires
            old(self).wf(),
            from < buf@.len() || from == 0,
            old(self).plane is Tcp ==> from == 0,
            old(self).plane is Udp ==> {
                &&& old(self).mtu <= 0xffff
                &&& old(umem)@.len() == old(self).plane.xsk().rings@.umem_len()
                &&& comp.fits(old(self).plane.xsk().rings@)
            },
        ensures
            final(self).wf(),
            old(self).same_but_plane(*final(self)),
            !old(self).connected ==> r == Err::<SendStep, SocketError>(SocketError::NotConnected),
            old(self).connected && buf@.len() == 0 ==> r == Ok::<SendStep, SocketError>(
                SendStep { sent: Sent(0), done: true, datagram: None },
            ),
            !old(self).connected || buf@.len() == 0 ==> *final(self) == *old(self) && final(umem)@
                == old(umem)@,
            old(self).connected && buf@.len() > 0 ==> match (old(self).plane, final(self).plane) {
                (Plane::Tcp(before), Plane::Tcp(after)) => {
                    let n = before.stream.tcp().accepts(buf@.len());
                    &&& r == Ok::<SendStep, SocketError>(
                        SendStep { sent: Sent(n as usize), done: true, datagram: None },
                    )
                    &&& after.stream.tcp() == before.stream.tcp().sent(buf@)
                    &&& after.xsk == before.xsk
                    &&& after.clock == before.clock
                    &&& before.stream.keeps(after.stream)
                    &&& final(umem)@ == old(umem)@
                },
                (Plane::Udp(before), Plane::Udp(after)) => {
                    let end = chunk_end(
                        from as nat,
                        (old(self).mtu - UDP_OVERHEAD) as nat,
                        buf@.len(),
                    );
                    &&& r is Ok
                    &&& r->Ok_0.sent == Sent(end as usize)
                    &&& r->Ok_0.done == (end == buf@.len())
                    &&& r->Ok_0.datagram is Some
                    &&& before.sent(
                        after,
                        old(umem)@,
                        final(umem)@,
                        *comp,
                        buf@.subrange(from as int, end as int),
                        Ok(r->Ok_0.datagram->Some_0),
                    )
                },
                _ => false,
            },
    {
        if !self.connected {
            return Err(SocketError::NotConnected);
        }
        if buf.len() == 0 {
            return Ok(SendStep { sent: Sent(0), done: true, datagram: None });
        }
        let max_payload: usize = self.max_udp_payload();
        match &mut self.plane {
            Plane::Udp(u) => {
                let to: usize = if max_payload <= buf.len() - from {
                    from + max_payload
                } else {
                    buf.len()
                };
                let chunk = vstd::slice::slice_subrange(buf, from, to);
                match u.send(umem, comp, chunk) {
                    Ok(d) => Ok(
                        SendStep { sent: Sent(to), done: to == buf.len(), datagram: Some(d) },
                    ),
                    Err(e) => Err(e),
                }
            },
            Plane::Tcp(t) => match t.stream.send(buf) {
                Ok(n) => Ok(SendStep { sent: Sent(n), done: true, datagram: None }),
                Err(e) => Err(SocketError::TcpSend(e)),
            },
        }
    }

    /// Whether a receive into `len` bytes looks for anything at all: the
    /// buffer has room, and there is a peer. The caller polls the interface
    /// (TCP) or takes one entry out of the RX ring (UDP) only then.
    pub fn wants_recv(&self, len: usize) -> (r: bool)
        ensures
            r == (len > 0 && self.connected),
    {
        len > 0 && self.connected
    }

    /// One pass over the rings. Nothing received means that nothing had
    /// arrived; zero bytes are the end of the stream (TCP only; UDP has no
    /// FIN).
    pub fn recv(&mut self, umem: &[u8], got: Option<Desc>, fill: &mut [u64], buf: &mut [u8]) -> (r:
        Receipt)
        requires
            old(self).wf(),
            old(self).plane is Udp ==> old(fill)@.len() == old(self).plane.xsk().rings@.fill_size,
            got matches Some(d) ==> {
                &&& d.addr + d.len <= umem@.len()
                &&& old(self).plane is Udp
                &&& old(self).connected
                &&& old(buf)@.len() > 0
            },
        ensures
            final(self).wf(),
            old(self).same_but_plane(*final(self)),
            !old(self).connected || old(buf)@.len() == 0 ==> {
                &&& r == (Receipt { received: None, fill_producer: None })
                &&& *final(self) == *old(self)
                &&& final(fill)@ == old(fill)@
                &&& final(buf)@ == old(buf)@
            },
            old(self).connected && old(buf)@.len() > 0 ==> match (
                old(self).plane,
                final(self).plane,
            ) {
                (Plane::Tcp(before), Plane::Tcp(after)) => {
                    let t = before.stream.tcp();
                    &&& r == (Receipt { received: t.reads(old(buf)@.len()), fill_producer: None })
                    &&& after.stream.tcp() == t.after_read(old(buf)@.len())
                    &&& after.xsk == before.xsk
                    &&& after.clock == before.clock
                    &&& before.stream.keeps(after.stream)
                    &&& final(buf)@ == t.read(old(buf)@)
                    &&& final(fill)@ == old(fill)@
                },
                (Plane::Udp(before), Plane::Udp(after)) => before.received(
                    after,
                    umem@,
                    got,
                    old(fill)@,
                    final(fill)@,
                    old(buf)@,
                    final(buf)@,
                    r,
                ),
                _ => false,
            },
    {
        if buf.len() == 0 || !self.connected {
            return Receipt { received: None, fill_producer: None };
        }
        match &mut self.plane {
            Plane::Tcp(t) => Receipt { received: t.stream.recv(buf), fill_producer: None },
            Plane::Udp(u) => u.recv_into(umem, got, fill, buf),
        }
    }

    /// Closes our half of a TCP connection; nothing for UDP. The caller polls
    /// the interface afterwards.
    pub fn close(&mut self)
        requires
            old(self).wf(),
        ensures
            final(self).wf(),
            old(self).same_but_plane(*final(self)),
            match (old(self).plane, final(self).plane) {
                (Plane::Udp(before), Plane::Udp(after)) => before == after,
                (Plane::Tcp(before), Plane::Tcp(after)) => {
                    &&& after.stream.tcp() == before.stream.tcp().closed()
                    &&& after.xsk == before.xsk
                    &&& after.clock == before.clock
                    &&& before.stream.keeps(after.stream)
                },
                _ => false,
            },
    {
        if let Plane::Tcp(t) = &mut self.plane {
            t.stream.close();
        }
    }
}

impl Config {
    /// Refuses an MTU without room for an IPv4 and a UDP header.
    pub fn check(&self) -> (r: Result<(), SocketError>)
        ensures
            r == if self.mtu <= UDP_OVERHEAD {
                Err(SocketError::MtuTooSmall { mtu: self.mtu })
            } else {
                Ok(())
            },
    {
        if self.mtu <= UDP_OVERHEAD {
            Err(SocketError::MtuTooSmall { mtu: self.mtu })
        } else {
            Ok(())
        }
    }
}

// ---------------------------------------------------------------------------
// Laws
// ---------------------------------------------------------------------------

/// The datagrams that a buffer becomes, step by step from `from` on.
pub open spec fn datagrams(buf: Seq<u8>, from: nat, max: nat) -> Seq<Seq<u8>>
    decreases buf.len() - from,
{
    if max == 0 || from >= buf.len() {
        Seq::empty()
    } else {
        let end = chunk_end(from, max, buf.len());
        seq![buf.subrange(from as int, end as int)] + datagrams(buf, end, max)
    }
}

/// The datagrams of a buffer hold all of it, in order and nothing else. None
/// is empty, each is at most one payload, and only the last may be less.
pub proof fn datagrams_hold_the_buffer(buf: Seq<u8>, from: nat, max: nat)
    requires
        0 < max,
        from <= buf.len(),
    ensures
        datagrams(buf, from, max).flatten() == buf.skip(from as int),
        forall|i: int|
            0 <= i < datagrams(buf, from, max).len() ==> 0 < (#[trigger] datagrams(
                buf,
                from,
                max,
            )[i]).len() <= max,
        forall|i: int|
            0 <= i < datagrams(buf, from, max).len() - 1 ==> (#[trigger] datagrams(
                buf,
                from,
                max,
            )[i]).len() == max,
    decreases buf.len() - from,
{
    let all = datagrams(buf, from, max);
    if from == buf.len() {
        assert(all.flatten() =~= Seq::<u8>::empty());
        assert(buf.skip(from as int) =~= Seq::<u8>::empty());
    } else {
        let end = chunk_end(from, max, buf.len());
        let rest = datagrams(buf, end, max);
        datagrams_hold_the_buffer(buf, end, max);
        assert(all.first() == buf.subrange(from as int, end as int));
        assert(all.drop_first() =~= rest);
        assert(buf.skip(from as int) =~= buf.subrange(from as int, end as int) + buf.skip(
            end as int,
        ));
        assert forall|i: int| 0 < i < all.len() implies all[i] == rest[i - 1] by {}
        if end == buf.len() {
            assert(rest.len() == 0);
        }
    }
}

/// A socket is bound by the first attempt that works, and its label is that
/// attempt's; binding fails exactly if none works.
pub proof fn first_working_attempt_binds(
    attempts: Seq<BindAttempt>,
    works: Seq<bool>,
    i: int,
    before: Seq<char>,
)
    requires
        works.len() == attempts.len(),
        0 <= i < attempts.len(),
    ensures
        match bound_by(attempts, works, i) {
            Some(k) => {
                &&& i <= k < attempts.len()
                &&& works[k]
                &&& forall|j: int| i <= j < k ==> !works[j]
                &&& label_after(attempts, works, i, before) == attempts[k].label@
            },
            None => {
                &&& forall|j: int| i <= j < attempts.len() ==> !works[j]
                &&& label_after(attempts, works, i, before) == before
            },
        },
    decreases attempts.len() - i,
{
    if !works[i] && i + 1 < attempts.len() {
        first_working_attempt_binds(attempts, works, i + 1, before);
    }
}

/// A connect registers one key more, that of its flow, and keeps all that were
/// registered before.
pub proof fn connecting_registers_one_key(before: Socket, after: Socket, remote: SocketAddrV4)
    requires
        before.same_setup(after),
        after.remotes@ == before.remotes@.push(remote),
    ensures
        after.keys() == before.keys().push(flow_bytes(before.endpoint(), remote)),
        after.queue_id == before.queue_id,
{
    assert(after.keys() =~= before.keys().push(flow_bytes(before.endpoint(), remote)));
}

/// A socket that was connected to these peers, one after another, takes exactly
/// what it registered out of the XDP program's map when it goes: the key of
/// each of these flows, and no key of any other flow.
pub proof fn removed_keys_are_the_inserted_ones(
    s: Socket,
    local: SocketAddrV4,
    remote: SocketAddrV4,
)
    ensures
        s.keys().len() == s.remotes@.len(),
        forall|i: int|
            0 <= i < s.remotes@.len() ==> #[trigger] s.keys()[i] == flow_bytes(
                s.endpoint(),
                s.remotes@[i],
            ),
        s.keys().contains(flow_bytes(local, remote)) <==> local == s.endpoint()
            && s.remotes@.contains(remote),
{
    let key = flow_bytes(local, remote);
    if s.keys().contains(key) {
        let i = choose|i: int| 0 <= i < s.keys().len() && s.keys()[i] == key;
        flow_keys_differ(s.endpoint(), s.remotes@[i], local, remote);
    }
    if local == s.endpoint() && s.remotes@.contains(remote) {
        let i = choose|i: int| 0 <= i < s.remotes@.len() && s.remotes@[i] == remote;
        assert(s.keys()[i] == key);
    }
}

/// The keys in the XDP program's map after more were put into it.
pub open spec fn with_keys(map: Set<Seq<u8>>, keys: Seq<Seq<u8>>) -> Set<Seq<u8>>
    decreases keys.len(),
{
    if keys.len() == 0 {
        map
    } else {
        with_keys(map, keys.drop_last()).insert(keys.last())
    }
}

/// The keys in the XDP program's map after some were taken out of it.
pub open spec fn without_keys(map: Set<Seq<u8>>, keys: Seq<Seq<u8>>) -> Set<Seq<u8>>
    decreases keys.len(),
{
    if keys.len() == 0 {
        map
    } else {
        without_keys(map, keys.drop_last()).remove(keys.last())
    }
}

/// Once a socket is gone, the XDP program's map is as it was without the
/// socket: no key of its flows is left, and every other key is as before.
pub proof fn a_dropped_socket_leaves_no_key(map: Set<Seq<u8>>, s: Socket, key: Seq<u8>)
    ensures
        without_keys(with_keys(map, s.keys()), s.keys()).contains(key) <==> map.contains(key)
            && !s.keys().contains(key),
{
    lemma_with_keys(map, s.keys(), key);
    lemma_without_keys(with_keys(map, s.keys()), s.keys(), key);
}

proof fn lemma_with_keys(map: Set<Seq<u8>>, keys: Seq<Seq<u8>>, key: Seq<u8>)
    ensures
        with_keys(map, keys).contains(key) <==> map.contains(key) || keys.contains(key),
    decreases keys.len(),
{
    if keys.len() > 0 {
        lemma_with_keys(map, keys.drop_last(), key);
        lemma_contains_split(keys, key);
    }
}

proof fn lemma_without_keys(map: Set<Seq<u8>>, keys: Seq<Seq<u8>>, key: Seq<u8>)
    ensures
        without_keys(map, keys).contains(key) <==> map.contains(key) && !keys.contains(key),
    decreases keys.len(),
{
    if keys.len() > 0 {
        lemma_without_keys(map, keys.drop_last(), key);
        lemma_contains_split(keys, key);
    }
}

proof fn lemma_contains_split(keys: Seq<Seq<u8>>, key: Seq<u8>)
    requires
        keys.len() > 0,
    ensures
        keys.contains(key) <==> keys.drop_last().contains(key) || keys.last() == key,
{
    if keys.contains(key) {
        let i = choose|i: int| 0 <= i < keys.len() && keys[i] == key;
        if i < keys.len() - 1 {
            assert(keys.drop_last()[i] == key);
        }
    }
    if keys.drop_last().contains(key) {
        let i = choose|i: int| 0 <= i < keys.drop_last().len() && keys.drop_last()[i] == key;
        assert(keys[i] == key);
    }
    assert(keys[keys.len() - 1] == keys.last());
}

/// Two UDP sockets that are connected to each other: what one sends is what
/// the other receives, cut to its buffer, and a third socket receives nothing
/// of it.
pub proof fn datagram_reaches_the_peer_only(
    sender: Framing,
    at: UdpPlane,
    after: UdpPlane,
    payload: Seq<u8>,
    umem: Seq<u8>,
    d: Desc,
    fill: Seq<u64>,
    fill_after: Seq<u64>,
    buf: Seq<u8>,
    buf_after: Seq<u8>,
    r: Receipt,
)
    requires
        sender.remote is Some,
        at.framing.remote is Some,
        UDP_OVERHEAD + payload.len() <= 0xffff,
        buf.len() <= usize::MAX,
        d.addr + d.len <= umem.len(),
        umem.subrange(d.addr as int, d.addr + d.len) == crate::udp::frame_bytes(
            sender.dst_mac@,
            sender.src_mac@,
            sender.local,
            sender.remote->Some_0,
            payload,
        ),
        at.received(after, umem, Some(d), fill, fill_after, buf, buf_after, r),
    ensures
        ({
            let ours = at.framing.local == sender.remote->Some_0 && at.framing.remote
                == Some(sender.local) && sender.remote->Some_0.port != 0;
            let n = crate::udp::truncated(payload, buf.len());
            &&& ours && n > 0 ==> r.received == Some(n as usize) && buf_after == payload.take(
                n as int,
            ) + buf.skip(n as int)
            &&& !ours || n == 0 ==> r.received is None && buf_after == buf
        }),
{
    let frame = umem.subrange(d.addr as int, d.addr + d.len);
    crate::udp::built_frame_is_parsed_by_its_peer_only(
        sender.dst_mac@,
        sender.src_mac@,
        sender.local,
        sender.remote->Some_0,
        payload,
        Seq::empty(),
        at.framing.local,
        at.framing.remote->Some_0,
    );
    assert(frame + Seq::<u8>::empty() =~= frame);
    assert(payload.take(0) + buf.skip(0) =~= buf);
    assert(Seq::<u8>::empty().take(0) + buf.skip(0) =~= buf);
}

} // verus!
