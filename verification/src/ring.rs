//! The bookkeeping of an AF_XDP socket: who owns which UMEM frame, and what
//! goes into which slot of the four rings.
//!
//! UMEM frame partition: the first `fill_size` frames back the receive path,
//! the rest are the transmit pool. They are disjoint, so that receiving and
//! sending never contend for a frame.
//!
//! The rings themselves lie in memory shared with the kernel. Their producer
//! and consumer indices are free-running 32-bit counters: the caller loads the
//! kernel's side and stores what comes back from here.

use vstd::arithmetic::div_mod::{lemma_fundamental_div_mod, lemma_mod_mod, lemma_small_mod};
use vstd::arithmetic::power2::{is_pow2, is_pow2_equiv, lemma_pow2, pow2};
use vstd::prelude::*;

verus! {

/// The flag by which a ring asks for a system call before it goes on.
pub const XDP_RING_NEED_WAKEUP: u32 = 1;

/// An entry of the RX or TX ring: `len` bytes at `addr` in the UMEM.
#[derive(Debug, Clone, Copy, PartialEq, Eq, Structural)]
pub struct Desc {
    pub addr: u64,
    pub len: u32,
    pub options: u32,
}

/// A counter `n` steps ahead of `index`.
pub open spec fn ahead(index: u32, n: nat) -> u32 {
    ((index + n) % 0x1_0000_0000) as u32
}

/// How many steps the counter `to` is ahead of the counter `from`.
pub open spec fn distance(from: u32, to: u32) -> nat {
    ((to - from) % 0x1_0000_0000) as nat
}

/// The start of the frame that the address `addr` lies in.
pub open spec fn base_of(addr: nat, frame_size: nat) -> nat {
    (addr - addr % frame_size) as nat
}

/// A power of two is some `pow2(e)`, and divides the range of the counters.
proof fn lemma_pow2_exponent(size: u32) -> (e: nat)
    requires
        is_pow2(size as int),
    ensures
        size == pow2(e),
        size > 0,
        e < 32,
        0x1_0000_0000 == size * pow2((32 - e) as nat),
{
    is_pow2_equiv(size as int);
    let e = choose|i: nat| vstd::arithmetic::power::pow(2, i) == size as int;
    lemma_pow2(e);
    vstd::arithmetic::power2::lemma_pow2_pos(e);
    vstd::arithmetic::power2::lemma2_to64();
    if e >= 32 {
        if e > 32 {
            vstd::arithmetic::power2::lemma_pow2_strictly_increases(32, e);
        }
    }
    vstd::arithmetic::power2::lemma_pow2_adds(e, (32 - e) as nat);
    e
}

/// Masking with a power of two less one is the remainder.
proof fn lemma_mask(x: u32, size: u32)
    requires
        is_pow2(size as int),
    ensures
        size > 0,
        x & ((size - 1) as u32) == x % size,
{
    let e = lemma_pow2_exponent(size);
    vstd::bits::lemma_u32_low_bits_mask_is_mod(x, e);
}

/// Masking out a power of two less one goes back to its last multiple.
proof fn lemma_base(addr: u64, size: u32)
    requires
        is_pow2(size as int),
    ensures
        addr & !((size as u64 - 1) as u64) == base_of(addr as nat, size as nat),
{
    let e = lemma_pow2_exponent(size);
    vstd::bits::lemma_u64_low_bits_mask_is_mod(addr, e);
    let m = (size as u64 - 1) as u64;
    assert(addr & m == addr % (size as u64));
    assert(addr & !m == (addr - (addr & m)) as u64) by (bit_vector);
    assert(addr & m <= addr) by (bit_vector);
}

/// Slots follow a counter also where it wraps around.
pub(crate) proof fn lemma_slot_ahead(index: u32, n: nat, size: u32)
    requires
        is_pow2(size as int),
    ensures
        ahead(index, n) % size == (index + n) % (size as int),
{
    let e = lemma_pow2_exponent(size);
    vstd::arithmetic::power2::lemma_pow2_pos((32 - e) as nat);
    lemma_mod_mod((index + n) as int, size as int, pow2((32 - e) as nat) as int);
}

/// Our side of one ring.
#[derive(Debug, Clone, Copy)]
struct Ring {
    size: u32,
    /// Where we produce next, on the rings that we produce into.
    cached: u32,
}

impl Ring {
    spec fn wf(self) -> bool {
        is_pow2(self.size as int)
    }

    /// The slot that the counter `index` stands for.
    fn slot(&self, index: u32) -> (r: usize)
        requires
            self.wf(),
        ensures
            r == index % self.size,
            r < self.size,
    {
        proof {
            lemma_mask(index, self.size);
        }
        (index & (self.size - 1)) as usize
    }
}

/// What a socket's bookkeeping says.
pub struct RingsView {
    pub frame_size: nat,
    pub frame_count: nat,
    pub fill_size: nat,
    pub rx_size: nat,
    pub tx_size: nat,
    /// Where the FILL ring is produced into next.
    pub filled: u32,
    /// Where the TX ring is produced into next.
    pub sent: u32,
    /// The frames that may be sent from, the next one last.
    pub pool: Seq<u64>,
}

impl RingsView {
    /// The size of the UMEM in bytes.
    pub open spec fn umem_len(self) -> nat {
        self.frame_size * self.frame_count
    }

    /// The frames of the receive path.
    pub open spec fn rx_frames(self) -> Seq<u64> {
        Seq::new(self.fill_size, |i: int| (i * self.frame_size) as u64)
    }

    /// The frames of the transmit path.
    pub open spec fn tx_frames(self) -> Seq<u64> {
        Seq::new(
            (self.frame_count - self.fill_size) as nat,
            |i: int| ((self.fill_size + i) * self.frame_size) as u64,
        )
    }

    /// Whether `addr` is the start of a frame.
    pub open spec fn is_frame(self, addr: u64) -> bool {
        addr as nat % self.frame_size == 0 && addr + self.frame_size <= self.umem_len()
    }

    /// With the frames of the completed addresses back in the pool.
    pub open spec fn reclaimed(self, completed: Seq<u64>) -> RingsView {
        RingsView {
            pool: self.pool + completed.map_values(
                |a: u64| base_of(a as nat, self.frame_size) as u64,
            ),
            ..self
        }
    }

    /// The pool that the next frame is taken from: completions are looked at
    /// only where it is empty.
    pub open spec fn refilled(self, completed: Seq<u64>) -> RingsView {
        if self.pool.len() == 0 {
            self.reclaimed(completed)
        } else {
            self
        }
    }

    /// The frame that is sent from next, if there is one.
    pub open spec fn next_frame(self, completed: Seq<u64>) -> Option<u64> {
        let pool = self.refilled(completed).pool;
        if pool.len() == 0 {
            None
        } else {
            Some(pool.last())
        }
    }

    /// With the next frame taken out of the pool.
    pub open spec fn allocated(self, completed: Seq<u64>) -> RingsView {
        let pool = self.refilled(completed).pool;
        RingsView {
            pool: if pool.len() == 0 {
                pool
            } else {
                pool.drop_last()
            },
            ..self
        }
    }

    /// Every transmit frame is either in the pool or in flight, and none is
    /// there twice: `in_flight` are the frames that were taken and have not
    /// come back.
    pub open spec fn accounts_for(self, in_flight: Seq<u64>) -> bool {
        (self.pool + in_flight).to_multiset() == self.tx_frames().to_multiset()
    }

    /// Frame and ring sizes are powers of two, the receive path's frames are
    /// among all frames, and only frames are sent from.
    pub open spec fn wf(self) -> bool {
        &&& is_pow2(self.frame_size as int)
        &&& is_pow2(self.fill_size as int)
        &&& is_pow2(self.rx_size as int)
        &&& is_pow2(self.tx_size as int)
        &&& self.frame_size <= u32::MAX
        &&& self.fill_size <= self.frame_count <= u32::MAX
        &&& self.umem_len() <= usize::MAX
        &&& forall|i: int| 0 <= i < self.pool.len() ==> self.is_frame(#[trigger] self.pool[i])
    }
}

/// The bookkeeping at the start: nothing produced, every transmit frame free.
pub open spec fn new_rings(
    frame_size: nat,
    frame_count: nat,
    fill_size: nat,
    rx_size: nat,
    tx_size: nat,
) -> RingsView {
    let v = RingsView {
        frame_size,
        frame_count,
        fill_size,
        rx_size,
        tx_size,
        filled: 0,
        sent: 0,
        pool: Seq::empty(),
    };
    RingsView { pool: v.tx_frames(), ..v }
}

/// Four rings over a UMEM and the pool of frames that are free to send from.
#[derive(Debug)]
pub struct Rings {
    umem_len: usize,
    frame_size: u32,
    frame_count: u32,
    fill: Ring,
    comp: Ring,
    rx: Ring,
    tx: Ring,
    tx_free: Vec<u64>,
}

impl View for Rings {
    type V = RingsView;

    closed spec fn view(&self) -> RingsView {
        RingsView {
            frame_size: self.frame_size as nat,
            frame_count: self.frame_count as nat,
            fill_size: self.fill.size as nat,
            rx_size: self.rx.size as nat,
            tx_size: self.tx.size as nat,
            filled: self.fill.cached,
            sent: self.tx.cached,
            pool: self.tx_free@,
        }
    }
}

impl Rings {
    /// Every operation keeps this.
    pub open spec fn wf(self) -> bool {
        self@.wf() && self.consistent()
    }

    pub closed spec fn consistent(self) -> bool {
        self.umem_len == self@.umem_len() && self.comp.size == self.tx.size
    }

    /// Rings of the given sizes over `frame_count` frames, with every frame
    /// behind the first `fill_size` ones free to send from.
    pub fn new(
        frame_size: u32,
        frame_count: u32,
        fill_size: u32,
        rx_size: u32,
        tx_size: u32,
    ) -> (r: Rings)
        requires
            is_pow2(frame_size as int),
            is_pow2(fill_size as int),
            is_pow2(rx_size as int),
            is_pow2(tx_size as int),
            fill_size <= frame_count,
            frame_size * frame_count <= usize::MAX,
        ensures
            r.wf(),
            r@ == new_rings(
                frame_size as nat,
                frame_count as nat,
                fill_size as nat,
                rx_size as nat,
                tx_size as nat,
            ),
    {
        let umem_len: usize = frame_size as usize * frame_count as usize;
        let mut tx_free: Vec<u64> = Vec::with_capacity((frame_count - fill_size) as usize);
        let mut i: u32 = fill_size;
        while i < frame_count
            invariant
                fill_size <= i <= frame_count,
                frame_size * frame_count <= usize::MAX,
                tx_free@.len() == i - fill_size,
                forall|k: int|
                    0 <= k < tx_free@.len() ==> tx_free@[k] == (fill_size + k) * frame_size,
            decreases frame_count - i,
        {
            assert(i * frame_size <= frame_count * frame_size) by (nonlinear_arith)
                requires
                    i <= frame_count,
            ;
            tx_free.push(i as u64 * frame_size as u64);
            i = i + 1;
        }
        let fill = Ring { size: fill_size, cached: 0 };
        let comp = Ring { size: tx_size, cached: 0 };
        let rx = Ring { size: rx_size, cached: 0 };
        let tx = Ring { size: tx_size, cached: 0 };
        proof {
            reveal(is_pow2);
            assert forall|k: int| 0 <= k < tx_free@.len() implies {
                &&& #[trigger] tx_free@[k] as nat % frame_size as nat == 0
                &&& tx_free@[k] + frame_size <= frame_size * frame_count
            } by {
                lemma_frame(frame_size as nat, frame_count as nat, (fill_size + k) as nat);
            }
        }
        let r = Rings { umem_len, frame_size, frame_count, fill, comp, rx, tx, tx_free };
        assert(r@.pool =~= r@.tx_frames());
        r
    }

    /// The size of the UMEM in bytes.
    pub fn umem_len(&self) -> (r: usize)
        requires
            self.wf(),
        ensures
            r == self@.umem_len(),
    {
        self.umem_len
    }

    pub fn frame_size(&self) -> (r: u32)
        ensures
            r == self@.frame_size,
    {
        self.frame_size
    }

    /// Puts up to `n` frames into the FILL ring, as many as have room with the
    /// kernel's consumer at `cons`, and returns the producer to publish where
    /// there were any. Only for the start: the frames are taken in turn, by
    /// their number.
    pub fn fill_frames(&mut self, desc: &mut [u64], cons: u32, n: u32) -> (r: Option<u32>)
        requires
            old(self).wf(),
            old(desc)@.len() == old(self)@.fill_size,
            distance(cons, old(self)@.filled) <= old(self)@.fill_size,
            old(self)@.frame_count > 0,
        ensures
            final(self).wf(),
            ({
                let before = old(self)@;
                let free = before.fill_size - distance(cons, before.filled);
                let k = if n <= free {
                    n as int
                } else {
                    free
                };
                let after = ahead(before.filled, k as nat);
                &&& final(self)@ == RingsView { filled: after, ..before }
                &&& r == if k > 0 {
                    Some(after)
                } else {
                    None
                }
                &&& final(desc)@ == filled_slots(before, old(desc)@, k as nat)
            }),
    {
        proof {
            reveal(is_pow2);
        }
        let ghost before = self@;
        let free: u32 = self.fill.size - self.fill.cached.wrapping_sub(cons);
        let n: u32 = if n <= free {
            n
        } else {
            free
        };
        let mut i: u32 = 0;
        while i < n
            invariant
                i <= n <= before.fill_size,
                before.wf(),
                before.frame_count > 0,
                self@ == (RingsView { filled: ahead(before.filled, i as nat), ..before }),
                self.wf(),
                desc@ == filled_slots(before, old(desc)@, i as nat),
                desc@.len() == before.fill_size,
            decreases n - i,
        {
            proof {
                reveal(is_pow2);
                lemma_slot_ahead(before.filled, i as nat, self.fill.size);
                lemma_mul_range(self.fill.cached as nat, self.frame_size as nat);
                assert(before.umem_len() > 0) by (nonlinear_arith)
                    requires
                        before.frame_size > 0,
                        before.frame_count > 0,
                        before.umem_len() == before.frame_size * before.frame_count,
                ;
            }
            let idx: usize = self.fill.slot(self.fill.cached);
            let addr: u64 = (self.fill.cached as u64 * self.frame_size as u64)
                % self.umem_len as u64;
            desc[idx] = addr;
            self.fill.cached = self.fill.cached.wrapping_add(1);
            i = i + 1;
        }
        if n > 0 {
            Some(self.fill.cached)
        } else {
            None
        }
    }

    /// Frame-aligned base of a UMEM address.
    pub fn frame_base(&self, addr: u64) -> (r: u64)
        requires
            self.wf(),
        ensures
            r == base_of(addr as nat, self@.frame_size),
    {
        proof {
            reveal(is_pow2);
            lemma_base(addr, self.frame_size);
        }
        addr & !(self.frame_size as u64 - 1)
    }

    /// Puts the frame of a received packet back into the FILL ring, and
    /// returns the producer to publish.
    pub fn recycle(&mut self, desc: &mut [u64], addr: u64) -> (r: u32)
        requires
            old(self).wf(),
            old(desc)@.len() == old(self)@.fill_size,
        ensures
            final(self).wf(),
            r == ahead(old(self)@.filled, 1),
            final(self)@ == (RingsView { filled: r, ..old(self)@ }),
            final(desc)@ == old(desc)@.update(
                old(self)@.filled as int % old(self)@.fill_size as int,
                base_of(addr as nat, old(self)@.frame_size) as u64,
            ),
    {
        proof {
            reveal(is_pow2);
        }
        let base: u64 = self.frame_base(addr);
        let idx: usize = self.fill.slot(self.fill.cached);
        desc[idx] = base;
        self.fill.cached = self.fill.cached.wrapping_add(1);
        self.fill.cached
    }

    /// With the RX ring's counters at `prod` and `cons`: the slot that holds
    /// the next received frame, and the consumer to publish once it is read;
    /// `None` where nothing was received.
    pub fn rx_peek(&self, prod: u32, cons: u32) -> (r: Option<(usize, u32)>)
        requires
            self.wf(),
        ensures
            r is None <==> prod == cons,
            r matches Some((slot, next)) ==> slot == cons as int % self@.rx_size as int && next
                == ahead(cons, 1),
    {
        if cons == prod {
            return None;
        }
        Some((self.rx.slot(cons), cons.wrapping_add(1)))
    }

    /// Takes the transmitted frames out of the COMPLETION ring into the pool,
    /// and returns the consumer to publish.
    pub fn reclaim_comp(&mut self, comp: &Completions<'_>) -> (r: u32)
        requires
            old(self).wf(),
            comp.fits(old(self)@),
        ensures
            final(self).wf(),
            r == comp.producer,
            final(self)@ == old(self)@.reclaimed(comp@),
    {
        proof {
            reveal(is_pow2);
        }
        let ghost before = self@;
        let ghost total = distance(comp.consumer, comp.producer);
        let ghost mut done: nat = 0;
        let mut cons: u32 = comp.consumer;
        assert(before.reclaimed(comp@.take(0)).pool =~= before.pool);
        while cons != comp.producer
            invariant
                before.wf(),
                comp.fits(before),
                done <= total,
                total == distance(comp.consumer, comp.producer),
                cons == ahead(comp.consumer, done),
                self@ == before.reclaimed(comp@.take(done as int)),
                self.wf(),
                self.comp.size == before.tx_size,
            decreases total - done,
        {
            proof {
                lemma_slot_ahead(comp.consumer, done, self.comp.size);
                assert(done < total);
                assert(comp@[done as int] < before.umem_len());
                lemma_base_is_frame(before, comp@[done as int]);
            }
            let idx: usize = self.comp.slot(cons);
            let addr: u64 = comp.desc[idx];
            let base: u64 = self.frame_base(addr);
            self.tx_free.push(base);
            cons = cons.wrapping_add(1);
            proof {
                done = done + 1;
                assert(before.reclaimed(comp@.take(done as int)).pool =~= before.reclaimed(
                    comp@.take(done - 1),
                ).pool.push(base));
            }
        }
        proof {
            assert(done == total);
            assert(comp@.take(total as int) == comp@);
        }
        cons
    }

    /// Grab a free frame to send from, reclaiming completions if the pool is
    /// empty. Returns the frame too, and the COMPLETION ring's consumer to
    /// publish where that ring was read.
    pub fn tx_alloc(&mut self, comp: &Completions<'_>) -> (r: (Option<u64>, Option<u32>))
        requires
            old(self).wf(),
            comp.fits(old(self)@),
        ensures
            final(self).wf(),
            final(self)@ == old(self)@.allocated(comp@),
            r.0 == old(self)@.next_frame(comp@),
            r.1 == if old(self)@.pool.len() == 0 {
                Some(comp.producer)
            } else {
                None
            },
    {
        let mut consumer: Option<u32> = None;
        if self.tx_free.is_empty() {
            consumer = Some(self.reclaim_comp(comp));
        }
        let addr: Option<u64> = self.tx_free.pop();
        proof {
            assert(self@.pool =~= old(self)@.allocated(comp@).pool);
        }
        (addr, consumer)
    }

    /// Queues the `len` bytes at `addr` on the TX ring: what to write into
    /// which slot, and the producer to publish after it. Nothing is sent until
    /// the driver is told; one system call covers every entry so far.
    pub fn tx_submit(&mut self, addr: u64, len: u32) -> (r: Submit)
        requires
            old(self).wf(),
        ensures
            final(self).wf(),
            r.slot == old(self)@.sent as int % old(self)@.tx_size as int,
            r.desc == (Desc { addr, len, options: 0 }),
            r.producer == ahead(old(self)@.sent, 1),
            final(self)@ == (RingsView { sent: r.producer, ..old(self)@ }),
    {
        let slot: usize = self.tx.slot(self.tx.cached);
        self.tx.cached = self.tx.cached.wrapping_add(1);
        Submit { slot, desc: Desc { addr, len, options: 0 }, producer: self.tx.cached }
    }
}

/// An entry for the TX ring: `desc` goes into `slot`, and `producer` is
/// published after it.
#[derive(Debug, Clone, Copy, PartialEq, Eq, Structural)]
pub struct Submit {
    pub slot: usize,
    pub desc: Desc,
    pub producer: u32,
}

/// The COMPLETION ring as it was found: its slots, and both of its counters.
pub struct Completions<'a> {
    pub desc: &'a [u64],
    pub producer: u32,
    pub consumer: u32,
}

impl<'a> View for Completions<'a> {
    type V = Seq<u64>;

    /// The addresses that were transmitted from and not taken yet, oldest
    /// first.
    open spec fn view(&self) -> Seq<u64> {
        Seq::new(
            distance(self.consumer, self.producer),
            |i: int| self.desc@[(self.consumer + i) % self.desc@.len() as int],
        )
    }
}

impl<'a> Completions<'a> {
    /// The ring has the size that we asked for, and the kernel completes only
    /// addresses of our UMEM.
    pub open spec fn fits(&self, v: RingsView) -> bool {
        &&& self.desc@.len() == v.tx_size
        &&& forall|i: int| 0 <= i < self@.len() ==> #[trigger] self@[i] < v.umem_len()
    }

    /// Whether the ring is as it should be.
    pub fn fit(&self, rings: &Rings) -> (r: bool)
        requires
            rings.wf(),
        ensures
            r == self.fits(rings@),
    {
        proof {
            reveal(is_pow2);
        }
        if self.desc.len() != rings.comp.size as usize {
            return false;
        }
        let total: u32 = self.producer.wrapping_sub(self.consumer);
        let mut i: u32 = 0;
        while i < total
            invariant
                i <= total,
                total == self@.len(),
                rings.wf(),
                rings.comp.size > 0,
                self.desc@.len() == rings@.tx_size,
                self.desc@.len() == rings.comp.size,
                forall|k: int| 0 <= k < i ==> #[trigger] self@[k] < rings@.umem_len(),
            decreases total - i,
        {
            let at: u64 = (self.consumer as u64 + i as u64) % rings.comp.size as u64;
            assert(self@[i as int] == self.desc@[at as int]);
            if self.desc[at as usize] >= rings.umem_len as u64 {
                return false;
            }
            i = i + 1;
        }
        true
    }
}

impl Desc {
    /// Whether the bytes lie in a memory of `len` bytes.
    pub fn inside(&self, len: usize) -> (r: bool)
        ensures
            r == (self.addr + self.len <= len),
    {
        self.addr <= len as u64 && self.len as u64 <= len as u64 - self.addr
    }
}

/// The next frame to send from is one.
pub(crate) proof fn lemma_next_is_frame(v: RingsView, completed: Seq<u64>)
    requires
        v.wf(),
        v.next_frame(completed) is Some,
        forall|i: int| 0 <= i < completed.len() ==> #[trigger] completed[i] < v.umem_len(),
    ensures
        v.is_frame(v.next_frame(completed)->Some_0),
{
    let pool = v.refilled(completed).pool;
    if v.pool.len() == 0 {
        lemma_base_is_frame(v, completed[pool.len() - 1]);
    }
}

/// An address inside the UMEM has its base there too.
proof fn lemma_base_is_frame(v: RingsView, addr: u64)
    requires
        v.wf(),
        addr < v.umem_len(),
    ensures
        v.is_frame(base_of(addr as nat, v.frame_size) as u64),
        base_of(addr as nat, v.frame_size) <= addr,
{
    reveal(is_pow2);
    let fs = v.frame_size as int;
    let q = addr as int / fs;
    lemma_fundamental_div_mod(addr as int, fs);
    let base = base_of(addr as nat, v.frame_size);
    assert(base == fs * q);
    vstd::arithmetic::div_mod::lemma_mod_multiples_basic(q, fs);
    assert(q * fs == fs * q) by (nonlinear_arith);
    assert(fs * q + fs <= fs * v.frame_count) by (nonlinear_arith)
        requires
            fs * q < fs * v.frame_count,
            fs > 0,
    ;
}

/// The FILL ring's slots after the next `k` frames were put into it: the frame
/// for a counter is that of its number, round the UMEM.
pub open spec fn filled_slots(v: RingsView, slots: Seq<u64>, k: nat) -> Seq<u64>
    decreases k,
{
    if k == 0 {
        slots
    } else {
        let at = ahead(v.filled, (k - 1) as nat);
        filled_slots(v, slots, (k - 1) as nat).update(
            at as int % v.fill_size as int,
            ((at * v.frame_size) % v.umem_len() as int) as u64,
        )
    }
}

proof fn lemma_mul_range(a: nat, b: nat)
    requires
        a <= u32::MAX,
        b <= u32::MAX,
    ensures
        a * b <= u64::MAX,
{
    assert(a * b <= 0xffff_ffff * 0xffff_ffff) by (nonlinear_arith)
        requires
            a <= 0xffff_ffff,
            b <= 0xffff_ffff,
    ;
}

/// The `i`-th frame starts at a multiple of the frame size, inside the UMEM.
proof fn lemma_frame(frame_size: nat, frame_count: nat, i: nat)
    requires
        i < frame_count,
        0 < frame_size,
    ensures
        (i * frame_size) % frame_size == 0,
        i * frame_size + frame_size <= frame_size * frame_count,
{
    vstd::arithmetic::div_mod::lemma_mod_multiples_basic(i as int, frame_size as int);
    assert(i * frame_size + frame_size <= frame_size * frame_count) by (nonlinear_arith)
        requires
            i + 1 <= frame_count,
    ;
}

/// Whether a ring with these flags asks for a system call.
pub fn needs_wakeup(flags: u32) -> (r: bool)
    ensures
        r == (flags % 2 == 1),
{
    assert(flags & 1 == flags % 2) by (bit_vector);
    flags & XDP_RING_NEED_WAKEUP != 0
}

// ---------------------------------------------------------------------------
// Laws
// ---------------------------------------------------------------------------

/// The frame that an address lies in, by its number.
proof fn lemma_base_of_frame(frame_size: nat, i: nat, addr: nat)
    requires
        frame_size > 0,
        i * frame_size <= addr < i * frame_size + frame_size,
    ensures
        base_of(addr, frame_size) == i * frame_size,
{
    vstd::arithmetic::div_mod::lemma_fundamental_div_mod_converse(
        addr as int,
        frame_size as int,
        i as int,
        addr - i * frame_size,
    );
}

/// No byte of the UMEM belongs to both a receive frame and a transmit frame,
/// and different frames of either kind do not overlap.
pub proof fn frames_do_not_overlap(v: RingsView, i: int, j: int)
    requires
        v.wf(),
        0 <= i < j < v.frame_count,
    ensures
        (v.rx_frames() + v.tx_frames()).len() == v.frame_count,
        (v.rx_frames() + v.tx_frames())[i] + v.frame_size <= (v.rx_frames() + v.tx_frames())[j],
        (v.rx_frames() + v.tx_frames())[j] + v.frame_size <= v.umem_len(),
{
    reveal(is_pow2);
    lemma_frame(v.frame_size, v.frame_count, i as nat);
    lemma_frame(v.frame_size, v.frame_count, j as nat);
    assert(i * v.frame_size + v.frame_size <= j * v.frame_size) by (nonlinear_arith)
        requires
            i + 1 <= j,
    ;
    let all = v.rx_frames() + v.tx_frames();
    assert(all[i] == i * v.frame_size);
    assert(all[j] == j * v.frame_size);
}

/// The first fill hands the kernel every receive frame, each in one slot, and
/// nothing else.
pub proof fn first_fill_hands_over_the_receive_frames(v: RingsView, slots: Seq<u64>)
    requires
        v.wf(),
        v.filled == 0,
        slots.len() == v.fill_size,
    ensures
        filled_slots(v, slots, v.fill_size) == v.rx_frames(),
{
    lemma_first_fill(v, slots, v.fill_size);
    assert(filled_slots(v, slots, v.fill_size) =~= v.rx_frames());
}

proof fn lemma_first_fill(v: RingsView, slots: Seq<u64>, k: nat)
    requires
        v.wf(),
        v.filled == 0,
        slots.len() == v.fill_size,
        k <= v.fill_size,
    ensures
        filled_slots(v, slots, k).len() == v.fill_size,
        forall|i: int| 0 <= i < k ==> filled_slots(v, slots, k)[i] == v.rx_frames()[i],
    decreases k,
{
    if k > 0 {
        let i = (k - 1) as nat;
        lemma_first_fill(v, slots, i);
        reveal(is_pow2);
        lemma_small_mod(i, v.fill_size);
        lemma_frame(v.frame_size, v.frame_count, i);
        lemma_small_mod(i * v.frame_size, v.umem_len());
        lemma_small_mod(i, 0x1_0000_0000);
        assert(ahead(v.filled, i) == i);
    }
}

/// A packet received anywhere inside a receive frame puts that very frame back
/// into the FILL ring.
pub proof fn recycling_returns_the_received_frame(v: RingsView, i: int, addr: u64)
    requires
        v.wf(),
        0 <= i < v.fill_size,
        v.rx_frames()[i] <= addr < v.rx_frames()[i] + v.frame_size,
    ensures
        base_of(addr as nat, v.frame_size) == v.rx_frames()[i],
{
    reveal(is_pow2);
    lemma_frame(v.frame_size, v.frame_count, i as nat);
    lemma_base_of_frame(v.frame_size, i as nat, addr as nat);
}

/// At the start every transmit frame is in the pool.
pub proof fn new_rings_account_for_every_frame(
    frame_size: nat,
    frame_count: nat,
    fill_size: nat,
    rx_size: nat,
    tx_size: nat,
)
    ensures
        new_rings(frame_size, frame_count, fill_size, rx_size, tx_size).accounts_for(Seq::empty()),
{
    let v = new_rings(frame_size, frame_count, fill_size, rx_size, tx_size);
    assert(v.tx_frames() =~= v.pool);
    assert(v.pool + Seq::<u64>::empty() == v.pool);
}

/// Taking a frame gives a transmit frame that is not in flight, and puts it in
/// flight: `in_flight` are the frames that are so once completions were looked
/// at, where they were.
pub proof fn allocated_frame_is_not_in_flight(
    v: RingsView,
    completed: Seq<u64>,
    in_flight: Seq<u64>,
)
    requires
        v.wf(),
        v.refilled(completed).accounts_for(in_flight),
        v.next_frame(completed) is Some,
    ensures
        v.tx_frames().contains(v.next_frame(completed)->Some_0),
        !in_flight.contains(v.next_frame(completed)->Some_0),
        v.allocated(completed).accounts_for(in_flight.push(v.next_frame(completed)->Some_0)),
{
    broadcast use vstd::seq_lib::group_to_multiset_ensures;

    let pool = v.refilled(completed).pool;
    let a = pool.last();
    let all = pool + in_flight;
    let rest = all.remove(pool.len() - 1);
    assert(all[pool.len() - 1] == a);
    assert(v.tx_frames().to_multiset().count(a) > 0);
    lemma_tx_frames_distinct(v);
    if in_flight.contains(a) {
        let j = choose|j: int| 0 <= j < in_flight.len() && in_flight[j] == a;
        v.tx_frames().lemma_multiset_has_no_duplicates();
        assert(rest[pool.len() - 1 + j] == a);
        assert(rest.to_multiset().count(a) > 0);
    }
    assert(pool.drop_last() + in_flight.push(a) =~= rest.push(a));
    assert(rest.push(a).to_multiset() =~= all.to_multiset());
}

proof fn lemma_tx_frames_distinct(v: RingsView)
    requires
        v.wf(),
    ensures
        v.tx_frames().no_duplicates(),
{
    assert forall|i: int, j: int|
        0 <= i < j < v.tx_frames().len() implies v.tx_frames()[i] != v.tx_frames()[j] by {
        reveal(is_pow2);
        frames_do_not_overlap(v, v.fill_size + i, v.fill_size + j);
        let all = v.rx_frames() + v.tx_frames();
        assert(all[v.fill_size + i] == v.tx_frames()[i]);
        assert(all[v.fill_size + j] == v.tx_frames()[j]);
    }
}

/// Completions of frames in flight bring them back into the pool: those that
/// were not completed stay in flight.
pub proof fn reclaiming_keeps_the_account(v: RingsView, completed: Seq<u64>, left: Seq<u64>)
    requires
        v.wf(),
        v.accounts_for(
            completed.map_values(|a: u64| base_of(a as nat, v.frame_size) as u64) + left,
        ),
    ensures
        v.reclaimed(completed).accounts_for(left),
{
    let bases = completed.map_values(|a: u64| base_of(a as nat, v.frame_size) as u64);
    assert(v.pool + (bases + left) =~= (v.pool + bases) + left);
}

/// Frames in flight never outnumber the transmit frames, so a TX or COMPLETION
/// ring of that size always has a slot for one more frame that is in the pool.
pub proof fn frames_in_flight_fit_the_ring(v: RingsView, in_flight: Seq<u64>)
    requires
        v.wf(),
        v.accounts_for(in_flight),
        v.frame_count - v.fill_size <= v.tx_size,
    ensures
        in_flight.len() <= v.tx_size,
        v.pool.len() > 0 ==> in_flight.len() < v.tx_size,
{
    broadcast use vstd::seq_lib::group_to_multiset_ensures;

    assert((v.pool + in_flight).to_multiset().len() == v.pool.len() + in_flight.len());
}

/// Every receive frame is either in the FILL ring or held, by the kernel or by
/// us, and none is there twice: putting a held frame back keeps this, and the
/// ring has a slot for it.
pub proof fn recycling_keeps_the_account(
    v: RingsView,
    in_ring: Seq<u64>,
    held: Seq<u64>,
    j: int,
    addr: u64,
)
    requires
        v.wf(),
        (in_ring + held).to_multiset() == v.rx_frames().to_multiset(),
        0 <= j < held.len(),
        held[j] <= addr < held[j] + v.frame_size,
    ensures
        base_of(addr as nat, v.frame_size) == held[j],
        (in_ring.push(base_of(addr as nat, v.frame_size) as u64) + held.remove(j)).to_multiset()
            == v.rx_frames().to_multiset(),
        in_ring.len() < v.fill_size,
{
    broadcast use vstd::seq_lib::group_to_multiset_ensures;

    let all = in_ring + held;
    let base = held[j];
    let at = in_ring.len() + j;
    assert(all[at] == base);
    assert(all.to_multiset().len() == all.len());
    assert(v.rx_frames().to_multiset().count(base) > 0);
    assert(v.rx_frames().contains(base));
    let i = choose|i: int| 0 <= i < v.rx_frames().len() && v.rx_frames()[i] == base;
    recycling_returns_the_received_frame(v, i, addr);
    let moved = in_ring.push(base) + held.remove(j);
    assert(moved.remove(in_ring.len() as int) =~= all.remove(at));
    assert(moved[in_ring.len() as int] == base);
    assert(moved.remove(in_ring.len() as int).to_multiset() =~= moved.to_multiset().remove(base));
    assert(all.remove(at).to_multiset() =~= all.to_multiset().remove(base));
    assert(moved.to_multiset() =~= moved.to_multiset().remove(base).insert(base));
    assert(all.to_multiset() =~= all.to_multiset().remove(base).insert(base));
}

} // verus!