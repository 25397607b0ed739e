//! Network buffers: a fixed pool of equal-size frames with a free list, the
//! buffers handed out from it, and the raw handles that drivers queue.
use vstd::prelude::*;

use crate::error::{DevError, DevResult};

verus! {

/// Smallest buffer length: one Ethernet frame.
pub const MIN_BUFFER_LEN: usize = 1526;
/// Largest buffer length.
pub const MAX_BUFFER_LEN: usize = 65535;

/// The ethernet address of the NIC (MAC address).
pub struct EthernetAddress(pub [u8; 6]);

/// Operations of a network card driver.
pub trait NetDriverOps {
    /// The ethernet address of the NIC.
    fn mac_address(&self) -> EthernetAddress;

    /// Whether can transmit packets.
    fn can_transmit(&self) -> bool;

    /// Whether can receive packets.
    fn can_receive(&self) -> bool;

    /// Size of the receive queue.
    fn rx_queue_size(&self) -> usize;

    /// Size of the transmit queue.
    fn tx_queue_size(&self) -> usize;

    /// Gives back `rx_buf`, which `receive` returned, to the receive queue.
    fn recycle_rx_buffer(&mut self, rx_buf: NetBufPtr) -> DevResult;

    /// Polls the transmit queue and takes back the buffers sent.
    fn recycle_tx_buffers(&mut self) -> DevResult;

    /// Transmits the packet of `tx_buf` without blocking.
    fn transmit(&mut self, tx_buf: NetBufPtr) -> DevResult;

    /// Receives a packet; `Again` when none is waiting.
    fn receive(&mut self) -> DevResult<NetBufPtr>;

    /// Allocates a buffer of `size` bytes for transmission.
    fn alloc_tx_buffer(&mut self, size: usize) -> DevResult<NetBufPtr>;
}

/// A buffer handed to a driver's descriptor ring: the buffer's identity,
/// where its packet starts, and the packet's length.
pub struct NetBufPtr {
    raw_addr: usize,
    buf_ptr: usize,
    len: usize,
}

impl NetBufPtr {
    pub closed spec fn raw_spec(&self) -> usize {
        self.raw_addr
    }

    pub closed spec fn buf_spec(&self) -> usize {
        self.buf_ptr
    }

    pub closed spec fn len_spec(&self) -> usize {
        self.len
    }

    /// Create a new [`NetBufPtr`].
    pub fn new(raw_addr: usize, buf_ptr: usize, len: usize) -> (r: Self)
        ensures
            r.raw_spec() == raw_addr,
            r.buf_spec() == buf_ptr,
            r.len_spec() == len,
    {
        NetBufPtr { raw_addr, buf_ptr, len }
    }

    /// The identity of the buffer that the handle stands for.
    pub fn raw_addr(&self) -> (r: usize)
        ensures
            r == self.raw_spec(),
    {
        self.raw_addr
    }

    /// Where the packet starts in the pool.
    pub fn buf_ptr(&self) -> (r: usize)
        ensures
            r == self.buf_spec(),
    {
        self.buf_ptr
    }

    /// Length of the packet.
    pub fn packet_len(&self) -> (r: usize)
        ensures
            r == self.len_spec(),
    {
        self.len
    }
}

/// A buffer of the pool: a header, then a packet, then unused room, in the
/// slot that starts at `pool_offset`.
#[derive(Debug, PartialEq, Eq, Structural)]
pub struct NetBuf {
    header_len: usize,
    packet_len: usize,
    capacity: usize,
    pool_offset: usize,
}

impl NetBuf {
    pub closed spec fn header_len_spec(&self) -> usize {
        self.header_len
    }

    pub closed spec fn packet_len_spec(&self) -> usize {
        self.packet_len
    }

    pub closed spec fn capacity_spec(&self) -> usize {
        self.capacity
    }

    pub closed spec fn offset_spec(&self) -> usize {
        self.pool_offset
    }

    /// The header and the packet fit in the buffer.
    pub open spec fn wf(&self) -> bool {
        self.header_len_spec() + self.packet_len_spec() <= self.capacity_spec()
    }

    /// Returns the capacity of the buffer.
    pub fn capacity(&self) -> (r: usize)
        ensures
            r == self.capacity_spec(),
    {
        self.capacity
    }

    /// Returns the length of the header part.
    pub fn header_len(&self) -> (r: usize)
        ensures
            r == self.header_len_spec(),
    {
        self.header_len
    }

    /// Returns the length of the packet part.
    pub fn packet_len(&self) -> (r: usize)
        ensures
            r == self.packet_len_spec(),
    {
        self.packet_len
    }

    /// Offset of the buffer's slot in the pool.
    pub fn pool_offset(&self) -> (r: usize)
        ensures
            r == self.offset_spec(),
    {
        self.pool_offset
    }

    /// Set the length of the header part.
    pub fn set_header_len(&mut self, header_len: usize)
        requires
            header_len + old(self).packet_len_spec() <= old(self).capacity_spec(),
        ensures
            final(self).header_len_spec() == header_len,
            final(self).packet_len_spec() == old(self).packet_len_spec(),
            final(self).capacity_spec() == old(self).capacity_spec(),
            final(self).offset_spec() == old(self).offset_spec(),
    {
        self.header_len = header_len;
    }

    /// Set the length of the packet part.
    pub fn set_packet_len(&mut self, packet_len: usize)
        requires
            old(self).header_len_spec() + packet_len <= old(self).capacity_spec(),
        ensures
            final(self).packet_len_spec() == packet_len,
            final(self).header_len_spec() == old(self).header_len_spec(),
            final(self).capacity_spec() == old(self).capacity_spec(),
            final(self).offset_spec() == old(self).offset_spec(),
    {
        self.packet_len = packet_len;
    }

    /// Converts the buffer into a [`NetBufPtr`] for a driver: the slot
    /// offset identifies the buffer, and the handle points at the packet.
    pub fn into_buf_ptr(self) -> (r: NetBufPtr)
        requires
            self.wf(),
            self.offset_spec() + self.capacity_spec() <= usize::MAX,
        ensures
            r.raw_spec() == self.offset_spec(),
            r.buf_spec() == self.offset_spec() + self.header_len_spec(),
            r.len_spec() == self.packet_len_spec(),
    {
        NetBufPtr::new(self.pool_offset, self.pool_offset + self.header_len, self.packet_len)
    }
}

/// A pool of [`NetBuf`]s: one memory area cut into `capacity` slots of
/// `buf_len` bytes, with a free list of slot offsets.
pub struct NetBufPool {
    capacity: usize,
    buf_len: usize,
    pool: Vec<u8>,
    free_list: Vec<usize>,
    in_use: Vec<bool>,
    live: usize,
}

/// `o` is the offset of one of `cap` slots of `b` bytes.
pub open spec fn is_slot_offset(o: int, cap: int, b: int) -> bool {
    0 <= o && o % b == 0 && o < cap * b
}

proof fn lemma_slot(s: int, cap: int, b: int)
    requires
        0 <= s < cap,
        b > 0,
    ensures
        is_slot_offset(s * b, cap, b),
        (s * b) / b == s,
        s * b + b <= cap * b,
{
    vstd::arithmetic::div_mod::lemma_mod_multiples_basic(s, b);
    vstd::arithmetic::div_mod::lemma_div_by_multiple(s, b);
    assert(s * b + b <= cap * b) by (nonlinear_arith)
        requires
            s < cap,
            b > 0,
    {}
    assert(0 <= s * b) by (nonlinear_arith)
        requires
            0 <= s,
            b > 0,
    {}
}

proof fn lemma_offset(o: int, cap: int, b: int)
    requires
        is_slot_offset(o, cap, b),
        b > 0,
    ensures
        0 <= o / b < cap,
        (o / b) * b == o,
{
    vstd::arithmetic::div_mod::lemma_fundamental_div_mod(o, b);
    assert((o / b) * b == b * (o / b)) by (nonlinear_arith);
    assert(0 <= o / b) by (nonlinear_arith)
        requires
            0 <= o,
            b > 0,
    {}
    assert(o / b < cap) by (nonlinear_arith)
        requires
            o == (o / b) * b,
            o < cap * b,
            b > 0,
    {}
}

proof fn lemma_slot_injective(s1: int, s2: int, b: int)
    requires
        b > 0,
        s1 * b == s2 * b,
    ensures
        s1 == s2,
{
    assert(s1 == s2) by (nonlinear_arith)
        requires
            b > 0,
            s1 * b == s2 * b,
    {}
}

impl NetBufPool {
    pub closed spec fn capacity_spec(&self) -> usize {
        self.capacity
    }

    pub closed spec fn buf_len_spec(&self) -> usize {
        self.buf_len
    }

    /// Offsets on the free list, last to be handed out first.
    pub closed spec fn free_spec(&self) -> Seq<usize> {
        self.free_list@
    }

    /// Slot `s` is handed out.
    pub closed spec fn live_spec(&self, s: int) -> bool {
        self.in_use@[s]
    }

    /// Number of slots handed out.
    pub closed spec fn live_count(&self) -> nat {
        self.live as nat
    }

    /// The pool's invariant: the bounds of `new` hold; each free-list entry
    /// is the offset of a slot, a multiple of `buf_len`, listed once; a slot
    /// is free exactly when it is not handed out; and the free and live
    /// slots add up to the capacity.
    pub open spec fn wf(&self) -> bool {
        &&& 0 < self.capacity_spec()
        &&& MIN_BUFFER_LEN <= self.buf_len_spec() <= MAX_BUFFER_LEN
        &&& self.capacity_spec() * self.buf_len_spec() <= usize::MAX
        &&& self.free_spec().no_duplicates()
        &&& forall|k: int|
            0 <= k < self.free_spec().len() ==> is_slot_offset(
                #[trigger] self.free_spec()[k] as int,
                self.capacity_spec() as int,
                self.buf_len_spec() as int,
            )
        &&& forall|s: int| 0 <= s < self.capacity_spec() ==> (#[trigger] self.free_spec().contains(
            (s * self.buf_len_spec()) as usize,
        ) <==> !self.live_spec(s))
        &&& self.free_spec().len() + self.live_count() == self.capacity_spec()
        &&& self.inner_wf()
    }

    pub closed spec fn inner_wf(&self) -> bool {
        &&& self.in_use@.len() == self.capacity
        &&& self.pool@.len() == self.capacity * self.buf_len
    }
}

impl NetBufPool {
    /// Creates a pool of `capacity` buffers of `buf_len` bytes each, all
    /// free. Fails with `InvalidParam` when `capacity` is zero or `buf_len`
    /// is outside `[1526, 65535]`, and with `NoMemory` when the area does not
    /// fit in the address space.
    pub fn new(capacity: usize, buf_len: usize) -> (r: DevResult<NetBufPool>)
        ensures
            capacity == 0 || buf_len < MIN_BUFFER_LEN || buf_len > MAX_BUFFER_LEN ==> r
                == Err::<NetBufPool, DevError>(DevError::InvalidParam),
            capacity > 0 && MIN_BUFFER_LEN <= buf_len <= MAX_BUFFER_LEN && capacity * buf_len
                > usize::MAX ==> r == Err::<NetBufPool, DevError>(DevError::NoMemory),
            capacity > 0 && MIN_BUFFER_LEN <= buf_len <= MAX_BUFFER_LEN && capacity * buf_len
                <= usize::MAX ==> r is Ok,
            r matches Ok(p) ==> {
                &&& p.wf()
                &&& p.capacity_spec() == capacity
                &&& p.buf_len_spec() == buf_len
                &&& p.live_count() == 0
                &&& p.free_spec() == Seq::new(capacity as nat, |k: int| (k * buf_len) as usize)
            },
    {
        if capacity == 0 {
            return Err(DevError::InvalidParam);
        }
        if buf_len < MIN_BUFFER_LEN || buf_len > MAX_BUFFER_LEN {
            return Err(DevError::InvalidParam);
        }
        let size = match capacity.checked_mul(buf_len) {
            Some(n) => n,
            None => return Err(DevError::NoMemory),
        };
        let mut pool: Vec<u8> = Vec::new();
        let mut i: usize = 0;
        while i < size
            invariant
                0 <= i <= size,
                pool@.len() == i,
            decreases size - i,
        {
            pool.push(0);
            i = i + 1;
        }
        let mut free_list: Vec<usize> = Vec::new();
        let mut in_use: Vec<bool> = Vec::new();
        let mut k: usize = 0;
        while k < capacity
            invariant
                0 <= k <= capacity,
                size == capacity * buf_len,
                buf_len > 0,
                free_list@ == Seq::new(k as nat, |j: int| (j * buf_len) as usize),
                in_use@ == Seq::new(k as nat, |j: int| false),
            decreases capacity - k,
        {
            proof {
                lemma_slot(k as int, capacity as int, buf_len as int);
            }
            free_list.push(k * buf_len);
            in_use.push(false);
            k = k + 1;
            assert(free_list@ =~= Seq::new(k as nat, |j: int| (j * buf_len) as usize));
            assert(in_use@ =~= Seq::new(k as nat, |j: int| false));
        }
        let p = NetBufPool { capacity, buf_len, pool, free_list, in_use, live: 0 };
        proof {
            let f = p.free_spec();
            assert forall|k1: int, k2: int| 0 <= k1 < f.len() && 0 <= k2 < f.len() && k1 != k2 implies f[k1] != f[k2] by {
                lemma_slot(k1, capacity as int, buf_len as int);
                lemma_slot(k2, capacity as int, buf_len as int);
                if f[k1] == f[k2] {
                    lemma_slot_injective(k1, k2, buf_len as int);
                }
            }
            assert forall|j: int| 0 <= j < f.len() implies is_slot_offset(#[trigger] f[j] as int, capacity as int, buf_len as int) by {
                lemma_slot(j, capacity as int, buf_len as int);
            }
            assert forall|s: int| 0 <= s < capacity implies (#[trigger] f.contains((s * buf_len) as usize) <==> !p.live_spec(s)) by {
                lemma_slot(s, capacity as int, buf_len as int);
                assert(f[s] == (s * buf_len) as usize);
            }
        }
        Ok(p)
    }

    /// Returns the capacity of the pool.
    pub fn capacity(&self) -> (r: usize)
        ensures
            r == self.capacity_spec(),
    {
        self.capacity
    }

    /// Returns the length of each buffer.
    pub fn buffer_len(&self) -> (r: usize)
        ensures
            r == self.buf_len_spec(),
    {
        self.buf_len
    }

    /// Number of free buffers.
    pub fn free_count(&self) -> (r: usize)
        ensures
            r == self.free_spec().len(),
    {
        self.free_list.len()
    }

    /// Allocates a buffer from the pool: the slot last put on the free list.
    /// Returns `None` when every buffer is handed out.
    pub fn alloc_buf(&mut self) -> (r: Option<NetBuf>)
        requires
            old(self).wf(),
        ensures
            final(self).wf(),
            final(self).capacity_spec() == old(self).capacity_spec(),
            final(self).buf_len_spec() == old(self).buf_len_spec(),
            old(self).free_spec().len() == 0 ==> r is None && *final(self) == *old(self),
            old(self).free_spec().len() > 0 ==> r is Some,
            r matches Some(b) ==> {
                &&& b.offset_spec() == old(self).free_spec().last()
                &&& b.header_len_spec() == 0
                &&& b.packet_len_spec() == 0
                &&& b.capacity_spec() == old(self).buf_len_spec()
                &&& final(self).free_spec() == old(self).free_spec().drop_last()
                &&& final(self).live_count() == old(self).live_count() + 1
                &&& final(self).live_spec(b.offset_spec() as int / old(self).buf_len_spec() as int)
            },
    {
        if self.free_list.len() == 0 {
            return None;
        }
        let o = self.free_list.pop().unwrap();
        let ghost f = old(self).free_spec();
        let cap = self.capacity;
        let b = self.buf_len;
        proof {
            assert(f.last() == o);
            assert(is_slot_offset(f[f.len() - 1] as int, cap as int, b as int));
            lemma_offset(o as int, cap as int, b as int);
        }
        let s = o / b;
        self.in_use.set(s, true);
        self.live = self.live + 1;
        proof {
            let nf = self.free_spec();
            assert(nf =~= f.drop_last());
            assert forall|j: int| 0 <= j < nf.len() implies is_slot_offset(#[trigger] nf[j] as int, cap as int, b as int) by {
                assert(nf[j] == f[j]);
            }
            assert forall|t: int| 0 <= t < cap implies (#[trigger] nf.contains((t * b) as usize) <==> !self.live_spec(t)) by {
                lemma_slot(t, cap as int, b as int);
                if t == s {
                    if nf.contains((t * b) as usize) {
                        let j = choose|j: int| 0 <= j < nf.len() && nf[j] == (t * b) as usize;
                        assert(f[j] == f[f.len() - 1]);
                    }
                } else {
                    if f.contains((t * b) as usize) {
                        let j = choose|j: int| 0 <= j < f.len() && f[j] == (t * b) as usize;
                        if j == f.len() - 1 {
                            lemma_slot_injective(t, s as int, b as int);
                        }
                        assert(nf[j] == f[j]);
                    }
                    if nf.contains((t * b) as usize) {
                        let j = choose|j: int| 0 <= j < nf.len() && nf[j] == (t * b) as usize;
                        assert(f[j] == nf[j]);
                    }
                }
            }
        }
        Some(NetBuf { header_len: 0, packet_len: 0, capacity: b, pool_offset: o })
    }

    /// Allocates a buffer wrapped in a [`Box`] from the pool.
    pub fn alloc_boxed(&mut self) -> (r: Option<Box<NetBuf>>)
        requires
            old(self).wf(),
        ensures
            final(self).wf(),
            old(self).free_spec().len() == 0 ==> r is None && *final(self) == *old(self),
            old(self).free_spec().len() > 0 ==> r is Some,
            r matches Some(b) ==> {
                &&& b.offset_spec() == old(self).free_spec().last()
                &&& final(self).free_spec() == old(self).free_spec().drop_last()
                &&& final(self).live_count() == old(self).live_count() + 1
            },
    {
        match self.alloc_buf() {
            Some(b) => Some(Box::new(b)),
            None => None,
        }
    }

    /// Gives buffer `buf` back: its slot goes on the free list. Fails with
    /// `InvalidParam`, changing nothing, when `buf` does not hold a slot of
    /// this pool that is handed out.
    pub fn dealloc(&mut self, buf: NetBuf) -> (r: DevResult<()>)
        requires
            old(self).wf(),
        ensures
            final(self).wf(),
            final(self).capacity_spec() == old(self).capacity_spec(),
            final(self).buf_len_spec() == old(self).buf_len_spec(),
            ({
                let o = buf.offset_spec() as int;
                let b = old(self).buf_len_spec() as int;
                let ok = is_slot_offset(o, old(self).capacity_spec() as int, b) && old(self).live_spec(o / b)
                    && old(self).live_count() > 0;
                &&& r is Ok <==> ok
                &&& r is Err ==> r == Err::<(), DevError>(DevError::InvalidParam) && *final(self) == *old(self)
                &&& r is Ok ==> final(self).free_spec() == old(self).free_spec().push(buf.offset_spec())
                    && final(self).live_count() + 1 == old(self).live_count()
                    && !final(self).live_spec(o / b)
            }),
    {
        let o = buf.pool_offset;
        let b = self.buf_len;
        let cap = self.capacity;
        let s = o / b;
        proof {
            vstd::arithmetic::div_mod::lemma_fundamental_div_mod(o as int, b as int);
        }
        if s >= cap {
            proof {
                if is_slot_offset(o as int, cap as int, b as int) {
                    lemma_offset(o as int, cap as int, b as int);
                }
            }
            return Err(DevError::InvalidParam);
        }
        proof {
            lemma_slot(s as int, cap as int, b as int);
        }
        if s * b != o || !self.in_use[s] || self.live == 0 {
            proof {
                if is_slot_offset(o as int, cap as int, b as int) {
                    lemma_offset(o as int, cap as int, b as int);
                }
            }
            return Err(DevError::InvalidParam);
        }
        let ghost f = old(self).free_spec();
        self.free_list.push(o);
        self.in_use.set(s, false);
        self.live = self.live - 1;
        proof {
            let nf = self.free_spec();
            assert(!f.contains(o)) by {
                assert(f.contains((s * b) as usize) <==> !old(self).live_spec(s as int));
            }
            assert forall|j1: int, j2: int| 0 <= j1 < nf.len() && 0 <= j2 < nf.len() && j1 != j2 implies nf[j1] != nf[j2] by {
                if j1 < f.len() && j2 < f.len() {
                    assert(nf[j1] == f[j1] && nf[j2] == f[j2]);
                } else if j1 < f.len() {
                    assert(nf[j1] == f[j1]);
                } else if j2 < f.len() {
                    assert(nf[j2] == f[j2]);
                }
            }
            assert forall|j: int| 0 <= j < nf.len() implies is_slot_offset(#[trigger] nf[j] as int, cap as int, b as int) by {
                if j < f.len() {
                    assert(nf[j] == f[j]);
                }
            }
            assert forall|t: int| 0 <= t < cap implies (#[trigger] nf.contains((t * b) as usize) <==> !self.live_spec(t)) by {
                lemma_slot(t, cap as int, b as int);
                if t == s {
                    assert(nf[f.len() as int] == o);
                } else {
                    if f.contains((t * b) as usize) {
                        let j = choose|j: int| 0 <= j < f.len() && f[j] == (t * b) as usize;
                        assert(nf[j] == f[j]);
                    }
                    if nf.contains((t * b) as usize) {
                        let j = choose|j: int| 0 <= j < nf.len() && nf[j] == (t * b) as usize;
                        if j == f.len() {
                            lemma_slot_injective(t, s as int, b as int);
                        } else {
                            assert(f[j] == nf[j]);
                        }
                    }
                }
            }
        }
        Ok(())
    }

    /// The bytes of the pool from `start`, `len` of them.
    pub closed spec fn bytes_spec(&self, start: int, len: int) -> Seq<u8> {
        self.pool@.subrange(start, start + len)
    }

    /// `buf`'s slot lies in this pool.
    pub open spec fn holds(&self, buf: &NetBuf) -> bool {
        self.wf() && buf.wf() && buf.capacity_spec() == self.buf_len_spec() && is_slot_offset(
            buf.offset_spec() as int,
            self.capacity_spec() as int,
            self.buf_len_spec() as int,
        )
    }

    fn copy_out(&self, start: usize, len: usize) -> (r: Vec<u8>)
        requires
            start + len <= self.pool@.len(),
        ensures
            r@ == self.bytes_spec(start as int, len as int),
    {
        let mut r: Vec<u8> = Vec::new();
        let n = self.pool.len();
        let mut i: usize = 0;
        while i < len
            invariant
                0 <= i <= len,
                n == self.pool@.len(),
                start + len <= n,
                r@ == self.pool@.subrange(start as int, start + i),
            decreases len - i,
        {
            r.push(self.pool[start + i]);
            i = i + 1;
            assert(r@ =~= self.pool@.subrange(start as int, start + i));
        }
        r
    }

    proof fn lemma_slot_in_pool(&self, buf: &NetBuf)
        requires
            self.holds(buf),
        ensures
            buf.offset_spec() + buf.capacity_spec() <= self.pool@.len(),
    {
        lemma_offset(buf.offset_spec() as int, self.capacity_spec() as int, self.buf_len_spec() as int);
        lemma_slot(buf.offset_spec() as int / self.buf_len_spec() as int, self.capacity_spec() as int, self.buf_len_spec() as int);
    }

    /// The header part of `buf`.
    pub fn header(&self, buf: &NetBuf) -> (r: Vec<u8>)
        requires
            self.holds(buf),
        ensures
            r@ == self.bytes_spec(buf.offset_spec() as int, buf.header_len_spec() as int),
    {
        proof {
            self.lemma_slot_in_pool(buf);
        }
        self.copy_out(buf.pool_offset, buf.header_len)
    }

    /// The packet part of `buf`.
    pub fn packet(&self, buf: &NetBuf) -> (r: Vec<u8>)
        requires
            self.holds(buf),
        ensures
            r@ == self.bytes_spec(
                buf.offset_spec() + buf.header_len_spec(),
                buf.packet_len_spec() as int,
            ),
    {
        proof {
            self.lemma_slot_in_pool(buf);
        }
        self.copy_out(buf.pool_offset + buf.header_len, buf.packet_len)
    }

    /// The header and the packet of `buf`, as one run of bytes.
    pub fn packet_with_header(&self, buf: &NetBuf) -> (r: Vec<u8>)
        requires
            self.holds(buf),
        ensures
            r@ == self.bytes_spec(
                buf.offset_spec() as int,
                buf.header_len_spec() + buf.packet_len_spec(),
            ),
    {
        proof {
            self.lemma_slot_in_pool(buf);
        }
        self.copy_out(buf.pool_offset, buf.header_len + buf.packet_len)
    }

    /// The whole slot of `buf`.
    pub fn raw_buf(&self, buf: &NetBuf) -> (r: Vec<u8>)
        requires
            self.holds(buf),
        ensures
            r@ == self.bytes_spec(buf.offset_spec() as int, buf.capacity_spec() as int),
    {
        proof {
            self.lemma_slot_in_pool(buf);
        }
        self.copy_out(buf.pool_offset, buf.capacity)
    }

    /// Copies `data` into `buf`'s slot from byte `start` of the slot.
    pub fn write_buf(&mut self, buf: &NetBuf, start: usize, data: &[u8])
        requires
            old(self).holds(buf),
            start + data@.len() <= buf.capacity_spec(),
        ensures
            final(self).wf(),
            final(self).capacity_spec() == old(self).capacity_spec(),
            final(self).buf_len_spec() == old(self).buf_len_spec(),
            final(self).free_spec() == old(self).free_spec(),
            final(self).live_count() == old(self).live_count(),
            forall|s: int| #[trigger] final(self).live_spec(s) == old(self).live_spec(s),
            final(self).bytes_spec(buf.offset_spec() + start, data@.len() as int) == data@,
    {
        proof {
            self.lemma_slot_in_pool(buf);
        }
        let base = buf.pool_offset + start;
        let n = self.pool.len();
        let mut i: usize = 0;
        while i < data.len()
            invariant
                0 <= i <= data@.len(),
                n == self.pool@.len(),
                base + data@.len() <= n,
                self.pool@.len() == old(self).pool@.len(),
                self.capacity == old(self).capacity,
                self.buf_len == old(self).buf_len,
                self.free_list == old(self).free_list,
                self.in_use == old(self).in_use,
                self.live == old(self).live,
                forall|k: int| 0 <= k < i ==> #[trigger] self.pool@[base + k] == data@[k],
            decreases data@.len() - i,
        {
            self.pool.set(base + i, data[i]);
            i = i + 1;
        }
        assert forall|k: int| 0 <= k < data@.len() implies #[trigger] self.pool@.subrange(base as int, base + data@.len())[k] == data@[k] by {
            assert(self.pool@[base + k] == data@[k]);
        }
        assert(self.pool@.subrange(base as int, base + data@.len()) =~= data@);
    }

    /// Restores the buffer that a driver handle stands for; the handle's
    /// packet must start inside the buffer's slot.
    pub fn from_buf_ptr(&self, ptr: NetBufPtr) -> (r: NetBuf)
        requires
            ptr.raw_spec() <= ptr.buf_spec(),
        ensures
            r.offset_spec() == ptr.raw_spec(),
            r.header_len_spec() == ptr.buf_spec() - ptr.raw_spec(),
            r.packet_len_spec() == ptr.len_spec(),
            r.capacity_spec() == self.buf_len_spec(),
    {
        NetBuf {
            header_len: ptr.buf_addr_minus_raw(),
            packet_len: ptr.len,
            capacity: self.buf_len,
            pool_offset: ptr.raw_addr,
        }
    }
}

impl NetBufPtr {
    fn buf_addr_minus_raw(&self) -> (r: usize)
        requires
            self.raw_spec() <= self.buf_spec(),
        ensures
            r == self.buf_spec() - self.raw_spec(),
    {
        self.buf_ptr - self.raw_addr
    }
}

/// Handing a buffer of the pool to a driver and taking it back gives the
/// same buffer: same slot, same header and packet lengths.
pub proof fn lemma_buf_ptr_round_trip(pool: &NetBufPool, b: &NetBuf, p: &NetBufPtr, r: &NetBuf)
    requires
        b.wf(),
        b.capacity_spec() == pool.buf_len_spec(),
        b.offset_spec() + b.capacity_spec() <= usize::MAX,
        p.raw_spec() == b.offset_spec(),
        p.buf_spec() == b.offset_spec() + b.header_len_spec(),
        p.len_spec() == b.packet_len_spec(),
        r.offset_spec() == p.raw_spec(),
        r.header_len_spec() == p.buf_spec() - p.raw_spec(),
        r.packet_len_spec() == p.len_spec(),
        r.capacity_spec() == pool.buf_len_spec(),
    ensures
        *r == *b,
{
}

/// At rest, the free and handed-out buffers of a pool add up to its
/// capacity, and its free list holds distinct multiples of the buffer
/// length.
pub proof fn lemma_pool_accounting(pool: &NetBufPool)
    requires
        pool.wf(),
    ensures
        pool.free_spec().len() + pool.live_count() == pool.capacity_spec(),
        pool.free_spec().no_duplicates(),
        forall|k: int|
            0 <= k < pool.free_spec().len() ==> (#[trigger] pool.free_spec()[k]) % pool.buf_len_spec() == 0,
{
    assert forall|k: int| 0 <= k < pool.free_spec().len() implies (#[trigger] pool.free_spec()[k]) % pool.buf_len_spec() == 0 by {
        assert(is_slot_offset(pool.free_spec()[k] as int, pool.capacity_spec() as int, pool.buf_len_spec() as int));
    }
}

} // verus!
