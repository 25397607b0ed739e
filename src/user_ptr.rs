//! Typed, policy-checked access from the kernel to user memory.
use std::marker::PhantomData;
use vstd::prelude::*;
use vstd::string::StringSliceAdditionalSpecFns;

use crate::error::{SysError, SysResult};
use crate::mm::{
    permits, ro_spec, rw_spec, vpn_of, HartEnv, MemorySpace, PageFaultAccessType, TrapVector, PAGE_SIZE,
};

verus! {

/// A value that can be copied to and from user memory byte by byte
/// (little endian).
pub trait UserValue: Copy + Sized {
    spec fn size_spec() -> nat;

    spec fn encode(v: Self) -> Seq<u8>;

    spec fn decode(b: Seq<u8>) -> Self;

    fn size() -> (r: usize)
        ensures
            r == Self::size_spec(),
            r >= 1,
    ;

    fn to_bytes(&self) -> (r: Vec<u8>)
        ensures
            r@ == Self::encode(*self),
    ;

    fn from_bytes(b: &[u8]) -> (r: Self)
        requires
            b@.len() == Self::size_spec(),
        ensures
            r == Self::decode(b@),
    ;

    proof fn lemma_round_trip(v: Self)
        ensures
            Self::encode(v).len() == Self::size_spec(),
            Self::decode(Self::encode(v)) == v,
    ;
}

impl UserValue for u8 {
    open spec fn size_spec() -> nat {
        1
    }

    open spec fn encode(v: u8) -> Seq<u8> {
        seq![v]
    }

    open spec fn decode(b: Seq<u8>) -> u8 {
        b[0]
    }

    fn size() -> (r: usize) {
        1
    }

    fn to_bytes(&self) -> (r: Vec<u8>) {
        vec![*self]
    }

    fn from_bytes(b: &[u8]) -> (r: u8) {
        b[0]
    }

    proof fn lemma_round_trip(v: u8) {
    }
}

impl UserValue for u32 {
    open spec fn size_spec() -> nat {
        4
    }

    open spec fn encode(v: u32) -> Seq<u8> {
        seq![
            (v & 0xff) as u8,
            ((v >> 8u32) & 0xff) as u8,
            ((v >> 16u32) & 0xff) as u8,
            ((v >> 24u32) & 0xff) as u8,
        ]
    }

    open spec fn decode(b: Seq<u8>) -> u32 {
        (b[0] as u32) | ((b[1] as u32) << 8u32) | ((b[2] as u32) << 16u32) | ((b[3] as u32)
            << 24u32)
    }

    fn size() -> (r: usize) {
        4
    }

    fn to_bytes(&self) -> (r: Vec<u8>) {
        let v = *self;
        let r = vec![
            (v & 0xff) as u8,
            ((v >> 8u32) & 0xff) as u8,
            ((v >> 16u32) & 0xff) as u8,
            ((v >> 24u32) & 0xff) as u8,
        ];
        assert(r@ =~= Self::encode(v));
        r
    }

    fn from_bytes(b: &[u8]) -> (r: u32) {
        (b[0] as u32) | ((b[1] as u32) << 8u32) | ((b[2] as u32) << 16u32) | ((b[3] as u32)
            << 24u32)
    }

    proof fn lemma_round_trip(v: u32) {
        let b = Self::encode(v);
        assert(((v & 0xff) as u8 as u32) | ((((v >> 8u32) & 0xff) as u8 as u32) << 8u32) | ((((v
            >> 16u32) & 0xff) as u8 as u32) << 16u32) | ((((v >> 24u32) & 0xff) as u8 as u32)
            << 24u32) == v) by (bit_vector);
    }
}

impl UserValue for i32 {
    open spec fn size_spec() -> nat {
        4
    }

    open spec fn encode(v: i32) -> Seq<u8> {
        <u32 as UserValue>::encode(v as u32)
    }

    open spec fn decode(b: Seq<u8>) -> i32 {
        <u32 as UserValue>::decode(b) as i32
    }

    fn size() -> (r: usize) {
        4
    }

    fn to_bytes(&self) -> (r: Vec<u8>) {
        (*self as u32).to_bytes()
    }

    fn from_bytes(b: &[u8]) -> (r: i32) {
        u32::from_bytes(b) as i32
    }

    proof fn lemma_round_trip(v: i32) {
        <u32 as UserValue>::lemma_round_trip(v as u32);
        assert((v as u32) as i32 == v) by (bit_vector);
    }
}

impl UserValue for u64 {
    open spec fn size_spec() -> nat {
        8
    }

    open spec fn encode(v: u64) -> Seq<u8> {
        seq![
            (v & 0xff) as u8,
            ((v >> 8u64) & 0xff) as u8,
            ((v >> 16u64) & 0xff) as u8,
            ((v >> 24u64) & 0xff) as u8,
            ((v >> 32u64) & 0xff) as u8,
            ((v >> 40u64) & 0xff) as u8,
            ((v >> 48u64) & 0xff) as u8,
            ((v >> 56u64) & 0xff) as u8,
        ]
    }

    open spec fn decode(b: Seq<u8>) -> u64 {
        (b[0] as u64) | ((b[1] as u64) << 8u64) | ((b[2] as u64) << 16u64) | ((b[3] as u64)
            << 24u64) | ((b[4] as u64) << 32u64) | ((b[5] as u64) << 40u64) | ((b[6] as u64)
            << 48u64) | ((b[7] as u64) << 56u64)
    }

    fn size() -> (r: usize) {
        8
    }

    fn to_bytes(&self) -> (r: Vec<u8>) {
        let v = *self;
        let r = vec![
            (v & 0xff) as u8,
            ((v >> 8u64) & 0xff) as u8,
            ((v >> 16u64) & 0xff) as u8,
            ((v >> 24u64) & 0xff) as u8,
            ((v >> 32u64) & 0xff) as u8,
            ((v >> 40u64) & 0xff) as u8,
            ((v >> 48u64) & 0xff) as u8,
            ((v >> 56u64) & 0xff) as u8,
        ];
        assert(r@ =~= Self::encode(v));
        r
    }

    fn from_bytes(b: &[u8]) -> (r: u64) {
        (b[0] as u64) | ((b[1] as u64) << 8u64) | ((b[2] as u64) << 16u64) | ((b[3] as u64)
            << 24u64) | ((b[4] as u64) << 32u64) | ((b[5] as u64) << 40u64) | ((b[6] as u64)
            << 48u64) | ((b[7] as u64) << 56u64)
    }

    proof fn lemma_round_trip(v: u64) {
        assert(((v & 0xff) as u8 as u64) | ((((v >> 8u64) & 0xff) as u8 as u64) << 8u64) | ((((v
            >> 16u64) & 0xff) as u8 as u64) << 16u64) | ((((v >> 24u64) & 0xff) as u8 as u64)
            << 24u64) | ((((v >> 32u64) & 0xff) as u8 as u64) << 32u64) | ((((v >> 40u64) & 0xff)
            as u8 as u64) << 40u64) | ((((v >> 48u64) & 0xff) as u8 as u64) << 48u64) | ((((v
            >> 56u64) & 0xff) as u8 as u64) << 56u64) == v) by (bit_vector);
    }
}

impl UserValue for usize {
    open spec fn size_spec() -> nat {
        8
    }

    open spec fn encode(v: usize) -> Seq<u8> {
        <u64 as UserValue>::encode(v as u64)
    }

    open spec fn decode(b: Seq<u8>) -> usize {
        <u64 as UserValue>::decode(b) as usize
    }

    fn size() -> (r: usize) {
        8
    }

    fn to_bytes(&self) -> (r: Vec<u8>) {
        (*self as u64).to_bytes()
    }

    fn from_bytes(b: &[u8]) -> (r: usize) {
        u64::from_bytes(b) as usize
    }

    proof fn lemma_round_trip(v: usize) {
        <u64 as UserValue>::lemma_round_trip(v as u64);
    }
}

/// An access policy of a user pointer.
pub trait Policy: Clone + Copy {}

/// A policy under which the pointee may be read.
pub trait Read: Policy {}

/// A policy under which the pointee may be written.
pub trait Write: Policy {}

/// Read only.
#[derive(Clone, Copy)]
pub struct In;

/// Write only.
#[derive(Clone, Copy)]
pub struct Out;

/// Read and write.
#[derive(Clone, Copy)]
pub struct InOut;

impl Policy for In {}

impl Policy for Out {}

impl Policy for InOut {}

impl Read for In {}

impl Write for Out {}

impl Read for InOut {}

impl Write for InOut {}

/// A user address holding a `T`, with an access policy. Building one checks
/// nothing; reading or writing through it checks the pages it covers.
pub struct UserPtr<T: UserValue, P: Policy> {
    ptr: usize,
    _mark: PhantomData<(T, P)>,
}

pub type UserReadPtr<T> = UserPtr<T, In>;

pub type UserWritePtr<T> = UserPtr<T, Out>;

pub type UserRdWrPtr<T> = UserPtr<T, InOut>;

/// The value of type `T` stored at `va`.
pub open spec fn value_at<T: UserValue>(mm: &MemorySpace, va: int) -> T {
    T::decode(mm.bytes(va, T::size_spec() as int))
}

/// `after` is `before` with `b` written at `va`.
pub open spec fn written(before: &MemorySpace, after: &MemorySpace, va: int, b: Seq<u8>) -> bool {
    forall|x: int| #[trigger]
        after.byte(x) == if va <= x < va + b.len() {
            b[x - va]
        } else {
            before.byte(x)
        }
}

impl<T: UserValue, P: Policy> UserPtr<T, P> {
    pub closed spec fn addr(&self) -> usize {
        self.ptr
    }

    fn new(ptr: usize) -> (r: Self)
        ensures
            r.addr() == ptr,
    {
        UserPtr { ptr, _mark: PhantomData }
    }

    /// The null pointer.
    pub fn null() -> (r: Self)
        ensures
            r.addr() == 0,
    {
        Self::new(0)
    }

    /// A pointer to user address `vaddr`.
    pub fn from_usize(vaddr: usize) -> (r: Self)
        ensures
            r.addr() == vaddr,
    {
        Self::new(vaddr)
    }

    pub fn is_null(&self) -> (r: bool)
        ensures
            r == (self.addr() == 0),
    {
        self.ptr == 0
    }

    pub fn not_null(&self) -> (r: bool)
        ensures
            r == (self.addr() != 0),
    {
        self.ptr != 0
    }

    pub fn as_usize(&self) -> (r: usize)
        ensures
            r == self.addr(),
    {
        self.ptr
    }
}

impl<T: UserValue, P: Policy> From<usize> for UserPtr<T, P> {
    fn from(a: usize) -> (r: Self) {
        Self::from_usize(a)
    }
}

impl<T: UserValue, P: Policy> vstd::std_specs::convert::FromSpecImpl<usize> for UserPtr<T, P> {
    open spec fn obeys_from_spec() -> bool {
        true
    }

    closed spec fn from_spec(a: usize) -> Self {
        UserPtr { ptr: a, _mark: PhantomData }
    }
}

impl<T: UserValue, P: Read> UserPtr<T, P> {
    /// Reads the value at this address. Fails with `EFAULT` when the pointer
    /// is null or a page that the value covers cannot be read.
    pub fn read(self, mm: &mut MemorySpace, env: &mut HartEnv) -> (r: SysResult<T>)
        requires
            old(env).sum_depth < usize::MAX,
        ensures
            r is Ok <==> self.addr() != 0 && old(mm).range_allowed(
                self.addr() as int,
                T::size_spec() as int,
                ro_spec(),
            ),
            r is Err ==> r == Err::<T, SysError>(SysError::EFAULT),
            r matches Ok(v) ==> v == value_at::<T>(old(mm), self.addr() as int),
            final(mm).area_list() == old(mm).area_list(),
            final(mm).same_contents(old(mm)),
            *final(env) == *old(env),
    {
        if self.ptr == 0 {
            return Err(SysError::EFAULT);
        }
        let bytes = mm.read_bytes(env, self.ptr, T::size());
        match bytes {
            Err(e) => Err(e),
            Ok(b) => Ok(T::from_bytes(b.as_slice())),
        }
    }

    /// Reads `n` consecutive values from this address. Fails with `EFAULT`
    /// when the range overflows the address space or a page of it cannot be
    /// read; reading nothing always succeeds.
    pub fn read_array(self, mm: &mut MemorySpace, env: &mut HartEnv, n: usize) -> (r: SysResult<
        Vec<T>,
    >)
        requires
            old(mm).wf(),
            old(env).sum_depth < usize::MAX,
        ensures
            r is Ok <==> old(mm).range_allowed(
                self.addr() as int,
                n * T::size_spec(),
                ro_spec(),
            ),
            r is Err ==> r == Err::<Vec<T>, SysError>(SysError::EFAULT),
            r matches Ok(v) ==> v@.len() == n && forall|i: int|
                0 <= i < n ==> #[trigger] v@[i] == value_at::<T>(
                    old(mm),
                    self.addr() + i * T::size_spec(),
                ),
            final(mm).area_list() == old(mm).area_list(),
            final(mm).same_contents(old(mm)),
            *final(env) == *old(env),
    {
        let size = T::size();
        let total = match n.checked_mul(size) {
            Some(t) => t,
            None => {
                proof {
                    if self.addr() == 0 {
                        assert(!old(mm).page_allows(0, ro_spec()));
                        assert(vpn_of(0) == 0);
                    }
                }
                return Err(SysError::EFAULT);
            },
        };
        let bytes = match mm.read_bytes(env, self.ptr, total) {
            Err(e) => return Err(e),
            Ok(b) => b,
        };
        let mut res: Vec<T> = Vec::new();
        let mut i: usize = 0;
        while i < n
            invariant
                0 <= i <= n,
                size == T::size_spec(),
                size >= 1,
                total == n * size,
                bytes@ == old(mm).bytes(self.addr() as int, total as int),
                res@.len() == i,
                forall|k: int|
                    0 <= k < i ==> #[trigger] res@[k] == value_at::<T>(
                        old(mm),
                        self.addr() + k * T::size_spec(),
                    ),
            decreases n - i,
        {
            proof {
                assert((i + 1) * size <= n * size) by (nonlinear_arith)
                    requires
                        i < n,
                        size >= 1,
                {}
                assert(i * size + size == (i + 1) * size) by (nonlinear_arith);
            }
            let start = i * size;
            let mut chunk: Vec<u8> = Vec::new();
            let mut j: usize = 0;
            while j < size
                invariant
                    0 <= j <= size,
                    start + size <= total,
                    total == bytes@.len(),
                    chunk@ == bytes@.subrange(start as int, start + j),
                decreases size - j,
            {
                chunk.push(bytes[start + j]);
                j = j + 1;
                assert(chunk@ =~= bytes@.subrange(start as int, start + j));
            }
            assert(chunk@ =~= old(mm).bytes(self.addr() + i * T::size_spec(), T::size_spec() as int));
            res.push(T::from_bytes(chunk.as_slice()));
            i = i + 1;
        }
        Ok(res)
    }
}

impl<T: UserValue, P: Write> UserPtr<T, P> {
    /// Writes `val` at this address. Fails with `EFAULT`, writing nothing,
    /// when a page that the value covers cannot be written.
    pub fn write(self, mm: &mut MemorySpace, env: &mut HartEnv, val: T) -> (r: SysResult<()>)
        requires
            old(env).sum_depth < usize::MAX,
        ensures
            r is Ok <==> old(mm).range_allowed(self.addr() as int, T::size_spec() as int, rw_spec()),
            r is Err ==> r == Err::<(), SysError>(SysError::EFAULT),
            r is Ok ==> written(old(mm), final(mm), self.addr() as int, T::encode(val)),
            r is Err ==> final(mm).same_contents(old(mm)),
            final(mm).area_list() == old(mm).area_list(),
            *final(env) == *old(env),
    {
        let bytes = val.to_bytes();
        proof {
            T::lemma_round_trip(val);
        }
        mm.write_bytes(env, self.ptr, bytes.as_slice())
    }

    /// Writes the values of `val` one after another from this address.
    /// Fails with `EFAULT`, writing nothing, when the range overflows the
    /// address space or a page of it cannot be written.
    pub fn write_array(self, mm: &mut MemorySpace, env: &mut HartEnv, val: &[T]) -> (r: SysResult<
        (),
    >)
        requires
            old(mm).wf(),
            old(env).sum_depth < usize::MAX,
        ensures
            r is Ok <==> old(mm).range_allowed(
                self.addr() as int,
                (val@.len() * T::size_spec()) as int,
                rw_spec(),
            ),
            r is Err ==> r == Err::<(), SysError>(SysError::EFAULT),
            r is Ok ==> forall|i: int|
                0 <= i < val@.len() ==> #[trigger] value_at::<T>(
                    final(mm),
                    self.addr() + i * T::size_spec(),
                ) == val@[i],
            r is Ok ==> forall|x: int|
                !(self.addr() <= x < self.addr() + val@.len() * T::size_spec()) ==> #[trigger] final(mm).byte(x)
                    == old(mm).byte(x),
            r is Err ==> final(mm).same_contents(old(mm)),
            final(mm).area_list() == old(mm).area_list(),
            *final(env) == *old(env),
    {
        let size = T::size();
        let n = val.len();
        let total = match n.checked_mul(size) {
            Some(t) => t,
            None => {
                proof {
                    if self.addr() == 0 {
                        assert(!old(mm).page_allows(0, rw_spec()));
                        assert(vpn_of(0) == 0);
                    }
                }
                return Err(SysError::EFAULT);
            },
        };
        let mut buf: Vec<u8> = Vec::new();
        let mut i: usize = 0;
        while i < n
            invariant
                0 <= i <= n,
                n == val@.len(),
                size == T::size_spec(),
                size >= 1,
                total == n * size,
                buf@.len() == i * size,
                forall|k: int|
                    0 <= k < i ==> #[trigger] buf@.subrange(k * size, k * size + size)
                        == T::encode(val@[k]),
            decreases n - i,
        {
            let b = val[i].to_bytes();
            proof {
                T::lemma_round_trip(val@[i as int]);
                assert((i + 1) * size <= n * size) by (nonlinear_arith)
                    requires
                        i < n,
                        size >= 1,
                {}
                assert(i * size + size == (i + 1) * size) by (nonlinear_arith);
            }
            let ghost old_buf = buf@;
            let mut j: usize = 0;
            while j < size
                invariant
                    0 <= j <= size,
                    b@.len() == size,
                    buf@.len() == i * size + j,
                    (i + 1) * size <= total,
                    buf@.subrange(0, i * size) == old_buf,
                    buf@.subrange(i * size, i * size + j) == b@.subrange(0, j as int),
                decreases size - j,
            {
                buf.push(b[j]);
                j = j + 1;
                assert(buf@.subrange(0, i * size) =~= old_buf);
                assert(buf@.subrange(i * size, i * size + j) =~= b@.subrange(0, j as int));
            }
            assert forall|k: int| 0 <= k < i + 1 implies #[trigger] buf@.subrange(
                k * size,
                k * size + size,
            ) == T::encode(val@[k]) by {
                if k < i {
                    assert(k * size + size <= i * size) by (nonlinear_arith)
                        requires
                            k < i,
                    {}
                    assert(buf@.subrange(k * size, k * size + size) =~= old_buf.subrange(
                        k * size,
                        k * size + size,
                    ));
                } else {
                    assert(b@.subrange(0, size as int) =~= b@);
                }
            }
            i = i + 1;
        }
        let r = mm.write_bytes(env, self.ptr, buf.as_slice());
        proof {
            assert(buf@.len() == val@.len() * T::size_spec());
            if r is Ok {
                assert forall|i: int| 0 <= i < val@.len() implies #[trigger] value_at::<T>(
                    final(mm),
                    self.addr() + i * T::size_spec(),
                ) == val@[i] by {
                    assert(i * size + size <= total) by (nonlinear_arith)
                        requires
                            i < n,
                            total == n * size,
                    {}
                    assert(0 <= i * size) by (nonlinear_arith)
                        requires
                            0 <= i,
                            0 <= size,
                    {}
                    assert(final(mm).bytes(self.addr() + i * size, size as int) =~= buf@.subrange(
                        i * size,
                        i * size + size,
                    ));
                    T::lemma_round_trip(val@[i]);
                }
            }
        }
        r
    }
}

/// Writing a value at an address and then reading a value of the same type
/// there gives the value back: the read succeeds and returns it.
pub proof fn lemma_write_read_round_trip<T: UserValue>(
    before: &MemorySpace,
    after: &MemorySpace,
    va: int,
    v: T,
)
    requires
        before.range_allowed(va, T::size_spec() as int, rw_spec()),
        after.area_list() == before.area_list(),
        written(before, after, va, T::encode(v)),
    ensures
        after.range_allowed(va, T::size_spec() as int, ro_spec()),
        value_at::<T>(after, va) == v,
{
    T::lemma_round_trip(v);
    assert(after.bytes(va, T::size_spec() as int) =~= T::encode(v));
    MemorySpace::lemma_same_areas(before, after);
    if T::size_spec() > 0 {
        assert forall|vpn: int|
            vpn_of(va) <= vpn <= vpn_of(va + T::size_spec() - 1) implies #[trigger] after.page_allows(
            vpn,
            ro_spec(),
        ) by {
            assert(before.page_allows(vpn, rw_spec()));
            let i = choose|i: int|
                0 <= i < before.area_list().len() && (#[trigger] before.area_list()[i]).start_vpn
                    <= vpn && vpn < before.area_list()[i].end_vpn && permits(
                    before.area_list()[i].perm,
                    rw_spec(),
                );
            assert(after.area_list()[i] == before.area_list()[i]);
        }
    }
}

/// The `n` bytes from `va` lie in the address space, can be read, and none
/// of them is zero.
pub open spec fn nonzero_run(mm: &MemorySpace, va: int, n: int) -> bool {
    &&& 0 <= n
    &&& va + n <= usize::MAX as int + 1
    &&& forall|i: int| 0 <= i < n ==> #[trigger] mm.allows(va + i, ro_spec())
    &&& forall|i: int| 0 <= i < n ==> #[trigger] mm.byte(va + i) != 0
}

/// The `n` words from `va` lie in the address space, can be read, and none
/// of them is zero.
pub open spec fn nonzero_words(mm: &MemorySpace, va: int, n: int) -> bool {
    &&& 0 <= n
    &&& va + 8 * n <= usize::MAX as int + 1
    &&& forall|i: int| 0 <= i < n ==> #[trigger] mm.range_allowed(va + 8 * i, 8, ro_spec())
    &&& forall|i: int| 0 <= i < n ==> #[trigger] value_at::<usize>(mm, va + 8 * i) != 0
}

proof fn lemma_range_same_areas(a: &MemorySpace, b: &MemorySpace, va: int, n: int)
    requires
        a.area_list() == b.area_list(),
    ensures
        a.range_allowed(va, n, ro_spec()) == b.range_allowed(va, n, ro_spec()),
{
    MemorySpace::lemma_same_areas(a, b);
    if n != 0 && va + n <= usize::MAX as int + 1 {
        if a.range_allowed(va, n, ro_spec()) {
            assert forall|vpn: int| vpn_of(va) <= vpn <= vpn_of(va + n - 1) implies #[trigger] b.page_allows(vpn, ro_spec()) by {
                assert(a.page_allows(vpn, ro_spec()));
            }
        }
        if b.range_allowed(va, n, ro_spec()) {
            assert forall|vpn: int| vpn_of(va) <= vpn <= vpn_of(va + n - 1) implies #[trigger] a.page_allows(vpn, ro_spec()) by {
                assert(b.page_allows(vpn, ro_spec()));
            }
        }
    }
}

proof fn lemma_nonzero_run_extend(mm: &MemorySpace, va: int, n: int)
    requires
        nonzero_run(mm, va, n),
        va + n + 1 <= usize::MAX as int + 1,
        mm.allows(va + n, ro_spec()),
        mm.byte(va + n) != 0,
    ensures
        nonzero_run(mm, va, n + 1),
{
    assert forall|i: int| 0 <= i < n + 1 implies #[trigger] mm.allows(va + i, ro_spec()) by {
        if i < n {
            assert(mm.allows(va + i, ro_spec()));
        }
    }
    assert forall|i: int| 0 <= i < n + 1 implies #[trigger] mm.byte(va + i) != 0 by {
        if i < n {
            assert(mm.byte(va + i) != 0);
        }
    }
}

proof fn lemma_nonzero_words_extend(mm: &MemorySpace, va: int, n: int)
    requires
        nonzero_words(mm, va, n),
        va + 8 * n + 8 <= usize::MAX as int + 1,
        mm.range_allowed(va + 8 * n, 8, ro_spec()),
        value_at::<usize>(mm, va + 8 * n) != 0,
    ensures
        nonzero_words(mm, va, n + 1),
{
    assert forall|i: int| 0 <= i < n + 1 implies #[trigger] mm.range_allowed(
        va + 8 * i,
        8,
        ro_spec(),
    ) by {
        if i < n {
            assert(mm.range_allowed(va + 8 * i, 8, ro_spec()));
        }
    }
    assert forall|i: int| 0 <= i < n + 1 implies #[trigger] value_at::<usize>(mm, va + 8 * i)
        != 0 by {
        if i < n {
            assert(value_at::<usize>(mm, va + 8 * i) != 0);
        }
    }
}

/// `s` is the null-terminated string at `va`: its bytes, read as
/// characters, followed by a zero.
pub open spec fn cstr_at(mm: &MemorySpace, va: int, s: Seq<char>) -> bool {
    &&& nonzero_run(mm, va, s.len() as int)
    &&& va + s.len() <= usize::MAX
    &&& mm.allows(va + s.len(), ro_spec())
    &&& mm.byte(va + s.len()) == 0
    &&& forall|i: int| 0 <= i < s.len() ==> #[trigger] s[i] == mm.byte(va + i) as char
}

/// `v` is the zero-terminated word vector at `va`.
pub open spec fn cvec_at(mm: &MemorySpace, va: int, v: Seq<usize>) -> bool {
    &&& nonzero_words(mm, va, v.len() as int)
    &&& mm.range_allowed(va + 8 * v.len(), 8, ro_spec())
    &&& value_at::<usize>(mm, va + 8 * v.len()) == 0
    &&& forall|i: int| 0 <= i < v.len() ==> #[trigger] v[i] == value_at::<usize>(mm, va + 8 * i)
}

/// A string at `va` leaves no room for a fault, or for a run of nonzero
/// bytes, before its terminator.
pub proof fn lemma_cstr_bounds(mm: &MemorySpace, va: int, s: Seq<char>, n: int)
    requires
        cstr_at(mm, va, s),
        nonzero_run(mm, va, n),
    ensures
        n <= s.len(),
        mm.allows(va + n, ro_spec()),
{
    if n > s.len() {
        assert(mm.byte(va + s.len()) != 0);
    } else if n < s.len() {
        assert(mm.allows(va + n, ro_spec()));
    }
}

/// A zero-terminated vector at `va` leaves no room for a fault, or for a
/// run of nonzero words, before its terminator.
pub proof fn lemma_cvec_bounds(mm: &MemorySpace, va: int, v: Seq<usize>, n: int)
    requires
        cvec_at(mm, va, v),
        nonzero_words(mm, va, n),
    ensures
        n <= v.len(),
        mm.range_allowed(va + 8 * n, 8, ro_spec()),
{
    if n > v.len() {
        assert(value_at::<usize>(mm, va + 8 * v.len()) != 0);
    } else if n < v.len() {
        assert(mm.range_allowed(va + 8 * n, 8, ro_spec()));
    }
}

/// The vector at an address is unique.
pub proof fn lemma_cvec_unique(mm: &MemorySpace, va: int, a: Seq<usize>, b: Seq<usize>)
    requires
        cvec_at(mm, va, a),
        cvec_at(mm, va, b),
    ensures
        a == b,
{
    if a.len() < b.len() {
        assert(value_at::<usize>(mm, va + 8 * a.len()) != 0);
    } else if b.len() < a.len() {
        assert(value_at::<usize>(mm, va + 8 * b.len()) != 0);
    }
    assert forall|i: int| 0 <= i < a.len() implies a[i] == b[i] by {
        assert(a[i] == value_at::<usize>(mm, va + 8 * i));
        assert(b[i] == value_at::<usize>(mm, va + 8 * i));
    }
    assert(a =~= b);
}

/// Relies on `String::push`: appends `c` at the end of `s`.
#[verifier::external_body]
fn push_char(s: &mut String, c: char)
    ensures
        final(s)@ == old(s)@.push(c),
{
    s.push(c)
}

impl<T: UserValue, P: Read> UserPtr<T, P> {
    /// Reads a null-terminated pointer vector (such as `argv` or `envp`),
    /// without its terminating zero word. Fails with `EFAULT` at the first
    /// word that cannot be read, and with `EINVAL` when the words run to the
    /// end of the address space without a zero.
    pub fn read_cvec(self, mm: &mut MemorySpace, env: &mut HartEnv) -> (r: SysResult<Vec<usize>>)
        requires
            old(mm).wf(),
            old(env).sum_depth < usize::MAX,
        ensures
            r matches Ok(v) ==> {
                &&& nonzero_words(old(mm), self.addr() as int, v@.len() as int)
                &&& old(mm).range_allowed(self.addr() + 8 * v@.len(), 8, ro_spec())
                &&& value_at::<usize>(old(mm), self.addr() + 8 * v@.len()) == 0
                &&& forall|i: int|
                    0 <= i < v@.len() ==> #[trigger] v@[i] == value_at::<usize>(
                        old(mm),
                        self.addr() + 8 * i,
                    )
            },
            r == Err::<Vec<usize>, SysError>(SysError::EFAULT) ==> exists|n: int|
                nonzero_words(old(mm), self.addr() as int, n) && !old(mm).range_allowed(
                    self.addr() + 8 * n,
                    8,
                    ro_spec(),
                ),
            r == Err::<Vec<usize>, SysError>(SysError::EINVAL) ==> exists|n: int|
                nonzero_words(old(mm), self.addr() as int, n) && self.addr() + 8 * n + 8
                    > usize::MAX as int + 1,
            r is Err ==> r == Err::<Vec<usize>, SysError>(SysError::EFAULT) || r == Err::<
                Vec<usize>,
                SysError,
            >(SysError::EINVAL),
            (exists|v: Seq<usize>| cvec_at(old(mm), self.addr() as int, v)) ==> r is Ok,
            final(mm).area_list() == old(mm).area_list(),
            final(mm).same_contents(old(mm)),
            *final(env) == *old(env),
    {
        let mut v: Vec<usize> = Vec::new();
        let mut va = self.ptr;
        loop
            invariant
                mm.wf(),
                self.addr() <= va,
                va == self.addr() + 8 * v@.len(),
                nonzero_words(old(mm), self.addr() as int, v@.len() as int),
                forall|i: int|
                    0 <= i < v@.len() ==> #[trigger] v@[i] == value_at::<usize>(
                        old(mm),
                        self.addr() + 8 * i,
                    ),
                mm.area_list() == old(mm).area_list(),
                mm.same_contents(old(mm)),
                *env == *old(env),
                env.sum_depth < usize::MAX,
            decreases usize::MAX - va,
        {
            if va > usize::MAX - 7 {
                proof {
                    if exists|w: Seq<usize>| cvec_at(old(mm), self.addr() as int, w) {
                        let w = choose|w: Seq<usize>| cvec_at(old(mm), self.addr() as int, w);
                        lemma_cvec_bounds(old(mm), self.addr() as int, w, v@.len() as int);
                    }
                }
                return Err(SysError::EINVAL);
            }
            let ghost before = *mm;
            let p: UserPtr<usize, In> = UserPtr::from_usize(va);
            let w = match p.read(mm, env) {
                Ok(w) => w,
                Err(e) => {
                    proof {
                        if va == 0 {
                            assert(!old(mm).page_allows(0, ro_spec()));
                            assert(vpn_of(0) == 0);
                        }
                        MemorySpace::lemma_same_areas(&before, old(mm));
                        lemma_range_same_areas(&before, old(mm), va as int, 8);
                        if exists|w: Seq<usize>| cvec_at(old(mm), self.addr() as int, w) {
                            let w = choose|w: Seq<usize>| cvec_at(old(mm), self.addr() as int, w);
                            lemma_cvec_bounds(old(mm), self.addr() as int, w, v@.len() as int);
                        }
                    }
                    return Err(e);
                },
            };
            proof {
                MemorySpace::lemma_same_areas(&before, old(mm));
                assert(before.bytes(va as int, 8) =~= old(mm).bytes(va as int, 8));
                assert(value_at::<usize>(old(mm), va as int) == w);
                assert forall|vpn: int|
                    vpn_of(va as int) <= vpn <= vpn_of(va + 8 - 1) implies #[trigger] old(
                    mm,
                ).page_allows(vpn, ro_spec()) by {
                    assert(before.page_allows(vpn, ro_spec()));
                }
                assert(old(mm).range_allowed(va as int, 8, ro_spec()));
            }
            if w == 0 {
                return Ok(v);
            }
            let ghost n = v@.len();
            v.push(w);
            proof {
                lemma_nonzero_words_extend(old(mm), self.addr() as int, n as int);
            }
            if va > usize::MAX - 8 {
                proof {
                    if exists|w: Seq<usize>| cvec_at(old(mm), self.addr() as int, w) {
                        let w = choose|w: Seq<usize>| cvec_at(old(mm), self.addr() as int, w);
                        lemma_cvec_bounds(old(mm), self.addr() as int, w, v@.len() as int);
                    }
                }
                return Err(SysError::EINVAL);
            }
            va = va + 8;
        }
    }
}

impl<P: Read> UserPtr<u8, P> {
    /// Reads a null-terminated string, byte by byte, probing each page before
    /// its first byte is read. Fails with `EFAULT` at the first byte that
    /// cannot be read, and with `EINVAL` when the bytes run to the end of
    /// the address space without a zero.
    pub fn read_cstr(self, mm: &mut MemorySpace, env: &mut HartEnv) -> (r: SysResult<String>)
        requires
            old(mm).wf(),
            old(env).sum_depth < usize::MAX,
        ensures
            r matches Ok(s) ==> {
                &&& nonzero_run(old(mm), self.addr() as int, s@.len() as int)
                &&& self.addr() + s@.len() <= usize::MAX
                &&& old(mm).allows(self.addr() + s@.len(), ro_spec())
                &&& old(mm).byte(self.addr() + s@.len()) == 0
                &&& forall|i: int|
                    0 <= i < s@.len() ==> #[trigger] s@[i] == old(mm).byte(self.addr() + i) as char
            },
            r == Err::<String, SysError>(SysError::EFAULT) ==> exists|n: int|
                nonzero_run(old(mm), self.addr() as int, n) && self.addr() + n <= usize::MAX
                    && !old(mm).allows(self.addr() + n, ro_spec()),
            r == Err::<String, SysError>(SysError::EINVAL) ==> nonzero_run(
                old(mm),
                self.addr() as int,
                usize::MAX + 1 - self.addr(),
            ),
            r is Err ==> r == Err::<String, SysError>(SysError::EFAULT) || r == Err::<
                String,
                SysError,
            >(SysError::EINVAL),
            (exists|s: Seq<char>| cstr_at(old(mm), self.addr() as int, s)) ==> r is Ok,
            !old(mm).allows(self.addr() as int, ro_spec()) ==> r == Err::<String, SysError>(SysError::EFAULT),
            final(mm).area_list() == old(mm).area_list(),
            final(mm).same_contents(old(mm)),
            *final(env) == *old(env),
    {
        let saved = env.trap;
        env.enter_user_access();
        let mut s = String::new();
        let mut va = self.ptr;
        let mut page: usize = usize::MAX;
        loop
            invariant
                self.addr() <= va,
                s@.len() == va - self.addr(),
                nonzero_run(old(mm), self.addr() as int, va - self.addr()),
                forall|i: int|
                    0 <= i < s@.len() ==> #[trigger] s@[i] == old(mm).byte(self.addr() + i) as char,
                page != usize::MAX ==> old(mm).page_allows(page as int, ro_spec()),
                mm.area_list() == old(mm).area_list(),
                mm.same_contents(old(mm)),
                saved == old(env).trap,
                env.sum_depth == old(env).sum_depth + 1,
            decreases usize::MAX - va,
        {
            let vpn = va / PAGE_SIZE;
            if vpn != page {
                let ghost before = *mm;
                if mm.will_read_fail(va) {
                    match mm.handle_page_fault(va, PageFaultAccessType::ro()) {
                        Ok(()) => {},
                        Err(e) => {
                            env.leave_user_access(saved);
                            proof {
                                MemorySpace::lemma_same_areas(&before, old(mm));
                                if exists|t: Seq<char>| cstr_at(old(mm), self.addr() as int, t) {
                                    let t = choose|t: Seq<char>| cstr_at(old(mm), self.addr() as int, t);
                                    lemma_cstr_bounds(old(mm), self.addr() as int, t, va - self.addr());
                                }
                            }
                            return Err(e);
                        },
                    }
                }
                proof {
                    MemorySpace::lemma_same_areas(&before, old(mm));
                }
                page = vpn;
            }
            let c = mm.load(va);
            proof {
                assert(old(mm).allows(va as int, ro_spec()));
                assert(old(mm).byte(va as int) == c);
            }
            if c == 0 {
                env.leave_user_access(saved);
                proof {
                    if va > self.ptr {
                        assert(old(mm).allows(self.addr() + 0int, ro_spec()));
                    }
                }
                return Ok(s);
            }
            let ghost n = s@.len();
            push_char(&mut s, c as char);
            proof {
                lemma_nonzero_run_extend(old(mm), self.addr() as int, n as int);
            }
            if va == usize::MAX {
                env.leave_user_access(saved);
                proof {
                    if exists|t: Seq<char>| cstr_at(old(mm), self.addr() as int, t) {
                        let t = choose|t: Seq<char>| cstr_at(old(mm), self.addr() as int, t);
                        lemma_cstr_bounds(old(mm), self.addr() as int, t, va + 1 - self.addr());
                    }
                    assert(old(mm).allows(self.addr() + 0int, ro_spec()));
                }
                return Err(SysError::EINVAL);
            }
            va = va + 1;
        }
    }
}

impl<P: Write> UserPtr<u8, P> {
    /// Writes the bytes of `val` and a terminating zero from this address.
    /// Fails with `EINVAL` when the terminator would lie past the end of
    /// the address space, and with `EFAULT` when a page of the range cannot
    /// be written; nothing is written then.
    pub fn write_cstr(self, mm: &mut MemorySpace, env: &mut HartEnv, val: &str) -> (r: SysResult<
        (),
    >)
        requires
            old(env).sum_depth < usize::MAX,
        ensures
            r == Err::<(), SysError>(SysError::EINVAL) <==> self.addr() + val.spec_bytes().len()
                > usize::MAX,
            r is Ok <==> self.addr() + val.spec_bytes().len() <= usize::MAX && old(
                mm,
            ).range_allowed(self.addr() as int, val.spec_bytes().len() + 1 as int, rw_spec()),
            r is Err ==> r == Err::<(), SysError>(SysError::EINVAL) || r == Err::<(), SysError>(
                SysError::EFAULT,
            ),
            r is Ok ==> written(
                old(mm),
                final(mm),
                self.addr() as int,
                val.spec_bytes().push(0u8),
            ),
            r is Err ==> final(mm).same_contents(old(mm)),
            final(mm).area_list() == old(mm).area_list(),
            *final(env) == *old(env),
    {
        let bytes = val.as_bytes();
        let n = bytes.len();
        if n > usize::MAX - self.ptr {
            return Err(SysError::EINVAL);
        }
        let mut buf: Vec<u8> = Vec::new();
        let mut i: usize = 0;
        while i < n
            invariant
                0 <= i <= n,
                n == bytes@.len(),
                buf@ == bytes@.subrange(0, i as int),
            decreases n - i,
        {
            buf.push(bytes[i]);
            i = i + 1;
            assert(buf@ =~= bytes@.subrange(0, i as int));
        }
        buf.push(0);
        assert(buf@ =~= val.spec_bytes().push(0u8));
        mm.write_bytes(env, self.ptr, buf.as_slice())
    }
}

impl<P: Write> UserPtr<u8, P> {
    /// Writes the raw bytes of a record whose size is known only at run time
    /// (such as a directory entry). Fails with `EFAULT`, writing nothing,
    /// when a page of the range cannot be written.
    pub fn write_as_bytes(self, mm: &mut MemorySpace, env: &mut HartEnv, val: &[u8]) -> (r: SysResult<()>)
        requires
            old(env).sum_depth < usize::MAX,
        ensures
            r is Ok <==> old(mm).range_allowed(self.addr() as int, val@.len() as int, rw_spec()),
            r is Err ==> r == Err::<(), SysError>(SysError::EFAULT),
            r is Ok ==> written(old(mm), final(mm), self.addr() as int, val@),
            r is Err ==> final(mm).same_contents(old(mm)),
            final(mm).area_list() == old(mm).area_list(),
            *final(env) == *old(env),
    {
        mm.write_bytes(env, self.ptr, val)
    }
}

/// A 32-bit user word used by futexes.
pub struct FutexWord(u32);

impl FutexWord {
    pub closed spec fn addr(&self) -> u32 {
        self.0
    }

    /// The futex word at user address `a`, kept in 32 bits.
    pub fn from(a: usize) -> (r: Self)
        ensures
            r.addr() == a as u32,
    {
        FutexWord(a as u32)
    }

    /// The user address of the word.
    pub fn raw(&self) -> (r: u32)
        ensures
            r == self.addr(),
    {
        self.0
    }

    /// Makes sure that the word can be read.
    pub fn check(&self, mm: &mut MemorySpace, env: &mut HartEnv) -> (r: SysResult<()>)
        requires
            old(env).sum_depth < usize::MAX,
        ensures
            r is Ok <==> old(mm).range_allowed(self.addr() as int, 4, ro_spec()),
            r is Err ==> r == Err::<(), SysError>(SysError::EFAULT),
            r is Ok ==> final(mm).range_present(self.addr() as int, 4),
            final(mm).area_list() == old(mm).area_list(),
            final(mm).same_contents(old(mm)),
            *final(env) == *old(env),
    {
        mm.just_ensure_user_area(env, self.0 as usize, 4, PageFaultAccessType::ro())
    }

    /// Loads the word.
    pub fn read(&self, mm: &MemorySpace) -> (r: u32)
        requires
            self.addr() + 3 <= usize::MAX,
        ensures
            r == value_at::<u32>(mm, self.addr() as int),
    {
        let a = self.0 as usize;
        let b = [mm.load(a), mm.load(a + 1), mm.load(a + 2), mm.load(a + 3)];
        assert(b@ =~= mm.bytes(self.addr() as int, 4));
        u32::from_bytes(b.as_slice())
    }
}

/// A bounded view of user memory that has been checked for access. It
/// holds one level of the user-access guard, opened by `new` and closed by
/// `release`.
pub struct UserSlice<'a, T> {
    slice: &'a mut [T],
    saved: TrapVector,
}

impl<'a, T> UserSlice<'a, T> {
    pub closed spec fn view(&self) -> Seq<T> {
        self.slice@
    }

    /// The trap vector that was in place before the view opened the guard.
    pub closed spec fn saved_trap(&self) -> TrapVector {
        self.saved
    }

    /// A view of `slice`; opens one level of the guard on `env` and
    /// installs the user-access vector for as long as the view lives.
    pub fn new(slice: &'a mut [T], env: &mut HartEnv) -> (r: Self)
        requires
            old(env).sum_depth < usize::MAX,
        ensures
            r.view() == old(slice)@,
            r.saved_trap() == old(env).trap,
            final(env).sum_depth == old(env).sum_depth + 1,
            final(env).trap == TrapVector::UserAccess,
    {
        let saved = env.trap;
        env.enter_user_access();
        UserSlice { slice, saved }
    }

    /// Number of elements in view.
    pub fn len(&self) -> (r: usize)
        ensures
            r == self.view().len(),
    {
        self.slice.len()
    }

    /// The elements in view.
    pub fn as_slice(&self) -> (r: &[T])
        ensures
            r@ == self.view(),
    {
        &*self.slice
    }

    /// Ends the view: closes its level of the guard and puts back the trap
    /// vector it found.
    pub fn release(self, env: &mut HartEnv)
        requires
            old(env).sum_depth > 0,
        ensures
            final(env).sum_depth == old(env).sum_depth - 1,
            final(env).trap == self.saved_trap(),
    {
        env.leave_user_access(self.saved);
    }
}

} // verus!
