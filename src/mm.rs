//! A task's user address space: mapped areas, demand-filled pages, the page
//! fault handler, the probes that tell whether an access would fault, and
//! the privilege guard that brackets every kernel access to user memory.
use std::collections::HashMap;
use vstd::prelude::*;

use crate::error::{SysError, SysResult};

verus! {

broadcast use vstd::std_specs::hash::group_hash_axioms;

/// Size of a page in bytes.
pub const PAGE_SIZE: usize = 4096;

/// Number of the page that holds address `va`.
pub open spec fn vpn_of(va: int) -> int {
    va / (PAGE_SIZE as int)
}

/// The rights that a memory access needs, or that a mapping grants.
#[derive(Debug, Clone, Copy, PartialEq, Eq, Structural)]
pub struct PageFaultAccessType {
    pub read: bool,
    pub write: bool,
    pub execute: bool,
}

/// A hardware exception cause, as far as page faults are concerned.
#[derive(Debug, Clone, Copy, PartialEq, Eq, Structural)]
pub enum ExceptionCause {
    InstructionPageFault,
    LoadPageFault,
    StorePageFault,
    Other,
}

/// A mapping with rights `perm` allows an access that needs `access`.
pub open spec fn permits(perm: PageFaultAccessType, access: PageFaultAccessType) -> bool {
    &&& (access.read ==> perm.read)
    &&& (access.write ==> perm.write)
    &&& (access.execute ==> perm.execute)
}

pub open spec fn ro_spec() -> PageFaultAccessType {
    PageFaultAccessType { read: true, write: false, execute: false }
}

pub open spec fn rw_spec() -> PageFaultAccessType {
    PageFaultAccessType { read: true, write: true, execute: false }
}

pub open spec fn rx_spec() -> PageFaultAccessType {
    PageFaultAccessType { read: true, write: false, execute: true }
}

/// The bit mask of an access type: `READ = 1 << 1`, `WRITE = 1 << 2`,
/// `EXECUTE = 1 << 3`.
pub open spec fn access_bits(a: PageFaultAccessType) -> u8 {
    ((if a.read { 2int } else { 0int }) + (if a.write { 4int } else { 0int }) + (if a.execute {
        8int
    } else {
        0int
    })) as u8
}

impl PageFaultAccessType {
    /// Read only: no write and no execute.
    pub fn ro() -> (r: Self)
        ensures
            r == ro_spec(),
    {
        PageFaultAccessType { read: true, write: false, execute: false }
    }

    /// Read and write.
    pub fn rw() -> (r: Self)
        ensures
            r == rw_spec(),
    {
        PageFaultAccessType { read: true, write: true, execute: false }
    }

    /// Read and execute.
    pub fn rx() -> (r: Self)
        ensures
            r == rx_spec(),
    {
        PageFaultAccessType { read: true, write: false, execute: true }
    }

    /// The bit mask of this access type.
    pub fn bits(&self) -> (r: u8)
        ensures
            r == access_bits(*self),
    {
        let mut b: u8 = 0;
        if self.read {
            b = b + 2;
        }
        if self.write {
            b = b + 4;
        }
        if self.execute {
            b = b + 8;
        }
        b
    }

    /// The access type from its bit mask; bits other than the three known
    /// ones are dropped.
    pub fn from_bits_truncate(bits: u8) -> (r: Self)
        ensures
            r.read == (bits & 2 != 0),
            r.write == (bits & 4 != 0),
            r.execute == (bits & 8 != 0),
    {
        PageFaultAccessType { read: bits & 2 != 0, write: bits & 4 != 0, execute: bits & 8 != 0 }
    }

    /// The access that a page-fault exception asked for.
    pub fn from_exception(e: ExceptionCause) -> (r: Self)
        requires
            e != ExceptionCause::Other,
        ensures
            e == ExceptionCause::InstructionPageFault ==> r == rx_spec(),
            e == ExceptionCause::LoadPageFault ==> r == ro_spec(),
            e == ExceptionCause::StorePageFault ==> r == rw_spec(),
    {
        match e {
            ExceptionCause::InstructionPageFault => Self::rx(),
            ExceptionCause::LoadPageFault => Self::ro(),
            _ => Self::rw(),
        }
    }
}

/// Which trap vector is installed on the hart.
#[derive(Debug, Clone, Copy, PartialEq, Eq, Structural)]
pub enum TrapVector {
    /// The default kernel vector: a kernel fault is fatal.
    Kernel,
    /// The vector installed around kernel code that touches user memory: a
    /// fault there is recovered from.
    UserAccess,
}

/// Per-hart state of the user-access privilege guard.
#[derive(Debug, Clone, Copy, PartialEq, Eq, Structural)]
pub struct HartEnv {
    /// Nesting depth of the guard; supervisor access to user pages is enabled
    /// while it is positive.
    pub sum_depth: usize,
    /// The trap vector in place.
    pub trap: TrapVector,
}

impl HartEnv {
    /// A hart with the guard closed and the default kernel vector.
    pub fn new() -> (r: Self)
        ensures
            r.sum_depth == 0,
            r.trap == TrapVector::Kernel,
    {
        HartEnv { sum_depth: 0, trap: TrapVector::Kernel }
    }

    /// Whether supervisor access to user pages is currently enabled.
    pub fn user_access_enabled(&self) -> (r: bool)
        ensures
            r == (self.sum_depth > 0),
    {
        self.sum_depth > 0
    }

    /// Opens one level of the guard and installs the user-access vector.
    pub fn enter_user_access(&mut self)
        requires
            old(self).sum_depth < usize::MAX,
        ensures
            final(self).sum_depth == old(self).sum_depth + 1,
            final(self).trap == TrapVector::UserAccess,
    {
        self.sum_depth = self.sum_depth + 1;
        self.trap = TrapVector::UserAccess;
    }

    /// Closes one level of the guard and puts back the vector that was in
    /// place before.
    pub fn leave_user_access(&mut self, saved: TrapVector)
        requires
            old(self).sum_depth > 0,
        ensures
            final(self).sum_depth == old(self).sum_depth - 1,
            final(self).trap == saved,
    {
        self.sum_depth = self.sum_depth - 1;
        self.trap = saved;
    }
}

/// A contiguous run of mapped pages `[start_vpn, end_vpn)` with its rights.
#[derive(Debug, Clone, Copy, PartialEq, Eq, Structural)]
pub struct VmArea {
    pub start_vpn: usize,
    pub end_vpn: usize,
    pub perm: PageFaultAccessType,
}

/// A user address space. Pages of a mapped area are filled with zeros when
/// first touched; only bytes written since then are stored.
pub struct MemorySpace {
    areas: Vec<VmArea>,
    frames: HashMap<usize, bool>,
    data: HashMap<usize, u8>,
}

/// Largest page number that a mapping may reach.
pub open spec fn max_vpn() -> int {
    usize::MAX as int / PAGE_SIZE as int
}

impl MemorySpace {
    pub closed spec fn area_list(&self) -> Seq<VmArea> {
        self.areas@
    }

    /// Page zero is never mapped, so that the null pointer always faults.
    pub open spec fn wf(&self) -> bool {
        forall|i: int|
            0 <= i < self.area_list().len() ==> 1 <= #[trigger] self.area_list()[i].start_vpn
                && self.area_list()[i].start_vpn < self.area_list()[i].end_vpn
                && self.area_list()[i].end_vpn <= max_vpn() + 1
    }

    /// Some mapping covers page `vpn` and grants `access`.
    pub open spec fn page_allows(&self, vpn: int, access: PageFaultAccessType) -> bool {
        exists|i: int|
            0 <= i < self.area_list().len() && (#[trigger] self.area_list()[i]).start_vpn <= vpn
                && vpn < self.area_list()[i].end_vpn && permits(self.area_list()[i].perm, access)
    }

    /// Address `va` may be accessed with `access`.
    pub open spec fn allows(&self, va: int, access: PageFaultAccessType) -> bool {
        self.page_allows(vpn_of(va), access)
    }

    /// Page `vpn` has a frame installed.
    pub closed spec fn present(&self, vpn: int) -> bool {
        0 <= vpn <= usize::MAX && self.frames@.contains_key(vpn as usize)
    }

    /// The byte at address `va`, as user code would read it.
    pub closed spec fn byte(&self, va: int) -> u8 {
        if 0 <= va <= usize::MAX && self.data@.contains_key(va as usize) {
            self.data@[va as usize]
        } else {
            0
        }
    }

    /// The `n` bytes from `begin`.
    pub open spec fn bytes(&self, begin: int, n: int) -> Seq<u8> {
        Seq::new(n as nat, |i: int| self.byte(begin + i))
    }

    /// Two spaces hold the same bytes everywhere.
    pub open spec fn same_contents(&self, other: &MemorySpace) -> bool {
        forall|va: int| #[trigger] self.byte(va) == other.byte(va)
    }

    /// The range `[begin, begin + len)` lies in the address space and every
    /// page that it touches allows `access`. An empty range always does.
    pub open spec fn range_allowed(&self, begin: int, len: int, access: PageFaultAccessType) -> bool {
        len == 0 || (begin + len <= usize::MAX as int + 1 && forall|vpn: int|
            vpn_of(begin) <= vpn <= vpn_of(begin + len - 1) ==> #[trigger] self.page_allows(
                vpn,
                access,
            ))
    }

    /// Every page that `[begin, begin + len)` touches has a frame.
    pub open spec fn range_present(&self, begin: int, len: int) -> bool {
        len == 0 || forall|vpn: int|
            vpn_of(begin) <= vpn <= vpn_of(begin + len - 1) ==> #[trigger] self.present(vpn)
    }

    /// An empty address space.
    pub fn new() -> (r: Self)
        ensures
            r.wf(),
            r.area_list() == Seq::<VmArea>::empty(),
            forall|va: int| r.byte(va) == 0,
    {
        MemorySpace { areas: Vec::new(), frames: HashMap::new(), data: HashMap::new() }
    }

    /// Maps pages `[start_vpn, end_vpn)` with rights `perm`; they read as
    /// zeros until written.
    pub fn map_area(&mut self, start_vpn: usize, end_vpn: usize, perm: PageFaultAccessType)
        requires
            old(self).wf(),
            1 <= start_vpn < end_vpn <= max_vpn() + 1,
        ensures
            final(self).wf(),
            final(self).area_list() == old(self).area_list().push(
                VmArea { start_vpn, end_vpn, perm },
            ),
            final(self).same_contents(old(self)),
            forall|vpn: int| #[trigger] final(self).present(vpn) == old(self).present(vpn),
    {
        self.areas.push(VmArea { start_vpn, end_vpn, perm });
        assert forall|i: int| 0 <= i < self.area_list().len() implies 1 <= #[trigger] self.area_list()[i].start_vpn
                && self.area_list()[i].start_vpn < self.area_list()[i].end_vpn
                && self.area_list()[i].end_vpn <= max_vpn() + 1 by {
            if i < old(self).area_list().len() {
                assert(self.area_list()[i] == old(self).area_list()[i]);
            }
        }
    }

    /// Spaces with the same mappings allow the same accesses.
    pub proof fn lemma_same_areas(a: &MemorySpace, b: &MemorySpace)
        requires
            a.area_list() == b.area_list(),
        ensures
            forall|vpn: int, acc: PageFaultAccessType|
                #![trigger a.page_allows(vpn, acc)]
                #![trigger b.page_allows(vpn, acc)]
                a.page_allows(vpn, acc) == b.page_allows(vpn, acc),
    {
        assert forall|vpn: int, acc: PageFaultAccessType|
            #[trigger] a.page_allows(vpn, acc) == b.page_allows(vpn, acc) by {
            if a.page_allows(vpn, acc) {
                let i = choose|i: int|
                    0 <= i < a.area_list().len() && (#[trigger] a.area_list()[i]).start_vpn <= vpn
                        && vpn < a.area_list()[i].end_vpn && permits(a.area_list()[i].perm, acc);
                assert(b.area_list()[i] == a.area_list()[i]);
            }
            if b.page_allows(vpn, acc) {
                let i = choose|i: int|
                    0 <= i < b.area_list().len() && (#[trigger] b.area_list()[i]).start_vpn <= vpn
                        && vpn < b.area_list()[i].end_vpn && permits(b.area_list()[i].perm, acc);
                assert(b.area_list()[i] == a.area_list()[i]);
            }
        }
    }

    /// A copy of this space with the same mappings and the same contents.
    pub fn duplicate(&self) -> (r: Self)
        ensures
            r.area_list() == self.area_list(),
            r.same_contents(self),
            forall|vpn: int| #[trigger] r.present(vpn) == self.present(vpn),
            self.wf() ==> r.wf(),
    {
        MemorySpace { areas: self.areas.clone(), frames: self.frames.clone(), data: self.data.clone() }
    }

    /// Whether some mapping covers page `vpn` and grants `access`.
    fn find_area(&self, vpn: usize, access: PageFaultAccessType) -> (r: bool)
        ensures
            r == self.page_allows(vpn as int, access),
    {
        let mut i: usize = 0;
        while i < self.areas.len()
            invariant
                0 <= i <= self.areas@.len(),
                forall|j: int|
                    0 <= j < i ==> !((#[trigger] self.area_list()[j]).start_vpn <= vpn
                        && vpn < self.area_list()[j].end_vpn && permits(self.area_list()[j].perm, access)),
            decreases self.areas@.len() - i,
        {
            let a = self.areas[i];
            assert(self.area_list()[i as int] == a);
            let ok = (!access.read || a.perm.read) && (!access.write || a.perm.write) && (
            !access.execute || a.perm.execute);
            if a.start_vpn <= vpn && vpn < a.end_vpn && ok {
                return true;
            }
            i = i + 1;
        }
        false
    }

    /// Whether a load from `va` would fault.
    pub fn will_read_fail(&self, va: usize) -> (r: bool)
        ensures
            r == !(self.present(vpn_of(va as int)) && self.allows(va as int, ro_spec())),
    {
        let vpn = va / PAGE_SIZE;
        !(self.frames.contains_key(&vpn) && self.find_area(vpn, PageFaultAccessType::ro()))
    }

    /// Whether a store to `va` would fault.
    pub fn will_write_fail(&self, va: usize) -> (r: bool)
        ensures
            r == !(self.present(vpn_of(va as int)) && self.allows(va as int, rw_spec())),
    {
        let vpn = va / PAGE_SIZE;
        !(self.frames.contains_key(&vpn) && self.find_area(vpn, PageFaultAccessType::rw()))
    }

    /// Installs a frame for page `vpn` if a mapping covers it and grants
    /// `access`.
    fn fault_in(&mut self, vpn: usize, access: PageFaultAccessType) -> (r: SysResult<()>)
        ensures
            r is Ok <==> old(self).page_allows(vpn as int, access),
            r is Err ==> r == Err::<(), SysError>(SysError::EFAULT),
            r is Ok ==> final(self).present(vpn as int),
            r is Ok ==> final(self).page_allows(vpn as int, access),
            r is Err ==> *final(self) == *old(self),
            final(self).areas == old(self).areas,
            final(self).data == old(self).data,
            forall|v: int| v != vpn ==> #[trigger] final(self).present(v) == old(self).present(v),
    {
        if !self.find_area(vpn, access) {
            return Err(SysError::EFAULT);
        }
        self.frames.insert(vpn, true);
        proof {
            Self::lemma_same_areas(self, old(self));
        }
        Ok(())
    }

    /// Handles a page fault at `va` for an access that needs `access`: fails
    /// with `EFAULT` when no mapping covers `va` or the mapping refuses the
    /// access, else installs the page. What user code reads does not change.
    pub fn handle_page_fault(&mut self, va: usize, access: PageFaultAccessType) -> (r: SysResult<
        (),
    >)
        ensures
            r is Ok <==> old(self).allows(va as int, access),
            r is Err ==> r == Err::<(), SysError>(SysError::EFAULT),
            r is Ok ==> final(self).present(vpn_of(va as int)),
            final(self).area_list() == old(self).area_list(),
            final(self).same_contents(old(self)),
    {
        self.fault_in(va / PAGE_SIZE, access)
    }

    /// Makes sure that every page of `[begin, begin + len)` can be accessed
    /// with `access`, faulting pages in on the way. The guard is opened for
    /// the walk and closed on every way out.
    pub fn just_ensure_user_area(
        &mut self,
        env: &mut HartEnv,
        begin: usize,
        len: usize,
        access: PageFaultAccessType,
    ) -> (r: SysResult<()>)
        requires
            old(env).sum_depth < usize::MAX,
        ensures
            r is Ok <==> old(self).range_allowed(begin as int, len as int, access),
            r is Err ==> r == Err::<(), SysError>(SysError::EFAULT),
            r is Ok ==> final(self).range_present(begin as int, len as int),
            final(self).area_list() == old(self).area_list(),
            final(self).same_contents(old(self)),
            forall|v: int| old(self).present(v) ==> #[trigger] final(self).present(v),
            *final(env) == *old(env),
    {
        if len == 0 {
            return Ok(());
        }
        if len - 1 > usize::MAX - begin {
            return Err(SysError::EFAULT);
        }
        let saved = env.trap;
        env.enter_user_access();
        let first = begin / PAGE_SIZE;
        let last = (begin + (len - 1)) / PAGE_SIZE;
        let mut vpn = first;
        while vpn <= last
            invariant
                first <= vpn <= last + 1,
                first == vpn_of(begin as int),
                last == vpn_of(begin + len - 1),
                last < usize::MAX,
                len > 0,
                begin + len - 1 <= usize::MAX,
                saved == old(env).trap,
                env.sum_depth == old(env).sum_depth + 1,
                self.areas == old(self).areas,
                self.data == old(self).data,
                forall|v: int| first <= v < vpn ==> #[trigger] self.present(v),
                forall|v: int| first <= v < vpn ==> #[trigger] self.page_allows(v, access),
                forall|v: int| old(self).present(v) ==> #[trigger] self.present(v),
            decreases last + 1 - vpn,
        {
            let ghost before = *self;
            if !(self.frames.contains_key(&vpn) && self.find_area(vpn, access)) {
                match self.fault_in(vpn, access) {
                    Ok(()) => {
                        proof {
                            Self::lemma_same_areas(self, &before);
                        }
                    },
                    Err(e) => {
                        env.leave_user_access(saved);
                        proof {
                            Self::lemma_same_areas(&before, old(self));
                            assert(!old(self).page_allows(vpn as int, access));
                            assert(vpn_of(begin as int) <= vpn as int <= vpn_of(begin as int + len as int - 1));
                        }
                        return Err(e);
                    },
                }
            }
            vpn = vpn + 1;
        }
        env.leave_user_access(saved);
        proof {
            Self::lemma_same_areas(self, old(self));
        }
        Ok(())
    }

    /// The byte at `va`.
    pub fn load(&self, va: usize) -> (r: u8)
        ensures
            r == self.byte(va as int),
    {
        match self.data.get(&va) {
            Some(b) => *b,
            None => 0,
        }
    }

    /// Stores `b` at `va`; no other byte changes.
    pub fn store(&mut self, va: usize, b: u8)
        ensures
            final(self).byte(va as int) == b,
            forall|x: int| x != va ==> #[trigger] final(self).byte(x) == old(self).byte(x),
            final(self).area_list() == old(self).area_list(),
            forall|v: int| #[trigger] final(self).present(v) == old(self).present(v),
    {
        self.data.insert(va, b);
    }

    /// Reads `n` bytes from `begin` after making sure that they are readable.
    pub fn read_bytes(&mut self, env: &mut HartEnv, begin: usize, n: usize) -> (r: SysResult<Vec<u8>>)
        requires
            old(env).sum_depth < usize::MAX,
        ensures
            r is Ok <==> old(self).range_allowed(begin as int, n as int, ro_spec()),
            r is Err ==> r == Err::<Vec<u8>, SysError>(SysError::EFAULT),
            r matches Ok(v) ==> v@ == old(self).bytes(begin as int, n as int),
            final(self).area_list() == old(self).area_list(),
            final(self).same_contents(old(self)),
            *final(env) == *old(env),
    {
        match self.just_ensure_user_area(env, begin, n, PageFaultAccessType::ro()) {
            Err(e) => return Err(e),
            Ok(()) => {},
        }
        let mut v: Vec<u8> = Vec::new();
        let mut i: usize = 0;
        while i < n
            invariant
                0 <= i <= n,
                n == 0 || begin + n - 1 <= usize::MAX,
                v@ == self.bytes(begin as int, i as int),
            decreases n - i,
        {
            v.push(self.load(begin + i));
            i = i + 1;
            assert(v@ =~= self.bytes(begin as int, i as int));
        }
        assert(v@ =~= old(self).bytes(begin as int, n as int));
        Ok(v)
    }

    /// Writes `src` at `begin` after making sure that the range is writable.
    /// Nothing is written when it is not.
    pub fn write_bytes(&mut self, env: &mut HartEnv, begin: usize, src: &[u8]) -> (r: SysResult<()>)
        requires
            old(env).sum_depth < usize::MAX,
        ensures
            r is Ok <==> old(self).range_allowed(begin as int, src@.len() as int, rw_spec()),
            r is Err ==> r == Err::<(), SysError>(SysError::EFAULT),
            r is Ok ==> forall|x: int| #[trigger]
                final(self).byte(x) == if begin <= x < begin + src@.len() {
                    src@[x - begin]
                } else {
                    old(self).byte(x)
                },
            r is Err ==> final(self).same_contents(old(self)),
            final(self).area_list() == old(self).area_list(),
            *final(env) == *old(env),
    {
        let n = src.len();
        match self.just_ensure_user_area(env, begin, n, PageFaultAccessType::rw()) {
            Err(e) => return Err(e),
            Ok(()) => {},
        }
        let ghost mid = *self;
        let mut i: usize = 0;
        while i < n
            invariant
                0 <= i <= n,
                n == src@.len(),
                n == 0 || begin + n - 1 <= usize::MAX,
                self.area_list() == old(self).area_list(),
                forall|x: int| #[trigger]
                    self.byte(x) == if begin <= x < begin + i {
                        src@[x - begin]
                    } else {
                        mid.byte(x)
                    },
                mid.same_contents(old(self)),
            decreases n - i,
        {
            self.store(begin + i, src[i]);
            i = i + 1;
        }
        Ok(())
    }
}

} // verus!
