//! Tasks, thread groups and the task registry.
use std::collections::HashMap;
use vstd::prelude::*;

use crate::error::{SysError, SysResult};
use crate::mm::{max_vpn, ro_spec, rw_spec, HartEnv, MemorySpace, PageFaultAccessType};
use crate::user_ptr::{cstr_at, cvec_at, value_at, written, Read, UserPtr, UserValue, Write};

verus! {

broadcast use vstd::std_specs::hash::group_hash_axioms;

/// A task identifier. Zero names no task.
pub type Tid = usize;

/// Number of the signal sent to a parent when a child terminates.
pub const SIGCHLD: usize = 17;

/// Saved user registers of a task.
#[derive(Clone, Copy)]
pub struct TrapContext {
    /// General-purpose registers `x0` to `x31`.
    pub user_x: [usize; 32],
    /// Address the task resumes at.
    pub sepc: usize,
    /// Kernel stack pointer used on the next trap.
    pub kernel_sp: usize,
}

impl TrapContext {
    /// A context with every register zero.
    pub fn new() -> (r: Self)
        ensures
            forall|i: int| 0 <= i < 32 ==> #[trigger] r.user_x@[i] == 0,
            r.sepc == 0,
            r.kernel_sp == 0,
    {
        TrapContext { user_x: [0usize; 32], sepc: 0, kernel_sp: 0 }
    }

    /// Sets the return-value register `a0`.
    pub fn set_user_a0(&mut self, v: usize)
        ensures
            final(self).user_x@ == old(self).user_x@.update(10, v),
            final(self).sepc == old(self).sepc,
            final(self).kernel_sp == old(self).kernel_sp,
    {
        self.user_x[10] = v;
    }

    /// Sets the user stack pointer `sp`.
    pub fn set_user_sp(&mut self, v: usize)
        ensures
            final(self).user_x@ == old(self).user_x@.update(2, v),
            final(self).sepc == old(self).sepc,
            final(self).kernel_sp == old(self).kernel_sp,
    {
        self.user_x[2] = v;
    }
}

/// What a signal carries.
#[derive(Debug, Clone, Copy, PartialEq, Eq, Structural)]
pub enum SigDetails {
    Empty,
    /// A child terminated.
    Chld { pid: Tid, status: i32, utime: u64, stime: u64 },
}

/// A pending signal.
#[derive(Debug, Clone, Copy, PartialEq, Eq, Structural)]
pub struct SigInfo {
    pub sig: usize,
    pub details: SigDetails,
}

/// Signal `sig` (numbered from 1) is masked by `mask`.
pub open spec fn sig_masked(mask: u64, sig: usize) -> bool {
    1 <= sig <= 64 && (mask >> ((sig - 1) as u64)) & 1 != 0
}

/// Time spent by a task, and by the children it has reaped.
#[derive(Debug, Clone, Copy, PartialEq, Eq, Structural)]
pub struct TimeStat {
    pub utime: u64,
    pub stime: u64,
    pub child_utime: u64,
    pub child_stime: u64,
}

/// `a + b`, or `u64::MAX` when that does not fit.
pub open spec fn sat_add(a: u64, b: u64) -> u64 {
    if a + b > u64::MAX {
        u64::MAX
    } else {
        (a + b) as u64
    }
}

fn saturating_add(a: u64, b: u64) -> (r: u64)
    ensures
        r == sat_add(a, b),
{
    if a > u64::MAX - b {
        u64::MAX
    } else {
        a + b
    }
}

impl TimeStat {
    pub fn new() -> (r: Self)
        ensures
            r == (TimeStat { utime: 0, stime: 0, child_utime: 0, child_stime: 0 }),
    {
        TimeStat { utime: 0, stime: 0, child_utime: 0, child_stime: 0 }
    }

    pub open spec fn user_system_spec(&self) -> (u64, u64) {
        (self.utime, self.stime)
    }

    /// User and system time of the task itself.
    pub fn user_system_time(&self) -> (r: (u64, u64))
        ensures
            r == self.user_system_spec(),
    {
        (self.utime, self.stime)
    }

    /// Adds a reaped child's user and system time to the children's totals.
    pub fn update_child_time(&mut self, t: (u64, u64))
        ensures
            *final(self) == (TimeStat {
                child_utime: sat_add(old(self).child_utime, t.0),
                child_stime: sat_add(old(self).child_stime, t.1),
                ..*old(self)
            }),
    {
        self.child_utime = saturating_add(self.child_utime, t.0);
        self.child_stime = saturating_add(self.child_stime, t.1);
    }
}

/// A task: a thread of some process.
pub struct Task {
    pub tid: Tid,
    /// Tid of the thread-group leader.
    pub pid: Tid,
    /// Pid of the parent process; zero for none.
    pub ppid: Tid,
    pub pgid: Tid,
    /// Tids of the child processes not yet reaped, oldest first.
    pub children: Vec<Tid>,
    /// Members of the thread group, the leader first; kept on the leader.
    pub threads: Vec<Tid>,
    pub zombie: bool,
    /// Exit status: the status in bits 8..16, a signal in the low bits.
    pub exit_code: i32,
    /// Signal sent to the parent on termination.
    pub exit_signal: usize,
    pub trap_cx: TrapContext,
    /// Identifier of the address space.
    pub space: usize,
    /// Identifier of the file table.
    pub files: usize,
    /// Identifier of the signal-handler table.
    pub sighand: usize,
    pub sig_pending: Vec<SigInfo>,
    pub sig_blocked: u64,
    pub time: TimeStat,
    pub clear_child_tid: Option<usize>,
}

impl Task {
    pub open spec fn is_leader_spec(&self) -> bool {
        self.pid == self.tid
    }

    /// The task leads its thread group.
    pub fn is_leader(&self) -> (r: bool)
        ensures
            r == self.is_leader_spec(),
    {
        self.pid == self.tid
    }
}

/// The registry of live and zombie tasks, with the address spaces they use.
pub struct TaskManager {
    tasks: HashMap<Tid, Task>,
    spaces: HashMap<usize, MemorySpace>,
    next_tid: Tid,
    next_space: usize,
}

impl TaskManager {
    pub closed spec fn tasks(&self) -> Map<Tid, Task> {
        self.tasks@
    }

    pub closed spec fn spaces(&self) -> Map<usize, MemorySpace> {
        self.spaces@
    }

    /// The tid that the next new task gets.
    pub closed spec fn next_tid_spec(&self) -> Tid {
        self.next_tid
    }

    pub closed spec fn next_space_spec(&self) -> usize {
        self.next_space
    }

    /// Every task is filed under its own tid, which is nonzero and below the
    /// next tid, and uses an address space of the registry.
    pub open spec fn wf(&self) -> bool {
        &&& forall|t: Tid| #[trigger]
            self.tasks().contains_key(t) ==> self.tasks()[t].tid == t && 0 < t
                < self.next_tid_spec() && self.spaces().contains_key(self.tasks()[t].space)
        &&& forall|s: usize| #[trigger]
            self.spaces().contains_key(s) ==> self.spaces()[s].wf() && s < self.next_space_spec()
        &&& 0 < self.next_tid_spec()
    }

    /// An empty registry.
    pub fn new() -> (r: Self)
        ensures
            r.wf(),
            r.tasks() == Map::<Tid, Task>::empty(),
            r.spaces() == Map::<usize, MemorySpace>::empty(),
            r.next_tid_spec() == 1,
            r.next_space_spec() == 0,
    {
        TaskManager { tasks: HashMap::new(), spaces: HashMap::new(), next_tid: 1, next_space: 0 }
    }

    /// Whether a task is filed under `tid`.
    pub fn contains(&self, tid: Tid) -> (r: bool)
        ensures
            r == self.tasks().contains_key(tid),
    {
        self.tasks.contains_key(&tid)
    }

    /// The task filed under `tid`.
    pub fn get(&self, tid: Tid) -> (r: Option<&Task>)
        ensures
            r matches Some(t) ==> self.tasks().contains_key(tid) && *t == self.tasks()[tid],
            r is None ==> !self.tasks().contains_key(tid),
    {
        self.tasks.get(&tid)
    }

    /// The address space filed under `id`.
    pub fn space(&self, id: usize) -> (r: Option<&MemorySpace>)
        ensures
            r matches Some(m) ==> self.spaces().contains_key(id) && *m == self.spaces()[id],
            r is None ==> !self.spaces().contains_key(id),
    {
        self.spaces.get(&id)
    }

    pub(crate) fn take(&mut self, tid: Tid) -> (r: Task)
        requires
            old(self).wf(),
            old(self).tasks().contains_key(tid),
        ensures
            final(self).wf(),
            r == old(self).tasks()[tid],
            final(self).tasks() == old(self).tasks().remove(tid),
            final(self).spaces() == old(self).spaces(),
            final(self).next_tid_spec() == old(self).next_tid_spec(),
            final(self).next_space_spec() == old(self).next_space_spec(),
    {
        self.remove(tid).unwrap()
    }

    pub(crate) fn put(&mut self, t: Task)
        requires
            old(self).wf(),
            0 < t.tid < old(self).next_tid_spec(),
            old(self).spaces().contains_key(t.space),
        ensures
            final(self).wf(),
            final(self).tasks() == old(self).tasks().insert(t.tid, t),
            final(self).spaces() == old(self).spaces(),
            final(self).next_tid_spec() == old(self).next_tid_spec(),
            final(self).next_space_spec() == old(self).next_space_spec(),
    {
        let tid = t.tid;
        self.tasks.insert(tid, t);
        assert forall|u: Tid| #[trigger] self.tasks().contains_key(u) implies self.tasks()[u].tid
            == u && 0 < u < self.next_tid_spec() && self.spaces().contains_key(
            self.tasks()[u].space,
        ) by {
            if u != tid {
                assert(old(self).tasks().contains_key(u));
            }
        }
        assert(self.spaces() == old(self).spaces());
        assert forall|s: usize| #[trigger] self.spaces().contains_key(s) implies self.spaces()[s].wf()
            && s < self.next_space_spec() by {
            assert(old(self).spaces().contains_key(s));
        }
    }

    /// Takes address space `id` out of the registry for an update.
    fn take_space(&mut self, id: usize) -> (r: MemorySpace)
        requires
            old(self).spaces().contains_key(id),
        ensures
            r == old(self).spaces()[id],
            final(self).spaces() == old(self).spaces().remove(id),
            final(self).tasks() == old(self).tasks(),
            final(self).next_tid_spec() == old(self).next_tid_spec(),
            final(self).next_space_spec() == old(self).next_space_spec(),
    {
        self.spaces.remove(&id).unwrap()
    }

    /// Files address space `id` back after an update.
    fn put_space(&mut self, id: usize, mm: MemorySpace)
        requires
            id < old(self).next_space_spec(),
            mm.wf(),
            forall|t: Tid| #[trigger]
                old(self).tasks().contains_key(t) ==> old(self).tasks()[t].tid == t && 0 < t
                    < old(self).next_tid_spec() && (old(self).spaces().contains_key(
                    old(self).tasks()[t].space,
                ) || old(self).tasks()[t].space == id),
            forall|s: usize| #[trigger]
                old(self).spaces().contains_key(s) ==> old(self).spaces()[s].wf() && s < old(
                    self,
                ).next_space_spec(),
            0 < old(self).next_tid_spec(),
        ensures
            final(self).wf(),
            final(self).spaces() == old(self).spaces().insert(id, mm),
            final(self).tasks() == old(self).tasks(),
            final(self).next_tid_spec() == old(self).next_tid_spec(),
            final(self).next_space_spec() == old(self).next_space_spec(),
    {
        self.spaces.insert(id, mm);
        assert forall|s: usize| #[trigger] self.spaces().contains_key(s) implies self.spaces()[s].wf()
            && s < self.next_space_spec() by {
            if s != id {
                assert(old(self).spaces().contains_key(s));
            }
        }
        assert forall|u: Tid| #[trigger] self.tasks().contains_key(u) implies self.tasks()[u].tid
            == u && 0 < u < self.next_tid_spec() && self.spaces().contains_key(
            self.tasks()[u].space,
        ) by {
            assert(old(self).tasks().contains_key(u));
        }
    }

    /// Reads a value from the address space of task `tid`.
    pub fn read_user<T: UserValue, P: Read>(
        &mut self,
        tid: Tid,
        ptr: UserPtr<T, P>,
        env: &mut HartEnv,
    ) -> (r: SysResult<T>)
        requires
            old(self).wf(),
            old(self).tasks().contains_key(tid),
            old(env).sum_depth < usize::MAX,
        ensures
            final(self).wf(),
            final(self).tasks() == old(self).tasks(),
            final(self).next_tid_spec() == old(self).next_tid_spec(),
            final(self).spaces().dom() == old(self).spaces().dom(),
            forall|s: usize| #[trigger]
                final(self).spaces().contains_key(s) ==> final(self).spaces()[s].same_contents(
                    &old(self).spaces()[s],
                ) && final(self).spaces()[s].area_list() == old(self).spaces()[s].area_list(),
            ({
                let mm = old(self).spaces()[old(self).tasks()[tid].space];
                &&& r is Ok <==> ptr.addr() != 0 && mm.range_allowed(
                    ptr.addr() as int,
                    T::size_spec() as int,
                    ro_spec(),
                )
                &&& r is Err ==> r == Err::<T, SysError>(SysError::EFAULT)
                &&& r matches Ok(v) ==> v == value_at::<T>(&mm, ptr.addr() as int)
            }),
            *final(env) == *old(env),
    {
        let id = self.tasks.get(&tid).unwrap().space;
        let mut mm = self.take_space(id);
        let r = ptr.read(&mut mm, env);
        self.put_space(id, mm);
        r
    }

    /// Writes a value into the address space of task `tid`.
    pub fn write_user<T: UserValue, P: Write>(
        &mut self,
        tid: Tid,
        ptr: UserPtr<T, P>,
        v: T,
        env: &mut HartEnv,
    ) -> (r: SysResult<()>)
        requires
            old(self).wf(),
            old(self).tasks().contains_key(tid),
            old(env).sum_depth < usize::MAX,
        ensures
            final(self).wf(),
            final(self).tasks() == old(self).tasks(),
            final(self).next_tid_spec() == old(self).next_tid_spec(),
            final(self).spaces().dom() == old(self).spaces().dom(),
            ({
                let id = old(self).tasks()[tid].space;
                let mm = old(self).spaces()[id];
                &&& r is Ok <==> mm.range_allowed(ptr.addr() as int, T::size_spec() as int, rw_spec())
                &&& r is Err ==> r == Err::<(), SysError>(SysError::EFAULT)
                &&& r is Ok ==> written(&mm, &final(self).spaces()[id], ptr.addr() as int, T::encode(v))
                &&& r is Err ==> final(self).spaces()[id].same_contents(&mm)
                &&& final(self).spaces()[id].area_list() == mm.area_list()
                &&& forall|s: usize| s != id ==> #[trigger] final(self).spaces()[s] == old(self).spaces()[s]
            }),
            *final(env) == *old(env),
    {
        let id = self.tasks.get(&tid).unwrap().space;
        let mut mm = self.take_space(id);
        let r = ptr.write(&mut mm, env, v);
        self.put_space(id, mm);
        assert(self.spaces().dom() =~= old(self).spaces().dom());
        r
    }

    /// Reads a null-terminated string from the address space of task `tid`.
    pub fn read_user_cstr<P: Read>(
        &mut self,
        tid: Tid,
        ptr: UserPtr<u8, P>,
        env: &mut HartEnv,
    ) -> (r: SysResult<String>)
        requires
            old(self).wf(),
            old(self).tasks().contains_key(tid),
            old(env).sum_depth < usize::MAX,
        ensures
            final(self).wf(),
            final(self).tasks() == old(self).tasks(),
            final(self).next_tid_spec() == old(self).next_tid_spec(),
            final(self).spaces().dom() == old(self).spaces().dom(),
            forall|s: usize| #[trigger]
                final(self).spaces().contains_key(s) ==> final(self).spaces()[s].same_contents(
                    &old(self).spaces()[s],
                ) && final(self).spaces()[s].area_list() == old(self).spaces()[s].area_list(),
            r matches Ok(s) ==> cstr_at(&old(self).spaces()[old(self).tasks()[tid].space], ptr.addr() as int, s@),
            r is Err ==> r == Err::<String, SysError>(SysError::EFAULT) || r == Err::<String, SysError>(SysError::EINVAL),
            (exists|s: Seq<char>| cstr_at(&old(self).spaces()[old(self).tasks()[tid].space], ptr.addr() as int, s)) ==> r is Ok,
            !old(self).spaces()[old(self).tasks()[tid].space].allows(ptr.addr() as int, ro_spec()) ==> r == Err::<String, SysError>(SysError::EFAULT),
            *final(env) == *old(env),
    {
        let id = self.tasks.get(&tid).unwrap().space;
        let mut mm = self.take_space(id);
        let r = ptr.read_cstr(&mut mm, env);
        self.put_space(id, mm);
        r
    }

    /// Reads a null-terminated pointer vector from the address space of
    /// task `tid`.
    pub fn read_user_cvec<P: Read>(
        &mut self,
        tid: Tid,
        ptr: UserPtr<usize, P>,
        env: &mut HartEnv,
    ) -> (r: SysResult<Vec<usize>>)
        requires
            old(self).wf(),
            old(self).tasks().contains_key(tid),
            old(env).sum_depth < usize::MAX,
        ensures
            final(self).wf(),
            final(self).tasks() == old(self).tasks(),
            final(self).next_tid_spec() == old(self).next_tid_spec(),
            final(self).spaces().dom() == old(self).spaces().dom(),
            forall|s: usize| #[trigger]
                final(self).spaces().contains_key(s) ==> final(self).spaces()[s].same_contents(
                    &old(self).spaces()[s],
                ) && final(self).spaces()[s].area_list() == old(self).spaces()[s].area_list(),
            r matches Ok(v) ==> cvec_at(&old(self).spaces()[old(self).tasks()[tid].space], ptr.addr() as int, v@),
            r is Err ==> r == Err::<Vec<usize>, SysError>(SysError::EFAULT) || r == Err::<Vec<usize>, SysError>(SysError::EINVAL),
            (exists|v: Seq<usize>| cvec_at(&old(self).spaces()[old(self).tasks()[tid].space], ptr.addr() as int, v)) ==> r is Ok,
            *final(env) == *old(env),
    {
        let id = self.tasks.get(&tid).unwrap().space;
        let mut mm = self.take_space(id);
        let r = ptr.read_cvec(&mut mm, env);
        self.put_space(id, mm);
        r
    }

    /// Maps pages `[start_vpn, end_vpn)` into the address space of task
    /// `tid`.
    pub fn map_user_area(
        &mut self,
        tid: Tid,
        start_vpn: usize,
        end_vpn: usize,
        perm: PageFaultAccessType,
    )
        requires
            old(self).wf(),
            old(self).tasks().contains_key(tid),
            1 <= start_vpn < end_vpn <= max_vpn() + 1,
        ensures
            final(self).wf(),
            final(self).tasks() == old(self).tasks(),
            final(self).next_tid_spec() == old(self).next_tid_spec(),
            final(self).spaces().dom() == old(self).spaces().dom(),
    {
        let id = self.tasks.get(&tid).unwrap().space;
        let mut mm = self.take_space(id);
        mm.map_area(start_vpn, end_vpn, perm);
        self.put_space(id, mm);
        assert(self.spaces().dom() =~= old(self).spaces().dom());
    }

    /// The tid that the next new task gets.
    pub fn next_tid(&self) -> (r: Tid)
        ensures
            r == self.next_tid_spec(),
    {
        self.next_tid
    }

    /// Reserves the next tid.
    pub(crate) fn bump_tid(&mut self)
        requires
            old(self).wf(),
            old(self).next_tid_spec() < usize::MAX,
        ensures
            final(self).wf(),
            final(self).next_tid_spec() == old(self).next_tid_spec() + 1,
            final(self).tasks() == old(self).tasks(),
            final(self).spaces() == old(self).spaces(),
            final(self).next_space_spec() == old(self).next_space_spec(),
    {
        self.next_tid = self.next_tid + 1;
        assert forall|u: Tid| #[trigger] self.tasks().contains_key(u) implies self.tasks()[u].tid
            == u && 0 < u < self.next_tid_spec() && self.spaces().contains_key(
            self.tasks()[u].space,
        ) by {
            assert(old(self).tasks().contains_key(u));
        }
        assert forall|s: usize| #[trigger] self.spaces().contains_key(s) implies self.spaces()[s].wf()
            && s < self.next_space_spec() by {
            assert(old(self).spaces().contains_key(s));
        }
    }

    /// Removes the task filed under `tid` from the registry.
    pub fn remove(&mut self, tid: Tid) -> (r: Option<Task>)
        requires
            old(self).wf(),
        ensures
            final(self).wf(),
            final(self).tasks() == old(self).tasks().remove(tid),
            final(self).spaces() == old(self).spaces(),
            final(self).next_tid_spec() == old(self).next_tid_spec(),
            final(self).next_space_spec() == old(self).next_space_spec(),
            r matches Some(t) ==> old(self).tasks().contains_key(tid) && t == old(self).tasks()[tid],
            r is None ==> !old(self).tasks().contains_key(tid),
    {
        let r = self.tasks.remove(&tid);
        assert(self.tasks() =~= old(self).tasks().remove(tid));
        assert forall|t: Tid| #[trigger] self.tasks().contains_key(t) implies self.tasks()[t].tid
            == t && 0 < t < self.next_tid_spec() && self.spaces().contains_key(
            self.tasks()[t].space,
        ) by {
            assert(old(self).tasks().contains_key(t));
        }
        assert(self.spaces() == old(self).spaces());
        assert forall|s: usize| #[trigger] self.spaces().contains_key(s) implies self.spaces()[s].wf()
            && s < self.next_space_spec() by {
            assert(old(self).spaces().contains_key(s));
        }
        r
    }

    /// Files a new address space and returns its identifier.
    pub fn add_space(&mut self, mm: MemorySpace) -> (r: SysResult<usize>)
        requires
            old(self).wf(),
            mm.wf(),
        ensures
            final(self).wf(),
            final(self).tasks() == old(self).tasks(),
            final(self).next_tid_spec() == old(self).next_tid_spec(),
            r matches Ok(id) ==> !old(self).spaces().contains_key(id) && final(self).spaces()
                == old(self).spaces().insert(id, mm),
            r is Err ==> r == Err::<usize, SysError>(SysError::ENOMEM) && final(self).spaces()
                == old(self).spaces(),
            r is Err <==> old(self).next_space_spec() == usize::MAX,
            r is Ok ==> final(self).next_space_spec() == old(self).next_space_spec() + 1,
    {
        if self.next_space == usize::MAX {
            return Err(SysError::ENOMEM);
        }
        let id = self.next_space;
        self.spaces.insert(id, mm);
        self.next_space = self.next_space + 1;
        assert forall|s: usize| #[trigger] self.spaces().contains_key(s) implies self.spaces()[s].wf()
            && s < self.next_space_spec() by {
            if s != id {
                assert(old(self).spaces().contains_key(s));
            }
        }
        assert forall|t: Tid| #[trigger] self.tasks().contains_key(t) implies self.tasks()[t].tid
            == t && 0 < t < self.next_tid_spec() && self.spaces().contains_key(
            self.tasks()[t].space,
        ) by {
            assert(old(self).tasks().contains_key(t));
        }
        Ok(id)
    }

    /// Creates the first task of a new process, with no parent, in a new
    /// address space `mm`.
    pub fn create_process(&mut self, mm: MemorySpace) -> (r: SysResult<Tid>)
        requires
            old(self).wf(),
            mm.wf(),
        ensures
            final(self).wf(),
            r matches Ok(t) ==> {
                &&& final(self).next_tid_spec() == t + 1
                &&& final(self).next_space_spec() == old(self).next_space_spec() + 1
                &&& final(self).spaces() == old(self).spaces().insert(final(self).tasks()[t].space, mm)
                &&& !old(self).spaces().contains_key(final(self).tasks()[t].space)
                &&& t == old(self).next_tid_spec()
                &&& !old(self).tasks().contains_key(t)
                &&& final(self).tasks().contains_key(t)
                &&& final(self).tasks()[t].pid == t
                &&& final(self).tasks()[t].ppid == 0
                &&& final(self).tasks()[t].pgid == t
                &&& !final(self).tasks()[t].zombie
                &&& final(self).tasks()[t].children@ == Seq::<Tid>::empty()
                &&& final(self).tasks()[t].threads@ == seq![t]
                &&& final(self).spaces()[final(self).tasks()[t].space] == mm
                &&& forall|u: Tid| u != t ==> #[trigger] final(self).tasks().contains_key(u)
                    == old(self).tasks().contains_key(u)
                &&& forall|u: Tid|
                    u != t && old(self).tasks().contains_key(u) ==> #[trigger] final(self).tasks()[u]
                        == old(self).tasks()[u]
            },
            r is Err ==> r == Err::<Tid, SysError>(SysError::ENOMEM) && final(self).tasks()
                == old(self).tasks(),
            r is Err <==> old(self).next_tid_spec() == usize::MAX || old(self).next_space_spec()
                == usize::MAX,
    {
        if self.next_tid == usize::MAX {
            return Err(SysError::ENOMEM);
        }
        let space = match self.add_space(mm) {
            Ok(s) => s,
            Err(e) => return Err(e),
        };
        let tid = self.next_tid;
        let t = Task {
            tid,
            pid: tid,
            ppid: 0,
            pgid: tid,
            children: Vec::new(),
            threads: vec![tid],
            zombie: false,
            exit_code: 0,
            exit_signal: SIGCHLD,
            trap_cx: TrapContext::new(),
            space,
            files: tid,
            sighand: tid,
            sig_pending: Vec::new(),
            sig_blocked: 0,
            time: TimeStat::new(),
            clear_child_tid: None,
        };
        self.next_tid = self.next_tid + 1;
        self.put(t);
        Ok(tid)
    }
}

} // verus!
