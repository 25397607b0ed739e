//! Process system calls: exit, wait4, clone, execve and the id queries.
use vstd::prelude::*;
use vstd::string::StrSliceExecFns;

use crate::error::{SysError, SysResult, SyscallResult};
use crate::mm::{ro_spec, rw_spec, vpn_of, HartEnv, MemorySpace};
use crate::task::{
    sat_add, sig_masked, SigDetails, SigInfo, Task, TaskManager, Tid, TimeStat, TrapContext, SIGCHLD,
};
use crate::user_ptr::{
    lemma_cvec_unique, cstr_at, cvec_at, value_at, written, UserPtr, UserReadPtr, UserValue, UserWritePtr,
};

verus! {

broadcast use vstd::std_specs::hash::group_hash_axioms;

/// Share the address space.
pub const CLONE_VM: usize = 0x100;
/// Share filesystem information.
pub const CLONE_FS: usize = 0x200;
/// Share the file table.
pub const CLONE_FILES: usize = 0x400;
/// Share the signal handlers.
pub const CLONE_SIGHAND: usize = 0x800;
/// Keep the parent of the caller.
pub const CLONE_PARENT: usize = 0x8000;
/// Join the caller's thread group.
pub const CLONE_THREAD: usize = 0x10000;
/// Set the thread-local storage pointer.
pub const CLONE_SETTLS: usize = 0x80000;
/// Store the child's tid in the parent's memory.
pub const CLONE_PARENT_SETTID: usize = 0x100000;
/// Clear the child's tid in its memory when it exits.
pub const CLONE_CHILD_CLEARTID: usize = 0x200000;
/// Store the child's tid in the child's memory.
pub const CLONE_CHILD_SETTID: usize = 0x1000000;
/// Every clone flag above.
pub const CLONE_KNOWN: usize = 0x1398f00;

/// Do not block in `wait4`.
pub const WNOHANG: i32 = 1;
/// Report stopped children.
pub const WUNTRACED: i32 = 2;
/// Report continued children.
pub const WCONTINUED: i32 = 8;

/// The wait status recorded for a normal exit with `code`.
pub open spec fn exit_status(code: i32) -> i32 {
    (code & 0xff) << 8i32
}

fn encode_exit_code(code: i32) -> (r: i32)
    ensures
        r == exit_status(code),
{
    (code & 0xff) << 8i32
}

/// `_exit`: the caller becomes a zombie. A thread-group leader records the
/// exit status and its parent, if registered, is sent `SIGCHLD` with it.
pub fn sys_exit(tm: &mut TaskManager, cur: Tid, exit_code: i32) -> (r: SyscallResult)
    requires
        old(tm).wf(),
        old(tm).tasks().contains_key(cur),
    ensures
        final(tm).wf(),
        r == Ok::<usize, SysError>(0),
        final(tm).spaces() == old(tm).spaces(),
        ({
            let t = old(tm).tasks()[cur];
            let t2 = if t.is_leader_spec() {
                Task { zombie: true, exit_code: exit_status(exit_code), ..t }
            } else {
                Task { zombie: true, ..t }
            };
            let info = SigInfo {
                sig: SIGCHLD,
                details: SigDetails::Chld {
                    pid: cur,
                    status: exit_status(exit_code),
                    utime: t.time.utime,
                    stime: t.time.stime,
                },
            };
            let notify = t.is_leader_spec() && t.ppid != cur && old(tm).tasks().contains_key(t.ppid);
            &&& final(tm).tasks()[cur] == t2
            &&& final(tm).tasks().dom() == old(tm).tasks().dom()
            &&& forall|u: Tid|
                u != cur && u != t.ppid && #[trigger] old(tm).tasks().contains_key(u)
                    ==> final(tm).tasks()[u] == old(tm).tasks()[u]
            &&& notify ==> final(tm).tasks()[t.ppid] == (Task {
                sig_pending: final(tm).tasks()[t.ppid].sig_pending,
                ..old(tm).tasks()[t.ppid]
            })
            &&& notify ==> final(tm).tasks()[t.ppid].sig_pending@
                == old(tm).tasks()[t.ppid].sig_pending@.push(info)
            &&& !notify && t.ppid != cur && old(tm).tasks().contains_key(t.ppid)
                ==> final(tm).tasks()[t.ppid] == old(tm).tasks()[t.ppid]
        }),
{
    let mut t = tm.take(cur);
    let leader = t.is_leader();
    t.zombie = true;
    let status = encode_exit_code(exit_code);
    if leader {
        t.exit_code = status;
    }
    let ppid = t.ppid;
    let info = SigInfo {
        sig: SIGCHLD,
        details: SigDetails::Chld { pid: cur, status, utime: t.time.utime, stime: t.time.stime },
    };
    tm.put(t);
    if leader && ppid != cur && tm.contains(ppid) {
        let mut p = tm.take(ppid);
        p.sig_pending.push(info);
        tm.put(p);
    }
    assert(tm.tasks().dom() =~= old(tm).tasks().dom());
    Ok(0)
}

/// `gettid`: the caller's tid.
pub fn sys_gettid(tm: &TaskManager, cur: Tid) -> (r: SyscallResult)
    requires
        tm.tasks().contains_key(cur),
    ensures
        r == Ok::<usize, SysError>(cur),
{
    Ok(cur)
}

/// `getpid`: the caller's process id, that is its thread-group leader's tid.
pub fn sys_getpid(tm: &TaskManager, cur: Tid) -> (r: SyscallResult)
    requires
        tm.tasks().contains_key(cur),
    ensures
        r == Ok::<usize, SysError>(tm.tasks()[cur].pid),
{
    Ok(tm.get(cur).unwrap().pid)
}

/// `getppid`: the process id of the caller's parent.
pub fn sys_getppid(tm: &TaskManager, cur: Tid) -> (r: SyscallResult)
    requires
        tm.tasks().contains_key(cur),
    ensures
        r == Ok::<usize, SysError>(tm.tasks()[cur].ppid),
{
    Ok(tm.get(cur).unwrap().ppid)
}

/// `set_tid_address`: records `tidptr` as the caller's `clear_child_tid`
/// and returns the caller's tid.
pub fn sys_set_tid_address(tm: &mut TaskManager, cur: Tid, tidptr: usize) -> (r: SyscallResult)
    requires
        old(tm).wf(),
        old(tm).tasks().contains_key(cur),
    ensures
        final(tm).wf(),
        r == Ok::<usize, SysError>(cur),
        final(tm).tasks() == old(tm).tasks().insert(
            cur,
            Task { clear_child_tid: Some(tidptr), ..old(tm).tasks()[cur] },
        ),
        final(tm).spaces() == old(tm).spaces(),
{
    let mut t = tm.take(cur);
    t.clear_child_tid = Some(tidptr);
    tm.put(t);
    assert(tm.tasks() =~= old(tm).tasks().insert(
        cur,
        Task { clear_child_tid: Some(tidptr), ..old(tm).tasks()[cur] },
    ));
    Ok(cur)
}

/// The task a `pid` argument names: the caller for zero.
pub open spec fn pid_target(tm: &TaskManager, cur: Tid, pid: usize) -> Tid {
    if pid == 0 {
        cur
    } else {
        pid
    }
}

/// `getpgid`: the process id of the task that `pid` names (the caller for
/// zero); `ESRCH` when there is no such task.
pub fn sys_getpgid(tm: &TaskManager, cur: Tid, pid: usize) -> (r: SyscallResult)
    requires
        tm.tasks().contains_key(cur),
    ensures
        tm.tasks().contains_key(pid_target(tm, cur, pid)) ==> r == Ok::<usize, SysError>(
            tm.tasks()[pid_target(tm, cur, pid)].pid,
        ),
        !tm.tasks().contains_key(pid_target(tm, cur, pid)) ==> r == Err::<usize, SysError>(
            SysError::ESRCH,
        ),
{
    let target = if pid == 0 {
        cur
    } else {
        pid
    };
    match tm.get(target) {
        Some(t) => Ok(t.pid),
        None => Err(SysError::ESRCH),
    }
}

/// `setpgid`: looks up the task that `pid` names like `getpgid` and returns
/// its process id; process groups are left as they are.
pub fn sys_setpgid(tm: &TaskManager, cur: Tid, pid: usize, pgid: usize) -> (r: SyscallResult)
    requires
        tm.tasks().contains_key(cur),
    ensures
        tm.tasks().contains_key(pid_target(tm, cur, pid)) ==> r == Ok::<usize, SysError>(
            tm.tasks()[pid_target(tm, cur, pid)].pid,
        ),
        !tm.tasks().contains_key(pid_target(tm, cur, pid)) ==> r == Err::<usize, SysError>(
            SysError::ESRCH,
        ),
{
    sys_getpgid(tm, cur, pid)
}

/// `getuid`: every task runs as root.
pub fn sys_getuid() -> (r: SyscallResult)
    ensures
        r == Ok::<usize, SysError>(0),
{
    Ok(0)
}

/// `geteuid`: every task runs as root.
pub fn sys_geteuid() -> (r: SyscallResult)
    ensures
        r == Ok::<usize, SysError>(0),
{
    Ok(0)
}

/// The clone flags, without the exit signal in the low byte, are all known
/// and consistent: a thread shares the signal handlers, and shared handlers
/// need a shared address space.
pub open spec fn clone_flags_ok(flags: usize) -> bool {
    &&& (flags & !0xffusize) & !CLONE_KNOWN == 0
    &&& (flags & CLONE_THREAD != 0 ==> flags & CLONE_SIGHAND != 0)
    &&& (flags & CLONE_SIGHAND != 0 ==> flags & CLONE_VM != 0)
}

/// Whether `clone` accepts `flags`.
pub fn check_clone_flags(flags: usize) -> (r: bool)
    ensures
        r == clone_flags_ok(flags),
{
    (flags & !0xffusize) & !CLONE_KNOWN == 0 && (flags & CLONE_THREAD == 0 || flags & CLONE_SIGHAND
        != 0) && (flags & CLONE_SIGHAND == 0 || flags & CLONE_VM != 0)
}

/// The task that `clone` makes: a copy of `parent` with a fresh tid, which
/// sees zero as the call's result.
pub open spec fn cloned_task(parent: Task, flags: usize, stack: usize, ctid: usize, tid: Tid, child: Task) -> bool {
    let thread = flags & CLONE_THREAD != 0;
    &&& child.tid == tid
    &&& child.pid == (if thread { parent.pid } else { tid })
    &&& child.ppid == (if thread { parent.ppid } else { parent.pid })
    &&& child.pgid == parent.pgid
    &&& child.children@ == Seq::<Tid>::empty()
    &&& child.threads@ == (if thread { Seq::<Tid>::empty() } else { seq![tid] })
    &&& !child.zombie
    &&& child.exit_code == 0
    &&& child.exit_signal == flags & 0xff
    &&& child.trap_cx.user_x@ == (if stack != 0 {
        parent.trap_cx.user_x@.update(10, 0usize).update(2, stack)
    } else {
        parent.trap_cx.user_x@.update(10, 0usize)
    })
    &&& child.trap_cx.sepc == parent.trap_cx.sepc
    &&& child.trap_cx.kernel_sp == parent.trap_cx.kernel_sp
    &&& (flags & CLONE_VM != 0 ==> child.space == parent.space)
    &&& child.files == (if flags & CLONE_FILES != 0 { parent.files } else { tid })
    &&& child.sighand == (if flags & CLONE_SIGHAND != 0 { parent.sighand } else { tid })
    &&& child.sig_pending@ == Seq::<SigInfo>::empty()
    &&& child.sig_blocked == parent.sig_blocked
    &&& child.time == (TimeStat { utime: 0, stime: 0, child_utime: 0, child_stime: 0 })
    &&& child.clear_child_tid == (if flags & CLONE_CHILD_CLEARTID != 0 { Some(ctid) } else { None })
}

/// `clone`: creates a task from the caller. Without `CLONE_THREAD` the new
/// task starts a process that is a child of the caller's; with it, the task
/// joins the caller's thread group. Without `CLONE_VM` it gets a copy of the
/// caller's address space. Fails with `EINVAL` on unknown or inconsistent
/// flags, and with `ENOMEM` when no tid or space id is left.
pub fn sys_clone(
    tm: &mut TaskManager,
    cur: Tid,
    flags: usize,
    stack: usize,
    parent_tid_ptr: usize,
    tls_ptr: usize,
    child_tid_ptr: usize,
) -> (r: SyscallResult)
    requires
        old(tm).wf(),
        old(tm).tasks().contains_key(cur),
    ensures
        final(tm).wf(),
        !clone_flags_ok(flags) ==> r == Err::<usize, SysError>(SysError::EINVAL) && *final(tm)
            == *old(tm),
        r is Err ==> r == Err::<usize, SysError>(SysError::EINVAL) || r == Err::<usize, SysError>(
            SysError::ENOMEM,
        ),
        r is Err ==> final(tm).tasks() == old(tm).tasks(),
        clone_flags_ok(flags) && old(tm).next_tid_spec() < usize::MAX && (flags & CLONE_VM != 0
            || old(tm).next_space_spec() < usize::MAX) ==> r is Ok,
        r matches Ok(t) ==> {
            let p = old(tm).tasks()[cur];
            let c = final(tm).tasks()[t];
            let thread = flags & CLONE_THREAD != 0;
            &&& clone_flags_ok(flags)
            &&& t == old(tm).next_tid_spec()
            &&& !old(tm).tasks().contains_key(t)
            &&& final(tm).tasks().contains_key(t)
            &&& cloned_task(p, flags, stack, child_tid_ptr, t, c)
            &&& (flags & CLONE_VM == 0 ==> !old(tm).spaces().contains_key(c.space)
                && final(tm).spaces()[c.space].same_contents(&old(tm).spaces()[p.space])
                && final(tm).spaces()[c.space].area_list() == old(tm).spaces()[p.space].area_list())
            &&& !thread ==> final(tm).tasks()[cur].children@ == p.children@.push(t)
                && final(tm).tasks()[cur] == (Task { children: final(tm).tasks()[cur].children, ..p })
            &&& thread && p.pid != t && old(tm).tasks().contains_key(p.pid) ==> final(tm).tasks()[p.pid].threads@
                == old(tm).tasks()[p.pid].threads@.push(t)
            &&& forall|u: Tid| #[trigger] final(tm).tasks().contains_key(u) <==> (
                old(tm).tasks().contains_key(u) || u == t)
            &&& final(tm).next_tid_spec() == t + 1
            &&& forall|u: Tid| #[trigger] old(tm).tasks().contains_key(u) && u != cur && u != p.pid
                ==> final(tm).tasks()[u] == old(tm).tasks()[u]
            &&& thread && cur != p.pid ==> final(tm).tasks()[cur] == p
            &&& thread && p.pid != t && old(tm).tasks().contains_key(p.pid) ==> final(tm).tasks()[p.pid] == (Task {
                threads: final(tm).tasks()[p.pid].threads,
                ..old(tm).tasks()[p.pid]
            })
            &&& !thread && p.pid != cur && old(tm).tasks().contains_key(p.pid) ==> final(tm).tasks()[p.pid]
                == old(tm).tasks()[p.pid]
            &&& flags & CLONE_VM != 0 ==> final(tm).spaces() == old(tm).spaces()
            &&& flags & CLONE_VM == 0 ==> final(tm).spaces() == old(tm).spaces().insert(
                c.space,
                final(tm).spaces()[c.space],
            )
        },
{
    if !check_clone_flags(flags) {
        return Err(SysError::EINVAL);
    }
    let exit_signal = flags & 0xff;
    let thread = flags & CLONE_THREAD != 0;
    if tm.next_tid() == usize::MAX {
        return Err(SysError::ENOMEM);
    }
    let p = tm.get(cur).unwrap();
    let p_space = p.space;
    let space = if flags & CLONE_VM != 0 {
        p_space
    } else {
        let copy = tm.space(p_space).unwrap().duplicate();
        match tm.add_space(copy) {
            Ok(s) => s,
            Err(e) => return Err(e),
        }
    };
    let p = tm.get(cur).unwrap();
    let tid = tm.next_tid();
    let mut threads: Vec<Tid> = Vec::new();
    if !thread {
        threads.push(tid);
    }
    assert(threads@ == (if thread { Seq::<Tid>::empty() } else { seq![tid] }));
    let mut trap_cx = p.trap_cx;
    trap_cx.set_user_a0(0);
    if stack != 0 {
        trap_cx.set_user_sp(stack);
    }
    let child = Task {
        tid,
        pid: if thread {
            p.pid
        } else {
            tid
        },
        ppid: if thread {
            p.ppid
        } else {
            p.pid
        },
        pgid: p.pgid,
        children: Vec::new(),
        threads,
        zombie: false,
        exit_code: 0,
        exit_signal,
        trap_cx,
        space,
        files: if flags & CLONE_FILES != 0 {
            p.files
        } else {
            tid
        },
        sighand: if flags & CLONE_SIGHAND != 0 {
            p.sighand
        } else {
            tid
        },
        sig_pending: Vec::new(),
        sig_blocked: p.sig_blocked,
        time: TimeStat::new(),
        clear_child_tid: if flags & CLONE_CHILD_CLEARTID != 0 {
            Some(child_tid_ptr)
        } else {
            None
        },
    };
    let leader = p.pid;
    tm.bump_tid();
    tm.put(child);
    if !thread {
        let mut p = tm.take(cur);
        p.children.push(tid);
        tm.put(p);
    } else if leader != tid && tm.contains(leader) {
        let mut l = tm.take(leader);
        l.threads.push(tid);
        tm.put(l);
    }
    Ok(tid)
}

/// Whom `wait4` waits for.
#[derive(Debug, Clone, Copy, PartialEq, Eq, Structural)]
pub enum WaitFor {
    /// Any child.
    AnyChild,
    /// Any child in the caller's process group.
    AnyChildInGroup,
    /// The child with this tid.
    Pid(Tid),
    /// Any child in this process group.
    PGid(Tid),
}

/// What `wait4`'s `pid` argument asks for.
pub open spec fn wait_target(pid: i32) -> WaitFor {
    if pid == -1 {
        WaitFor::AnyChild
    } else if pid == 0 {
        WaitFor::AnyChildInGroup
    } else if pid > 0 {
        WaitFor::Pid(pid as Tid)
    } else {
        WaitFor::PGid((-pid) as Tid)
    }
}

/// Decodes `wait4`'s `pid` argument.
pub fn wait_target_of(pid: i32) -> (r: WaitFor)
    ensures
        r == wait_target(pid),
{
    if pid == -1 {
        WaitFor::AnyChild
    } else if pid == 0 {
        WaitFor::AnyChildInGroup
    } else if pid > 0 {
        WaitFor::Pid(pid as Tid)
    } else {
        WaitFor::PGid((-(pid as i64)) as Tid)
    }
}

/// Task `c`, other than the caller, is one that `target` names.
pub open spec fn target_matches(tm: &TaskManager, cur: Tid, target: WaitFor, c: Tid) -> bool {
    &&& c != cur
    &&& match target {
        WaitFor::AnyChild => true,
        WaitFor::AnyChildInGroup => tm.tasks().contains_key(c) && tm.tasks()[c].pgid
            == tm.tasks()[cur].pgid,
        WaitFor::Pid(p) => c == p,
        WaitFor::PGid(g) => tm.tasks().contains_key(c) && tm.tasks()[c].pgid == g,
    }
}

/// Task `c` is a zombie that `target` names.
pub open spec fn reapable(tm: &TaskManager, cur: Tid, target: WaitFor, c: Tid) -> bool {
    &&& target_matches(tm, cur, target, c)
    &&& tm.tasks().contains_key(c)
    &&& tm.tasks()[c].zombie
}

/// `k` is the first position of `kids` that holds a reapable task.
pub open spec fn first_reapable(
    tm: &TaskManager,
    cur: Tid,
    target: WaitFor,
    kids: Seq<Tid>,
    k: int,
) -> bool {
    &&& 0 <= k < kids.len()
    &&& reapable(tm, cur, target, kids[k])
    &&& forall|j: int| 0 <= j < k ==> !reapable(tm, cur, target, #[trigger] kids[j])
}

/// `s` with every `c` taken out.
pub open spec fn without(s: Seq<Tid>, c: Tid) -> Seq<Tid>
    decreases s.len(),
{
    if s.len() == 0 {
        s
    } else {
        let r = without(s.drop_last(), c);
        if s.last() == c {
            r
        } else {
            r.push(s.last())
        }
    }
}

proof fn lemma_without(s: Seq<Tid>, c: Tid)
    ensures
        !without(s, c).contains(c),
        forall|x: Tid| x != c && s.contains(x) ==> #[trigger] without(s, c).contains(x),
    decreases s.len(),
{
    if s.len() > 0 {
        lemma_without(s.drop_last(), c);
        let r = without(s.drop_last(), c);
        if s.last() != c {
            assert(r.push(s.last()).last() == s.last());
            assert forall|x: Tid| x != c && s.contains(x) implies #[trigger] without(s, c).contains(x) by {
                let i = choose|i: int| 0 <= i < s.len() && s[i] == x;
                if i < s.len() - 1 {
                    assert(s.drop_last()[i] == x);
                    assert(r.contains(x));
                    let j = choose|j: int| 0 <= j < r.len() && r[j] == x;
                    assert(r.push(s.last())[j] == x);
                } else {
                    assert(r.push(s.last())[r.len() as int] == x);
                }
            }
            assert(!r.push(s.last()).contains(c)) by {
                if r.push(s.last()).contains(c) {
                    let j = choose|j: int| 0 <= j < r.len() + 1 && r.push(s.last())[j] == c;
                    if j < r.len() {
                        assert(r[j] == c);
                    }
                }
            }
        } else {
            assert forall|x: Tid| x != c && s.contains(x) implies #[trigger] without(s, c).contains(x) by {
                let i = choose|i: int| 0 <= i < s.len() && s[i] == x;
                assert(i < s.len() - 1);
                assert(s.drop_last()[i] == x);
            }
        }
    }
}

/// Takes every `c` out of `v`.
fn remove_all(v: &Vec<Tid>, c: Tid) -> (r: Vec<Tid>)
    ensures
        r@ == without(v@, c),
{
    let mut out: Vec<Tid> = Vec::new();
    let mut i: usize = 0;
    while i < v.len()
        invariant
            0 <= i <= v@.len(),
            out@ == without(v@.subrange(0, i as int), c),
        decreases v@.len() - i,
    {
        assert(v@.subrange(0, i + 1).drop_last() =~= v@.subrange(0, i as int));
        if v[i] != c {
            out.push(v[i]);
        }
        i = i + 1;
    }
    assert(v@.subrange(0, v@.len() as int) =~= v@);
    out
}

/// One step of `wait4`: finished with a result, or waiting for `SIGCHLD`.
#[derive(Debug, Clone, Copy)]
pub enum Wait4Step {
    Done(SyscallResult),
    Suspend,
}

fn is_reapable(tm: &TaskManager, cur: Tid, target: WaitFor, c: Tid) -> (r: bool)
    requires
        tm.tasks().contains_key(cur),
    ensures
        r == reapable(tm, cur, target, c),
{
    if c == cur {
        return false;
    }
    match tm.get(c) {
        None => false,
        Some(t) => {
            let hit = match target {
                WaitFor::AnyChild => true,
                WaitFor::AnyChildInGroup => t.pgid == tm.get(cur).unwrap().pgid,
                WaitFor::Pid(p) => c == p,
                WaitFor::PGid(g) => t.pgid == g,
            };
            hit && t.zombie
        },
    }
}

/// The first position of `kids` that holds a reapable task, if any.
fn find_reapable(tm: &TaskManager, cur: Tid, target: WaitFor, kids: &Vec<Tid>) -> (r: Option<usize>)
    requires
        tm.tasks().contains_key(cur),
    ensures
        r matches Some(k) ==> first_reapable(tm, cur, target, kids@, k as int),
        r is None ==> forall|j: int| 0 <= j < kids@.len() ==> !reapable(tm, cur, target, #[trigger] kids@[j]),
{
    let mut i: usize = 0;
    while i < kids.len()
        invariant
            0 <= i <= kids@.len(),
            tm.tasks().contains_key(cur),
            forall|j: int| 0 <= j < i ==> !reapable(tm, cur, target, #[trigger] kids@[j]),
        decreases kids@.len() - i,
    {
        if is_reapable(tm, cur, target, kids[i]) {
            return Some(i);
        }
        i = i + 1;
    }
    None
}

/// Whether `kids` holds `c`.
fn contains_tid(kids: &Vec<Tid>, c: Tid) -> (r: bool)
    ensures
        r == kids@.contains(c),
{
    let mut i: usize = 0;
    while i < kids.len()
        invariant
            0 <= i <= kids@.len(),
            forall|j: int| 0 <= j < i ==> kids@[j] != c,
        decreases kids@.len() - i,
    {
        if kids[i] == c {
            return true;
        }
        i = i + 1;
    }
    false
}

/// The caller's state after reaping child `c`: the child's times are added
/// to the children's totals and `c` leaves the children.
pub open spec fn reaped_parent(p: Task, after: Task, c: Tid, times: (u64, u64)) -> bool {
    &&& after == (Task { children: after.children, time: after.time, ..p })
    &&& after.children@ == without(p.children@, c)
    &&& after.time == (TimeStat {
        child_utime: sat_add(p.time.child_utime, times.0),
        child_stime: sat_add(p.time.child_stime, times.1),
        ..p.time
    })
}

/// Reaps child `c` of `cur`: accounts its times, writes `status` to
/// `wstatus` unless it is null, and removes `c` from the caller's children
/// and from the registry. When the status cannot be written the call fails
/// with `EFAULT` after the accounting, and `c` stays.
fn reap(
    tm: &mut TaskManager,
    cur: Tid,
    c: Tid,
    status: i32,
    times: (u64, u64),
    wstatus: UserWritePtr<i32>,
    env: &mut HartEnv,
) -> (r: SyscallResult)
    requires
        old(tm).wf(),
        old(tm).tasks().contains_key(cur),
        c != cur,
        c != 0,
        old(env).sum_depth < usize::MAX,
    ensures
        final(tm).wf(),
        *final(env) == *old(env),
        ({
            let p = old(tm).tasks()[cur];
            let sp = p.space;
            let writes = wstatus.addr() != 0;
            &&& final(tm).tasks().contains_key(cur)
            &&& r is Ok <==> !writes || old(tm).spaces()[sp].range_allowed(wstatus.addr() as int, 4, rw_spec())
            &&& r is Err ==> r == Err::<usize, SysError>(SysError::EFAULT)
            &&& r is Ok ==> r == Ok::<usize, SysError>(c)
            &&& r is Ok ==> reaped_parent(p, final(tm).tasks()[cur], c, times)
            &&& r is Ok ==> final(tm).tasks() == old(tm).tasks().remove(c).insert(cur, final(tm).tasks()[cur])
            &&& r is Err ==> final(tm).tasks() == old(tm).tasks().insert(cur, final(tm).tasks()[cur])
            &&& r is Err ==> final(tm).tasks()[cur] == (Task { time: final(tm).tasks()[cur].time, ..p })
            &&& writes && r is Ok ==> written(&old(tm).spaces()[sp], &final(tm).spaces()[sp], wstatus.addr() as int, <i32 as UserValue>::encode(status))
            &&& !(writes && r is Ok) ==> final(tm).spaces()[sp].same_contents(&old(tm).spaces()[sp])
            &&& final(tm).spaces().dom() == old(tm).spaces().dom()
            &&& forall|s: usize| s != sp ==> #[trigger] final(tm).spaces()[s] == old(tm).spaces()[s]
        }),
{
    let mut p = tm.take(cur);
    p.time.update_child_time(times);
    tm.put(p);
    if wstatus.not_null() {
        match tm.write_user(cur, wstatus, status, env) {
            Ok(()) => {},
            Err(e) => {
                return Err(e);
            },
        }
    } else {
        proof {
            assert(tm.spaces()[old(tm).tasks()[cur].space].same_contents(&old(tm).spaces()[old(tm).tasks()[cur].space]));
        }
    }
    let mut p = tm.take(cur);
    p.children = remove_all(&p.children, c);
    tm.put(p);
    tm.remove(c);
    proof {
        lemma_without(old(tm).tasks()[cur].children@, c);
    }
    assert(tm.tasks() =~= old(tm).tasks().remove(c).insert(cur, tm.tasks()[cur]));
    Ok(c)
}

/// `wait4`, up to the point where it would block. With no children it
/// fails with `ECHILD`, as it does when a specific `pid` is not a child.
/// Otherwise the first child in the caller's list that is a zombie and that
/// `pid` names is reaped and its tid returned; its exit status is written to
/// `wstatus` unless that is null. With no such child, `WNOHANG` returns 0 and
/// otherwise the caller has to wait for `SIGCHLD` (see `sys_wait4_wake`).
pub fn sys_wait4(
    tm: &mut TaskManager,
    cur: Tid,
    pid: i32,
    wstatus: UserWritePtr<i32>,
    option: i32,
    env: &mut HartEnv,
) -> (r: Wait4Step)
    requires
        old(tm).wf(),
        old(tm).tasks().contains_key(cur),
        old(env).sum_depth < usize::MAX,
    ensures
        final(tm).wf(),
        *final(env) == *old(env),
        final(tm).spaces().dom() == old(tm).spaces().dom(),
        forall|s: usize| s != old(tm).tasks()[cur].space ==> #[trigger] final(tm).spaces()[s] == old(tm).spaces()[s],
        ({
            let p = old(tm).tasks()[cur];
            let kids = p.children@;
            let target = wait_target(pid);
            let missing = (target matches WaitFor::Pid(q) && !kids.contains(q));
            let none = forall|j: int| 0 <= j < kids.len() ==> !reapable(old(tm), cur, target, #[trigger] kids[j]);
            &&& kids.len() == 0 || missing ==> (r matches Wait4Step::Done(Err(SysError::ECHILD)))
                && *final(tm) == *old(tm)
            &&& kids.len() > 0 && !missing && none ==> *final(tm) == *old(tm) && (if option & WNOHANG != 0 {
                r matches Wait4Step::Done(Ok(0))
            } else {
                r is Suspend
            })
            &&& r is Suspend ==> kids.len() > 0 && !missing && none
            &&& kids.len() > 0 && !missing && !none ==> (r matches Wait4Step::Done(Ok(c)) && c != 0)
                || (r matches Wait4Step::Done(Err(_)))
            &&& r matches Wait4Step::Done(Ok(c)) ==> c != 0 ==> {
                &&& exists|k: int| first_reapable(old(tm), cur, target, kids, k) && kids[k] == c
                &&& !final(tm).tasks().contains_key(c)
                &&& final(tm).tasks().contains_key(cur)
                &&& !final(tm).tasks()[cur].children@.contains(c)
                &&& reaped_parent(p, final(tm).tasks()[cur], c, old(tm).tasks()[c].time.user_system_spec())
                &&& final(tm).tasks() == old(tm).tasks().remove(c).insert(cur, final(tm).tasks()[cur])
                &&& wstatus.addr() != 0 ==> written(
                    &old(tm).spaces()[p.space],
                    &final(tm).spaces()[p.space],
                    wstatus.addr() as int,
                    <i32 as UserValue>::encode(old(tm).tasks()[c].exit_code),
                )
            }
            &&& r matches Wait4Step::Done(Err(e)) ==> kids.len() > 0 && !missing ==> {
                &&& e == SysError::EFAULT
                &&& wstatus.addr() != 0
                &&& !old(tm).spaces()[p.space].range_allowed(wstatus.addr() as int, 4, rw_spec())
                &&& exists|k: int| first_reapable(old(tm), cur, target, kids, k)
            }
        }),
{
    let target = wait_target_of(pid);
    let kids = &tm.get(cur).unwrap().children;
    if kids.len() == 0 {
        return Wait4Step::Done(Err(SysError::ECHILD));
    }
    if let WaitFor::Pid(q) = target {
        if !contains_tid(kids, q) {
            return Wait4Step::Done(Err(SysError::ECHILD));
        }
    }
    match find_reapable(tm, cur, target, kids) {
        Some(k) => {
            let c = kids[k];
            let child = tm.get(c).unwrap();
            let status = child.exit_code;
            let times = child.time.user_system_time();
            proof {
                lemma_without(old(tm).tasks()[cur].children@, c);
            }
            Wait4Step::Done(reap(tm, cur, c, status, times, wstatus, env))
        },
        None => {
            if option & WNOHANG != 0 {
                Wait4Step::Done(Ok(0))
            } else {
                Wait4Step::Suspend
            }
        },
    }
}

/// `wait4` after the caller woke with a `SIGCHLD` carrying `info`. When the
/// child it reports is one that `pid` names, that child is reaped with the
/// status and times the signal carries, and its tid returned; otherwise the
/// caller waits on.
pub fn sys_wait4_wake(
    tm: &mut TaskManager,
    cur: Tid,
    pid: i32,
    wstatus: UserWritePtr<i32>,
    info: SigInfo,
    env: &mut HartEnv,
) -> (r: Wait4Step)
    requires
        old(tm).wf(),
        old(tm).tasks().contains_key(cur),
        old(env).sum_depth < usize::MAX,
    ensures
        final(tm).wf(),
        *final(env) == *old(env),
        final(tm).spaces().dom() == old(tm).spaces().dom(),
        forall|s: usize| s != old(tm).tasks()[cur].space ==> #[trigger] final(tm).spaces()[s] == old(tm).spaces()[s],
        ({
            let p = old(tm).tasks()[cur];
            let target = wait_target(pid);
            let hit = (info.details matches SigDetails::Chld { pid: c, .. } && c != 0
                && target_matches(old(tm), cur, target, c));
            &&& !hit ==> r is Suspend && *final(tm) == *old(tm)
            &&& hit ==> r is Done
            &&& r matches Wait4Step::Done(Ok(c)) ==> {
                &&& (info.details matches SigDetails::Chld { pid: c2, status, utime, stime }
                    && c2 == c
                    && reaped_parent(p, final(tm).tasks()[cur], c, (utime, stime))
                    && (wstatus.addr() != 0 ==> written(
                        &old(tm).spaces()[p.space],
                        &final(tm).spaces()[p.space],
                        wstatus.addr() as int,
                        <i32 as UserValue>::encode(status),
                    )))
                &&& !final(tm).tasks().contains_key(c)
                &&& final(tm).tasks().contains_key(cur)
                &&& !final(tm).tasks()[cur].children@.contains(c)
                &&& final(tm).tasks() == old(tm).tasks().remove(c).insert(cur, final(tm).tasks()[cur])
            }
            &&& r matches Wait4Step::Done(Err(e)) ==> e == SysError::EFAULT && wstatus.addr() != 0
                && !old(tm).spaces()[p.space].range_allowed(wstatus.addr() as int, 4, rw_spec())
        }),
{
    let target = wait_target_of(pid);
    match info.details {
        SigDetails::Chld { pid: c, status, utime, stime } => {
            if c == 0 || c == cur {
                return Wait4Step::Suspend;
            }
            let hit = match target {
                WaitFor::AnyChild => true,
                WaitFor::AnyChildInGroup => match tm.get(c) {
                    Some(t) => t.pgid == tm.get(cur).unwrap().pgid,
                    None => false,
                },
                WaitFor::Pid(q) => c == q,
                WaitFor::PGid(g) => match tm.get(c) {
                    Some(t) => t.pgid == g,
                    None => false,
                },
            };
            if !hit {
                return Wait4Step::Suspend;
            }
            proof {
                lemma_without(old(tm).tasks()[cur].children@, c);
            }
            Wait4Step::Done(reap(tm, cur, c, status, (utime, stime), wstatus, env))
        },
        SigDetails::Empty => Wait4Step::Suspend,
    }
}

/// Takes the first pending signal `sig` of task `tid` off its queue, unless
/// `sig` is blocked.
pub fn take_signal(tm: &mut TaskManager, tid: Tid, sig: usize) -> (r: Option<SigInfo>)
    requires
        old(tm).wf(),
        old(tm).tasks().contains_key(tid),
    ensures
        final(tm).wf(),
        final(tm).spaces() == old(tm).spaces(),
        ({
            let t = old(tm).tasks()[tid];
            let q = t.sig_pending@;
            &&& r is None ==> *final(tm) == *old(tm)
            &&& r is None ==> sig_masked(t.sig_blocked, sig) || forall|j: int| 0 <= j < q.len() ==> (#[trigger] q[j]).sig != sig
            &&& r matches Some(info) ==> !sig_masked(t.sig_blocked, sig) && exists|k: int| {
                &&& 0 <= k < q.len()
                &&& q[k] == info
                &&& info.sig == sig
                &&& forall|j: int| 0 <= j < k ==> (#[trigger] q[j]).sig != sig
                &&& final(tm).tasks() == old(tm).tasks().insert(tid, Task { sig_pending: final(tm).tasks()[tid].sig_pending, ..t })
                &&& final(tm).tasks()[tid].sig_pending@ == q.remove(k)
            }
        }),
{
    let t = tm.get(tid).unwrap();
    let blocked = 1 <= sig && sig <= 64 && (t.sig_blocked >> ((sig - 1) as u64)) & 1 != 0;
    if blocked {
        return None;
    }
    let mut k: usize = 0;
    while k < t.sig_pending.len()
        invariant
            0 <= k <= t.sig_pending@.len(),
            forall|j: int| 0 <= j < k ==> (#[trigger] t.sig_pending@[j]).sig != sig,
        ensures
            0 <= k <= t.sig_pending@.len(),
            forall|j: int| 0 <= j < k ==> (#[trigger] t.sig_pending@[j]).sig != sig,
            k < t.sig_pending@.len() ==> t.sig_pending@[k as int].sig == sig,
        decreases t.sig_pending@.len() - k,
    {
        if t.sig_pending[k].sig == sig {
            break;
        }
        k = k + 1;
    }
    if k == t.sig_pending.len() {
        return None;
    }
    let ghost q = t.sig_pending@;
    let mut t = tm.take(tid);
    let info = t.sig_pending.remove(k);
    tm.put(t);
    assert(q[k as int] == info);
    assert(tm.tasks()[tid].sig_pending@ == q.remove(k as int));
    assert(tm.tasks() =~= old(tm).tasks().insert(tid, Task { sig_pending: tm.tasks()[tid].sig_pending, ..old(tm).tasks()[tid] }));
    Some(info)
}

/// Queues signal `info` on task `tid`, when it exists.
pub fn send_signal(tm: &mut TaskManager, tid: Tid, info: SigInfo) -> (r: bool)
    requires
        old(tm).wf(),
    ensures
        final(tm).wf(),
        final(tm).spaces() == old(tm).spaces(),
        r == old(tm).tasks().contains_key(tid),
        !r ==> *final(tm) == *old(tm),
        r ==> final(tm).tasks() == old(tm).tasks().insert(tid, Task { sig_pending: final(tm).tasks()[tid].sig_pending, ..old(tm).tasks()[tid] }),
        r ==> final(tm).tasks()[tid].sig_pending@ == old(tm).tasks()[tid].sig_pending@.push(info),
{
    if !tm.contains(tid) {
        return false;
    }
    let mut t = tm.take(tid);
    t.sig_pending.push(info);
    tm.put(t);
    assert(tm.tasks() =~= old(tm).tasks().insert(tid, Task { sig_pending: tm.tasks()[tid].sig_pending, ..old(tm).tasks()[tid] }));
    true
}

/// The tids that `exit_group` called by `cur` terminates: the thread list
/// kept on its leader, and `cur` itself.
pub open spec fn group_of(tm: &TaskManager, cur: Tid) -> Seq<Tid> {
    let leader = tm.tasks()[cur].pid;
    if tm.tasks().contains_key(leader) {
        tm.tasks()[leader].threads@.push(cur)
    } else {
        seq![cur]
    }
}

/// Task `u` after `exit_group` when the tids in `hit` are terminated.
pub open spec fn after_exit_group(old_t: Task, u: Tid, cur: Tid, hit: Seq<Tid>, status: i32) -> Task {
    if u == cur {
        Task { zombie: true, exit_code: status, ..old_t }
    } else if hit.contains(u) {
        Task { zombie: true, ..old_t }
    } else {
        old_t
    }
}

/// The tids of `group_of(tm, cur)`.
fn thread_group(tm: &TaskManager, cur: Tid) -> (r: Vec<Tid>)
    requires
        tm.tasks().contains_key(cur),
    ensures
        r@ == group_of(tm, cur),
{
    let leader = tm.get(cur).unwrap().pid;
    let mut group: Vec<Tid> = Vec::new();
    match tm.get(leader) {
        Some(l) => {
            let mut i: usize = 0;
            while i < l.threads.len()
                invariant
                    0 <= i <= l.threads@.len(),
                    group@ == l.threads@.subrange(0, i as int),
                decreases l.threads@.len() - i,
            {
                group.push(l.threads[i]);
                i = i + 1;
                assert(group@ =~= l.threads@.subrange(0, i as int));
            }
            assert(group@ =~= l.threads@);
        },
        None => {},
    }
    group.push(cur);
    assert(group@ =~= group_of(tm, cur));
    group
}

/// Makes every registered task of `group` but `cur` a zombie.
fn zombify_threads(tm: &mut TaskManager, cur: Tid, group: &Vec<Tid>)
    requires
        old(tm).wf(),
        old(tm).tasks().contains_key(cur),
    ensures
        final(tm).wf(),
        final(tm).spaces() == old(tm).spaces(),
        final(tm).tasks().dom() == old(tm).tasks().dom(),
        final(tm).next_tid_spec() == old(tm).next_tid_spec(),
        final(tm).next_space_spec() == old(tm).next_space_spec(),
        forall|u: Tid| #[trigger] old(tm).tasks().contains_key(u) ==> final(tm).tasks()[u]
            == if u == cur { old(tm).tasks()[u] } else {
                after_exit_group(old(tm).tasks()[u], u, cur, group@, 0)
            },
{
    let mut i: usize = 0;
    while i < group.len()
        invariant
            0 <= i <= group@.len(),
            tm.wf(),
            tm.spaces() == old(tm).spaces(),
            tm.tasks().dom() == old(tm).tasks().dom(),
            tm.next_tid_spec() == old(tm).next_tid_spec(),
            tm.next_space_spec() == old(tm).next_space_spec(),
            old(tm).tasks().contains_key(cur),
            forall|u: Tid| #[trigger] old(tm).tasks().contains_key(u) ==> tm.tasks()[u]
                == if u == cur { old(tm).tasks()[u] } else {
                    after_exit_group(old(tm).tasks()[u], u, cur, group@.subrange(0, i as int), 0)
                },
        decreases group@.len() - i,
    {
        let u = group[i];
        let ghost prev = tm.tasks();
        if u != cur && tm.contains(u) {
            let mut t = tm.take(u);
            t.zombie = true;
            tm.put(t);
        }
        proof {
            assert forall|v: Tid| #[trigger] old(tm).tasks().contains_key(v) implies tm.tasks()[v]
                == if v == cur { old(tm).tasks()[v] } else {
                    after_exit_group(old(tm).tasks()[v], v, cur, group@.subrange(0, i + 1), 0)
                } by {
                assert(group@.subrange(0, i + 1)[i as int] == u);
                if v != u {
                    assert(tm.tasks()[v] == prev[v]);
                }
                if group@.subrange(0, i + 1).contains(v) && !group@.subrange(0, i as int).contains(v) {
                    let j = choose|j: int| 0 <= j < i + 1 && #[trigger] group@.subrange(0, i + 1)[j] == v;
                    if j < i {
                        assert(group@.subrange(0, i as int)[j] == v);
                    }
                }
                if group@.subrange(0, i as int).contains(v) {
                    let j = choose|j: int| 0 <= j < i && #[trigger] group@.subrange(0, i as int)[j] == v;
                    assert(group@.subrange(0, i + 1)[j] == v);
                }
            }
            assert(tm.tasks().dom() =~= old(tm).tasks().dom());
        }
        i = i + 1;
    }
    assert(group@.subrange(0, group@.len() as int) =~= group@);
}

/// `execve`, once the new program is loaded into `mm`: the caller goes on
/// in that address space at `entry`, with stack pointer `user_sp` and every
/// other register zero, and the other threads of its group end. Fails with
/// `ENOMEM`, changing no task, when no address-space id is left.
pub fn exec_commit(tm: &mut TaskManager, cur: Tid, mm: MemorySpace, entry: usize, user_sp: usize) -> (r: SysResult<()>)
    requires
        old(tm).wf(),
        old(tm).tasks().contains_key(cur),
        mm.wf(),
    ensures
        final(tm).wf(),
        r is Err <==> old(tm).next_space_spec() == usize::MAX,
        r is Err ==> r == Err::<(), SysError>(SysError::ENOMEM) && final(tm).tasks() == old(tm).tasks(),
        r is Ok ==> {
            let c = final(tm).tasks()[cur];
            &&& final(tm).tasks().dom() == old(tm).tasks().dom()
            &&& c == (Task { space: c.space, trap_cx: c.trap_cx, ..old(tm).tasks()[cur] })
            &&& !old(tm).spaces().contains_key(c.space)
            &&& final(tm).spaces()[c.space] == mm
            &&& c.trap_cx.sepc == entry
            &&& c.trap_cx.user_x@ == Seq::new(32, |i: int| if i == 2 { user_sp } else { 0usize })
            &&& forall|u: Tid| #[trigger] old(tm).tasks().contains_key(u) && u != cur ==> final(tm).tasks()[u]
                == after_exit_group(old(tm).tasks()[u], u, cur, group_of(old(tm), cur), 0)
        },
{
    let group = thread_group(tm, cur);
    let space = match tm.add_space(mm) {
        Ok(s) => s,
        Err(e) => return Err(e),
    };
    let ghost mid = *tm;
    zombify_threads(tm, cur, &group);
    proof {
        assert forall|u: Tid| #[trigger] mid.tasks().contains_key(u) && u != cur implies after_exit_group(mid.tasks()[u], u, cur, group@, 0)
            == after_exit_group(old(tm).tasks()[u], u, cur, group_of(old(tm), cur), 0) by {}
    }
    let mut t = tm.take(cur);
    let mut cx = TrapContext::new();
    cx.sepc = entry;
    cx.set_user_sp(user_sp);
    t.trap_cx = cx;
    t.space = space;
    tm.put(t);
    assert(tm.tasks()[cur].trap_cx.user_x@ =~= Seq::new(32, |i: int| if i == 2 { user_sp } else { 0usize }));
    assert(tm.tasks().dom() =~= old(tm).tasks().dom());
    Ok(())
}

/// `exit_group`: every thread of the caller's group becomes a zombie and
/// the caller records the exit status; the parent of the process, if it is
/// registered outside the group, is sent `SIGCHLD` with that status.
pub fn sys_exit_group(tm: &mut TaskManager, cur: Tid, exit_code: i32) -> (r: SyscallResult)
    requires
        old(tm).wf(),
        old(tm).tasks().contains_key(cur),
    ensures
        final(tm).wf(),
        r == Ok::<usize, SysError>(0),
        final(tm).spaces() == old(tm).spaces(),
        final(tm).tasks().dom() == old(tm).tasks().dom(),
        ({
            let t = old(tm).tasks()[cur];
            let g = group_of(old(tm), cur);
            let notify = t.ppid != 0 && !g.contains(t.ppid) && old(tm).tasks().contains_key(t.ppid);
            let info = SigInfo {
                sig: SIGCHLD,
                details: SigDetails::Chld {
                    pid: t.pid,
                    status: exit_status(exit_code),
                    utime: t.time.utime,
                    stime: t.time.stime,
                },
            };
            &&& forall|u: Tid| #[trigger] old(tm).tasks().contains_key(u) && !(notify && u == t.ppid)
                ==> final(tm).tasks()[u] == after_exit_group(old(tm).tasks()[u], u, cur, g, exit_status(exit_code))
            &&& notify ==> final(tm).tasks()[t.ppid] == (Task {
                sig_pending: final(tm).tasks()[t.ppid].sig_pending,
                ..old(tm).tasks()[t.ppid]
            })
            &&& notify ==> final(tm).tasks()[t.ppid].sig_pending@
                == old(tm).tasks()[t.ppid].sig_pending@.push(info)
        }),
{
    let status = encode_exit_code(exit_code);
    let group = thread_group(tm, cur);
    zombify_threads(tm, cur, &group);
    let mut t = tm.take(cur);
    t.zombie = true;
    t.exit_code = status;
    let ppid = t.ppid;
    let info = SigInfo {
        sig: SIGCHLD,
        details: SigDetails::Chld { pid: t.pid, status, utime: t.time.utime, stime: t.time.stime },
    };
    tm.put(t);
    assert(tm.tasks().dom() =~= old(tm).tasks().dom());
    assert(group@.subrange(0, group@.len() as int) =~= group@);
    let ghost mid = tm.tasks();
    proof {
        assert(group@[group@.len() - 1] == cur);
        assert forall|u: Tid| #[trigger] old(tm).tasks().contains_key(u) implies mid[u]
            == after_exit_group(old(tm).tasks()[u], u, cur, group@, status) by {
            if u != cur {
                assert(after_exit_group(old(tm).tasks()[u], u, cur, group@, 0) == after_exit_group(
                    old(tm).tasks()[u],
                    u,
                    cur,
                    group@,
                    status,
                ));
            }
        }
    }
    if ppid != 0 && !contains_tid(&group, ppid) && tm.contains(ppid) {
        proof {
            assert(ppid != cur);
            assert(mid[ppid] == old(tm).tasks()[ppid]);
        }
        send_signal(tm, ppid, info);
        assert(tm.tasks().dom() =~= old(tm).tasks().dom());
    }
    Ok(0)
}

/// `p` names a shell script: it ends in `.sh`.
pub open spec fn is_script(p: Seq<char>) -> bool {
    p.len() >= 3 && p.subrange(p.len() - 3, p.len() as int) == seq!['.', 's', 'h']
}

/// Whether `s` ends with `.sh`.
fn ends_with_sh(s: &String) -> (r: bool)
    ensures
        r == is_script(s@),
{
    let t = s.as_str();
    let n = t.unicode_len();
    if n < 3 {
        return false;
    }
    let r = t.get_char(n - 3) == '.' && t.get_char(n - 2) == 's' && t.get_char(n - 1) == 'h';
    proof {
        let tail = s@.subrange(n - 3, n as int);
        if r {
            assert(tail =~= seq!['.', 's', 'h']);
        } else if tail == seq!['.', 's', 'h'] {
            assert(tail[0] == s@[n - 3]);
            assert(tail[1] == s@[n - 2]);
            assert(tail[2] == s@[n - 1]);
        }
    }
    r
}

/// The program and arguments that `execve` runs: a shell script is run by
/// the built-in `busybox sh` with the script's path as its first argument.
pub fn script_rewrite(path: String, argv: Vec<String>) -> (r: (String, Vec<String>))
    ensures
        is_script(path@) ==> r.0@ == "/busybox"@ && r.1@.len() == argv@.len() + 2 && r.1@[0]@
            == "busybox"@ && r.1@[1]@ == "sh"@ && r.1@.subrange(2, r.1@.len() as int) == argv@,
        !is_script(path@) ==> r.0 == path && r.1 == argv,
{
    if ends_with_sh(&path) {
        let mut argv = argv;
        let ghost a = argv@;
        argv.insert(0, "busybox".to_owned());
        argv.insert(1, "sh".to_owned());
        assert(argv@.subrange(2, argv@.len() as int) =~= a);
        ("/busybox".to_owned(), argv)
    } else {
        (path, argv)
    }
}

/// What `execve` read from user memory: the program and its arguments.
pub struct ExecRequest {
    pub path: String,
    pub argv: Vec<String>,
    pub envp: Vec<String>,
}

/// Some null-terminated string starts at `va`.
pub open spec fn has_cstr(mm: &MemorySpace, va: int) -> bool {
    exists|t: Seq<char>| cstr_at(mm, va, t)
}

/// `v` holds the strings that the zero-terminated pointer vector at `va`
/// points to.
pub open spec fn strings_at(mm: &MemorySpace, va: int, v: Seq<String>) -> bool {
    exists|ptrs: Seq<usize>|
        cvec_at(mm, va, ptrs) && ptrs.len() == v.len() && forall|i: int|
            0 <= i < v.len() ==> #[trigger] cstr_at(mm, ptrs[i] as int, v[i]@)
}

proof fn lemma_range_transfer(a: &MemorySpace, b: &MemorySpace, va: int, n: int)
    requires
        a.area_list() == b.area_list(),
        a.range_allowed(va, n, ro_spec()),
    ensures
        b.range_allowed(va, n, ro_spec()),
{
    MemorySpace::lemma_same_areas(a, b);
    if n != 0 {
        assert forall|vpn: int| vpn_of(va) <= vpn <= vpn_of(va + n - 1) implies #[trigger] b.page_allows(vpn, ro_spec()) by {
            assert(a.page_allows(vpn, ro_spec()));
        }
    }
}

proof fn lemma_cstr_transfer(a: &MemorySpace, b: &MemorySpace, va: int, s: Seq<char>)
    requires
        a.same_contents(b),
        a.area_list() == b.area_list(),
        cstr_at(a, va, s),
    ensures
        cstr_at(b, va, s),
{
    MemorySpace::lemma_same_areas(a, b);
    assert forall|i: int| 0 <= i < s.len() implies #[trigger] b.allows(va + i, ro_spec()) by {
        assert(a.allows(va + i, ro_spec()));
    }
    assert forall|i: int| 0 <= i < s.len() implies #[trigger] b.byte(va + i) != 0 by {
        assert(a.byte(va + i) == b.byte(va + i));
        assert(a.byte(va + i) != 0);
    }
    assert forall|i: int| 0 <= i < s.len() implies #[trigger] s[i] == b.byte(va + i) as char by {
        assert(a.byte(va + i) == b.byte(va + i));
    }
    assert(a.byte(va + s.len()) == b.byte(va + s.len()));
    assert(a.allows(va + s.len(), ro_spec()));
}

proof fn lemma_cvec_transfer(a: &MemorySpace, b: &MemorySpace, va: int, v: Seq<usize>)
    requires
        a.same_contents(b),
        a.area_list() == b.area_list(),
        cvec_at(a, va, v),
    ensures
        cvec_at(b, va, v),
{
    assert forall|x: int| #[trigger] a.bytes(x, 8) == b.bytes(x, 8) by {
        assert(a.bytes(x, 8) =~= b.bytes(x, 8));
    }
    assert forall|i: int| 0 <= i < v.len() implies #[trigger] b.range_allowed(va + 8 * i, 8, ro_spec()) by {
        assert(a.range_allowed(va + 8 * i, 8, ro_spec()));
        lemma_range_transfer(a, b, va + 8 * i, 8);
    }
    assert forall|i: int| 0 <= i < v.len() implies #[trigger] value_at::<usize>(b, va + 8 * i) != 0 by {
        assert(value_at::<usize>(a, va + 8 * i) != 0);
        assert(a.bytes(va + 8 * i, 8) == b.bytes(va + 8 * i, 8));
    }
    assert forall|i: int| 0 <= i < v.len() implies #[trigger] v[i] == value_at::<usize>(b, va + 8 * i) by {
        assert(a.bytes(va + 8 * i, 8) == b.bytes(va + 8 * i, 8));
    }
    lemma_range_transfer(a, b, va + 8 * v.len(), 8);
    assert(a.bytes(va + 8 * v.len(), 8) == b.bytes(va + 8 * v.len(), 8));
}

proof fn lemma_same_space(a: &MemorySpace, b: &MemorySpace)
    requires
        a.same_contents(b),
        a.area_list() == b.area_list(),
    ensures
        forall|va: int, s: Seq<char>| #[trigger] cstr_at(a, va, s) == cstr_at(b, va, s),
        forall|va: int, s: Seq<usize>| #[trigger] cvec_at(a, va, s) == cvec_at(b, va, s),
{
    assert forall|va: int, s: Seq<char>| #[trigger] cstr_at(a, va, s) == cstr_at(b, va, s) by {
        if cstr_at(a, va, s) {
            lemma_cstr_transfer(a, b, va, s);
        }
        if cstr_at(b, va, s) {
            lemma_cstr_transfer(b, a, va, s);
        }
    }
    assert forall|va: int, s: Seq<usize>| #[trigger] cvec_at(a, va, s) == cvec_at(b, va, s) by {
        if cvec_at(a, va, s) {
            lemma_cvec_transfer(a, b, va, s);
        }
        if cvec_at(b, va, s) {
            lemma_cvec_transfer(b, a, va, s);
        }
    }
}

/// Reads the strings of a null-terminated vector of string pointers.
fn read_strings(tm: &mut TaskManager, cur: Tid, ptr: UserReadPtr<usize>, env: &mut HartEnv) -> (r: SysResult<Vec<String>>)
    requires
        old(tm).wf(),
        old(tm).tasks().contains_key(cur),
        old(env).sum_depth < usize::MAX,
    ensures
        final(tm).wf(),
        final(tm).tasks() == old(tm).tasks(),
        final(tm).next_tid_spec() == old(tm).next_tid_spec(),
        final(tm).spaces().dom() == old(tm).spaces().dom(),
        forall|s: usize| #[trigger]
            final(tm).spaces().contains_key(s) ==> final(tm).spaces()[s].same_contents(
                &old(tm).spaces()[s],
            ) && final(tm).spaces()[s].area_list() == old(tm).spaces()[s].area_list(),
        r matches Ok(v) ==> strings_at(&old(tm).spaces()[old(tm).tasks()[cur].space], ptr.addr() as int, v@),
        (exists|v: Seq<String>| strings_at(&old(tm).spaces()[old(tm).tasks()[cur].space], ptr.addr() as int, v)) ==> r is Ok,
        r is Err ==> r == Err::<Vec<String>, SysError>(SysError::EFAULT) || r == Err::<Vec<String>, SysError>(SysError::EINVAL),
        *final(env) == *old(env),
{
    let ghost sp = old(tm).tasks()[cur].space;
    let ghost owed = exists|v: Seq<String>| strings_at(&old(tm).spaces()[sp], ptr.addr() as int, v);
    proof {
        if owed {
            let v = choose|v: Seq<String>| strings_at(&old(tm).spaces()[sp], ptr.addr() as int, v);
            let ps = choose|ps: Seq<usize>|
                cvec_at(&old(tm).spaces()[sp], ptr.addr() as int, ps) && ps.len() == v.len() && forall|i: int|
                    0 <= i < v.len() ==> #[trigger] cstr_at(&old(tm).spaces()[sp], ps[i] as int, v[i]@);
            assert(cvec_at(&old(tm).spaces()[sp], ptr.addr() as int, ps));
        }
    }
    let ptrs = match tm.read_user_cvec(cur, ptr, env) {
        Ok(p) => p,
        Err(e) => return Err(e),
    };
    proof {
        if owed {
            let v = choose|v: Seq<String>| strings_at(&old(tm).spaces()[sp], ptr.addr() as int, v);
            let ps = choose|ps: Seq<usize>|
                cvec_at(&old(tm).spaces()[sp], ptr.addr() as int, ps) && ps.len() == v.len() && forall|i: int|
                    0 <= i < v.len() ==> #[trigger] cstr_at(&old(tm).spaces()[sp], ps[i] as int, v[i]@);
            lemma_cvec_unique(&old(tm).spaces()[sp], ptr.addr() as int, ps, ptrs@);
            assert forall|k: int| 0 <= k < ptrs@.len() implies #[trigger] has_cstr(&old(tm).spaces()[sp], ptrs@[k] as int) by {
                assert(cstr_at(&old(tm).spaces()[sp], ps[k] as int, v[k]@));
            }
        }
    }
    let mut out: Vec<String> = Vec::new();
    let mut i: usize = 0;
    while i < ptrs.len()
        invariant
            0 <= i <= ptrs@.len(),
            tm.wf(),
            tm.tasks() == old(tm).tasks(),
            tm.next_tid_spec() == old(tm).next_tid_spec(),
            tm.spaces().dom() == old(tm).spaces().dom(),
            old(tm).tasks().contains_key(cur),
            sp == old(tm).tasks()[cur].space,
            forall|s: usize| #[trigger]
                tm.spaces().contains_key(s) ==> tm.spaces()[s].same_contents(
                    &old(tm).spaces()[s],
                ) && tm.spaces()[s].area_list() == old(tm).spaces()[s].area_list(),
            *env == *old(env),
            env.sum_depth < usize::MAX,
            out@.len() == i,
            forall|k: int| 0 <= k < i ==> #[trigger] cstr_at(&old(tm).spaces()[sp], ptrs@[k] as int, out@[k]@),
            owed == exists|v: Seq<String>| strings_at(&old(tm).spaces()[sp], ptr.addr() as int, v),
            owed ==> forall|k: int| 0 <= k < ptrs@.len() ==> #[trigger] has_cstr(&old(tm).spaces()[sp], ptrs@[k] as int),
        decreases ptrs@.len() - i,
    {
        let ghost before = tm.spaces()[sp];
        proof {
            assert(old(tm).spaces().contains_key(sp));
            lemma_same_space(&before, &old(tm).spaces()[sp]);
            if owed {
                assert(has_cstr(&old(tm).spaces()[sp], ptrs@[i as int] as int));
                let t = choose|t: Seq<char>| cstr_at(&old(tm).spaces()[sp], ptrs@[i as int] as int, t);
                assert(cstr_at(&before, ptrs@[i as int] as int, t));
            }
        }
        let p: UserReadPtr<u8> = UserPtr::from_usize(ptrs[i]);
        let s = match tm.read_user_cstr(cur, p, env) {
            Ok(s) => s,
            Err(e) => return Err(e),
        };
        proof {
            assert(old(tm).spaces().contains_key(sp));
            lemma_same_space(&before, &old(tm).spaces()[sp]);
        }
        out.push(s);
        i = i + 1;
    }
    proof {
        assert(cvec_at(&old(tm).spaces()[sp], ptr.addr() as int, ptrs@));
    }
    Ok(out)
}

/// `execve`, up to loading the program: reads the path, the arguments and
/// the environment from the caller's memory, and rewrites a shell script
/// into a run of `busybox sh`. Fails with the error of the first read that
/// fails.
pub fn sys_execve(
    tm: &mut TaskManager,
    cur: Tid,
    path: UserReadPtr<u8>,
    argv: UserReadPtr<usize>,
    envp: UserReadPtr<usize>,
    env: &mut HartEnv,
) -> (r: SysResult<ExecRequest>)
    requires
        old(tm).wf(),
        old(tm).tasks().contains_key(cur),
        old(env).sum_depth < usize::MAX,
    ensures
        final(tm).wf(),
        final(tm).tasks() == old(tm).tasks(),
        *final(env) == *old(env),
        r is Err ==> r == Err::<ExecRequest, SysError>(SysError::EFAULT) || r == Err::<ExecRequest, SysError>(SysError::EINVAL),
        ({
            let mm = old(tm).spaces()[old(tm).tasks()[cur].space];
            (exists|p: Seq<char>| cstr_at(&mm, path.addr() as int, p))
                && (exists|a: Seq<String>| strings_at(&mm, argv.addr() as int, a))
                && (exists|e: Seq<String>| strings_at(&mm, envp.addr() as int, e)) ==> r is Ok
        }),
        !old(tm).spaces()[old(tm).tasks()[cur].space].allows(path.addr() as int, ro_spec())
            ==> r == Err::<ExecRequest, SysError>(SysError::EFAULT),
        r matches Ok(req) ==> {
            let mm = old(tm).spaces()[old(tm).tasks()[cur].space];
            exists|p: String, a: Vec<String>| {
                &&& cstr_at(&mm, path.addr() as int, p@)
                &&& strings_at(&mm, argv.addr() as int, a@)
                &&& strings_at(&mm, envp.addr() as int, req.envp@)
                &&& is_script(p@) ==> req.path@ == "/busybox"@ && req.argv@.len() == a@.len() + 2
                    && req.argv@[0]@ == "busybox"@ && req.argv@[1]@ == "sh"@
                    && req.argv@.subrange(2, req.argv@.len() as int) == a@
                &&& !is_script(p@) ==> req.path == p && req.argv == a
            }
        },
{
    let ghost sp = old(tm).tasks()[cur].space;
    let p = match tm.read_user_cstr(cur, path, env) {
        Ok(p) => p,
        Err(e) => return Err(e),
    };
    let ghost m1 = tm.spaces()[sp];
    proof {
        assert(old(tm).spaces().contains_key(sp));
        if exists|a: Seq<String>| strings_at(&old(tm).spaces()[sp], argv.addr() as int, a) {
            let a = choose|a: Seq<String>| strings_at(&old(tm).spaces()[sp], argv.addr() as int, a);
            lemma_strings_stable(&old(tm).spaces()[sp], &m1, argv.addr() as int, a);
        }
        if exists|e: Seq<String>| strings_at(&old(tm).spaces()[sp], envp.addr() as int, e) {
            let e = choose|e: Seq<String>| strings_at(&old(tm).spaces()[sp], envp.addr() as int, e);
            lemma_strings_stable(&old(tm).spaces()[sp], &m1, envp.addr() as int, e);
        }
    }
    let a = match read_strings(tm, cur, argv, env) {
        Ok(a) => a,
        Err(e) => return Err(e),
    };
    let ghost m2 = tm.spaces()[sp];
    proof {
        if exists|e: Seq<String>| strings_at(&old(tm).spaces()[sp], envp.addr() as int, e) {
            let e = choose|e: Seq<String>| strings_at(&old(tm).spaces()[sp], envp.addr() as int, e);
            lemma_strings_stable(&old(tm).spaces()[sp], &m2, envp.addr() as int, e);
        }
    }
    let e = match read_strings(tm, cur, envp, env) {
        Ok(e) => e,
        Err(e) => return Err(e),
    };
    proof {
        assert(old(tm).spaces().contains_key(sp));
        lemma_same_space(&m1, &old(tm).spaces()[sp]);
        lemma_same_space(&m2, &old(tm).spaces()[sp]);
        lemma_strings_stable(&m1, &old(tm).spaces()[sp], argv.addr() as int, a@);
        lemma_strings_stable(&m2, &old(tm).spaces()[sp], envp.addr() as int, e@);
    }
    let (path, argv) = script_rewrite(p, a);
    Ok(ExecRequest { path, argv, envp: e })
}

proof fn lemma_strings_stable(a: &MemorySpace, b: &MemorySpace, va: int, v: Seq<String>)
    requires
        a.same_contents(b),
        a.area_list() == b.area_list(),
        strings_at(a, va, v),
    ensures
        strings_at(b, va, v),
{
    lemma_same_space(a, b);
    let ptrs = choose|ptrs: Seq<usize>|
        cvec_at(a, va, ptrs) && ptrs.len() == v.len() && forall|i: int|
            0 <= i < v.len() ==> #[trigger] cstr_at(a, ptrs[i] as int, v[i]@);
    assert(cvec_at(b, va, ptrs));
    assert forall|i: int| 0 <= i < v.len() implies #[trigger] cstr_at(b, ptrs[i] as int, v[i]@) by {
        assert(cstr_at(a, ptrs[i] as int, v[i]@));
    }
}

} // verus!
