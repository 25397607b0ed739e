use kernel_core::error::SysError;
use kernel_core::mm::{HartEnv, MemorySpace, PageFaultAccessType, PAGE_SIZE};
use kernel_core::process::{
    script_rewrite, sys_clone, sys_execve, sys_exit, sys_exit_group, sys_getpgid, sys_getpid,
    sys_getppid, sys_gettid, sys_geteuid, sys_getuid, sys_set_tid_address, sys_setpgid, sys_wait4,
    sys_wait4_wake, take_signal, send_signal, check_clone_flags, Wait4Step, CLONE_SIGHAND,
    CLONE_THREAD, CLONE_VM, CLONE_FILES, CLONE_FS, WNOHANG,
};
use kernel_core::task::{SigDetails, SigInfo, TaskManager, Tid, SIGCHLD};
use kernel_core::user_ptr::{UserReadPtr, UserWritePtr};

fn boot() -> (TaskManager, Tid, HartEnv) {
    let mut tm = TaskManager::new();
    let mut mm = MemorySpace::new();
    mm.map_area(1, 16, PageFaultAccessType::rw());
    let init = tm.create_process(mm).unwrap();
    (tm, init, HartEnv::new())
}

fn status_at(tm: &mut TaskManager, tid: Tid, env: &mut HartEnv, addr: usize) -> i32 {
    tm.read_user(tid, UserReadPtr::<i32>::from_usize(addr), env).unwrap()
}

#[test]
fn fork_exit_wait() {
    let (mut tm, parent, mut env) = boot();
    let child = sys_clone(&mut tm, parent, SIGCHLD, 0, 0, 0, 0).unwrap();
    assert_ne!(child, parent);
    assert_eq!(sys_getppid(&tm, child), Ok(parent));
    assert_eq!(sys_exit(&mut tm, child, 42), Ok(0));
    let ws = PAGE_SIZE * 2;
    let r = sys_wait4(&mut tm, parent, -1, UserWritePtr::from_usize(ws), 0, &mut env);
    assert!(matches!(r, Wait4Step::Done(Ok(t)) if t == child));
    assert_eq!(status_at(&mut tm, parent, &mut env, ws), 0x2A00);
    assert!(!tm.contains(child));
    assert!(!tm.get(parent).unwrap().children.contains(&child));
    assert_eq!(env, HartEnv::new());
}

#[test]
fn thread_clone_shares_vm() {
    let (mut tm, parent, mut env) = boot();
    let a = PAGE_SIZE * 3 + 16;
    tm.write_user(parent, UserWritePtr::<u32>::from_usize(a), 0xCAFE, &mut env).unwrap();
    let flags = CLONE_VM | CLONE_THREAD | CLONE_SIGHAND;
    let t = sys_clone(&mut tm, parent, flags, 0, 0, 0, 0).unwrap();
    assert_eq!(tm.read_user(t, UserReadPtr::<u32>::from_usize(a), &mut env), Ok(0xCAFE));
    assert_eq!(sys_getpid(&tm, t), sys_getpid(&tm, parent));
    assert_ne!(sys_gettid(&tm, t), sys_gettid(&tm, parent));
    assert_eq!(tm.get(t).unwrap().space, tm.get(parent).unwrap().space);
    assert!(tm.get(parent).unwrap().threads.contains(&t));
    assert_eq!(tm.get(t).unwrap().trap_cx.user_x[10], 0);
}

#[test]
fn fork_copies_memory() {
    let (mut tm, parent, mut env) = boot();
    let a = PAGE_SIZE * 3;
    tm.write_user(parent, UserWritePtr::<u32>::from_usize(a), 5, &mut env).unwrap();
    let c = sys_clone(&mut tm, parent, SIGCHLD, 0x8000, 0, 0, 0).unwrap();
    tm.write_user(c, UserWritePtr::<u32>::from_usize(a), 6, &mut env).unwrap();
    assert_eq!(tm.read_user(parent, UserReadPtr::<u32>::from_usize(a), &mut env), Ok(5));
    assert_eq!(tm.read_user(c, UserReadPtr::<u32>::from_usize(a), &mut env), Ok(6));
    assert_eq!(tm.get(c).unwrap().trap_cx.user_x[2], 0x8000);
    assert_eq!(tm.get(c).unwrap().exit_signal, SIGCHLD);
}

#[test]
fn wait4_specific_pid_suspends() {
    let (mut tm, parent, mut env) = boot();
    let c1 = sys_clone(&mut tm, parent, SIGCHLD, 0, 0, 0, 0).unwrap();
    let c2 = sys_clone(&mut tm, parent, SIGCHLD, 0, 0, 0, 0).unwrap();
    let ws = PAGE_SIZE * 2;
    let wp = || UserWritePtr::<i32>::from_usize(ws);
    assert!(matches!(sys_wait4(&mut tm, parent, c2 as i32, wp(), 0, &mut env), Wait4Step::Suspend));
    sys_exit(&mut tm, c1, 3).unwrap();
    assert!(matches!(sys_wait4(&mut tm, parent, c2 as i32, wp(), 0, &mut env), Wait4Step::Suspend));
    let si = take_signal(&mut tm, parent, SIGCHLD).unwrap();
    assert!(matches!(sys_wait4_wake(&mut tm, parent, c2 as i32, wp(), si, &mut env), Wait4Step::Suspend));
    sys_exit(&mut tm, c2, 7).unwrap();
    let si = take_signal(&mut tm, parent, SIGCHLD).unwrap();
    let r = sys_wait4_wake(&mut tm, parent, c2 as i32, wp(), si, &mut env);
    assert!(matches!(r, Wait4Step::Done(Ok(t)) if t == c2));
    assert_eq!(status_at(&mut tm, parent, &mut env, ws), 0x0700);
    assert!(!tm.contains(c2));
    assert!(tm.contains(c1));
    assert_eq!(tm.get(parent).unwrap().children, vec![c1]);
}

#[test]
fn wait4_errors_and_wnohang() {
    let (mut tm, parent, mut env) = boot();
    let ws = UserWritePtr::<i32>::null();
    assert!(matches!(sys_wait4(&mut tm, parent, -1, ws, 0, &mut env), Wait4Step::Done(Err(SysError::ECHILD))));
    let c = sys_clone(&mut tm, parent, SIGCHLD, 0, 0, 0, 0).unwrap();
    let ws = UserWritePtr::<i32>::null();
    assert!(matches!(sys_wait4(&mut tm, parent, (c + 10) as i32, ws, 0, &mut env), Wait4Step::Done(Err(SysError::ECHILD))));
    let ws = UserWritePtr::<i32>::null();
    assert!(matches!(sys_wait4(&mut tm, parent, -1, ws, WNOHANG, &mut env), Wait4Step::Done(Ok(0))));
    sys_exit(&mut tm, c, 1).unwrap();
    let bad = UserWritePtr::<i32>::from_usize(PAGE_SIZE * 40);
    assert!(matches!(sys_wait4(&mut tm, parent, -1, bad, 0, &mut env), Wait4Step::Done(Err(SysError::EFAULT))));
    let ws = UserWritePtr::<i32>::null();
    assert!(matches!(sys_wait4(&mut tm, parent, -1, ws, 0, &mut env), Wait4Step::Done(Ok(t)) if t == c));
}

#[test]
fn wait4_by_process_group() {
    let (mut tm, parent, mut env) = boot();
    let c = sys_clone(&mut tm, parent, SIGCHLD, 0, 0, 0, 0).unwrap();
    sys_exit(&mut tm, c, 0).unwrap();
    let ws = UserWritePtr::<i32>::null();
    assert!(matches!(sys_wait4(&mut tm, parent, 0, ws, 0, &mut env), Wait4Step::Done(Ok(t)) if t == c));
    let c = sys_clone(&mut tm, parent, SIGCHLD, 0, 0, 0, 0).unwrap();
    sys_exit(&mut tm, c, 0).unwrap();
    let ws = UserWritePtr::<i32>::null();
    assert!(matches!(sys_wait4(&mut tm, parent, -(parent as i32) - 100, ws, WNOHANG, &mut env), Wait4Step::Done(Ok(0))));
    let ws = UserWritePtr::<i32>::null();
    assert!(matches!(sys_wait4(&mut tm, parent, -(parent as i32), ws, 0, &mut env), Wait4Step::Done(Ok(t)) if t == c));
}

#[test]
fn clone_flag_validation() {
    let (mut tm, parent, _env) = boot();
    assert_eq!(sys_clone(&mut tm, parent, CLONE_THREAD | CLONE_VM, 0, 0, 0, 0), Err(SysError::EINVAL));
    assert_eq!(sys_clone(&mut tm, parent, CLONE_SIGHAND, 0, 0, 0, 0), Err(SysError::EINVAL));
    assert_eq!(sys_clone(&mut tm, parent, 0x4000_0000, 0, 0, 0, 0), Err(SysError::EINVAL));
    assert!(check_clone_flags(CLONE_VM | CLONE_FS | CLONE_FILES | CLONE_SIGHAND | CLONE_THREAD | 17));
    let t = sys_clone(&mut tm, parent, CLONE_VM | CLONE_FILES | CLONE_SIGHAND, 0, 0, 0, 0).unwrap();
    assert_eq!(tm.get(t).unwrap().files, tm.get(parent).unwrap().files);
}

#[test]
fn exit_of_thread_keeps_group_status() {
    let (mut tm, parent, _env) = boot();
    let t = sys_clone(&mut tm, parent, CLONE_VM | CLONE_THREAD | CLONE_SIGHAND, 0, 0, 0, 0).unwrap();
    sys_exit(&mut tm, t, 9).unwrap();
    assert!(tm.get(t).unwrap().zombie);
    assert_eq!(tm.get(t).unwrap().exit_code, 0);
    assert!(!tm.get(parent).unwrap().zombie);
}

#[test]
fn exit_group_zombifies_all_threads() {
    let (mut tm, parent, _env) = boot();
    let t1 = sys_clone(&mut tm, parent, CLONE_VM | CLONE_THREAD | CLONE_SIGHAND, 0, 0, 0, 0).unwrap();
    let t2 = sys_clone(&mut tm, parent, CLONE_VM | CLONE_THREAD | CLONE_SIGHAND, 0, 0, 0, 0).unwrap();
    assert_eq!(sys_exit_group(&mut tm, t1, 3), Ok(0));
    assert!(tm.get(parent).unwrap().zombie);
    assert!(tm.get(t2).unwrap().zombie);
    assert_eq!(tm.get(t1).unwrap().exit_code, 0x300);
}

#[test]
fn id_queries() {
    let (mut tm, parent, _env) = boot();
    let c = sys_clone(&mut tm, parent, SIGCHLD, 0, 0, 0, 0).unwrap();
    assert_eq!(sys_getpgid(&tm, c, 0), Ok(c));
    assert_eq!(sys_getpgid(&tm, c, parent), Ok(parent));
    assert_eq!(sys_getpgid(&tm, c, 999), Err(SysError::ESRCH));
    assert_eq!(sys_setpgid(&tm, c, 0, 5), Ok(c));
    assert_eq!(sys_getuid(), Ok(0));
    assert_eq!(sys_geteuid(), Ok(0));
    assert_eq!(sys_set_tid_address(&mut tm, c, 0x1000), Ok(c));
    assert_eq!(tm.get(c).unwrap().clear_child_tid, Some(0x1000));
}

#[test]
fn signal_queue_takes_matching_signal() {
    let (mut tm, parent, _env) = boot();
    let info = SigInfo { sig: SIGCHLD, details: SigDetails::Empty };
    let other = SigInfo { sig: 2, details: SigDetails::Empty };
    assert!(send_signal(&mut tm, parent, other));
    assert!(send_signal(&mut tm, parent, info));
    assert!(!send_signal(&mut tm, 999, info));
    assert_eq!(take_signal(&mut tm, parent, 9), None);
    assert_eq!(take_signal(&mut tm, parent, SIGCHLD), Some(info));
    assert_eq!(take_signal(&mut tm, parent, SIGCHLD), None);
    assert_eq!(take_signal(&mut tm, parent, 2), Some(other));
}

#[test]
fn script_paths_run_under_busybox() {
    let (p, a) = script_rewrite("/test.sh".to_string(), vec!["/test.sh".to_string()]);
    assert_eq!(p, "/busybox");
    assert_eq!(a, vec!["busybox".to_string(), "sh".to_string(), "/test.sh".to_string()]);
    let (p, a) = script_rewrite("/bin/ls".to_string(), vec!["ls".to_string()]);
    assert_eq!(p, "/bin/ls");
    assert_eq!(a, vec!["ls".to_string()]);
}

#[test]
fn execve_reads_arguments() {
    let (mut tm, cur, mut env) = boot();
    let base = PAGE_SIZE * 4;
    let put = |tm: &mut TaskManager, env: &mut HartEnv, at: usize, s: &str| {
        tm.write_user(cur, UserWritePtr::<u8>::from_usize(at), 0, env).unwrap();
        for (i, b) in s.bytes().enumerate() {
            tm.write_user(cur, UserWritePtr::<u8>::from_usize(at + i), b, env).unwrap();
        }
        tm.write_user(cur, UserWritePtr::<u8>::from_usize(at + s.len()), 0, env).unwrap();
    };
    put(&mut tm, &mut env, base, "run.sh");
    put(&mut tm, &mut env, base + 100, "run.sh");
    put(&mut tm, &mut env, base + 200, "A=1");
    let argv = base + 300;
    let envp = base + 400;
    for (i, w) in [base + 100, 0].iter().enumerate() {
        tm.write_user(cur, UserWritePtr::<usize>::from_usize(argv + 8 * i), *w, &mut env).unwrap();
    }
    for (i, w) in [base + 200, 0].iter().enumerate() {
        tm.write_user(cur, UserWritePtr::<usize>::from_usize(envp + 8 * i), *w, &mut env).unwrap();
    }
    let req = sys_execve(
        &mut tm,
        cur,
        UserReadPtr::from_usize(base),
        UserReadPtr::from_usize(argv),
        UserReadPtr::from_usize(envp),
        &mut env,
    )
    .unwrap();
    assert_eq!(req.path, "/busybox");
    assert_eq!(req.argv, vec!["busybox".to_string(), "sh".to_string(), "run.sh".to_string()]);
    assert_eq!(req.envp, vec!["A=1".to_string()]);
    let bad = sys_execve(
        &mut tm,
        cur,
        UserReadPtr::from_usize(PAGE_SIZE * 50),
        UserReadPtr::from_usize(argv),
        UserReadPtr::from_usize(envp),
        &mut env,
    );
    assert!(matches!(bad, Err(SysError::EFAULT)));
}

#[test]
fn exit_group_notifies_parent() {
    let (mut tm, parent, mut env) = boot();
    let c = sys_clone(&mut tm, parent, SIGCHLD, 0, 0, 0, 0).unwrap();
    let t = sys_clone(&mut tm, c, CLONE_VM | CLONE_THREAD | CLONE_SIGHAND, 0, 0, 0, 0).unwrap();
    assert_eq!(sys_getppid(&tm, t), Ok(parent));
    sys_exit_group(&mut tm, t, 4).unwrap();
    let si = take_signal(&mut tm, parent, SIGCHLD).unwrap();
    assert!(matches!(si.details, SigDetails::Chld { pid, status: 0x400, .. } if pid == c));
    let ws = UserWritePtr::<i32>::null();
    let r = sys_wait4_wake(&mut tm, parent, c as i32, ws, si, &mut env);
    assert!(matches!(r, Wait4Step::Done(Ok(x)) if x == c));
    assert!(!tm.contains(c));
}

#[test]
fn exec_commit_replaces_image() {
    let (mut tm, parent, mut env) = boot();
    let t = sys_clone(&mut tm, parent, CLONE_VM | CLONE_THREAD | CLONE_SIGHAND, 0, 0, 0, 0).unwrap();
    let other = sys_clone(&mut tm, parent, SIGCHLD, 0, 0, 0, 0).unwrap();
    let old_space = tm.get(parent).unwrap().space;
    let mut img = MemorySpace::new();
    img.map_area(20, 21, PageFaultAccessType::rx());
    kernel_core::process::exec_commit(&mut tm, parent, img, 20 * PAGE_SIZE, 0x7000).unwrap();
    let p = tm.get(parent).unwrap();
    assert_ne!(p.space, old_space);
    assert_eq!(p.trap_cx.sepc, 20 * PAGE_SIZE);
    assert_eq!(p.trap_cx.user_x[2], 0x7000);
    assert_eq!(p.trap_cx.user_x[10], 0);
    assert!(!p.zombie);
    assert!(tm.get(t).unwrap().zombie);
    assert!(!tm.get(other).unwrap().zombie);
    assert_eq!(tm.read_user(parent, UserReadPtr::<u32>::from_usize(PAGE_SIZE), &mut env), Err(SysError::EFAULT));
}
