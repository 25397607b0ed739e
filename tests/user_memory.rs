use kernel_core::error::{syscall_ret, SysError};
use kernel_core::mm::{ExceptionCause, HartEnv, MemorySpace, PageFaultAccessType, TrapVector, PAGE_SIZE};
use kernel_core::user_ptr::{FutexWord, UserPtr, UserRdWrPtr, UserReadPtr, UserSlice, UserWritePtr};

fn space() -> MemorySpace {
    let mut mm = MemorySpace::new();
    mm.map_area(1, 4, PageFaultAccessType::rw());
    mm.map_area(8, 9, PageFaultAccessType::ro());
    mm
}

#[test]
fn write_then_read_round_trip() {
    let mut mm = space();
    let mut env = HartEnv::new();
    let a = PAGE_SIZE + 12;
    UserWritePtr::<u32>::from_usize(a).write(&mut mm, &mut env, 0xdead_beef).unwrap();
    assert_eq!(UserReadPtr::<u32>::from_usize(a).read(&mut mm, &mut env), Ok(0xdead_beef));
    UserWritePtr::<i32>::from_usize(a + 100).write(&mut mm, &mut env, -5).unwrap();
    assert_eq!(UserReadPtr::<i32>::from_usize(a + 100).read(&mut mm, &mut env), Ok(-5));
    let w = 0x0102_0304_0506_0708usize;
    UserWritePtr::<usize>::from_usize(2 * PAGE_SIZE - 3).write(&mut mm, &mut env, w).unwrap();
    assert_eq!(UserReadPtr::<usize>::from_usize(2 * PAGE_SIZE - 3).read(&mut mm, &mut env), Ok(w));
    assert_eq!(mm.load(2 * PAGE_SIZE - 3), 0x08);
}

#[test]
fn little_endian_layout() {
    let mut mm = space();
    let mut env = HartEnv::new();
    UserWritePtr::<u32>::from_usize(PAGE_SIZE).write(&mut mm, &mut env, 0x11223344).unwrap();
    assert_eq!(mm.load(PAGE_SIZE), 0x44);
    assert_eq!(mm.load(PAGE_SIZE + 3), 0x11);
}

#[test]
fn null_and_unmapped_pointers_fault() {
    let mut mm = space();
    let mut env = HartEnv::new();
    assert_eq!(UserReadPtr::<u32>::null().read(&mut mm, &mut env), Err(SysError::EFAULT));
    assert_eq!(UserReadPtr::<u32>::from_usize(5 * PAGE_SIZE).read(&mut mm, &mut env), Err(SysError::EFAULT));
    assert_eq!(UserWritePtr::<u32>::from_usize(8 * PAGE_SIZE).write(&mut mm, &mut env, 1), Err(SysError::EFAULT));
    assert_eq!(UserReadPtr::<u32>::from_usize(4 * PAGE_SIZE - 2).read(&mut mm, &mut env), Err(SysError::EFAULT));
    assert_eq!(env.sum_depth, 0);
    assert_eq!(env.trap, TrapVector::Kernel);
}

#[test]
fn zero_length_access_succeeds_on_null() {
    let mut mm = space();
    let mut env = HartEnv::new();
    let v = UserReadPtr::<u32>::null().read_array(&mut mm, &mut env, 0).unwrap();
    assert!(v.is_empty());
    assert_eq!(UserWritePtr::<u32>::null().write_array(&mut mm, &mut env, &[]), Ok(()));
}

#[test]
fn arrays_round_trip() {
    let mut mm = space();
    let mut env = HartEnv::new();
    let data = [1u32, 2, 3, 0xffff_ffff];
    UserRdWrPtr::<u32>::from_usize(2 * PAGE_SIZE - 6).write_array(&mut mm, &mut env, &data).unwrap();
    let back = UserRdWrPtr::<u32>::from_usize(2 * PAGE_SIZE - 6).read_array(&mut mm, &mut env, 4).unwrap();
    assert_eq!(back, data.to_vec());
    assert_eq!(
        UserReadPtr::<u32>::from_usize(PAGE_SIZE).read_array(&mut mm, &mut env, usize::MAX / 2),
        Err(SysError::EFAULT)
    );
}

#[test]
fn cstr_reads_up_to_null() {
    let mut mm = space();
    let mut env = HartEnv::new();
    let a = 2 * PAGE_SIZE - 3;
    UserWritePtr::<u8>::from_usize(a).write_cstr(&mut mm, &mut env, "hello").unwrap();
    assert_eq!(mm.load(a + 5), 0);
    let s = UserReadPtr::<u8>::from_usize(a).read_cstr(&mut mm, &mut env).unwrap();
    assert_eq!(s, "hello");
    assert!(!s.contains('\0'));
    assert_eq!(env.sum_depth, 0);
}

#[test]
fn cstr_of_unmapped_pointer_is_efault() {
    let mut mm = space();
    let mut env = HartEnv::new();
    let r = UserReadPtr::<u8>::from_usize(6 * PAGE_SIZE).read_cstr(&mut mm, &mut env);
    assert_eq!(r, Err(SysError::EFAULT));
    assert_eq!(syscall_ret(r.map(|s| s.len())), -14);
    assert_eq!(env.trap, TrapVector::Kernel);
}

#[test]
fn unterminated_cstr_runs_off_the_mapping() {
    let mut mm = space();
    let mut env = HartEnv::new();
    let fill = vec![b'a'; 3 * PAGE_SIZE];
    UserWritePtr::<u8>::from_usize(PAGE_SIZE).write_as_bytes(&mut mm, &mut env, &fill).unwrap();
    let r = UserReadPtr::<u8>::from_usize(PAGE_SIZE).read_cstr(&mut mm, &mut env);
    assert_eq!(r, Err(SysError::EFAULT));
}

#[test]
fn write_cstr_errors() {
    let mut mm = space();
    let mut env = HartEnv::new();
    assert_eq!(
        UserWritePtr::<u8>::from_usize(usize::MAX - 1).write_cstr(&mut mm, &mut env, "abc"),
        Err(SysError::EINVAL)
    );
    assert_eq!(
        UserWritePtr::<u8>::from_usize(4 * PAGE_SIZE - 2).write_cstr(&mut mm, &mut env, "abc"),
        Err(SysError::EFAULT)
    );
    assert_eq!(mm.load(4 * PAGE_SIZE - 2), 0);
}

#[test]
fn cvec_reads_pointer_vector() {
    let mut mm = space();
    let mut env = HartEnv::new();
    let a = PAGE_SIZE + 8;
    UserWritePtr::<usize>::from_usize(a).write_array(&mut mm, &mut env, &[0x1000, 0x2000, 0]).unwrap();
    let v = UserReadPtr::<usize>::from_usize(a).read_cvec(&mut mm, &mut env).unwrap();
    assert_eq!(v, vec![0x1000, 0x2000]);
    let none = UserReadPtr::<usize>::from_usize(6 * PAGE_SIZE).read_cvec(&mut mm, &mut env);
    assert_eq!(none, Err(SysError::EFAULT));
}

#[test]
fn page_faults_and_probes() {
    let mut mm = space();
    assert!(mm.will_read_fail(PAGE_SIZE));
    assert_eq!(mm.handle_page_fault(PAGE_SIZE, PageFaultAccessType::rw()), Ok(()));
    assert!(!mm.will_read_fail(PAGE_SIZE));
    assert!(!mm.will_write_fail(PAGE_SIZE + 1));
    assert_eq!(mm.handle_page_fault(8 * PAGE_SIZE, PageFaultAccessType::rw()), Err(SysError::EFAULT));
    assert_eq!(mm.handle_page_fault(8 * PAGE_SIZE, PageFaultAccessType::ro()), Ok(()));
    assert!(mm.will_write_fail(8 * PAGE_SIZE));
    assert_eq!(mm.handle_page_fault(0, PageFaultAccessType::ro()), Err(SysError::EFAULT));
}

#[test]
fn access_types() {
    assert_eq!(PageFaultAccessType::ro().bits(), 2);
    assert_eq!(PageFaultAccessType::rw().bits(), 6);
    assert_eq!(PageFaultAccessType::rx().bits(), 10);
    assert_eq!(PageFaultAccessType::from_exception(ExceptionCause::StorePageFault), PageFaultAccessType::rw());
    assert_eq!(PageFaultAccessType::from_exception(ExceptionCause::InstructionPageFault), PageFaultAccessType::rx());
    assert_eq!(PageFaultAccessType::from_exception(ExceptionCause::LoadPageFault), PageFaultAccessType::ro());
    assert_eq!(PageFaultAccessType::from_bits_truncate(0xff), PageFaultAccessType { read: true, write: true, execute: true });
}

#[test]
fn guard_balances() {
    let mut mm = space();
    let mut env = HartEnv::new();
    assert_eq!(mm.just_ensure_user_area(&mut env, PAGE_SIZE, 3 * PAGE_SIZE, PageFaultAccessType::rw()), Ok(()));
    assert_eq!(mm.just_ensure_user_area(&mut env, PAGE_SIZE, 3 * PAGE_SIZE + 1, PageFaultAccessType::rw()), Err(SysError::EFAULT));
    assert!(!env.user_access_enabled());
    env.enter_user_access();
    assert!(env.user_access_enabled());
    env.leave_user_access(TrapVector::Kernel);
    assert_eq!(env, HartEnv::new());
}

#[test]
fn futex_word() {
    let mut mm = space();
    let mut env = HartEnv::new();
    UserWritePtr::<u32>::from_usize(PAGE_SIZE + 4).write(&mut mm, &mut env, 77).unwrap();
    let f = FutexWord::from(PAGE_SIZE + 4);
    assert_eq!(f.raw(), (PAGE_SIZE + 4) as u32);
    assert_eq!(f.check(&mut mm, &mut env), Ok(()));
    assert_eq!(f.read(&mm), 77);
    assert_eq!(FutexWord::from(7 * PAGE_SIZE).check(&mut mm, &mut env), Err(SysError::EFAULT));
}

#[test]
fn pointer_basics() {
    let p = UserReadPtr::<u8>::from_usize(0x1234);
    assert_eq!(p.as_usize(), 0x1234);
    assert!(p.not_null());
    assert!(UserPtr::<u8, kernel_core::user_ptr::In>::null().is_null());
    let q: UserWritePtr<u32> = UserWritePtr::from(0x40usize);
    assert_eq!(q.as_usize(), 0x40);
}

#[test]
fn user_slice_holds_the_guard() {
    let mut env = HartEnv::new();
    let mut data = vec![1u8, 2, 3];
    let view = UserSlice::new(&mut data[..], &mut env);
    assert!(env.user_access_enabled());
    assert_eq!(env.trap, TrapVector::UserAccess);
    assert_eq!(view.len(), 3);
    assert_eq!(view.as_slice(), &[1, 2, 3]);
    view.release(&mut env);
    assert_eq!(env, HartEnv::new());
}
