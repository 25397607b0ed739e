use kernel_core::error::{syscall_ret, SysError};
use kernel_core::node::{VFSNodePermission, VFSNodeType, DEFAULT_PERMISSION_FILE, OWNER_READ, OWNER_WRITE, OTHER_EXEC};

#[test]
fn node_type_predicates() {
    assert!(VFSNodeType::File.is_file());
    assert!(!VFSNodeType::Dir.is_file());
    assert!(VFSNodeType::Dir.is_dir());
    assert!(VFSNodeType::SymLink.is_symlink());
    assert!(VFSNodeType::BlockDevice.is_block_device());
    assert!(VFSNodeType::CharDevice.is_char_device());
    assert!(VFSNodeType::Fifo.is_fifo());
    assert!(VFSNodeType::Socket.is_socket());
    assert!(!VFSNodeType::Unknown.is_socket());
}

#[test]
fn node_type_chars() {
    assert_eq!(VFSNodeType::Dir.as_char(), 'd');
    assert_eq!(VFSNodeType::File.as_char(), '-');
    assert_eq!(VFSNodeType::Unknown.as_char(), '?');
    assert_eq!(VFSNodeType::from('l'), VFSNodeType::SymLink);
    assert_eq!(VFSNodeType::from('z'), VFSNodeType::Unknown);
}

#[test]
fn node_type_codes() {
    assert_eq!(VFSNodeType::from(0o4u8), VFSNodeType::Dir);
    assert_eq!(VFSNodeType::from(0o10u8), VFSNodeType::File);
    assert_eq!(VFSNodeType::from(3u8), VFSNodeType::Unknown);
    assert_eq!(VFSNodeType::Socket.as_u8(), 0o14);
}

#[test]
fn permission_string() {
    let p = VFSNodePermission::from_bits_truncate(OWNER_READ | OWNER_WRITE | OTHER_EXEC);
    assert_eq!(&p.get_permission_self(), b"rw------x");
    let q = VFSNodePermission::from_perm_str("rw------x");
    assert_eq!(q.bits(), p.bits());
    assert_eq!(VFSNodePermission::from_perm_str("---------").bits(), 0);
    assert_eq!(VFSNodePermission::from_perm_str("rwxrwxrwx").bits(), 0o777);
}

#[test]
fn permission_defaults() {
    assert_eq!(VFSNodePermission::get_permission_file_default().bits(), DEFAULT_PERMISSION_FILE);
    assert_eq!(&VFSNodePermission::get_permission_file_default().get_permission_self(), b"rw-rw-rw-");
    assert_eq!(VFSNodePermission::get_permission_dir_default().bits(), 0o777);
    assert!(VFSNodePermission::from_bits_truncate(0o7777).contains(OWNER_READ));
    assert_eq!(VFSNodePermission::from_bits_truncate(0o7000).bits(), 0);
}

#[test]
fn errno_encoding() {
    assert_eq!(syscall_ret(Err(SysError::EFAULT)), -14);
    assert_eq!(syscall_ret(Err(SysError::ECHILD)), -10);
    assert_eq!(syscall_ret(Err(SysError::EINVAL)), -22);
    assert_eq!(syscall_ret(Ok(7)), 7);
}
