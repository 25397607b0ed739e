use kernel_core::dentry::{
    DentryCache, DentryState, FileSystem, Inode, InodeInfo, RENAME_EXCHANGE, RENAME_NOREPLACE,
    RENAME_WHITEOUT,
};
use kernel_core::error::{SysError, SysResult};
use kernel_core::node::{VFSNodeType, VFSTimeSpec};

/// A filesystem that knows a fixed set of names.
struct MemFs {
    names: Vec<String>,
    removed: Vec<String>,
    renames: usize,
}

impl FileSystem for MemFs {
    fn base_open(&mut self, ino: usize) -> SysResult<usize> {
        Ok(ino + 100)
    }

    fn base_lookup(&mut self, _dir: usize, name: &str) -> SysResult<Option<InodeInfo>> {
        if name == "broken" {
            return Err(SysError::EIO);
        }
        if self.names.iter().any(|n| n == name) {
            let itype = if name == "x" { VFSNodeType::Dir } else { VFSNodeType::File };
            Ok(Some(InodeInfo { itype, mode: 0o644, size: 0 }))
        } else {
            Ok(None)
        }
    }

    fn base_create(&mut self, _dir: usize, name: &str, mode: u32) -> SysResult<InodeInfo> {
        self.names.push(name.to_string());
        Ok(InodeInfo { itype: VFSNodeType::File, mode, size: 0 })
    }

    fn base_remove(&mut self, _dir: usize, name: &str) -> SysResult<()> {
        self.removed.push(name.to_string());
        Ok(())
    }

    fn base_rename_to(&mut self, _old: usize, _new: usize, _flags: u32) -> SysResult<()> {
        self.renames += 1;
        Ok(())
    }
}

fn dir_inode(ino: usize) -> Inode {
    let t = VFSTimeSpec { sec: 0, nsec: 0 };
    Inode { ino, itype: VFSNodeType::Dir, mode: 0o755, size: 0, atime: t, mtime: t, ctime: t }
}

fn setup() -> (DentryCache, MemFs, usize) {
    let mut c = DentryCache::new();
    let root = c.new_root("/", 0);
    let ino = c.alloc_ino();
    c.set_inode(root, dir_inode(ino));
    let fs = MemFs { names: vec!["x".to_string(), "a".to_string()], removed: vec![], renames: 0 };
    (c, fs, root)
}

#[test]
fn negative_lookup_then_create() {
    let (mut c, mut fs, root) = setup();
    let x = c.lookup(&mut fs, root, "x").unwrap();
    assert_eq!(c.state(x), DentryState::Sync);
    assert!(!c.is_negetive(x));
    let missing = c.lookup(&mut fs, x, "missing").unwrap();
    assert!(c.is_negetive(missing));
    assert_eq!(c.state(missing), DentryState::Sync);
    assert_eq!(c.path(missing), "/x/missing");
    let before = c.len();
    let created = c.create(&mut fs, x, "missing", 0o600).unwrap();
    assert_eq!(created, missing);
    assert_eq!(c.len(), before);
    assert!(!c.is_negetive(created));
    assert_eq!(c.meta(x).children.len(), 1);
    assert_eq!(c.get_child(x, "missing"), Some(missing));
}

#[test]
fn parent_lists_child_under_its_name() {
    let (mut c, mut fs, root) = setup();
    let a = c.lookup(&mut fs, root, "a").unwrap();
    let x = c.lookup(&mut fs, root, "x").unwrap();
    for d in [a, x] {
        let p = c.parent(d).unwrap();
        let name = c.meta(d).name.clone();
        assert_eq!(c.get_child(p, &name), Some(d));
    }
    assert_eq!(c.parent(root), None);
    assert!(c.has_ancestor(a, root));
    assert!(!c.has_ancestor(root, a));
}

#[test]
fn cached_lookup_does_not_ask_again() {
    let (mut c, mut fs, root) = setup();
    let a = c.lookup(&mut fs, root, "a").unwrap();
    fs.names.clear();
    assert_eq!(c.lookup(&mut fs, root, "a"), Ok(a));
    assert!(!c.is_negetive(a));
}

#[test]
fn lookup_errors() {
    let (mut c, mut fs, root) = setup();
    let a = c.lookup(&mut fs, root, "a").unwrap();
    assert_eq!(c.lookup(&mut fs, a, "b"), Err(SysError::ENOTDIR));
    let n = c.lookup(&mut fs, root, "nothing").unwrap();
    assert_eq!(c.lookup(&mut fs, n, "b"), Err(SysError::ENOENT));
    assert_eq!(c.lookup(&mut fs, root, "broken"), Err(SysError::EIO));
    let b = c.get_child(root, "broken").unwrap();
    assert_eq!(c.state(b), DentryState::UnInit);
    assert_eq!(c.inode(n), Err(SysError::ENOENT));
}

#[test]
fn remove_makes_child_negative() {
    let (mut c, mut fs, root) = setup();
    let a = c.lookup(&mut fs, root, "a").unwrap();
    assert_eq!(c.remove(&mut fs, root, "a"), Ok(()));
    assert!(c.is_negetive(a));
    assert_eq!(fs.removed, vec!["a".to_string()]);
    assert_eq!(c.remove(&mut fs, root, "zzz"), Err(SysError::ENOENT));
}

#[test]
fn rename_rules() {
    let (mut c, mut fs, root) = setup();
    let a = c.lookup(&mut fs, root, "a").unwrap();
    let x = c.lookup(&mut fs, root, "x").unwrap();
    let n = c.lookup(&mut fs, root, "none").unwrap();
    assert_eq!(c.rename_to(&mut fs, a, x, RENAME_EXCHANGE | RENAME_NOREPLACE), Err(SysError::EINVAL));
    assert_eq!(c.rename_to(&mut fs, a, x, RENAME_EXCHANGE | RENAME_WHITEOUT), Err(SysError::EINVAL));
    assert_eq!(c.rename_to(&mut fs, a, root, 0), Err(SysError::EINVAL));
    assert_eq!(c.rename_to(&mut fs, a, n, RENAME_EXCHANGE), Err(SysError::ENOENT));
    assert_eq!(c.rename_to(&mut fs, a, x, RENAME_NOREPLACE), Err(SysError::EEXIST));
    assert_eq!(c.rename_to(&mut fs, a, n, RENAME_NOREPLACE), Ok(()));
    assert_eq!(fs.renames, 1);
}

#[test]
fn mount_point_paths() {
    let (mut c, mut fs, root) = setup();
    let x = c.lookup(&mut fs, root, "x").unwrap();
    let mnt = c.new_child(x, "/");
    let f = c.new_child(mnt, "f");
    assert_eq!(c.path(root), "/");
    assert_eq!(c.path(x), "/x");
    assert_eq!(c.path(mnt), "/x");
    assert_eq!(c.path(f), "/x/f");
}

#[test]
fn inode_numbers_are_fresh() {
    let (mut c, mut fs, root) = setup();
    let a = c.lookup(&mut fs, root, "a").unwrap();
    let x = c.lookup(&mut fs, root, "x").unwrap();
    let ia = c.inode(a).unwrap().ino;
    let ix = c.inode(x).unwrap().ino;
    assert_ne!(ia, ix);
    assert_eq!(c.alloc_ino(), ix + 1);
}

#[test]
fn open_needs_an_inode() {
    let (mut c, mut fs, root) = setup();
    let a = c.lookup(&mut fs, root, "a").unwrap();
    let ino = c.inode(a).unwrap().ino;
    assert_eq!(c.open(&mut fs, a), Ok(ino + 100));
    let n = c.lookup(&mut fs, root, "none").unwrap();
    assert_eq!(c.open(&mut fs, n), Err(SysError::ENOENT));
}

#[test]
fn finish_steps_follow_the_filesystem_answer() {
    let (mut c, _fs, root) = setup();
    let n = c.get_child_or_create(root, "n");
    assert_eq!(c.finish_lookup(n, Err(SysError::EIO)), Err(SysError::EIO));
    assert_eq!(c.state(n), DentryState::UnInit);
    assert_eq!(c.finish_lookup(n, Ok(None)), Ok(n));
    assert!(c.is_negetive(n));
    assert_eq!(c.state(n), DentryState::Sync);
    let next = c.alloc_ino() + 1;
    let info = InodeInfo { itype: VFSNodeType::File, mode: 0o600, size: 5 };
    assert_eq!(c.finish_create(n, Ok(info)), Ok(n));
    let i = c.inode(n).unwrap();
    assert_eq!((i.ino, i.itype, i.mode, i.size), (next, VFSNodeType::File, 0o600, 5));
    let m = c.get_child_or_create(root, "m");
    assert_eq!(c.finish_create(m, Err(SysError::EPERM)), Err(SysError::EPERM));
    assert!(c.is_negetive(m));
    let k = c.get_child_or_create(root, "k");
    assert_eq!(c.finish_lookup(k, Ok(Some(info))), Ok(k));
    assert_eq!(c.inode(k).unwrap().size, 5);
}
