//! The dentry cache: an in-memory tree of path components, each naming an
//! inode or, when negative, caching the absence of a name.
use vstd::prelude::*;

use crate::error::{SysError, SysResult};
use crate::node::{VFSNodeType, VFSTimeSpec};

verus! {

/// Whether a dentry agrees with the backing store.
#[derive(Debug, Clone, Copy, PartialEq, Eq, Structural)]
pub enum DentryState {
    /// Either not read from disk or written in memory only.
    UnInit,
    Sync,
    Dirty,
}

/// An in-memory inode.
#[derive(Debug, Clone, Copy, PartialEq, Eq, Structural)]
pub struct Inode {
    /// Unique number, from `alloc_ino`.
    pub ino: usize,
    pub itype: VFSNodeType,
    /// Permission bits.
    pub mode: u32,
    pub size: u64,
    pub atime: VFSTimeSpec,
    pub mtime: VFSTimeSpec,
    pub ctime: VFSTimeSpec,
}

/// What a filesystem reports of a node it found or made.
#[derive(Debug, Clone, Copy, PartialEq, Eq, Structural)]
pub struct InodeInfo {
    pub itype: VFSNodeType,
    pub mode: u32,
    pub size: u64,
}

/// Rename flag: swap source and target.
pub const RENAME_EXCHANGE: u32 = 2;
/// Rename flag: fail when the target exists.
pub const RENAME_NOREPLACE: u32 = 1;
/// Rename flag: leave a whiteout at the source.
pub const RENAME_WHITEOUT: u32 = 4;

/// The operations that a concrete filesystem provides for its directories.
/// `dir` is the inode number of the directory.
pub trait FileSystem {
    /// Opens the node numbered `ino`, returning a handle to the open file.
    fn base_open(&mut self, ino: usize) -> SysResult<usize>;

    /// Looks `name` up in `dir` on the backing store: `None` when there is
    /// no such name.
    fn base_lookup(&mut self, dir: usize, name: &str) -> SysResult<Option<InodeInfo>>;

    /// Creates `name` in `dir` with permission bits `mode`.
    fn base_create(&mut self, dir: usize, name: &str, mode: u32) -> SysResult<InodeInfo>;

    /// Removes `name` from `dir`.
    fn base_remove(&mut self, dir: usize, name: &str) -> SysResult<()>;

    /// Renames dentry `old` to the place of dentry `new`.
    fn base_rename_to(&mut self, old: usize, new: usize, flags: u32) -> SysResult<()>;
}

/// One node of the dentry tree.
pub struct DentryMeta {
    /// Name of this file or directory; `/` for the root of a filesystem.
    pub name: String,
    /// Identifier of the filesystem the dentry belongs to.
    pub super_block: usize,
    /// Parent dentry; `None` for a root.
    pub parent: Option<usize>,
    /// Inode it points to; `None` for a negative dentry.
    pub inode: Option<Inode>,
    /// Child dentries, each under its own name.
    pub children: Vec<usize>,
    pub state: DentryState,
}

impl DentryMeta {
    /// A negative dentry named `name`, not yet looked up.
    pub fn new(name: &str, super_block: usize, parent: Option<usize>) -> (r: Self)
        ensures
            r.name@ == name@,
            r.super_block == super_block,
            r.parent == parent,
            r.inode is None,
            r.children@ == Seq::<usize>::empty(),
            r.state == DentryState::UnInit,
    {
        DentryMeta {
            name: name.to_owned(),
            super_block,
            parent,
            inode: None,
            children: Vec::new(),
            state: DentryState::UnInit,
        }
    }
}

/// The dentry tree, with the inode-number counter of the filesystems it
/// caches. A dentry is named by its index.
pub struct DentryCache {
    nodes: Vec<DentryMeta>,
    next_ino: usize,
}

/// `c` is a child of `i` in `nodes`.
pub open spec fn has_child(nodes: Seq<DentryMeta>, i: int, c: usize) -> bool {
    nodes[i].children@.contains(c)
}

/// The shape invariant of a dentry tree.
pub open spec fn tree_wf(n: Seq<DentryMeta>) -> bool {
    &&& forall|i: int|
        0 <= i < n.len() ==> match (#[trigger] n[i]).parent {
            Some(p) => p < i && has_child(n, p as int, i as usize),
            None => true,
        }
    &&& forall|i: int, k: int|
        0 <= i < n.len() && 0 <= k < n[i].children@.len() ==> {
            let c = #[trigger] n[i].children@[k];
            c < n.len() && n[c as int].parent == Some(i as usize)
        }
    &&& forall|i: int, k1: int, k2: int|
        0 <= i < n.len() && 0 <= k1 < n[i].children@.len() && 0 <= k2 < n[i].children@.len()
            && #[trigger] n[n[i].children@[k1] as int].name@ == #[trigger] n[n[i].children@[k2] as int].name@
            ==> k1 == k2
}

/// The child of `d` in `n` named `name`, if any.
pub open spec fn child_named_in(n: Seq<DentryMeta>, d: usize, name: Seq<char>) -> Option<usize> {
    if exists|k: int|
        0 <= k < n[d as int].children@.len() && #[trigger] n[n[d as int].children@[k] as int].name@ == name {
        let k = choose|k: int|
            0 <= k < n[d as int].children@.len() && #[trigger] n[n[d as int].children@[k] as int].name@ == name;
        Some(n[d as int].children@[k])
    } else {
        None
    }
}

proof fn lemma_child_named_same_shape(a: Seq<DentryMeta>, b: Seq<DentryMeta>, d: usize, name: Seq<char>)
    requires
        tree_wf(a),
        same_shape(a, b),
        d < a.len(),
    ensures
        child_named_in(a, d, name) == child_named_in(b, d, name),
{
    assert(a[d as int].children@ == b[d as int].children@);
    assert forall|k: int| 0 <= k < a[d as int].children@.len() implies #[trigger] a[a[d as int].children@[k] as int].name@ == b[b[d as int].children@[k] as int].name@ by {
        let c = a[d as int].children@[k];
        assert(c < a.len());
    }
    if exists|k: int| 0 <= k < a[d as int].children@.len() && #[trigger] a[a[d as int].children@[k] as int].name@ == name {
        let ka = choose|k: int| 0 <= k < a[d as int].children@.len() && #[trigger] a[a[d as int].children@[k] as int].name@ == name;
        assert(b[b[d as int].children@[ka] as int].name@ == name);
        let kb = choose|k: int| 0 <= k < b[d as int].children@.len() && #[trigger] b[b[d as int].children@[k] as int].name@ == name;
        assert(a[a[d as int].children@[kb] as int].name@ == name);
        assert(ka == kb);
    } else {
        assert forall|k: int| 0 <= k < b[d as int].children@.len() implies #[trigger] b[b[d as int].children@[k] as int].name@ != name by {
            assert(a[a[d as int].children@[k] as int].name@ != name);
        }
    }
}

/// Two trees with the same names and links.
pub open spec fn same_shape(a: Seq<DentryMeta>, b: Seq<DentryMeta>) -> bool {
    &&& a.len() == b.len()
    &&& forall|i: int|
        0 <= i < a.len() ==> (#[trigger] a[i]).name@ == b[i].name@ && a[i].parent == b[i].parent
            && a[i].children@ == b[i].children@
}

proof fn lemma_same_shape_wf(a: Seq<DentryMeta>, b: Seq<DentryMeta>)
    requires
        tree_wf(a),
        same_shape(a, b),
    ensures
        tree_wf(b),
{
    assert forall|i: int| 0 <= i < b.len() implies match (#[trigger] b[i]).parent {
        Some(p) => p < i && has_child(b, p as int, i as usize),
        None => true,
    } by {
        assert(a[i].parent == b[i].parent);
        if let Some(p) = a[i].parent {
            assert(a[p as int].children@ == b[p as int].children@);
        }
    }
    assert forall|i: int, k: int| 0 <= i < b.len() && 0 <= k < b[i].children@.len() implies {
        let c = #[trigger] b[i].children@[k];
        c < b.len() && b[c as int].parent == Some(i as usize)
    } by {
        assert(a[i].children@ == b[i].children@);
        let c = a[i].children@[k];
        assert(a[c as int].parent == b[c as int].parent);
    }
    assert forall|i: int, k1: int, k2: int|
        0 <= i < b.len() && 0 <= k1 < b[i].children@.len() && 0 <= k2 < b[i].children@.len()
            && #[trigger] b[b[i].children@[k1] as int].name@ == #[trigger] b[b[i].children@[k2] as int].name@
        implies k1 == k2 by {
        assert(a[i].children@ == b[i].children@);
        let c1 = a[i].children@[k1];
        let c2 = a[i].children@[k2];
        assert(a[c1 as int].name@ == b[c1 as int].name@);
        assert(a[c2 as int].name@ == b[c2 as int].name@);
    }
}

impl DentryCache {
    pub closed spec fn nodes(&self) -> Seq<DentryMeta> {
        self.nodes@
    }

    pub closed spec fn next_ino_spec(&self) -> usize {
        self.next_ino
    }

    /// Parents come before their children and list them; every child names
    /// its parent back; no two children of a dentry share a name.
    pub open spec fn wf(&self) -> bool {
        tree_wf(self.nodes())
    }

    /// `d` names a dentry.
    pub open spec fn valid(&self, d: usize) -> bool {
        d < self.nodes().len()
    }

    /// The child of `d` named `name`, if any.
    pub open spec fn child_named(&self, d: usize, name: Seq<char>) -> Option<usize> {
        child_named_in(self.nodes(), d, name)
    }

    /// An empty tree.
    pub fn new() -> (r: Self)
        ensures
            r.wf(),
            r.nodes() == Seq::<DentryMeta>::empty(),
            r.next_ino_spec() == 0,
    {
        DentryCache { nodes: Vec::new(), next_ino: 0 }
    }

    /// Hands out the next inode number; the counter wraps around.
    pub fn alloc_ino(&mut self) -> (r: usize)
        ensures
            r == old(self).next_ino_spec(),
            final(self).next_ino_spec() == if r == usize::MAX { 0 } else { (r + 1) as usize },
            final(self).nodes() == old(self).nodes(),
    {
        let r = self.next_ino;
        self.next_ino = if r == usize::MAX {
            0
        } else {
            r + 1
        };
        r
    }

    /// Number of dentries.
    pub fn len(&self) -> (r: usize)
        ensures
            r == self.nodes().len(),
    {
        self.nodes.len()
    }

    /// Adds the root dentry of a filesystem.
    pub fn new_root(&mut self, name: &str, super_block: usize) -> (r: usize)
        requires
            old(self).wf(),
        ensures
            final(self).wf(),
            r == old(self).nodes().len(),
            final(self).nodes().len() == r + 1,
            final(self).nodes().subrange(0, r as int) == old(self).nodes(),
            final(self).nodes()[r as int].name@ == name@,
            final(self).nodes()[r as int].parent is None,
            final(self).nodes()[r as int].inode is None,
            final(self).nodes()[r as int].children@ == Seq::<usize>::empty(),
            final(self).nodes()[r as int].state == DentryState::UnInit,
            final(self).next_ino_spec() == old(self).next_ino_spec(),
    {
        let r = self.nodes.len();
        self.nodes.push(DentryMeta::new(name, super_block, None));
        proof {
            let n = self.nodes();
            let o = old(self).nodes();
            assert(n.subrange(0, r as int) =~= o);
            assert forall|i: int| 0 <= i < n.len() implies match (#[trigger] n[i]).parent {
                Some(p) => p < i && has_child(n, p as int, i as usize),
                None => true,
            } by {
                if i < r {
                    assert(n[i] == o[i]);
                    if let Some(p) = o[i].parent {
                        assert(n[p as int] == o[p as int]);
                    }
                }
            }
            assert forall|i: int, k: int| 0 <= i < n.len() && 0 <= k < n[i].children@.len() implies {
                let c = #[trigger] n[i].children@[k];
                c < n.len() && n[c as int].parent == Some(i as usize)
            } by {
                assert(n[i] == o[i]);
                let c = o[i].children@[k];
                assert(n[c as int] == o[c as int]);
            }
            assert forall|i: int, k1: int, k2: int|
                0 <= i < n.len() && 0 <= k1 < n[i].children@.len() && 0 <= k2 < n[i].children@.len()
                    && #[trigger] n[n[i].children@[k1] as int].name@ == #[trigger] n[n[i].children@[k2] as int].name@
                implies k1 == k2 by {
                assert(n[i] == o[i]);
                assert(n[o[i].children@[k1] as int] == o[o[i].children@[k1] as int]);
                assert(n[o[i].children@[k2] as int] == o[o[i].children@[k2] as int]);
            }
        }
        r
    }
}

/// `a` is a proper ancestor of `d`.
pub open spec fn is_ancestor(n: Seq<DentryMeta>, d: int, a: int) -> bool
    decreases d,
{
    if 0 <= d < n.len() {
        match n[d].parent {
            Some(p) => if p < d {
                p == a || is_ancestor(n, p as int, a)
            } else {
                false
            },
            None => false,
        }
    } else {
        false
    }
}

/// The path of dentry `d`. A dentry named `/` with a parent is the root of a
/// mounted filesystem and stands for its mount point.
pub open spec fn path_of(n: Seq<DentryMeta>, d: int) -> Seq<char>
    decreases d,
{
    if 0 <= d < n.len() {
        match n[d].parent {
            Some(p) => if p < d {
                let seg = if n[d].name@ == seq!['/'] {
                    Seq::<char>::empty()
                } else {
                    seq!['/'] + n[d].name@
                };
                if n[p as int].name@ == seq!['/'] {
                    match n[p as int].parent {
                        Some(g) => if g < p {
                            path_of(n, g as int) + seg
                        } else {
                            seg
                        },
                        None => seg,
                    }
                } else {
                    path_of(n, p as int) + seg
                }
            } else {
                seq!['/']
            },
            None => seq!['/'],
        }
    } else {
        seq!['/']
    }
}

/// The inode numbered `ino` for what a filesystem reported, with zero
/// timestamps.
pub open spec fn fresh_inode(ino: usize, info: InodeInfo) -> Inode {
    Inode {
        ino,
        itype: info.itype,
        mode: info.mode,
        size: info.size,
        atime: VFSTimeSpec { sec: 0, nsec: 0 },
        mtime: VFSTimeSpec { sec: 0, nsec: 0 },
        ctime: VFSTimeSpec { sec: 0, nsec: 0 },
    }
}

/// The inode counter after handing out `n`; it wraps around.
pub open spec fn next_ino_after(n: usize) -> usize {
    if n == usize::MAX {
        0
    } else {
        (n + 1) as usize
    }
}

/// Relies on `String::push_str`: appends `t` at the end of `s`.
#[verifier::external_body]
fn push_str(s: &mut String, t: &str)
    ensures
        final(s)@ == old(s)@ + t@,
{
    s.push_str(t)
}

/// The rename flags conflict: an exchange cannot also refuse to replace or
/// leave a whiteout.
pub open spec fn rename_flags_conflict(flags: u32) -> bool {
    flags & RENAME_EXCHANGE != 0 && (flags & RENAME_NOREPLACE != 0 || flags & RENAME_WHITEOUT != 0)
}

impl DentryCache {
    /// Whether `dir` is a proper ancestor of `d`.
    pub fn has_ancestor(&self, d: usize, dir: usize) -> (r: bool)
        requires
            self.wf(),
            self.valid(d),
        ensures
            r == is_ancestor(self.nodes(), d as int, dir as int),
        decreases d,
    {
        match self.nodes[d].parent {
            Some(p) => {
                assert(p < d);
                if p == dir {
                    true
                } else {
                    self.has_ancestor(p, dir)
                }
            },
            None => false,
        }
    }

    /// The path of dentry `d`.
    pub fn path(&self, d: usize) -> (r: String)
        requires
            self.wf(),
            self.valid(d),
        ensures
            r@ == path_of(self.nodes(), d as int),
        decreases d,
    {
        let slash = "/".to_owned();
        proof {
            reveal_strlit("/");
        }
        assert(slash@ == seq!['/']);
        match self.nodes[d].parent {
            Some(p) => {
                assert(p < d);
                let mut seg = String::new();
                if self.nodes[d].name != slash {
                    push_str(&mut seg, "/");
                    push_str(&mut seg, self.nodes[d].name.as_str());
                }
                assert(seg@ =~= if self.nodes()[d as int].name@ == seq!['/'] {
                    Seq::<char>::empty()
                } else {
                    seq!['/'] + self.nodes()[d as int].name@
                });
                if self.nodes[p].name == slash {
                    match self.nodes[p].parent {
                        Some(g) => {
                            assert(g < p);
                            let mut r = self.path(g);
                            push_str(&mut r, seg.as_str());
                            r
                        },
                        None => seg,
                    }
                } else {
                    let mut r = self.path(p);
                    push_str(&mut r, seg.as_str());
                    r
                }
            },
            None => slash,
        }
    }

    /// A fresh inode for what a filesystem reported.
    fn make_inode(&mut self, info: InodeInfo) -> (r: Inode)
        ensures
            r == fresh_inode(old(self).next_ino_spec(), info),
            final(self).nodes() == old(self).nodes(),
            final(self).next_ino_spec() == next_ino_after(old(self).next_ino_spec()),
    {
        let ino = self.alloc_ino();
        let t = VFSTimeSpec { sec: 0, nsec: 0 };
        Inode { ino, itype: info.itype, mode: info.mode, size: info.size, atime: t, mtime: t, ctime: t }
    }

    /// Looks `name` up in directory `d`. A cached child that has been looked
    /// up is returned as it is. Otherwise the child, made negative if it was
    /// not cached, is looked up on the filesystem: it gets an inode if the
    /// name exists there, stays negative if not, and is then in sync; an
    /// error of the filesystem is returned with the child left uninitialised.
    /// Fails with `ENOENT` when `d` is negative and `ENOTDIR` when it is not
    /// a directory.
    pub fn lookup<F: FileSystem>(&mut self, fs: &mut F, d: usize, name: &str) -> (r: SysResult<usize>)
        requires
            old(self).wf(),
            old(self).valid(d),
        ensures
            final(self).wf(),
            ({
                let od = old(self).nodes()[d as int];
                let cached = old(self).child_named(d, name@);
                &&& od.inode is None ==> r == Err::<usize, SysError>(SysError::ENOENT) && *final(self) == *old(self)
                &&& (od.inode matches Some(i) && i.itype != VFSNodeType::Dir) ==> r == Err::<usize, SysError>(SysError::ENOTDIR) && *final(self) == *old(self)
                &&& (od.inode matches Some(i) && i.itype == VFSNodeType::Dir) ==> {
                    &&& final(self).child_named(d, name@) is Some
                    &&& cached is Some ==> final(self).child_named(d, name@) == cached
                    &&& cached matches Some(c) ==> (old(self).nodes()[c as int].state != DentryState::UnInit
                        ==> r == Ok::<usize, SysError>(c) && *final(self) == *old(self))
                    &&& r matches Ok(c) ==> final(self).child_named(d, name@) == Some(c)
                        && (final(self).nodes()[c as int].state == DentryState::Sync || (cached == Some(c)
                        && final(self).nodes()[c as int].state == old(self).nodes()[c as int].state))
                    &&& (cached is None || (cached matches Some(c) && old(self).nodes()[c as int].state == DentryState::UnInit))
                        ==> (r matches Ok(c) ==> final(self).nodes()[c as int].state == DentryState::Sync)
                    &&& r matches Ok(c) ==> (final(self).nodes()[c as int].inode matches Some(i) ==> (
                        i.ino == old(self).next_ino_spec() || (cached matches Some(c0) && old(self).nodes()[c0 as int].inode == Some(i))))
                    &&& r is Err ==> final(self).nodes()[final(self).child_named(d, name@)->Some_0 as int].state == DentryState::UnInit
                }
            }),
    {
        let ino = match self.inode(d) {
            Ok(i) => i,
            Err(e) => return Err(e),
        };
        if !ino.itype.is_dir() {
            return Err(SysError::ENOTDIR);
        }
        let child = self.get_child_or_create(d, name);
        let ghost mid = self.nodes();
        if self.state(child) == DentryState::UnInit {
            let res = fs.base_lookup(ino.ino, name);
            let r = self.finish_lookup(child, res);
            proof {
                lemma_child_named_same_shape(mid, self.nodes(), d, name@);
            }
            return r;
        }
        Ok(child)
    }

    /// Settles a lookup of `child` with the filesystem's answer `res`: an
    /// error is returned and nothing changes; a missing name leaves the
    /// child's inode as it is; a found name gives the child a fresh inode
    /// built from what the filesystem reported. Either answer puts the child
    /// in sync.
    pub fn finish_lookup(&mut self, child: usize, res: SysResult<Option<InodeInfo>>) -> (r: SysResult<usize>)
        requires
            old(self).wf(),
            old(self).valid(child),
        ensures
            final(self).wf(),
            same_shape(old(self).nodes(), final(self).nodes()),
            res matches Err(e) ==> r == Err::<usize, SysError>(e) && *final(self) == *old(self),
            res matches Ok(None) ==> r == Ok::<usize, SysError>(child)
                && final(self).nodes() == old(self).nodes().update(
                    child as int,
                    DentryMeta { state: DentryState::Sync, ..old(self).nodes()[child as int] },
                ) && final(self).next_ino_spec() == old(self).next_ino_spec(),
            res matches Ok(Some(info)) ==> r == Ok::<usize, SysError>(child)
                && final(self).nodes() == old(self).nodes().update(
                    child as int,
                    DentryMeta {
                        inode: Some(fresh_inode(old(self).next_ino_spec(), info)),
                        state: DentryState::Sync,
                        ..old(self).nodes()[child as int]
                    },
                ) && final(self).next_ino_spec() == next_ino_after(old(self).next_ino_spec()),
    {
        match res {
            Err(e) => Err(e),
            Ok(found) => {
                match found {
                    Some(info) => {
                        let i = self.make_inode(info);
                        self.set_inode(child, i);
                    },
                    None => {},
                }
                self.change_state(child, DentryState::Sync);
                proof {
                    if let Some(info) = found {
                        assert(self.nodes() =~= old(self).nodes().update(
                            child as int,
                            DentryMeta {
                                inode: Some(fresh_inode(old(self).next_ino_spec(), info)),
                                state: DentryState::Sync,
                                ..old(self).nodes()[child as int]
                            },
                        ));
                    }
                }
                Ok(child)
            },
        }
    }

    /// Settles a creation of `child` with the filesystem's answer `res`: an
    /// error is returned and nothing changes; otherwise the child gets a
    /// fresh inode built from what the filesystem reported and is in sync.
    pub fn finish_create(&mut self, child: usize, res: SysResult<InodeInfo>) -> (r: SysResult<usize>)
        requires
            old(self).wf(),
            old(self).valid(child),
        ensures
            final(self).wf(),
            same_shape(old(self).nodes(), final(self).nodes()),
            res matches Err(e) ==> r == Err::<usize, SysError>(e) && *final(self) == *old(self),
            res matches Ok(info) ==> r == Ok::<usize, SysError>(child)
                && final(self).nodes() == old(self).nodes().update(
                    child as int,
                    DentryMeta {
                        inode: Some(fresh_inode(old(self).next_ino_spec(), info)),
                        state: DentryState::Sync,
                        ..old(self).nodes()[child as int]
                    },
                ) && final(self).next_ino_spec() == next_ino_after(old(self).next_ino_spec()),
    {
        match res {
            Err(e) => Err(e),
            Ok(info) => {
                let i = self.make_inode(info);
                self.set_inode(child, i);
                self.change_state(child, DentryState::Sync);
                assert(self.nodes() =~= old(self).nodes().update(
                    child as int,
                    DentryMeta {
                        inode: Some(fresh_inode(old(self).next_ino_spec(), info)),
                        state: DentryState::Sync,
                        ..old(self).nodes()[child as int]
                    },
                ));
                Ok(child)
            },
        }
    }

    /// Creates `name` in directory `d` on the filesystem and points the
    /// child of that name at a fresh inode; a cached negative child is
    /// promoted, and no second child of the name is made. Fails with
    /// `ENOENT` when `d` is negative, `ENOTDIR` when it is not a directory,
    /// and with the filesystem's error, which leaves the child as it was or
    /// newly negative.
    pub fn create<F: FileSystem>(&mut self, fs: &mut F, d: usize, name: &str, mode: u32) -> (r: SysResult<usize>)
        requires
            old(self).wf(),
            old(self).valid(d),
        ensures
            final(self).wf(),
            ({
                let od = old(self).nodes()[d as int];
                let cached = old(self).child_named(d, name@);
                &&& od.inode is None ==> r == Err::<usize, SysError>(SysError::ENOENT) && *final(self) == *old(self)
                &&& (od.inode matches Some(i) && i.itype != VFSNodeType::Dir) ==> r == Err::<usize, SysError>(SysError::ENOTDIR) && *final(self) == *old(self)
                &&& (od.inode matches Some(i) && i.itype == VFSNodeType::Dir) ==> {
                    &&& final(self).child_named(d, name@) is Some
                    &&& cached is Some ==> final(self).child_named(d, name@) == cached
                    &&& cached is Some ==> final(self).nodes().len() == old(self).nodes().len()
                    &&& cached is None ==> final(self).nodes().len() == old(self).nodes().len() + 1
                    &&& r matches Ok(c) ==> final(self).child_named(d, name@) == Some(c)
                        && final(self).nodes()[c as int].state == DentryState::Sync
                        && (final(self).nodes()[c as int].inode matches Some(i) && i.ino == old(self).next_ino_spec())
                }
            }),
    {
        let ino = match self.inode(d) {
            Ok(i) => i,
            Err(e) => return Err(e),
        };
        if !ino.itype.is_dir() {
            return Err(SysError::ENOTDIR);
        }
        let child = self.get_child_or_create(d, name);
        let ghost mid = self.nodes();
        let res = fs.base_create(ino.ino, name, mode);
        let r = self.finish_create(child, res);
        proof {
            lemma_child_named_same_shape(mid, self.nodes(), d, name@);
        }
        r
    }

    /// Removes `name` from directory `d`: the cached child becomes negative
    /// and the filesystem removes the name. Fails with `ENOENT` when `d` is
    /// negative or has no child of that name, `ENOTDIR` when it is not a
    /// directory, and with the filesystem's error.
    pub fn remove<F: FileSystem>(&mut self, fs: &mut F, d: usize, name: &str) -> (r: SysResult<()>)
        requires
            old(self).wf(),
            old(self).valid(d),
        ensures
            final(self).wf(),
            ({
                let od = old(self).nodes()[d as int];
                let cached = old(self).child_named(d, name@);
                &&& od.inode is None ==> r == Err::<(), SysError>(SysError::ENOENT) && *final(self) == *old(self)
                &&& (od.inode matches Some(i) && i.itype != VFSNodeType::Dir) ==> r == Err::<(), SysError>(SysError::ENOTDIR) && *final(self) == *old(self)
                &&& (od.inode matches Some(i) && i.itype == VFSNodeType::Dir) ==> {
                    &&& cached is None ==> r == Err::<(), SysError>(SysError::ENOENT) && *final(self) == *old(self)
                    &&& cached matches Some(c) ==> final(self).nodes() == old(self).nodes().update(
                        c as int,
                        DentryMeta { inode: None, ..old(self).nodes()[c as int] },
                    )
                }
            }),
    {
        let ino = match self.inode(d) {
            Ok(i) => i,
            Err(e) => return Err(e),
        };
        if !ino.itype.is_dir() {
            return Err(SysError::ENOTDIR);
        }
        let sub = match self.get_child(d, name) {
            Some(c) => c,
            None => return Err(SysError::ENOENT),
        };
        proof {
            let k = choose|k: int|
                0 <= k < self.nodes()[d as int].children@.len() && #[trigger] self.nodes()[self.nodes()[d as int].children@[k] as int].name@ == name@;
            assert(sub == self.nodes()[d as int].children@[k]);
        }
        self.clear_inode(sub);
        fs.base_remove(ino.ino, name)
    }

    /// Renames dentry `d` to the place of dentry `new`. Fails with `EINVAL`
    /// when an exchange is combined with another flag or when `new` is an
    /// ancestor of `d`, with `ENOENT` when an exchange names a negative
    /// target, with `EEXIST` when `RENAME_NOREPLACE` names a positive
    /// target, and otherwise with whatever the filesystem says.
    pub fn rename_to<F: FileSystem>(&mut self, fs: &mut F, d: usize, new: usize, flags: u32) -> (r: SysResult<()>)
        requires
            old(self).wf(),
            old(self).valid(d),
            old(self).valid(new),
        ensures
            *final(self) == *old(self),
            rename_flags_conflict(flags) ==> r == Err::<(), SysError>(SysError::EINVAL),
            !rename_flags_conflict(flags) && is_ancestor(old(self).nodes(), d as int, new as int)
                ==> r == Err::<(), SysError>(SysError::EINVAL),
            !rename_flags_conflict(flags) && !is_ancestor(old(self).nodes(), d as int, new as int)
                && old(self).nodes()[new as int].inode is None && flags & RENAME_EXCHANGE != 0
                ==> r == Err::<(), SysError>(SysError::ENOENT),
            !rename_flags_conflict(flags) && !is_ancestor(old(self).nodes(), d as int, new as int)
                && old(self).nodes()[new as int].inode is Some && flags & RENAME_NOREPLACE != 0
                ==> r == Err::<(), SysError>(SysError::EEXIST),
    {
        if flags & RENAME_EXCHANGE != 0 && (flags & RENAME_NOREPLACE != 0 || flags & RENAME_WHITEOUT != 0) {
            return Err(SysError::EINVAL);
        }
        if self.has_ancestor(d, new) {
            return Err(SysError::EINVAL);
        }
        let negative = self.is_negetive(new);
        if negative && flags & RENAME_EXCHANGE != 0 {
            return Err(SysError::ENOENT);
        } else if !negative && flags & RENAME_NOREPLACE != 0 {
            return Err(SysError::EEXIST);
        }
        fs.base_rename_to(d, new, flags)
    }

    /// Opens the file that dentry `d` points to. Fails with `ENOENT` for a
    /// negative dentry without asking the filesystem.
    pub fn open<F: FileSystem>(&self, fs: &mut F, d: usize) -> (r: SysResult<usize>)
        requires
            self.valid(d),
        ensures
            self.nodes()[d as int].inode is None ==> r == Err::<usize, SysError>(SysError::ENOENT),
    {
        match self.inode(d) {
            Ok(i) => fs.base_open(i.ino),
            Err(e) => Err(e),
        }
    }

    /// State of dentry `d`.
    pub fn state(&self, d: usize) -> (r: DentryState)
        requires
            self.valid(d),
        ensures
            r == self.nodes()[d as int].state,
    {
        self.nodes[d].state
    }

    /// Whether dentry `d` is negative: it has no inode.
    pub fn is_negetive(&self, d: usize) -> (r: bool)
        requires
            self.valid(d),
        ensures
            r == self.nodes()[d as int].inode is None,
    {
        self.nodes[d].inode.is_none()
    }

    /// The inode of dentry `d`; `ENOENT` for a negative dentry.
    pub fn inode(&self, d: usize) -> (r: SysResult<Inode>)
        requires
            self.valid(d),
        ensures
            r matches Ok(i) ==> self.nodes()[d as int].inode == Some(i),
            r is Err ==> self.nodes()[d as int].inode is None && r == Err::<Inode, SysError>(SysError::ENOENT),
    {
        match self.nodes[d].inode {
            Some(i) => Ok(i),
            None => Err(SysError::ENOENT),
        }
    }

    /// The node of dentry `d`.
    pub fn meta(&self, d: usize) -> (r: &DentryMeta)
        requires
            self.valid(d),
        ensures
            *r == self.nodes()[d as int],
    {
        &self.nodes[d]
    }

    /// The parent of dentry `d`.
    pub fn parent(&self, d: usize) -> (r: Option<usize>)
        requires
            self.valid(d),
        ensures
            r == self.nodes()[d as int].parent,
    {
        self.nodes[d].parent
    }

    /// Sets the state of dentry `d`.
    pub fn change_state(&mut self, d: usize, state: DentryState)
        requires
            old(self).wf(),
            old(self).valid(d),
        ensures
            final(self).wf(),
            final(self).nodes() == old(self).nodes().update(d as int, DentryMeta { state, ..old(self).nodes()[d as int] }),
            final(self).next_ino_spec() == old(self).next_ino_spec(),
    {
        self.nodes[d].state = state;
        proof {
            lemma_same_shape_wf(old(self).nodes(), self.nodes());
        }
    }

    /// Points dentry `d` at `inode`.
    pub fn set_inode(&mut self, d: usize, inode: Inode)
        requires
            old(self).wf(),
            old(self).valid(d),
        ensures
            final(self).wf(),
            final(self).nodes() == old(self).nodes().update(d as int, DentryMeta { inode: Some(inode), ..old(self).nodes()[d as int] }),
            final(self).next_ino_spec() == old(self).next_ino_spec(),
    {
        self.nodes[d].inode = Some(inode);
        proof {
            lemma_same_shape_wf(old(self).nodes(), self.nodes());
        }
    }

    /// Makes dentry `d` negative.
    pub fn clear_inode(&mut self, d: usize)
        requires
            old(self).wf(),
            old(self).valid(d),
        ensures
            final(self).wf(),
            final(self).nodes() == old(self).nodes().update(d as int, DentryMeta { inode: None, ..old(self).nodes()[d as int] }),
            final(self).next_ino_spec() == old(self).next_ino_spec(),
    {
        self.nodes[d].inode = None;
        proof {
            lemma_same_shape_wf(old(self).nodes(), self.nodes());
        }
    }

    /// The child of `d` named `name`, if it is cached.
    pub fn get_child(&self, d: usize, name: &str) -> (r: Option<usize>)
        requires
            self.wf(),
            self.valid(d),
        ensures
            r == self.child_named(d, name@),
    {
        let key = name.to_owned();
        let n = &self.nodes[d];
        let mut k: usize = 0;
        while k < n.children.len()
            invariant
                0 <= k <= n.children@.len(),
                *n == self.nodes()[d as int],
                self.wf(),
                self.valid(d),
                key@ == name@,
                forall|j: int| 0 <= j < k ==> #[trigger] self.nodes()[n.children@[j] as int].name@ != name@,
            decreases n.children@.len() - k,
        {
            let c = n.children[k];
            assert(c < self.nodes().len());
            if self.nodes[c].name == key {
                proof {
                    let kk = choose|kk: int|
                        0 <= kk < self.nodes()[d as int].children@.len() && #[trigger] self.nodes()[self.nodes()[d as int].children@[kk] as int].name@ == name@;
                    assert(self.nodes()[self.nodes()[d as int].children@[k as int] as int].name@ == name@);
                }
                return Some(c);
            }
            k = k + 1;
        }
        None
    }

    /// Adds a negative child named `name` to `d`; `d` has none of that name.
    pub fn new_child(&mut self, d: usize, name: &str) -> (r: usize)
        requires
            old(self).wf(),
            old(self).valid(d),
            old(self).child_named(d, name@) is None,
        ensures
            final(self).wf(),
            r == old(self).nodes().len(),
            final(self).nodes().len() == r + 1,
            final(self).nodes()[r as int].name@ == name@,
            final(self).nodes()[r as int].parent == Some(d),
            final(self).nodes()[r as int].inode is None,
            final(self).nodes()[r as int].state == DentryState::UnInit,
            final(self).nodes()[r as int].children@ == Seq::<usize>::empty(),
            final(self).nodes()[d as int] == (DentryMeta { children: final(self).nodes()[d as int].children, ..old(self).nodes()[d as int] }),
            final(self).nodes()[d as int].children@ == old(self).nodes()[d as int].children@.push(r),
            forall|i: int| 0 <= i < old(self).nodes().len() && i != d ==> #[trigger] final(self).nodes()[i] == old(self).nodes()[i],
            final(self).child_named(d, name@) == Some(r),
            final(self).next_ino_spec() == old(self).next_ino_spec(),
    {
        let r = self.nodes.len();
        let sb = self.nodes[d].super_block;
        self.nodes.push(DentryMeta::new(name, sb, Some(d)));
        self.nodes[d].children.push(r);
        proof {
            let n = self.nodes();
            let o = old(self).nodes();
            assert forall|j: int| 0 <= j < o[d as int].children@.len() implies #[trigger] o[o[d as int].children@[j] as int].name@ != name@ by {
                if o[o[d as int].children@[j] as int].name@ == name@ {
                    assert(exists|k: int| 0 <= k < o[d as int].children@.len() && #[trigger] o[o[d as int].children@[k] as int].name@ == name@);
                }
            }
            assert forall|i: int| 0 <= i < n.len() implies match (#[trigger] n[i]).parent {
                Some(p) => p < i && has_child(n, p as int, i as usize),
                None => true,
            } by {
                if i < r {
                    if let Some(p) = o[i].parent {
                        assert(has_child(o, p as int, i as usize));
                        if p == d {
                            let j = choose|j: int| 0 <= j < o[d as int].children@.len() && o[d as int].children@[j] == i as usize;
                            assert(n[d as int].children@[j] == i as usize);
                        }
                    }
                } else {
                    assert(n[d as int].children@[o[d as int].children@.len() as int] == r);
                }
            }
            assert forall|i: int, k: int| 0 <= i < n.len() && 0 <= k < n[i].children@.len() implies {
                let c = #[trigger] n[i].children@[k];
                c < n.len() && n[c as int].parent == Some(i as usize)
            } by {
                if i != d && i < r {
                    let c = o[i].children@[k];
                    assert(c < o.len());
                } else if i == d && k < o[d as int].children@.len() {
                    let c = o[d as int].children@[k];
                    assert(c < o.len());
                }
            }
            assert forall|i: int, k1: int, k2: int|
                0 <= i < n.len() && 0 <= k1 < n[i].children@.len() && 0 <= k2 < n[i].children@.len()
                    && #[trigger] n[n[i].children@[k1] as int].name@ == #[trigger] n[n[i].children@[k2] as int].name@
                implies k1 == k2 by {
                if i != d && i < r {
                    let c1 = o[i].children@[k1];
                    let c2 = o[i].children@[k2];
                    assert(c1 < o.len() && c2 < o.len());
                    assert(o[o[i].children@[k1] as int].name@ == o[o[i].children@[k2] as int].name@);
                } else if i == d {
                    let m = o[d as int].children@.len() as int;
                    if k1 < m && k2 < m {
                        let c1 = o[d as int].children@[k1];
                        let c2 = o[d as int].children@[k2];
                        assert(c1 < o.len() && c2 < o.len());
                        assert(o[o[d as int].children@[k1] as int].name@ == o[o[d as int].children@[k2] as int].name@);
                    } else if k1 < m {
                        let c1 = o[d as int].children@[k1];
                        assert(c1 < o.len());
                        assert(o[o[d as int].children@[k1] as int].name@ != name@);
                    } else if k2 < m {
                        let c2 = o[d as int].children@[k2];
                        assert(c2 < o.len());
                        assert(o[o[d as int].children@[k2] as int].name@ != name@);
                    }
                }
            }
            let m = o[d as int].children@.len() as int;
            assert(n[n[d as int].children@[m] as int].name@ == name@);
            let kk = choose|kk: int|
                0 <= kk < n[d as int].children@.len() && #[trigger] n[n[d as int].children@[kk] as int].name@ == name@;
            assert(kk == m);
        }
        r
    }

    /// The child of `d` named `name`, made as a negative dentry when it is
    /// not cached.
    pub fn get_child_or_create(&mut self, d: usize, name: &str) -> (r: usize)
        requires
            old(self).wf(),
            old(self).valid(d),
        ensures
            final(self).wf(),
            final(self).valid(r),
            final(self).child_named(d, name@) == Some(r),
            old(self).child_named(d, name@) is Some ==> old(self).child_named(d, name@) == Some(r)
                && *final(self) == *old(self),
            old(self).child_named(d, name@) is None ==> r == old(self).nodes().len()
                && final(self).nodes().len() == r + 1
                && final(self).nodes()[r as int].inode is None
                && final(self).nodes()[r as int].state == DentryState::UnInit
                && forall|i: int| 0 <= i < old(self).nodes().len() && i != d ==> #[trigger] final(self).nodes()[i] == old(self).nodes()[i],
            old(self).child_named(d, name@) is None ==> final(self).nodes()[d as int].children@
                == old(self).nodes()[d as int].children@.push(r) && final(self).nodes()[d as int] == (DentryMeta {
                children: final(self).nodes()[d as int].children,
                ..old(self).nodes()[d as int]
            }),
            final(self).next_ino_spec() == old(self).next_ino_spec(),
    {
        match self.get_child(d, name) {
            Some(c) => {
                proof {
                    let k = choose|k: int|
                        0 <= k < self.nodes()[d as int].children@.len() && #[trigger] self.nodes()[self.nodes()[d as int].children@[k] as int].name@ == name@;
                    assert(c == self.nodes()[d as int].children@[k]);
                }
                c
            },
            None => self.new_child(d, name),
        }
    }
}

/// A dentry with a parent is listed by that parent under its own name.
pub proof fn lemma_parent_lists_child(cache: &DentryCache, d: usize)
    requires
        cache.wf(),
        cache.valid(d),
        cache.nodes()[d as int].parent is Some,
    ensures
        ({
            let p = cache.nodes()[d as int].parent->Some_0;
            &&& cache.valid(p)
            &&& cache.child_named(p, cache.nodes()[d as int].name@) == Some(d)
        }),
{
    let n = cache.nodes();
    let p = n[d as int].parent->Some_0;
    assert(n[d as int].parent == Some(p));
    assert(has_child(n, p as int, d));
    let k = choose|k: int| 0 <= k < n[p as int].children@.len() && n[p as int].children@[k] == d;
    assert(n[n[p as int].children@[k] as int].name@ == n[d as int].name@);
    let kk = choose|kk: int|
        0 <= kk < n[p as int].children@.len() && #[trigger] n[n[p as int].children@[kk] as int].name@ == n[d as int].name@;
    assert(kk == k);
}

} // verus!
