//! Node types, permission bits and the plain records of the virtual
//! filesystem.
use vstd::prelude::*;
use vstd::string::StringSliceAdditionalSpecFns;

verus! {

/// The type of a filesystem node.
#[derive(Debug, Clone, Copy, PartialEq, Eq, Structural)]
pub enum VFSNodeType {
    Unknown,
    Fifo,
    CharDevice,
    Dir,
    BlockDevice,
    File,
    SymLink,
    Socket,
}

/// The numeric code of each node type (the `d_type` octal values).
pub open spec fn node_type_code(t: VFSNodeType) -> u8 {
    match t {
        VFSNodeType::Unknown => 0,
        VFSNodeType::Fifo => 1,
        VFSNodeType::CharDevice => 2,
        VFSNodeType::Dir => 4,
        VFSNodeType::BlockDevice => 6,
        VFSNodeType::File => 8,
        VFSNodeType::SymLink => 10,
        VFSNodeType::Socket => 12,
    }
}

/// The node type that a numeric code stands for; unknown codes map to `Unknown`.
pub open spec fn node_type_of_code(v: u8) -> VFSNodeType {
    if v == 1 {
        VFSNodeType::Fifo
    } else if v == 2 {
        VFSNodeType::CharDevice
    } else if v == 4 {
        VFSNodeType::Dir
    } else if v == 6 {
        VFSNodeType::BlockDevice
    } else if v == 8 {
        VFSNodeType::File
    } else if v == 10 {
        VFSNodeType::SymLink
    } else if v == 12 {
        VFSNodeType::Socket
    } else {
        VFSNodeType::Unknown
    }
}

/// The `ls -l` letter of each node type.
pub open spec fn node_type_char(t: VFSNodeType) -> char {
    match t {
        VFSNodeType::Fifo => 'p',
        VFSNodeType::CharDevice => 'c',
        VFSNodeType::Dir => 'd',
        VFSNodeType::BlockDevice => 'b',
        VFSNodeType::File => '-',
        VFSNodeType::SymLink => 'l',
        VFSNodeType::Socket => 's',
        VFSNodeType::Unknown => '?',
    }
}

/// The node type that an `ls -l` letter stands for.
pub open spec fn node_type_of_char(c: char) -> VFSNodeType {
    if c == '-' {
        VFSNodeType::File
    } else if c == 'd' {
        VFSNodeType::Dir
    } else if c == 'l' {
        VFSNodeType::SymLink
    } else if c == 'c' {
        VFSNodeType::CharDevice
    } else if c == 'b' {
        VFSNodeType::BlockDevice
    } else if c == 'p' {
        VFSNodeType::Fifo
    } else if c == 's' {
        VFSNodeType::Socket
    } else {
        VFSNodeType::Unknown
    }
}

impl VFSNodeType {
    /// Tests whether this node type represents a regular file.
    pub fn is_file(self) -> (r: bool)
        ensures
            r == (self == VFSNodeType::File),
    {
        self == VFSNodeType::File
    }

    /// Tests whether this node type represents a directory.
    pub fn is_dir(self) -> (r: bool)
        ensures
            r == (self == VFSNodeType::Dir),
    {
        self == VFSNodeType::Dir
    }

    /// Tests whether this node type represents a symbolic link.
    pub fn is_symlink(self) -> (r: bool)
        ensures
            r == (self == VFSNodeType::SymLink),
    {
        self == VFSNodeType::SymLink
    }

    /// Returns `true` if this node type is a block device.
    pub fn is_block_device(self) -> (r: bool)
        ensures
            r == (self == VFSNodeType::BlockDevice),
    {
        self == VFSNodeType::BlockDevice
    }

    /// Returns `true` if this node type is a char device.
    pub fn is_char_device(self) -> (r: bool)
        ensures
            r == (self == VFSNodeType::CharDevice),
    {
        self == VFSNodeType::CharDevice
    }

    /// Returns `true` if this node type is a fifo.
    pub fn is_fifo(self) -> (r: bool)
        ensures
            r == (self == VFSNodeType::Fifo),
    {
        self == VFSNodeType::Fifo
    }

    /// Returns `true` if this node type is a socket.
    pub fn is_socket(self) -> (r: bool)
        ensures
            r == (self == VFSNodeType::Socket),
    {
        self == VFSNodeType::Socket
    }

    /// Returns a character representation of the node type: `d` for a
    /// directory, `-` for a regular file, `?` for an unknown type.
    pub fn as_char(self) -> (r: char)
        ensures
            r == node_type_char(self),
    {
        match self {
            VFSNodeType::Fifo => 'p',
            VFSNodeType::CharDevice => 'c',
            VFSNodeType::Dir => 'd',
            VFSNodeType::BlockDevice => 'b',
            VFSNodeType::File => '-',
            VFSNodeType::SymLink => 'l',
            VFSNodeType::Socket => 's',
            VFSNodeType::Unknown => '?',
        }
    }

    /// The numeric code of this node type.
    pub fn as_u8(self) -> (r: u8)
        ensures
            r == node_type_code(self),
    {
        match self {
            VFSNodeType::Unknown => 0,
            VFSNodeType::Fifo => 1,
            VFSNodeType::CharDevice => 2,
            VFSNodeType::Dir => 4,
            VFSNodeType::BlockDevice => 6,
            VFSNodeType::File => 8,
            VFSNodeType::SymLink => 10,
            VFSNodeType::Socket => 12,
        }
    }
}

impl From<u8> for VFSNodeType {
    fn from(value: u8) -> (r: Self) {
        if value == 1 {
            VFSNodeType::Fifo
        } else if value == 2 {
            VFSNodeType::CharDevice
        } else if value == 4 {
            VFSNodeType::Dir
        } else if value == 6 {
            VFSNodeType::BlockDevice
        } else if value == 8 {
            VFSNodeType::File
        } else if value == 10 {
            VFSNodeType::SymLink
        } else if value == 12 {
            VFSNodeType::Socket
        } else {
            VFSNodeType::Unknown
        }
    }
}

impl vstd::std_specs::convert::FromSpecImpl<u8> for VFSNodeType {
    open spec fn obeys_from_spec() -> bool {
        true
    }

    open spec fn from_spec(v: u8) -> Self {
        node_type_of_code(v)
    }
}

impl From<char> for VFSNodeType {
    fn from(value: char) -> (r: Self) {
        if value == '-' {
            VFSNodeType::File
        } else if value == 'd' {
            VFSNodeType::Dir
        } else if value == 'l' {
            VFSNodeType::SymLink
        } else if value == 'c' {
            VFSNodeType::CharDevice
        } else if value == 'b' {
            VFSNodeType::BlockDevice
        } else if value == 'p' {
            VFSNodeType::Fifo
        } else if value == 's' {
            VFSNodeType::Socket
        } else {
            VFSNodeType::Unknown
        }
    }
}

impl vstd::std_specs::convert::FromSpecImpl<char> for VFSNodeType {
    open spec fn obeys_from_spec() -> bool {
        true
    }

    open spec fn from_spec(v: char) -> Self {
        node_type_of_char(v)
    }
}

/// A point in time: seconds and nanoseconds.
#[derive(Debug, Clone, Copy, PartialEq, Eq, Structural)]
pub struct VFSTimeSpec {
    pub sec: u64,
    /// Nanoseconds, from 0 to 999999999.
    pub nsec: u64,
}

/// A directory entry as `getdents` reports it.
pub struct VFSDirEntry {
    /// Inode number.
    pub inode_num: u64,
    /// Node type.
    pub ty: VFSNodeType,
    /// File name.
    pub name: String,
}

/// A mounted filesystem: its root dentry, the dentry it is mounted on, and
/// the mount flags. Dentries are named by their index in the dentry cache.
#[derive(Debug, Clone, Copy, PartialEq, Eq, Structural)]
pub struct VFSMountPoint {
    pub root: usize,
    pub mount_point: usize,
    pub mount_flags: u32,
}

/// File status as `stat` reports it.
#[derive(Debug, Clone, Copy, PartialEq, Eq, Structural)]
pub struct VFSFileStat {
    pub st_dev: u64,
    pub st_ino: u64,
    pub st_mode: u32,
    pub st_nlink: u32,
    pub st_uid: u32,
    pub st_gid: u32,
    pub st_rdev: u64,
    pub __pad: u64,
    pub st_size: u64,
    pub st_blksize: u32,
    pub __pad2: u32,
    pub st_blocks: u64,
    pub st_atime: VFSTimeSpec,
    pub st_mtime: VFSTimeSpec,
    pub st_ctime: VFSTimeSpec,
    pub unused: u64,
}

/// A time to set on a node.
#[derive(Debug, Clone, Copy, PartialEq, Eq, Structural)]
pub enum VFSTime {
    AccessTime(VFSTimeSpec),
    ModifiedTime(VFSTimeSpec),
}

/// Number of characters in a permission string such as `rwxr-x---`.
pub const PERMISSION_LEN: usize = 9;

/// Owner may read.
pub const OWNER_READ: u16 = 0o100;
/// Owner may write.
pub const OWNER_WRITE: u16 = 0o200;
/// Owner may execute.
pub const OWNER_EXEC: u16 = 0o400;
/// Group may read.
pub const GROUP_READ: u16 = 0o10;
/// Group may write.
pub const GROUP_WRITE: u16 = 0o20;
/// Group may execute.
pub const GROUP_EXEC: u16 = 0o40;
/// Others may read.
pub const OTHER_READ: u16 = 0o1;
/// Others may write.
pub const OTHER_WRITE: u16 = 0o2;
/// Others may execute.
pub const OTHER_EXEC: u16 = 0o4;
/// Every permission bit.
pub const PERMISSION_ALL: u16 = 0o777;
/// Default permissions of a file: everyone may read and write, nobody
/// may execute.
pub const DEFAULT_PERMISSION_FILE: u16 = 0o333;
/// Default permissions of a directory: everyone may do everything.
pub const DEFAULT_PERMISSION_DIR: u16 = 0o777;

/// The permission bit shown at position `i` of a permission string.
pub open spec fn perm_flag(i: int) -> u16 {
    if i == 0 {
        OWNER_READ
    } else if i == 1 {
        OWNER_WRITE
    } else if i == 2 {
        OWNER_EXEC
    } else if i == 3 {
        GROUP_READ
    } else if i == 4 {
        GROUP_WRITE
    } else if i == 5 {
        GROUP_EXEC
    } else if i == 6 {
        OTHER_READ
    } else if i == 7 {
        OTHER_WRITE
    } else {
        OTHER_EXEC
    }
}

/// The letter shown at position `i` of a permission string when the
/// permission is granted: `r`, `w`, `x` for owner, group and others.
pub open spec fn perm_letter(i: int) -> u8 {
    if i % 3 == 0 {
        0x72
    } else if i % 3 == 1 {
        0x77
    } else {
        0x78
    }
}

fn flag_at(i: usize) -> (r: (u16, u8))
    requires
        i < 9,
    ensures
        r == (perm_flag(i as int), perm_letter(i as int)),
{
    let flags: [u16; 9] = [
        OWNER_READ,
        OWNER_WRITE,
        OWNER_EXEC,
        GROUP_READ,
        GROUP_WRITE,
        GROUP_EXEC,
        OTHER_READ,
        OTHER_WRITE,
        OTHER_EXEC,
    ];
    let letter: u8 = if i % 3 == 0 {
        0x72u8
    } else if i % 3 == 1 {
        0x77u8
    } else {
        0x78u8
    };
    (flags[i], letter)
}

/// Permission bits of a node.
#[derive(Debug, Clone, Copy, PartialEq, Eq, Structural)]
pub struct VFSNodePermission {
    bits: u16,
}

proof fn lemma_or_bits(x: u16, f: u16, g: u16)
    requires
        f & g == 0,
    ensures
        (x | f) & g == x & g,
{
    assert((x | f) & g == x & g) by (bit_vector)
        requires
            f & g == 0,
    ;
}

proof fn lemma_or_self(x: u16, f: u16)
    ensures
        (x | f) & f == f,
{
    assert((x | f) & f == f) by (bit_vector);
}

impl VFSNodePermission {
    pub closed spec fn bits_spec(&self) -> u16 {
        self.bits
    }

    /// No permission.
    pub fn empty() -> (r: Self)
        ensures
            r.bits_spec() == 0,
    {
        VFSNodePermission { bits: 0 }
    }

    /// The permissions among `bits`; other bits are dropped.
    pub fn from_bits_truncate(bits: u16) -> (r: Self)
        ensures
            r.bits_spec() == bits & PERMISSION_ALL,
    {
        VFSNodePermission { bits: bits & PERMISSION_ALL }
    }

    /// The permission bits.
    pub fn bits(&self) -> (r: u16)
        ensures
            r == self.bits_spec(),
    {
        self.bits
    }

    /// Whether every bit of `flag` is granted.
    pub fn contains(&self, flag: u16) -> (r: bool)
        ensures
            r == (self.bits_spec() & flag == flag),
    {
        self.bits & flag == flag
    }

    /// The permission string: nine characters, `r`, `w` or `x` where the
    /// permission is granted and `-` where it is not.
    pub fn get_permission_self(&self) -> (r: [u8; 9])
        ensures
            forall|i: int|
                0 <= i < 9 ==> #[trigger] r@[i] == if self.bits_spec() & perm_flag(i) == perm_flag(i) {
                    perm_letter(i)
                } else {
                    0x2d
                },
    {
        let mut perm: [u8; 9] = [0x2du8; 9];
        let mut i: usize = 0;
        while i < 9
            invariant
                0 <= i <= 9,
                forall|j: int|
                    0 <= j < i ==> #[trigger] perm@[j] == if self.bits_spec() & perm_flag(j) == perm_flag(j) {
                        perm_letter(j)
                    } else {
                        0x2d
                    },
                forall|j: int| i <= j < 9 ==> #[trigger] perm@[j] == 0x2d,
            decreases 9 - i,
        {
            let (flag, ch) = flag_at(i);
            if self.contains(flag) {
                perm[i] = ch;
            }
            i = i + 1;
        }
        perm
    }

    /// Reads a permission string such as `rw-r--r--`: each position that
    /// holds its letter grants the permission shown there.
    pub fn from_perm_str(value: &str) -> (r: Self)
        requires
            value.spec_bytes().len() == PERMISSION_LEN,
        ensures
            forall|i: int|
                0 <= i < 9 ==> (#[trigger] (r.bits_spec() & perm_flag(i)) == perm_flag(i) <==> value.spec_bytes()[i] == perm_letter(i)),
            r.bits_spec() & !PERMISSION_ALL == 0,
    {
        let bytes = value.as_bytes();
        let mut bits: u16 = 0;
        proof {
            assert forall|j: int| 0 <= j < 9 implies #[trigger] (bits & perm_flag(j)) == 0 by {
                lemma_flag_facts(j);
            }
            assert(0u16 & !PERMISSION_ALL == 0) by (bit_vector);
        }
        let mut i: usize = 0;
        while i < 9
            invariant
                0 <= i <= 9,
                bytes@ == value.spec_bytes(),
                bytes@.len() == 9,
                forall|j: int|
                    0 <= j < i ==> (#[trigger] (bits & perm_flag(j)) == perm_flag(j) <==> bytes@[j] == perm_letter(j)),
                forall|j: int| i <= j < 9 ==> #[trigger] (bits & perm_flag(j)) == 0,
                bits & !PERMISSION_ALL == 0,
            decreases 9 - i,
        {
            let (flag, ch) = flag_at(i);
            if bytes[i] == ch {
                let ghost old_bits = bits;
                bits = bits | flag;
                proof {
                    assert forall|j: int| 0 <= j < 9 && j != i implies #[trigger] (bits & perm_flag(j)) == (old_bits & perm_flag(j)) by {
                        lemma_distinct_flags(i as int, j);
                        lemma_or_bits(old_bits, flag, perm_flag(j));
                    }
                    lemma_or_self(old_bits, flag);
                    lemma_flag_facts(i as int);
                    assert((old_bits | flag) & !PERMISSION_ALL == 0) by (bit_vector)
                        requires
                            old_bits & !PERMISSION_ALL == 0,
                            flag & !PERMISSION_ALL == 0,
                    ;
                }
            } else {
                proof {
                    lemma_flag_facts(i as int);
                }
            }
            i = i + 1;
        }
        VFSNodePermission { bits }
    }

    /// Default permissions of a file.
    pub fn get_permission_file_default() -> (r: Self)
        ensures
            r.bits_spec() == DEFAULT_PERMISSION_FILE & PERMISSION_ALL,
    {
        Self::from_bits_truncate(DEFAULT_PERMISSION_FILE)
    }

    /// Default permissions of a directory.
    pub fn get_permission_dir_default() -> (r: Self)
        ensures
            r.bits_spec() == DEFAULT_PERMISSION_DIR & PERMISSION_ALL,
    {
        Self::from_bits_truncate(DEFAULT_PERMISSION_DIR)
    }
}

proof fn lemma_flag_facts(i: int)
    requires
        0 <= i < 9,
    ensures
        perm_flag(i) != 0,
        perm_flag(i) & !PERMISSION_ALL == 0,
        0u16 & perm_flag(i) == 0,
{
    let f = perm_flag(i);
    assert(f == 64 || f == 128 || f == 256 || f == 8 || f == 16 || f == 32 || f == 1 || f == 2 || f == 4);
    assert(f & !0o777u16 == 0) by (bit_vector)
        requires
            f == 64 || f == 128 || f == 256 || f == 8 || f == 16 || f == 32 || f == 1 || f == 2 || f == 4,
    ;
    assert(0u16 & f == 0) by (bit_vector);
}

proof fn lemma_distinct_flags(i: int, j: int)
    requires
        0 <= i < 9,
        0 <= j < 9,
        i != j,
    ensures
        perm_flag(i) & perm_flag(j) == 0,
{
    let f = perm_flag(i);
    let g = perm_flag(j);
    assert(f != g);
    assert(f & g == 0) by (bit_vector)
        requires
            f == 64 || f == 128 || f == 256 || f == 8 || f == 16 || f == 32 || f == 1 || f == 2 || f == 4,
            g == 64 || g == 128 || g == 256 || g == 8 || g == 16 || g == 32 || g == 1 || g == 2 || g == 4,
            f != g,
    ;
}

} // verus!
