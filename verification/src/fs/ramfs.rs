//! In-memory filesystem.
//!
//! Each inode occupies one page. A directory keeps its entries in one data page
//! (64 entries of 64 bytes); a file keeps up to 4 KiB of data in one data page.
use crate::bytes;
use crate::kernel::{self, fresh_page, Kernel, State};
use crate::objects::{self, Zeroed};
use crate::path::{self, SLASH};
use vstd::prelude::*;

verus! {

pub const MAX_NAME: usize = 52;

/// Entries in a directory's data page.
pub const ENTRIES_PER_PAGE: u64 = 64;

/// Bytes that one directory entry takes.
pub const DIR_ENTRY_BYTES: u64 = 64;

pub const MAX_FDS: usize = 16;

pub const MAX_CWD: usize = 128;

/// Marks descriptors 0 to 2 of a Linux process as taken though no inode backs
/// them.
pub const FD_STDIO_SENTINEL: u64 = 0xffff_ffff_ffff_ffff;

#[derive(Clone, Copy)]
pub struct DirEntry {
    /// Name, padded with zero bytes.
    pub name: [u8; 52],
    pub kind: u8,
    /// Inode of the entry (0 is a free slot).
    pub inode_pa: u64,
}

#[derive(Copy, Clone, PartialEq, Eq, Debug, Structural)]
pub enum InodeKind {
    File,
    Dir,
}

#[derive(Clone, Copy)]
pub struct Inode {
    pub kind: InodeKind,
    /// Live entries of a directory, bytes of a file.
    pub size: u64,
    /// Data page (0 is none yet).
    pub data_pa: u64,
}

#[derive(Copy, Clone)]
pub struct FdEntry {
    /// Open inode (0 is a free descriptor).
    pub inode_pa: u64,
    /// Byte index for files, entry index for directories.
    pub offset: u64,
    /// Linux open flags.
    pub flags: u32,
}

#[derive(Clone, Copy)]
pub struct FdTable {
    pub entries: [FdEntry; 16],
    /// Working directory, padded with zero bytes; empty means "/".
    pub cwd: [u8; 128],
}

impl Zeroed for DirEntry {
    open spec fn zeroed() -> DirEntry {
        DirEntry {
            name: vstd::array::spec_array_fill_for_copy_type::<u8, 52>(0),
            kind: 0,
            inode_pa: 0,
        }
    }

    fn zero() -> (r: DirEntry) {
        DirEntry { name: [0;52], kind: 0, inode_pa: 0 }
    }
}

impl Zeroed for Inode {
    open spec fn zeroed() -> Inode {
        Inode { kind: InodeKind::File, size: 0, data_pa: 0 }
    }

    fn zero() -> (r: Inode) {
        Inode { kind: InodeKind::File, size: 0, data_pa: 0 }
    }
}

impl Zeroed for FdEntry {
    open spec fn zeroed() -> FdEntry {
        FdEntry { inode_pa: 0, offset: 0, flags: 0 }
    }

    fn zero() -> (r: FdEntry) {
        FdEntry { inode_pa: 0, offset: 0, flags: 0 }
    }
}

impl Zeroed for FdTable {
    open spec fn zeroed() -> FdTable {
        FdTable {
            entries: vstd::array::spec_array_fill_for_copy_type::<FdEntry, 16>(FdEntry::zeroed()),
            cwd: vstd::array::spec_array_fill_for_copy_type::<u8, 128>(0),
        }
    }

    fn zero() -> (r: FdTable) {
        FdTable { entries: [FdEntry::zero();16], cwd: [0;128] }
    }
}

impl InodeKind {
    /// The number that stands for the kind.
    pub open spec fn code(self) -> u8 {
        match self {
            InodeKind::File => 1,
            InodeKind::Dir => 2,
        }
    }

    pub open spec fn decoded(v: u8) -> Option<InodeKind> {
        if v == 1 {
            Some(InodeKind::File)
        } else if v == 2 {
            Some(InodeKind::Dir)
        } else {
            None
        }
    }

    pub fn from_u8(v: u8) -> (r: Option<InodeKind>)
        ensures
            r == InodeKind::decoded(v),
    {
        match v {
            1 => Some(InodeKind::File),
            2 => Some(InodeKind::Dir),
            _ => None,
        }
    }

    pub fn to_u8(self) -> (r: u8)
        ensures
            r == self.code(),
    {
        match self {
            InodeKind::File => 1,
            InodeKind::Dir => 2,
        }
    }
}

/// Why a filesystem operation fails.
#[derive(Debug, Clone, Copy, PartialEq, Eq, Structural)]
pub enum FsError {
    NotFound,
    Exists,
    NotADirectory,
    NotAFile,
    NoMemory,
    NoSpace,
    NameTooLong,
    DirectoryFull,
    BadDescriptor,
    TooManyOpen,
    InvalidPath,
    NotEmpty,
}

pub open spec fn inode(s: State, pa: u64) -> Inode {
    objects::at(s.inodes, pa)
}

pub open spec fn with_inode(s: State, pa: u64, n: Inode) -> State {
    State { inodes: s.inodes.insert(pa, n), ..s }
}

/// Address of entry `i` of the directory data page `data_pa`.
pub open spec fn entry_addr(data_pa: u64, i: int) -> u64 {
    data_pa.wrapping_add((i * 64) as u64)
}

/// Entry `i` of the directory data page `data_pa`.
pub open spec fn entry(s: State, data_pa: u64, i: int) -> DirEntry {
    objects::at(s.dirents, entry_addr(data_pa, i))
}

pub open spec fn with_entry(s: State, data_pa: u64, i: int, e: DirEntry) -> State {
    State { dirents: s.dirents.insert(entry_addr(data_pa, i), e), ..s }
}

/// The bytes of a stored string: everything before the padding.
pub open spec fn text(s: Seq<u8>) -> Seq<u8> {
    s.take(path::find_byte(s, 0, 0))
}

/// The entry is in use and has this name.
pub open spec fn named(e: DirEntry, name: Seq<u8>) -> bool {
    e.inode_pa != 0 && text(e.name@) == name
}

/// The first entry from `from` on with this name.
pub open spec fn find_entry(s: State, data_pa: u64, name: Seq<u8>, from: int) -> Option<int>
    decreases 64 - from,
{
    if from >= 64 {
        None
    } else if named(entry(s, data_pa, from), name) {
        Some(from)
    } else {
        find_entry(s, data_pa, name, from + 1)
    }
}

/// The first free entry from `from` on.
pub open spec fn free_entry(s: State, data_pa: u64, from: int) -> Option<int>
    decreases 64 - from,
{
    if from >= 64 {
        None
    } else if entry(s, data_pa, from).inode_pa == 0 {
        Some(from)
    } else {
        free_entry(s, data_pa, from + 1)
    }
}

/// The entry in use that has `n` others in use before it, from `from` on.
pub open spec fn nth_entry(s: State, data_pa: u64, n: int, from: int) -> Option<int>
    decreases 64 - from,
{
    if from >= 64 {
        None
    } else if entry(s, data_pa, from).inode_pa == 0 {
        nth_entry(s, data_pa, n, from + 1)
    } else if n == 0 {
        Some(from)
    } else {
        nth_entry(s, data_pa, n - 1, from + 1)
    }
}

/// The inode that the directory `dir_pa` has under `name`.
pub open spec fn child(s: State, dir_pa: u64, name: Seq<u8>) -> Option<u64> {
    let d = inode(s, dir_pa);
    if !(d.kind is Dir) || d.data_pa == 0 {
        None
    } else {
        match find_entry(s, d.data_pa, name, 0) {
            None => None,
            Some(i) => Some(entry(s, d.data_pa, i).inode_pa),
        }
    }
}

/// The inode that the components `cs` lead to from `cur`.
pub open spec fn walked(s: State, cur: u64, cs: Seq<Seq<u8>>) -> Option<u64>
    decreases cs.len(),
{
    if cs.len() == 0 {
        Some(cur)
    } else {
        match child(s, cur, cs[0]) {
            None => None,
            Some(next) => walked(s, next, cs.drop_first()),
        }
    }
}

/// The inode at a path.
pub open spec fn found(s: State, p: Seq<u8>) -> Option<u64> {
    walked(s, s.fs_root, path::components(p))
}

/// The directory and the name that a path for a new or a removed entry stands
/// for.
pub open spec fn parent_of(s: State, p: Seq<u8>) -> Result<(u64, Seq<u8>), FsError> {
    let q = path::stripped(p);
    if q.len() == 0 {
        Err(FsError::InvalidPath)
    } else {
        let i = path::last_slash(q);
        let dir = if i <= 0 {
            Some(s.fs_root)
        } else {
            found(s, q.take(i))
        };
        let name = q.skip(i + 1);
        match dir {
            None => Err(FsError::NotFound),
            Some(dir_pa) => if name.len() == 0 {
                Err(FsError::InvalidPath)
            } else {
                Ok((dir_pa, name))
            },
        }
    }
}

/// Creating an inode.
pub open spec fn inode_made(s: State, kind: InodeKind) -> (State, Option<u64>) {
    let (s1, page) = kernel::page_made(s);
    match page {
        None => (s1, None),
        Some(pa) => (with_inode(s1, pa, Inode { kind, size: 0, data_pa: 0 }), Some(pa)),
    }
}

/// Giving an inode a data page if it has none.
pub open spec fn data_ensured(s: State, pa: u64) -> (State, Option<u64>) {
    let n = inode(s, pa);
    if n.data_pa != 0 {
        (s, Some(n.data_pa))
    } else {
        let (s1, page) = kernel::page_made(s);
        match page {
            None => (s1, None),
            Some(d) => (with_inode(s1, pa, Inode { data_pa: d, ..n }), Some(d)),
        }
    }
}

/// `name` padded with zero bytes.
pub open spec fn padded(name: Seq<u8>) -> Seq<u8> {
    name + Seq::new((52 - name.len()) as nat, |i: int| 0u8)
}

/// The entry that names `child_pa`.
pub open spec fn new_entry(name: Seq<u8>, kind: InodeKind, child_pa: u64) -> DirEntry {
    DirEntry {
        name: bytes::array_of::<52>(padded(name)),
        kind: kind.code(),
        inode_pa: child_pa,
    }
}

/// Adding an entry to a directory.
pub open spec fn entry_added(
    s: State,
    dir_pa: u64,
    name: Seq<u8>,
    kind: InodeKind,
    child_pa: u64,
) -> (State, Result<(), FsError>) {
    if name.len() > MAX_NAME {
        (s, Err(FsError::NameTooLong))
    } else if !(inode(s, dir_pa).kind is Dir) {
        (s, Err(FsError::NotADirectory))
    } else {
        let (s1, data) = data_ensured(s, dir_pa);
        match data {
            None => (s1, Err(FsError::NoMemory)),
            Some(d) => if find_entry(s1, d, name, 0) is Some {
                (s1, Err(FsError::Exists))
            } else {
                match free_entry(s1, d, 0) {
                    None => (s1, Err(FsError::DirectoryFull)),
                    Some(i) => {
                        let s2 = with_entry(s1, d, i, new_entry(name, kind, child_pa));
                        let n = inode(s2, dir_pa);
                        (
                            with_inode(s2, dir_pa, Inode { size: n.size.wrapping_add(1), ..n }),
                            Ok(()),
                        )
                    },
                }
            },
        }
    }
}

/// Removing entry `i` of a directory.
pub open spec fn entry_removed(s: State, dir_pa: u64, i: int) -> State {
    let n = inode(s, dir_pa);
    let e = entry(s, n.data_pa, i);
    let s1 = with_entry(
        s,
        n.data_pa,
        i,
        DirEntry { inode_pa: 0, name: DirEntry::zeroed().name, ..e },
    );
    with_inode(s1, dir_pa, Inode { size: n.size.wrapping_sub(1), ..n })
}

/// The inode is a directory with entries.
pub open spec fn occupied(s: State, pa: u64) -> bool {
    inode(s, pa).kind is Dir && inode(s, pa).size > 0
}

pub fn root_pa(k: &Kernel) -> (r: u64)
    ensures
        r == k@.fs_root,
{
    k.fs_root
}

fn set_inode(k: &mut Kernel, pa: u64, n: Inode)
    requires
        old(k).wf(),
    ensures
        final(k).wf(),
        final(k)@ == with_inode(old(k)@, pa, n),
{
    k.inodes.write(pa, n);
}

fn entry_address(data_pa: u64, i: u64) -> (r: u64)
    requires
        i < 64,
    ensures
        r == entry_addr(data_pa, i as int),
{
    data_pa.wrapping_add(i * DIR_ENTRY_BYTES)
}

fn read_entry(k: &Kernel, data_pa: u64, i: u64) -> (r: DirEntry)
    requires
        i < 64,
    ensures
        r == entry(k@, data_pa, i as int),
{
    k.dirents.read(entry_address(data_pa, i))
}

fn write_entry(k: &mut Kernel, data_pa: u64, i: u64, e: DirEntry)
    requires
        old(k).wf(),
        i < 64,
    ensures
        final(k).wf(),
        final(k)@ == with_entry(old(k)@, data_pa, i as int, e),
{
    k.dirents.write(entry_address(data_pa, i), e);
}

fn alloc_inode(k: &mut Kernel, kind: InodeKind) -> (r: Option<u64>)
    requires
        old(k).wf(),
    ensures
        final(k).wf(),
        (final(k)@, r) == inode_made(old(k)@, kind),
{
    match fresh_page(k) {
        None => None,
        Some(pa) => {
            set_inode(k, pa, Inode { kind, size: 0, data_pa: 0 });
            Some(pa)
        },
    }
}

/// Create the root directory. Returns whether there was memory for it.
pub fn init(k: &mut Kernel) -> (r: bool)
    requires
        old(k).wf(),
    ensures
        final(k).wf(),
        ({
            let (s1, root) = inode_made(old(k)@, InodeKind::Dir);
            match root {
                None => !r && final(k)@ == s1,
                Some(pa) => r && final(k)@ == (State { fs_root: pa, ..s1 }),
            }
        }),
{
    match alloc_inode(k, InodeKind::Dir) {
        None => false,
        Some(pa) => {
            k.fs_root = pa;
            true
        },
    }
}

fn name_eq(stored: &[u8; 52], query: &[u8]) -> (r: bool)
    ensures
        r == (text(stored@) == query@),
{
    let n: usize = path::position(stored, 0, 0);
    if n != query.len() {
        return false;
    }
    let mut i: usize = 0;
    while i < n
        invariant
            i <= n <= 52,
            n == query@.len(),
            n == path::find_byte(stored@, 0, 0),
            forall|j: int| 0 <= j < i ==> stored[j] == query[j],
        decreases n - i,
    {
        if stored[i] != query[i] {
            proof {
                assert(text(stored@)[i as int] == stored@[i as int]);
            }
            return false;
        }
        i += 1;
    }
    assert(text(stored@) =~= query@);
    true
}

fn ensure_data_page(k: &mut Kernel, inode_pa: u64) -> (r: Option<u64>)
    requires
        old(k).wf(),
    ensures
        final(k).wf(),
        (final(k)@, r) == data_ensured(old(k)@, inode_pa),
{
    let mut n: Inode = k.inodes.read(inode_pa);
    if n.data_pa == 0 {
        match fresh_page(k) {
            None => {
                return None;
            },
            Some(d) => {
                n.data_pa = d;
                set_inode(k, inode_pa, n);
            },
        }
    }
    Some(n.data_pa)
}

fn find_named(k: &Kernel, data_pa: u64, name: &[u8]) -> (r: Option<u64>)
    ensures
        match r {
            Some(i) => find_entry(k@, data_pa, name@, 0) == Some(i as int) && i < 64,
            None => find_entry(k@, data_pa, name@, 0) is None,
        },
{
    let mut i: u64 = 0;
    while i < ENTRIES_PER_PAGE
        invariant
            i <= 64,
            find_entry(k@, data_pa, name@, 0) == find_entry(k@, data_pa, name@, i as int),
        decreases 64 - i,
    {
        let e: DirEntry = read_entry(k, data_pa, i);
        if e.inode_pa != 0 && name_eq(&e.name, name) {
            return Some(i);
        }
        i += 1;
    }
    None
}

fn find_free(k: &Kernel, data_pa: u64) -> (r: Option<u64>)
    ensures
        match r {
            Some(i) => free_entry(k@, data_pa, 0) == Some(i as int) && i < 64,
            None => free_entry(k@, data_pa, 0) is None,
        },
{
    let mut i: u64 = 0;
    while i < ENTRIES_PER_PAGE
        invariant
            i <= 64,
            free_entry(k@, data_pa, 0) == free_entry(k@, data_pa, i as int),
        decreases 64 - i,
    {
        if read_entry(k, data_pa, i).inode_pa == 0 {
            return Some(i);
        }
        i += 1;
    }
    None
}

fn make_entry(name: &[u8], kind: InodeKind, child_pa: u64) -> (r: DirEntry)
    requires
        name@.len() <= 52,
    ensures
        r == new_entry(name@, kind, child_pa),
{
    let mut e: DirEntry = DirEntry::zero();
    let mut i: usize = 0;
    while i < name.len()
        invariant
            i <= name@.len() <= 52,
            e.inode_pa == 0,
            e.name@ =~= name@.take(i as int) + Seq::new((52 - i) as nat, |j: int| 0u8),
        decreases name@.len() - i,
    {
        e.name[i] = name[i];
        i += 1;
    }
    e.kind = kind.to_u8();
    e.inode_pa = child_pa;
    proof {
        assert(name@.take(i as int) =~= name@);
        assert(e.name@ =~= padded(name@));
        bytes::lemma_array_of(e.name);
    }
    e
}

/// Insert a child entry into the directory `dir_pa`.
fn insert_entry(k: &mut Kernel, dir_pa: u64, name: &[u8], kind: InodeKind, child_pa: u64) -> (r:
    Result<(), FsError>)
    requires
        old(k).wf(),
    ensures
        final(k).wf(),
        (final(k)@, r) == entry_added(old(k)@, dir_pa, name@, kind, child_pa),
{
    if name.len() > MAX_NAME {
        return Err(FsError::NameTooLong);
    }
    if k.inodes.read(dir_pa).kind != InodeKind::Dir {
        return Err(FsError::NotADirectory);
    }
    let data_pa: u64 = match ensure_data_page(k, dir_pa) {
        Some(d) => d,
        None => {
            return Err(FsError::NoMemory);
        },
    };
    if find_named(k, data_pa, name).is_some() {
        return Err(FsError::Exists);
    }
    match find_free(k, data_pa) {
        None => Err(FsError::DirectoryFull),
        Some(i) => {
            let e: DirEntry = make_entry(name, kind, child_pa);
            write_entry(k, data_pa, i, e);
            let mut n: Inode = k.inodes.read(dir_pa);
            n.size = n.size.wrapping_add(1);
            set_inode(k, dir_pa, n);
            Ok(())
        },
    }
}

fn remove_entry(k: &mut Kernel, dir_pa: u64, i: u64)
    requires
        old(k).wf(),
        i < 64,
    ensures
        final(k).wf(),
        final(k)@ == entry_removed(old(k)@, dir_pa, i as int),
{
    let mut n: Inode = k.inodes.read(dir_pa);
    let mut e: DirEntry = read_entry(k, n.data_pa, i);
    e.inode_pa = 0;
    e.name = [0;52];
    write_entry(k, n.data_pa, i, e);
    n.size = n.size.wrapping_sub(1);
    set_inode(k, dir_pa, n);
}

/// Find `name` in the directory `dir_pa`.
fn find_in_dir(k: &Kernel, dir_pa: u64, name: &[u8]) -> (r: Option<u64>)
    ensures
        r == child(k@, dir_pa, name@),
{
    let n: Inode = k.inodes.read(dir_pa);
    if n.kind != InodeKind::Dir || n.data_pa == 0 {
        return None;
    }
    match find_named(k, n.data_pa, name) {
        None => None,
        Some(i) => Some(read_entry(k, n.data_pa, i).inode_pa),
    }
}

/// Resolve a path to its inode.
pub fn lookup_path(k: &Kernel, p: &[u8]) -> (r: Option<u64>)
    ensures
        r == found(k@, p@),
{
    let mut cur: u64 = k.fs_root;
    let mut at: usize = 0;
    while at < p.len()
        invariant
            at <= p@.len() + 1,
            walked(k@, cur, path::components_from(p@, at as int)) == found(k@, p@),
        decreases p@.len() + 1 - at,
    {
        let end: usize = path::position(p, SLASH, at);
        if end > at {
            proof {
                let cs = path::components_from(p@, at as int);
                assert(cs[0] == p@.subrange(at as int, end as int));
                assert(cs.drop_first() =~= path::components_from(p@, end + 1));
            }
            match find_in_dir(k, cur, &p[at..end]) {
                None => {
                    return None;
                },
                Some(next) => {
                    cur = next;
                },
            }
            if end >= p.len() {
                assert(walked(k@, cur, path::components_from(p@, end + 1)) == Some(cur));
                return Some(cur);
            }
            at = end + 1;
        } else {
            at += 1;
        }
    }
    Some(cur)
}

/// Split a path into its parent directory and the start of its last name.
fn resolve_parent(k: &Kernel, p: &[u8]) -> (r: Result<(u64, usize), FsError>)
    ensures
        match r {
            Ok((dir_pa, start)) => start <= p@.len() && parent_of(k@, p@) == Ok::<
                (u64, Seq<u8>),
                FsError,
            >((dir_pa, p@.skip(start as int))),
            Err(e) => parent_of(k@, p@) == Err::<(u64, Seq<u8>), FsError>(e),
        },
{
    let lead: usize = path::leading_slashes(p);
    if lead == p.len() {
        return Err(FsError::InvalidPath);
    }
    let q: &[u8] = &p[lead..p.len()];
    assert(q@ =~= path::stripped(p@));
    let (dir, start): (Option<u64>, usize) = match path::last_slash_position(q) {
        None => {
            assert(p@.skip(lead as int) =~= q@.skip(0));
            (Some(k.fs_root), lead)
        },
        Some(i) => {
            assert(p@.skip(lead + i + 1) =~= q@.skip(i + 1));
            if i == 0 {
                (Some(k.fs_root), lead + i + 1)
            } else {
                let dir_path: &[u8] = &q[0..i];
                assert(dir_path@ =~= q@.take(i as int));
                (lookup_path(k, dir_path), lead + i + 1)
            }
        },
    };
    match dir {
        None => Err(FsError::NotFound),
        Some(dir_pa) => {
            if start == p.len() {
                Err(FsError::InvalidPath)
            } else {
                Ok((dir_pa, start))
            }
        },
    }
}

/// Making a directory.
pub open spec fn dir_made(s: State, p: Seq<u8>) -> (State, Result<(), FsError>) {
    match parent_of(s, p) {
        Err(e) => (s, Err(e)),
        Ok((dir_pa, name)) => {
            let (s1, pa) = inode_made(s, InodeKind::Dir);
            match pa {
                None => (s1, Err(FsError::NoMemory)),
                Some(child_pa) => entry_added(s1, dir_pa, name, InodeKind::Dir, child_pa),
            }
        },
    }
}

/// Creating a file.
pub open spec fn file_made(s: State, p: Seq<u8>) -> (State, Result<u64, FsError>) {
    match parent_of(s, p) {
        Err(e) => (s, Err(e)),
        Ok((dir_pa, name)) => {
            let (s1, pa) = inode_made(s, InodeKind::File);
            match pa {
                None => (s1, Err(FsError::NoMemory)),
                Some(child_pa) => {
                    let (s2, r) = entry_added(s1, dir_pa, name, InodeKind::File, child_pa);
                    match r {
                        Err(e) => (s2, Err(e)),
                        Ok(_) => (s2, Ok(child_pa)),
                    }
                },
            }
        },
    }
}

/// Make a directory at a path whose parent exists.
pub fn fs_mkdir(k: &mut Kernel, p: &[u8]) -> (r: Result<(), FsError>)
    requires
        old(k).wf(),
    ensures
        final(k).wf(),
        (final(k)@, r) == dir_made(old(k)@, p@),
{
    let (dir_pa, start): (u64, usize) = match resolve_parent(k, p) {
        Ok(d) => d,
        Err(e) => {
            return Err(e);
        },
    };
    let child_pa: u64 = match alloc_inode(k, InodeKind::Dir) {
        Some(pa) => pa,
        None => {
            return Err(FsError::NoMemory);
        },
    };
    let name: &[u8] = &p[start..p.len()];
    assert(name@ =~= p@.skip(start as int));
    insert_entry(k, dir_pa, name, InodeKind::Dir, child_pa)
}

/// Create a file at a path whose parent exists. Returns its inode.
pub fn fs_create(k: &mut Kernel, p: &[u8]) -> (r: Result<u64, FsError>)
    requires
        old(k).wf(),
    ensures
        final(k).wf(),
        (final(k)@, r) == file_made(old(k)@, p@),
{
    let (dir_pa, start): (u64, usize) = match resolve_parent(k, p) {
        Ok(d) => d,
        Err(e) => {
            return Err(e);
        },
    };
    let child_pa: u64 = match alloc_inode(k, InodeKind::File) {
        Some(pa) => pa,
        None => {
            return Err(FsError::NoMemory);
        },
    };
    let name: &[u8] = &p[start..p.len()];
    assert(name@ =~= p@.skip(start as int));
    match insert_entry(k, dir_pa, name, InodeKind::File, child_pa) {
        Ok(_) => Ok(child_pa),
        Err(e) => Err(e),
    }
}

/// Find the inode at a path.
pub fn fs_open(k: &Kernel, p: &[u8]) -> (r: Option<u64>)
    ensures
        r == found(k@, p@),
{
    lookup_path(k, p)
}

/// Removing a file or an empty directory.
pub open spec fn unlinked(s: State, p: Seq<u8>) -> (State, Result<(), FsError>) {
    match parent_of(s, p) {
        Err(e) => (s, Err(e)),
        Ok((dir_pa, name)) => {
            let d = inode(s, dir_pa);
            if !(d.kind is Dir) {
                (s, Err(FsError::NotADirectory))
            } else if d.data_pa == 0 {
                (s, Err(FsError::NotFound))
            } else {
                match find_entry(s, d.data_pa, name, 0) {
                    None => (s, Err(FsError::NotFound)),
                    Some(i) => if occupied(s, entry(s, d.data_pa, i).inode_pa) {
                        (s, Err(FsError::NotEmpty))
                    } else {
                        (entry_removed(s, dir_pa, i), Ok(()))
                    },
                }
            }
        },
    }
}

/// Remove a file or empty directory entry from its parent directory.
pub fn fs_unlink(k: &mut Kernel, p: &[u8]) -> (r: Result<(), FsError>)
    requires
        old(k).wf(),
    ensures
        final(k).wf(),
        (final(k)@, r) == unlinked(old(k)@, p@),
{
    let (dir_pa, start): (u64, usize) = match resolve_parent(k, p) {
        Ok(d) => d,
        Err(e) => {
            return Err(e);
        },
    };
    let name: &[u8] = &p[start..p.len()];
    assert(name@ =~= p@.skip(start as int));
    let dir: Inode = k.inodes.read(dir_pa);
    if dir.kind != InodeKind::Dir {
        return Err(FsError::NotADirectory);
    }
    if dir.data_pa == 0 {
        return Err(FsError::NotFound);
    }
    match find_named(k, dir.data_pa, name) {
        None => Err(FsError::NotFound),
        Some(i) => {
            let e: DirEntry = read_entry(k, dir.data_pa, i);
            if is_occupied(k, e.inode_pa) {
                return Err(FsError::NotEmpty);
            }
            remove_entry(k, dir_pa, i);
            Ok(())
        },
    }
}

fn is_occupied(k: &Kernel, pa: u64) -> (r: bool)
    ensures
        r == occupied(k@, pa),
{
    let n: Inode = k.inodes.read(pa);
    n.kind == InodeKind::Dir && n.size > 0
}

/// Removing what a rename would replace: nothing, a file or an empty directory.
/// A directory with entries stays and refuses the rename.
pub open spec fn target_cleared(s: State, dir_pa: u64, name: Seq<u8>) -> (State, bool) {
    let d = inode(s, dir_pa);
    if d.data_pa == 0 {
        (s, true)
    } else {
        match find_entry(s, d.data_pa, name, 0) {
            None => (s, true),
            Some(i) => if occupied(s, entry(s, d.data_pa, i).inode_pa) {
                (s, false)
            } else {
                (entry_removed(s, dir_pa, i), true)
            },
        }
    }
}

/// Renaming: the source must exist; the target is replaced unless it is a
/// directory with entries; then the source entry moves.
pub open spec fn renamed(s: State, from: Seq<u8>, to: Seq<u8>) -> (State, Result<(), FsError>) {
    match parent_of(s, from) {
        Err(e) => (s, Err(e)),
        Ok((old_dir, old_name)) => match parent_of(s, to) {
            Err(e) => (s, Err(e)),
            Ok((new_dir, new_name)) => if new_name.len() > MAX_NAME {
                (s, Err(FsError::NameTooLong))
            } else if inode(s, old_dir).data_pa == 0 {
                (s, Err(FsError::NotFound))
            } else {
                let data = inode(s, old_dir).data_pa;
                match find_entry(s, data, old_name, 0) {
                    None => (s, Err(FsError::NotFound)),
                    Some(i) => {
                        let e = entry(s, data, i);
                        match InodeKind::decoded(e.kind) {
                            None => (s, Err(FsError::NotFound)),
                            Some(kind) => {
                                let (s1, clear) = target_cleared(s, new_dir, new_name);
                                if !clear {
                                    (s1, Err(FsError::NotEmpty))
                                } else {
                                    let s2 = match find_entry(s1, data, old_name, 0) {
                                        None => s1,
                                        Some(j) => entry_removed(s1, old_dir, j),
                                    };
                                    entry_added(s2, new_dir, new_name, kind, e.inode_pa)
                                }
                            },
                        }
                    },
                }
            },
        },
    }
}

fn clear_target(k: &mut Kernel, dir_pa: u64, name: &[u8]) -> (r: bool)
    requires
        old(k).wf(),
    ensures
        final(k).wf(),
        (final(k)@, r) == target_cleared(old(k)@, dir_pa, name@),
{
    let data_pa: u64 = k.inodes.read(dir_pa).data_pa;
    if data_pa == 0 {
        return true;
    }
    match find_named(k, data_pa, name) {
        None => true,
        Some(i) => {
            let e: DirEntry = read_entry(k, data_pa, i);
            if is_occupied(k, e.inode_pa) {
                return false;
            }
            remove_entry(k, dir_pa, i);
            true
        },
    }
}

/// Rename (move) a path to a new location. An existing file or empty directory
/// at the new path is replaced; a directory with entries refuses.
pub fn fs_rename(k: &mut Kernel, old_path: &[u8], new_path: &[u8]) -> (r: Result<(), FsError>)
    requires
        old(k).wf(),
    ensures
        final(k).wf(),
        (final(k)@, r) == renamed(old(k)@, old_path@, new_path@),
{
    let (old_dir, old_start): (u64, usize) = match resolve_parent(k, old_path) {
        Ok(d) => d,
        Err(e) => {
            return Err(e);
        },
    };
    let (new_dir, new_start): (u64, usize) = match resolve_parent(k, new_path) {
        Ok(d) => d,
        Err(e) => {
            return Err(e);
        },
    };
    let old_name: &[u8] = &old_path[old_start..old_path.len()];
    let new_name: &[u8] = &new_path[new_start..new_path.len()];
    assert(old_name@ =~= old_path@.skip(old_start as int));
    assert(new_name@ =~= new_path@.skip(new_start as int));
    if new_name.len() > MAX_NAME {
        return Err(FsError::NameTooLong);
    }
    let data_pa: u64 = k.inodes.read(old_dir).data_pa;
    if data_pa == 0 {
        return Err(FsError::NotFound);
    }
    let e: DirEntry = match find_named(k, data_pa, old_name) {
        None => {
            return Err(FsError::NotFound);
        },
        Some(i) => read_entry(k, data_pa, i),
    };
    let kind: InodeKind = match InodeKind::from_u8(e.kind) {
        None => {
            return Err(FsError::NotFound);
        },
        Some(kind) => kind,
    };
    if !clear_target(k, new_dir, new_name) {
        return Err(FsError::NotEmpty);
    }
    assert(inode(k@, old_dir).data_pa == data_pa);
    if let Some(j) = find_named(k, data_pa, old_name) {
        remove_entry(k, old_dir, j);
    }
    insert_entry(k, new_dir, new_name, kind, e.inode_pa)
}

/// How many bytes a read of up to `len` bytes at `offset` gets.
pub open spec fn read_len(n: Inode, offset: u64, len: int) -> int {
    if !(n.kind is File) || n.data_pa == 0 || offset >= n.size {
        0
    } else if len < n.size - offset {
        len
    } else {
        n.size - offset
    }
}

/// The bytes that a read of up to `len` bytes at `offset` gets.
pub open spec fn file_bytes(s: State, pa: u64, offset: u64, len: int) -> Seq<u8> {
    let n = inode(s, pa);
    kernel::loaded(s.bytes, n.data_pa.wrapping_add(offset), read_len(n, offset, len) as nat)
}

/// Read from a file at `offset` into the start of `dst`. Returns the number of
/// bytes read.
pub fn fs_read(k: &Kernel, inode_pa: u64, offset: u64, dst: &mut [u8]) -> (r: usize)
    ensures
        r == read_len(inode(k@, inode_pa), offset, old(dst)@.len() as int),
        final(dst)@ == file_bytes(k@, inode_pa, offset, old(dst)@.len() as int) + old(dst)@.skip(
            r as int,
        ),
{
    let node: Inode = k.inodes.read(inode_pa);
    if node.kind != InodeKind::File || node.data_pa == 0 || offset >= node.size {
        assert(dst@ =~= file_bytes(k@, inode_pa, offset, old(dst)@.len() as int) + old(
            dst,
        )@.skip(0));
        return 0;
    }
    let avail: u64 = node.size - offset;
    let n: usize = if (dst.len() as u64) < avail {
        dst.len()
    } else {
        avail as usize
    };
    let from: u64 = node.data_pa.wrapping_add(offset);
    let mut i: usize = 0;
    while i < n
        invariant
            i <= n <= old(dst)@.len(),
            dst@ =~= kernel::loaded(k@.bytes, from, i as nat) + old(dst)@.skip(i as int),
        decreases n - i,
    {
        dst[i] = k.bytes.read(from.wrapping_add(i as u64));
        i += 1;
    }
    n
}

/// How many of `len` bytes fit in a file's one page from `offset` on.
pub open spec fn write_len(offset: u64, len: int) -> int {
    let space = if offset < 4096 {
        4096 - offset
    } else {
        0
    };
    if len < space {
        len
    } else {
        space
    }
}

/// Getting ready to write `len` bytes at `offset`: the data page and how many
/// bytes go there.
pub open spec fn write_prepared(s: State, pa: u64, offset: u64, len: int) -> (
    State,
    Result<(u64, int), FsError>,
) {
    if !(inode(s, pa).kind is File) {
        (s, Err(FsError::NotAFile))
    } else {
        let (s1, page) = data_ensured(s, pa);
        match page {
            None => (s1, Err(FsError::NoMemory)),
            Some(d) => if write_len(offset, len) == 0 {
                (s1, Err(FsError::NoSpace))
            } else {
                (s1, Ok((d, write_len(offset, len))))
            },
        }
    }
}

/// Putting `data` into the data page `d` at `offset`.
pub open spec fn write_filled(s: State, pa: u64, d: u64, offset: u64, data: Seq<u8>) -> State {
    let s1 = kernel::with_bytes(s, d.wrapping_add(offset), data);
    let n = inode(s1, pa);
    if offset + data.len() > n.size {
        with_inode(s1, pa, Inode { size: (offset + data.len()) as u64, ..n })
    } else {
        s1
    }
}

/// Writing `data` at `offset`: up to the end of the file's one page.
pub open spec fn file_written(s: State, pa: u64, offset: u64, data: Seq<u8>) -> (
    State,
    Result<u64, FsError>,
) {
    let (s1, ready) = write_prepared(s, pa, offset, data.len() as int);
    match ready {
        Err(e) => (s1, Err(e)),
        Ok((d, n)) => (write_filled(s1, pa, d, offset, data.take(n)), Ok(n as u64)),
    }
}

/// Check that `len` bytes can be written at `offset`, and give the file its data
/// page. Returns the page and how many bytes fit.
pub fn prepare_write(k: &mut Kernel, inode_pa: u64, offset: u64, len: u64) -> (r: Result<
    (u64, u64),
    FsError,
>)
    requires
        old(k).wf(),
    ensures
        final(k).wf(),
        ({
            let (s1, ready) = write_prepared(old(k)@, inode_pa, offset, len as int);
            &&& final(k)@ == s1
            &&& match r {
                Err(e) => ready == Err::<(u64, int), FsError>(e),
                Ok((d, n)) => ready == Ok::<(u64, int), FsError>((d, n as int)) && 0 < n <= len
                    && offset + n <= 4096,
            }
        }),
{
    if k.inodes.read(inode_pa).kind != InodeKind::File {
        return Err(FsError::NotAFile);
    }
    let data_pa: u64 = match ensure_data_page(k, inode_pa) {
        Some(d) => d,
        None => {
            return Err(FsError::NoMemory);
        },
    };
    let space: u64 = if offset < 4096 {
        4096 - offset
    } else {
        0
    };
    let n: u64 = if len < space {
        len
    } else {
        space
    };
    if n == 0 {
        return Err(FsError::NoSpace);
    }
    Ok((data_pa, n))
}

/// Put `data` into the data page `d` of a file at `offset`.
pub fn fill_write(k: &mut Kernel, inode_pa: u64, d: u64, offset: u64, data: &[u8])
    requires
        old(k).wf(),
        offset + data@.len() <= 4096,
    ensures
        final(k).wf(),
        final(k)@ == write_filled(old(k)@, inode_pa, d, offset, data@),
{
    k.write_bytes(d.wrapping_add(offset), data);
    let mut node: Inode = k.inodes.read(inode_pa);
    let end: u64 = offset + data.len() as u64;
    if end > node.size {
        node.size = end;
        set_inode(k, inode_pa, node);
    }
}

/// Write to a file at `offset`. Returns the number of bytes written, which is
/// limited by the file's one page.
pub fn fs_write(k: &mut Kernel, inode_pa: u64, offset: u64, src: &[u8]) -> (r: Result<u64, FsError>)
    requires
        old(k).wf(),
    ensures
        final(k).wf(),
        (final(k)@, r) == file_written(old(k)@, inode_pa, offset, src@),
{
    match prepare_write(k, inode_pa, offset, src.len() as u64) {
        Err(e) => Err(e),
        Ok((d, n)) => {
            let part: &[u8] = &src[0..n as usize];
            assert(part@ =~= src@.take(n as int));
            fill_write(k, inode_pa, d, offset, part);
            Ok(n)
        },
    }
}

/// Truncating a file.
pub open spec fn truncated(s: State, pa: u64) -> (State, Result<(), FsError>) {
    let n = inode(s, pa);
    if !(n.kind is File) {
        (s, Err(FsError::NotAFile))
    } else {
        (with_inode(s, pa, Inode { size: 0, ..n }), Ok(()))
    }
}

/// Truncate a file to zero length; its data page is kept for reuse.
pub fn fs_truncate(k: &mut Kernel, inode_pa: u64) -> (r: Result<(), FsError>)
    requires
        old(k).wf(),
    ensures
        final(k).wf(),
        (final(k)@, r) == truncated(old(k)@, inode_pa),
{
    let mut node: Inode = k.inodes.read(inode_pa);
    if node.kind != InodeKind::File {
        return Err(FsError::NotAFile);
    }
    node.size = 0;
    set_inode(k, inode_pa, node);
    Ok(())
}

/// The `idx`-th live entry of a directory.
pub open spec fn listed_entry(s: State, dir_pa: u64, idx: u64) -> Option<DirEntry> {
    let d = inode(s, dir_pa);
    if !(d.kind is Dir) || d.data_pa == 0 {
        None
    } else {
        match nth_entry(s, d.data_pa, idx as int, 0) {
            None => None,
            Some(i) => Some(entry(s, d.data_pa, i)),
        }
    }
}

fn find_listed(k: &Kernel, dir_pa: u64, idx: u64) -> (r: Option<DirEntry>)
    ensures
        r == listed_entry(k@, dir_pa, idx),
{
    let node: Inode = k.inodes.read(dir_pa);
    if node.kind != InodeKind::Dir || node.data_pa == 0 {
        return None;
    }
    let mut left: u64 = idx;
    let mut i: u64 = 0;
    while i < ENTRIES_PER_PAGE
        invariant
            i <= 64,
            nth_entry(k@, node.data_pa, idx as int, 0) == nth_entry(
                k@,
                node.data_pa,
                left as int,
                i as int,
            ),
            node == inode(k@, dir_pa),
            node.kind is Dir,
            node.data_pa != 0,
        decreases 64 - i,
    {
        let e: DirEntry = read_entry(k, node.data_pa, i);
        if e.inode_pa != 0 {
            if left == 0 {
                return Some(e);
            }
            left -= 1;
        }
        i += 1;
    }
    None
}

/// `dst` with `src` over its start.
pub open spec fn overlaid(dst: Seq<u8>, src: Seq<u8>) -> Seq<u8> {
    src + dst.skip(src.len() as int)
}

/// The part of `t` that fits in `room` bytes.
pub open spec fn fitted(t: Seq<u8>, room: int) -> Seq<u8> {
    if t.len() <= room {
        t
    } else {
        t.take(room)
    }
}

fn copy_name(name: &[u8; 52], room: usize, dst: &mut [u8]) -> (r: usize)
    requires
        room <= old(dst)@.len(),
    ensures
        r == fitted(text(name@), room as int).len(),
        final(dst)@ == overlaid(old(dst)@, fitted(text(name@), room as int)),
        r <= 52,
{
    let len: usize = path::position(name, 0, 0);
    let n: usize = if len < room {
        len
    } else {
        room
    };
    let mut i: usize = 0;
    while i < n
        invariant
            i <= n <= room,
            n <= 52,
            room <= old(dst)@.len(),
            dst@ =~= name@.take(i as int) + old(dst)@.skip(i as int),
        decreases n - i,
    {
        dst[i] = name[i];
        i += 1;
    }
    assert(fitted(text(name@), room as int) =~= name@.take(n as int));
    n
}

/// Read the `idx`-th directory entry: its raw name goes to `name_buf`, its name
/// length, kind and inode are returned.
pub fn fs_readdir_ex(k: &Kernel, dir_pa: u64, idx: u64, name_buf: &mut [u8]) -> (r: Option<
    (usize, InodeKind, u64),
>)
    ensures
        match listed_entry(k@, dir_pa, idx) {
            None => r is None && final(name_buf)@ == old(name_buf)@,
            Some(e) => {
                let name = fitted(text(e.name@), old(name_buf)@.len() as int);
                &&& final(name_buf)@ == overlaid(old(name_buf)@, name)
                &&& match InodeKind::decoded(e.kind) {
                    None => r is None,
                    Some(kind) => r == Some((name.len() as usize, kind, e.inode_pa)),
                }
                &&& name.len() <= 52
            },
        },
{
    match find_listed(k, dir_pa, idx) {
        None => None,
        Some(e) => {
            let room: usize = name_buf.len();
            let n: usize = copy_name(&e.name, room, name_buf);
            match InodeKind::from_u8(e.kind) {
                None => None,
                Some(kind) => Some((n, kind, e.inode_pa)),
            }
        },
    }
}

/// What listing an entry writes to a buffer of `room` bytes: the name, one byte
/// shorter than the buffer at most, a slash after the name of a directory where
/// it fits, and a terminating zero.
pub open spec fn listing(e: DirEntry, room: int) -> Seq<u8> {
    let name = fitted(
        text(e.name@),
        if room > 0 {
            room - 1
        } else {
            0
        },
    );
    if e.kind == 2 && name.len() + 1 < room {
        name.push(SLASH).push(0)
    } else if name.len() < room {
        name.push(0)
    } else {
        name
    }
}

/// The length of a listed name, the slash included.
pub open spec fn listing_len(e: DirEntry, room: int) -> int {
    let n = listing(e, room).len() as int;
    if n > 0 {
        n - 1
    } else {
        0
    }
}

/// Read the name of the `idx`-th directory entry into `name_buf`. Returns the
/// length, or 0 at the end.
pub fn fs_readdir(k: &Kernel, dir_pa: u64, idx: u64, name_buf: &mut [u8]) -> (r: usize)
    ensures
        match listed_entry(k@, dir_pa, idx) {
            None => r == 0 && final(name_buf)@ == old(name_buf)@,
            Some(e) => {
                let room = old(name_buf)@.len() as int;
                &&& final(name_buf)@ == overlaid(old(name_buf)@, listing(e, room))
                &&& r == listing_len(e, room)
            },
        },
{
    match find_listed(k, dir_pa, idx) {
        None => 0,
        Some(e) => {
            let len: usize = name_buf.len();
            let room: usize = if len > 0 {
                len - 1
            } else {
                0
            };
            let n: usize = copy_name(&e.name, room, name_buf);
            if n < len {
                name_buf[n] = 0;
            }
            if e.kind == 2 && n + 1 < len {
                name_buf[n] = SLASH;
                name_buf[n + 1] = 0;
                assert(name_buf@ =~= overlaid(old(name_buf)@, listing(e, len as int)));
                return n + 1;
            }
            assert(name_buf@ =~= overlaid(old(name_buf)@, listing(e, len as int)));
            n
        },
    }
}

/// What listing the `idx`-th entry writes to a buffer of `room` bytes, and the
/// length of the name.
pub fn list_entry(k: &Kernel, dir_pa: u64, idx: u64, room: usize) -> (r: Option<(Vec<u8>, usize)>)
    requires
        room <= 54,
    ensures
        match listed_entry(k@, dir_pa, idx) {
            None => r is None,
            Some(e) => r matches Some((b, n)) && b@ == listing(e, room as int) && n == listing_len(
                e,
                room as int,
            ),
        },
{
    let e: DirEntry = match find_listed(k, dir_pa, idx) {
        None => {
            return None;
        },
        Some(e) => e,
    };
    let mut buf: [u8; 54] = [0;54];
    let most: usize = if room > 0 {
        room - 1
    } else {
        0
    };
    let n: usize = copy_name(&e.name, most, &mut buf);
    let mut name: Vec<u8> = bytes::copied(&buf, 0, n);
    assert(name@ =~= fitted(text(e.name@), most as int));
    if e.kind == 2 && n + 1 < room {
        name.push(SLASH);
        name.push(0);
        Some((name, n + 1))
    } else {
        if n < room {
            name.push(0);
        }
        Some((name, n))
    }
}

/// A buffer of 54 bytes takes every listing whole.
pub proof fn lemma_listing_room(e: DirEntry, room: int)
    requires
        room >= 54,
    ensures
        listing(e, room) == listing(e, 54),
{
    path::lemma_find_byte(e.name@, 0, 0);
}

pub fn inode_kind(k: &Kernel, pa: u64) -> (r: InodeKind)
    ensures
        r == inode(k@, pa).kind,
{
    k.inodes.read(pa).kind
}

pub fn inode_size(k: &Kernel, pa: u64) -> (r: u64)
    ensures
        r == inode(k@, pa).size,
{
    k.inodes.read(pa).size
}

pub open spec fn fd_table(s: State, pa: u64) -> FdTable {
    objects::at(s.fd_tables, pa)
}

pub open spec fn with_fd_table(s: State, pa: u64, t: FdTable) -> State {
    State { fd_tables: s.fd_tables.insert(pa, t), ..s }
}

/// `t` with descriptor `fd` set to `e`.
pub open spec fn with_fd(t: FdTable, fd: int, e: FdEntry) -> FdTable {
    FdTable { entries: vstd::array::spec_array_update(t.entries, fd, e), ..t }
}

fn set_fd_table(k: &mut Kernel, pa: u64, t: FdTable)
    requires
        old(k).wf(),
    ensures
        final(k).wf(),
        final(k)@ == with_fd_table(old(k)@, pa, t),
{
    k.fd_tables.write(pa, t);
}

/// Allocate an empty descriptor table.
pub fn alloc_fd_table(k: &mut Kernel) -> (r: Option<u64>)
    requires
        old(k).wf(),
    ensures
        final(k).wf(),
        (final(k)@, r) == kernel::page_made(old(k)@),
{
    fresh_page(k)
}

/// A table with descriptors 0 to 2 taken.
pub open spec fn stdio_table() -> FdTable {
    let e = FdEntry { inode_pa: FD_STDIO_SENTINEL, ..FdEntry::zeroed() };
    with_fd(with_fd(with_fd(FdTable::zeroed(), 0, e), 1, e), 2, e)
}

pub open spec fn stdio_table_made(s: State) -> (State, Option<u64>) {
    let (s1, page) = kernel::page_made(s);
    match page {
        None => (s1, None),
        Some(pa) => (with_fd_table(s1, pa, stdio_table()), Some(pa)),
    }
}

/// Allocate a descriptor table with descriptors 0 to 2 reserved.
pub fn alloc_fd_table_stdio(k: &mut Kernel) -> (r: Option<u64>)
    requires
        old(k).wf(),
    ensures
        final(k).wf(),
        (final(k)@, r) == stdio_table_made(old(k)@),
{
    match alloc_fd_table(k) {
        None => None,
        Some(pa) => {
            let mut t: FdTable = FdTable::zero();
            t.entries[0].inode_pa = FD_STDIO_SENTINEL;
            t.entries[1].inode_pa = FD_STDIO_SENTINEL;
            t.entries[2].inode_pa = FD_STDIO_SENTINEL;
            assert(t.entries =~= stdio_table().entries);
            set_fd_table(k, pa, t);
            Some(pa)
        },
    }
}

/// The lowest free descriptor from `from` on.
pub open spec fn free_fd(t: FdTable, from: int) -> Option<int>
    decreases 16 - from,
{
    if from >= 16 {
        None
    } else if t.entries[from].inode_pa == 0 {
        Some(from)
    } else {
        free_fd(t, from + 1)
    }
}

/// Opening an inode: the lowest free descriptor.
pub open spec fn fd_allocated(s: State, table_pa: u64, inode_pa: u64, flags: u32) -> (
    State,
    Option<int>,
) {
    let t = fd_table(s, table_pa);
    match free_fd(t, 0) {
        None => (s, None),
        Some(fd) => (
            with_fd_table(s, table_pa, with_fd(t, fd, FdEntry { inode_pa, offset: 0, flags })),
            Some(fd),
        ),
    }
}

/// Take the lowest free descriptor for an inode.
pub fn fd_alloc(k: &mut Kernel, table_pa: u64, inode_pa: u64, flags: u32) -> (r: Option<usize>)
    requires
        old(k).wf(),
    ensures
        final(k).wf(),
        match r {
            None => (final(k)@, None::<int>) == fd_allocated(
                old(k)@,
                table_pa,
                inode_pa,
                flags,
            ),
            Some(fd) => (final(k)@, Some(fd as int)) == fd_allocated(
                old(k)@,
                table_pa,
                inode_pa,
                flags,
            ) && fd < 16,
        },
{
    let mut t: FdTable = k.fd_tables.read(table_pa);
    let mut i: usize = 0;
    while i < MAX_FDS
        invariant
            i <= 16,
            *k == *old(k),
            k.wf(),
            t == fd_table(k@, table_pa),
            free_fd(t, 0) == free_fd(t, i as int),
        decreases 16 - i,
    {
        if t.entries[i].inode_pa == 0 {
            t.entries[i] = FdEntry { inode_pa, offset: 0, flags };
            set_fd_table(k, table_pa, t);
            return Some(i);
        }
        i += 1;
    }
    None
}

/// The entry of an open descriptor.
pub open spec fn fd_entry(s: State, table_pa: u64, fd: u64) -> Option<FdEntry> {
    if fd >= MAX_FDS || fd_table(s, table_pa).entries[fd as int].inode_pa == 0 {
        None
    } else {
        Some(fd_table(s, table_pa).entries[fd as int])
    }
}

pub fn fd_get(k: &Kernel, table_pa: u64, fd: u64) -> (r: Option<FdEntry>)
    ensures
        r == fd_entry(k@, table_pa, fd),
{
    if fd >= MAX_FDS as u64 {
        return None;
    }
    let e: FdEntry = k.fd_tables.read(table_pa).entries[fd as usize];
    if e.inode_pa == 0 {
        None
    } else {
        Some(e)
    }
}

/// Moving the position of a descriptor forward.
pub open spec fn fd_advanced(s: State, table_pa: u64, fd: u64, delta: u64) -> State {
    if fd >= MAX_FDS {
        s
    } else {
        let t = fd_table(s, table_pa);
        let e = t.entries[fd as int];
        with_fd_table(
            s,
            table_pa,
            with_fd(t, fd as int, FdEntry { offset: e.offset.wrapping_add(delta), ..e }),
        )
    }
}

pub fn fd_advance(k: &mut Kernel, table_pa: u64, fd: u64, delta: u64)
    requires
        old(k).wf(),
    ensures
        final(k).wf(),
        final(k)@ == fd_advanced(old(k)@, table_pa, fd, delta),
{
    if fd >= MAX_FDS as u64 {
        return ;
    }
    let mut t: FdTable = k.fd_tables.read(table_pa);
    let mut e: FdEntry = t.entries[fd as usize];
    e.offset = e.offset.wrapping_add(delta);
    t.entries[fd as usize] = e;
    set_fd_table(k, table_pa, t);
}

/// Closing a descriptor.
pub open spec fn fd_closed(s: State, table_pa: u64, fd: u64) -> State {
    if fd >= MAX_FDS {
        s
    } else {
        with_fd_table(
            s,
            table_pa,
            with_fd(fd_table(s, table_pa), fd as int, FdEntry::zeroed()),
        )
    }
}

pub fn fd_close(k: &mut Kernel, table_pa: u64, fd: u64)
    requires
        old(k).wf(),
    ensures
        final(k).wf(),
        final(k)@ == fd_closed(old(k)@, table_pa, fd),
{
    if fd >= MAX_FDS as u64 {
        return ;
    }
    let mut t: FdTable = k.fd_tables.read(table_pa);
    t.entries[fd as usize] = FdEntry::zero();
    set_fd_table(k, table_pa, t);
}

/// Setting the position of an open descriptor.
pub open spec fn fd_sought(s: State, table_pa: u64, fd: u64, offset: u64) -> (State, Option<u64>) {
    match fd_entry(s, table_pa, fd) {
        None => (s, None),
        Some(e) => (
            with_fd_table(
                s,
                table_pa,
                with_fd(fd_table(s, table_pa), fd as int, FdEntry { offset, ..e }),
            ),
            Some(offset),
        ),
    }
}

/// Set the offset of an open descriptor. Returns the new offset.
pub fn fd_seek(k: &mut Kernel, table_pa: u64, fd: u64, new_offset: u64) -> (r: Option<u64>)
    requires
        old(k).wf(),
    ensures
        final(k).wf(),
        (final(k)@, r) == fd_sought(old(k)@, table_pa, fd, new_offset),
{
    if fd >= MAX_FDS as u64 {
        return None;
    }
    let mut t: FdTable = k.fd_tables.read(table_pa);
    let mut e: FdEntry = t.entries[fd as usize];
    if e.inode_pa == 0 {
        return None;
    }
    e.offset = new_offset;
    t.entries[fd as usize] = e;
    set_fd_table(k, table_pa, t);
    Some(new_offset)
}

/// Copying descriptor `src` over `dst`.
pub open spec fn fd_duplicated(s: State, table_pa: u64, src: u64, dst: u64) -> (State, bool) {
    if src >= MAX_FDS || dst >= MAX_FDS || fd_entry(s, table_pa, src) is None {
        (s, false)
    } else {
        let t = fd_table(s, table_pa);
        (with_fd_table(s, table_pa, with_fd(t, dst as int, t.entries[src as int])), true)
    }
}

/// Copy `src_fd` into `dst_fd`.
pub fn fd_dup(k: &mut Kernel, table_pa: u64, src_fd: u64, dst_fd: u64) -> (r: Option<()>)
    requires
        old(k).wf(),
    ensures
        final(k).wf(),
        (final(k)@, r is Some) == fd_duplicated(old(k)@, table_pa, src_fd, dst_fd),
{
    if src_fd >= MAX_FDS as u64 || dst_fd >= MAX_FDS as u64 {
        return None;
    }
    let mut t: FdTable = k.fd_tables.read(table_pa);
    let e: FdEntry = t.entries[src_fd as usize];
    if e.inode_pa == 0 {
        return None;
    }
    t.entries[dst_fd as usize] = e;
    set_fd_table(k, table_pa, t);
    Some(())
}

/// The working directory of a table: "/" when none is set.
pub open spec fn cwd_of(t: FdTable) -> Seq<u8> {
    let c = text(t.cwd@);
    if c.len() == 0 {
        seq![SLASH]
    } else {
        c
    }
}

/// Read the working directory into the start of `buf`. Returns its length; "/"
/// counts as one byte even where it does not fit.
pub fn fd_cwd(k: &Kernel, table_pa: u64, buf: &mut [u8]) -> (r: usize)
    ensures
        ({
            let t = fd_table(k@, table_pa);
            let c = fitted(cwd_of(t), old(buf)@.len() as int);
            &&& final(buf)@ == overlaid(old(buf)@, c)
            &&& r == (if text(t.cwd@).len() == 0 {
                1
            } else {
                c.len()
            })
            &&& r <= 128
        }),
{
    let t: FdTable = k.fd_tables.read(table_pa);
    let len: usize = path::position(&t.cwd, 0, 0);
    if len == 0 {
        if buf.len() > 0 {
            buf[0] = SLASH;
        }
        proof {
            let c = fitted(cwd_of(t), old(buf)@.len() as int);
            assert(buf@ =~= overlaid(old(buf)@, c));
        }
        return 1;
    }
    let n: usize = if len < buf.len() {
        len
    } else {
        buf.len()
    };
    let mut i: usize = 0;
    while i < n
        invariant
            i <= n <= 128,
            n <= old(buf)@.len(),
            buf@ =~= t.cwd@.take(i as int) + old(buf)@.skip(i as int),
        decreases n - i,
    {
        buf[i] = t.cwd[i];
        i += 1;
    }
    assert(fitted(cwd_of(t), old(buf)@.len() as int) =~= t.cwd@.take(n as int));
    n
}

/// A working directory, padded with zero bytes.
pub open spec fn padded_cwd(p: Seq<u8>) -> Seq<u8> {
    p + Seq::new((128 - p.len()) as nat, |i: int| 0u8)
}

/// Storing the working directory.
pub open spec fn cwd_set(s: State, table_pa: u64, p: Seq<u8>) -> State {
    let t = fd_table(s, table_pa);
    with_fd_table(s, table_pa, FdTable { cwd: bytes::array_of::<128>(padded_cwd(p)), ..t })
}

/// Store the working directory. Returns whether it fits.
pub fn fd_set_cwd(k: &mut Kernel, table_pa: u64, p: &[u8]) -> (r: bool)
    requires
        old(k).wf(),
    ensures
        final(k).wf(),
        r == (p@.len() <= MAX_CWD),
        !r ==> final(k)@ == old(k)@,
        r ==> final(k)@ == cwd_set(old(k)@, table_pa, p@),
{
    if p.len() > MAX_CWD {
        return false;
    }
    let mut t: FdTable = k.fd_tables.read(table_pa);
    t.cwd = [0;128];
    let mut i: usize = 0;
    while i < p.len()
        invariant
            i <= p@.len() <= 128,
            t.entries == fd_table(old(k)@, table_pa).entries,
            t.cwd@ =~= p@.take(i as int) + Seq::new((128 - i) as nat, |j: int| 0u8),
        decreases p@.len() - i,
    {
        t.cwd[i] = p[i];
        i += 1;
    }
    proof {
        assert(t.cwd@ =~= padded_cwd(p@));
        bytes::lemma_array_of(t.cwd);
    }
    set_fd_table(k, table_pa, t);
    true
}

} // verus!
