//! Open files: the console and files of easy-fs opened with an offset, and how a path
//! is opened in the root directory.
use vstd::prelude::*;
use crate::table::{first_free, find_free_slot};
use crate::vfs::{
    DiskInodeType, DiskInodeView, EasyFileSystem, Inode, NAME_LENGTH_LIMIT, DIRENT_SZ, cleared,
    data_inode, entry_growth, fs_wf, link_resolves, linked, lookup, read_range, write_growth,
    written,
};
use crate::blocks::{inode_size, total_blocks};

verus! {

/// Open for reading only.
pub const O_RDONLY: u32 = 0;
/// Open for writing only.
pub const O_WRONLY: u32 = 1;
/// Open for reading and writing.
pub const O_RDWR: u32 = 2;
/// Create the file if it does not exist, and empty it if it does.
pub const O_CREATE: u32 = 0x200;
/// Empty the file.
pub const O_TRUNC: u32 = 0x400;

/// A file of easy-fs opened for reading and/or writing, at an offset.
#[derive(Clone, Copy, Debug, PartialEq, Eq, Structural)]
pub struct OsInode {
    pub readable: bool,
    pub writable: bool,
    pub inode_id: u32,
    pub offset: usize,
}

/// What a file descriptor refers to.
#[derive(Clone, Copy, Debug, PartialEq, Eq, Structural)]
pub enum OpenFile {
    Stdin,
    Stdout,
    Inode(OsInode),
}

/// The console: bytes typed and not yet read, and bytes written and not yet shown.
#[derive(Debug)]
pub struct Console {
    pub input: Vec<u8>,
    pub output: Vec<u8>,
}

/// The status of a file, as the fstat system call hands it to user space.
#[derive(Clone, Copy, Debug, PartialEq, Eq)]
pub struct Stat {
    pub dev: u64,
    pub ino: u64,
    pub mode: u32,
    pub nlink: u32,
    pub pad: [u64; 7],
}

impl Stat {
    /// The fields of a status other than its padding.
    pub open spec fn fields(&self) -> (u64, u64, u32, u32) {
        (self.dev, self.ino, self.mode, self.nlink)
    }

    /// The padding is all zero.
    pub open spec fn pad_clear(&self) -> bool {
        forall|i: int| 0 <= i < 7 ==> #[trigger] self.pad@[i] == 0u64
    }
}

/// Mode of a directory.
pub const S_IFDIR: u32 = 0o040000;
/// Mode of a regular file.
pub const S_IFREG: u32 = 0o100000;

/// Whether `f` can be read.
pub open spec fn can_read(f: OpenFile) -> bool {
    match f {
        OpenFile::Stdin => true,
        OpenFile::Stdout => false,
        OpenFile::Inode(o) => o.readable,
    }
}

/// Whether `f` can be written.
pub open spec fn can_write(f: OpenFile) -> bool {
    match f {
        OpenFile::Stdin => false,
        OpenFile::Stdout => true,
        OpenFile::Inode(o) => o.writable,
    }
}

impl OpenFile {
    /// Whether this file can be read.
    pub fn readable(&self) -> (r: bool)
        ensures
            r == can_read(*self),
    {
        match self {
            OpenFile::Stdin => true,
            OpenFile::Stdout => false,
            OpenFile::Inode(o) => o.readable,
        }
    }

    /// Whether this file can be written.
    pub fn writable(&self) -> (r: bool)
        ensures
            r == can_write(*self),
    {
        match self {
            OpenFile::Stdin => false,
            OpenFile::Stdout => true,
            OpenFile::Inode(o) => o.writable,
        }
    }
}

/// `flags` holds no bit but those of the open flags.
pub open spec fn flags_valid(flags: u32) -> bool {
    flags & !(O_WRONLY | O_RDWR | O_CREATE | O_TRUNC) == 0
}

/// Whether `flags` open for reading, and whether for writing.
pub open spec fn access_of(flags: u32) -> (bool, bool) {
    if flags == 0 {
        (true, false)
    } else if flags & O_WRONLY != 0 {
        (false, true)
    } else {
        (true, true)
    }
}

/// What opening `path` in the root directory with `flags` leaves of the file system, and
/// the inode it opens, if any.
pub open spec fn opened(fs: Seq<DiskInodeView>, path: Seq<u8>, flags: u32) -> (Seq<DiskInodeView>, Option<u32>) {
    let found = lookup(fs[0].entries, path);
    if flags & O_CREATE != 0 {
        match found {
            Some(id) => (fs.update(id as int, cleared(fs[id as int])), Some(id)),
            None => (linked(fs, 0, path, DiskInodeType::File, None), Some(fs.len() as u32)),
        }
    } else {
        match found {
            Some(id) => if flags & O_TRUNC != 0 {
                (fs.update(id as int, cleared(fs[id as int])), Some(id))
            } else {
                (fs, Some(id))
            },
            None => (fs, None),
        }
    }
}

/// What opening `path` with `flags` asks of the file system: a well-formed one and, where
/// the file is to be created, room for one more inode and one more root entry, and a name
/// that fits in an entry.
pub open spec fn can_open(fs: Seq<DiskInodeView>, path: Seq<u8>, flags: u32) -> bool {
    &&& fs_wf(fs)
    &&& flags_valid(flags)
    &&& (flags & O_CREATE != 0 && lookup(fs[0].entries, path) is None) ==> {
        &&& fs.len() < u32::MAX
        &&& path.len() <= NAME_LENGTH_LIMIT
        &&& (fs[0].entries.len() + 1) * DIRENT_SZ <= u32::MAX
    }
}

/// The file descriptors of `table` that refer to inodes refer to inodes of `fs` that are
/// no directories.
pub open spec fn fds_valid(table: Seq<Option<OpenFile>>, fs: Seq<DiskInodeView>) -> bool {
    forall|i: int| #![trigger table[i]] 0 <= i < table.len() ==> match table[i] {
        Some(OpenFile::Inode(o)) => o.inode_id < fs.len() && fs[o.inode_id as int].kind != DiskInodeType::Directory,
        _ => true,
    }
}

/// Descriptors that are valid in `fs` stay valid in a file system that keeps every inode
/// of `fs`, with its type, and may have more.
pub proof fn lemma_fds_valid_in_larger(table: Seq<Option<OpenFile>>, fs: Seq<DiskInodeView>, fs2: Seq<DiskInodeView>)
    requires
        fds_valid(table, fs),
        fs2.len() >= fs.len(),
        forall|i: int| 0 <= i < fs.len() ==> #[trigger] fs2[i].kind == fs[i].kind,
    ensures
        fds_valid(table, fs2),
{
    assert forall|i: int| #![trigger table[i]] 0 <= i < table.len() implies match table[i] {
        Some(OpenFile::Inode(o)) => o.inode_id < fs2.len() && fs2[o.inode_id as int].kind != DiskInodeType::Directory,
        _ => true,
    } by {
        match table[i] {
            Some(OpenFile::Inode(o)) => {
                assert(fs2[o.inode_id as int].kind == fs[o.inode_id as int].kind);
            },
            _ => {},
        }
    }
}

/// Moving the offset of descriptor `fd` keeps the descriptors valid.
pub proof fn lemma_fds_valid_new_offset(table: Seq<Option<OpenFile>>, fs: Seq<DiskInodeView>, fd: int, offset: usize)
    requires
        fds_valid(table, fs),
        0 <= fd < table.len(),
        table[fd] matches Some(OpenFile::Inode(_)),
    ensures
        fds_valid(
            table.update(fd, Some(OpenFile::Inode(OsInode { offset, ..table[fd]->0->Inode_0 }))),
            fs,
        ),
{
    let t2 = table.update(fd, Some(OpenFile::Inode(OsInode { offset, ..table[fd]->0->Inode_0 })));
    assert forall|i: int| #![trigger t2[i]] 0 <= i < t2.len() implies match t2[i] {
        Some(OpenFile::Inode(o)) => o.inode_id < fs.len() && fs[o.inode_id as int].kind != DiskInodeType::Directory,
        _ => true,
    } by {
        assert(match table[i] {
            Some(OpenFile::Inode(o)) => o.inode_id < fs.len() && fs[o.inode_id as int].kind != DiskInodeType::Directory,
            _ => true,
        });
    }
}

/// How many data blocks the bitmap has handed out after opening `path` with `flags`:
/// emptying a file gives its blocks back, creating one takes those of one more root entry.
pub open spec fn used_after_open(fs: Seq<DiskInodeView>, used: int, path: Seq<u8>, flags: u32) -> int {
    let found = lookup(fs[0].entries, path);
    if flags & O_CREATE != 0 {
        match found {
            Some(id) => used - total_blocks(inode_size(fs[id as int])),
            None => used + entry_growth(fs[0].entries.len() as int),
        }
    } else {
        match found {
            Some(id) => if flags & O_TRUNC != 0 {
                used - total_blocks(inode_size(fs[id as int]))
            } else {
                used
            },
            None => used,
        }
    }
}

/// What opening `path` with `flags` asks of the data-block bitmap: its accounts hold, and
/// where the file is to be created, it has room for one more root entry.
pub open spec fn bitmap_can_open(fs: &EasyFileSystem, path: Seq<u8>, flags: u32) -> bool {
    &&& fs.blocks_wf()
    &&& (flags & O_CREATE != 0 && lookup(fs@[0].entries, path) is None)
        ==> fs.used_data_blocks + entry_growth(fs@[0].entries.len() as int) <= fs.data_block_capacity
}

/// The table after installing `file` at the first free descriptor, or at a new one.
pub open spec fn installed(table: Seq<Option<OpenFile>>, file: OpenFile) -> Seq<Option<OpenFile>> {
    match first_free(table) {
        Some(i) => table.update(i, Some(file)),
        None => table.push(Some(file)),
    }
}

/// The descriptor that installing a file in `table` takes.
pub open spec fn next_fd(table: Seq<Option<OpenFile>>) -> int {
    match first_free(table) {
        Some(i) => i,
        None => table.len() as int,
    }
}

/// Installs `file` at the first free descriptor, or at a new one, and returns it.
pub fn alloc_fd(table: &mut Vec<Option<OpenFile>>, file: OpenFile) -> (fd: usize)
    ensures
        fd == next_fd(old(table)@),
        final(table)@ == installed(old(table)@, file),
{
    match find_free_slot(table) {
        Some(fd) => {
            table.set(fd, Some(file));
            fd
        },
        None => {
            table.push(Some(file));
            table.len() - 1
        },
    }
}

/// Opens `path` in the root directory: with `O_CREATE` an existing file is emptied and a
/// missing one created; without it a missing file is not opened and `O_TRUNC` empties an
/// existing one.
pub fn open_file(fs: &mut EasyFileSystem, path: &[u8], flags: u32) -> (r: Option<OsInode>)
    requires
        can_open(old(fs)@, path@, flags),
        bitmap_can_open(old(fs), path@, flags),
    ensures
        fs_wf(final(fs)@),
        final(fs).blocks_wf(),
        final(fs).data_block_capacity == old(fs).data_block_capacity,
        final(fs).used_data_blocks == used_after_open(old(fs)@, old(fs).used_data_blocks as int, path@, flags),
        final(fs)@ == opened(old(fs)@, path@, flags).0,
        match opened(old(fs)@, path@, flags).1 {
            Some(id) => r == Some(OsInode {
                readable: access_of(flags).0,
                writable: access_of(flags).1,
                inode_id: id,
                offset: 0,
            }),
            None => r is None,
        },
        r is Some ==> r->0.writable == (flags != 0),
        r is Some ==> r->0.readable == (flags == 0 || flags & O_WRONLY == 0),
{
    let (readable, writable) = if flags == 0 {
        (true, false)
    } else if flags & O_WRONLY != 0 {
        (false, true)
    } else {
        (true, true)
    };
    let root = fs.root_inode();
    if flags & O_CREATE != 0 {
        if let Some(inode) = root.find(fs, path) {
            proof {
                crate::vfs::lemma_lookup_entry(old(fs)@[0].entries, path@);
            }
            inode.clear(fs);
            Some(OsInode { readable, writable, inode_id: inode.inode_id(), offset: 0 })
        } else {
            match root.create(fs, path) {
                Some(inode) => Some(OsInode { readable, writable, inode_id: inode.inode_id(), offset: 0 }),
                None => None,
            }
        }
    } else {
        match root.find(fs, path) {
            Some(inode) => {
                proof {
                    crate::vfs::lemma_lookup_entry(old(fs)@[0].entries, path@);
                }
                if flags & O_TRUNC != 0 {
                    inode.clear(fs);
                }
                Some(OsInode { readable, writable, inode_id: inode.inode_id(), offset: 0 })
            },
            None => None,
        }
    }
}

/// The inode `id` exists, and so does the target of a hard link.
pub open spec fn inode_usable(fs: Seq<DiskInodeView>, id: u32) -> bool {
    link_resolves(fs, id as int)
}

/// What reading `len` bytes through `o` yields: the bytes at its offset of the inode it
/// stands for, and their number; a directory yields no bytes, and its count is the offset.
pub open spec fn read_result(fs: Seq<DiskInodeView>, o: OsInode, len: nat) -> (Seq<u8>, int) {
    if fs[o.inode_id as int].kind == DiskInodeType::Directory {
        (Seq::empty(), o.offset as int)
    } else {
        let got = read_range(fs[data_inode(fs, o.inode_id as int)].data, o.offset as int, len as int);
        (got, got.len() as int)
    }
}

/// What a read through `o` asks of `fs`: the inode exists, and on a directory, whose
/// count is the offset itself, the offset can move that far.
pub open spec fn can_read_through(fs: Seq<DiskInodeView>, o: OsInode) -> bool {
    &&& inode_usable(fs, o.inode_id)
    &&& fs[o.inode_id as int].kind == DiskInodeType::Directory ==> o.offset + o.offset <= usize::MAX
}

impl OsInode {
    /// Reads into the front of `buf` at the offset, and moves the offset past what was read.
    pub fn read(&mut self, fs: &EasyFileSystem, buf: &mut Vec<u8>) -> (n: usize)
        requires
            can_read_through(fs@, *old(self)),
        ensures
            n == read_result(fs@, *old(self), old(buf)@.len()).1,
            final(buf)@ == read_result(fs@, *old(self), old(buf)@.len()).0 + old(buf)@.subrange(
                read_result(fs@, *old(self), old(buf)@.len()).0.len() as int,
                old(buf)@.len() as int,
            ),
            *final(self) == (OsInode { offset: (old(self).offset + n) as usize, ..*old(self) }),
    {
        let inode = Inode::new(self.inode_id);
        let n = inode.read_at(fs, self.offset, buf);
        proof {
            let t = data_inode(fs@, self.inode_id as int);
            assert(fs.inodes@[t]@.data.len() == fs.inodes@[t].data.len());
            if fs@[self.inode_id as int].kind == DiskInodeType::Directory {
                assert(buf@ =~= Seq::<u8>::empty() + old(buf)@.subrange(0, old(buf)@.len() as int));
            }
        }
        self.offset = self.offset + n;
        n
    }

    /// Writes `buf` at the offset, and moves the offset past it.
    pub fn write(&mut self, fs: &mut EasyFileSystem, buf: &[u8]) -> (n: usize)
        requires
            inode_usable(old(fs)@, old(self).inode_id),
            old(fs)@[data_inode(old(fs)@, old(self).inode_id as int)].kind != DiskInodeType::Directory,
            old(self).offset + buf@.len() <= u32::MAX,
            old(fs).used_data_blocks + write_growth(
                old(fs)@[data_inode(old(fs)@, old(self).inode_id as int)],
                old(self).offset + buf@.len(),
            ) <= old(fs).data_block_capacity,
        ensures
            n == buf@.len(),
            fs_wf(old(fs)@) ==> fs_wf(final(fs)@),
            old(fs).blocks_wf() ==> final(fs).blocks_wf(),
            final(fs).data_block_capacity == old(fs).data_block_capacity,
            final(fs).used_data_blocks == old(fs).used_data_blocks + write_growth(
                old(fs)@[data_inode(old(fs)@, old(self).inode_id as int)],
                old(self).offset + buf@.len(),
            ),
            ({
                let t = crate::vfs::data_inode(old(fs)@, old(self).inode_id as int);
                final(fs)@ == old(fs)@.update(
                    t,
                    DiskInodeView { data: written(old(fs)@[t].data, old(self).offset as int, buf@), ..old(fs)@[t] },
                )
            }),
            *final(self) == (OsInode { offset: (old(self).offset + n) as usize, ..*old(self) }),
    {
        let inode = Inode::new(self.inode_id);
        let n = inode.write_at(fs, self.offset, buf);
        self.offset = self.offset + n;
        n
    }
}

} // verus!
