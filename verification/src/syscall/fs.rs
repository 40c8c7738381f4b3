//! File and file-system system calls.
//!
//! The caller reads the user's buffers and strings and hands them over as byte slices,
//! and copies what these calls hand back into user memory.
use vstd::prelude::*;
use crate::file::{
    Console, OpenFile, OsInode, Stat, S_IFDIR, S_IFREG, access_of, alloc_fd, can_open, can_read,
    bitmap_can_open, can_write, fds_valid, inode_usable, installed, lemma_fds_valid_in_larger,
    lemma_fds_valid_new_offset, next_fd, open_file, opened, read_result, used_after_open,
    can_read_through,
};
use crate::vfs::{
    DiskInodeType, DiskInodeView, EasyFileSystem, Inode, NAME_LENGTH_LIMIT, DIRENT_SZ, can_unlink,
    data_inode, fs_wf, link_count, linked, lookup, mode_of, names_equal, reported_id, unlinked,
    entry_growth, write_growth, written, zeroed_inode,
};

verus! {

/// Descriptor `fd` refers to an open file.
pub open spec fn fd_open(table: Seq<Option<OpenFile>>, fd: usize) -> bool {
    fd < table.len() && table[fd as int] is Some
}

/// Write: -1 unless `fd` refers to a file open for writing; the console's output gets the
/// bytes; a file of easy-fs gets them at its offset, which moves past them. Returns the
/// number of bytes written.
pub fn sys_write(
    fd_table: &mut Vec<Option<OpenFile>>,
    fs: &mut EasyFileSystem,
    console: &mut Console,
    fd: usize,
    buf: &[u8],
) -> (r: isize)
    requires
        buf@.len() <= isize::MAX,
        fd_open(old(fd_table)@, fd) ==> match old(fd_table)@[fd as int]->0 {
            OpenFile::Inode(o) => o.writable ==> {
                &&& inode_usable(old(fs)@, o.inode_id)
                &&& old(fs)@[data_inode(old(fs)@, o.inode_id as int)].kind != DiskInodeType::Directory
                &&& o.offset + buf@.len() <= u32::MAX
                &&& old(fs).used_data_blocks + write_growth(
                    old(fs)@[data_inode(old(fs)@, o.inode_id as int)],
                    o.offset + buf@.len(),
                ) <= old(fs).data_block_capacity
            },
            _ => true,
        },
    ensures
        fs_wf(old(fs)@) ==> fs_wf(final(fs)@),
        old(fs).blocks_wf() ==> final(fs).blocks_wf(),
        final(fs).data_block_capacity == old(fs).data_block_capacity,
        fds_valid(old(fd_table)@, old(fs)@) ==> fds_valid(final(fd_table)@, final(fs)@),
        final(console).input@ == old(console).input@,
        !(fd_open(old(fd_table)@, fd) && can_write(old(fd_table)@[fd as int]->0)) ==> {
            &&& r == -1
            &&& final(fd_table)@ == old(fd_table)@
            &&& final(fs)@ == old(fs)@
            &&& final(fs).used_data_blocks == old(fs).used_data_blocks
            &&& final(console).output@ == old(console).output@
        },
        fd_open(old(fd_table)@, fd) && can_write(old(fd_table)@[fd as int]->0) ==> {
            &&& r == buf@.len()
            &&& match old(fd_table)@[fd as int]->0 {
                OpenFile::Inode(o) => {
                    let t = data_inode(old(fs)@, o.inode_id as int);
                    &&& final(fs)@ == old(fs)@.update(
                        t,
                        DiskInodeView { data: written(old(fs)@[t].data, o.offset as int, buf@), ..old(fs)@[t] },
                    )
                    &&& final(fd_table)@ == old(fd_table)@.update(
                        fd as int,
                        Some(OpenFile::Inode(OsInode { offset: (o.offset + buf@.len()) as usize, ..o })),
                    )
                    &&& final(console).output@ == old(console).output@
                    &&& final(fs).used_data_blocks == old(fs).used_data_blocks + write_growth(
                        old(fs)@[t],
                        o.offset + buf@.len(),
                    )
                },
                _ => {
                    &&& final(fs)@ == old(fs)@
                    &&& final(fs).used_data_blocks == old(fs).used_data_blocks
                    &&& final(fd_table)@ == old(fd_table)@
                    &&& final(console).output@ == old(console).output@ + buf@
                },
            }
        },
{
    if fd >= fd_table.len() {
        return -1;
    }
    match fd_table[fd] {
        Some(file) => {
            if !file.writable() {
                return -1;
            }
            match file {
                OpenFile::Inode(o) => {
                    let mut o = o;
                    let n = o.write(fs, buf);
                    fd_table.set(fd, Some(OpenFile::Inode(o)));
                    proof {
                        if fds_valid(old(fd_table)@, old(fs)@) {
                            lemma_fds_valid_new_offset(old(fd_table)@, old(fs)@, fd as int, o.offset);
                            assert(fd_table@ == old(fd_table)@.update(
                                fd as int,
                                Some(OpenFile::Inode(OsInode { offset: o.offset, ..old(fd_table)@[fd as int]->0->Inode_0 })),
                            ));
                            lemma_fds_valid_in_larger(fd_table@, old(fs)@, fs@);
                        }
                    }
                    n as isize
                },
                _ => {
                    let mut i: usize = 0;
                    while i < buf.len()
                        invariant
                            0 <= i <= buf@.len(),
                            console.output@ == old(console).output@ + buf@.subrange(0, i as int),
                            console.input@ == old(console).input@,
                        decreases buf@.len() - i,
                    {
                        console.output.push(buf[i]);
                        i = i + 1;
                        assert(console.output@ =~= old(console).output@ + buf@.subrange(0, i as int));
                    }
                    assert(buf@.subrange(0, buf@.len() as int) =~= buf@);
                    buf.len() as isize
                },
            }
        },
        None => -1,
    }
}

/// Read: -1 unless `fd` refers to a file open for reading. The console hands over its
/// next input byte (one byte is asked for at a time); a file of easy-fs is read at its
/// offset into the front of `buf`, and the offset moves past what the read reports.
/// Returns what the read reports.
pub fn sys_read(
    fd_table: &mut Vec<Option<OpenFile>>,
    fs: &EasyFileSystem,
    console: &mut Console,
    fd: usize,
    buf: &mut Vec<u8>,
) -> (r: isize)
    requires
        fd_open(old(fd_table)@, fd) ==> match old(fd_table)@[fd as int]->0 {
            OpenFile::Stdin => old(buf)@.len() == 1 && old(console).input@.len() > 0,
            OpenFile::Inode(o) => o.readable ==> can_read_through(fs@, o),
            OpenFile::Stdout => true,
        },
    ensures
        fds_valid(old(fd_table)@, fs@) ==> fds_valid(final(fd_table)@, fs@),
        final(console).output@ == old(console).output@,
        final(buf)@.len() == old(buf)@.len(),
        !(fd_open(old(fd_table)@, fd) && can_read(old(fd_table)@[fd as int]->0)) ==> {
            &&& r == -1
            &&& final(fd_table)@ == old(fd_table)@
            &&& final(console).input@ == old(console).input@
            &&& final(buf)@ == old(buf)@
        },
        fd_open(old(fd_table)@, fd) && can_read(old(fd_table)@[fd as int]->0) ==> match old(fd_table)@[fd as int]->0 {
            OpenFile::Inode(o) => {
                let (got, n) = read_result(fs@, o, old(buf)@.len());
                &&& r == n as isize
                &&& final(buf)@ == got + old(buf)@.subrange(got.len() as int, old(buf)@.len() as int)
                &&& final(fd_table)@ == old(fd_table)@.update(
                    fd as int,
                    Some(OpenFile::Inode(OsInode { offset: (o.offset + n) as usize, ..o })),
                )
                &&& final(console).input@ == old(console).input@
            },
            _ => {
                &&& r == 1
                &&& final(buf)@ == seq![old(console).input@[0]]
                &&& final(console).input@ == old(console).input@.drop_first()
                &&& final(fd_table)@ == old(fd_table)@
            },
        },
{
    if fd >= fd_table.len() {
        return -1;
    }
    match fd_table[fd] {
        Some(file) => {
            if !file.readable() {
                return -1;
            }
            match file {
                OpenFile::Inode(o) => {
                    let mut o = o;
                    let n = o.read(fs, buf);
                    fd_table.set(fd, Some(OpenFile::Inode(o)));
                    proof {
                        if fds_valid(old(fd_table)@, fs@) {
                            lemma_fds_valid_new_offset(old(fd_table)@, fs@, fd as int, o.offset);
                            assert(fd_table@ == old(fd_table)@.update(
                                fd as int,
                                Some(OpenFile::Inode(OsInode { offset: o.offset, ..old(fd_table)@[fd as int]->0->Inode_0 })),
                            ));
                        }
                    }
                    #[verifier::truncate] (n as isize)
                },
                _ => {
                    let c = console.input.remove(0);
                    buf.set(0, c);
                    assert(buf@ =~= seq![old(console).input@[0]]);
                    1
                },
            }
        },
        None => -1,
    }
}

/// Open: opens `path` in the root directory with `flags` (see `open_file`) and installs
/// it at the first free descriptor, or a new one, which it returns; -1 when the file is
/// not there to open.
pub fn sys_open(
    fd_table: &mut Vec<Option<OpenFile>>,
    fs: &mut EasyFileSystem,
    path: &[u8],
    flags: u32,
) -> (r: isize)
    requires
        can_open(old(fs)@, path@, flags),
        bitmap_can_open(old(fs), path@, flags),
        old(fd_table)@.len() < isize::MAX,
    ensures
        fs_wf(final(fs)@),
        final(fs).blocks_wf(),
        final(fs).data_block_capacity == old(fs).data_block_capacity,
        final(fs).used_data_blocks == used_after_open(old(fs)@, old(fs).used_data_blocks as int, path@, flags),
        final(fs)@ == opened(old(fs)@, path@, flags).0,
        fds_valid(old(fd_table)@, old(fs)@) ==> fds_valid(final(fd_table)@, final(fs)@),
        match opened(old(fs)@, path@, flags).1 {
            Some(id) => {
                let file = OpenFile::Inode(OsInode {
                    readable: access_of(flags).0,
                    writable: access_of(flags).1,
                    inode_id: id,
                    offset: 0,
                });
                &&& r == next_fd(old(fd_table)@)
                &&& final(fd_table)@ == installed(old(fd_table)@, file)
            },
            None => r == -1 && final(fd_table)@ == old(fd_table)@,
        },
{
    match open_file(fs, path, flags) {
        Some(inode) => {
            proof {
                lemma_opened_fds(old(fd_table)@, old(fs)@, path@, flags);
            }
            let fd = alloc_fd(fd_table, OpenFile::Inode(inode));
            proof {
                if fds_valid(old(fd_table)@, old(fs)@) {
                    lemma_installed_fds(old(fd_table)@, fs@, OpenFile::Inode(inode));
                }
            }
            fd as isize
        },
        None => -1,
    }
}

/// Opening keeps the descriptors valid, and the inode it opens is valid too.
proof fn lemma_opened_fds(table: Seq<Option<OpenFile>>, fs: Seq<DiskInodeView>, path: Seq<u8>, flags: u32)
    requires
        can_open(fs, path, flags),
    ensures
        fds_valid(table, fs) ==> fds_valid(table, opened(fs, path, flags).0),
        opened(fs, path, flags).1 is Some ==> {
            let id = opened(fs, path, flags).1->0;
            let after = opened(fs, path, flags).0;
            id < after.len() && after[id as int].kind != DiskInodeType::Directory
        },
{
    let after = opened(fs, path, flags).0;
    let found = lookup(fs[0].entries, path);
    if found is Some {
        crate::vfs::lemma_lookup_entry(fs[0].entries, path);
    }
    assert(after.len() >= fs.len());
    assert forall|i: int| 0 <= i < fs.len() implies #[trigger] after[i].kind == fs[i].kind by {}
    if fds_valid(table, fs) {
        assert forall|i: int| #![trigger table[i]] 0 <= i < table.len() implies match table[i] {
            Some(OpenFile::Inode(o)) => o.inode_id < after.len() && after[o.inode_id as int].kind != DiskInodeType::Directory,
            _ => true,
        } by {
            match table[i] {
                Some(OpenFile::Inode(o)) => {
                    assert(after[o.inode_id as int].kind == fs[o.inode_id as int].kind);
                },
                _ => {},
            }
        }
    }
}

/// Installing a file whose inode is valid keeps the descriptors valid.
proof fn lemma_installed_fds(table: Seq<Option<OpenFile>>, fs: Seq<DiskInodeView>, file: OpenFile)
    requires
        fds_valid(table, fs),
        match file {
            OpenFile::Inode(o) => o.inode_id < fs.len() && fs[o.inode_id as int].kind != DiskInodeType::Directory,
            _ => true,
        },
    ensures
        fds_valid(installed(table, file), fs),
{
    let t = installed(table, file);
    assert forall|i: int| #![trigger t[i]] 0 <= i < t.len() implies match t[i] {
        Some(OpenFile::Inode(o)) => o.inode_id < fs.len() && fs[o.inode_id as int].kind != DiskInodeType::Directory,
        _ => true,
    } by {
        if i < table.len() && t[i] == table[i] {
            assert(match table[i] {
                Some(OpenFile::Inode(o)) => o.inode_id < fs.len() && fs[o.inode_id as int].kind != DiskInodeType::Directory,
                _ => true,
            });
        }
    }
}

/// Close: -1 unless `fd` refers to an open file; else the descriptor becomes free and 0
/// is returned.
pub fn sys_close(fd_table: &mut Vec<Option<OpenFile>>, fd: usize) -> (r: isize)
    ensures
        forall|fs: Seq<DiskInodeView>| fds_valid(old(fd_table)@, fs) ==> #[trigger] fds_valid(final(fd_table)@, fs),
        !fd_open(old(fd_table)@, fd) ==> r == -1 && final(fd_table)@ == old(fd_table)@,
        fd_open(old(fd_table)@, fd) ==> r == 0 && final(fd_table)@ == old(fd_table)@.update(fd as int, None),
{
    if fd >= fd_table.len() {
        return -1;
    }
    if fd_table[fd].is_none() {
        return -1;
    }
    fd_table.set(fd, None);
    proof {
        assert forall|fs: Seq<DiskInodeView>| fds_valid(old(fd_table)@, fs) implies #[trigger] fds_valid(fd_table@, fs) by {
            assert forall|i: int| #![trigger fd_table@[i]] 0 <= i < fd_table@.len() implies match fd_table@[i] {
                Some(OpenFile::Inode(o)) => o.inode_id < fs.len() && fs[o.inode_id as int].kind != DiskInodeType::Directory,
                _ => true,
            } by {
                assert(match old(fd_table)@[i] {
                    Some(OpenFile::Inode(o)) => o.inode_id < fs.len() && fs[o.inode_id as int].kind != DiskInodeType::Directory,
                    _ => true,
                });
            }
        }
    }
    0
}

/// The device, inode number, mode and link count of an open file: zeros for the console;
/// for a file of easy-fs its inode number, its mode (a directory's, or a regular file's for
/// a file or hard link) and its link count.
pub open spec fn file_stat(fs: Seq<DiskInodeView>, file: OpenFile) -> (u64, u64, u32, u32) {
    match file {
        OpenFile::Inode(o) => (
            0,
            reported_id(fs, o.inode_id as int) as u64,
            if mode_of(fs[o.inode_id as int].kind) == 0 { S_IFDIR } else { S_IFREG },
            link_count(fs, o.inode_id as int),
        ),
        _ => (0, 0, 0, 0),
    }
}

/// Fstat: -1 unless `fd` refers to an open file; else its status goes to `st` and 0 is
/// returned.
pub fn sys_fstat(fd_table: &Vec<Option<OpenFile>>, fs: &EasyFileSystem, fd: usize, st: &mut Stat) -> (r: isize)
    requires
        fd_open(fd_table@, fd) ==> match fd_table@[fd as int]->0 {
            OpenFile::Inode(o) => inode_usable(fs@, o.inode_id),
            _ => true,
        },
    ensures
        !fd_open(fd_table@, fd) ==> r == -1 && *final(st) == *old(st),
        fd_open(fd_table@, fd) ==> {
            &&& r == 0
            &&& final(st).fields() == file_stat(fs@, fd_table@[fd as int]->0)
            &&& final(st).pad_clear()
        },
{
    if fd >= fd_table.len() {
        return -1;
    }
    match fd_table[fd] {
        Some(file) => {
            *st = fstat(fs, file);
            0
        },
        None => -1,
    }
}

/// The status of an open file.
fn fstat(fs: &EasyFileSystem, file: OpenFile) -> (st: Stat)
    requires
        match file {
            OpenFile::Inode(o) => inode_usable(fs@, o.inode_id),
            _ => true,
        },
    ensures
        st.fields() == file_stat(fs@, file),
        st.pad_clear(),
{
    match file {
        OpenFile::Inode(o) => {
            let inode = Inode::new(o.inode_id);
            let mode = if inode.get_mode(fs) == 0 {
                S_IFDIR
            } else {
                S_IFREG
            };
            Stat { dev: 0, ino: inode.get_inode_id(fs) as u64, mode, nlink: inode.get_nlink(fs), pad: [0u64; 7] }
        },
        _ => Stat { dev: 0, ino: 0, mode: 0, nlink: 0, pad: [0u64; 7] },
    }
}

/// The file system after a hard link `new_name` to the file named `old_name` in the root
/// directory: the link, and one more link counted on the inode `old_name` names.
pub open spec fn hard_linked(fs: Seq<DiskInodeView>, new_name: Seq<u8>, old_name: Seq<u8>) -> Seq<DiskInodeView> {
    let s = linked(fs, 0, new_name, DiskInodeType::HardLink, Some(old_name));
    let t = lookup(fs[0].entries, old_name)->0 as int;
    s.update(t, DiskInodeView { nlink: (s[t].nlink + 1) as u32, ..s[t] })
}

/// What a hard link asks of the file system: a well-formed one whose block accounts
/// hold; room for one more inode where the new name is free; and where the link is made,
/// room for one more root entry (in the entry count and in the bitmap), a new name that
/// fits in an entry and a link count that can grow.
pub open spec fn can_link(fs: &EasyFileSystem, old_name: Seq<u8>, new_name: Seq<u8>) -> bool {
    let v = fs@;
    &&& fs_wf(v)
    &&& fs.blocks_wf()
    &&& lookup(v[0].entries, new_name) is None ==> v.len() < u32::MAX
    &&& lookup(v[0].entries, new_name) is None && lookup(v[0].entries, old_name) is Some ==> {
        &&& new_name.len() <= NAME_LENGTH_LIMIT
        &&& (v[0].entries.len() + 1) * DIRENT_SZ <= u32::MAX
        &&& v[lookup(v[0].entries, old_name)->0 as int].nlink < u32::MAX
        &&& fs.used_data_blocks + entry_growth(v[0].entries.len() as int) <= fs.data_block_capacity
    }
}

/// Links `new_name` in the root directory to the inode `old_name` names, counting the link.
fn create_hardlink(fs: &mut EasyFileSystem, new_name: &[u8], old_name: &[u8]) -> (r: Option<Inode>)
    requires
        can_link(old(fs), old_name@, new_name@),
    ensures
        fs_wf(final(fs)@),
        final(fs).blocks_wf(),
        final(fs).data_block_capacity == old(fs).data_block_capacity,
        ({
            let root = old(fs)@[0].entries;
            if lookup(root, new_name@) is Some {
                r is None && final(fs)@ == old(fs)@ && final(fs).used_data_blocks == old(fs).used_data_blocks
            } else if lookup(root, old_name@) is None {
                r is None && final(fs)@ == old(fs)@.push(zeroed_inode())
                    && final(fs).used_data_blocks == old(fs).used_data_blocks
            } else {
                r is Some && final(fs)@ == hard_linked(old(fs)@, new_name@, old_name@)
                    && final(fs).used_data_blocks == old(fs).used_data_blocks + entry_growth(root.len() as int)
            }
        }),
{
    let root = fs.root_inode();
    let link = root.linkat(fs, new_name, DiskInodeType::HardLink, Some(old_name));
    match link {
        Some(l) => {
            let ghost s = fs@;
            let ghost t = lookup(old(fs)@[0].entries, old_name@)->0 as int;
            proof {
                crate::vfs::lemma_lookup_entry(old(fs)@[0].entries, old_name@);
                assert(s[fs@.len() - 1].link_target == t);
                assert(0 <= t < old(fs)@.len());
                assert(s[t].nlink == old(fs)@[t].nlink);
            }
            let target = Inode::new(fs.inodes[l.inode_id() as usize].link_target);
            let n = fs.inodes[target.inode_id() as usize].nlink;
            target.set_nlink(fs, n + 1);
            Some(l)
        },
        None => None,
    }
}

/// Link: -1 when both names are one string in user memory, or equal; else hard-links
/// `new_name` in the root directory to the inode `old_name` names and returns 0, or
/// returns -1 when `new_name` is taken or `old_name` is missing (an inode taken from the
/// bitmap for the link then stays taken).
pub fn sys_linkat(
    fs: &mut EasyFileSystem,
    old_ptr: usize,
    new_ptr: usize,
    old_name: &[u8],
    new_name: &[u8],
) -> (r: isize)
    requires
        old_ptr != new_ptr && old_name@ != new_name@ ==> can_link(old(fs), old_name@, new_name@),
    ensures
        fs_wf(old(fs)@) ==> fs_wf(final(fs)@),
        old(fs).blocks_wf() ==> final(fs).blocks_wf(),
        final(fs).data_block_capacity == old(fs).data_block_capacity,
        old_ptr == new_ptr || old_name@ == new_name@ ==> {
            &&& r == -1
            &&& final(fs)@ == old(fs)@
            &&& final(fs).used_data_blocks == old(fs).used_data_blocks
        },
        old_ptr != new_ptr && old_name@ != new_name@ ==> {
            let root = old(fs)@[0].entries;
            if lookup(root, new_name@) is Some {
                r == -1 && final(fs)@ == old(fs)@ && final(fs).used_data_blocks == old(fs).used_data_blocks
            } else if lookup(root, old_name@) is None {
                r == -1 && final(fs)@ == old(fs)@.push(zeroed_inode())
                    && final(fs).used_data_blocks == old(fs).used_data_blocks
            } else {
                r == 0 && final(fs)@ == hard_linked(old(fs)@, new_name@, old_name@)
                    && final(fs).used_data_blocks == old(fs).used_data_blocks + entry_growth(root.len() as int)
            }
        },
{
    if old_ptr == new_ptr {
        return -1;
    }
    if names_equal(old_name, new_name) {
        return -1;
    }
    if let Some(_inode) = create_hardlink(fs, new_name, old_name) {
        0
    } else {
        -1
    }
}

/// Unlink: removes `name` from the root directory (the inode that holds its data loses a
/// link) and returns 0, or returns -1 when it is not there.
pub fn sys_unlinkat(fs: &mut EasyFileSystem, name: &[u8]) -> (r: isize)
    requires
        fs_wf(old(fs)@),
        can_unlink(old(fs)@, 0, name@),
    ensures
        fs_wf(final(fs)@),
        EasyFileSystem::same_bitmap(final(fs), old(fs)),
        old(fs).blocks_wf() ==> final(fs).blocks_wf(),
        match lookup(old(fs)@[0].entries, name@) {
            Some(id) => r == 0 && final(fs)@ == unlinked(old(fs)@, 0, name@, id as int),
            None => r == -1 && final(fs)@ == old(fs)@,
        },
{
    let root = fs.root_inode();
    if root.delete(fs, name) {
        0
    } else {
        -1
    }
}

} // verus!
