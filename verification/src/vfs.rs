//! The virtual file system layer of easy-fs, over an in-memory model of the disk.
//!
//! A disk inode is held as plain values: its type, its link count, its id, its first
//! direct pointer (which a hard link uses for the id of the inode it stands for), the
//! bytes of a file and the entries of a directory. The file system is the sequence of
//! its allocated disk inodes, indexed by inode id; inode 0 is the root directory.
use vstd::prelude::*;
use crate::blocks::{
    blocks_of, inode_size, lemma_blocks_at_least, lemma_blocks_push, lemma_blocks_update,
    lemma_total_blocks_monotone, total_blocks, total_blocks_of,
};

verus! {

/// Size in bytes of one directory entry on disk.
pub const DIRENT_SZ: usize = 32;

/// Longest file name a directory entry holds.
pub const NAME_LENGTH_LIMIT: usize = 27;

/// The type of a disk inode.
#[derive(Clone, Copy, Debug, PartialEq, Eq, Structural)]
pub enum DiskInodeType {
    File,
    Directory,
    HardLink,
}

/// A directory entry: a name and the id of the inode it names.
#[derive(Debug)]
pub struct DirEntry {
    pub name: Vec<u8>,
    pub inode_id: u32,
}

/// A disk inode.
#[derive(Debug)]
pub struct DiskInode {
    pub kind: DiskInodeType,
    pub nlink: u32,
    pub inode_id: u32,
    /// The first direct pointer; a hard link keeps there the id of its target inode.
    pub link_target: u32,
    /// The bytes of a file; their number is the inode's size.
    pub data: Vec<u8>,
    /// The entries of a directory, in the order in which they were written.
    pub entries: Vec<DirEntry>,
}

/// The disk's inodes, indexed by inode id, and its data-block bitmap by the number of
/// blocks it has handed out and the number it holds.
#[derive(Debug)]
pub struct EasyFileSystem {
    pub inodes: Vec<DiskInode>,
    pub used_data_blocks: usize,
    pub data_block_capacity: usize,
}

/// A handle on one inode of the file system.
#[derive(Clone, Copy, Debug)]
pub struct Inode {
    inode_id: u32,
    deleted: bool,
}

pub struct DirEntryView {
    pub name: Seq<u8>,
    pub inode_id: u32,
}

pub struct DiskInodeView {
    pub kind: DiskInodeType,
    pub nlink: u32,
    pub inode_id: u32,
    pub link_target: u32,
    pub data: Seq<u8>,
    pub entries: Seq<DirEntryView>,
}

impl View for DirEntry {
    type V = DirEntryView;

    open spec fn view(&self) -> DirEntryView {
        DirEntryView { name: self.name@, inode_id: self.inode_id }
    }
}

impl View for DiskInode {
    type V = DiskInodeView;

    open spec fn view(&self) -> DiskInodeView {
        DiskInodeView {
            kind: self.kind,
            nlink: self.nlink,
            inode_id: self.inode_id,
            link_target: self.link_target,
            data: self.data@,
            entries: self.entries@.map_values(|e: DirEntry| e@),
        }
    }
}

impl View for EasyFileSystem {
    type V = Seq<DiskInodeView>;

    open spec fn view(&self) -> Seq<DiskInodeView> {
        self.inodes@.map_values(|d: DiskInode| d@)
    }
}

/// `i` is the first entry of `es` that carries `name`.
pub open spec fn is_first_match(es: Seq<DirEntryView>, name: Seq<u8>, i: int) -> bool {
    &&& 0 <= i < es.len()
    &&& es[i].name == name
    &&& forall|j: int| 0 <= j < i ==> es[j].name != name
}

/// Some entry of `es` carries `name`.
pub open spec fn has_name(es: Seq<DirEntryView>, name: Seq<u8>) -> bool {
    exists|i: int| 0 <= i < es.len() && es[i].name == name
}

/// The inode id that the first entry named `name` gives, if any.
pub open spec fn lookup(es: Seq<DirEntryView>, name: Seq<u8>) -> Option<u32> {
    if exists|i: int| is_first_match(es, name, i) {
        Some(es[choose|i: int| is_first_match(es, name, i)].inode_id)
    } else {
        None
    }
}

/// Where `i` is the first entry named `name`, the lookup gives its inode id.
pub proof fn lemma_lookup_at(es: Seq<DirEntryView>, name: Seq<u8>, i: int)
    requires
        is_first_match(es, name, i),
    ensures
        lookup(es, name) == Some(es[i].inode_id),
{
    let k = choose|k: int| is_first_match(es, name, k);
    assert(k == i);
}

/// `i` is where the first zero byte of `name` stands.
pub open spec fn is_first_zero(name: Seq<u8>, i: int) -> bool {
    &&& 0 <= i < name.len()
    &&& name[i] == 0
    &&& forall|j: int| 0 <= j < i ==> name[j] != 0
}

/// The name an entry keeps of `name`: the bytes before its first zero byte, or all of
/// them where it has none.
pub open spec fn trimmed(name: Seq<u8>) -> Seq<u8> {
    if exists|i: int| is_first_zero(name, i) {
        name.take(choose|i: int| is_first_zero(name, i))
    } else {
        name
    }
}

/// `name` holds no zero byte.
pub open spec fn zero_free(name: Seq<u8>) -> bool {
    forall|i: int| 0 <= i < name.len() ==> name[i] != 0
}

/// A name without a zero byte is kept whole.
pub proof fn lemma_trimmed_zero_free(name: Seq<u8>)
    requires
        zero_free(name),
    ensures
        trimmed(name) == name,
{
}

/// The entries of `es` that do not carry `name`, in order.
pub open spec fn without_name(es: Seq<DirEntryView>, name: Seq<u8>) -> Seq<DirEntryView> {
    es.filter(|e: DirEntryView| e.name != name)
}

/// An inode just taken from the inode bitmap, before it is initialized.
pub open spec fn zeroed_inode() -> DiskInodeView {
    DiskInodeView {
        kind: DiskInodeType::File,
        nlink: 0,
        inode_id: 0,
        link_target: 0,
        data: Seq::empty(),
        entries: Seq::empty(),
    }
}

/// A freshly initialized inode: empty, with one link.
pub open spec fn initialized_inode(kind: DiskInodeType, id: u32, target: u32) -> DiskInodeView {
    DiskInodeView {
        kind,
        nlink: 1,
        inode_id: id,
        link_target: target,
        data: Seq::empty(),
        entries: Seq::empty(),
    }
}

/// The link count that `id` reports: a hard link's target's, else its own.
pub open spec fn link_count(fs: Seq<DiskInodeView>, id: int) -> u32 {
    fs[data_inode(fs, id)].nlink
}

/// The mode number of an inode type: 0 for a directory, 1 for a file, 2 for a hard link.
pub open spec fn mode_of(kind: DiskInodeType) -> isize {
    match kind {
        DiskInodeType::Directory => 0,
        DiskInodeType::File => 1,
        DiskInodeType::HardLink => 2,
    }
}

/// The inode number that `id` reports: a hard link's target's, else its own.
pub open spec fn reported_id(fs: Seq<DiskInodeView>, id: int) -> u32 {
    if fs[id].kind == DiskInodeType::HardLink {
        fs[id].link_target
    } else {
        fs[id].inode_id
    }
}

/// The inode that `id` stands for: a hard link's target, else itself.
pub open spec fn data_inode(fs: Seq<DiskInodeView>, id: int) -> int {
    if fs[id].kind == DiskInodeType::HardLink {
        fs[id].link_target as int
    } else {
        id
    }
}

/// Blocks that growing `d`'s data to `new_size` bytes takes from the bitmap (none when it
/// is already that large).
pub open spec fn write_growth(d: DiskInodeView, new_size: int) -> int {
    if new_size < d.data.len() {
        0
    } else {
        total_blocks(new_size) - total_blocks(d.data.len() as int)
    }
}

/// Blocks that one more entry in a directory of `n` entries takes from the bitmap.
pub open spec fn entry_growth(n: int) -> int {
    total_blocks((n + 1) * 32) - total_blocks(n * 32)
}

/// Inode `id` exists, and so does the target of a hard link.
pub open spec fn link_resolves(fs: Seq<DiskInodeView>, id: int) -> bool {
    &&& 0 <= id < fs.len()
    &&& fs[id].kind == DiskInodeType::HardLink ==> fs[id].link_target < fs.len()
}

/// `d` with its data and entries cleared.
pub open spec fn cleared(d: DiskInodeView) -> DiskInodeView {
    DiskInodeView { data: Seq::empty(), entries: Seq::empty(), ..d }
}

/// The file system is well formed: inode 0 is the root directory, every entry names an
/// inode that exists and is no directory, and every hard link names an inode that exists.
pub open spec fn fs_wf(fs: Seq<DiskInodeView>) -> bool {
    &&& fs.len() >= 1
    &&& fs[0].kind == DiskInodeType::Directory
    &&& forall|i: int, j: int|
        #![trigger fs[i].entries[j]]
        0 <= i < fs.len() && 0 <= j < fs[i].entries.len() ==> {
            &&& fs[i].entries[j].inode_id < fs.len()
            &&& fs[fs[i].entries[j].inode_id as int].kind != DiskInodeType::Directory
        }
    &&& forall|i: int|
        #![trigger fs[i].kind]
        0 <= i < fs.len() && fs[i].kind == DiskInodeType::HardLink ==> fs[i].link_target < fs.len()
}

/// What a read of `len` bytes at `offset` yields from `data`.
pub open spec fn read_range(data: Seq<u8>, offset: int, len: int) -> Seq<u8> {
    if offset >= data.len() {
        Seq::empty()
    } else if offset + len <= data.len() {
        data.subrange(offset, offset + len)
    } else {
        data.subrange(offset, data.len() as int)
    }
}

/// `data` grown with zero bytes to at least `size` bytes.
pub open spec fn grown(data: Seq<u8>, size: int) -> Seq<u8> {
    if size <= data.len() {
        data
    } else {
        data + Seq::new((size - data.len()) as nat, |i: int| 0u8)
    }
}

/// `data` with `buf` written at `offset`, grown first so that it fits.
pub open spec fn written(data: Seq<u8>, offset: int, buf: Seq<u8>) -> Seq<u8> {
    let g = grown(data, offset + buf.len());
    g.subrange(0, offset) + buf + g.subrange(offset + buf.len(), g.len() as int)
}

/// The inode a new link or file starts as.
pub open spec fn new_link_inode(
    fs: Seq<DiskInodeView>,
    dir: int,
    kind: DiskInodeType,
    target: Option<Seq<u8>>,
) -> DiskInodeView {
    let new_id = fs.len() as u32;
    if kind == DiskInodeType::HardLink {
        initialized_inode(DiskInodeType::HardLink, new_id, lookup(fs[dir].entries, target->0)->0)
    } else {
        initialized_inode(DiskInodeType::File, new_id, 0)
    }
}

/// The file system after a successful link of `name` in directory `dir`: a new inode
/// at the end, and an entry for it at the end of the directory, which keeps the part of
/// `name` before any zero byte.
pub open spec fn linked(
    fs: Seq<DiskInodeView>,
    dir: int,
    name: Seq<u8>,
    kind: DiskInodeType,
    target: Option<Seq<u8>>,
) -> Seq<DiskInodeView> {
    let new_id = fs.len() as u32;
    let s1 = fs.push(new_link_inode(fs, dir, kind, target));
    s1.update(
        dir,
        DiskInodeView {
            entries: s1[dir].entries.push(DirEntryView { name: trimmed(name), inode_id: new_id }),
            ..s1[dir]
        },
    )
}

/// The file system after removing `name`, which names inode `id`, from directory `dir`:
/// the inode that holds the data of `id` loses a link, and every entry named `name` goes.
pub open spec fn unlinked(fs: Seq<DiskInodeView>, dir: int, name: Seq<u8>, id: int) -> Seq<
    DiskInodeView,
> {
    let t = data_inode(fs, id);
    let s1 = fs.update(t, DiskInodeView { nlink: (fs[t].nlink - 1) as u32, ..fs[t] });
    s1.update(dir, DiskInodeView { entries: without_name(s1[dir].entries, name), ..s1[dir] })
}

/// What removing `name` from directory `dir` asks of `fs`: the inode it names exists,
/// and so does the one that holds its data, which has a link to lose.
pub open spec fn can_unlink(fs: Seq<DiskInodeView>, dir: int, name: Seq<u8>) -> bool {
    match lookup(fs[dir].entries, name) {
        Some(id) => {
            &&& id < fs.len()
            &&& data_inode(fs, id as int) < fs.len()
            &&& fs[data_inode(fs, id as int)].nlink > 0
        },
        None => true,
    }
}

/// The entries of `a` are among those of `b`.
pub open spec fn entries_within(a: Seq<DirEntryView>, b: Seq<DirEntryView>) -> bool {
    forall|j: int| 0 <= j < a.len() ==> b.contains(#[trigger] a[j])
}

/// Replacing an inode by one of the same type and link target, whose entries are among
/// the old ones, keeps the file system well formed.
pub proof fn lemma_update_keeps_wf(fs: Seq<DiskInodeView>, i: int, d: DiskInodeView)
    requires
        fs_wf(fs),
        0 <= i < fs.len(),
        d.kind == fs[i].kind,
        d.link_target == fs[i].link_target,
        d.entries == fs[i].entries || entries_within(d.entries, fs[i].entries),
    ensures
        fs_wf(fs.update(i, d)),
{
    let s = fs.update(i, d);
    assert forall|a: int, j: int|
        #![trigger s[a].entries[j]]
        0 <= a < s.len() && 0 <= j < s[a].entries.len() implies {
            &&& s[a].entries[j].inode_id < s.len()
            &&& s[s[a].entries[j].inode_id as int].kind != DiskInodeType::Directory
        } by {
        if a == i {
            if d.entries == fs[i].entries {
                assert(fs[i].entries[j] == s[a].entries[j]);
            } else {
                let k = choose|k: int| 0 <= k < fs[i].entries.len() && fs[i].entries[k] == d.entries[j];
                assert(fs[i].entries[k] == s[a].entries[j]);
            }
        } else {
            assert(s[a].entries[j] == fs[a].entries[j]);
        }
    }
    assert forall|a: int|
        #![trigger s[a].kind]
        0 <= a < s.len() && s[a].kind == DiskInodeType::HardLink implies s[a].link_target < s.len() by {
        assert(fs[a].kind == DiskInodeType::HardLink);
    }
}

/// The inode id that a successful lookup gives is one an entry carries.
pub proof fn lemma_lookup_entry(es: Seq<DirEntryView>, name: Seq<u8>)
    requires
        lookup(es, name) is Some,
    ensures
        exists|k: int| 0 <= k < es.len() && es[k].inode_id == lookup(es, name)->0,
{
    let k = choose|k: int| is_first_match(es, name, k);
    assert(es[k].inode_id == lookup(es, name)->0);
}

/// A successful link keeps the file system well formed.
pub proof fn lemma_linked_wf(
    fs: Seq<DiskInodeView>,
    dir: int,
    name: Seq<u8>,
    kind: DiskInodeType,
    target: Option<Seq<u8>>,
)
    requires
        fs_wf(fs),
        0 <= dir < fs.len(),
        fs.len() < u32::MAX,
        kind == DiskInodeType::HardLink ==> target is Some && lookup(fs[dir].entries, target->0) is Some,
    ensures
        fs_wf(linked(fs, dir, name, kind, target)),
{
    let n = new_link_inode(fs, dir, kind, target);
    let s1 = fs.push(n);
    let s = linked(fs, dir, name, kind, target);
    if kind == DiskInodeType::HardLink {
        lemma_lookup_entry(fs[dir].entries, target->0);
        let k = choose|k: int|
            0 <= k < fs[dir].entries.len() && fs[dir].entries[k].inode_id == lookup(fs[dir].entries, target->0)->0;
        assert(fs[dir].entries[k].inode_id < fs.len());
    }
    assert forall|a: int, j: int|
        #![trigger s[a].entries[j]]
        0 <= a < s.len() && 0 <= j < s[a].entries.len() implies {
            &&& s[a].entries[j].inode_id < s.len()
            &&& s[s[a].entries[j].inode_id as int].kind != DiskInodeType::Directory
        } by {
        if a == dir {
            if j < fs[dir].entries.len() {
                assert(s[a].entries[j] == fs[dir].entries[j]);
            } else {
                assert(s[a].entries[j].inode_id == fs.len());
                assert(s[fs.len() as int] == n);
            }
        } else if a < fs.len() {
            assert(s[a].entries[j] == fs[a].entries[j]);
        }
    }
    assert forall|a: int|
        #![trigger s[a].kind]
        0 <= a < s.len() && s[a].kind == DiskInodeType::HardLink implies s[a].link_target < s.len() by {
        if a < fs.len() {
            assert(fs[a].kind == DiskInodeType::HardLink);
        }
    }
}

/// Taking a fresh inode from the bitmap keeps the file system well formed.
pub proof fn lemma_alloc_wf(fs: Seq<DiskInodeView>)
    requires
        fs_wf(fs),
    ensures
        fs_wf(fs.push(zeroed_inode())),
{
    let s = fs.push(zeroed_inode());
    assert forall|a: int, j: int|
        #![trigger s[a].entries[j]]
        0 <= a < s.len() && 0 <= j < s[a].entries.len() implies {
            &&& s[a].entries[j].inode_id < s.len()
            &&& s[s[a].entries[j].inode_id as int].kind != DiskInodeType::Directory
        } by {
        assert(s[a].entries[j] == fs[a].entries[j]);
    }
    assert forall|a: int|
        #![trigger s[a].kind]
        0 <= a < s.len() && s[a].kind == DiskInodeType::HardLink implies s[a].link_target < s.len() by {
        assert(fs[a].kind == DiskInodeType::HardLink);
    }
}

/// Removing a name keeps the file system well formed.
pub proof fn lemma_unlinked_wf(fs: Seq<DiskInodeView>, dir: int, name: Seq<u8>, id: int)
    requires
        fs_wf(fs),
        0 <= dir < fs.len(),
        0 <= id < fs.len(),
        0 <= data_inode(fs, id) < fs.len(),
    ensures
        fs_wf(unlinked(fs, dir, name, id)),
{
    let t = data_inode(fs, id);
    let s1 = fs.update(t, DiskInodeView { nlink: (fs[t].nlink - 1) as u32, ..fs[t] });
    lemma_update_keeps_wf(fs, t, DiskInodeView { nlink: (fs[t].nlink - 1) as u32, ..fs[t] });
    let es = s1[dir].entries;
    let kept = without_name(es, name);
    assert forall|j: int| 0 <= j < kept.len() implies es.contains(#[trigger] kept[j]) by {
        assert(kept.contains(kept[j]));
        es.lemma_filter_contains_rev(|e: DirEntryView| e.name != name, kept[j]);
    }
    assert(entries_within(kept, es));
    lemma_update_keeps_wf(s1, dir, DiskInodeView { entries: kept, ..s1[dir] });
}

/// A link takes, beyond the blocks its directory had, those of one more entry; the new
/// inode is empty.
pub proof fn lemma_linked_blocks(
    fs: Seq<DiskInodeView>,
    dir: int,
    name: Seq<u8>,
    kind: DiskInodeType,
    target: Option<Seq<u8>>,
)
    requires
        0 <= dir < fs.len(),
        fs[dir].kind == DiskInodeType::Directory,
        (fs[dir].entries.len() + 1) * 32 <= u32::MAX,
        forall|i: int| 0 <= i < fs.len() ==> inode_size(#[trigger] fs[i]) <= u32::MAX,
    ensures
        blocks_of(linked(fs, dir, name, kind, target)) == blocks_of(fs) + entry_growth(fs[dir].entries.len() as int),
        forall|i: int| 0 <= i < fs.len() + 1 ==> inode_size(#[trigger] linked(fs, dir, name, kind, target)[i]) <= u32::MAX,
{
    let nl = new_link_inode(fs, dir, kind, target);
    let s1 = fs.push(nl);
    lemma_blocks_push(fs, nl);
    assert(inode_size(nl) == 0);
    assert(total_blocks(0) == 0);
    let n = fs[dir].entries.len();
    let d = DiskInodeView {
        entries: s1[dir].entries.push(DirEntryView { name: trimmed(name), inode_id: fs.len() as u32 }),
        ..s1[dir]
    };
    lemma_blocks_update(s1, dir, d);
    assert(inode_size(s1[dir]) == n * 32);
    assert(inode_size(d) == (n + 1) * 32);
    let l = linked(fs, dir, name, kind, target);
    assert forall|i: int| 0 <= i < fs.len() + 1 implies inode_size(#[trigger] l[i]) <= u32::MAX by {
        if i < fs.len() && i != dir {
            assert(l[i] == fs[i]);
        }
    }
}

/// Removing a name frees no block, and takes none: the inodes occupy no more blocks
/// than before, and their sizes still fit.
pub proof fn lemma_unlinked_blocks(fs: Seq<DiskInodeView>, dir: int, name: Seq<u8>, id: int)
    requires
        0 <= dir < fs.len(),
        0 <= data_inode(fs, id) < fs.len(),
        forall|i: int| 0 <= i < fs.len() ==> inode_size(#[trigger] fs[i]) <= u32::MAX,
    ensures
        blocks_of(unlinked(fs, dir, name, id)) <= blocks_of(fs),
        forall|i: int| 0 <= i < fs.len() ==> inode_size(#[trigger] unlinked(fs, dir, name, id)[i]) <= u32::MAX,
{
    let t = data_inode(fs, id);
    let d1 = DiskInodeView { nlink: (fs[t].nlink - 1) as u32, ..fs[t] };
    let s1 = fs.update(t, d1);
    lemma_blocks_update(fs, t, d1);
    let es = s1[dir].entries;
    let kept = without_name(es, name);
    let d2 = DiskInodeView { entries: kept, ..s1[dir] };
    lemma_blocks_update(s1, dir, d2);
    es.lemma_filter_len(|e: DirEntryView| e.name != name);
    lemma_total_blocks_monotone(inode_size(d2), inode_size(s1[dir]));
    let u = unlinked(fs, dir, name, id);
    assert forall|i: int| 0 <= i < fs.len() implies inode_size(#[trigger] u[i]) <= u32::MAX by {
        assert(inode_size(s1[i]) == inode_size(fs[i]));
    }
}

/// Byte-wise equality of two names.
pub fn names_equal(a: &[u8], b: &[u8]) -> (r: bool)
    ensures
        r == (a@ == b@),
{
    if a.len() != b.len() {
        return false;
    }
    let mut i: usize = 0;
    while i < a.len()
        invariant
            a@.len() == b@.len(),
            0 <= i <= a@.len(),
            forall|j: int| 0 <= j < i ==> a@[j] == b@[j],
        decreases a@.len() - i,
    {
        if a[i] != b[i] {
            return false;
        }
        i = i + 1;
    }
    assert(a@ =~= b@);
    true
}

/// The bytes of `name` before its first zero byte, all of them where it has none.
fn trimmed_name(name: &[u8]) -> (v: Vec<u8>)
    ensures
        v@ == trimmed(name@),
{
    let mut v: Vec<u8> = Vec::new();
    let mut i: usize = 0;
    while i < name.len()
        invariant
            0 <= i <= name@.len(),
            v@ == name@.take(i as int),
            forall|j: int| 0 <= j < i ==> name@[j] != 0,
        decreases name@.len() - i,
    {
        if name[i] == 0 {
            proof {
                assert(is_first_zero(name@, i as int));
                let k = choose|k: int| is_first_zero(name@, k);
                assert(k == i);
            }
            return v;
        }
        v.push(name[i]);
        i = i + 1;
        assert(v@ =~= name@.take(i as int));
    }
    assert(v@ =~= name@);
    v
}

/// Copies a byte slice into a new vector.
fn bytes_to_vec(s: &[u8]) -> (v: Vec<u8>)
    ensures
        v@ == s@,
{
    let mut v: Vec<u8> = Vec::new();
    let mut i: usize = 0;
    while i < s.len()
        invariant
            0 <= i <= s@.len(),
            v@ == s@.subrange(0, i as int),
        decreases s@.len() - i,
    {
        v.push(s[i]);
        i = i + 1;
        assert(v@ =~= s@.subrange(0, i as int));
    }
    assert(v@ =~= s@);
    v
}

impl DiskInode {
    /// An inode just taken from the inode bitmap.
    pub fn zeroed() -> (d: DiskInode)
        ensures
            d@ == zeroed_inode(),
    {
        let d = DiskInode {
            kind: DiskInodeType::File,
            nlink: 0,
            inode_id: 0,
            link_target: 0,
            data: Vec::new(),
            entries: Vec::new(),
        };
        assert(d@.entries =~= Seq::<DirEntryView>::empty());
        d
    }

    /// An empty directory with one link.
    pub fn empty_directory(id: u32) -> (d: DiskInode)
        ensures
            d@ == initialized_inode(DiskInodeType::Directory, id, 0),
    {
        let d = DiskInode {
            kind: DiskInodeType::Directory,
            nlink: 1,
            inode_id: id,
            link_target: 0,
            data: Vec::new(),
            entries: Vec::new(),
        };
        assert(d@.entries =~= Seq::<DirEntryView>::empty());
        d
    }

    /// Resets the inode to an empty one of the given type and id, with one link.
    pub fn initialize(&mut self, kind: DiskInodeType, id: u32)
        ensures
            final(self)@ == initialized_inode(kind, id, 0),
    {
        self.kind = kind;
        self.nlink = 1;
        self.inode_id = id;
        self.link_target = 0;
        self.data = Vec::new();
        self.entries = Vec::new();
        assert(self@.entries =~= Seq::<DirEntryView>::empty());
    }

    /// Whether this inode is a regular file.
    pub fn is_file(&self) -> (r: bool)
        ensures
            r == (self@.kind == DiskInodeType::File),
    {
        self.kind == DiskInodeType::File
    }

    /// Whether this inode is a directory.
    pub fn is_dir(&self) -> (r: bool)
        ensures
            r == (self@.kind == DiskInodeType::Directory),
    {
        self.kind == DiskInodeType::Directory
    }

    /// Grows the data to `new_size` bytes with zeros; a smaller size leaves it unchanged.
    pub fn increase_size(&mut self, new_size: usize)
        ensures
            final(self)@ == (DiskInodeView { data: grown(old(self)@.data, new_size as int), ..old(self)@ }),
    {
        let ghost old_data = self.data@;
        while self.data.len() < new_size
            invariant
                old_data.len() <= self.data@.len(),
                self.data@.len() <= new_size || self.data@.len() == old_data.len(),
                self.data@.subrange(0, old_data.len() as int) == old_data,
                forall|i: int| old_data.len() <= i < self.data@.len() ==> self.data@[i] == 0u8,
                self.kind == old(self).kind,
                self.nlink == old(self).nlink,
                self.inode_id == old(self).inode_id,
                self.link_target == old(self).link_target,
                self.entries@ == old(self).entries@,
            decreases new_size - self.data@.len(),
        {
            self.data.push(0u8);
        }
        assert(self.data@ =~= grown(old_data, new_size as int));
    }

    /// Reads at most `buf.len()` bytes at `offset` into the front of `buf`; returns how many.
    pub fn read_at(&self, offset: usize, buf: &mut Vec<u8>) -> (n: usize)
        ensures
            n == read_range(self@.data, offset as int, old(buf)@.len() as int).len(),
            final(buf)@.len() == old(buf)@.len(),
            final(buf)@.subrange(0, n as int) == read_range(self@.data, offset as int, old(buf)@.len() as int),
            final(buf)@.subrange(n as int, final(buf)@.len() as int) == old(buf)@.subrange(n as int, old(buf)@.len() as int),
    {
        let ghost want = read_range(self@.data, offset as int, buf@.len() as int);
        let size = self.data.len();
        if offset >= size {
            return 0;
        }
        let n: usize = if buf.len() <= size - offset { buf.len() } else { size - offset };
        assert(want =~= self@.data.subrange(offset as int, offset + n));
        let mut i: usize = 0;
        while i < n
            invariant
                n <= buf@.len(),
                offset + n <= size,
                size == self@.data.len(),
                0 <= i <= n,
                buf@.len() == old(buf)@.len(),
                forall|j: int| 0 <= j < i ==> buf@[j] == self@.data[offset + j],
                forall|j: int| n <= j < buf@.len() ==> buf@[j] == old(buf)@[j],
            decreases n - i,
        {
            buf.set(i, self.data[offset + i]);
            i = i + 1;
        }
        assert(buf@.subrange(0, n as int) =~= want);
        assert(buf@.subrange(n as int, buf@.len() as int) =~= old(buf)@.subrange(n as int, old(buf)@.len() as int));
        n
    }

    /// Writes `buf` at `offset` into data that already holds `offset + buf.len()` bytes.
    pub fn write_at(&mut self, offset: usize, buf: &[u8]) -> (n: usize)
        requires
            offset + buf@.len() <= old(self)@.data.len(),
        ensures
            n == buf@.len(),
            final(self)@ == (DiskInodeView { data: written(old(self)@.data, offset as int, buf@), ..old(self)@ }),
    {
        let ghost old_data = self.data@;
        let size = self.data.len();
        let mut i: usize = 0;
        while i < buf.len()
            invariant
                offset + buf@.len() <= size,
                size == old_data.len(),
                0 <= i <= buf@.len(),
                self.data@.len() == old_data.len(),
                forall|j: int| 0 <= j < offset ==> self.data@[j] == old_data[j],
                forall|j: int| offset <= j < offset + i ==> self.data@[j] == buf@[j - offset],
                forall|j: int| offset + i <= j < old_data.len() ==> self.data@[j] == old_data[j],
                self.kind == old(self).kind,
                self.nlink == old(self).nlink,
                self.inode_id == old(self).inode_id,
                self.link_target == old(self).link_target,
                self.entries@ == old(self).entries@,
            decreases buf@.len() - i,
        {
            self.data.set(offset + i, buf[i]);
            i = i + 1;
        }
        assert(grown(old_data, offset + buf@.len()) == old_data);
        assert(self.data@ =~= written(old_data, offset as int, buf@));
        buf.len()
    }
}

impl EasyFileSystem {
    /// The bitmap has handed out at least the blocks the inodes occupy, and no more than
    /// it holds; every inode's size fits its 32-bit size field.
    pub open spec fn blocks_wf(&self) -> bool {
        &&& blocks_of(self@) <= self.used_data_blocks
        &&& self.used_data_blocks <= self.data_block_capacity
        &&& forall|i: int| 0 <= i < self@.len() ==> inode_size(#[trigger] self@[i]) <= u32::MAX
    }

    /// `a` and `b` have the same data-block bitmap.
    pub open spec fn same_bitmap(a: &EasyFileSystem, b: &EasyFileSystem) -> bool {
        a.used_data_blocks == b.used_data_blocks && a.data_block_capacity == b.data_block_capacity
    }

    /// A file system of `capacity` data blocks that holds only the root directory, inode 0.
    pub fn new(capacity: usize) -> (fs: EasyFileSystem)
        ensures
            fs@ == seq![initialized_inode(DiskInodeType::Directory, 0, 0)],
            fs.used_data_blocks == 0,
            fs.data_block_capacity == capacity,
            fs.blocks_wf(),
    {
        let mut inodes: Vec<DiskInode> = Vec::new();
        inodes.push(DiskInode::empty_directory(0));
        let fs = EasyFileSystem { inodes, used_data_blocks: 0, data_block_capacity: capacity };
        assert(fs@ =~= seq![initialized_inode(DiskInodeType::Directory, 0, 0)]);
        proof {
            assert(fs@.drop_last() =~= Seq::<DiskInodeView>::empty());
            reveal_with_fuel(blocks_of, 2);
            assert(total_blocks(0) == 0);
            assert(blocks_of(fs@) == 0);
        }
        fs
    }

    /// Whether the bitmap has room for the blocks that growing the data of inode `id` to
    /// `new_size` bytes takes.
    pub fn room_to_grow(&self, id: u32, new_size: usize) -> (r: bool)
        requires
            self.blocks_wf(),
            id < self@.len(),
            self@[id as int].kind != DiskInodeType::Directory,
            new_size <= u32::MAX,
        ensures
            r == (self.used_data_blocks + write_growth(self@[id as int], new_size as int)
                <= self.data_block_capacity),
    {
        let size = self.inodes[id as usize].data.len();
        if new_size < size {
            return true;
        }
        proof {
            assert(inode_size(self@[id as int]) <= u32::MAX);
            lemma_total_blocks_monotone(size as int, new_size as int);
        }
        let grow = total_blocks_of(new_size as u32) - total_blocks_of(size as u32);
        grow as usize <= self.data_block_capacity - self.used_data_blocks
    }

    /// Whether the bitmap has room for the blocks that one more entry in directory `dir`
    /// takes.
    pub fn room_for_entry(&self, dir: u32) -> (r: bool)
        requires
            self.blocks_wf(),
            dir < self@.len(),
            (self@[dir as int].entries.len() + 1) * DIRENT_SZ <= u32::MAX,
        ensures
            r == (self.used_data_blocks + entry_growth(self@[dir as int].entries.len() as int)
                <= self.data_block_capacity),
    {
        let n = self.inodes[dir as usize].entries.len();
        proof {
            lemma_total_blocks_monotone((n * 32) as int, ((n + 1) * 32) as int);
        }
        let grow = total_blocks_of(((n + 1) * 32) as u32) - total_blocks_of((n * 32) as u32);
        grow as usize <= self.data_block_capacity - self.used_data_blocks
    }

    /// The handle of the root directory.
    pub fn root_inode(&self) -> (inode: Inode)
        ensures
            inode.id() == 0,
    {
        Inode::new(0)
    }

    /// Takes the next inode from the inode bitmap and returns its id.
    pub fn alloc_inode(&mut self) -> (id: u32)
        requires
            old(self)@.len() < u32::MAX,
        ensures
            id == old(self)@.len(),
            final(self)@ == old(self)@.push(zeroed_inode()),
            EasyFileSystem::same_bitmap(final(self), old(self)),
            old(self).blocks_wf() ==> final(self).blocks_wf(),
    {
        let id = self.inodes.len() as u32;
        self.inodes.push(DiskInode::zeroed());
        assert(self@ =~= old(self)@.push(zeroed_inode()));
        proof {
            lemma_blocks_push(old(self)@, zeroed_inode());
        }
        id
    }
}

impl Inode {
    /// Creates a handle on inode `inode_id`.
    pub fn new(inode_id: u32) -> (inode: Inode)
        ensures
            inode.id() == inode_id,
    {
        Inode { inode_id, deleted: false }
    }

    /// The id of the inode this handle is on.
    pub closed spec fn id(&self) -> u32 {
        self.inode_id
    }

    /// The id of the inode this handle is on.
    pub fn inode_id(&self) -> (id: u32)
        ensures
            id == self.id(),
    {
        self.inode_id
    }

    /// The handle is on an inode of `fs`.
    pub open spec fn valid(&self, fs: Seq<DiskInodeView>) -> bool {
        self.id() < fs.len()
    }

    /// The handle is on a directory of `fs`.
    pub open spec fn is_directory_in(&self, fs: Seq<DiskInodeView>) -> bool {
        self.valid(fs) && fs[self.id() as int].kind == DiskInodeType::Directory
    }

    /// Get the number of hard links.
    pub fn get_nlink(&self, fs: &EasyFileSystem) -> (n: u32)
        requires
            link_resolves(fs@, self.id() as int),
        ensures
            n == link_count(fs@, self.id() as int),
    {
        let d = &fs.inodes[self.inode_id as usize];
        if d.kind == DiskInodeType::HardLink {
            fs.inodes[d.link_target as usize].nlink
        } else {
            d.nlink
        }
    }

    /// Set the number of hard links.
    pub fn set_nlink(&self, fs: &mut EasyFileSystem, nlink: u32)
        requires
            self.valid(old(fs)@),
        ensures
            EasyFileSystem::same_bitmap(final(fs), old(fs)),
            old(fs).blocks_wf() ==> final(fs).blocks_wf(),
            fs_wf(old(fs)@) ==> fs_wf(final(fs)@),
            final(fs)@ == old(fs)@.update(
                self.id() as int,
                DiskInodeView { nlink, ..old(fs)@[self.id() as int] },
            ),
    {
        let i = self.inode_id as usize;
        fs.inodes[i].nlink = nlink;
        assert(fs@ =~= old(fs)@.update(i as int, DiskInodeView { nlink, ..old(fs)@[i as int] }));
        proof {
            if fs_wf(old(fs)@) {
                lemma_update_keeps_wf(old(fs)@, i as int, DiskInodeView { nlink, ..old(fs)@[i as int] });
            }
            lemma_blocks_update(old(fs)@, i as int, DiskInodeView { nlink, ..old(fs)@[i as int] });
        }
    }

    /// Get the mode of the inode: 0 for a directory, 1 for a file, 2 for a hard link.
    pub fn get_mode(&self, fs: &EasyFileSystem) -> (mode: isize)
        requires
            self.valid(fs@),
        ensures
            mode == mode_of(fs@[self.id() as int].kind),
    {
        let d = &fs.inodes[self.inode_id as usize];
        if d.is_dir() {
            0
        } else if d.is_file() {
            1
        } else {
            2
        }
    }

    /// Get the inode id: a hard link's target's, else the inode's own.
    pub fn get_inode_id(&self, fs: &EasyFileSystem) -> (id: u32)
        requires
            link_resolves(fs@, self.id() as int),
        ensures
            id == reported_id(fs@, self.id() as int),
    {
        let d = &fs.inodes[self.inode_id as usize];
        if d.kind == DiskInodeType::HardLink {
            d.link_target
        } else {
            d.inode_id
        }
    }

    /// Find the inode id that the first entry named `name` of a directory gives.
    fn find_inode_id(&self, name: &[u8], disk_inode: &DiskInode) -> (r: Option<u32>)
        requires
            disk_inode@.kind == DiskInodeType::Directory,
        ensures
            r == lookup(disk_inode@.entries, name@),
    {
        let ghost es = disk_inode@.entries;
        let mut i: usize = 0;
        while i < disk_inode.entries.len()
            invariant
                es == disk_inode@.entries,
                0 <= i <= es.len(),
                forall|j: int| 0 <= j < i ==> es[j].name != name@,
            decreases es.len() - i,
        {
            if names_equal(disk_inode.entries[i].name.as_slice(), name) {
                proof {
                    assert(is_first_match(es, name@, i as int));
                    let k = choose|k: int| is_first_match(es, name@, k);
                    assert(k == i);
                }
                return Some(disk_inode.entries[i].inode_id);
            }
            i = i + 1;
        }
        None
    }

    /// Find the inode under this directory by name.
    pub fn find(&self, fs: &EasyFileSystem, name: &[u8]) -> (r: Option<Inode>)
        requires
            self.is_directory_in(fs@),
        ensures
            match lookup(fs@[self.id() as int].entries, name@) {
                Some(id) => r is Some && r->0.id() == id,
                None => r is None,
            },
    {
        match self.find_inode_id(name, &fs.inodes[self.inode_id as usize]) {
            Some(id) => Some(Inode::new(id)),
            None => None,
        }
    }

    /// Grows a disk inode to `new_size` bytes, taking the blocks that takes from the bitmap
    /// (`used` counts those handed out); a smaller size leaves both as they are.
    fn increase_size(&self, new_size: usize, disk_inode: &mut DiskInode, used: &mut usize, capacity: usize)
        requires
            new_size <= u32::MAX,
            *old(used) + write_growth(old(disk_inode)@, new_size as int) <= capacity,
        ensures
            final(disk_inode)@ == (DiskInodeView {
                data: grown(old(disk_inode)@.data, new_size as int),
                ..old(disk_inode)@
            }),
            *final(used) == *old(used) + write_growth(old(disk_inode)@, new_size as int),
    {
        if new_size < disk_inode.data.len() {
            return;
        }
        let size = disk_inode.data.len();
        proof {
            lemma_total_blocks_monotone(size as int, new_size as int);
        }
        let grow = total_blocks_of(new_size as u32) - total_blocks_of(size as u32);
        *used = *used + grow as usize;
        disk_inode.increase_size(new_size);
    }

    /// Create a file under this directory by name.
    pub fn create(&self, fs: &mut EasyFileSystem, name: &[u8]) -> (r: Option<Inode>)
        requires
            self.is_directory_in(old(fs)@),
            lookup(old(fs)@[self.id() as int].entries, name@) is None ==> {
                &&& old(fs)@.len() < u32::MAX
                &&& name@.len() <= NAME_LENGTH_LIMIT
                &&& (old(fs)@[self.id() as int].entries.len() + 1) * DIRENT_SZ <= u32::MAX
                &&& old(fs).used_data_blocks + entry_growth(old(fs)@[self.id() as int].entries.len() as int)
                    <= old(fs).data_block_capacity
            },
        ensures
            fs_wf(old(fs)@) ==> fs_wf(final(fs)@),
            old(fs).blocks_wf() ==> final(fs).blocks_wf(),
            final(fs).data_block_capacity == old(fs).data_block_capacity,
            lookup(old(fs)@[self.id() as int].entries, name@) is Some ==> {
                &&& r is None
                &&& final(fs)@ == old(fs)@
                &&& final(fs).used_data_blocks == old(fs).used_data_blocks
            },
            lookup(old(fs)@[self.id() as int].entries, name@) is None ==> {
                &&& r is Some
                &&& r->0.id() == old(fs)@.len()
                &&& final(fs)@ == linked(old(fs)@, self.id() as int, name@, DiskInodeType::File, None)
                &&& final(fs).used_data_blocks == old(fs).used_data_blocks
                    + entry_growth(old(fs)@[self.id() as int].entries.len() as int)
            },
    {
        self.linkat(fs, name, DiskInodeType::File, None)
    }

    /// Create an entry `name` under this directory for a new inode: a file, or, for a hard
    /// link, an inode that names the inode of the entry `target_file_name`. The entry keeps
    /// the bytes of `name` before any zero byte, as names on disk end at their first zero.
    pub fn linkat(
        &self,
        fs: &mut EasyFileSystem,
        name: &[u8],
        inode_type: DiskInodeType,
        target_file_name: Option<&[u8]>,
    ) -> (r: Option<Inode>)
        requires
            self.is_directory_in(old(fs)@),
            lookup(old(fs)@[self.id() as int].entries, name@) is None ==> old(fs)@.len() < u32::MAX,
            lookup(old(fs)@[self.id() as int].entries, name@) is None && inode_type == DiskInodeType::HardLink
                ==> target_file_name is Some,
            lookup(old(fs)@[self.id() as int].entries, name@) is None && (target_file_name is None
                || lookup(old(fs)@[self.id() as int].entries, target_file_name->0@) is Some) ==> {
                &&& name@.len() <= NAME_LENGTH_LIMIT
                &&& (old(fs)@[self.id() as int].entries.len() + 1) * DIRENT_SZ <= u32::MAX
                &&& old(fs).used_data_blocks + entry_growth(old(fs)@[self.id() as int].entries.len() as int)
                    <= old(fs).data_block_capacity
            },
        ensures
            fs_wf(old(fs)@) ==> fs_wf(final(fs)@),
            old(fs).blocks_wf() ==> final(fs).blocks_wf(),
            final(fs).data_block_capacity == old(fs).data_block_capacity,
            ({
                let dir = old(fs)@[self.id() as int];
                let target = match target_file_name {
                    Some(t) => Some(t@),
                    None => None,
                };
                if lookup(dir.entries, name@) is Some {
                    &&& r is None
                    &&& final(fs)@ == old(fs)@
                    &&& final(fs).used_data_blocks == old(fs).used_data_blocks
                } else if target is Some && lookup(dir.entries, target->0) is None {
                    &&& r is None
                    &&& final(fs)@ == old(fs)@.push(zeroed_inode())
                    &&& final(fs).used_data_blocks == old(fs).used_data_blocks
                } else {
                    &&& r is Some
                    &&& r->0.id() == old(fs)@.len()
                    &&& final(fs)@ == linked(old(fs)@, self.id() as int, name@, inode_type, target)
                    &&& final(fs).used_data_blocks == old(fs).used_data_blocks + entry_growth(dir.entries.len() as int)
                }
            }),
    {
        let dir_idx = self.inode_id as usize;
        let ghost target = match target_file_name {
            Some(t) => Some(t@),
            None => None,
        };
        if self.find_inode_id(name, &fs.inodes[dir_idx]).is_some() {
            return None;
        }
        let new_inode_id = fs.alloc_inode();
        assert(fs.inodes@.len() == fs@.len());
        assert(fs@[dir_idx as int] == old(fs)@[dir_idx as int]);
        let mut target_inode_id: Option<u32> = None;
        if let Some(target_name) = target_file_name {
            target_inode_id = self.find_inode_id(target_name, &fs.inodes[dir_idx]);
            assert(target_inode_id == lookup(old(fs)@[dir_idx as int].entries, target->0));
            if target_inode_id.is_none() {
                proof {
                    if fs_wf(old(fs)@) {
                        lemma_alloc_wf(old(fs)@);
                    }
                    if old(fs).blocks_wf() {
                        assert forall|i: int| 0 <= i < fs@.len() implies inode_size(#[trigger] fs@[i]) <= u32::MAX by {
                            if i < old(fs)@.len() {
                                assert(fs@[i] == old(fs)@[i]);
                            }
                        }
                    }
                }
                return None;
            }
        }
        let ni = new_inode_id as usize;
        let ghost after_alloc = fs.inodes@;
        if inode_type == DiskInodeType::HardLink {
            fs.inodes[ni].initialize(DiskInodeType::HardLink, new_inode_id);
            fs.inodes[ni].link_target = target_inode_id.unwrap();
        } else {
            fs.inodes[ni].initialize(DiskInodeType::File, new_inode_id);
        }
        let ghost mid = fs@;
        assert(fs.inodes@[ni as int]@.entries =~= Seq::<DirEntryView>::empty());
        proof {
            if inode_type == DiskInodeType::HardLink {
                assert(target_inode_id == lookup(old(fs)@[dir_idx as int].entries, target->0));
            }
            assert(mid[ni as int] == new_link_inode(old(fs)@, dir_idx as int, inode_type, target));
            assert(fs.inodes@.len() == after_alloc.len());
            assert forall|j: int| 0 <= j < ni implies fs.inodes@[j] == after_alloc[j] by {}
            assert forall|j: int| 0 <= j < ni implies mid[j] == old(fs)@[j] by {
                assert(after_alloc.map_values(|d: DiskInode| d@)[j] == old(fs)@.push(zeroed_inode())[j]);
            }
        }
        assert(mid =~= old(fs)@.push(new_link_inode(old(fs)@, dir_idx as int, inode_type, target)));
        let n = fs.inodes[dir_idx].entries.len();
        proof {
            lemma_total_blocks_monotone((n * 32) as int, ((n + 1) * 32) as int);
        }
        let grow = total_blocks_of(((n + 1) * 32) as u32) - total_blocks_of((n * 32) as u32);
        fs.used_data_blocks = fs.used_data_blocks + grow as usize;
        let entry = DirEntry { name: trimmed_name(name), inode_id: new_inode_id };
        fs.inodes[dir_idx].entries.push(entry);
        assert(fs@[dir_idx as int].entries =~= mid[dir_idx as int].entries.push(
            DirEntryView { name: trimmed(name@), inode_id: new_inode_id },
        ));
        assert(fs@ =~= linked(old(fs)@, dir_idx as int, name@, inode_type, target));
        proof {
            if fs_wf(old(fs)@) {
                lemma_linked_wf(old(fs)@, dir_idx as int, name@, inode_type, target);
            }
            if old(fs).blocks_wf() {
                lemma_linked_blocks(old(fs)@, dir_idx as int, name@, inode_type, target);
            }
        }
        Some(Inode::new(new_inode_id))
    }

    /// Delete the entries named `name` from this directory; the inode that holds the data
    /// of the one it named loses a link. Returns whether the name was there.
    pub fn delete(&self, fs: &mut EasyFileSystem, name: &[u8]) -> (r: bool)
        requires
            self.is_directory_in(old(fs)@),
            can_unlink(old(fs)@, self.id() as int, name@),
        ensures
            EasyFileSystem::same_bitmap(final(fs), old(fs)),
            old(fs).blocks_wf() ==> final(fs).blocks_wf(),
            fs_wf(old(fs)@) ==> fs_wf(final(fs)@),
            match lookup(old(fs)@[self.id() as int].entries, name@) {
                Some(id) => r && final(fs)@ == unlinked(old(fs)@, self.id() as int, name@, id as int),
                None => !r && final(fs)@ == old(fs)@,
            },
    {
        let dir_idx = self.inode_id as usize;
        let found = self.find_inode_id(name, &fs.inodes[dir_idx]);
        let to_delete = match found {
            Some(id) => id as usize,
            None => {
                return false;
            },
        };
        let t = if fs.inodes[to_delete].kind == DiskInodeType::HardLink {
            fs.inodes[to_delete].link_target as usize
        } else {
            to_delete
        };
        let nlink = fs.inodes[t].nlink;
        fs.inodes[t].nlink = nlink - 1;
        let ghost s1 = fs@;
        assert(s1 =~= old(fs)@.update(
            t as int,
            DiskInodeView { nlink: (old(fs)@[t as int].nlink - 1) as u32, ..old(fs)@[t as int] },
        ));
        let ghost es = s1[dir_idx as int].entries;
        let mut new_entries: Vec<DirEntry> = Vec::new();
        let mut i: usize = 0;
        while i < fs.inodes[dir_idx].entries.len()
            invariant
                dir_idx < fs@.len(),
                fs@ == s1,
                EasyFileSystem::same_bitmap(fs, old(fs)),
                es == s1[dir_idx as int].entries,
                0 <= i <= es.len(),
                new_entries@.map_values(|e: DirEntry| e@) == without_name(es.take(i as int), name@),
            decreases es.len() - i,
        {
            let ghost before = new_entries@.map_values(|e: DirEntry| e@);
            proof {
                reveal(Seq::filter);
                assert(es.take(i + 1).drop_last() =~= es.take(i as int));
                assert(es.take(i + 1).last() == es[i as int]);
            }
            let e = &fs.inodes[dir_idx].entries[i];
            if !names_equal(e.name.as_slice(), name) {
                let copy = DirEntry { name: bytes_to_vec(e.name.as_slice()), inode_id: e.inode_id };
                new_entries.push(copy);
                assert(new_entries@.map_values(|e: DirEntry| e@) =~= before.push(es[i as int]));
            }
            i = i + 1;
        }
        assert(es.take(es.len() as int) =~= es);
        fs.inodes[dir_idx].entries = new_entries;
        assert(fs@ =~= unlinked(old(fs)@, dir_idx as int, name@, to_delete as int));
        proof {
            if fs_wf(old(fs)@) {
                lemma_unlinked_wf(old(fs)@, dir_idx as int, name@, to_delete as int);
            }
            if old(fs).blocks_wf() {
                lemma_unlinked_blocks(old(fs)@, dir_idx as int, name@, to_delete as int);
            }
        }
        true
    }

    /// List the names of the entries of this directory, in order.
    pub fn ls(&self, fs: &EasyFileSystem) -> (v: Vec<Vec<u8>>)
        requires
            self.is_directory_in(fs@),
        ensures
            v@.len() == fs@[self.id() as int].entries.len(),
            forall|i: int| 0 <= i < v@.len() ==> v@[i]@ == fs@[self.id() as int].entries[i].name,
    {
        let d = &fs.inodes[self.inode_id as usize];
        let mut v: Vec<Vec<u8>> = Vec::new();
        let mut i: usize = 0;
        while i < d.entries.len()
            invariant
                d@ == fs@[self.id() as int],
                0 <= i <= d@.entries.len(),
                v@.len() == i,
                forall|j: int| 0 <= j < i ==> v@[j]@ == d@.entries[j].name,
            decreases d@.entries.len() - i,
        {
            v.push(bytes_to_vec(d.entries[i].name.as_slice()));
            i = i + 1;
        }
        v
    }

    /// Read data from this inode (a hard link's target, else the inode itself) at
    /// `offset` into the front of `buf`; returns how many bytes were read. A directory
    /// holds no readable data: `buf` stays as it is and the offset comes back.
    pub fn read_at(&self, fs: &EasyFileSystem, offset: usize, buf: &mut Vec<u8>) -> (n: usize)
        requires
            link_resolves(fs@, self.id() as int),
        ensures
            fs@[self.id() as int].kind == DiskInodeType::Directory ==> {
                &&& n == offset
                &&& final(buf)@ == old(buf)@
            },
            fs@[self.id() as int].kind != DiskInodeType::Directory ==> ({
                let t = data_inode(fs@, self.id() as int);
                let got = read_range(fs@[t].data, offset as int, old(buf)@.len() as int);
                &&& n == got.len()
                &&& final(buf)@ == got + old(buf)@.subrange(n as int, old(buf)@.len() as int)
            }),
    {
        let i = self.inode_id as usize;
        if fs.inodes[i].kind == DiskInodeType::Directory {
            return offset;
        }
        let t = if fs.inodes[i].kind == DiskInodeType::HardLink {
            fs.inodes[i].link_target as usize
        } else {
            i
        };
        let n = fs.inodes[t].read_at(offset, buf);
        assert(buf@ =~= buf@.subrange(0, n as int) + buf@.subrange(n as int, buf@.len() as int));
        n
    }

    /// Write `buf` at `offset` into the data of this inode (a hard link's target's, else
    /// its own), growing it first with zeros where it is too short. Returns `buf.len()`.
    pub fn write_at(&self, fs: &mut EasyFileSystem, offset: usize, buf: &[u8]) -> (n: usize)
        requires
            link_resolves(old(fs)@, self.id() as int),
            old(fs)@[data_inode(old(fs)@, self.id() as int)].kind != DiskInodeType::Directory,
            offset + buf@.len() <= u32::MAX,
            old(fs).used_data_blocks + write_growth(
                old(fs)@[data_inode(old(fs)@, self.id() as int)],
                offset + buf@.len(),
            ) <= old(fs).data_block_capacity,
        ensures
            fs_wf(old(fs)@) ==> fs_wf(final(fs)@),
            old(fs).blocks_wf() ==> final(fs).blocks_wf(),
            final(fs).data_block_capacity == old(fs).data_block_capacity,
            final(fs).used_data_blocks == old(fs).used_data_blocks + write_growth(
                old(fs)@[data_inode(old(fs)@, self.id() as int)],
                offset + buf@.len(),
            ),
            n == buf@.len(),
            ({
                let t = data_inode(old(fs)@, self.id() as int);
                final(fs)@ == old(fs)@.update(
                    t,
                    DiskInodeView { data: written(old(fs)@[t].data, offset as int, buf@), ..old(fs)@[t] },
                )
            }),
    {
        let i = self.inode_id as usize;
        let t = if fs.inodes[i].kind == DiskInodeType::HardLink {
            fs.inodes[i].link_target as usize
        } else {
            i
        };
        let new_size = offset + buf.len();
        let capacity = fs.data_block_capacity;
        self.increase_size(new_size, &mut fs.inodes[t], &mut fs.used_data_blocks, capacity);
        let n = fs.inodes[t].write_at(offset, buf);
        assert(fs@ =~= old(fs)@.update(
            t as int,
            DiskInodeView { data: written(old(fs)@[t as int].data, offset as int, buf@), ..old(fs)@[t as int] },
        ));
        proof {
            if fs_wf(old(fs)@) {
                lemma_update_keeps_wf(
                    old(fs)@,
                    t as int,
                    DiskInodeView { data: written(old(fs)@[t as int].data, offset as int, buf@), ..old(fs)@[t as int] },
                );
            }
            let d = DiskInodeView { data: written(old(fs)@[t as int].data, offset as int, buf@), ..old(fs)@[t as int] };
            lemma_blocks_update(old(fs)@, t as int, d);
            assert(d.data.len() == grown(old(fs)@[t as int].data, offset + buf@.len()).len());
            if old(fs).blocks_wf() {
                assert forall|i: int| 0 <= i < fs@.len() implies inode_size(#[trigger] fs@[i]) <= u32::MAX by {
                    if i != t {
                        assert(fs@[i] == old(fs)@[i]);
                    }
                }
            }
        }
        n
    }

    /// Clear the data of this inode (and the entries, for a directory).
    pub fn clear(&self, fs: &mut EasyFileSystem)
        requires
            self.valid(old(fs)@),
            old(fs).blocks_wf(),
        ensures
            fs_wf(old(fs)@) ==> fs_wf(final(fs)@),
            final(fs).blocks_wf(),
            final(fs).data_block_capacity == old(fs).data_block_capacity,
            final(fs).used_data_blocks == old(fs).used_data_blocks - total_blocks(
                inode_size(old(fs)@[self.id() as int]),
            ),
            final(fs)@ == old(fs)@.update(self.id() as int, cleared(old(fs)@[self.id() as int])),
    {
        let i = self.inode_id as usize;
        let size: usize = if fs.inodes[i].kind == DiskInodeType::Directory {
            fs.inodes[i].entries.len() * DIRENT_SZ
        } else {
            fs.inodes[i].data.len()
        };
        proof {
            assert(inode_size(old(fs)@[i as int]) <= u32::MAX);
            lemma_blocks_at_least(old(fs)@, i as int);
        }
        let freed = total_blocks_of(size as u32);
        fs.used_data_blocks = fs.used_data_blocks - freed as usize;
        fs.inodes[i].data = Vec::new();
        fs.inodes[i].entries = Vec::new();
        assert(fs.inodes@[i as int]@.entries =~= Seq::<DirEntryView>::empty());
        assert(fs@ =~= old(fs)@.update(
            i as int,
            DiskInodeView { data: Seq::empty(), entries: Seq::empty(), ..old(fs)@[i as int] },
        ));
        proof {
            if fs_wf(old(fs)@) {
                lemma_update_keeps_wf(old(fs)@, i as int, cleared(old(fs)@[i as int]));
            }
            lemma_blocks_update(old(fs)@, i as int, cleared(old(fs)@[i as int]));
            assert(total_blocks(0) == 0);
            assert forall|j: int| 0 <= j < fs@.len() implies inode_size(#[trigger] fs@[j]) <= u32::MAX by {
                if j != i {
                    assert(fs@[j] == old(fs)@[j]);
                }
            }
        }
    }
}

} // verus!
