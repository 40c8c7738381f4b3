//! Properties that relate several operations of the library.
use vstd::prelude::*;
use crate::file::{OpenFile, fds_valid, installed, lemma_fds_valid_in_larger, next_fd};
use crate::mm::{
    MappedPage, MAP_R, MAP_U, MAP_W, MAP_X, all_mapped, any_mapped, is_mapped, new_pages, unmapped,
    virt_addr, vpn_ceil, vpn_floor,
};
use crate::syscall::fs::hard_linked;
use crate::syscall::process::{
    child_pids_distinct, exited, heap_pages_after, is_first_reapable, map_permission, moved_brk,
    prot_valid,
};
use crate::file::{O_CREATE, O_RDWR, O_TRUNC, O_WRONLY, access_of};
use crate::task::ChildProcess;
use crate::table::{first_free, is_first_free, lemma_free_slot_has_first};
use crate::task::matrix_set;
use crate::blocks::{inode_size, total_blocks};
use crate::vfs::{
    DirEntryView, DiskInodeType, DiskInodeView, data_inode, grown, initialized_inode,
    is_first_match, link_count, linked, lookup, new_link_inode, read_range, reported_id,
    unlinked, without_name, write_growth, written, zeroed_inode, trimmed, zero_free,
    lemma_trimmed_zero_free,
};

verus! {

// ---------------------------------------------------------------------------------------
// Directories

/// Where no entry carries `name`, no first entry does either, and conversely.
pub proof fn lemma_lookup_none_iff_absent(es: Seq<DirEntryView>, name: Seq<u8>)
    ensures
        lookup(es, name) is None <==> forall|i: int| 0 <= i < es.len() ==> es[i].name != name,
{
    if exists|i: int| 0 <= i < es.len() && es[i].name == name {
        let i = choose|i: int| 0 <= i < es.len() && es[i].name == name;
        lemma_first_match_exists(es, name, i);
    }
}

proof fn lemma_first_match_exists(es: Seq<DirEntryView>, name: Seq<u8>, k: int)
    requires
        0 <= k < es.len(),
        es[k].name == name,
    ensures
        exists|i: int| is_first_match(es, name, i),
    decreases k,
{
    if exists|j: int| 0 <= j < k && es[j].name == name {
        let j = choose|j: int| 0 <= j < k && es[j].name == name;
        lemma_first_match_exists(es, name, j);
    } else {
        assert(is_first_match(es, name, k));
    }
}

/// Looking up a name in entries with one more at the end: the earlier entries decide
/// where they carry the name, else the new entry.
pub proof fn lemma_lookup_push(es: Seq<DirEntryView>, e: DirEntryView, name: Seq<u8>)
    ensures
        lookup(es.push(e), name) == (if lookup(es, name) is Some {
            lookup(es, name)
        } else if e.name == name {
            Some(e.inode_id)
        } else {
            None
        }),
{
    let s = es.push(e);
    lemma_lookup_none_iff_absent(es, name);
    lemma_lookup_none_iff_absent(s, name);
    if lookup(es, name) is Some {
        let i = choose|i: int| is_first_match(es, name, i);
        assert(is_first_match(s, name, i));
        crate::vfs::lemma_lookup_at(s, name, i);
    } else if e.name == name {
        assert(is_first_match(s, name, es.len() as int));
        crate::vfs::lemma_lookup_at(s, name, es.len() as int);
    } else {
        assert forall|i: int| 0 <= i < s.len() implies s[i].name != name by {
            if i < es.len() {
                assert(s[i] == es[i]);
            }
        }
    }
}

/// Linking a name leaves what every name but the one the new entry keeps finds as it was.
pub proof fn lemma_link_keeps_other_names(
    fs: Seq<DiskInodeView>,
    dir: int,
    name: Seq<u8>,
    kind: DiskInodeType,
    target: Option<Seq<u8>>,
    other: Seq<u8>,
)
    requires
        0 <= dir < fs.len(),
        other != trimmed(name),
    ensures
        lookup(linked(fs, dir, name, kind, target)[dir].entries, other) == lookup(fs[dir].entries, other),
{
    let e = DirEntryView { name: trimmed(name), inode_id: fs.len() as u32 };
    assert(linked(fs, dir, name, kind, target)[dir].entries == fs[dir].entries.push(e));
    lemma_lookup_push(fs[dir].entries, e, other);
}

/// Removing a name leaves what every other name finds as it was.
pub proof fn lemma_without_keeps_other_names(es: Seq<DirEntryView>, name: Seq<u8>, other: Seq<u8>)
    requires
        other != name,
    ensures
        lookup(without_name(es, name), other) == lookup(es, other),
    decreases es.len(),
{
    reveal(Seq::filter);
    if es.len() > 0 {
        let rest = es.drop_last();
        let last = es.last();
        lemma_without_keeps_other_names(rest, name, other);
        assert(rest.push(last) =~= es);
        lemma_lookup_push(rest, last, other);
        if last.name != name {
            lemma_lookup_push(without_name(rest, name), last, other);
        }
    } else {
        lemma_lookup_none_iff_absent(es, other);
        lemma_lookup_none_iff_absent(without_name(es, name), other);
    }
}

/// Removing a name from a directory leaves what every other name finds there as it was.
pub proof fn lemma_unlink_keeps_other_names(fs: Seq<DiskInodeView>, dir: int, name: Seq<u8>, id: int, other: Seq<u8>)
    requires
        0 <= dir < fs.len(),
        0 <= data_inode(fs, id) < fs.len(),
        other != name,
    ensures
        lookup(unlinked(fs, dir, name, id)[dir].entries, other) == lookup(fs[dir].entries, other),
{
    let t = data_inode(fs, id);
    let s1 = fs.update(t, DiskInodeView { nlink: (fs[t].nlink - 1) as u32, ..fs[t] });
    assert(s1[dir].entries == fs[dir].entries);
    lemma_without_keeps_other_names(fs[dir].entries, name, other);
}

/// Removing a name that no entry carries changes nothing.
pub proof fn lemma_without_absent_name(es: Seq<DirEntryView>, name: Seq<u8>)
    requires
        forall|i: int| 0 <= i < es.len() ==> es[i].name != name,
    ensures
        without_name(es, name) == es,
    decreases es.len(),
{
    reveal(Seq::filter);
    if es.len() > 0 {
        lemma_without_absent_name(es.drop_last(), name);
        assert(es.drop_last().push(es.last()) =~= es);
    }
}

/// A name without a zero byte, linked into a directory where it was missing, is then
/// found there, and names the new inode.
pub proof fn lemma_find_after_link(
    fs: Seq<DiskInodeView>,
    dir: int,
    name: Seq<u8>,
    kind: DiskInodeType,
    target: Option<Seq<u8>>,
)
    requires
        0 <= dir < fs.len(),
        fs.len() < u32::MAX,
        zero_free(name),
        lookup(fs[dir].entries, name) is None,
    ensures
        lookup(linked(fs, dir, name, kind, target)[dir].entries, name) == Some(fs.len() as u32),
{
    let es = fs[dir].entries;
    let after = linked(fs, dir, name, kind, target)[dir].entries;
    lemma_trimmed_zero_free(name);
    lemma_lookup_none_iff_absent(es, name);
    assert(after == es.push(DirEntryView { name, inode_id: fs.len() as u32 }));
    assert(is_first_match(after, name, es.len() as int));
    let k = choose|k: int| is_first_match(after, name, k);
    assert(k == es.len());
}

/// A name removed from a directory is no longer found there.
pub proof fn lemma_find_after_unlink(fs: Seq<DiskInodeView>, dir: int, name: Seq<u8>, id: int)
    requires
        0 <= dir < fs.len(),
        0 <= id < fs.len(),
        0 <= data_inode(fs, id) < fs.len(),
    ensures
        lookup(unlinked(fs, dir, name, id)[dir].entries, name) is None,
{
    let t = data_inode(fs, id);
    let s1 = fs.update(t, DiskInodeView { nlink: (fs[t].nlink - 1) as u32, ..fs[t] });
    let kept = without_name(s1[dir].entries, name);
    assert(unlinked(fs, dir, name, id)[dir].entries == kept);
    assert forall|i: int| 0 <= i < kept.len() implies kept[i].name != name by {
        s1[dir].entries.lemma_filter_pred(|e: DirEntryView| e.name != name, i);
    }
    lemma_lookup_none_iff_absent(kept, name);
}

/// Creating a file under a name without a zero byte and then removing that name leaves
/// the file system as it was, but for the new inode, which stays taken with no link left.
pub proof fn lemma_unlink_undoes_create(fs: Seq<DiskInodeView>, dir: int, name: Seq<u8>)
    requires
        0 <= dir < fs.len(),
        fs.len() < u32::MAX,
        zero_free(name),
        lookup(fs[dir].entries, name) is None,
    ensures
        unlinked(linked(fs, dir, name, DiskInodeType::File, None), dir, name, fs.len() as int)
            == fs.push(DiskInodeView { nlink: 0, ..initialized_inode(DiskInodeType::File, fs.len() as u32, 0) }),
{
    let s = linked(fs, dir, name, DiskInodeType::File, None);
    let n = fs.len() as int;
    lemma_trimmed_zero_free(name);
    assert(s[n] == new_link_inode(fs, dir, DiskInodeType::File, None));
    assert(data_inode(s, n) == n);
    let s1 = s.update(n, DiskInodeView { nlink: (s[n].nlink - 1) as u32, ..s[n] });
    lemma_lookup_none_iff_absent(fs[dir].entries, name);
    lemma_without_absent_name(fs[dir].entries, name);
    let e = DirEntryView { name, inode_id: fs.len() as u32 };
    reveal(Seq::filter);
    assert(fs[dir].entries.push(e).drop_last() =~= fs[dir].entries);
    assert(without_name(s1[dir].entries, name) == fs[dir].entries);
    assert(unlinked(s, dir, name, n) =~= fs.push(
        DiskInodeView { nlink: 0, ..initialized_inode(DiskInodeType::File, fs.len() as u32, 0) },
    ));
}

/// No two entries carry the same name.
pub open spec fn names_distinct(es: Seq<DirEntryView>) -> bool {
    forall|i: int, j: int| 0 <= i < j < es.len() ==> es[i].name != es[j].name
}

/// Linking a name whose kept part a directory lacks keeps its names distinct, and keeps
/// every old entry where it was.
pub proof fn lemma_link_keeps_names_distinct(
    fs: Seq<DiskInodeView>,
    dir: int,
    name: Seq<u8>,
    kind: DiskInodeType,
    target: Option<Seq<u8>>,
)
    requires
        0 <= dir < fs.len(),
        names_distinct(fs[dir].entries),
        lookup(fs[dir].entries, trimmed(name)) is None,
    ensures
        names_distinct(linked(fs, dir, name, kind, target)[dir].entries),
        linked(fs, dir, name, kind, target)[dir].entries.take(fs[dir].entries.len() as int) == fs[dir].entries,
{
    let es = fs[dir].entries;
    let after = linked(fs, dir, name, kind, target)[dir].entries;
    lemma_lookup_none_iff_absent(es, trimmed(name));
    assert(after == es.push(DirEntryView { name: trimmed(name), inode_id: fs.len() as u32 }));
    assert forall|i: int, j: int| 0 <= i < j < after.len() implies after[i].name != after[j].name by {
        if j < es.len() {
            assert(after[i] == es[i] && after[j] == es[j]);
        } else {
            assert(after[i] == es[i]);
        }
    }
    assert(after.take(es.len() as int) =~= es);
}

/// Hard-linking a new name without a zero byte to a file and then removing that name
/// leaves the file system as it was, but for the link's inode, which stays taken.
pub proof fn lemma_unlink_undoes_hard_link(fs: Seq<DiskInodeView>, new_name: Seq<u8>, old_name: Seq<u8>)
    requires
        fs.len() >= 1,
        fs.len() < u32::MAX,
        zero_free(new_name),
        lookup(fs[0].entries, new_name) is None,
        lookup(fs[0].entries, old_name) is Some,
        lookup(fs[0].entries, old_name)->0 < fs.len(),
        lookup(fs[0].entries, old_name)->0 != 0,
        fs[lookup(fs[0].entries, old_name)->0 as int].nlink < u32::MAX,
    ensures
        unlinked(hard_linked(fs, new_name, old_name), 0, new_name, fs.len() as int) == fs.push(
            new_link_inode(fs, 0, DiskInodeType::HardLink, Some(old_name)),
        ),
{
    let s = linked(fs, 0, new_name, DiskInodeType::HardLink, Some(old_name));
    let h = hard_linked(fs, new_name, old_name);
    let n = fs.len() as int;
    let t = lookup(fs[0].entries, old_name)->0 as int;
    lemma_trimmed_zero_free(new_name);
    assert(h[n] == new_link_inode(fs, 0, DiskInodeType::HardLink, Some(old_name)));
    assert(data_inode(h, n) == t);
    assert(h[t].nlink == fs[t].nlink + 1);
    let s1 = h.update(t, DiskInodeView { nlink: (h[t].nlink - 1) as u32, ..h[t] });
    lemma_lookup_none_iff_absent(fs[0].entries, new_name);
    lemma_without_absent_name(fs[0].entries, new_name);
    let e = DirEntryView { name: new_name, inode_id: fs.len() as u32 };
    reveal(Seq::filter);
    assert(fs[0].entries.push(e).drop_last() =~= fs[0].entries);
    assert(s1[0].entries == fs[0].entries.push(e));
    assert(without_name(s1[0].entries, new_name) == fs[0].entries);
    assert(unlinked(h, 0, new_name, n) =~= fs.push(new_link_inode(fs, 0, DiskInodeType::HardLink, Some(old_name))));
}

/// A hard link reports the inode number of the inode it names, counts that inode's links
/// where it is a file, and holds its data there.
pub proof fn lemma_hard_link_stands_for_target(fs: Seq<DiskInodeView>, new_name: Seq<u8>, old_name: Seq<u8>)
    requires
        fs.len() >= 1,
        fs.len() < u32::MAX,
        lookup(fs[0].entries, old_name) is Some,
        lookup(fs[0].entries, old_name)->0 < fs.len(),
    ensures
        ({
            let h = hard_linked(fs, new_name, old_name);
            let n = fs.len() as int;
            let t = lookup(fs[0].entries, old_name)->0;
            &&& reported_id(h, n) == t
            &&& data_inode(h, n) == t
            &&& link_count(h, n) == h[t as int].nlink
        }),
{
    let n = fs.len() as int;
    let h = hard_linked(fs, new_name, old_name);
    assert(h[n] == new_link_inode(fs, 0, DiskInodeType::HardLink, Some(old_name)));
}

/// Open descriptors stay valid across a hard link, whether it succeeds or fails after
/// taking an inode.
pub proof fn lemma_link_keeps_fds(
    table: Seq<Option<OpenFile>>,
    fs: Seq<DiskInodeView>,
    new_name: Seq<u8>,
    old_name: Seq<u8>,
)
    requires
        fds_valid(table, fs),
        fs.len() >= 1,
        lookup(fs[0].entries, old_name) is Some,
        lookup(fs[0].entries, old_name)->0 < fs.len(),
    ensures
        fds_valid(table, hard_linked(fs, new_name, old_name)),
        fds_valid(table, fs.push(zeroed_inode())),
{
    let h = hard_linked(fs, new_name, old_name);
    assert forall|i: int| 0 <= i < fs.len() implies #[trigger] h[i].kind == fs[i].kind by {}
    lemma_fds_valid_in_larger(table, fs, h);
    let z = fs.push(zeroed_inode());
    assert forall|i: int| 0 <= i < fs.len() implies #[trigger] z[i].kind == fs[i].kind by {}
    lemma_fds_valid_in_larger(table, fs, z);
}

/// Open descriptors stay valid when a name is removed.
pub proof fn lemma_unlink_keeps_fds(
    table: Seq<Option<OpenFile>>,
    fs: Seq<DiskInodeView>,
    dir: int,
    name: Seq<u8>,
    id: int,
)
    requires
        fds_valid(table, fs),
        0 <= dir < fs.len(),
        0 <= data_inode(fs, id) < fs.len(),
        0 <= id < fs.len(),
    ensures
        fds_valid(table, unlinked(fs, dir, name, id)),
{
    let u = unlinked(fs, dir, name, id);
    assert forall|i: int| 0 <= i < fs.len() implies #[trigger] u[i].kind == fs[i].kind by {}
    lemma_fds_valid_in_larger(table, fs, u);
}

/// Setting a file's link count and reading it back gives what was set.
pub proof fn lemma_get_after_set_nlink(fs: Seq<DiskInodeView>, id: int, nlink: u32)
    requires
        0 <= id < fs.len(),
        fs[id].kind == DiskInodeType::File,
    ensures
        link_count(fs.update(id, DiskInodeView { nlink, ..fs[id] }), id) == nlink,
{
}

// ---------------------------------------------------------------------------------------
// File data

/// Reading back what was just written at an offset gives exactly those bytes.
pub proof fn lemma_read_after_write(data: Seq<u8>, offset: int, buf: Seq<u8>)
    requires
        0 <= offset,
    ensures
        read_range(written(data, offset, buf), offset, buf.len() as int) == buf,
{
    let g = grown(data, offset + buf.len());
    let w = written(data, offset, buf);
    assert(g.len() >= offset + buf.len());
    assert(w.len() == g.len());
    if buf.len() == 0 {
        if offset >= w.len() {
        } else {
            assert(w.subrange(offset, offset) =~= buf);
        }
    } else {
        assert(w.subrange(offset, offset + buf.len()) =~= buf);
    }
}

/// Writing leaves every byte outside the written range as it was (bytes past the old
/// end read as zero).
pub proof fn lemma_write_keeps_other_bytes(data: Seq<u8>, offset: int, buf: Seq<u8>, i: int)
    requires
        0 <= offset,
        0 <= i < written(data, offset, buf).len(),
        !(offset <= i < offset + buf.len()),
    ensures
        written(data, offset, buf)[i] == (if i < data.len() { data[i] } else { 0u8 }),
{
    let g = grown(data, offset + buf.len());
    if i < offset {
        assert(written(data, offset, buf)[i] == g[i]);
    } else {
        assert(written(data, offset, buf)[i] == g[i]);
    }
}

/// Writing `n` bytes into an empty file and then clearing it hands back exactly the
/// blocks the write took.
pub proof fn lemma_clear_gives_back_write_blocks(d: DiskInodeView, n: int)
    requires
        d.kind != DiskInodeType::Directory,
        d.data.len() == 0,
        0 <= n,
    ensures
        write_growth(d, n) == total_blocks(inode_size(DiskInodeView { data: grown(d.data, n), ..d })),
{
    assert(total_blocks(0) == 0);
    assert(grown(d.data, n).len() == n);
}

// ---------------------------------------------------------------------------------------
// Address spaces

/// After pages are mapped, every page of the range is mapped.
pub proof fn lemma_mapped_after_map(ps: Seq<MappedPage>, lo: int, hi: int, perm: u8)
    requires
        0 <= lo,
        hi <= usize::MAX + 1,
    ensures
        all_mapped(ps + new_pages(lo, hi, perm), lo, hi),
{
    let all = ps + new_pages(lo, hi, perm);
    assert forall|v: int| lo <= v < hi implies is_mapped(all, v) by {
        assert(all[ps.len() + (v - lo)].vpn == v);
    }
}

/// Unmapping a range removes every page of it.
pub proof fn lemma_unmapped_after_unmap(ps: Seq<MappedPage>, lo: int, hi: int)
    ensures
        !any_mapped(unmapped(ps, lo, hi), lo, hi),
{
    let u = unmapped(ps, lo, hi);
    assert forall|v: int| lo <= v < hi implies !is_mapped(u, v) by {
        assert forall|i: int| 0 <= i < u.len() implies u[i].vpn != v by {
            ps.lemma_filter_pred(|p: MappedPage| !(lo <= p.vpn < hi), i);
        }
    }
}

/// Unmapping a range that was just mapped, where none of it was mapped before, gives back
/// the address space as it was.
pub proof fn lemma_unmap_undoes_map(ps: Seq<MappedPage>, lo: int, hi: int, perm: u8)
    requires
        0 <= lo,
        hi <= usize::MAX + 1,
        !any_mapped(ps, lo, hi),
    ensures
        unmapped(ps + new_pages(lo, hi, perm), lo, hi) == ps,
{
    let pred = |p: MappedPage| !(lo <= p.vpn < hi);
    let added = new_pages(lo, hi, perm);
    Seq::filter_distributes_over_add(ps, added, pred);
    lemma_filter_keeps_all(ps, pred);
    assert forall|i: int| 0 <= i < ps.len() implies pred(ps[i]) by {
        if lo <= ps[i].vpn < hi {
            assert(is_mapped(ps, ps[i].vpn as int));
        }
    }
    lemma_filter_drops_all(added, pred);
    assert forall|i: int| 0 <= i < added.len() implies !pred(added[i]) by {
        assert(added[i].vpn == lo + i);
    }
    assert(ps + Seq::<MappedPage>::empty() =~= ps);
}

proof fn lemma_filter_keeps_all(s: Seq<MappedPage>, pred: spec_fn(MappedPage) -> bool)
    ensures
        (forall|i: int| 0 <= i < s.len() ==> pred(s[i])) ==> s.filter(pred) == s,
    decreases s.len(),
{
    reveal(Seq::filter);
    if s.len() > 0 {
        lemma_filter_keeps_all(s.drop_last(), pred);
        if forall|i: int| 0 <= i < s.len() ==> pred(s[i]) {
            assert forall|i: int| 0 <= i < s.drop_last().len() implies pred(s.drop_last()[i]) by {
                assert(pred(s[i]));
            }
            assert(s.drop_last().push(s.last()) =~= s);
        }
    }
}

proof fn lemma_filter_drops_all(s: Seq<MappedPage>, pred: spec_fn(MappedPage) -> bool)
    ensures
        (forall|i: int| 0 <= i < s.len() ==> !pred(s[i])) ==> s.filter(pred) == Seq::<MappedPage>::empty(),
    decreases s.len(),
{
    reveal(Seq::filter);
    if s.len() > 0 {
        lemma_filter_drops_all(s.drop_last(), pred);
        if forall|i: int| 0 <= i < s.len() ==> !pred(s[i]) {
            assert forall|i: int| 0 <= i < s.drop_last().len() implies !pred(s.drop_last()[i]) by {
                assert(!pred(s[i]));
            }
        }
    }
}

/// The permission that a valid `prot` maps pages with: always user access; read exactly
/// when `prot` asks for it (bit 0), write exactly when it asks for it (bit 1), execute
/// exactly when it asks for it (bit 2); and no other bit.
pub proof fn lemma_map_permission_bits(prot: usize)
    requires
        prot_valid(prot),
    ensures
        map_permission(prot) & MAP_U != 0,
        (map_permission(prot) & MAP_R != 0) == (prot & 1 != 0),
        (map_permission(prot) & MAP_W != 0) == (prot & 2 != 0),
        (map_permission(prot) & MAP_X != 0) == (prot & 4 != 0),
        map_permission(prot) & !(MAP_U | MAP_R | MAP_W | MAP_X) == 0,
{
    let p = map_permission(prot);
    assert({
        &&& p & 16 != 0
        &&& (p & 2 != 0) == (prot & 1 != 0)
        &&& (p & 4 != 0) == (prot & 2 != 0)
        &&& (p & 8 != 0) == (prot & 4 != 0)
        &&& p & !30u8 == 0
    }) by (bit_vector)
        requires
            1 <= prot <= 7,
            p == (16 + 2 * prot) as u8,
    ;
    assert(MAP_U | MAP_R | MAP_W | MAP_X == 30u8) by (bit_vector);
}

/// A range with a page that is not mapped is not wholly mapped, so unmapping it is
/// refused; and a wholly mapped range has every one of its pages mapped.
pub proof fn lemma_unmap_needs_every_page(pages: Seq<MappedPage>, lo: int, hi: int, v: int)
    requires
        lo <= v < hi,
    ensures
        !is_mapped(pages, v) ==> !all_mapped(pages, lo, hi),
        all_mapped(pages, lo, hi) ==> is_mapped(pages, v),
{
}

/// Moving the program break, up or down, keeps mapped every page that holds an address
/// below the new break.
pub proof fn lemma_sbrk_keeps_pages_below_break(
    pages: Seq<MappedPage>,
    old_brk: usize,
    new_brk: usize,
    a: int,
)
    requires
        0 <= a < virt_addr(new_brk as int),
        is_mapped(pages, vpn_floor(a)),
    ensures
        is_mapped(heap_pages_after(pages, old_brk, new_brk), vpn_floor(a)),
{
    let v = vpn_floor(a);
    let va = virt_addr(new_brk as int);
    let old_end = vpn_ceil(virt_addr(old_brk as int));
    let new_end = vpn_ceil(va);
    assert(v < new_end) by {
        assert(a <= va - 1);
        assert(a / 4096 <= (va - 1) / 4096) by (nonlinear_arith)
            requires
                0 <= a <= va - 1,
        ;
        assert((va - 1 + 4096) / 4096 == (va - 1) / 4096 + 1) by (nonlinear_arith)
            requires
                va >= 1,
        ;
    }
    let i = choose|i: int| 0 <= i < pages.len() && pages[i].vpn == v;
    let after = heap_pages_after(pages, old_brk, new_brk);
    if old_brk <= new_brk {
        assert(after[i] == pages[i]);
    } else {
        let pred = |p: MappedPage| !(new_end <= p.vpn < old_end);
        pages.lemma_filter_contains(pred, i);
        assert(after == pages.filter(pred));
        let j = choose|j: int| 0 <= j < after.len() && after[j] == pages[i];
        assert(after[j].vpn == v);
    }
}

/// Recording that the child `pid` exited marks it exited with `exit_code` and leaves
/// every child with another pid, and the number of children, as they were.
pub proof fn lemma_exit_marks_only_that_child(children: Seq<ChildProcess>, pid: usize, exit_code: i32)
    ensures
        exited(children, pid, exit_code).len() == children.len(),
        forall|k: int|
            0 <= k < children.len() && children[k].pid != pid ==> #[trigger] exited(children, pid, exit_code)[k]
                == children[k],
        forall|k: int|
            0 <= k < children.len() && children[k].pid == pid ==> {
                let c = #[trigger] exited(children, pid, exit_code)[k];
                &&& c.pid == pid
                &&& c.zombie
                &&& c.exit_code == exit_code
            },
{
}

/// How open flags decide access: none at all opens for reading only, `O_WRONLY` for
/// writing only, `O_RDWR` for both; any other flags open for writing, and for reading
/// unless `O_WRONLY` is among them; `O_CREATE` and `O_TRUNC` added to other flags change
/// nothing of the access.
pub proof fn lemma_open_access(flags: u32)
    ensures
        access_of(0) == (true, false),
        access_of(O_WRONLY) == (false, true),
        access_of(O_RDWR) == (true, true),
        flags != 0 ==> access_of(flags).1,
        flags != 0 ==> (access_of(flags).0 <==> flags & O_WRONLY == 0),
        flags != 0 ==> access_of(flags | O_CREATE) == access_of(flags),
        flags != 0 ==> access_of(flags | O_TRUNC) == access_of(flags),
{
    assert(1u32 & 1u32 != 0 && 2u32 & 1u32 == 0) by (bit_vector);
    assert(flags != 0 ==> (flags | 0x200u32) != 0 && ((flags | 0x200u32) & 1 != 0) == (flags & 1 != 0))
        by (bit_vector);
    assert(flags != 0 ==> (flags | 0x400u32) != 0 && ((flags | 0x400u32) & 1 != 0) == (flags & 1 != 0))
        by (bit_vector);
}

// ---------------------------------------------------------------------------------------
// Descriptors and slots

/// Closing the descriptor that an open just took makes the next open take it again.
pub proof fn lemma_close_then_open_reuses(table: Seq<Option<OpenFile>>, file: OpenFile)
    ensures
        next_fd(installed(table, file).update(next_fd(table), None)) == next_fd(table),
{
    let fd = next_fd(table);
    let t = installed(table, file).update(fd, None);
    match first_free(table) {
        Some(i) => {
            assert(is_first_free(table, i));
            assert(t =~= table);
        },
        None => {
            assert forall|j: int| 0 <= j < table.len() implies table[j] is Some by {
                if table[j] is None {
                    lemma_free_slot_has_first(table, j);
                }
            }
            assert(is_first_free(t, fd));
            let k = choose|k: int| is_first_free(t, k);
            assert(k == fd);
        },
    }
}

// ---------------------------------------------------------------------------------------
// Counters

/// Taking a unit from a counter that has one and giving it back restores it; so do a
/// lock and an unlock, or a down and an up, on the available counts.
pub proof fn lemma_take_then_give_back(a: Seq<usize>, i: int)
    requires
        0 <= i < a.len(),
        a[i] >= 1,
    ensures
        ({
            let taken = a.update(i, (a[i] - 1) as usize);
            taken.update(i, (taken[i] + 1) as usize) == a
        }),
{
    let taken = a.update(i, (a[i] - 1) as usize);
    assert(taken.update(i, (taken[i] + 1) as usize) =~= a);
}

/// Counting a unit held by a thread, where the count can grow, and then uncounting it
/// restores the matrix; so do a lock and an unlock, or a down and an up, on the
/// allocation and need matrices.
pub proof fn lemma_hold_then_release(m: Seq<Seq<usize>>, row: int, col: int)
    requires
        0 <= row < m.len(),
        0 <= col < m[row].len(),
        m[row][col] < usize::MAX,
    ensures
        ({
            let held = matrix_set(m, row, col, (m[row][col] + 1) as usize);
            matrix_set(held, row, col, (held[row][col] - 1) as usize) == m
        }),
{
    let held = matrix_set(m, row, col, (m[row][col] + 1) as usize);
    assert(held[row].update(col, (held[row][col] - 1) as usize) =~= m[row]);
    assert(matrix_set(held, row, col, (held[row][col] - 1) as usize) =~= m);
}

// ---------------------------------------------------------------------------------------
// Exit and wait

/// Once the child with pid `p` has exited with `code` (and its pid is unique among the
/// children), it is the child that a wait for `p` reaps, and it carries that code; so
/// `sys_waitpid(p)` returns `p` and stores `code`.
pub proof fn lemma_wait_reaps_exited_child(children: Seq<ChildProcess>, i: int, code: i32)
    requires
        0 <= i < children.len(),
        child_pids_distinct(children),
        children[i].pid <= isize::MAX,
    ensures
        ({
            let after = exited(children, children[i].pid, code);
            &&& is_first_reapable(after, children[i].pid as isize, i)
            &&& after[i].pid == children[i].pid
            &&& after[i].exit_code == code
        }),
{
    let p = children[i].pid;
    let after = exited(children, p, code);
    assert(((p as isize) as usize) == p);
    assert forall|j: int| 0 <= j < i implies !(after[j].zombie && crate::syscall::process::selects(p as isize, after[j])) by {
        assert(children[j].pid != p);
        assert(after[j] == children[j]);
    }
}

// ---------------------------------------------------------------------------------------
// Time and the program break

/// The seconds and microseconds of a time give it back, and the microseconds stay below
/// one second.
pub proof fn lemma_time_val_recombines(us: usize)
    ensures
        (us / 1_000_000) * 1_000_000 + us % 1_000_000 == us,
        us % 1_000_000 < 1_000_000,
{
}

/// Moving the program break by `size` and then back by `-size` returns it to where it was.
pub proof fn lemma_sbrk_round_trip(heap_bottom: usize, brk: usize, size: i32)
    requires
        size != i32::MIN,
        heap_bottom <= brk,
        brk + size <= usize::MAX,
        moved_brk(heap_bottom, brk, size) is Some,
    ensures
        moved_brk(heap_bottom, moved_brk(heap_bottom, brk, size)->0, (-size) as i32) == Some(brk),
{
}

} // verus!
