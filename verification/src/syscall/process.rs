//! Process management system calls.
//!
//! What only the rest of the kernel can do (switching tasks, building a new task from an
//! ELF image, reading the clock, writing to user memory) stays with the caller; these
//! calls decide what happens and keep the process's state.
use vstd::prelude::*;
use crate::mm::{
    AddressSpace, PAGE_SIZE, MAP_R, MAP_U, MAP_W, MAP_X, all_mapped, any_mapped, ceil, floor, new_pages,
    page_aligned, range_end, range_first, unmapped, virt_addr, virt_addr_of, vpn_ceil,
    MappedPage, is_mapped, vpn_floor,
};
use crate::task::{ChildProcess, Process, TaskStatus};

verus! {

/// Seconds and microseconds, as the time system call hands them to user space.
#[derive(Clone, Copy, Debug, PartialEq, Eq, Structural)]
pub struct TimeVal {
    pub sec: usize,
    pub usec: usize,
}

/// Microseconds in a second.
pub const MICROS_PER_SEC: usize = 1_000_000;

/// Task exits and submits an exit code: the process becomes a zombie that keeps it.
pub fn sys_exit(proc: &mut Process, exit_code: i32)
    ensures
        final(proc).status == TaskStatus::Zombie,
        final(proc).exit_code == exit_code,
        final(proc).pid == old(proc).pid,
        final(proc).priority == old(proc).priority,
        final(proc).heap_bottom == old(proc).heap_bottom,
        final(proc).program_brk == old(proc).program_brk,
        final(proc).children@ == old(proc).children@,
{
    proc.status = TaskStatus::Zombie;
    proc.exit_code = exit_code;
}

/// Current task gives up the processor: it becomes ready to run again; returns 0.
pub fn sys_yield(proc: &mut Process) -> (r: isize)
    ensures
        r == 0,
        final(proc).status == TaskStatus::Ready,
        final(proc).exit_code == old(proc).exit_code,
        final(proc).pid == old(proc).pid,
        final(proc).priority == old(proc).priority,
        final(proc).heap_bottom == old(proc).heap_bottom,
        final(proc).program_brk == old(proc).program_brk,
        final(proc).children@ == old(proc).children@,
{
    proc.status = TaskStatus::Ready;
    0
}

/// The pid of the current process.
pub fn sys_getpid(proc: &Process) -> (r: isize)
    ensures
        r == proc.pid as isize,
{
    proc.pid as isize
}

/// `new_pid` is fresh for `proc`: neither its own pid nor that of one of its children.
pub open spec fn pid_fresh(proc: &Process, new_pid: usize) -> bool {
    &&& new_pid != proc.pid
    &&& forall|i: int| 0 <= i < proc.children@.len() ==> #[trigger] proc.children@[i].pid != new_pid
}

/// No two children of a process have the same pid.
pub open spec fn child_pids_distinct(children: Seq<ChildProcess>) -> bool {
    forall|i: int, j: int| 0 <= i < j < children.len() ==> children[i].pid != children[j].pid
}

proof fn lemma_push_fresh_keeps_distinct(children: Seq<ChildProcess>, c: ChildProcess)
    requires
        child_pids_distinct(children),
        forall|i: int| 0 <= i < children.len() ==> #[trigger] children[i].pid != c.pid,
    ensures
        child_pids_distinct(children.push(c)),
{
    let s = children.push(c);
    assert forall|i: int, j: int| 0 <= i < j < s.len() implies s[i].pid != s[j].pid by {
        if j < children.len() {
            assert(s[i] == children[i] && s[j] == children[j]);
        } else {
            assert(s[i] == children[i]);
        }
    }
}

/// Fork: the new process, with the fresh pid `new_pid` that the pid allocator gave,
/// becomes the last child of the current one (the caller builds it, with 0 as its own
/// return value); returns `new_pid`.
pub fn sys_fork(proc: &mut Process, new_pid: usize) -> (r: isize)
    requires
        pid_fresh(old(proc), new_pid),
    ensures
        r == new_pid as isize,
        child_pids_distinct(old(proc).children@) ==> child_pids_distinct(final(proc).children@),
        final(proc).children@ == old(proc).children@.push(
            ChildProcess { pid: new_pid, zombie: false, exit_code: 0 },
        ),
        final(proc).status == old(proc).status,
        final(proc).exit_code == old(proc).exit_code,
        final(proc).pid == old(proc).pid,
        final(proc).priority == old(proc).priority,
        final(proc).heap_bottom == old(proc).heap_bottom,
        final(proc).program_brk == old(proc).program_brk,
{
    proof {
        if child_pids_distinct(proc.children@) {
            lemma_push_fresh_keeps_distinct(proc.children@, ChildProcess { pid: new_pid, zombie: false, exit_code: 0 });
        }
    }
    proc.children.push(ChildProcess { pid: new_pid, zombie: false, exit_code: 0 });
    new_pid as isize
}

/// The children with each one whose pid is `pid` marked exited with `exit_code`.
pub open spec fn exited(children: Seq<ChildProcess>, pid: usize, exit_code: i32) -> Seq<ChildProcess> {
    children.map_values(
        |c: ChildProcess| if c.pid == pid { ChildProcess { zombie: true, exit_code, ..c } } else { c },
    )
}

/// What the parent of an exiting process learns from it: its child `pid` has exited with
/// `exit_code`, which a later wait for it reaps.
pub fn child_exited(parent: &mut Process, pid: usize, exit_code: i32)
    ensures
        final(parent).children@ == exited(old(parent).children@, pid, exit_code),
        final(parent).children@.len() == old(parent).children@.len(),
        forall|k: int|
            0 <= k < old(parent).children@.len() && old(parent).children@[k].pid != pid
                ==> #[trigger] final(parent).children@[k] == old(parent).children@[k],
        final(parent).status == old(parent).status,
        final(parent).exit_code == old(parent).exit_code,
        final(parent).pid == old(parent).pid,
        final(parent).priority == old(parent).priority,
        final(parent).heap_bottom == old(parent).heap_bottom,
        final(parent).program_brk == old(parent).program_brk,
{
    let mut i: usize = 0;
    while i < parent.children.len()
        invariant
            0 <= i <= parent.children@.len(),
            parent.children@.len() == old(parent).children@.len(),
            forall|j: int| 0 <= j < i ==> #[trigger] parent.children@[j] == exited(old(parent).children@, pid, exit_code)[j],
            forall|j: int| i <= j < parent.children@.len() ==> #[trigger] parent.children@[j] == old(parent).children@[j],
            parent.status == old(parent).status,
            parent.exit_code == old(parent).exit_code,
            parent.pid == old(parent).pid,
            parent.priority == old(parent).priority,
            parent.heap_bottom == old(parent).heap_bottom,
            parent.program_brk == old(parent).program_brk,
        decreases parent.children@.len() - i,
    {
        let c = parent.children[i];
        if c.pid == pid {
            parent.children.set(i, ChildProcess { zombie: true, exit_code, ..c });
        }
        i = i + 1;
    }
    assert(parent.children@ =~= exited(old(parent).children@, pid, exit_code));
}

/// Exec: 0 when the program to run was found (the caller replaces the address space with
/// it), -1 when it was not.
pub fn sys_exec(app_data: Option<&[u8]>) -> (r: isize)
    ensures
        app_data is Some ==> r == 0,
        app_data is None ==> r == -1,
{
    if let Some(_data) = app_data {
        0
    } else {
        -1
    }
}

/// `pid` selects `child`: -1 selects every child.
pub open spec fn selects(pid: isize, child: ChildProcess) -> bool {
    pid == -1 || pid as usize == child.pid
}

/// `i` is the first child that `pid` selects and that has exited.
pub open spec fn is_first_reapable(children: Seq<ChildProcess>, pid: isize, i: int) -> bool {
    &&& 0 <= i < children.len()
    &&& children[i].zombie && selects(pid, children[i])
    &&& forall|j: int| 0 <= j < i ==> !(children[j].zombie && selects(pid, children[j]))
}

/// There is only one first child that `pid` selects and that has exited.
pub proof fn lemma_first_reapable_unique(children: Seq<ChildProcess>, pid: isize, i: int, j: int)
    requires
        is_first_reapable(children, pid, i),
        is_first_reapable(children, pid, j),
    ensures
        i == j,
{
}

/// Wait for a child: -1 when `pid` selects no child; else the first selected child that
/// has exited leaves the list, its exit code goes to `exit_code` and its pid is returned;
/// -2 when every selected child still runs.
pub fn sys_waitpid(proc: &mut Process, pid: isize, exit_code: &mut i32) -> (r: isize)
    ensures
        final(proc).status == old(proc).status,
        final(proc).exit_code == old(proc).exit_code,
        final(proc).pid == old(proc).pid,
        final(proc).priority == old(proc).priority,
        final(proc).heap_bottom == old(proc).heap_bottom,
        final(proc).program_brk == old(proc).program_brk,
        !(exists|i: int| 0 <= i < old(proc).children@.len() && selects(pid, old(proc).children@[i]))
            ==> {
            &&& r == -1
            &&& final(proc).children@ == old(proc).children@
            &&& *final(exit_code) == *old(exit_code)
        },
        (exists|i: int| 0 <= i < old(proc).children@.len() && selects(pid, old(proc).children@[i]))
            && !(exists|i: int| is_first_reapable(old(proc).children@, pid, i)) ==> {
            &&& r == -2
            &&& final(proc).children@ == old(proc).children@
            &&& *final(exit_code) == *old(exit_code)
        },
        forall|i: int| #[trigger] is_first_reapable(old(proc).children@, pid, i) ==> {
            let child = old(proc).children@[i];
            &&& r == child.pid as isize
            &&& final(proc).children@ == old(proc).children@.remove(i)
            &&& *final(exit_code) == child.exit_code
        },
{
    let ghost cs = proc.children@;
    let found = reapable_child(&proc.children, pid);
    match found {
        Err(r) => {
            proof {
                if exists|i: int| is_first_reapable(cs, pid, i) {
                    let i = choose|i: int| is_first_reapable(cs, pid, i);
                    assert(0 <= i < cs.len() && selects(pid, cs[i]));
                }
            }
            r
        },
        Ok(i) => {
            proof {
                assert(cs.len() == proc.children.len());
                assert(exists|j: int| 0 <= j < cs.len() && selects(pid, cs[j]));
                let k = choose|k: int| is_first_reapable(cs, pid, k);
                assert(0 <= k < cs.len());
                assert forall|j: int| #[trigger] is_first_reapable(cs, pid, j) implies j == i by {
                    lemma_first_reapable_unique(cs, pid, j, i as int);
                }
            }
            let child = proc.children.remove(i);
            *exit_code = child.exit_code;
            #[verifier::truncate] (child.pid as isize)
        },
    }
}

/// Which child a wait for `pid` reaps: `Err(-1)` when `pid` selects none, `Err(-2)` when
/// none of those has exited, else `Ok` of the first selected one that has.
fn reapable_child(children: &Vec<ChildProcess>, pid: isize) -> (r: Result<usize, isize>)
    ensures
        !(exists|i: int| 0 <= i < children@.len() && selects(pid, children@[i])) ==> r == Err::<usize, isize>(-1isize),
        (exists|i: int| 0 <= i < children@.len() && selects(pid, children@[i])) ==> {
            if exists|i: int| is_first_reapable(children@, pid, i) {
                r == Ok::<usize, isize>((choose|i: int| is_first_reapable(children@, pid, i)) as usize)
            } else {
                r == Err::<usize, isize>(-2isize)
            }
        },
{
    let ghost cs = children@;
    let mut any = false;
    let mut k: usize = 0;
    while k < children.len()
        invariant
            cs == children@,
            0 <= k <= cs.len(),
            any == exists|i: int| 0 <= i < k && selects(pid, cs[i]),
        decreases cs.len() - k,
    {
        let c = children[k];
        if pid == -1 || pid as usize == c.pid {
            any = true;
        }
        k = k + 1;
    }
    if !any {
        return Err(-1);
    }
    let mut i: usize = 0;
    while i < children.len()
        invariant
            cs == children@,
            0 <= i <= cs.len(),
            forall|j: int| 0 <= j < i ==> !(cs[j].zombie && selects(pid, cs[j])),
        decreases cs.len() - i,
    {
        let c = children[i];
        if c.zombie && (pid == -1 || pid as usize == c.pid) {
            proof {
                assert(is_first_reapable(cs, pid, i as int));
                let f = choose|f: int| is_first_reapable(cs, pid, f);
                assert(f == i);
            }
            return Ok(i);
        }
        i = i + 1;
    }
    Err(-2)
}

/// Get time: the time `us`, in microseconds, split into seconds and microseconds and
/// stored in `ts`; returns 0.
pub fn sys_get_time(us: usize, ts: &mut TimeVal) -> (r: isize)
    ensures
        r == 0,
        final(ts).sec == us / 1_000_000,
        final(ts).usec == us % 1_000_000,
{
    *ts = TimeVal { sec: us / MICROS_PER_SEC, usec: us % MICROS_PER_SEC };
    0
}

/// `prot` asks for some of read, write, execute, and for nothing else.
pub open spec fn prot_valid(prot: usize) -> bool {
    1 <= prot <= 7
}

/// The permission a valid `prot` maps with: user access, and read (bit 0 of `prot`),
/// write (bit 1) and execute (bit 2) one bit higher each.
pub open spec fn map_permission(prot: usize) -> u8 {
    (16 + 2 * prot) as u8
}

/// Some page of `[start, start + len)` is mapped.
fn is_overlap(start: &usize, len: &usize, space: &AddressSpace) -> (r: bool)
    requires
        *start + *len <= usize::MAX,
    ensures
        r == any_mapped(space.pages@, range_first(*start, *len), range_end(*start, *len)),
{
    let start_va = virt_addr_of(*start);
    let mut start_vpn = floor(start_va);
    let end_vpn = ceil(virt_addr_of(*start + *len));
    let ghost lo = start_vpn as int;
    while start_vpn < end_vpn
        invariant
            lo <= start_vpn,
            lo == range_first(*start, *len),
            end_vpn == range_end(*start, *len),
            forall|v: int| lo <= v < start_vpn ==> !crate::mm::is_mapped(space.pages@, v),
        decreases end_vpn - start_vpn,
    {
        if space.maps(start_vpn) {
            return true;
        }
        start_vpn = start_vpn + 1;
    }
    false
}

/// Every page of `[start, start + len)` is mapped.
fn all_overlap(start: &usize, len: &usize, space: &AddressSpace) -> (r: bool)
    requires
        *start + *len <= usize::MAX,
    ensures
        r == all_mapped(space.pages@, range_first(*start, *len), range_end(*start, *len)),
{
    let start_va = virt_addr_of(*start);
    let mut start_vpn = floor(start_va);
    let end_vpn = ceil(virt_addr_of(*start + *len));
    let ghost lo = start_vpn as int;
    while start_vpn < end_vpn
        invariant
            lo <= start_vpn,
            lo == range_first(*start, *len),
            end_vpn == range_end(*start, *len),
            forall|v: int| lo <= v < start_vpn ==> crate::mm::is_mapped(space.pages@, v),
        decreases end_vpn - start_vpn,
    {
        if !space.maps(start_vpn) {
            return false;
        }
        start_vpn = start_vpn + 1;
    }
    true
}

/// Map anonymous memory: -1 for a `prot` that asks for nothing or for more than read,
/// write and execute, -1 for an unaligned `start`, 0 with nothing mapped for `len == 0`,
/// -1 when a page of `[start, start + len)` is already mapped; else maps those pages, in
/// order, with user access and the permissions `prot` asks for, and returns 0.
pub fn sys_mmap(space: &mut AddressSpace, start: usize, len: usize, prot: usize) -> (r: isize)
    requires
        prot_valid(prot) && page_aligned(start) && len != 0 ==> start + len <= usize::MAX,
    ensures
        !prot_valid(prot) ==> r == -1 && final(space).pages@ == old(space).pages@,
        prot_valid(prot) && !page_aligned(start) ==> r == -1 && final(space).pages@ == old(space).pages@,
        prot_valid(prot) && page_aligned(start) && len == 0 ==> r == 0 && final(space).pages@ == old(space).pages@,
        prot_valid(prot) && page_aligned(start) && len != 0 ==> {
            let lo = range_first(start, len);
            let hi = range_end(start, len);
            if any_mapped(old(space).pages@, lo, hi) {
                r == -1 && final(space).pages@ == old(space).pages@
            } else {
                r == 0 && final(space).pages@ == old(space).pages@ + new_pages(lo, hi, map_permission(prot))
            }
        },
{
    proof {
        assert(prot & !0x7usize != 0 || prot & 0x7usize == 0 <==> !(1 <= prot <= 7)) by (bit_vector);
    }
    if prot & !0x7 != 0 || prot & 0x7 == 0 {
        return -1;
    }
    if virt_addr_of(start) % PAGE_SIZE != 0 {
        return -1;
    }
    if len == 0 {
        return 0;
    }
    if is_overlap(&start, &len, space) {
        return -1;
    }
    let mut permission: u8 = MAP_U;
    if prot & 0x1 != 0 {
        permission = permission | MAP_R;
    }
    if prot & 0x2 != 0 {
        permission = permission | MAP_W;
    }
    if prot & 0x4 != 0 {
        permission = permission | MAP_X;
    }
    proof {
        let p = prot as u8;
        assert(1 <= p <= 7 ==> {
            let a: u8 = if p & 1 != 0 { 16u8 | 2u8 } else { 16u8 };
            let b: u8 = if p & 2 != 0 { a | 4u8 } else { a };
            let c: u8 = if p & 4 != 0 { b | 8u8 } else { b };
            c == 16 + 2 * p
        }) by (bit_vector);
        assert(prot & 0x1 != 0 <==> (prot as u8) & 1 != 0) by (bit_vector) requires prot <= 7;
        assert(prot & 0x2 != 0 <==> (prot as u8) & 2 != 0) by (bit_vector) requires prot <= 7;
        assert(prot & 0x4 != 0 <==> (prot as u8) & 4 != 0) by (bit_vector) requires prot <= 7;
    }
    let lo = floor(virt_addr_of(start));
    let hi = ceil(virt_addr_of(start + len));
    space.map_range(lo, hi, permission);
    0
}

/// Unmap memory: -1 for an unaligned `start`, -1 unless every page of
/// `[start, start + len)` is mapped; else unmaps them and returns 0.
pub fn sys_munmap(space: &mut AddressSpace, start: usize, len: usize) -> (r: isize)
    requires
        page_aligned(start) ==> start + len <= usize::MAX,
    ensures
        !page_aligned(start) ==> r == -1 && final(space).pages@ == old(space).pages@,
        page_aligned(start) ==> {
            let lo = range_first(start, len);
            let hi = range_end(start, len);
            if all_mapped(old(space).pages@, lo, hi) {
                r == 0 && final(space).pages@ == unmapped(old(space).pages@, lo, hi)
            } else {
                r == -1 && final(space).pages@ == old(space).pages@
            }
        },
        r == 0 ==> forall|v: int|
            range_first(start, len) <= v < range_end(start, len) ==> is_mapped(old(space).pages@, v),
{
    if virt_addr_of(start) % PAGE_SIZE != 0 {
        return -1;
    }
    if !all_overlap(&start, &len, space) {
        return -1;
    }
    let lo = floor(virt_addr_of(start));
    let hi = ceil(virt_addr_of(start + len));
    space.unmap_range(lo, hi);
    0
}

/// The program break after moving it by `size` from `brk`, unless that goes below the
/// bottom of the heap.
pub open spec fn moved_brk(heap_bottom: usize, brk: usize, size: i32) -> Option<usize> {
    if brk + size < heap_bottom {
        None
    } else {
        Some((brk + size) as usize)
    }
}

/// The permission of the heap's pages: readable, writable, user.
pub open spec fn heap_permission() -> u8 {
    22
}

/// The heap's pages after the program break moves from `old_brk` to `new_brk`: growing
/// maps the pages up to the new break, shrinking unmaps those past it.
pub open spec fn heap_pages_after(pages: Seq<MappedPage>, old_brk: usize, new_brk: usize) -> Seq<MappedPage> {
    let old_end = vpn_ceil(virt_addr(old_brk as int));
    let new_end = vpn_ceil(virt_addr(new_brk as int));
    if old_brk <= new_brk {
        pages + new_pages(old_end, new_end, heap_permission())
    } else {
        unmapped(pages, new_end, old_end)
    }
}

/// Change the data segment size: moves the program break by `size`, maps or unmaps the
/// heap's pages to match, and returns the old break; or returns -1 and changes nothing
/// when the break would go below the heap bottom.
pub fn sys_sbrk(proc: &mut Process, space: &mut AddressSpace, size: i32) -> (r: isize)
    requires
        old(proc).heap_bottom <= isize::MAX,
        old(proc).program_brk <= isize::MAX,
        old(proc).program_brk + size <= isize::MAX,
    ensures
        final(proc).status == old(proc).status,
        final(proc).exit_code == old(proc).exit_code,
        final(proc).pid == old(proc).pid,
        final(proc).priority == old(proc).priority,
        final(proc).heap_bottom == old(proc).heap_bottom,
        final(proc).children@ == old(proc).children@,
        match moved_brk(old(proc).heap_bottom, old(proc).program_brk, size) {
            Some(b) => {
                &&& r == old(proc).program_brk as isize
                &&& final(proc).program_brk == b
                &&& final(space).pages@ == heap_pages_after(old(space).pages@, old(proc).program_brk, b)
            },
            None => {
                &&& r == -1
                &&& final(proc).program_brk == old(proc).program_brk
                &&& final(space).pages@ == old(space).pages@
            },
        },
        forall|a: int|
            0 <= a < virt_addr(final(proc).program_brk as int) && is_mapped(old(space).pages@, #[trigger] vpn_floor(a))
                ==> is_mapped(final(space).pages@, vpn_floor(a)),
{
    let old_brk = proc.program_brk;
    let new_brk: isize = proc.program_brk as isize + size as isize;
    if new_brk < proc.heap_bottom as isize {
        return -1;
    }
    let new_brk = new_brk as usize;
    let old_end = ceil(virt_addr_of(old_brk));
    let new_end = ceil(virt_addr_of(new_brk));
    if size >= 0 {
        assert(2u8 | 4u8 | 16u8 == 22u8) by (bit_vector);
        space.map_range(old_end, new_end, MAP_R | MAP_W | MAP_U);
    } else {
        space.unmap_range(new_end, old_end);
    }
    proc.program_brk = new_brk;
    proof {
        assert forall|a: int|
            0 <= a < virt_addr(proc.program_brk as int) && is_mapped(old(space).pages@, #[trigger] vpn_floor(a))
            implies is_mapped(space.pages@, vpn_floor(a)) by {
            crate::laws::lemma_sbrk_keeps_pages_below_break(old(space).pages@, old_brk, new_brk, a);
        }
    }
    old_brk as isize
}

/// Spawn: when the program was found, a new process with the fresh pid `new_pid` that
/// the pid allocator gave runs it and becomes the last child of the current one, and
/// `new_pid` is returned; else -1.
pub fn sys_spawn(proc: &mut Process, app_data: Option<&[u8]>, new_pid: usize) -> (r: isize)
    requires
        app_data is Some ==> pid_fresh(old(proc), new_pid),
    ensures
        child_pids_distinct(old(proc).children@) ==> child_pids_distinct(final(proc).children@),
        final(proc).status == old(proc).status,
        final(proc).exit_code == old(proc).exit_code,
        final(proc).pid == old(proc).pid,
        final(proc).priority == old(proc).priority,
        final(proc).heap_bottom == old(proc).heap_bottom,
        final(proc).program_brk == old(proc).program_brk,
        app_data is Some ==> r == new_pid as isize && final(proc).children@ == old(proc).children@.push(
            ChildProcess { pid: new_pid, zombie: false, exit_code: 0 },
        ),
        app_data is None ==> r == -1 && final(proc).children@ == old(proc).children@,
{
    if let Some(_data) = app_data {
        proof {
            if child_pids_distinct(proc.children@) {
                lemma_push_fresh_keeps_distinct(proc.children@, ChildProcess { pid: new_pid, zombie: false, exit_code: 0 });
            }
        }
        proc.children.push(ChildProcess { pid: new_pid, zombie: false, exit_code: 0 });
        new_pid as isize
    } else {
        -1
    }
}

/// Set priority: -1 for a priority below 2; else the priority becomes `prio`, which is
/// returned.
pub fn sys_set_priority(proc: &mut Process, prio: isize) -> (r: isize)
    ensures
        final(proc).status == old(proc).status,
        final(proc).exit_code == old(proc).exit_code,
        final(proc).pid == old(proc).pid,
        final(proc).heap_bottom == old(proc).heap_bottom,
        final(proc).program_brk == old(proc).program_brk,
        final(proc).children@ == old(proc).children@,
        prio < 2 ==> r == -1 && final(proc).priority == old(proc).priority,
        prio >= 2 ==> r == prio && final(proc).priority == prio,
{
    if prio < 2 {
        return -1;
    }
    proc.priority = prio as usize;
    prio
}

} // verus!
