//! The parts of a process that the system calls read and change.
use vstd::prelude::*;

verus! {

/// The scheduling state of a task.
#[derive(Clone, Copy, Debug, PartialEq, Eq, Structural)]
pub enum TaskStatus {
    Ready,
    Running,
    Blocked,
    Zombie,
}

/// A child of the current process, as the parent sees it.
#[derive(Clone, Copy, Debug, PartialEq, Eq, Structural)]
pub struct ChildProcess {
    pub pid: usize,
    pub zombie: bool,
    pub exit_code: i32,
}

/// The scalar state of the current process.
#[derive(Debug)]
pub struct Process {
    pub pid: usize,
    pub status: TaskStatus,
    pub exit_code: i32,
    pub priority: usize,
    pub heap_bottom: usize,
    pub program_brk: usize,
    pub children: Vec<ChildProcess>,
}

/// A timer that wakes thread `tid` at `expire_ms`.
#[derive(Clone, Copy, Debug, PartialEq, Eq, Structural)]
pub struct Timer {
    pub expire_ms: usize,
    pub tid: usize,
}

/// The kind of a mutex: one that spins, or one that blocks its waiters.
#[derive(Clone, Copy, Debug, PartialEq, Eq, Structural)]
pub enum MutexKind {
    Spin,
    Blocking,
}

/// A semaphore, by the count it was created with.
#[derive(Clone, Copy, Debug, PartialEq, Eq, Structural)]
pub struct Semaphore {
    pub initial: usize,
}

/// A condition variable.
#[derive(Clone, Copy, Debug, PartialEq, Eq, Structural)]
pub struct Condvar {}

/// The synchronization objects of a process, with the bookkeeping that deadlock
/// detection reads: for each resource what is available, and for each thread (a row)
/// and resource (a column) what it holds and what it needs.
#[derive(Debug)]
pub struct SyncResources {
    pub mutex_list: Vec<Option<MutexKind>>,
    pub mutex_available: Vec<usize>,
    pub mutex_allocation: Vec<Vec<usize>>,
    pub mutex_need: Vec<Vec<usize>>,
    pub semaphore_list: Vec<Option<Semaphore>>,
    pub semaphore_available: Vec<usize>,
    pub semaphore_max: Vec<usize>,
    pub semaphore_allocation: Vec<Vec<usize>>,
    pub semaphore_need: Vec<Vec<usize>>,
    pub condvar_list: Vec<Option<Condvar>>,
    pub deadlock_detection: bool,
}

/// `a` and `b` hold the same mutexes and mutex bookkeeping.
pub open spec fn same_mutexes(a: &SyncResources, b: &SyncResources) -> bool {
    &&& a.mutex_list@ == b.mutex_list@
    &&& a.mutex_available@ == b.mutex_available@
    &&& rows(a.mutex_allocation@) == rows(b.mutex_allocation@)
    &&& rows(a.mutex_need@) == rows(b.mutex_need@)
}

/// `a` and `b` hold the same semaphores and semaphore bookkeeping.
pub open spec fn same_semaphores(a: &SyncResources, b: &SyncResources) -> bool {
    &&& a.semaphore_list@ == b.semaphore_list@
    &&& a.semaphore_available@ == b.semaphore_available@
    &&& a.semaphore_max@ == b.semaphore_max@
    &&& rows(a.semaphore_allocation@) == rows(b.semaphore_allocation@)
    &&& rows(a.semaphore_need@) == rows(b.semaphore_need@)
}

/// `a` and `b` hold the same condition variables and the same deadlock-detection switch.
pub open spec fn same_condvars_and_switch(a: &SyncResources, b: &SyncResources) -> bool {
    &&& a.condvar_list@ == b.condvar_list@
    &&& a.deadlock_detection == b.deadlock_detection
}

/// The rows of a matrix, as sequences.
pub open spec fn rows(m: Seq<Vec<usize>>) -> Seq<Seq<usize>> {
    m.map_values(|r: Vec<usize>| r@)
}

/// Every row of `m` has `width` columns.
pub open spec fn has_width(m: Seq<Seq<usize>>, width: nat) -> bool {
    forall|i: int| 0 <= i < m.len() ==> #[trigger] m[i].len() == width
}

/// `m` with a zero column added at the right.
pub open spec fn widened(m: Seq<Seq<usize>>) -> Seq<Seq<usize>> {
    m.map_values(|r: Seq<usize>| r.push(0usize))
}

/// `m` with the cell at `row`, `col` set to `v`.
pub open spec fn matrix_set(m: Seq<Seq<usize>>, row: int, col: int, v: usize) -> Seq<Seq<usize>> {
    m.update(row, m[row].update(col, v))
}

impl SyncResources {
    /// The tables agree in size: one available count per object, one column per object.
    pub open spec fn wf(&self) -> bool {
        &&& self.mutex_available@.len() == self.mutex_list@.len()
        &&& has_width(rows(self.mutex_allocation@), self.mutex_list@.len())
        &&& has_width(rows(self.mutex_need@), self.mutex_list@.len())
        &&& self.semaphore_available@.len() == self.semaphore_list@.len()
        &&& self.semaphore_max@.len() == self.semaphore_list@.len()
        &&& has_width(rows(self.semaphore_allocation@), self.semaphore_list@.len())
        &&& has_width(rows(self.semaphore_need@), self.semaphore_list@.len())
    }

    /// Thread `tid` has a row in every matrix.
    pub open spec fn has_thread(&self, tid: usize) -> bool {
        &&& tid < self.mutex_allocation@.len()
        &&& tid < self.mutex_need@.len()
        &&& tid < self.semaphore_allocation@.len()
        &&& tid < self.semaphore_need@.len()
    }

    /// Empty tables, with a row for each of `threads` threads.
    pub fn new(threads: usize) -> (s: SyncResources)
        ensures
            s.wf(),
            s.mutex_list@.len() == 0,
            s.semaphore_list@.len() == 0,
            s.condvar_list@.len() == 0,
            s.mutex_allocation@.len() == threads,
            s.mutex_need@.len() == threads,
            s.semaphore_allocation@.len() == threads,
            s.semaphore_need@.len() == threads,
            !s.deadlock_detection,
    {
        SyncResources {
            mutex_list: Vec::new(),
            mutex_available: Vec::new(),
            mutex_allocation: empty_rows(threads),
            mutex_need: empty_rows(threads),
            semaphore_list: Vec::new(),
            semaphore_available: Vec::new(),
            semaphore_max: Vec::new(),
            semaphore_allocation: empty_rows(threads),
            semaphore_need: empty_rows(threads),
            condvar_list: Vec::new(),
            deadlock_detection: false,
        }
    }
}

/// `n` empty rows.
fn empty_rows(n: usize) -> (m: Vec<Vec<usize>>)
    ensures
        m@.len() == n,
        has_width(rows(m@), 0),
{
    let mut m: Vec<Vec<usize>> = Vec::new();
    let mut i: usize = 0;
    while i < n
        invariant
            0 <= i <= n,
            m@.len() == i,
            has_width(rows(m@), 0),
        decreases n - i,
    {
        let ghost before = m@;
        m.push(Vec::new());
        assert forall|j: int| 0 <= j < m@.len() implies #[trigger] rows(m@)[j].len() == 0 by {
            if j < before.len() {
                assert(rows(before)[j].len() == 0);
            }
        }
        i = i + 1;
    }
    m
}

/// Adds a zero column at the right of every row.
pub fn widen_matrix(m: &mut Vec<Vec<usize>>)
    ensures
        rows(final(m)@) == widened(rows(old(m)@)),
{
    let mut i: usize = 0;
    while i < m.len()
        invariant
            0 <= i <= m@.len(),
            m@.len() == old(m)@.len(),
            forall|j: int| 0 <= j < i ==> #[trigger] m@[j]@ == old(m)@[j]@.push(0usize),
            forall|j: int| i <= j < m@.len() ==> #[trigger] m@[j]@ == old(m)@[j]@,
        decreases m@.len() - i,
    {
        m[i].push(0);
        i = i + 1;
    }
    assert(rows(m@) =~= widened(rows(old(m)@)));
}

/// Sets the cell at `row`, `col` to `v`.
pub fn matrix_store(m: &mut Vec<Vec<usize>>, row: usize, col: usize, v: usize)
    requires
        row < old(m)@.len(),
        col < old(m)@[row as int]@.len(),
    ensures
        rows(final(m)@) == matrix_set(rows(old(m)@), row as int, col as int, v),
{
    m[row].set(col, v);
    assert(rows(m@) =~= matrix_set(rows(old(m)@), row as int, col as int, v));
}

} // verus!
