//! Synchronization system calls: sleep, mutexes, semaphores, condition variables and
//! the deadlock-detection switch.
//!
//! Blocking on a mutex, semaphore or condition variable is the scheduler's work: these
//! calls keep the process's tables and bookkeeping, and the caller blocks or wakes the
//! thread when the call returns 0. The deadlock check is the process's too: its verdict
//! comes in as an argument.
use vstd::prelude::*;
use crate::table::{first_free, find_free_slot};
use crate::task::{
    Condvar, MutexKind, Semaphore, SyncResources, Timer, has_width, matrix_set, matrix_store,
    rows, same_condvars_and_switch, same_mutexes, same_semaphores, widen_matrix, widened,
};

verus! {

/// What a lock or down call returns when the deadlock check refuses it.
pub const DEADLOCK: isize = -0xdead;

/// The mutex kind that `blocking` asks for.
pub open spec fn mutex_kind(blocking: bool) -> MutexKind {
    if blocking {
        MutexKind::Blocking
    } else {
        MutexKind::Spin
    }
}

proof fn lemma_widened_width(m: Seq<Seq<usize>>, w: nat)
    requires
        has_width(m, w),
    ensures
        has_width(widened(m), w + 1),
{
    assert forall|i: int| 0 <= i < widened(m).len() implies #[trigger] widened(m)[i].len() == w + 1 by {
        assert(m[i].len() == w);
    }
}

proof fn lemma_set_width(m: Seq<Seq<usize>>, w: nat, row: int, col: int, v: usize)
    requires
        has_width(m, w),
        0 <= row < m.len(),
        0 <= col < w,
    ensures
        has_width(matrix_set(m, row, col, v), w),
{
    assert forall|i: int| 0 <= i < m.len() implies #[trigger] matrix_set(m, row, col, v)[i].len() == w by {
        assert(m[i].len() == w);
        if i == row {
            assert(matrix_set(m, row, col, v)[i] == m[row].update(col, v));
        }
    }
}

/// Sleep: arms a timer that wakes thread `tid` `ms` milliseconds after `now_ms`; the
/// caller then blocks the thread.
pub fn sys_sleep(timers: &mut Vec<Timer>, tid: usize, now_ms: usize, ms: usize) -> (r: isize)
    requires
        now_ms + ms <= usize::MAX,
    ensures
        r == 0,
        final(timers)@ == old(timers)@.push(Timer { expire_ms: (now_ms + ms) as usize, tid }),
{
    let expire_ms = now_ms + ms;
    timers.push(Timer { expire_ms, tid });
    0
}

/// Mutex create: puts a new mutex in the first free slot, or appends one (with a new
/// column in both matrices), and returns its id; it starts with one unit available.
pub fn sys_mutex_create(res: &mut SyncResources, blocking: bool) -> (id: isize)
    requires
        old(res).wf(),
        old(res).mutex_list@.len() < isize::MAX,
    ensures
        final(res).wf(),
        same_semaphores(final(res), old(res)),
        same_condvars_and_switch(final(res), old(res)),
        match first_free(old(res).mutex_list@) {
            Some(i) => {
                &&& id == i
                &&& final(res).mutex_list@ == old(res).mutex_list@.update(i, Some(mutex_kind(blocking)))
                &&& final(res).mutex_available@ == old(res).mutex_available@.update(i, 1usize)
                &&& rows(final(res).mutex_allocation@) == rows(old(res).mutex_allocation@)
                &&& rows(final(res).mutex_need@) == rows(old(res).mutex_need@)
            },
            None => {
                &&& id == old(res).mutex_list@.len()
                &&& final(res).mutex_list@ == old(res).mutex_list@.push(Some(mutex_kind(blocking)))
                &&& final(res).mutex_available@ == old(res).mutex_available@.push(1usize)
                &&& rows(final(res).mutex_allocation@) == widened(rows(old(res).mutex_allocation@))
                &&& rows(final(res).mutex_need@) == widened(rows(old(res).mutex_need@))
            },
        },
{
    let mutex: Option<MutexKind> = if !blocking {
        Some(MutexKind::Spin)
    } else {
        Some(MutexKind::Blocking)
    };
    match find_free_slot(&res.mutex_list) {
        Some(id) => {
            res.mutex_list.set(id, mutex);
            res.mutex_available.set(id, 1);
            id as isize
        },
        None => {
            res.mutex_list.push(mutex);
            res.mutex_available.push(1);
            widen_matrix(&mut res.mutex_allocation);
            widen_matrix(&mut res.mutex_need);
            proof {
                lemma_widened_width(rows(old(res).mutex_allocation@), old(res).mutex_list@.len());
                lemma_widened_width(rows(old(res).mutex_need@), old(res).mutex_list@.len());
            }
            (res.mutex_list.len() - 1) as isize
        },
    }
}

/// Mutex lock: unless the deadlock check refused it (then `DEADLOCK`), takes one unit of
/// mutex `mutex_id` for thread `tid` in the bookkeeping and returns 0; the caller then
/// locks the mutex.
pub fn sys_mutex_lock(
    res: &mut SyncResources,
    tid: usize,
    mutex_id: usize,
    try_lock: Result<(), ()>,
) -> (r: isize)
    requires
        old(res).wf(),
        try_lock is Ok ==> {
            &&& mutex_id < old(res).mutex_list@.len()
            &&& old(res).mutex_list@[mutex_id as int] is Some
            &&& tid < old(res).mutex_allocation@.len()
            &&& tid < old(res).mutex_need@.len()
            &&& old(res).mutex_available@[mutex_id as int] >= 1
            &&& old(res).mutex_allocation@[tid as int]@[mutex_id as int] < usize::MAX
            &&& old(res).mutex_need@[tid as int]@[mutex_id as int] < usize::MAX
        },
    ensures
        final(res).wf(),
        same_semaphores(final(res), old(res)),
        same_condvars_and_switch(final(res), old(res)),
        try_lock is Err ==> r == DEADLOCK && same_mutexes(final(res), old(res)),
        try_lock is Ok ==> {
            let alloc = rows(old(res).mutex_allocation@);
            let need = rows(old(res).mutex_need@);
            let m = mutex_id as int;
            let t = tid as int;
            &&& r == 0
            &&& final(res).mutex_list@ == old(res).mutex_list@
            &&& final(res).mutex_available@ == old(res).mutex_available@.update(
                m,
                (old(res).mutex_available@[m] - 1) as usize,
            )
            &&& rows(final(res).mutex_allocation@) == matrix_set(alloc, t, m, (alloc[t][m] + 1) as usize)
            &&& rows(final(res).mutex_need@) == matrix_set(need, t, m, (need[t][m] + 1) as usize)
        },
{
    if try_lock.is_err() {
        return DEADLOCK;
    }
    proof {
        assert(rows(res.mutex_allocation@)[tid as int].len() == res.mutex_list@.len());
        assert(rows(res.mutex_need@)[tid as int].len() == res.mutex_list@.len());
    }
    let available = res.mutex_available[mutex_id];
    res.mutex_available.set(mutex_id, available - 1);
    let held = res.mutex_allocation[tid][mutex_id];
    matrix_store(&mut res.mutex_allocation, tid, mutex_id, held + 1);
    let needed = res.mutex_need[tid][mutex_id];
    matrix_store(&mut res.mutex_need, tid, mutex_id, needed + 1);
    proof {
        lemma_set_width(rows(old(res).mutex_allocation@), res.mutex_list@.len(), tid as int, mutex_id as int, (held + 1) as usize);
        lemma_set_width(rows(old(res).mutex_need@), res.mutex_list@.len(), tid as int, mutex_id as int, (needed + 1) as usize);
    }
    0
}

/// Mutex unlock: gives back thread `tid`'s unit of mutex `mutex_id` in the bookkeeping
/// and returns 0; the caller then unlocks the mutex.
pub fn sys_mutex_unlock(res: &mut SyncResources, tid: usize, mutex_id: usize) -> (r: isize)
    requires
        old(res).wf(),
        mutex_id < old(res).mutex_list@.len(),
        old(res).mutex_list@[mutex_id as int] is Some,
        tid < old(res).mutex_allocation@.len(),
        tid < old(res).mutex_need@.len(),
        old(res).mutex_available@[mutex_id as int] < usize::MAX,
        old(res).mutex_allocation@[tid as int]@[mutex_id as int] >= 1,
        old(res).mutex_need@[tid as int]@[mutex_id as int] >= 1,
    ensures
        final(res).wf(),
        same_semaphores(final(res), old(res)),
        same_condvars_and_switch(final(res), old(res)),
        ({
            let alloc = rows(old(res).mutex_allocation@);
            let need = rows(old(res).mutex_need@);
            let m = mutex_id as int;
            let t = tid as int;
            &&& r == 0
            &&& final(res).mutex_list@ == old(res).mutex_list@
            &&& final(res).mutex_available@ == old(res).mutex_available@.update(
                m,
                (old(res).mutex_available@[m] + 1) as usize,
            )
            &&& rows(final(res).mutex_allocation@) == matrix_set(alloc, t, m, (alloc[t][m] - 1) as usize)
            &&& rows(final(res).mutex_need@) == matrix_set(need, t, m, (need[t][m] - 1) as usize)
        }),
{
    proof {
        assert(rows(res.mutex_allocation@)[tid as int].len() == res.mutex_list@.len());
        assert(rows(res.mutex_need@)[tid as int].len() == res.mutex_list@.len());
    }
    let available = res.mutex_available[mutex_id];
    res.mutex_available.set(mutex_id, available + 1);
    let held = res.mutex_allocation[tid][mutex_id];
    matrix_store(&mut res.mutex_allocation, tid, mutex_id, held - 1);
    let needed = res.mutex_need[tid][mutex_id];
    matrix_store(&mut res.mutex_need, tid, mutex_id, needed - 1);
    proof {
        lemma_set_width(rows(old(res).mutex_allocation@), res.mutex_list@.len(), tid as int, mutex_id as int, (held - 1) as usize);
        lemma_set_width(rows(old(res).mutex_need@), res.mutex_list@.len(), tid as int, mutex_id as int, (needed - 1) as usize);
    }
    0
}

/// Semaphore create: puts a semaphore of `res_count` units in the first free slot
/// (resetting thread `tid`'s cells of that column), or appends one (with its maximum and
/// a new column in both matrices), and returns its id.
pub fn sys_semaphore_create(res: &mut SyncResources, tid: usize, res_count: usize) -> (id: isize)
    requires
        old(res).wf(),
        old(res).semaphore_list@.len() < isize::MAX,
        first_free(old(res).semaphore_list@) is Some ==> {
            &&& tid < old(res).semaphore_allocation@.len()
            &&& tid < old(res).semaphore_need@.len()
        },
    ensures
        final(res).wf(),
        same_mutexes(final(res), old(res)),
        same_condvars_and_switch(final(res), old(res)),
        match first_free(old(res).semaphore_list@) {
            Some(i) => {
                &&& id == i
                &&& final(res).semaphore_list@ == old(res).semaphore_list@.update(
                    i,
                    Some(Semaphore { initial: res_count }),
                )
                &&& final(res).semaphore_available@ == old(res).semaphore_available@.update(i, res_count)
                &&& final(res).semaphore_max@ == old(res).semaphore_max@
                &&& rows(final(res).semaphore_allocation@) == matrix_set(
                    rows(old(res).semaphore_allocation@),
                    tid as int,
                    i,
                    0,
                )
                &&& rows(final(res).semaphore_need@) == matrix_set(
                    rows(old(res).semaphore_need@),
                    tid as int,
                    i,
                    0,
                )
            },
            None => {
                &&& id == old(res).semaphore_list@.len()
                &&& final(res).semaphore_list@ == old(res).semaphore_list@.push(
                    Some(Semaphore { initial: res_count }),
                )
                &&& final(res).semaphore_available@ == old(res).semaphore_available@.push(res_count)
                &&& final(res).semaphore_max@ == old(res).semaphore_max@.push(res_count)
                &&& rows(final(res).semaphore_allocation@) == widened(rows(old(res).semaphore_allocation@))
                &&& rows(final(res).semaphore_need@) == widened(rows(old(res).semaphore_need@))
            },
        },
{
    match find_free_slot(&res.semaphore_list) {
        Some(id) => {
            proof {
                assert(rows(res.semaphore_allocation@)[tid as int].len() == res.semaphore_list@.len());
                assert(rows(res.semaphore_need@)[tid as int].len() == res.semaphore_list@.len());
            }
            res.semaphore_list.set(id, Some(Semaphore { initial: res_count }));
            res.semaphore_available.set(id, res_count);
            matrix_store(&mut res.semaphore_allocation, tid, id, 0);
            matrix_store(&mut res.semaphore_need, tid, id, 0);
            proof {
                lemma_set_width(rows(old(res).semaphore_allocation@), res.semaphore_list@.len(), tid as int, id as int, 0);
                lemma_set_width(rows(old(res).semaphore_need@), res.semaphore_list@.len(), tid as int, id as int, 0);
            }
            id as isize
        },
        None => {
            res.semaphore_list.push(Some(Semaphore { initial: res_count }));
            res.semaphore_available.push(res_count);
            res.semaphore_max.push(res_count);
            widen_matrix(&mut res.semaphore_allocation);
            widen_matrix(&mut res.semaphore_need);
            proof {
                lemma_widened_width(rows(old(res).semaphore_allocation@), old(res).semaphore_list@.len());
                lemma_widened_width(rows(old(res).semaphore_need@), old(res).semaphore_list@.len());
            }
            (res.semaphore_list.len() - 1) as isize
        },
    }
}

/// Semaphore up: gives back one unit of semaphore `sem_id` from thread `tid` in the
/// bookkeeping and returns 0; the caller then ups the semaphore.
pub fn sys_semaphore_up(res: &mut SyncResources, tid: usize, sem_id: usize) -> (r: isize)
    requires
        old(res).wf(),
        sem_id < old(res).semaphore_list@.len(),
        old(res).semaphore_list@[sem_id as int] is Some,
        tid < old(res).semaphore_allocation@.len(),
        old(res).semaphore_available@[sem_id as int] < usize::MAX,
        old(res).semaphore_allocation@[tid as int]@[sem_id as int] >= 1,
    ensures
        final(res).wf(),
        same_mutexes(final(res), old(res)),
        same_condvars_and_switch(final(res), old(res)),
        ({
            let alloc = rows(old(res).semaphore_allocation@);
            let s = sem_id as int;
            let t = tid as int;
            &&& r == 0
            &&& final(res).semaphore_list@ == old(res).semaphore_list@
            &&& final(res).semaphore_max@ == old(res).semaphore_max@
            &&& final(res).semaphore_available@ == old(res).semaphore_available@.update(
                s,
                (old(res).semaphore_available@[s] + 1) as usize,
            )
            &&& rows(final(res).semaphore_allocation@) == matrix_set(alloc, t, s, (alloc[t][s] - 1) as usize)
            &&& rows(final(res).semaphore_need@) == rows(old(res).semaphore_need@)
        }),
{
    proof {
        assert(rows(res.semaphore_allocation@)[tid as int].len() == res.semaphore_list@.len());
    }
    let available = res.semaphore_available[sem_id];
    res.semaphore_available.set(sem_id, available + 1);
    let held = res.semaphore_allocation[tid][sem_id];
    matrix_store(&mut res.semaphore_allocation, tid, sem_id, held - 1);
    proof {
        lemma_set_width(rows(old(res).semaphore_allocation@), res.semaphore_list@.len(), tid as int, sem_id as int, (held - 1) as usize);
    }
    0
}

/// Semaphore down: the deadlock check's verdict is `Err` (refused: `DEADLOCK`), `Ok(true)`
/// (a unit is free: thread `tid` takes it in the bookkeeping) or `Ok(false)` (the thread
/// will wait: nothing changes); then 0, and the caller downs the semaphore.
pub fn sys_semaphore_down(
    res: &mut SyncResources,
    tid: usize,
    sem_id: usize,
    check: Result<bool, ()>,
) -> (r: isize)
    requires
        old(res).wf(),
        check is Ok ==> {
            &&& sem_id < old(res).semaphore_list@.len()
            &&& old(res).semaphore_list@[sem_id as int] is Some
        },
        check == Ok::<bool, ()>(true) ==> {
            &&& tid < old(res).semaphore_allocation@.len()
            &&& old(res).semaphore_available@[sem_id as int] >= 1
            &&& old(res).semaphore_allocation@[tid as int]@[sem_id as int] < usize::MAX
        },
    ensures
        final(res).wf(),
        same_mutexes(final(res), old(res)),
        same_condvars_and_switch(final(res), old(res)),
        check is Err ==> r == DEADLOCK && same_semaphores(final(res), old(res)),
        check == Ok::<bool, ()>(false) ==> r == 0 && same_semaphores(final(res), old(res)),
        check == Ok::<bool, ()>(true) ==> {
            let alloc = rows(old(res).semaphore_allocation@);
            let s = sem_id as int;
            let t = tid as int;
            &&& r == 0
            &&& final(res).semaphore_list@ == old(res).semaphore_list@
            &&& final(res).semaphore_max@ == old(res).semaphore_max@
            &&& final(res).semaphore_available@ == old(res).semaphore_available@.update(
                s,
                (old(res).semaphore_available@[s] - 1) as usize,
            )
            &&& rows(final(res).semaphore_allocation@) == matrix_set(alloc, t, s, (alloc[t][s] + 1) as usize)
            &&& rows(final(res).semaphore_need@) == rows(old(res).semaphore_need@)
        },
{
    match check {
        Err(_) => {
            return DEADLOCK;
        },
        Ok(true) => {
            proof {
                assert(rows(res.semaphore_allocation@)[tid as int].len() == res.semaphore_list@.len());
            }
            let available = res.semaphore_available[sem_id];
            res.semaphore_available.set(sem_id, available - 1);
            let held = res.semaphore_allocation[tid][sem_id];
            matrix_store(&mut res.semaphore_allocation, tid, sem_id, held + 1);
            proof {
                lemma_set_width(rows(old(res).semaphore_allocation@), res.semaphore_list@.len(), tid as int, sem_id as int, (held + 1) as usize);
            }
        },
        Ok(false) => {},
    }
    0
}

/// Condvar create: puts a new condition variable in the first free slot, or appends one,
/// and returns its id.
pub fn sys_condvar_create(res: &mut SyncResources) -> (id: isize)
    requires
        old(res).condvar_list@.len() < isize::MAX,
    ensures
        same_mutexes(final(res), old(res)),
        same_semaphores(final(res), old(res)),
        final(res).deadlock_detection == old(res).deadlock_detection,
        match first_free(old(res).condvar_list@) {
            Some(i) => id == i && final(res).condvar_list@ == old(res).condvar_list@.update(i, Some(Condvar {})),
            None => id == old(res).condvar_list@.len() && final(res).condvar_list@ == old(res).condvar_list@.push(Some(Condvar {})),
        },
{
    let id = match find_free_slot(&res.condvar_list) {
        Some(id) => {
            res.condvar_list.set(id, Some(Condvar {}));
            id
        },
        None => {
            res.condvar_list.push(Some(Condvar {}));
            res.condvar_list.len() - 1
        },
    };
    id as isize
}

/// Condvar signal: returns 0 for an existing condition variable; the caller signals it.
pub fn sys_condvar_signal(res: &SyncResources, condvar_id: usize) -> (r: isize)
    requires
        condvar_id < res.condvar_list@.len(),
        res.condvar_list@[condvar_id as int] is Some,
    ensures
        r == 0,
{
    0
}

/// Condvar wait: returns 0 for an existing condition variable and mutex; the caller then
/// waits on the one, releasing the other.
pub fn sys_condvar_wait(res: &SyncResources, condvar_id: usize, mutex_id: usize) -> (r: isize)
    requires
        condvar_id < res.condvar_list@.len(),
        res.condvar_list@[condvar_id as int] is Some,
        mutex_id < res.mutex_list@.len(),
        res.mutex_list@[mutex_id as int] is Some,
    ensures
        r == 0,
{
    0
}

/// Enable deadlock detection: 0 turns it off, 1 on (both return 0); anything else
/// returns -1 and leaves it as it was.
pub fn sys_enable_deadlock_detect(res: &mut SyncResources, enabled: usize) -> (r: isize)
    ensures
        same_mutexes(final(res), old(res)),
        same_semaphores(final(res), old(res)),
        final(res).condvar_list@ == old(res).condvar_list@,
        enabled == 0 ==> r == 0 && !final(res).deadlock_detection,
        enabled == 1 ==> r == 0 && final(res).deadlock_detection,
        enabled > 1 ==> r == -1 && final(res).deadlock_detection == old(res).deadlock_detection,
{
    match enabled {
        0 => {
            res.deadlock_detection = false;
        },
        1 => {
            res.deadlock_detection = true;
        },
        _ => {
            return -1;
        },
    }
    0
}

} // verus!
