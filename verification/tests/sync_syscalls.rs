use rcore_kernel::syscall::sync::{
    sys_condvar_create, sys_condvar_signal, sys_condvar_wait, sys_enable_deadlock_detect,
    sys_mutex_create, sys_mutex_lock, sys_mutex_unlock, sys_semaphore_create, sys_semaphore_down,
    sys_semaphore_up, sys_sleep, DEADLOCK,
};
use rcore_kernel::task::{MutexKind, Semaphore, SyncResources, Timer};

#[test]
fn sleep_arms_a_timer() {
    let mut timers: Vec<Timer> = Vec::new();
    assert_eq!(sys_sleep(&mut timers, 3, 100, 25), 0);
    assert_eq!(timers, vec![Timer { expire_ms: 125, tid: 3 }]);
}

#[test]
fn mutex_create_appends_and_widens_the_matrices() {
    let mut res = SyncResources::new(2);
    assert_eq!(sys_mutex_create(&mut res, false), 0);
    assert_eq!(sys_mutex_create(&mut res, true), 1);
    assert_eq!(res.mutex_list, vec![Some(MutexKind::Spin), Some(MutexKind::Blocking)]);
    assert_eq!(res.mutex_available, vec![1, 1]);
    assert_eq!(res.mutex_allocation, vec![vec![0, 0], vec![0, 0]]);
    assert_eq!(res.mutex_need, vec![vec![0, 0], vec![0, 0]]);
}

#[test]
fn mutex_create_reuses_the_first_free_slot() {
    let mut res = SyncResources::new(1);
    sys_mutex_create(&mut res, false);
    sys_mutex_create(&mut res, false);
    sys_mutex_create(&mut res, false);
    res.mutex_list[1] = None;
    res.mutex_available[1] = 0;
    assert_eq!(sys_mutex_create(&mut res, true), 1);
    assert_eq!(res.mutex_list[1], Some(MutexKind::Blocking));
    assert_eq!(res.mutex_available, vec![1, 1, 1]);
    assert_eq!(res.mutex_allocation, vec![vec![0, 0, 0]]);
}

#[test]
fn mutex_lock_and_unlock_keep_the_books() {
    let mut res = SyncResources::new(2);
    sys_mutex_create(&mut res, true);
    assert_eq!(sys_mutex_lock(&mut res, 1, 0, Ok(())), 0);
    assert_eq!(res.mutex_available, vec![0]);
    assert_eq!(res.mutex_allocation, vec![vec![0], vec![1]]);
    assert_eq!(res.mutex_need, vec![vec![0], vec![1]]);
    assert_eq!(sys_mutex_unlock(&mut res, 1, 0), 0);
    assert_eq!(res.mutex_available, vec![1]);
    assert_eq!(res.mutex_allocation, vec![vec![0], vec![0]]);
    assert_eq!(res.mutex_need, vec![vec![0], vec![0]]);
}

#[test]
fn mutex_lock_refused_by_the_deadlock_check() {
    let mut res = SyncResources::new(1);
    sys_mutex_create(&mut res, true);
    assert_eq!(sys_mutex_lock(&mut res, 0, 0, Err(())), -0xdead);
    assert_eq!(DEADLOCK, -57005);
    assert_eq!(res.mutex_available, vec![1]);
    assert_eq!(res.mutex_allocation, vec![vec![0]]);
}

#[test]
fn downs_then_ups_restore_the_counters() {
    let mut res = SyncResources::new(2);
    sys_semaphore_create(&mut res, 0, 3);
    sys_semaphore_down(&mut res, 1, 0, Ok(true));
    sys_semaphore_down(&mut res, 1, 0, Ok(true));
    assert_eq!(res.semaphore_available, vec![1]);
    assert_eq!(res.semaphore_allocation, vec![vec![0], vec![2]]);
    sys_semaphore_up(&mut res, 1, 0);
    sys_semaphore_up(&mut res, 1, 0);
    assert_eq!(res.semaphore_available, vec![3]);
    assert_eq!(res.semaphore_allocation, vec![vec![0], vec![0]]);
}

#[test]
fn semaphore_create_appends_or_reuses() {
    let mut res = SyncResources::new(2);
    assert_eq!(sys_semaphore_create(&mut res, 0, 3), 0);
    assert_eq!(sys_semaphore_create(&mut res, 0, 5), 1);
    assert_eq!(res.semaphore_available, vec![3, 5]);
    assert_eq!(res.semaphore_max, vec![3, 5]);
    assert_eq!(res.semaphore_allocation, vec![vec![0, 0], vec![0, 0]]);
    sys_semaphore_down(&mut res, 1, 0, Ok(true));
    res.semaphore_list[0] = None;
    assert_eq!(sys_semaphore_create(&mut res, 1, 9), 0);
    assert_eq!(res.semaphore_list[0], Some(Semaphore { initial: 9 }));
    assert_eq!(res.semaphore_available, vec![9, 5]);
    assert_eq!(res.semaphore_max, vec![3, 5]);
    assert_eq!(res.semaphore_allocation, vec![vec![0, 0], vec![0, 0]]);
}

#[test]
fn semaphore_down_and_up() {
    let mut res = SyncResources::new(1);
    sys_semaphore_create(&mut res, 0, 2);
    assert_eq!(sys_semaphore_down(&mut res, 0, 0, Ok(true)), 0);
    assert_eq!((res.semaphore_available[0], res.semaphore_allocation[0][0]), (1, 1));
    assert_eq!(sys_semaphore_down(&mut res, 0, 0, Ok(false)), 0);
    assert_eq!((res.semaphore_available[0], res.semaphore_allocation[0][0]), (1, 1));
    assert_eq!(sys_semaphore_down(&mut res, 0, 0, Err(())), -0xdead);
    assert_eq!(sys_semaphore_up(&mut res, 0, 0), 0);
    assert_eq!((res.semaphore_available[0], res.semaphore_allocation[0][0]), (2, 0));
}

#[test]
fn condvars() {
    let mut res = SyncResources::new(1);
    assert_eq!(sys_condvar_create(&mut res), 0);
    assert_eq!(sys_condvar_create(&mut res), 1);
    res.condvar_list[0] = None;
    assert_eq!(sys_condvar_create(&mut res), 0);
    sys_mutex_create(&mut res, true);
    assert_eq!(sys_condvar_signal(&res, 1), 0);
    assert_eq!(sys_condvar_wait(&res, 0, 0), 0);
}

#[test]
fn deadlock_detection_switch() {
    let mut res = SyncResources::new(1);
    assert_eq!(sys_enable_deadlock_detect(&mut res, 1), 0);
    assert!(res.deadlock_detection);
    assert_eq!(sys_enable_deadlock_detect(&mut res, 2), -1);
    assert!(res.deadlock_detection);
    assert_eq!(sys_enable_deadlock_detect(&mut res, 0), 0);
    assert!(!res.deadlock_detection);
}
