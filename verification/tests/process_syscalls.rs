use rcore_kernel::mm::{AddressSpace, MappedPage};
use rcore_kernel::syscall::process::{
    child_exited, sys_exec, sys_exit, sys_fork, sys_get_time, sys_getpid, sys_mmap, sys_munmap, sys_sbrk,
    sys_set_priority, sys_spawn, sys_waitpid, sys_yield, TimeVal,
};
use rcore_kernel::task::{ChildProcess, Process, TaskStatus};

fn process() -> Process {
    Process {
        pid: 7,
        status: TaskStatus::Running,
        exit_code: 0,
        priority: 16,
        heap_bottom: 0x1000,
        program_brk: 0x1000,
        children: Vec::new(),
    }
}

fn vpns(space: &AddressSpace) -> Vec<usize> {
    space.pages.iter().map(|p| p.vpn).collect()
}

#[test]
fn get_time_splits_microseconds() {
    let mut tv = TimeVal { sec: 0, usec: 0 };
    assert_eq!(sys_get_time(3_000_123, &mut tv), 0);
    assert_eq!(tv, TimeVal { sec: 3, usec: 123 });
    sys_get_time(999_999, &mut tv);
    assert_eq!(tv, TimeVal { sec: 0, usec: 999_999 });
    sys_get_time(12_345_678_901, &mut tv);
    assert_eq!(tv.sec * 1_000_000 + tv.usec, 12_345_678_901);
}

#[test]
fn exit_yield_and_getpid() {
    let mut p = process();
    assert_eq!(sys_getpid(&p), 7);
    assert_eq!(sys_yield(&mut p), 0);
    assert_eq!(p.status, TaskStatus::Ready);
    sys_exit(&mut p, -3);
    assert_eq!((p.status, p.exit_code), (TaskStatus::Zombie, -3));
}

#[test]
fn fork_and_spawn_add_children() {
    let mut p = process();
    assert_eq!(sys_fork(&mut p, 8), 8);
    assert_eq!(sys_spawn(&mut p, Some(b"elf".as_slice()), 9), 9);
    assert_eq!(sys_spawn(&mut p, None, 10), -1);
    let pids: Vec<usize> = p.children.iter().map(|c| c.pid).collect();
    assert_eq!(pids, vec![8, 9]);
}

#[test]
fn exec_succeeds_only_when_the_program_is_found() {
    assert_eq!(sys_exec(Some(b"elf".as_slice())), 0);
    assert_eq!(sys_exec(None), -1);
}

#[test]
fn waitpid_cases() {
    let mut p = process();
    let mut code = 0i32;
    assert_eq!(sys_waitpid(&mut p, -1, &mut code), -1);
    p.children = vec![
        ChildProcess { pid: 8, zombie: false, exit_code: 0 },
        ChildProcess { pid: 9, zombie: true, exit_code: 42 },
        ChildProcess { pid: 10, zombie: true, exit_code: 5 },
    ];
    assert_eq!(sys_waitpid(&mut p, 11, &mut code), -1);
    assert_eq!(sys_waitpid(&mut p, 8, &mut code), -2);
    assert_eq!(code, 0);
    assert_eq!(sys_waitpid(&mut p, 10, &mut code), 10);
    assert_eq!(code, 5);
    assert_eq!(sys_waitpid(&mut p, -1, &mut code), 9);
    assert_eq!(code, 42);
    assert_eq!(sys_waitpid(&mut p, -1, &mut code), -2);
    assert_eq!(p.children.len(), 1);
}

#[test]
fn mmap_checks_its_arguments() {
    let mut space = AddressSpace { pages: Vec::new() };
    assert_eq!(sys_mmap(&mut space, 0x1000, 0x1000, 0), -1);
    assert_eq!(sys_mmap(&mut space, 0x1000, 0x1000, 8), -1);
    assert_eq!(sys_mmap(&mut space, 0x1001, 0x1000, 1), -1);
    assert_eq!(sys_mmap(&mut space, 0x1000, 0, 1), 0);
    assert!(space.pages.is_empty());
}

#[test]
fn mmap_maps_the_pages_with_user_access() {
    let mut space = AddressSpace { pages: Vec::new() };
    assert_eq!(sys_mmap(&mut space, 0x10000, 0x1800, 3), 0);
    assert_eq!(
        space.pages,
        vec![MappedPage { vpn: 0x10, perm: 22 }, MappedPage { vpn: 0x11, perm: 22 }]
    );
    assert_eq!(sys_mmap(&mut space, 0x20000, 1, 7), 0);
    assert_eq!(space.pages[2], MappedPage { vpn: 0x20, perm: 30 });
}

#[test]
fn mmap_refuses_mapped_pages() {
    let mut space = AddressSpace { pages: Vec::new() };
    sys_mmap(&mut space, 0x10000, 0x2000, 1);
    assert_eq!(sys_mmap(&mut space, 0x11000, 0x2000, 1), -1);
    assert_eq!(vpns(&space), vec![0x10, 0x11]);
}

#[test]
fn munmap_undoes_mmap() {
    let mut space = AddressSpace { pages: vec![MappedPage { vpn: 3, perm: 18 }] };
    sys_mmap(&mut space, 0x10000, 0x3000, 2);
    assert_eq!(sys_munmap(&mut space, 0x10000, 0x3000), 0);
    assert_eq!(space.pages, vec![MappedPage { vpn: 3, perm: 18 }]);
}

#[test]
fn munmap_checks_its_arguments() {
    let mut space = AddressSpace { pages: Vec::new() };
    sys_mmap(&mut space, 0x10000, 0x1000, 1);
    assert_eq!(sys_munmap(&mut space, 0x10010, 0x1000), -1);
    assert_eq!(sys_munmap(&mut space, 0x10000, 0x2000), -1);
    assert_eq!(sys_munmap(&mut space, 0x10000, 0), 0);
    assert_eq!(vpns(&space), vec![0x10]);
}

#[test]
fn addresses_keep_only_their_low_39_bits() {
    let mut space = AddressSpace { pages: Vec::new() };
    let high: usize = (1usize << 39) + 0x5000;
    assert_eq!(sys_mmap(&mut space, high, 0x1000, 1), 0);
    assert_eq!(vpns(&space), vec![5]);
}

#[test]
fn sbrk_moves_the_break_and_maps_the_heap() {
    let mut p = process();
    let mut space = AddressSpace { pages: Vec::new() };
    assert_eq!(sys_sbrk(&mut p, &mut space, 0x2000), 0x1000);
    assert_eq!(p.program_brk, 0x3000);
    assert_eq!(space.pages, vec![MappedPage { vpn: 1, perm: 22 }, MappedPage { vpn: 2, perm: 22 }]);
    assert_eq!(sys_sbrk(&mut p, &mut space, 0x10), 0x3000);
    assert_eq!(vpns(&space), vec![1, 2, 3]);
    assert_eq!(sys_sbrk(&mut p, &mut space, -0x2010), 0x3010);
    assert_eq!(p.program_brk, 0x1000);
    assert!(space.pages.is_empty());
    assert_eq!(sys_sbrk(&mut p, &mut space, -1), -1);
    assert_eq!(p.program_brk, 0x1000);
    assert!(space.pages.is_empty());
}

#[test]
fn a_child_that_exits_is_reaped_with_its_code() {
    let mut p = process();
    sys_fork(&mut p, 8);
    sys_fork(&mut p, 9);
    let mut code = 0i32;
    assert_eq!(sys_waitpid(&mut p, 9, &mut code), -2);
    child_exited(&mut p, 9, 17);
    assert_eq!(sys_waitpid(&mut p, -1, &mut code), 9);
    assert_eq!(code, 17);
    assert_eq!(p.children.len(), 1);
}

#[test]
fn set_priority_needs_at_least_two() {
    let mut p = process();
    assert_eq!(sys_set_priority(&mut p, 1), -1);
    assert_eq!(p.priority, 16);
    assert_eq!(sys_set_priority(&mut p, 2), 2);
    assert_eq!(p.priority, 2);
}
