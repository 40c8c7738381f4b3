use rcore_kernel::file::{Console, OpenFile, OsInode, Stat, O_CREATE, O_RDONLY, O_RDWR, O_TRUNC, O_WRONLY, S_IFREG};
use rcore_kernel::syscall::fs::{
    sys_close, sys_fstat, sys_linkat, sys_open, sys_read, sys_unlinkat, sys_write,
};
use rcore_kernel::vfs::EasyFileSystem;

fn console() -> Console {
    Console { input: Vec::new(), output: Vec::new() }
}

fn std_table() -> Vec<Option<OpenFile>> {
    vec![Some(OpenFile::Stdin), Some(OpenFile::Stdout), Some(OpenFile::Stdout)]
}

fn zero_stat() -> Stat {
    Stat { dev: 9, ino: 9, mode: 9, nlink: 9, pad: [9u64; 7] }
}

#[test]
fn open_with_create_takes_the_next_descriptor() {
    let mut fs = EasyFileSystem::new(4096);
    let mut table = std_table();
    assert_eq!(sys_open(&mut table, &mut fs, b"f", O_CREATE | O_WRONLY), 3);
    assert_eq!(
        table[3],
        Some(OpenFile::Inode(OsInode { readable: false, writable: true, inode_id: 1, offset: 0 }))
    );
}

#[test]
fn open_without_create_of_a_missing_file_fails() {
    let mut fs = EasyFileSystem::new(4096);
    let mut table = std_table();
    assert_eq!(sys_open(&mut table, &mut fs, b"nope", O_RDONLY), -1);
    assert_eq!(table.len(), 3);
    assert_eq!(fs.inodes.len(), 1);
}

#[test]
fn open_flags_decide_read_and_write_access() {
    let mut fs = EasyFileSystem::new(4096);
    let mut table: Vec<Option<OpenFile>> = Vec::new();
    sys_open(&mut table, &mut fs, b"f", O_CREATE);
    sys_open(&mut table, &mut fs, b"f", O_RDONLY);
    sys_open(&mut table, &mut fs, b"f", O_RDWR);
    let access: Vec<(bool, bool)> = table
        .iter()
        .map(|f| match f {
            Some(OpenFile::Inode(o)) => (o.readable, o.writable),
            _ => panic!("not a file"),
        })
        .collect();
    assert_eq!(access, vec![(true, true), (true, false), (true, true)]);
}

#[test]
fn write_then_reopen_and_read_gives_the_data() {
    let mut fs = EasyFileSystem::new(4096);
    let mut table = std_table();
    let mut con = console();
    let fd = sys_open(&mut table, &mut fs, b"f", O_CREATE | O_WRONLY) as usize;
    assert_eq!(sys_write(&mut table, &mut fs, &mut con, fd, b"hello"), 5);
    assert_eq!(sys_write(&mut table, &mut fs, &mut con, fd, b" world"), 6);
    assert_eq!(sys_close(&mut table, fd), 0);
    let fd = sys_open(&mut table, &mut fs, b"f", O_RDONLY) as usize;
    let mut buf = vec![0u8; 32];
    assert_eq!(sys_read(&mut table, &fs, &mut con, fd, &mut buf), 11);
    assert_eq!(&buf[..11], b"hello world");
    let mut rest = vec![0u8; 4];
    assert_eq!(sys_read(&mut table, &fs, &mut con, fd, &mut rest), 0);
}

#[test]
fn reads_move_the_offset() {
    let mut fs = EasyFileSystem::new(4096);
    let mut table = std_table();
    let mut con = console();
    let fd = sys_open(&mut table, &mut fs, b"f", O_CREATE | O_RDWR) as usize;
    sys_write(&mut table, &mut fs, &mut con, fd, b"abcdef");
    sys_close(&mut table, fd);
    let fd = sys_open(&mut table, &mut fs, b"f", O_RDONLY) as usize;
    let mut a = vec![0u8; 2];
    let mut b = vec![0u8; 2];
    sys_read(&mut table, &fs, &mut con, fd, &mut a);
    sys_read(&mut table, &fs, &mut con, fd, &mut b);
    assert_eq!((a, b), (b"ab".to_vec(), b"cd".to_vec()));
}

#[test]
fn write_errors() {
    let mut fs = EasyFileSystem::new(4096);
    let mut table = std_table();
    let mut con = console();
    assert_eq!(sys_write(&mut table, &mut fs, &mut con, 10, b"x"), -1);
    assert_eq!(sys_write(&mut table, &mut fs, &mut con, 0, b"x"), -1);
    let fd = sys_open(&mut table, &mut fs, b"f", O_CREATE | O_RDONLY) as usize;
    sys_close(&mut table, fd);
    let fd = sys_open(&mut table, &mut fs, b"f", O_RDONLY) as usize;
    assert_eq!(sys_write(&mut table, &mut fs, &mut con, fd, b"x"), -1);
    sys_close(&mut table, fd);
    assert_eq!(sys_write(&mut table, &mut fs, &mut con, fd, b"x"), -1);
    assert!(fs.inodes[1].data.is_empty());
}

#[test]
fn read_errors() {
    let mut fs = EasyFileSystem::new(4096);
    let mut table = std_table();
    let mut con = console();
    let mut buf = vec![0u8; 1];
    assert_eq!(sys_read(&mut table, &fs, &mut con, 7, &mut buf), -1);
    assert_eq!(sys_read(&mut table, &fs, &mut con, 1, &mut buf), -1);
    let fd = sys_open(&mut table, &mut fs, b"f", O_CREATE | O_WRONLY) as usize;
    assert_eq!(sys_read(&mut table, &fs, &mut con, fd, &mut buf), -1);
}

#[test]
fn stdout_collects_writes_and_stdin_hands_out_bytes() {
    let mut fs = EasyFileSystem::new(4096);
    let mut table = std_table();
    let mut con = Console { input: b"qz".to_vec(), output: Vec::new() };
    assert_eq!(sys_write(&mut table, &mut fs, &mut con, 1, b"hi "), 3);
    assert_eq!(sys_write(&mut table, &mut fs, &mut con, 2, b"there"), 5);
    assert_eq!(con.output, b"hi there".to_vec());
    let mut buf = vec![0u8; 1];
    assert_eq!(sys_read(&mut table, &fs, &mut con, 0, &mut buf), 1);
    assert_eq!(buf, b"q".to_vec());
    assert_eq!(con.input, b"z".to_vec());
}

#[test]
fn close_frees_the_descriptor_for_the_next_open() {
    let mut fs = EasyFileSystem::new(4096);
    let mut table = std_table();
    let a = sys_open(&mut table, &mut fs, b"a", O_CREATE);
    let b = sys_open(&mut table, &mut fs, b"b", O_CREATE);
    assert_eq!((a, b), (3, 4));
    assert_eq!(sys_close(&mut table, 3), 0);
    assert_eq!(sys_close(&mut table, 3), -1);
    assert_eq!(sys_close(&mut table, 99), -1);
    assert_eq!(sys_open(&mut table, &mut fs, b"c", O_CREATE), 3);
}

#[test]
fn create_on_an_existing_file_empties_it_and_trunc_does_too() {
    let mut fs = EasyFileSystem::new(4096);
    let mut table = std_table();
    let mut con = console();
    let fd = sys_open(&mut table, &mut fs, b"f", O_CREATE | O_WRONLY) as usize;
    sys_write(&mut table, &mut fs, &mut con, fd, b"abc");
    assert_eq!(sys_open(&mut table, &mut fs, b"f", O_CREATE | O_WRONLY), 4);
    assert!(fs.inodes[1].data.is_empty());
    sys_write(&mut table, &mut fs, &mut con, fd, b"xyz");
    assert_eq!(fs.inodes[1].data, vec![0, 0, 0, b'x', b'y', b'z']);
    sys_open(&mut table, &mut fs, b"f", O_RDONLY);
    assert_eq!(fs.inodes[1].data, vec![0, 0, 0, b'x', b'y', b'z']);
    sys_open(&mut table, &mut fs, b"f", O_TRUNC | O_WRONLY);
    assert!(fs.inodes[1].data.is_empty());
    assert_eq!(fs.inodes.len(), 2);
}

#[test]
fn fstat_describes_a_file() {
    let mut fs = EasyFileSystem::new(4096);
    let mut table = std_table();
    let fd = sys_open(&mut table, &mut fs, b"f", O_CREATE) as usize;
    let mut st = zero_stat();
    assert_eq!(sys_fstat(&table, &fs, fd, &mut st), 0);
    assert_eq!(st, Stat { dev: 0, ino: 1, mode: S_IFREG, nlink: 1, pad: [0u64; 7] });
    let mut console_st = zero_stat();
    assert_eq!(sys_fstat(&table, &fs, 1, &mut console_st), 0);
    assert_eq!(console_st, Stat { dev: 0, ino: 0, mode: 0, nlink: 0, pad: [0u64; 7] });
    let mut untouched = zero_stat();
    assert_eq!(sys_fstat(&table, &fs, 42, &mut untouched), -1);
    assert_eq!(untouched, zero_stat());
}

#[test]
fn linkat_adds_a_link_that_fstat_sees() {
    let mut fs = EasyFileSystem::new(4096);
    let mut table = std_table();
    let fd = sys_open(&mut table, &mut fs, b"f", O_CREATE) as usize;
    assert_eq!(sys_linkat(&mut fs, 100, 200, b"f", b"g"), 0);
    let mut st = zero_stat();
    sys_fstat(&table, &fs, fd, &mut st);
    assert_eq!(st.nlink, 2);
    let gd = sys_open(&mut table, &mut fs, b"g", O_RDONLY) as usize;
    let mut gst = zero_stat();
    sys_fstat(&table, &fs, gd, &mut gst);
    assert_eq!((gst.ino, gst.nlink, gst.mode), (1, 2, S_IFREG));
}

#[test]
fn linkat_errors() {
    let mut fs = EasyFileSystem::new(4096);
    let mut table = std_table();
    sys_open(&mut table, &mut fs, b"f", O_CREATE);
    sys_open(&mut table, &mut fs, b"g", O_CREATE);
    assert_eq!(sys_linkat(&mut fs, 100, 100, b"f", b"h"), -1);
    assert_eq!(sys_linkat(&mut fs, 100, 200, b"f", b"f"), -1);
    assert_eq!(sys_linkat(&mut fs, 100, 200, b"f", b"g"), -1);
    assert_eq!(fs.inodes.len(), 3);
    assert_eq!(sys_linkat(&mut fs, 100, 200, b"missing", b"h"), -1);
    assert_eq!(fs.inodes.len(), 4);
}

#[test]
fn unlinkat_removes_the_name_and_counts_down() {
    let mut fs = EasyFileSystem::new(4096);
    let mut table = std_table();
    let fd = sys_open(&mut table, &mut fs, b"f", O_CREATE) as usize;
    sys_linkat(&mut fs, 1, 2, b"f", b"g");
    assert_eq!(sys_unlinkat(&mut fs, b"g"), 0);
    assert_eq!(sys_unlinkat(&mut fs, b"g"), -1);
    let mut st = zero_stat();
    sys_fstat(&table, &fs, fd, &mut st);
    assert_eq!(st.nlink, 1);
    assert_eq!(sys_open(&mut table, &mut fs, b"g", O_RDONLY), -1);
    assert_eq!(sys_unlinkat(&mut fs, b"f"), 0);
    assert_eq!(sys_open(&mut table, &mut fs, b"f", O_RDONLY), -1);
}

#[test]
fn data_written_through_a_link_is_read_through_the_name() {
    let mut fs = EasyFileSystem::new(4096);
    let mut table = std_table();
    let mut con = console();
    sys_open(&mut table, &mut fs, b"f", O_CREATE);
    sys_linkat(&mut fs, 1, 2, b"f", b"g");
    let gd = sys_open(&mut table, &mut fs, b"g", O_WRONLY) as usize;
    assert_eq!(sys_write(&mut table, &mut fs, &mut con, gd, b"via link"), 8);
    let fd = sys_open(&mut table, &mut fs, b"f", O_RDONLY) as usize;
    let mut buf = vec![0u8; 8];
    assert_eq!(sys_read(&mut table, &fs, &mut con, fd, &mut buf), 8);
    assert_eq!(buf, b"via link".to_vec());
}
