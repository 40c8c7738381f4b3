use rcore_kernel::vfs::{DiskInodeType, EasyFileSystem, Inode};

fn fs_with_file(name: &[u8]) -> (EasyFileSystem, Inode) {
    let mut fs = EasyFileSystem::new(4096);
    let root = fs.root_inode();
    let file = root.create(&mut fs, name).unwrap();
    (fs, file)
}

#[test]
fn new_fs_holds_only_the_root_directory() {
    let fs = EasyFileSystem::new(4096);
    assert_eq!(fs.inodes.len(), 1);
    let root = fs.root_inode();
    assert_eq!(root.inode_id(), 0);
    assert_eq!(root.get_mode(&fs), 0);
    assert!(root.ls(&fs).is_empty());
}

#[test]
fn create_then_find_gives_the_new_inode() {
    let (fs, file) = fs_with_file(b"a");
    assert_eq!(file.inode_id(), 1);
    let root = fs.root_inode();
    let found = root.find(&fs, b"a").unwrap();
    assert_eq!(found.inode_id(), 1);
    assert!(root.find(&fs, b"b").is_none());
    assert_eq!(file.get_mode(&fs), 1);
    assert_eq!(file.get_nlink(&fs), 1);
    assert_eq!(file.get_inode_id(&fs), 1);
}

#[test]
fn create_of_an_existing_name_fails_and_changes_nothing() {
    let (mut fs, _) = fs_with_file(b"a");
    let root = fs.root_inode();
    assert!(root.create(&mut fs, b"a").is_none());
    assert_eq!(fs.inodes.len(), 2);
    assert_eq!(root.ls(&fs), vec![b"a".to_vec()]);
}

#[test]
fn ls_lists_names_in_creation_order() {
    let mut fs = EasyFileSystem::new(4096);
    let root = fs.root_inode();
    root.create(&mut fs, b"x").unwrap();
    root.create(&mut fs, b"y").unwrap();
    root.create(&mut fs, b"z").unwrap();
    assert_eq!(root.ls(&fs), vec![b"x".to_vec(), b"y".to_vec(), b"z".to_vec()]);
}

#[test]
fn write_then_read_gives_the_bytes_back() {
    let (mut fs, file) = fs_with_file(b"f");
    assert_eq!(file.write_at(&mut fs, 0, b"hello world"), 11);
    let mut buf = vec![0u8; 5];
    assert_eq!(file.read_at(&fs, 6, &mut buf), 5);
    assert_eq!(&buf, b"world");
}

#[test]
fn read_is_cut_at_the_end_of_the_file() {
    let (mut fs, file) = fs_with_file(b"f");
    file.write_at(&mut fs, 0, b"abc");
    let mut buf = vec![9u8; 5];
    assert_eq!(file.read_at(&fs, 1, &mut buf), 2);
    assert_eq!(buf, vec![b'b', b'c', 9, 9, 9]);
    let mut past = vec![7u8; 2];
    assert_eq!(file.read_at(&fs, 3, &mut past), 0);
    assert_eq!(past, vec![7u8, 7]);
}

#[test]
fn write_past_the_end_fills_the_gap_with_zeros() {
    let (mut fs, file) = fs_with_file(b"f");
    file.write_at(&mut fs, 0, b"ab");
    assert_eq!(file.write_at(&mut fs, 4, b"cd"), 2);
    assert_eq!(fs.inodes[1].data, vec![b'a', b'b', 0, 0, b'c', b'd']);
}

#[test]
fn overwrite_keeps_the_other_bytes() {
    let (mut fs, file) = fs_with_file(b"f");
    file.write_at(&mut fs, 0, b"abcdef");
    file.write_at(&mut fs, 2, b"XY");
    assert_eq!(fs.inodes[1].data, b"abXYef".to_vec());
}

#[test]
fn clear_empties_the_file() {
    let (mut fs, file) = fs_with_file(b"f");
    file.write_at(&mut fs, 0, b"data");
    file.clear(&mut fs);
    assert!(fs.inodes[1].data.is_empty());
    let mut buf = vec![0u8; 4];
    assert_eq!(file.read_at(&fs, 0, &mut buf), 0);
}

#[test]
fn hard_link_stands_for_its_target() {
    let (mut fs, file) = fs_with_file(b"f");
    file.write_at(&mut fs, 0, b"shared");
    let root = fs.root_inode();
    let link = root.linkat(&mut fs, b"g", DiskInodeType::HardLink, Some(b"f".as_slice())).unwrap();
    assert_eq!(link.inode_id(), 2);
    assert_eq!(link.get_mode(&fs), 2);
    assert_eq!(link.get_inode_id(&fs), 1);
    assert_eq!(link.get_nlink(&fs), file.get_nlink(&fs));
    assert_eq!(link.write_at(&mut fs, 0, b"S"), 1);
    assert_eq!(fs.inodes[1].data, b"Shared".to_vec());
    assert!(fs.inodes[2].data.is_empty());
}

#[test]
fn read_through_a_hard_link_reads_the_target() {
    let (mut fs, file) = fs_with_file(b"f");
    file.write_at(&mut fs, 0, b"target bytes");
    let root = fs.root_inode();
    let link = root.linkat(&mut fs, b"g", DiskInodeType::HardLink, Some(b"f".as_slice())).unwrap();
    let mut buf = vec![1u8; 5];
    assert_eq!(link.read_at(&fs, 7, &mut buf), 5);
    assert_eq!(buf, b"bytes".to_vec());
    let mut past = vec![1u8; 3];
    assert_eq!(link.read_at(&fs, 20, &mut past), 0);
    assert_eq!(past, vec![1u8; 3]);
}

#[test]
fn get_inode_id_of_the_root_directory() {
    let fs = EasyFileSystem::new(4096);
    assert_eq!(fs.root_inode().get_inode_id(&fs), 0);
    assert_eq!(fs.root_inode().get_nlink(&fs), 1);
}

#[test]
fn writes_take_blocks_and_clear_gives_them_back() {
    let (mut fs, file) = fs_with_file(b"f");
    let after_create = fs.used_data_blocks;
    assert_eq!(after_create, 1);
    file.write_at(&mut fs, 0, &[7u8; 600]);
    assert_eq!(fs.used_data_blocks, after_create + 2);
    file.write_at(&mut fs, 0, &[7u8; 100]);
    assert_eq!(fs.used_data_blocks, after_create + 2);
    file.write_at(&mut fs, 600, &vec![7u8; 29 * 512 - 600]);
    assert_eq!(fs.used_data_blocks, after_create + 29 + 1);
    file.clear(&mut fs);
    assert_eq!(fs.used_data_blocks, after_create);
    assert!(fs.inodes[1].data.is_empty());
}

#[test]
fn directory_entries_take_blocks_sixteen_at_a_time() {
    let mut fs = EasyFileSystem::new(4096);
    let root = fs.root_inode();
    for i in 0..17u8 {
        root.create(&mut fs, &[b'a' + i]).unwrap();
        let expected = if i < 16 { 1 } else { 2 };
        assert_eq!(fs.used_data_blocks, expected);
    }
    assert!(root.delete(&mut fs, b"a"));
    assert_eq!(fs.used_data_blocks, 2);
}

#[test]
fn room_checks() {
    let (fs, _) = fs_with_file(b"f");
    assert!(fs.room_to_grow(1, 1000 * 512));
    assert!(!fs.room_to_grow(1, 5000 * 512));
    assert!(fs.room_for_entry(0));
    let tight = EasyFileSystem::new(0);
    assert!(!tight.room_for_entry(0));
}

#[test]
fn link_to_a_missing_target_fails_but_keeps_the_taken_inode() {
    let mut fs = EasyFileSystem::new(4096);
    let root = fs.root_inode();
    assert!(root.linkat(&mut fs, b"g", DiskInodeType::HardLink, Some(b"missing".as_slice())).is_none());
    assert_eq!(fs.inodes.len(), 2);
    assert!(root.ls(&fs).is_empty());
    assert_eq!(fs.inodes[1].nlink, 0);
}

#[test]
fn linkat_of_a_directory_type_makes_a_file() {
    let mut fs = EasyFileSystem::new(4096);
    let root = fs.root_inode();
    let made = root.linkat(&mut fs, b"d", DiskInodeType::Directory, None).unwrap();
    assert_eq!(made.get_mode(&fs), 1);
}

#[test]
fn delete_removes_the_name_and_a_link() {
    let (mut fs, file) = fs_with_file(b"f");
    let root = fs.root_inode();
    file.set_nlink(&mut fs, 3);
    assert!(root.delete(&mut fs, b"f"));
    assert!(root.find(&fs, b"f").is_none());
    assert_eq!(fs.inodes[1].nlink, 2);
    assert!(!root.delete(&mut fs, b"f"));
    assert_eq!(fs.inodes[1].nlink, 2);
}

#[test]
fn delete_through_a_link_counts_down_the_target() {
    let (mut fs, file) = fs_with_file(b"f");
    let root = fs.root_inode();
    file.set_nlink(&mut fs, 2);
    root.linkat(&mut fs, b"g", DiskInodeType::HardLink, Some(b"f".as_slice())).unwrap();
    assert!(root.delete(&mut fs, b"g"));
    assert_eq!(fs.inodes[1].nlink, 1);
    assert_eq!(fs.inodes[2].nlink, 1);
    assert_eq!(root.ls(&fs), vec![b"f".to_vec()]);
}

#[test]
fn delete_keeps_the_order_of_the_other_names() {
    let mut fs = EasyFileSystem::new(4096);
    let root = fs.root_inode();
    for name in [b"a", b"b", b"c"] {
        root.create(&mut fs, name).unwrap();
    }
    assert!(root.delete(&mut fs, b"b"));
    assert_eq!(root.ls(&fs), vec![b"a".to_vec(), b"c".to_vec()]);
    assert_eq!(root.find(&fs, b"c").unwrap().inode_id(), 3);
}

#[test]
fn create_then_delete_leaves_the_directory_as_it_was() {
    let (mut fs, _) = fs_with_file(b"keep");
    let root = fs.root_inode();
    root.create(&mut fs, b"tmp").unwrap();
    assert!(root.delete(&mut fs, b"tmp"));
    assert_eq!(root.ls(&fs), vec![b"keep".to_vec()]);
    assert_eq!(fs.inodes.len(), 3);
    assert_eq!(fs.inodes[2].nlink, 0);
}

#[test]
fn set_then_get_nlink() {
    let (mut fs, file) = fs_with_file(b"f");
    file.set_nlink(&mut fs, 5);
    assert_eq!(file.get_nlink(&fs), 5);
}

#[test]
fn linking_and_unlinking_leave_other_names_alone() {
    let mut fs = EasyFileSystem::new(4096);
    let root = fs.root_inode();
    root.create(&mut fs, b"a").unwrap();
    root.create(&mut fs, b"b").unwrap();
    root.linkat(&mut fs, b"c", DiskInodeType::HardLink, Some(b"a".as_slice())).unwrap();
    assert_eq!(root.find(&fs, b"a").unwrap().inode_id(), 1);
    assert_eq!(root.find(&fs, b"b").unwrap().inode_id(), 2);
    assert!(root.delete(&mut fs, b"a"));
    assert_eq!(root.find(&fs, b"b").unwrap().inode_id(), 2);
    assert_eq!(root.find(&fs, b"c").unwrap().inode_id(), 3);
}

#[test]
fn read_of_a_directory_gives_back_the_offset() {
    let (fs, _) = fs_with_file(b"a");
    let root = fs.root_inode();
    let mut buf = vec![3u8; 4];
    assert_eq!(root.read_at(&fs, 5, &mut buf), 5);
    assert_eq!(buf, vec![3u8; 4]);
}

#[test]
fn a_name_ends_at_its_first_zero_byte() {
    let mut fs = EasyFileSystem::new(4096);
    let root = fs.root_inode();
    let file = root.create(&mut fs, b"a\0b").unwrap();
    assert_eq!(root.ls(&fs), vec![b"a".to_vec()]);
    assert_eq!(root.find(&fs, b"a").unwrap().inode_id(), file.inode_id());
    assert!(root.find(&fs, b"a\0b").is_none());
    assert!(root.create(&mut fs, b"a").is_none());
    assert!(root.delete(&mut fs, b"a"));
    assert!(root.ls(&fs).is_empty());
}
