use std::sync::Arc;

use easy_kernel::efs::{EasyFileSystem, Rejected};
use easy_kernel::handle::InodeHandle;
use easy_kernel::image::FsImage;
use easy_kernel::vfs::{Inode, StatMode};
use spin::Mutex;

fn mount(inodes: u32, blocks: u32) -> Inode {
    let fs = Arc::new(Mutex::new(EasyFileSystem::new(FsImage::new(2, inodes, blocks))));
    Inode::new(0, 2, 0, fs)
}

fn root_of(image: &FsImage) -> InodeHandle {
    InodeHandle::of_id(image, 0)
}

fn read(inode: &Inode, offset: usize, len: usize) -> Vec<u8> {
    let mut buf = vec![0xAAu8; len];
    let n = inode.read_at(offset, &mut buf).unwrap();
    buf.truncate(n);
    buf
}

#[test]
fn handles_lie_where_inodes_do() {
    let image = FsImage::new(2, 16, 4);
    let five = InodeHandle::of_id(&image, 5);
    assert_eq!(five, InodeHandle { inode_id: 5, block_id: 3, block_offset: 128 });
    assert!(five.check_valid(&image));
    assert!(!InodeHandle::of_id(&image, 16).check_valid(&image));
    assert!(!InodeHandle::new(0, 1, 0).check_valid(&image));
    assert!(!InodeHandle::new(0, 2, 64).check_valid(&image));
    assert!(!InodeHandle::new(0, 2, 512).check_valid(&image));
}

#[test]
fn created_file_is_found() {
    let root = mount(8, 16);
    assert!(root.find("a").unwrap().is_none());
    let made = root.create("a").unwrap().unwrap();
    assert_eq!(made.get_inode_id(), 1);
    let found = root.find("a").unwrap().unwrap();
    assert_eq!(found.handle, made.handle);
    assert!(Arc::ptr_eq(&found.fs, &root.fs));
    let stat = found.get_fstat().unwrap();
    assert_eq!(stat.mode, StatMode::FILE);
    assert_eq!(stat.nlink, 1);
    assert_eq!(read(&found, 0, 8), Vec::<u8>::new());
}

#[test]
fn root_is_a_directory() {
    let root = mount(8, 16);
    let stat = root.get_fstat().unwrap();
    assert_eq!(stat.mode, StatMode::DIR);
    assert_eq!(stat.nlink, 1);
    assert_eq!(root.get_inode_id(), 0);
}

#[test]
fn taken_name_is_not_created_again() {
    let root = mount(8, 16);
    assert!(root.create("a").unwrap().is_some());
    assert!(root.create("a").unwrap().is_none());
    assert_eq!(root.ls().unwrap(), vec!["a".to_string()]);
}

#[test]
fn names_are_listed_in_order() {
    let root = mount(8, 16);
    for name in ["b", "a", "\u{e9}t\u{e9}"] {
        root.create(name).unwrap().unwrap();
    }
    assert_eq!(root.ls().unwrap(), vec!["b", "a", "\u{e9}t\u{e9}"]);
}

#[test]
fn longest_name_fits_and_a_longer_one_is_rejected() {
    let root = mount(8, 16);
    let longest = "x".repeat(27);
    assert!(root.create(&longest).unwrap().is_some());
    assert!(root.find(&longest).unwrap().is_some());
    assert!(matches!(root.create(&"x".repeat(28)), Err(Rejected)));
}

#[test]
fn hardlink_gives_a_second_name() {
    let root = mount(8, 16);
    let file = root.create("a").unwrap().unwrap();
    assert_eq!(file.write_at(0, b"text"), Ok(4));
    assert!(root.hardlink("a", "b").unwrap().is_none());
    let other = root.find("b").unwrap().unwrap();
    assert_eq!(other.handle, file.handle);
    assert_eq!(other.get_fstat().unwrap().nlink, 2);
    assert_eq!(read(&other, 0, 10), b"text");
    assert_eq!(root.ls().unwrap(), vec!["a", "b"]);
}

#[test]
fn hardlink_without_source_or_with_taken_target_does_nothing() {
    let root = mount(8, 16);
    root.create("a").unwrap().unwrap();
    root.create("b").unwrap().unwrap();
    assert!(root.hardlink("none", "c").unwrap().is_none());
    assert!(root.find("c").unwrap().is_none());
    assert!(root.hardlink("a", "b").unwrap().is_none());
    assert_eq!(root.find("a").unwrap().unwrap().get_fstat().unwrap().nlink, 1);
    assert_eq!(root.find("b").unwrap().unwrap().get_inode_id(), 2);
}

#[test]
fn name_goes_with_the_last_link() {
    let root = mount(8, 16);
    let file = root.create("a").unwrap().unwrap();
    root.create("b").unwrap().unwrap();
    assert_eq!(root.unlink("a"), Ok(Some(())));
    assert!(root.find("a").unwrap().is_none());
    assert_eq!(root.find("b").unwrap().unwrap().get_inode_id(), 2);
    assert_eq!(root.ls().unwrap(), vec!["b"]);
    assert_eq!(file.get_fstat().unwrap().nlink, 0);
    assert_eq!(root.unlink("a"), Ok(None));
}

#[test]
fn one_of_several_links_goes_alone() {
    let root = mount(8, 16);
    let file = root.create("a").unwrap().unwrap();
    root.hardlink("a", "b").unwrap();
    assert_eq!(root.unlink("b"), Ok(Some(())));
    assert_eq!(root.ls().unwrap(), vec!["a"]);
    assert!(root.find("b").unwrap().is_none());
    assert_eq!(root.find("a").unwrap().unwrap().handle, file.handle);
    assert_eq!(file.get_fstat().unwrap().nlink, 1);
    assert_eq!(root.unlink("b"), Ok(None));
    assert_eq!(root.unlink("a"), Ok(Some(())));
    assert!(root.ls().unwrap().is_empty());
    assert_eq!(file.get_fstat().unwrap().nlink, 0);
}

#[test]
fn first_name_can_go_before_the_second() {
    let root = mount(8, 16);
    let file = root.create("a").unwrap().unwrap();
    file.write_at(0, b"kept").unwrap();
    root.hardlink("a", "b").unwrap();
    assert_eq!(root.unlink("a"), Ok(Some(())));
    assert!(root.find("a").unwrap().is_none());
    assert_eq!(read(&root.find("b").unwrap().unwrap(), 0, 9), b"kept");
}

#[test]
fn file_without_links_cannot_be_unlinked() {
    let root = mount(8, 16);
    let mut entry = [0u8; 32];
    entry[0] = b'q';
    entry[28] = 5;
    root.write_at(0, &entry).unwrap();
    assert!(matches!(root.unlink("q"), Err(Rejected)));
}

#[test]
fn long_name_matters_only_where_an_entry_is_made() {
    let root = mount(8, 16);
    let long = "x".repeat(28);
    assert!(matches!(root.hardlink("none", &long), Ok(None)));
    root.create("a").unwrap().unwrap();
    assert!(matches!(root.hardlink("a", &long), Err(Rejected)));
    assert!(matches!(root.hardlink("a", "a"), Ok(None)));
    let mut entry = [b'y'; 32];
    entry[28..].copy_from_slice(&[0; 4]);
    root.write_at(32, &entry).unwrap();
    assert!(root.create(&"y".repeat(28)).unwrap().is_none());
}

#[test]
fn malformed_image_is_not_put_into_use() {
    let mut image = FsImage::new(2, 4, 4);
    assert!(image.check_wf());
    image.inode_used[0] = false;
    assert!(!image.check_wf());
    assert!(EasyFileSystem::open(image).is_none());
    let mut image = FsImage::new(2, 4, 4);
    image.data.bytes[700] = 1;
    assert!(!image.check_wf());
    let mut image = FsImage::new(2, 4, 4);
    image.inodes[0].blocks.push(0);
    assert!(!image.check_wf());
    assert!(EasyFileSystem::open(FsImage::new(2, 4, 4)).is_some());
}

#[test]
fn new_blocks_come_in_the_order_of_allocation() {
    let mut image = FsImage::new(2, 8, 16);
    let root = root_of(&image);
    let a = root.create(&mut image, "a").unwrap();
    let b = root.create(&mut image, "b").unwrap();
    a.write_at(&mut image, 0, &[1u8; 600]);
    b.write_at(&mut image, 0, &[2u8; 10]);
    a.write_at(&mut image, 600, &[3u8; 600]);
    assert_eq!(image.inodes[1].blocks, vec![1, 2, 4]);
    assert_eq!(image.inodes[2].blocks, vec![3]);
    assert_eq!(a.read_disk_inode(&image).size, 1200);
}

#[test]
fn emptied_entry_answers_to_the_empty_name() {
    let root = mount(8, 16);
    root.create("a").unwrap().unwrap();
    assert!(root.find("").unwrap().is_none());
    root.unlink("a").unwrap();
    assert_eq!(root.find("").unwrap().unwrap().get_inode_id(), 0);
}

#[test]
fn inode_of_an_unlinked_file_is_not_used_again() {
    let root = mount(8, 16);
    root.create("a").unwrap().unwrap();
    root.unlink("a").unwrap();
    assert_eq!(root.create("a").unwrap().unwrap().get_inode_id(), 2);
}

#[test]
fn what_is_written_is_read_back() {
    let root = mount(8, 16);
    let file = root.create("a").unwrap().unwrap();
    let data: Vec<u8> = (0..1500u32).map(|i| (i % 251) as u8).collect();
    assert_eq!(file.write_at(700, &data), Ok(1500));
    assert_eq!(read(&file, 0, 700), vec![0u8; 700]);
    assert_eq!(read(&file, 700, 3000), data);
    assert_eq!(file.write_at(702, &[9, 9]), Ok(2));
    assert_eq!(read(&file, 700, 6), vec![0, 1, 9, 9, 4, 5]);
    assert_eq!(read(&file, 2200, 1), Vec::<u8>::new());
    assert_eq!(read(&file, 2199, 5).len(), 1);
}

#[test]
fn reading_leaves_the_rest_of_the_buffer() {
    let root = mount(8, 16);
    let file = root.create("a").unwrap().unwrap();
    file.write_at(0, &[1, 2]).unwrap();
    let mut buf = [7u8; 4];
    assert_eq!(file.read_at(0, &mut buf), Ok(2));
    assert_eq!(buf, [1, 2, 7, 7]);
    assert_eq!(file.read_at(usize::MAX, &mut buf), Err(Rejected));
}

#[test]
fn one_file_does_not_touch_another() {
    let root = mount(8, 16);
    let a = root.create("a").unwrap().unwrap();
    let b = root.create("b").unwrap().unwrap();
    a.write_at(0, &[1u8; 600]).unwrap();
    b.write_at(0, &[2u8; 600]).unwrap();
    a.write_at(500, &[3u8; 600]).unwrap();
    assert_eq!(read(&b, 0, 600), vec![2u8; 600]);
}

#[test]
fn cleared_file_gives_its_blocks_back() {
    let root = mount(8, 4);
    let a = root.create("a").unwrap().unwrap();
    assert_eq!(a.write_at(0, &[5u8; 1536]), Ok(1536));
    let b = root.create("b").unwrap().unwrap();
    assert_eq!(b.write_at(0, &[1]), Err(Rejected));
    assert_eq!(a.clear(), Ok(()));
    assert_eq!(read(&a, 0, 10), Vec::<u8>::new());
    assert_eq!(b.write_at(1000, &[1]), Ok(1));
    assert_eq!(read(&b, 0, 1000), vec![0u8; 1000]);
}

#[test]
fn just_the_blocks_of_a_cleared_file_become_free() {
    let mut image = FsImage::new(2, 8, 8);
    let root = root_of(&image);
    let a = root.create(&mut image, "a").unwrap();
    let b = root.create(&mut image, "b").unwrap();
    a.write_at(&mut image, 0, &[1u8; 600]);
    b.write_at(&mut image, 0, &[2u8; 600]);
    a.write_at(&mut image, 600, &[3u8; 600]);
    assert_eq!(image.inodes[1].blocks, vec![1, 2, 5]);
    a.clear(&mut image);
    assert_eq!(image.data.used, vec![true, false, false, true, true, false, false, false]);
    assert_eq!(image.inodes[1].blocks, Vec::<u32>::new());
    assert_eq!(image.inodes[2].blocks, vec![3, 4]);
    a.clear(&mut image);
    assert_eq!(image.data.free_count(), 5);
}

#[test]
fn unlink_undoes_create() {
    let root = mount(8, 16);
    root.create("a").unwrap().unwrap();
    root.create("b").unwrap().unwrap();
    root.unlink("a").unwrap().unwrap();
    let before = root.ls().unwrap();
    let made = root.create("c").unwrap().unwrap();
    assert_eq!(root.ls().unwrap(), vec!["b", "c"]);
    assert_eq!(root.unlink("c"), Ok(Some(())));
    assert_eq!(root.ls().unwrap(), before);
    assert!(root.find("c").unwrap().is_none());
    assert_eq!(root.find("b").unwrap().unwrap().get_inode_id(), 2);
    assert_eq!(made.get_fstat().unwrap().nlink, 0);
    assert_eq!(root.unlink("c"), Ok(None));
}

#[test]
fn each_inode_works_behind_its_own_lock() {
    let one = mount(8, 16);
    let two = mount(8, 16);
    let held = two.fs.lock();
    one.create("a").unwrap().unwrap();
    drop(held);
    assert!(one.find("a").unwrap().is_some());
    assert!(two.find("a").unwrap().is_none());
}

#[test]
fn end_of_a_write_is_held_in_32_bits() {
    let root = mount(8, 4);
    let a = root.create("a").unwrap().unwrap();
    assert_eq!(a.write_at(0xffff_ffff, &[1, 2]), Ok(0));
    assert_eq!(read(&a, 0, 10), vec![0u8]);
}

#[test]
fn full_inode_table_is_rejected() {
    let root = mount(2, 16);
    assert!(root.create("a").unwrap().is_some());
    assert!(matches!(root.create("b"), Err(Rejected)));
    assert!(root.create("a").unwrap().is_none());
}

#[test]
fn files_are_no_directories() {
    let root = mount(8, 16);
    let file = root.create("a").unwrap().unwrap();
    assert!(matches!(file.find("x"), Err(Rejected)));
    assert!(matches!(file.create("x"), Err(Rejected)));
    assert!(matches!(file.hardlink("x", "y"), Err(Rejected)));
    assert!(matches!(file.unlink("x"), Err(Rejected)));
}

#[test]
fn names_that_are_no_text_are_not_listed() {
    let root = mount(8, 16);
    let mut entry = [0u8; 32];
    entry[0] = 0xff;
    root.write_at(0, &entry).unwrap();
    assert!(matches!(root.ls(), Err(Rejected)));
    entry[0] = b'q';
    root.write_at(0, &entry).unwrap();
    assert_eq!(root.ls().unwrap(), vec!["q"]);
}

#[test]
fn handle_that_leads_nowhere_is_rejected() {
    let root = mount(8, 16);
    let lost = Inode::new(9, 900, 0, Arc::clone(&root.fs));
    assert!(matches!(lost.get_fstat(), Err(Rejected)));
    assert_eq!(lost.clear(), Err(Rejected));
    assert_eq!(lost.write_at(0, &[1]), Err(Rejected));
    assert!(matches!(lost.ls(), Err(Rejected)));
}

#[test]
fn writing_back_is_noted() {
    let mut image = FsImage::new(2, 8, 16);
    let root = root_of(&image);
    assert!(image.cache_synced);
    let a = root.create(&mut image, "a").unwrap();
    assert!(image.cache_synced);
    assert!(root.hardlink(&mut image, "a", "b").is_none());
    assert!(!image.cache_synced);
    assert_eq!(a.write_at(&mut image, 0, &[1]), 1);
    assert!(image.cache_synced);
    assert_eq!(root.unlink(&mut image, "a"), Some(()));
    assert!(!image.cache_synced);
    a.clear(&mut image);
    assert!(image.cache_synced);
}

#[test]
fn lock_is_let_go_after_each_operation() {
    let root = mount(8, 16);
    root.create("a").unwrap();
    assert!(root.fs.try_lock().is_some());
    root.unlink("a").unwrap();
    assert!(root.fs.try_lock().is_some());
}

#[test]
fn entry_holds_name_and_number() {
    let entry = easy_kernel::dirent::DirEntry::new("ab", 0x01020304);
    assert_eq!(&entry.raw[0..4], &[b'a', b'b', 0, 0]);
    assert_eq!(&entry.raw[28..32], &[4, 3, 2, 1]);
    assert_eq!(entry.name(), b"ab".to_vec());
    assert_eq!(entry.inode_number(), 0x01020304);
}

#[test]
fn several_steps_under_one_lock() {
    let root = mount(8, 16);
    let mut fs = root.fs.lock();
    let made = root.create_locked(&mut fs, "a").unwrap().unwrap();
    assert_eq!(made.write_at_locked(&mut fs, 0, b"xyz"), Ok(3));
    assert!(root.hardlink_locked(&mut fs, "a", "b").unwrap().is_none());
    let found = root.find_locked(&fs, "b").unwrap().unwrap();
    let mut buf = [0u8; 3];
    assert_eq!(found.read_at_locked(&fs, 0, &mut buf), Ok(3));
    assert_eq!(&buf, b"xyz");
    assert_eq!(found.get_fstat_locked(&fs).unwrap().nlink, 2);
    assert_eq!(root.unlink_locked(&mut fs, "a"), Ok(Some(())));
    assert_eq!(root.ls_locked(&fs).unwrap(), vec!["b"]);
    assert_eq!(found.clear_locked(&mut fs), Ok(()));
    drop(fs);
    assert_eq!(read(&found, 0, 3), Vec::<u8>::new());
}

#[test]
fn name_is_cut_at_a_zero_byte() {
    let root = mount(8, 16);
    root.create("a\0b").unwrap().unwrap();
    assert!(root.find("a\0b").unwrap().is_none());
    assert_eq!(root.find("a").unwrap().unwrap().get_inode_id(), 1);
    assert_eq!(root.ls().unwrap(), vec!["a"]);
}
