use easy_kernel::config::MAX_SYSCALL_NUM;
use easy_kernel::efs::EasyFileSystem;
use easy_kernel::handle::InodeHandle;
use easy_kernel::image::FsImage;
use easy_kernel::mm::MapPermission;
use easy_kernel::process::{
    sys_exec, sys_exit, sys_fork, sys_get_time, sys_getpid, sys_mmap, sys_munmap,
    sys_set_priority, sys_spawn, sys_task_info, sys_waitpid, sys_yield, stride_for, TaskInfo,
    TimeVal,
};
use easy_kernel::task::{Kernel, TaskStatus};

fn boot() -> Kernel {
    let mut kernel = Kernel::new(vec![1, 2, 3]);
    kernel.dispatch(0, 10);
    kernel
}

fn disk() -> (EasyFileSystem, InodeHandle) {
    let mut image = FsImage::new(2, 8, 16);
    let root = InodeHandle::of_id(&image, 0);
    let app = root.create(&mut image, "app").unwrap();
    assert_eq!(app.write_at(&mut image, 0, &[7u8; 600]), 600);
    (EasyFileSystem::new(image), root)
}

#[test]
fn first_task_has_pid_0() {
    let kernel = boot();
    assert_eq!(sys_getpid(&kernel), 0);
}

#[test]
fn fork_returns_pid_and_0() {
    let mut kernel = boot();
    assert_eq!(sys_mmap(&mut kernel, 4096, 1, 1), 0);
    assert_eq!(sys_fork(&mut kernel), 1);
    let child = kernel.table().task(1);
    assert_eq!(child.return_value, 0);
    assert_eq!(child.parent, Some(0));
    assert_eq!(child.image, vec![1, 2, 3]);
    assert!(child.memory.pages.contains_key(&1));
    assert_eq!(child.status, TaskStatus::Ready);
    assert_eq!(kernel.table().ready, vec![1]);
    assert_eq!(sys_fork(&mut kernel), 2);
    assert_eq!(kernel.table().task(0).children, vec![1, 2]);
}

#[test]
fn wait_without_child_is_minus_1() {
    let mut kernel = boot();
    let mut code = 55;
    assert_eq!(sys_waitpid(&mut kernel, -1, &mut code), -1);
    sys_fork(&mut kernel);
    assert_eq!(sys_waitpid(&mut kernel, 2, &mut code), -1);
    assert_eq!(sys_waitpid(&mut kernel, -2, &mut code), -1);
    assert_eq!(code, 55);
}

#[test]
fn wait_for_running_child_is_minus_2() {
    let mut kernel = boot();
    let mut code = 55;
    sys_fork(&mut kernel);
    assert_eq!(sys_waitpid(&mut kernel, 1, &mut code), -2);
    assert_eq!(sys_waitpid(&mut kernel, -1, &mut code), -2);
    assert_eq!(code, 55);
}

#[test]
fn wait_collects_exit_code_once() {
    let mut kernel = boot();
    sys_fork(&mut kernel);
    sys_fork(&mut kernel);
    assert_eq!(sys_yield(&mut kernel), 0);
    kernel.dispatch(2, 20);
    sys_exit(&mut kernel, -7);
    kernel.dispatch(0, 30);
    let mut code = 0;
    assert_eq!(sys_waitpid(&mut kernel, 1, &mut code), -2);
    assert_eq!(sys_waitpid(&mut kernel, -1, &mut code), 2);
    assert_eq!(code, -7);
    assert!(!kernel.table().tasks.contains_key(&2));
    assert_eq!(kernel.table().task(0).children, vec![1]);
    assert_eq!(sys_waitpid(&mut kernel, 2, &mut code), -1);
}

#[test]
fn first_of_several_is_collected() {
    let mut kernel = boot();
    sys_fork(&mut kernel);
    sys_fork(&mut kernel);
    sys_yield(&mut kernel);
    kernel.dispatch(2, 20);
    sys_exit(&mut kernel, 22);
    kernel.dispatch(1, 21);
    sys_exit(&mut kernel, 11);
    kernel.dispatch(0, 30);
    let mut code = 0;
    assert_eq!(sys_waitpid(&mut kernel, -1, &mut code), 1);
    assert_eq!(code, 11);
    assert_eq!(sys_waitpid(&mut kernel, -1, &mut code), 2);
    assert_eq!(code, 22);
    assert_eq!(sys_waitpid(&mut kernel, -1, &mut code), -1);
}

#[test]
fn orphans_go_to_the_first_task() {
    let mut kernel = boot();
    sys_fork(&mut kernel);
    sys_yield(&mut kernel);
    kernel.dispatch(1, 20);
    sys_fork(&mut kernel);
    sys_exit(&mut kernel, 3);
    assert_eq!(kernel.table().current, None);
    assert_eq!(kernel.table().task(0).children, vec![1, 2]);
    assert_eq!(kernel.table().task(2).parent, Some(0));
    assert_eq!(kernel.table().task(1).status, TaskStatus::Zombie);
    assert!(kernel.table().task(1).image.is_empty());
}

#[test]
fn yield_puts_the_task_at_the_end() {
    let mut kernel = boot();
    sys_fork(&mut kernel);
    assert_eq!(sys_yield(&mut kernel), 0);
    assert_eq!(kernel.table().ready, vec![1, 0]);
    assert_eq!(kernel.table().current, None);
    kernel.dispatch(0, 99);
    assert_eq!(kernel.table().ready, vec![1]);
    assert_eq!(kernel.table().task(0).first_run_time, Some(10));
}

#[test]
fn exec_replaces_the_program() {
    let (fs, root) = disk();
    let mut kernel = boot();
    sys_mmap(&mut kernel, 4096, 1, 1);
    assert_eq!(sys_exec(&mut kernel, &fs, &root, "none"), -1);
    assert_eq!(kernel.table().task(0).image, vec![1, 2, 3]);
    assert_eq!(sys_exec(&mut kernel, &fs, &root, "app"), 0);
    assert_eq!(kernel.table().task(0).image, vec![7u8; 600]);
    assert!(kernel.table().task(0).memory.pages.is_empty());
}

#[test]
fn spawn_makes_a_child_without_the_parents_memory() {
    let (fs, root) = disk();
    let mut kernel = boot();
    sys_mmap(&mut kernel, 4096, 1, 1);
    assert_eq!(sys_spawn(&mut kernel, &fs, &root, "none"), -1);
    assert_eq!(sys_spawn(&mut kernel, &fs, &root, "app"), 1);
    assert_eq!(kernel.table().task(1).image, vec![7u8; 600]);
    assert!(kernel.table().task(1).memory.pages.is_empty());
    assert_eq!(kernel.table().task(1).return_value, 0);
    assert_eq!(kernel.table().task(0).children, vec![1]);
    assert_eq!(kernel.table().ready, vec![1]);
}

#[test]
fn time_is_split() {
    let mut ts = TimeVal { sec: 0, usec: 0 };
    assert_eq!(sys_get_time(12_345_678, &mut ts, 0), 0);
    assert_eq!(ts, TimeVal { sec: 12, usec: 345_678 });
}

#[test]
fn task_info_counts_from_the_first_run() {
    let kernel = boot();
    let mut info =
        TaskInfo { status: TaskStatus::Zombie, syscall_times: [1; MAX_SYSCALL_NUM], time: 1 };
    assert_eq!(sys_task_info(&kernel, 5_999, &mut info), 0);
    assert_eq!(info.status, TaskStatus::Running);
    assert_eq!(info.time, 5);
    assert!(info.syscall_times.iter().all(|&t| t == 0));
}

#[test]
fn priority_below_2_is_refused() {
    let mut kernel = boot();
    let before = kernel.table().task(0).stride;
    assert_eq!(sys_set_priority(&mut kernel, 1), -1);
    assert_eq!(sys_set_priority(&mut kernel, -5), -1);
    assert_eq!(kernel.table().task(0).stride, before);
}

#[test]
fn priority_sets_the_stride() {
    let mut kernel = boot();
    assert_eq!(sys_set_priority(&mut kernel, 4), 4);
    assert_eq!(kernel.table().task(0).stride, 262_144);
    assert_eq!(sys_set_priority(&mut kernel, isize::MAX), isize::MAX);
    assert_eq!(kernel.table().task(0).stride, 1);
    assert_eq!(stride_for(100, 3), 33);
    assert_eq!(stride_for(100, 101), 1);
}

#[test]
fn mmap_checks_its_arguments() {
    let mut kernel = boot();
    assert_eq!(sys_mmap(&mut kernel, 4097, 1, 1), -1);
    assert_eq!(sys_mmap(&mut kernel, 4096, 1, 0), -1);
    assert_eq!(sys_mmap(&mut kernel, 4096, 1, 8), -1);
    assert_eq!(sys_mmap(&mut kernel, 4096, 1, 9), -1);
    assert!(kernel.table().task(0).memory.pages.is_empty());
}

#[test]
fn mmap_maps_whole_pages() {
    let mut kernel = boot();
    assert_eq!(sys_mmap(&mut kernel, 8192, 4097, 3), 0);
    let pages = &kernel.table().task(0).memory.pages;
    assert_eq!(pages.len(), 2);
    assert_eq!(pages[&2], MapPermission { r: true, w: true, x: false, u: true });
    assert_eq!(pages[&3], MapPermission { r: true, w: true, x: false, u: true });
    assert_eq!(sys_mmap(&mut kernel, 12288, 1, 4), -1);
    assert_eq!(sys_mmap(&mut kernel, 4096, 4097, 4), -1);
    assert_eq!(sys_mmap(&mut kernel, 4096, 4096, 4), 0);
    assert_eq!(
        kernel.table().task(0).memory.pages[&1],
        MapPermission { r: false, w: false, x: true, u: true }
    );
    assert_eq!(sys_mmap(&mut kernel, 4096, 0, 7), 0);
}

#[test]
fn munmap_undoes_mmap() {
    let mut kernel = boot();
    assert_eq!(sys_mmap(&mut kernel, 4096, 8192, 1), 0);
    assert_eq!(sys_munmap(&mut kernel, 4096, 8193), -1);
    assert_eq!(sys_munmap(&mut kernel, 4097, 4095), -1);
    assert_eq!(sys_munmap(&mut kernel, usize::MAX - 4095, 8192), -1);
    assert_eq!(kernel.table().task(0).memory.pages.len(), 2);
    assert_eq!(sys_munmap(&mut kernel, 4096, 8192), 0);
    assert!(kernel.table().task(0).memory.pages.is_empty());
    assert_eq!(sys_munmap(&mut kernel, 4096, 8192), -1);
}

#[test]
fn first_task_keeps_its_children_when_it_exits() {
    let mut kernel = boot();
    sys_fork(&mut kernel);
    sys_exit(&mut kernel, 9);
    assert_eq!(kernel.table().current, None);
    assert_eq!(kernel.table().task(0).status, TaskStatus::Zombie);
    assert_eq!(kernel.table().task(0).exit_code, 9);
    assert_eq!(kernel.table().task(0).children, vec![1]);
    kernel.dispatch(1, 20);
    assert_eq!(sys_fork(&mut kernel), 2);
    sys_exit(&mut kernel, 1);
    assert_eq!(kernel.table().task(0).children, vec![1, 2]);
}
