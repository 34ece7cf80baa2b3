//! The process system calls.
use vstd::prelude::*;
use vstd::utf8::*;

use crate::config::{BIG_STRIDE, MAX_SYSCALL_NUM, PAGE_SIZE};
use crate::efs::EasyFileSystem;
use crate::handle::{InodeHandle, lemma_handle_of};
use crate::image::FsView;
use crate::mm::{
    MapPermission, MemorySet, can_munmap, ceil_page, floor_page, page_ceil, page_floor,
    range_unmapped, with_range, without_range,
};
use crate::task::{Kernel, KernelView, TaskStatus, TaskView};

verus! {

/// A time, in seconds and microseconds.
#[derive(Clone, Copy, PartialEq, Eq, Structural, Debug)]
pub struct TimeVal {
    pub sec: usize,
    pub usec: usize,
}

/// What is known of a task: its state, how often it made each system call, and the milliseconds
/// since it first ran.
#[derive(Clone, Copy)]
pub struct TaskInfo {
    pub status: TaskStatus,
    pub syscall_times: [u32; MAX_SYSCALL_NUM],
    pub time: usize,
}

/// The stride of a task of priority `prio`, if strides are taken from `big_stride`.
pub open spec fn stride_of(big_stride: int, prio: int) -> int {
    if big_stride / prio == 0 {
        1
    } else {
        big_stride / prio
    }
}

/// Child `c` is one that `sys_waitpid` of `pid` waits for.
pub open spec fn awaited(pid: int, c: usize) -> bool {
    pid == -1 || pid == c
}

/// The running task has a child that `sys_waitpid` of `pid` waits for.
pub open spec fn has_awaited(k: KernelView, pid: int) -> bool {
    exists|i: int| 0 <= i < k.cur().children.len() && awaited(pid, #[trigger] k.cur().children[i])
}

/// Place `i` of the running task's children is one that `sys_waitpid` of `pid` can collect.
pub open spec fn collectable(k: KernelView, pid: int, i: int) -> bool {
    &&& 0 <= i < k.cur().children.len()
    &&& awaited(pid, k.cur().children[i])
    &&& k.tasks[k.cur().children[i]].status == TaskStatus::Zombie
}

/// Place `i` is the first one that `sys_waitpid` of `pid` can collect.
pub open spec fn first_collectable(k: KernelView, pid: int, i: int) -> bool {
    &&& collectable(k, pid, i)
    &&& forall|j: int| 0 <= j < i ==> !#[trigger] collectable(k, pid, j)
}

/// `sys_waitpid` of `pid` takes the kernel from `pre` to `post`, the word for the exit code from
/// `code` to `new_code`, and returns `r`.
pub open spec fn waitpid_step(
    pre: KernelView,
    post: KernelView,
    pid: int,
    code: i32,
    new_code: i32,
    r: int,
) -> bool {
    if !has_awaited(pre, pid) {
        r == -1 && post == pre && new_code == code
    } else if forall|i: int| !#[trigger] collectable(pre, pid, i) {
        r == -2 && post == pre && new_code == code
    } else {
        exists|i: int|
            {
                &&& #[trigger] first_collectable(pre, pid, i)
                &&& r == pre.cur().children[i]
                &&& new_code == pre.tasks[pre.cur().children[i]].exit_code
                &&& post == pre.reaped(i)
            }
    }
}

/// What `sys_mmap` is asked for makes sense: the memory begins with a page, and `port` asks for
/// something and for nothing unknown.
pub open spec fn mmap_args_ok(start: int, port: int) -> bool {
    start % (PAGE_SIZE as int) == 0 && 1 <= port <= 7
}

/// What `port` lets the user do: bit 0 is reading, bit 1 writing, bit 2 executing.
pub open spec fn port_permission(port: int) -> MapPermission {
    MapPermission { r: port % 2 == 1, w: (port / 2) % 2 == 1, x: (port / 4) % 2 == 1, u: true }
}

/// The pages that `len` bytes from `start` on touch are all unmapped in the running task.
pub open spec fn mmap_range_free(k: KernelView, start: int, len: int) -> bool {
    range_unmapped(k.cur().memory, page_floor(start), page_ceil(start + len))
}

/// The kernel after the running task mapped memory.
pub open spec fn mmapped(k: KernelView, start: int, len: int, port: int) -> KernelView {
    k.with_cur(
        TaskView {
            memory: with_range(
                k.cur().memory,
                page_floor(start),
                page_ceil(start + len),
                port_permission(port),
            ),
            ..k.cur()
        },
    )
}

/// The kernel after the running task unmapped memory.
pub open spec fn munmapped(k: KernelView, start: int, len: int) -> KernelView {
    k.with_cur(
        TaskView {
            memory: without_range(k.cur().memory, page_floor(start), page_ceil(start + len)),
            ..k.cur()
        },
    )
}

/// The kernel after the running task began to run the program `image`.
pub open spec fn execed(k: KernelView, image: Seq<u8>) -> KernelView {
    k.with_cur(TaskView { image, memory: Map::empty(), return_value: 0, ..k.cur() })
}

/// The program that `path` stands for in the directory `root`, if there is one.
pub open spec fn program(fs: FsView, root: InodeHandle, path: Seq<u8>) -> Option<Seq<u8>> {
    match root.lookup_in(fs, path) {
        Some(id) => Some(fs.files[id as int].content),
        None => None,
    }
}

/// `path` can be looked up in the directory `root`, and stands for nothing or for an inode that
/// exists.
pub open spec fn can_open(fs: FsView, root: InodeHandle, path: Seq<u8>) -> bool {
    &&& root.is_dir_in(fs)
    &&& match root.lookup_in(fs, path) {
        Some(id) => id < fs.files.len(),
        None => true,
    }
}

/// `sys_exit` takes the kernel from `pre` to `post`.
pub open spec fn exit_step(pre: KernelView, post: KernelView, exit_code: i32) -> bool {
    post == pre.exited(exit_code)
}

/// `sys_yield` takes the kernel from `pre` to `post` and returns `r`.
pub open spec fn yield_step(pre: KernelView, post: KernelView, r: int) -> bool {
    post == pre.suspended() && r == 0
}

/// `sys_fork` takes the kernel from `pre` to `post` and returns `r`.
pub open spec fn fork_step(pre: KernelView, post: KernelView, r: int) -> bool {
    post == pre.with_child(pre.cur().image, pre.cur().memory) && r == pre.next_pid
}

/// `sys_exec` of `path` takes the kernel from `pre` to `post` and returns `r`.
pub open spec fn exec_step(
    pre: KernelView,
    post: KernelView,
    fs: FsView,
    root: InodeHandle,
    path: Seq<u8>,
    r: int,
) -> bool {
    match program(fs, root, path) {
        Some(image) => r == 0 && post == execed(pre, image),
        None => r == -1 && post == pre,
    }
}

/// `sys_spawn` of `path` takes the kernel from `pre` to `post` and returns `r`.
pub open spec fn spawn_step(
    pre: KernelView,
    post: KernelView,
    fs: FsView,
    root: InodeHandle,
    path: Seq<u8>,
    r: int,
) -> bool {
    match program(fs, root, path) {
        Some(image) => r == pre.next_pid && post == pre.with_child(image, Map::empty()),
        None => r == -1 && post == pre,
    }
}

/// `sys_set_priority` takes the kernel from `pre` to `post` and returns `r`.
pub open spec fn priority_step(pre: KernelView, post: KernelView, prio: int, r: int) -> bool {
    if prio < 2 {
        r == -1 && post == pre
    } else {
        r == prio && post == pre.with_cur(
            TaskView { stride: stride_of(BIG_STRIDE as int, prio) as u64, ..pre.cur() },
        )
    }
}

/// `sys_mmap` takes the kernel from `pre` to `post` and returns `r`.
pub open spec fn mmap_step(
    pre: KernelView,
    post: KernelView,
    start: int,
    len: int,
    port: int,
    r: int,
) -> bool {
    if mmap_args_ok(start, port) && mmap_range_free(pre, start, len) {
        r == 0 && post == mmapped(pre, start, len, port)
    } else {
        r == -1 && post == pre
    }
}

/// `sys_munmap` takes the kernel from `pre` to `post` and returns `r`.
pub open spec fn munmap_step(
    pre: KernelView,
    post: KernelView,
    start: int,
    len: int,
    r: int,
) -> bool {
    if can_munmap(pre.cur().memory, start, len) {
        r == 0 && post == munmapped(pre, start, len)
    } else {
        r == -1 && post == pre
    }
}

/// `sys_getpid` returns `r`.
pub open spec fn getpid_answer(k: KernelView, r: int) -> bool {
    r == k.current->0
}

/// `sys_get_time` writes down `ts` at `us` microseconds, and returns `r`.
pub open spec fn time_answer(us: int, ts: TimeVal, r: int) -> bool {
    ts.sec == us / 1000000 && ts.usec == us % 1000000 && r == 0
}

/// `sys_task_info` writes down `ti` at `us` microseconds, and returns `r`.
pub open spec fn info_answer(k: KernelView, us: int, ti: TaskInfo, r: int) -> bool {
    &&& ti.status == k.cur().status
    &&& ti.syscall_times@ == k.cur().syscall_times
    &&& ti.time == (us - k.cur().first_run_time->0) / 1000
    &&& r == 0
}

/// Ends the current task with `exit_code`. It never gets the processor again. Its children become
/// children of the first task; those of the first task stay its own.
pub fn sys_exit(kernel: &mut Kernel, exit_code: i32)
    requires
        old(kernel)@.running(),
    ensures
        old(kernel)@.wf(),
        final(kernel)@.wf(),
        exit_step(old(kernel)@, final(kernel)@, exit_code),
{
    let mut table = kernel.take_out();
    table.exit_current(exit_code);
    kernel.put_back(table);
}

/// The current task gives up the processor for other tasks.
pub fn sys_yield(kernel: &mut Kernel) -> (r: isize)
    requires
        old(kernel)@.running(),
    ensures
        old(kernel)@.wf(),
        final(kernel)@.wf(),
        yield_step(old(kernel)@, final(kernel)@, r as int),
{
    let mut table = kernel.take_out();
    table.suspend_current();
    kernel.put_back(table);
    0
}

/// The pid of the current task.
pub fn sys_getpid(kernel: &Kernel) -> (r: isize)
    requires
        kernel@.running(),
    ensures
        kernel@.wf(),
        getpid_answer(kernel@, r as int),
        r == kernel@.current->0,
{
    match kernel.table().current {
        Some(pid) => pid as isize,
        None => {
            assert(false);
            -1
        },
    }
}

/// Makes a copy of the current task. The copy finds 0 as what the call returned; the current task
/// gets the pid of the copy.
pub fn sys_fork(kernel: &mut Kernel) -> (r: isize)
    requires
        old(kernel)@.running(),
        old(kernel)@.next_pid < isize::MAX,
    ensures
        old(kernel)@.wf(),
        final(kernel)@.wf(),
        fork_step(old(kernel)@, final(kernel)@, r as int),
{
    let mut table = kernel.take_out();
    let (image, memory) = match table.current {
        Some(pid) => {
            let task = table.task(pid);
            (task.image.clone(), task.memory.duplicate())
        },
        None => {
            assert(false);
            (Vec::new(), MemorySet::new())
        },
    };
    assert(image@ =~= table@.cur().image);
    let new_pid = table.add_child(image, memory);
    kernel.put_back(table);
    new_pid as isize
}

/// Opens the program `path` in the directory `root` and reads it.
fn open_program(fs: &EasyFileSystem, root: &InodeHandle, path: &str) -> (r: Option<Vec<u8>>)
    requires
        can_open(fs@, *root, encode_utf8(path@)),
    ensures
        match program(fs@, *root, encode_utf8(path@)) {
            Some(image) => r matches Some(data) && data@ == image,
            None => r is None,
        },
{
    match fs.find(root, path) {
        Ok(Some(inode)) => {
            proof {
                lemma_handle_of(fs@, root.lookup_in(fs@, encode_utf8(path@))->0);
            }
            match fs.read_all(&inode) {
                Ok(all_data) => Some(all_data),
                Err(_) => None,
            }
        },
        _ => None,
    }
}

/// The current task goes on with the program `path`; -1 where there is none.
pub fn sys_exec(kernel: &mut Kernel, fs: &EasyFileSystem, root: &InodeHandle, path: &str) -> (r:
    isize)
    requires
        old(kernel)@.running(),
        can_open(fs@, *root, encode_utf8(path@)),
    ensures
        old(kernel)@.wf(),
        final(kernel)@.wf(),
        exec_step(old(kernel)@, final(kernel)@, fs@, *root, encode_utf8(path@), r as int),
{
    let mut table = kernel.take_out();
    let r: isize = match open_program(fs, root, path) {
        Some(all_data) => {
            let ghost before = table@;
            let (pid, mut task) = table.take_current();
            task.image = all_data;
            task.memory = MemorySet::new();
            task.return_value = 0;
            table.put_current(pid, task, Ghost(before));
            0
        },
        None => -1,
    };
    kernel.put_back(table);
    r
}

/// Collects a child of the current task that has exited, and writes down its exit code.
///
/// If there is not a child whose pid is the same as given, returns -1; -1 stands for any child.
/// Else if there is such a child but it is still running, returns -2.
pub fn sys_waitpid(kernel: &mut Kernel, pid: isize, exit_code: &mut i32) -> (r: isize)
    requires
        old(kernel)@.running(),
    ensures
        old(kernel)@.wf(),
        final(kernel)@.wf(),
        waitpid_step(
            old(kernel)@,
            final(kernel)@,
            pid as int,
            *old(exit_code),
            *final(exit_code),
            r as int,
        ),
{
    let mut table = kernel.take_out();
    let current: usize = match table.current {
        Some(current) => current,
        None => {
            assert(false);
            0
        },
    };
    let ghost k = table@;
    let count: usize = table.task(current).children.len();
    let mut any: bool = false;
    let mut found: Option<usize> = None;
    let mut i: usize = 0;
    while i < count
        invariant
            i <= count,
            k == table@,
            k.wf(),
            k.current == Some(current),
            count == k.cur().children.len(),
            any == exists|j: int| 0 <= j < i && awaited(pid as int, #[trigger] k.cur().children[j]),
            match found {
                Some(m) => m < i && first_collectable(k, pid as int, m as int),
                None => forall|j: int| 0 <= j < i ==> !#[trigger] collectable(k, pid as int, j),
            },
        decreases count - i,
    {
        let child: usize = table.task(current).children[i];
        assert(k.is_child(current, k.tasks[current].children[i as int]));
        if pid == -1 || (pid >= 0 && pid as usize == child) {
            assert(awaited(pid as int, k.cur().children[i as int]));
            any = true;
            if found.is_none() {
                match table.task(child).status {
                    TaskStatus::Zombie => {
                        assert(collectable(k, pid as int, i as int));
                        found = Some(i);
                    },
                    _ => {},
                }
            }
        }
        i = i + 1;
    }
    if !any {
        kernel.put_back(table);
        return -1;
    }
    let r: isize = match found {
        Some(idx) => {
            assert(first_collectable(k, pid as int, idx as int));
            assert(k.is_child(current, k.tasks[current].children[idx as int]));
            let (found_pid, code) = table.reap(idx);
            *exit_code = code;
            assert(collectable(k, pid as int, idx as int));
            found_pid as isize
        },
        None => -2,
    };
    kernel.put_back(table);
    r
}

/// Writes down the time, given `us`, the microseconds that have passed.
pub fn sys_get_time(us: usize, ts: &mut TimeVal, _tz: usize) -> (r: isize)
    ensures
        time_answer(us as int, *final(ts), r as int),
        final(ts).sec == us / 1000000,
        final(ts).usec == us % 1000000,
        final(ts).sec * 1000000 + final(ts).usec == us,
        final(ts).usec < 1000000,
        r == 0,
{
    ts.sec = us / 1000000;
    ts.usec = us % 1000000;
    0
}

/// Writes down what is known of the current task, given `us`, the microseconds that have passed.
pub fn sys_task_info(kernel: &Kernel, us: usize, ti: &mut TaskInfo) -> (r: isize)
    requires
        kernel@.running(),
        us >= kernel@.cur().first_run_time->0,
    ensures
        kernel@.wf(),
        info_answer(kernel@, us as int, *final(ti), r as int),
        final(ti).status == kernel@.cur().status,
        final(ti).syscall_times@ == kernel@.cur().syscall_times,
        final(ti).time == (us - kernel@.cur().first_run_time->0) / 1000,
        r == 0,
        final(ti).time * 1000 <= us - kernel@.cur().first_run_time->0 < (final(ti).time + 1) * 1000,
{
    let table = kernel.table();
    match table.current {
        Some(pid) => {
            let task = table.task(pid);
            let first: usize = match task.first_run_time {
                Some(t) => t,
                None => {
                    assert(false);
                    0
                },
            };
            *ti = TaskInfo {
                status: task.status,
                syscall_times: task.syscall_times,
                time: (us - first) / 1000,
            };
        },
        None => {
            assert(false);
        },
    }
    0
}

/// The stride of a task of priority `prio`, if strides are taken from `big_stride`.
pub fn stride_for(big_stride: u64, prio: isize) -> (t: u64)
    requires
        prio >= 1,
    ensures
        t == stride_of(big_stride as int, prio as int),
{
    let t: u64 = big_stride / (prio as u64);
    if t == 0 {
        1
    } else {
        t
    }
}

/// Gives the current task the priority `prio`, which is at least 2.
pub fn sys_set_priority(kernel: &mut Kernel, prio: isize) -> (r: isize)
    requires
        prio >= 2 ==> old(kernel)@.running(),
    ensures
        old(kernel)@.wf(),
        final(kernel)@.wf(),
        priority_step(old(kernel)@, final(kernel)@, prio as int, r as int),
{
    let mut table = kernel.take_out();
    if prio < 2 {
        kernel.put_back(table);
        return -1;
    }
    let ghost before = table@;
    let (pid, mut task) = table.take_current();
    task.stride = stride_for(BIG_STRIDE, prio);
    table.put_current(pid, task, Ghost(before));
    kernel.put_back(table);
    prio
}

/// Maps the pages that `len` bytes from `start` on touch. What the user may do with them is in the
/// bits of `port`. Returns -1 where `start` does not begin a page, where `port` asks for nothing or
/// for something unknown, and where one of the pages is mapped already.
pub fn sys_mmap(kernel: &mut Kernel, start: usize, len: usize, port: usize) -> (r: isize)
    requires
        mmap_args_ok(start as int, port as int) ==> {
            &&& old(kernel)@.running()
            &&& start + len <= usize::MAX
        },
    ensures
        old(kernel)@.wf(),
        final(kernel)@.wf(),
        mmap_step(
            old(kernel)@,
            final(kernel)@,
            start as int,
            len as int,
            port as int,
            r as int,
        ),
{
    proof {
        assert(start & 4095 == start % 4096) by (bit_vector);
        assert(port & !7usize == 0 && port & 7 != 0 <==> 1 <= port <= 7) by (bit_vector);
        assert(port <= 7 ==> (port & 1 != 0 <==> port % 2 == 1)) by (bit_vector);
        assert(port <= 7 ==> (port & 2 != 0 <==> (port / 2) % 2 == 1)) by (bit_vector);
        assert(port <= 7 ==> (port & 4 != 0 <==> (port / 4) % 2 == 1)) by (bit_vector);
    }
    let mut table = kernel.take_out();
    if start & (PAGE_SIZE - 1) != 0 {
        kernel.put_back(table);
        return -1;
    }
    if port & !7usize != 0 || port & 7 == 0 {
        kernel.put_back(table);
        return -1;
    }
    let first = floor_page(start);
    let end = ceil_page(start + len);
    let permission = MapPermission {
        r: port & 1 != 0,
        w: port & 2 != 0,
        x: port & 4 != 0,
        u: true,
    };
    assert(permission == port_permission(port as int));
    let ghost before = table@;
    let (pid, mut task) = table.take_current();
    let ok = task.memory.mmap(first, end, permission);
    table.put_current(pid, task, Ghost(before));
    kernel.put_back(table);
    if !ok {
        assert(kernel@.tasks =~= before.tasks);
        return -1;
    }
    0
}

/// Unmaps the pages that `len` bytes from `start` on touch. Returns -1 where `start` does not begin
/// a page, and where one of the pages is not mapped.
pub fn sys_munmap(kernel: &mut Kernel, start: usize, len: usize) -> (r: isize)
    requires
        old(kernel)@.running(),
    ensures
        old(kernel)@.wf(),
        final(kernel)@.wf(),
        munmap_step(old(kernel)@, final(kernel)@, start as int, len as int, r as int),
{
    let mut table = kernel.take_out();
    let ghost before = table@;
    let (pid, mut task) = table.take_current();
    let ok = task.memory.munmap(start, len);
    table.put_current(pid, task, Ghost(before));
    kernel.put_back(table);
    if !ok {
        assert(kernel@.tasks =~= before.tasks);
        return -1;
    }
    0
}

/// Makes a child of the current task that runs the program `path`, without copying the memory of
/// the current task; -1 where there is no such program.
pub fn sys_spawn(kernel: &mut Kernel, fs: &EasyFileSystem, root: &InodeHandle, path: &str) -> (r:
    isize)
    requires
        old(kernel)@.running(),
        can_open(fs@, *root, encode_utf8(path@)),
        program(fs@, *root, encode_utf8(path@)) is Some ==> old(kernel)@.next_pid < isize::MAX,
    ensures
        old(kernel)@.wf(),
        final(kernel)@.wf(),
        spawn_step(old(kernel)@, final(kernel)@, fs@, *root, encode_utf8(path@), r as int),
{
    let mut table = kernel.take_out();
    let r: isize = match open_program(fs, root, path) {
        Some(all_data) => {
            let new_pid = table.add_child(all_data, MemorySet::new());
            new_pid as isize
        },
        None => -1,
    };
    kernel.put_back(table);
    r
}

} // verus!
