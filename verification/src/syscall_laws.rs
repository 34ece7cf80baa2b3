//! What each system call does, said of the tasks, the queue and the memory that it leaves behind.
use vstd::prelude::*;

use crate::config::BIG_STRIDE;
use crate::dirent::{lookup, plain_name};
use crate::efs::{create_step, write_step};
use crate::file_laws::{law_create, law_write, lemma_points_at, points_at};
use crate::fs_laws::law_create_then_find;
use crate::handle::InodeHandle;
use crate::image::FsView;
use crate::layout::DiskInodeType;
use crate::mm::{
    MapPermission, page_ceil, page_floor, range_mapped, range_unmapped, with_range, without_range,
};
use crate::process::{
    TaskInfo, TimeVal, awaited, can_open, collectable, exec_step, exit_step, first_collectable,
    fork_step, getpid_answer, has_awaited, info_answer, mmap_step, munmap_step, priority_step,
    spawn_step, stride_of, time_answer, waitpid_step, yield_step,
};
use crate::task::{KernelView, TaskStatus, TaskView, booted, fresh_task};

verus! {

/// `sys_waitpid` by the task `p` of the child `pid`, or of any child where `pid` is -1. It returns
/// -1 just where there is no such child, and -2 just where there are such children and none of them
/// has exited; nothing changes then. Else it returns the pid of the first such child that has
/// exited, with its exit code, and that child is no task any more and no child of `p`. Nothing else
/// changes.
pub proof fn law_waitpid(
    k: KernelView,
    post: KernelView,
    p: usize,
    pid: int,
    code: i32,
    new_code: i32,
    r: int,
)
    requires
        k.current == Some(p),
        waitpid_step(k, post, pid, code, new_code, r),
    ensures
        r == -1 <==> if pid == -1 {
            k.tasks[p].children.len() == 0
        } else {
            forall|i: int|
                0 <= i < k.tasks[p].children.len() ==> #[trigger] k.tasks[p].children[i] != pid
        },
        r == -2 <==> {
            &&& if pid == -1 {
                k.tasks[p].children.len() > 0
            } else {
                exists|i: int|
                    0 <= i < k.tasks[p].children.len() && #[trigger] k.tasks[p].children[i] == pid
            }
            &&& forall|i: int|
                0 <= i < k.tasks[p].children.len() && (pid == -1 || pid == #[trigger]
                    k.tasks[p].children[i]) ==> k.tasks[k.tasks[p].children[i]].status
                    != TaskStatus::Zombie
        },
        r < 0 ==> (r == -1 || r == -2) && post == k && new_code == code,
        r >= 0 ==> exists|i: int|
            {
                &&& 0 <= i < k.tasks[p].children.len()
                &&& r == #[trigger] k.tasks[p].children[i]
                &&& pid == -1 || pid == r
                &&& k.tasks[k.tasks[p].children[i]].status == TaskStatus::Zombie
                &&& forall|j: int|
                    0 <= j < i && (pid == -1 || pid == #[trigger] k.tasks[p].children[j])
                        ==> k.tasks[k.tasks[p].children[j]].status != TaskStatus::Zombie
                &&& new_code == k.tasks[k.tasks[p].children[i]].exit_code
                &&& post == (KernelView {
                    tasks: k.tasks.insert(
                        p,
                        TaskView { children: k.tasks[p].children.remove(i), ..k.tasks[p] },
                    ).remove(k.tasks[p].children[i]),
                    ..k
                })
            },
{
    let ch = k.tasks[p].children;
    assert(k.cur() == k.tasks[p]);
    if !has_awaited(k, pid) {
        assert forall|i: int| 0 <= i < ch.len() implies #[trigger] ch[i] != pid by {
            assert(!awaited(pid, k.cur().children[i]));
        }
        if ch.len() > 0 {
            assert(!awaited(pid, k.cur().children[0]));
        }
    } else {
        let c = choose|c: int|
            0 <= c < k.cur().children.len() && awaited(pid, #[trigger] k.cur().children[c]);
        assert(awaited(pid, ch[c]));
        if forall|i: int| !#[trigger] collectable(k, pid, i) {
            assert forall|i: int|
                0 <= i < ch.len() && (pid == -1 || pid == #[trigger] ch[i]) implies
                k.tasks[ch[i]].status != TaskStatus::Zombie by {
                assert(!collectable(k, pid, i));
            }
        } else {
            let i = choose|i: int|
                {
                    &&& #[trigger] first_collectable(k, pid, i)
                    &&& r == k.cur().children[i]
                    &&& new_code == k.tasks[k.cur().children[i]].exit_code
                    &&& post == k.reaped(i)
                };
            let child: usize = ch[i];
            assert(r == child);
            assert(collectable(k, pid, i));
            assert(awaited(pid, child));
            assert(k.tasks[ch[i]].status == TaskStatus::Zombie);
            assert forall|j: int|
                0 <= j < i && (pid == -1 || pid == #[trigger] ch[j]) implies k.tasks[ch[j]].status
                != TaskStatus::Zombie by {
                assert(!collectable(k, pid, j));
            }
        }
    }
}

/// A task of which some child has exited never waits in vain for any child: it gets the pid and the
/// exit code of a child that has exited, and that child is gone.
pub proof fn law_wait_for_any(
    k: KernelView,
    post: KernelView,
    p: usize,
    child: usize,
    code: i32,
    new_code: i32,
    r: int,
)
    requires
        k.wf(),
        k.current == Some(p),
        waitpid_step(k, post, -1, code, new_code, r),
        k.tasks[p].children.contains(child),
        k.tasks[child].status == TaskStatus::Zombie,
    ensures
        0 <= r <= usize::MAX,
        k.tasks[p].children.contains(r as usize),
        k.tasks[r as usize].status == TaskStatus::Zombie,
        new_code == k.tasks[r as usize].exit_code,
        !post.tasks.contains_key(r as usize),
        !post.tasks[p].children.contains(r as usize),
        post.tasks.contains_key(p),
{
    law_waitpid(k, post, p, -1, code, new_code, r);
    let ch = k.tasks[p].children;
    let at = choose|i: int| 0 <= i < ch.len() && ch[i] == child;
    assert(ch[at] == child);
    assert(r >= 0);
    let i = choose|i: int|
        {
            &&& 0 <= i < ch.len()
            &&& r == #[trigger] ch[i]
            &&& k.tasks[ch[i]].status == TaskStatus::Zombie
            &&& new_code == k.tasks[ch[i]].exit_code
            &&& post == (KernelView {
                tasks: k.tasks.insert(
                    p,
                    TaskView { children: ch.remove(i), ..k.tasks[p] },
                ).remove(ch[i]),
                ..k
            })
        };
    assert(k.tasks.contains_key(p));
    assert(ch.contains(ch[i]));
    assert(k.is_child(p, k.tasks[p].children[i]));
    if post.tasks[p].children.contains(r as usize) {
        let j = choose|j: int|
            0 <= j < post.tasks[p].children.len() && post.tasks[p].children[j] == r as usize;
        if j < i {
            assert(ch[j] == ch[i]);
        } else {
            assert(ch[j + 1] == ch[i]);
        }
    }
}

/// Which paths can be opened: those that can be looked up in a directory, and that stand for nothing
/// or for an inode that exists.
pub proof fn law_can_open(fs: FsView, root: InodeHandle, d: int, path: Seq<u8>)
    requires
        fs.sound(),
        points_at(root, fs, d),
    ensures
        can_open(fs, root, path) <==> {
            &&& fs.files[d].kind == DiskInodeType::Directory
            &&& lookup(fs.files[d].content, path) matches Some(id) ==> id < fs.files.len()
        },
{
    lemma_points_at(root, fs, d);
}

/// `sys_exec` by the task `p`: where `path` stands for a file in the directory `root`, the task runs
/// the whole of that file from then on, with nothing mapped; all else that is known of the task, and
/// every other task, stays as it is. Where `path` stands for nothing, -1 is returned and nothing
/// changes.
pub proof fn law_exec(
    k: KernelView,
    post: KernelView,
    p: usize,
    fs: FsView,
    root: InodeHandle,
    d: int,
    path: Seq<u8>,
    r: int,
)
    requires
        k.wf(),
        k.current == Some(p),
        fs.sound(),
        points_at(root, fs, d),
        can_open(fs, root, path),
        exec_step(k, post, fs, root, path, r),
    ensures
        match lookup(fs.files[d].content, path) {
            Some(id) => {
                &&& r == 0
                &&& post.tasks[p].image == fs.files[id as int].content
                &&& post == (KernelView {
                    tasks: k.tasks.insert(
                        p,
                        TaskView {
                            image: fs.files[id as int].content,
                            memory: Map::empty(),
                            return_value: 0,
                            ..k.tasks[p]
                        },
                    ),
                    ..k
                })
            },
            None => r == -1 && post == k,
        },
{
    lemma_points_at(root, fs, d);
}

/// The task `p` has a new child, whose pid `r` no task had. The child waits for the processor behind
/// all others, has never run, has no children, and finds 0 as what its system call returned; it has
/// the given program and memory. No task but `p` changes, and `p` has the new child behind those
/// that it had.
spec fn gained_child(
    k: KernelView,
    post: KernelView,
    p: usize,
    image: Seq<u8>,
    memory: Map<usize, MapPermission>,
    r: int,
) -> bool {
    &&& 0 < r <= isize::MAX
    &&& r == k.next_pid
    &&& !k.tasks.contains_key(r as usize)
    &&& post.next_pid == r + 1
    &&& post.current == k.current
    &&& post.ready == k.ready.push(r as usize)
    &&& forall|q: usize| #[trigger]
        post.tasks.contains_key(q) <==> k.tasks.contains_key(q) || q == r
    &&& post.tasks[p] == (TaskView {
        children: k.tasks[p].children.push(r as usize),
        ..k.tasks[p]
    })
    &&& forall|q: usize|
        k.tasks.contains_key(q) && q != p ==> #[trigger] post.tasks[q] == k.tasks[q]
    &&& post.tasks[r as usize].image == image
    &&& post.tasks[r as usize].memory == memory
    &&& post.tasks[r as usize].parent == Some(p)
    &&& post.tasks[r as usize].children.len() == 0
    &&& post.tasks[r as usize].status == TaskStatus::Ready
    &&& post.tasks[r as usize].exit_code == 0
    &&& post.tasks[r as usize].return_value == 0
    &&& post.tasks[r as usize].first_run_time is None
    &&& post.tasks[r as usize].stride * 16 == BIG_STRIDE
    &&& post.tasks[r as usize].syscall_times.len() == 500
    &&& forall|i: int| 0 <= i < 500 ==> #[trigger] post.tasks[r as usize].syscall_times[i] == 0
}

proof fn lemma_gained_child(
    k: KernelView,
    p: usize,
    image: Seq<u8>,
    memory: Map<usize, MapPermission>,
)
    requires
        k.wf(),
        k.current == Some(p),
        k.next_pid < isize::MAX,
    ensures
        gained_child(k, k.with_child(image, memory), p, image, memory, k.next_pid),
{
    assert(k.tasks.contains_key(0usize));
    assert(k.tasks.contains_key(p));
}

/// `sys_fork` by the task `p` makes a child that has the same program and the same memory. Its pid,
/// which is returned, no task had; it waits for the processor behind all others, has never run, has
/// no children, and finds 0 as what its system call returned. It comes behind the children that `p`
/// had, and no other task changes.
pub proof fn law_fork(k: KernelView, post: KernelView, p: usize, r: int)
    requires
        k.wf(),
        k.current == Some(p),
        k.next_pid < isize::MAX,
        fork_step(k, post, r),
    ensures
        ({
            let pid = r as usize;
            &&& 0 < r <= isize::MAX
            &&& r == k.next_pid
            &&& !k.tasks.contains_key(pid)
            &&& post.next_pid == r + 1
            &&& post.current == k.current
            &&& post.ready == k.ready.push(pid)
            &&& forall|q: usize| #[trigger]
                post.tasks.contains_key(q) <==> k.tasks.contains_key(q) || q == pid
            &&& post.tasks[p] == (TaskView {
                children: k.tasks[p].children.push(pid),
                ..k.tasks[p]
            })
            &&& forall|q: usize|
                k.tasks.contains_key(q) && q != p ==> #[trigger] post.tasks[q] == k.tasks[q]
            &&& post.tasks[pid].image == k.tasks[p].image
            &&& post.tasks[pid].memory == k.tasks[p].memory
            &&& post.tasks[pid].parent == Some(p)
            &&& post.tasks[pid].children.len() == 0
            &&& post.tasks[pid].status == TaskStatus::Ready
            &&& post.tasks[pid].exit_code == 0
            &&& post.tasks[pid].return_value == 0
            &&& post.tasks[pid].first_run_time is None
            &&& post.tasks[pid].stride * 16 == BIG_STRIDE
            &&& post.tasks[pid].syscall_times.len() == 500
            &&& forall|i: int| 0 <= i < 500 ==> #[trigger] post.tasks[pid].syscall_times[i] == 0
        }),
{
    lemma_gained_child(k, p, k.tasks[p].image, k.tasks[p].memory);
}

/// `sys_spawn` by the task `p`: where `path` stands for a file in the directory `root`, it makes a
/// child that runs the whole of that file, with nothing mapped; all else is as it is for a child that
/// is forked. Where `path` stands for nothing, -1 is returned and nothing changes.
pub proof fn law_spawn(
    k: KernelView,
    post: KernelView,
    p: usize,
    fs: FsView,
    root: InodeHandle,
    d: int,
    path: Seq<u8>,
    r: int,
)
    requires
        k.wf(),
        k.current == Some(p),
        k.next_pid < isize::MAX,
        fs.sound(),
        points_at(root, fs, d),
        can_open(fs, root, path),
        spawn_step(k, post, fs, root, path, r),
    ensures
        match lookup(fs.files[d].content, path) {
            Some(id) => {
                let pid = r as usize;
                &&& 0 < r <= isize::MAX
                &&& r == k.next_pid
                &&& !k.tasks.contains_key(pid)
                &&& post.next_pid == r + 1
                &&& post.current == k.current
                &&& post.ready == k.ready.push(pid)
                &&& forall|q: usize| #[trigger]
                    post.tasks.contains_key(q) <==> k.tasks.contains_key(q) || q == pid
                &&& post.tasks[p] == (TaskView {
                    children: k.tasks[p].children.push(pid),
                    ..k.tasks[p]
                })
                &&& forall|q: usize|
                    k.tasks.contains_key(q) && q != p ==> #[trigger] post.tasks[q] == k.tasks[q]
                &&& post.tasks[pid].image == fs.files[id as int].content
                &&& post.tasks[pid].memory == Map::<usize, MapPermission>::empty()
                &&& post.tasks[pid].parent == Some(p)
                &&& post.tasks[pid].children.len() == 0
                &&& post.tasks[pid].status == TaskStatus::Ready
                &&& post.tasks[pid].exit_code == 0
                &&& post.tasks[pid].return_value == 0
                &&& post.tasks[pid].first_run_time is None
                &&& post.tasks[pid].stride * 16 == BIG_STRIDE
                &&& post.tasks[pid].syscall_times.len() == 500
                &&& forall|i: int| 0 <= i < 500 ==> #[trigger] post.tasks[pid].syscall_times[i] == 0
            },
            None => r == -1 && post == k,
        },
{
    lemma_points_at(root, fs, d);
    if let Some(id) = lookup(fs.files[d].content, path) {
        lemma_gained_child(k, p, fs.files[id as int].content, Map::empty());
    }
}

/// A program that is made under a new name and written in one go is the one that runs: the task that
/// executes the name has just the bytes that were written as its program, and so has the child that
/// is spawned from it.
pub proof fn law_program_runs_as_written(
    fs0: FsView,
    fs1: FsView,
    fs2: FsView,
    root: InodeHandle,
    d: int,
    path: Seq<u8>,
    made: InodeHandle,
    buf: Seq<u8>,
    written: usize,
    k: KernelView,
    p: usize,
    execed: KernelView,
    r: int,
    spawned: KernelView,
    child: int,
)
    requires
        fs0.sound(),
        points_at(root, fs0, d),
        plain_name(path),
        create_step(fs0, fs1, root, path, Ok(Some(made))),
        write_step(fs1, fs2, made, 0, buf, Ok(written)),
        buf.len() <= u32::MAX,
        k.wf(),
        k.current == Some(p),
        k.next_pid < isize::MAX,
        exec_step(k, execed, fs2, root, path, r),
        spawn_step(k, spawned, fs2, root, path, child),
    ensures
        r == 0,
        execed.tasks[p].image == buf,
        child == k.next_pid,
        spawned.tasks[child as usize].image == buf,
{
    law_create(fs0, fs1, root, d, path, Ok(Some(made)));
    let id = made.inode_id as int;
    law_create_then_find(fs0, d, path);
    lemma_points_at(root, fs0, d);
    lemma_points_at(made, fs1, id);
    law_write(fs1, fs2, made, id, 0, buf, Ok(written));
    lemma_points_at(root, fs2, d);
    assert(fs2.files[d] == fs1.files[d]);
    assert(fs2.files[id].content =~= buf);
    assert(fs2.sound());
    law_exec(k, execed, p, fs2, root, d, path, r);
    law_spawn(k, spawned, p, fs2, root, d, path, child);
}

/// `sys_exit` by the task `p`: it has exited with the given code, keeps its parent, and has neither
/// program nor memory; nobody has the processor. Its children become children of the first task,
/// behind those that it had, unless `p` is the first task. Nothing else changes.
pub proof fn law_exit(k: KernelView, post: KernelView, p: usize, exit_code: i32)
    requires
        k.wf(),
        k.current == Some(p),
        exit_step(k, post, exit_code),
    ensures
        post.current is None,
        post.ready == k.ready,
        post.next_pid == k.next_pid,
        forall|q: usize| #[trigger] post.tasks.contains_key(q) <==> k.tasks.contains_key(q),
        post.tasks[p] == (TaskView {
            status: TaskStatus::Zombie,
            exit_code,
            children: if p == 0 {
                k.tasks[p].children
            } else {
                Seq::empty()
            },
            image: Seq::empty(),
            memory: Map::empty(),
            ..k.tasks[p]
        }),
        p != 0 ==> post.tasks[0usize] == (TaskView {
            children: k.tasks[0usize].children + k.tasks[p].children,
            ..k.tasks[0usize]
        }),
        forall|q: usize|
            k.tasks.contains_key(q) && q != p && q != 0 ==> #[trigger] post.tasks[q] == if
                k.tasks[q].parent == Some(p) {
                TaskView { parent: Some(0usize), ..k.tasks[q] }
            } else {
                k.tasks[q]
            },
{
    assert(k.tasks.contains_key(p));
    assert(k.tasks.contains_key(0usize));
    assert forall|q: usize| k.tasks.contains_key(q) && q != p && q != 0 implies
        #[trigger] post.tasks[q] == if k.tasks[q].parent == Some(p) {
        TaskView { parent: Some(0usize), ..k.tasks[q] }
    } else {
        k.tasks[q]
    } by {
        if k.tasks[p].children.contains(q) {
            let i = choose|i: int|
                0 <= i < k.tasks[p].children.len() && k.tasks[p].children[i] == q;
            assert(k.is_child(p, k.tasks[p].children[i]));
        }
    }
}

/// `sys_yield` by the task `p` puts it behind all others that wait for the processor, which nobody
/// has then; it returns 0, and nothing else changes.
pub proof fn law_yield(k: KernelView, post: KernelView, p: usize, r: int)
    requires
        k.wf(),
        k.current == Some(p),
        yield_step(k, post, r),
    ensures
        r == 0,
        post == (KernelView {
            tasks: k.tasks.insert(p, TaskView { status: TaskStatus::Ready, ..k.tasks[p] }),
            ready: k.ready.push(p),
            current: None,
            next_pid: k.next_pid,
        }),
{
}

/// The task that gets the processor runs and does not wait any more; the others wait in the order in
/// which they did. The time at which a task first ran is the time at which it first got the
/// processor. Nothing else changes.
pub proof fn law_dispatch(k: KernelView, pid: usize, now: usize, i: int)
    requires
        k.wf(),
        !k.running(),
        0 <= i < k.ready.len(),
        k.ready[i] == pid,
    ensures
        k.dispatched(pid, now) == (KernelView {
            tasks: k.tasks.insert(
                pid,
                TaskView {
                    status: TaskStatus::Running,
                    first_run_time: if k.tasks[pid].first_run_time is None {
                        Some(now)
                    } else {
                        k.tasks[pid].first_run_time
                    },
                    ..k.tasks[pid]
                },
            ),
            ready: k.ready.remove(i),
            current: Some(pid),
            next_pid: k.next_pid,
        }),
{
    assert(k.ready.contains(pid));
    assert(k.ready[k.ready.index_of(pid)] == pid);
    assert(k.ready.index_of(pid) == i);
}

/// `sys_set_priority` by the task `p`: a priority below 2 is refused with -1 and changes nothing.
/// Any other is returned, and the stride of the task becomes the whole part of `BIG_STRIDE` over it,
/// but at least 1. Nothing else changes.
pub proof fn law_set_priority(k: KernelView, post: KernelView, p: usize, prio: isize, r: int)
    requires
        k.wf(),
        k.current == Some(p),
        priority_step(k, post, prio as int, r),
    ensures
        prio < 2 ==> r == -1 && post == k,
        prio >= 2 ==> {
            let stride = post.tasks[p].stride;
            &&& r == prio
            &&& stride >= 1
            &&& stride * prio <= BIG_STRIDE || stride == 1
            &&& BIG_STRIDE < (stride + 1) * prio
            &&& post == (KernelView {
                tasks: k.tasks.insert(p, TaskView { stride, ..k.tasks[p] }),
                ..k
            })
        },
{
    if prio >= 2 {
        let q = BIG_STRIDE as int / (prio as int);
        vstd::arithmetic::div_mod::lemma_fundamental_div_mod(BIG_STRIDE as int, prio as int);
        vstd::arithmetic::div_mod::lemma_mod_bound(BIG_STRIDE as int, prio as int);
        vstd::arithmetic::div_mod::lemma_div_is_ordered_by_denominator(
            BIG_STRIDE as int,
            1,
            prio as int,
        );
        vstd::arithmetic::div_mod::lemma_div_pos_is_pos(BIG_STRIDE as int, prio as int);
        assert(0 <= q <= BIG_STRIDE);
        assert(q * prio == prio * q) by (nonlinear_arith);
        assert((q + 1) * prio == q * prio + prio) by (nonlinear_arith);
        assert((1 + 1) * prio == prio + prio) by (nonlinear_arith);
    }
}

/// `sys_mmap` by the task `p`. It returns 0 just where `start` begins a page, where of the bits of
/// `port` the lowest three are not all clear and all others are, and where none of the pages that
/// the bytes lie in is mapped; else it returns -1 and nothing changes. Where it returns 0, just those
/// pages are mapped besides what was: for the user, to be read if bit 0 of `port` is set, written if
/// bit 1 is, executed if bit 2 is. What was mapped is as it was, and nothing else changes.
pub proof fn law_mmap(
    k: KernelView,
    post: KernelView,
    p: usize,
    start: usize,
    len: usize,
    port: usize,
    r: int,
)
    requires
        k.wf(),
        k.current == Some(p),
        start + len <= usize::MAX,
        mmap_step(k, post, start as int, len as int, port as int, r),
    ensures
        r == 0 || r == -1,
        r == -1 ==> post == k,
        r == 0 <==> {
            &&& start % 4096 == 0
            &&& port & 7 != 0
            &&& port & !7usize == 0
            &&& forall|v: usize|
                start <= v * 4096 < start + len ==> !#[trigger] k.tasks[p].memory.contains_key(v)
        },
        r == 0 ==> {
            let before = k.tasks[p].memory;
            let after = post.tasks[p].memory;
            &&& post == (KernelView {
                tasks: k.tasks.insert(p, TaskView { memory: after, ..k.tasks[p] }),
                ..k
            })
            &&& forall|v: usize| #[trigger]
                after.contains_key(v) <==> before.contains_key(v) || start <= v * 4096 < start + len
            &&& forall|v: usize| #[trigger] before.contains_key(v) ==> after[v] == before[v]
            &&& forall|v: usize|
                start <= v * 4096 < start + len ==> {
                    &&& (#[trigger] after[v]).r <==> port & 1 != 0
                    &&& after[v].w <==> port & 2 != 0
                    &&& after[v].x <==> port & 4 != 0
                    &&& after[v].u
                }
        },
{
    assert(port & !7usize == 0 && port & 7 != 0 <==> 1 <= port <= 7) by (bit_vector);
    assert(port <= 7 ==> (port & 1 != 0 <==> port % 2 == 1)) by (bit_vector);
    assert(port <= 7 ==> (port & 2 != 0 <==> (port / 2) % 2 == 1)) by (bit_vector);
    assert(port <= 7 ==> (port & 4 != 0 <==> (port / 4) % 2 == 1)) by (bit_vector);
}

/// `sys_munmap` by the task `p`. It returns 0 just where `start` begins a page, the end of the bytes
/// can be counted, and all pages that the bytes lie in are mapped; else it returns -1 and nothing
/// changes. Where it returns 0, just those pages are not mapped any more. What else was mapped is as
/// it was, and nothing else changes.
pub proof fn law_munmap(
    k: KernelView,
    post: KernelView,
    p: usize,
    start: usize,
    len: usize,
    r: int,
)
    requires
        k.wf(),
        k.current == Some(p),
        munmap_step(k, post, start as int, len as int, r),
    ensures
        r == 0 || r == -1,
        r == -1 ==> post == k,
        r == 0 <==> {
            &&& start % 4096 == 0
            &&& start + len <= usize::MAX
            &&& forall|v: usize|
                start <= v * 4096 < start + len ==> #[trigger] k.tasks[p].memory.contains_key(v)
        },
        r == 0 ==> {
            let before = k.tasks[p].memory;
            let after = post.tasks[p].memory;
            &&& post == (KernelView {
                tasks: k.tasks.insert(p, TaskView { memory: after, ..k.tasks[p] }),
                ..k
            })
            &&& forall|v: usize| #[trigger]
                after.contains_key(v) <==> before.contains_key(v) && !(start <= v * 4096 < start
                    + len)
            &&& forall|v: usize| #[trigger] after.contains_key(v) ==> after[v] == before[v]
        },
{
}

/// A task that has not run yet waits for the processor, has no children and has made no system call,
/// starts with priority 16, and has the parent, the program and the memory that it is given.
pub proof fn law_fresh_task(
    parent: Option<usize>,
    image: Seq<u8>,
    memory: Map<usize, MapPermission>,
)
    ensures
        ({
            let task = fresh_task(parent, image, memory);
            &&& task.parent == parent
            &&& task.image == image
            &&& task.memory == memory
            &&& task.status == TaskStatus::Ready
            &&& task.children.len() == 0
            &&& task.exit_code == 0
            &&& task.return_value == 0
            &&& task.first_run_time is None
            &&& task.stride * 16 == BIG_STRIDE
            &&& task.syscall_times.len() == 500
            &&& forall|i: int| 0 <= i < 500 ==> #[trigger] task.syscall_times[i] == 0
        }),
{
}

/// A stride is the whole part of what strides are taken from over the priority, but at least 1.
pub proof fn law_stride_is_quotient(big_stride: int, prio: int)
    requires
        0 <= big_stride,
        1 <= prio,
    ensures
        stride_of(big_stride, prio) >= 1,
        stride_of(big_stride, prio) * prio <= big_stride || stride_of(big_stride, prio) == 1,
        big_stride < (stride_of(big_stride, prio) + 1) * prio,
{
    let q = big_stride / prio;
    vstd::arithmetic::div_mod::lemma_fundamental_div_mod(big_stride, prio);
    vstd::arithmetic::div_mod::lemma_mod_bound(big_stride, prio);
    vstd::arithmetic::div_mod::lemma_div_pos_is_pos(big_stride, prio);
    assert(q * prio == prio * q) by (nonlinear_arith);
    assert((q + 1) * prio == q * prio + prio) by (nonlinear_arith);
    assert((1 + 1) * prio == prio + prio) by (nonlinear_arith);
}

/// An address lies in the page that it is rounded down to, and no page that begins at it or behind it
/// comes before the one that it is rounded up to.
pub proof fn law_pages(addr: int)
    requires
        0 <= addr,
    ensures
        page_floor(addr) * 4096 <= addr < (page_floor(addr) + 1) * 4096,
        (page_ceil(addr) - 1) * 4096 < addr <= page_ceil(addr) * 4096,
{
}

/// What mapping and unmapping a row of pages make of a task's memory, and when they are possible.
pub proof fn law_page_rows(
    m: Map<usize, MapPermission>,
    start: int,
    end: int,
    permission: MapPermission,
    v: usize,
)
    ensures
        with_range(m, start, end, permission).contains_key(v) <==> m.contains_key(v) || start <= v
            < end,
        start <= v < end ==> with_range(m, start, end, permission)[v] == permission,
        m.contains_key(v) && !(start <= v < end) ==> with_range(m, start, end, permission)[v]
            == m[v],
        without_range(m, start, end).contains_key(v) <==> m.contains_key(v) && !(start <= v < end),
        m.contains_key(v) && !(start <= v < end) ==> without_range(m, start, end)[v] == m[v],
        range_unmapped(m, start, end) <==> (forall|w: usize| #[trigger]
            m.contains_key(w) ==> !(start <= w < end)),
        range_mapped(m, start, end) <==> (forall|w: usize|
            start <= w < end ==> #[trigger] m.contains_key(w)),
{
}

/// A kernel that has just come up has one task, the first, which runs the given program with nothing
/// mapped and waits for the processor; nobody has it.
pub proof fn law_boot(image: Seq<u8>)
    ensures
        ({
            let k = booted(image);
            &&& forall|q: usize| #[trigger] k.tasks.contains_key(q) <==> q == 0
            &&& k.tasks[0usize].image == image
            &&& k.tasks[0usize].memory == Map::<usize, MapPermission>::empty()
            &&& k.tasks[0usize].parent is None
            &&& k.tasks[0usize].status == TaskStatus::Ready
            &&& k.tasks[0usize].children.len() == 0
            &&& k.ready == seq![0usize]
            &&& k.current is None
            &&& k.next_pid == 1
        }),
{
}

/// `sys_getpid` by the task `p` returns `p`.
pub proof fn law_getpid(k: KernelView, p: usize, r: int)
    requires
        k.current == Some(p),
        getpid_answer(k, r),
    ensures
        r == p,
{
}

/// `sys_get_time` writes down the whole of the time that has passed, less than a second of it in
/// microseconds, and returns 0.
pub proof fn law_get_time(us: usize, ts: TimeVal, r: int)
    requires
        time_answer(us as int, ts, r),
    ensures
        r == 0,
        ts.sec * 1000000 + ts.usec == us,
        ts.usec < 1000000,
{
}

/// `sys_task_info` by the task `p` writes down its state, how often it made each system call, and the
/// whole milliseconds since it first ran, and returns 0.
pub proof fn law_task_info(k: KernelView, p: usize, first: usize, us: usize, ti: TaskInfo, r: int)
    requires
        k.current == Some(p),
        k.tasks[p].first_run_time == Some(first),
        first <= us,
        info_answer(k, us as int, ti, r),
    ensures
        r == 0,
        ti.status == k.tasks[p].status,
        ti.syscall_times@ == k.tasks[p].syscall_times,
        ti.time * 1000 <= us - first < (ti.time + 1) * 1000,
{
}

} // verus!
