//! What holds of the process system calls taken together.
use vstd::prelude::*;

use crate::config::INIT_PID;
use crate::mm::{MapPermission, can_munmap, page_ceil, page_floor, with_range, without_range};
use crate::process::{
    awaited, collectable, execed, first_collectable, has_awaited, mmap_args_ok, mmap_range_free,
    mmapped, munmapped, port_permission, stride_of, waitpid_step,
};
use crate::task::{
    KernelView, TaskStatus, TaskView, lemma_dispatched_wf, lemma_exited_wf, lemma_reaped_wf,
    lemma_with_child_wf,
};

verus! {

/// A new child gets a pid that no task has, which is not 0, finds 0 as what its system call
/// returned, waits for the processor, and has the given program and memory. Its parent has one
/// child more, and no other task changes.
pub proof fn law_new_child(k: KernelView, image: Seq<u8>, memory: Map<usize, MapPermission>)
    requires
        k.wf(),
        k.running(),
        k.next_pid < isize::MAX,
    ensures
        ({
            let after = k.with_child(image, memory);
            let pid = k.next_pid as usize;
            &&& !k.tasks.contains_key(pid)
            &&& pid != 0
            &&& after.tasks.contains_key(pid)
            &&& after.tasks[pid].return_value == 0
            &&& after.tasks[pid].parent == k.current
            &&& after.tasks[pid].status == TaskStatus::Ready
            &&& after.tasks[pid].image == image
            &&& after.tasks[pid].memory == memory
            &&& after.ready.contains(pid)
            &&& after.current == k.current
            &&& after.cur() == (TaskView { children: k.cur().children.push(pid), ..k.cur() })
            &&& forall|q: usize|
                k.tasks.contains_key(q) && k.current != Some(q) ==> #[trigger] after.tasks[q]
                    == k.tasks[q]
            &&& after.wf()
        }),
{
    let pid = k.next_pid as usize;
    let after = k.with_child(image, memory);
    lemma_with_child_wf(k, image, memory);
    assert(k.tasks.contains_key(INIT_PID));
    assert(k.tasks.contains_key(k.current->0));
    assert(after.ready[k.ready.len() as int] == pid);
}

/// To wait for a child that has just been made returns -2 and changes nothing.
pub proof fn law_wait_for_running_child(
    k: KernelView,
    image: Seq<u8>,
    memory: Map<usize, MapPermission>,
    post: KernelView,
    code: i32,
    new_code: i32,
    r: int,
)
    requires
        k.wf(),
        k.running(),
        k.next_pid < isize::MAX,
        waitpid_step(k.with_child(image, memory), post, k.next_pid, code, new_code, r),
    ensures
        r == -2,
        post == k.with_child(image, memory),
        new_code == code,
{
    let pre = k.with_child(image, memory);
    let pid = k.next_pid as usize;
    law_new_child(k, image, memory);
    assert(awaited(pid as int, pre.cur().children[k.cur().children.len() as int]));
    assert forall|i: int| !#[trigger] collectable(pre, pid as int, i) by {
        if 0 <= i < pre.cur().children.len() && awaited(pid as int, pre.cur().children[i]) {
            assert(pre.cur().children[i] == pid);
        }
    }
}

/// A task that waits for a pid that none of its children has gets -1, and nothing changes.
pub proof fn law_wait_for_no_child(
    k: KernelView,
    pid: int,
    post: KernelView,
    code: i32,
    new_code: i32,
    r: int,
)
    requires
        k.wf(),
        k.running(),
        !has_awaited(k, pid),
        waitpid_step(k, post, pid, code, new_code, r),
    ensures
        r == -1,
        post == k,
        new_code == code,
{
}

/// When a task has exited and its parent then waits for it, the parent gets its pid and its exit
/// code, and the task is gone: it is nobody's child, waits for nothing and has no processor. To
/// wait for it once more returns -1.
pub proof fn law_exit_then_wait(
    k: KernelView,
    exit_code: i32,
    now: usize,
    post: KernelView,
    code: i32,
    new_code: i32,
    r: int,
)
    requires
        k.wf(),
        k.running(),
        k.current != Some(INIT_PID),
        k.ready.contains(k.cur().parent->0),
        waitpid_step(
            k.exited(exit_code).dispatched(k.cur().parent->0, now),
            post,
            k.current->0 as int,
            code,
            new_code,
            r,
        ),
    ensures
        r == k.current->0,
        new_code == exit_code,
        post.wf(),
        post.current == k.cur().parent,
        !post.tasks.contains_key(k.current->0),
        !post.ready.contains(k.current->0),
        !post.cur().children.contains(k.current->0),
        !has_awaited(post, k.current->0 as int),
        forall|q: usize|
            q != k.current->0 && k.tasks.contains_key(q) ==> #[trigger] post.tasks.contains_key(q),
{
    let pid = k.current->0;
    let parent = k.cur().parent->0;
    let done = k.exited(exit_code);
    let pre = done.dispatched(parent, now);
    assert(k.tasks.contains_key(pid));
    assert(k.tasks[parent].children.contains(pid));
    let at = choose|i: int|
        0 <= i < k.tasks[parent].children.len() && k.tasks[parent].children[i] == pid;
    assert(k.is_child(parent, k.tasks[parent].children[at]));
    lemma_exited_wf(k, exit_code);
    lemma_dispatched_wf(done, parent, now);
    assert(pre.cur().children[at] == pid);
    assert(collectable(pre, pid as int, at));
    assert(awaited(pid as int, pre.cur().children[at]));
    let i = choose|i: int|
        {
            &&& #[trigger] first_collectable(pre, pid as int, i)
            &&& r == pre.cur().children[i]
            &&& new_code == pre.tasks[pre.cur().children[i]].exit_code
            &&& post == pre.reaped(i)
        };
    assert(pre.cur().children[i] == pid);
    lemma_reaped_wf(pre, i);
    law_wait_collects(pre, i);
}

/// A child that was collected is gone: it is no task any more and nobody's child, so that nothing
/// is left that could be collected again. No task but its parent changes.
pub proof fn law_wait_collects(k: KernelView, i: int)
    requires
        k.wf(),
        k.running(),
        0 <= i < k.cur().children.len(),
        k.tasks[k.cur().children[i]].status == TaskStatus::Zombie,
    ensures
        ({
            let child = k.cur().children[i];
            let after = k.reaped(i);
            &&& after.wf()
            &&& !after.tasks.contains_key(child)
            &&& !after.ready.contains(child)
            &&& after.current == k.current
            &&& k.current != Some(child)
            &&& forall|p: usize|
                #![trigger after.tasks[p]]
                after.tasks.contains_key(p) ==> !after.tasks[p].children.contains(child)
            &&& !has_awaited(after, child as int)
            &&& forall|q: usize|
                q != child && k.current != Some(q) && k.tasks.contains_key(q)
                    ==> #[trigger] after.tasks[q] == k.tasks[q]
            &&& forall|q: usize| #[trigger]
                after.tasks.contains_key(q) <==> q != child && k.tasks.contains_key(q)
        }),
{
    let pid = k.current->0;
    let child = k.cur().children[i];
    let after = k.reaped(i);
    assert(k.is_child(pid, k.tasks[pid].children[i]));
    lemma_reaped_wf(k, i);
    assert forall|p: usize|
        #![trigger after.tasks[p]]
        after.tasks.contains_key(p) implies !after.tasks[p].children.contains(child) by {
        if after.tasks[p].children.contains(child) {
            let j = choose|j: int|
                0 <= j < after.tasks[p].children.len() && after.tasks[p].children[j] == child;
            assert(after.is_child(p, after.tasks[p].children[j]));
        }
    }
    assert(after.tasks.contains_key(pid));
    assert(!after.cur().children.contains(child));
    if has_awaited(after, child as int) {
        let j = choose|j: int|
            0 <= j < after.cur().children.len() && awaited(
                child as int,
                #[trigger] after.cur().children[j],
            );
        assert(after.cur().children[j] == child);
    }
}

/// When a task exits, its children become children of the first task, behind those that it had, and
/// lose nothing else; the task keeps its place among its parent's children until it is collected.
pub proof fn law_exit_passes_children_on(k: KernelView, exit_code: i32)
    requires
        k.wf(),
        k.running(),
        k.current != Some(INIT_PID),
    ensures
        ({
            let after = k.exited(exit_code);
            let pid = k.current->0;
            &&& after.wf()
            &&& after.current is None
            &&& after.tasks[pid].status == TaskStatus::Zombie
            &&& after.tasks[pid].exit_code == exit_code
            &&& after.tasks[pid].parent == k.cur().parent
            &&& after.tasks[k.cur().parent->0].children.contains(pid)
            &&& after.tasks[INIT_PID].children == k.tasks[INIT_PID].children + k.cur().children
            &&& forall|c: usize|
                k.cur().children.contains(c) ==> #[trigger] after.tasks[c] == (TaskView {
                    parent: Some(INIT_PID),
                    ..k.tasks[c]
                })
            &&& forall|q: usize|
                k.tasks.contains_key(q) && q != pid && q != INIT_PID
                    && !k.cur().children.contains(q) ==> #[trigger] after.tasks[q] == k.tasks[q]
            &&& forall|q: usize| #[trigger] after.tasks.contains_key(q) <==> k.tasks.contains_key(q)
        }),
{
    let pid = k.current->0;
    let after = k.exited(exit_code);
    lemma_exited_wf(k, exit_code);
    assert(k.tasks.contains_key(pid));
    assert(after.tasks.contains_key(pid));
    assert forall|c: usize| k.cur().children.contains(c) implies #[trigger] after.tasks[c] == (
    TaskView { parent: Some(INIT_PID), ..k.tasks[c] }) by {
        let i = choose|i: int| 0 <= i < k.cur().children.len() && k.cur().children[i] == c;
        assert(k.is_child(pid, k.tasks[pid].children[i]));
    }
}

/// When the first task exits, it keeps its exit code and its children, and no other task changes.
pub proof fn law_exit_of_first_task(k: KernelView, exit_code: i32)
    requires
        k.wf(),
        k.current == Some(INIT_PID),
    ensures
        ({
            let after = k.exited(exit_code);
            &&& after.wf()
            &&& after.current is None
            &&& after.ready == k.ready
            &&& after.tasks[INIT_PID].status == TaskStatus::Zombie
            &&& after.tasks[INIT_PID].exit_code == exit_code
            &&& after.tasks[INIT_PID].children == k.cur().children
            &&& forall|q: usize|
                k.tasks.contains_key(q) && q != INIT_PID ==> #[trigger] after.tasks[q] == k.tasks[q]
            &&& forall|q: usize| #[trigger] after.tasks.contains_key(q) <==> k.tasks.contains_key(q)
        }),
{
    let after = k.exited(exit_code);
    lemma_exited_wf(k, exit_code);
    assert forall|q: usize| k.tasks.contains_key(q) && q != INIT_PID implies #[trigger] after.tasks[q]
        == k.tasks[q] by {
        if k.cur().children.contains(q) {
            let i = choose|i: int| 0 <= i < k.cur().children.len() && k.cur().children[i] == q;
            assert(k.is_child(INIT_PID, k.tasks[INIT_PID].children[i]));
        }
    }
}

/// A task that gives up the processor and gets it again finds everything as it was.
pub proof fn law_yield_and_return(k: KernelView, now: usize)
    requires
        k.wf(),
        k.running(),
    ensures
        k.suspended().ready.contains(k.current->0),
        k.suspended().dispatched(k.current->0, now) == k,
{
    let pid = k.current->0;
    let s = k.suspended();
    assert(k.tasks.contains_key(pid));
    assert(s.ready[k.ready.len() as int] == pid);
    assert(!k.ready.contains(pid));
    let at = s.ready.index_of(pid);
    assert(s.ready[at] == pid);
    if at < k.ready.len() {
        assert(k.ready[at] == pid);
        assert(k.ready.contains(pid));
    }
    assert(s.ready.remove(at) =~= k.ready);
    assert(s.dispatched(pid, now).tasks =~= k.tasks);
}

/// A task that goes on with another program keeps its parent, its children and its state.
pub proof fn law_exec_keeps_relatives(k: KernelView, image: Seq<u8>)
    requires
        k.wf(),
        k.running(),
    ensures
        ({
            let after = execed(k, image);
            &&& after.current == k.current
            &&& after.cur().parent == k.cur().parent
            &&& after.cur().children == k.cur().children
            &&& after.cur().status == k.cur().status
            &&& after.cur().image == image
            &&& after.cur().memory == Map::<usize, MapPermission>::empty()
            &&& forall|q: usize|
                k.tasks.contains_key(q) && k.current != Some(q) ==> #[trigger] after.tasks[q]
                    == k.tasks[q]
        }),
{
}

/// Seconds and microseconds together are the time that was given, and less than a second is left
/// over.
pub proof fn law_time_adds_up(us: int)
    requires
        0 <= us,
    ensures
        (us / 1000000) * 1000000 + us % 1000000 == us,
        0 <= us % 1000000 < 1000000,
{
}

/// A stride is never 0, and a higher priority never makes for a longer stride.
pub proof fn law_stride(big_stride: int, low: int, high: int)
    requires
        0 <= big_stride,
        1 <= low <= high,
    ensures
        stride_of(big_stride, low) >= 1,
        stride_of(big_stride, high) >= 1,
        stride_of(big_stride, high) <= stride_of(big_stride, low),
{
    vstd::arithmetic::div_mod::lemma_div_is_ordered_by_denominator(big_stride, low, high);
    vstd::arithmetic::div_mod::lemma_div_pos_is_pos(big_stride, low);
    vstd::arithmetic::div_mod::lemma_div_pos_is_pos(big_stride, high);
}

/// Each byte that was asked for lies in a page that is mapped then, with what `port` lets the user
/// do; every page that was mapped before is as it was.
pub proof fn law_mmap_covers(k: KernelView, start: int, len: int, port: int, addr: int)
    requires
        k.wf(),
        k.running(),
        0 <= start,
        0 <= len,
        start + len <= usize::MAX,
        mmap_args_ok(start, port),
        mmap_range_free(k, start, len),
        start <= addr < start + len,
    ensures
        ({
            let after = mmapped(k, start, len, port).cur().memory;
            let page = page_floor(addr) as usize;
            &&& after.contains_key(page)
            &&& after[page] == port_permission(port)
            &&& forall|v: usize| #[trigger]
                k.cur().memory.contains_key(v) ==> after.contains_key(v) && after[v]
                    == k.cur().memory[v]
        }),
{
}

/// Unmapping undoes a mapping: everything is as it was before it.
pub proof fn law_munmap_undoes_mmap(k: KernelView, start: int, len: int, port: int)
    requires
        k.wf(),
        k.running(),
        0 <= start,
        0 <= len,
        start + len <= usize::MAX,
        mmap_args_ok(start, port),
        mmap_range_free(k, start, len),
    ensures
        can_munmap(mmapped(k, start, len, port).cur().memory, start, len),
        munmapped(mmapped(k, start, len, port), start, len) == k,
{
    let first = page_floor(start);
    let end = page_ceil(start + len);
    let mapped = mmapped(k, start, len, port);
    let memory = k.cur().memory;
    assert(k.tasks.contains_key(k.current->0));
    assert(without_range(with_range(memory, first, end, port_permission(port)), first, end)
        =~= memory);
    assert(munmapped(mapped, start, len).tasks =~= k.tasks);
}

/// What was mapped cannot be mapped once more, and what was unmapped cannot be unmapped once more.
pub proof fn law_mapping_twice_is_refused(k: KernelView, start: int, len: int, port: int)
    requires
        k.wf(),
        k.running(),
        0 <= start,
        0 < len,
        start + len <= usize::MAX,
    ensures
        !mmap_range_free(mmapped(k, start, len, port), start, len),
        !can_munmap(munmapped(k, start, len).cur().memory, start, len),
{
    let page = page_floor(start) as usize;
    assert(page_floor(start) <= page < page_ceil(start + len));
    assert(mmapped(k, start, len, port).cur().memory.contains_key(page));
    assert(!munmapped(k, start, len).cur().memory.contains_key(page));
}

} // verus!
