//! The tasks of the kernel: which there are, whose children they are, and which of them waits for
//! the processor or has it.
use std::collections::BTreeMap;
use vstd::prelude::*;

use crate::config::{BIG_STRIDE, DEFAULT_PRIORITY, INIT_PID, MAX_SYSCALL_NUM};
use crate::mm::{MapPermission, MemorySet};

verus! {

broadcast use vstd::std_specs::btree::group_btree_axioms;

/// What a task is doing: it waits for the processor, has it, or has exited and waits for its parent
/// to collect its exit code.
#[derive(Clone, Copy, PartialEq, Eq, Structural, Debug)]
pub enum TaskStatus {
    Ready,
    Running,
    Zombie,
}

/// A task as its users see it.
#[verifier::ext_equal]
pub struct TaskView {
    pub status: TaskStatus,
    pub exit_code: i32,
    pub parent: Option<usize>,
    pub children: Seq<usize>,
    pub stride: u64,
    pub syscall_times: Seq<u32>,
    pub first_run_time: Option<usize>,
    pub return_value: usize,
    pub image: Seq<u8>,
    pub memory: Map<usize, MapPermission>,
}

/// A task: its state, its place among the others, what the scheduler and the statistics keep of it,
/// the value that its last system call returns, its program and its memory.
pub struct Task {
    pub status: TaskStatus,
    pub exit_code: i32,
    pub parent: Option<usize>,
    pub children: Vec<usize>,
    pub stride: u64,
    pub syscall_times: [u32; MAX_SYSCALL_NUM],
    pub first_run_time: Option<usize>,
    pub return_value: usize,
    pub image: Vec<u8>,
    pub memory: MemorySet,
}

impl View for Task {
    type V = TaskView;

    open spec fn view(&self) -> TaskView {
        TaskView {
            status: self.status,
            exit_code: self.exit_code,
            parent: self.parent,
            children: self.children@,
            stride: self.stride,
            syscall_times: self.syscall_times@,
            first_run_time: self.first_run_time,
            return_value: self.return_value,
            image: self.image@,
            memory: self.memory@,
        }
    }
}

/// A task that has not run yet.
pub open spec fn fresh_task(
    parent: Option<usize>,
    image: Seq<u8>,
    memory: Map<usize, MapPermission>,
) -> TaskView {
    TaskView {
        status: TaskStatus::Ready,
        exit_code: 0,
        parent,
        children: Seq::empty(),
        stride: (BIG_STRIDE / DEFAULT_PRIORITY) as u64,
        syscall_times: Seq::new(MAX_SYSCALL_NUM as nat, |i: int| 0u32),
        first_run_time: None,
        return_value: 0,
        image,
        memory,
    }
}

impl Task {
    /// A task that has not run yet.
    pub fn new(parent: Option<usize>, image: Vec<u8>, memory: MemorySet) -> (r: Task)
        ensures
            r@ == fresh_task(parent, image@, memory@),
    {
        let r = Task {
            status: TaskStatus::Ready,
            exit_code: 0,
            parent,
            children: Vec::new(),
            stride: BIG_STRIDE / DEFAULT_PRIORITY,
            syscall_times: [0u32; MAX_SYSCALL_NUM],
            first_run_time: None,
            return_value: 0,
            image,
            memory,
        };
        assert(r@ =~= fresh_task(parent, image@, memory@));
        r
    }
}

/// The kernel as its users see it.
#[verifier::ext_equal]
pub struct KernelView {
    /// The tasks, by their pids.
    pub tasks: Map<usize, TaskView>,
    /// The pids of those that wait for the processor, in the order in which they came.
    pub ready: Seq<usize>,
    /// The pid of the task that has the processor.
    pub current: Option<usize>,
    /// The pid that the next task gets.
    pub next_pid: int,
}

impl KernelView {
    /// The task that has the processor.
    pub open spec fn cur(self) -> TaskView {
        self.tasks[self.current->0]
    }

    /// A task has the processor.
    pub open spec fn running(self) -> bool {
        self.current is Some
    }

    /// Task `c` is a child of task `p`, and came after it.
    pub open spec fn is_child(self, p: usize, c: usize) -> bool {
        &&& self.tasks.contains_key(c)
        &&& self.tasks[c].parent == Some(p)
        &&& p < c
    }

    /// The tasks form a tree under the first of them, and children and parents agree. A task that
    /// has exited has no children, unless it is the first.
    pub open spec fn tree_wf(self) -> bool {
        &&& self.tasks.contains_key(INIT_PID)
        &&& forall|p: usize, i: int|
            self.tasks.contains_key(p) && 0 <= i < self.tasks[p].children.len() ==> self.is_child(
                p,
                #[trigger] self.tasks[p].children[i],
            )
        &&& forall|p: usize| #[trigger]
            self.tasks.contains_key(p) ==> self.tasks[p].children.no_duplicates()
        &&& forall|c: usize| #[trigger]
            self.tasks.contains_key(c) ==> match self.tasks[c].parent {
                Some(p) => {
                    &&& c != INIT_PID
                    &&& self.tasks.contains_key(p)
                    &&& self.tasks[p].children.contains(c)
                },
                None => c == INIT_PID,
            }
        &&& forall|p: usize| #[trigger]
            self.tasks.contains_key(p) && self.tasks[p].status == TaskStatus::Zombie && p
                != INIT_PID ==> self.tasks[p].children.len() == 0
    }

    /// Just the ready tasks wait for the processor, each once, and just the running task has it.
    pub open spec fn queue_wf(self) -> bool {
        &&& self.ready.no_duplicates()
        &&& forall|p: usize| #[trigger]
            self.ready.contains(p) <==> self.tasks.contains_key(p) && self.tasks[p].status
                == TaskStatus::Ready
        &&& match self.current {
            Some(p) => self.tasks.contains_key(p) && self.tasks[p].status == TaskStatus::Running,
            None => true,
        }
        &&& forall|p: usize| #[trigger]
            self.tasks.contains_key(p) && self.tasks[p].status == TaskStatus::Running
                ==> self.current == Some(p) && self.tasks[p].first_run_time is Some
    }

    /// What holds of the kernel at all times.
    pub open spec fn wf(self) -> bool {
        &&& self.tree_wf()
        &&& self.queue_wf()
        &&& 0 <= self.next_pid <= isize::MAX
        &&& forall|p: usize| #[trigger] self.tasks.contains_key(p) ==> p < self.next_pid
    }

    /// The kernel with task `pid` replaced.
    pub open spec fn with_task(self, pid: usize, task: TaskView) -> KernelView {
        KernelView { tasks: self.tasks.insert(pid, task), ..self }
    }

    /// The kernel with the task that has the processor replaced.
    pub open spec fn with_cur(self, task: TaskView) -> KernelView {
        self.with_task(self.current->0, task)
    }

    /// The kernel with one more child of the running task, which waits for the processor.
    pub open spec fn with_child(
        self,
        image: Seq<u8>,
        memory: Map<usize, MapPermission>,
    ) -> KernelView {
        let parent = self.current->0;
        let pid = self.next_pid as usize;
        KernelView {
            tasks: self.tasks.insert(
                parent,
                TaskView { children: self.cur().children.push(pid), ..self.cur() },
            ).insert(pid, fresh_task(Some(parent), image, memory)),
            ready: self.ready.push(pid),
            next_pid: self.next_pid + 1,
            ..self
        }
    }

    /// The kernel after the running task gave up the processor.
    pub open spec fn suspended(self) -> KernelView {
        KernelView {
            ready: self.ready.push(self.current->0),
            current: None,
            ..self.with_cur(TaskView { status: TaskStatus::Ready, ..self.cur() })
        }
    }

    /// The task that `q` becomes when the running task exits with `exit_code`, as far as its
    /// children in `adopted` are concerned.
    pub open spec fn task_after_exit(
        self,
        q: usize,
        exit_code: i32,
        adopted: Seq<usize>,
    ) -> TaskView {
        if self.current == Some(q) {
            TaskView {
                status: TaskStatus::Zombie,
                exit_code,
                children: if q == INIT_PID {
                    self.tasks[q].children
                } else {
                    Seq::empty()
                },
                image: Seq::empty(),
                memory: Map::empty(),
                ..self.tasks[q]
            }
        } else if q == INIT_PID {
            TaskView { children: self.tasks[q].children + adopted, ..self.tasks[q] }
        } else if adopted.contains(q) {
            TaskView { parent: Some(INIT_PID), ..self.tasks[q] }
        } else {
            self.tasks[q]
        }
    }

    /// The kernel after the running task exited: it gives back its memory and keeps its exit code,
    /// and its children become children of the first task. Those of the first task stay its own.
    pub open spec fn exited(self, exit_code: i32) -> KernelView {
        KernelView {
            tasks: Map::new(
                |q: usize| self.tasks.contains_key(q),
                |q: usize| self.task_after_exit(q, exit_code, self.cur().children),
            ),
            current: None,
            ..self
        }
    }

    /// The kernel after task `pid`, which waited for the processor, got it at time `now`.
    pub open spec fn dispatched(self, pid: usize, now: usize) -> KernelView {
        KernelView {
            ready: self.ready.remove(self.ready.index_of(pid)),
            current: Some(pid),
            ..self.with_task(
                pid,
                TaskView {
                    status: TaskStatus::Running,
                    first_run_time: match self.tasks[pid].first_run_time {
                        Some(t) => Some(t),
                        None => Some(now),
                    },
                    ..self.tasks[pid]
                },
            )
        }
    }

    /// The kernel after the running task collected its child at place `i`.
    pub open spec fn reaped(self, i: int) -> KernelView {
        KernelView {
            tasks: self.tasks.insert(
                self.current->0,
                TaskView { children: self.cur().children.remove(i), ..self.cur() },
            ).remove(self.cur().children[i]),
            ..self
        }
    }
}

/// A kernel whose one task runs the program `image` and waits for the processor.
pub open spec fn booted(image: Seq<u8>) -> KernelView {
    KernelView {
        tasks: map![INIT_PID => fresh_task(None, image, Map::empty())],
        ready: seq![INIT_PID],
        current: None,
        next_pid: 1,
    }
}

/// A task that is replaced by one with the same state and relatives leaves the kernel well formed.
pub proof fn lemma_with_task_wf(k: KernelView, pid: usize, task: TaskView)
    requires
        k.wf(),
        k.tasks.contains_key(pid),
        task.status == k.tasks[pid].status,
        task.parent == k.tasks[pid].parent,
        task.children == k.tasks[pid].children,
        task.first_run_time == k.tasks[pid].first_run_time,
    ensures
        k.with_task(pid, task).wf(),
{
    let a = k.with_task(pid, task);
    assert forall|p: usize, i: int|
        a.tasks.contains_key(p) && 0 <= i < a.tasks[p].children.len() implies a.is_child(
        p,
        #[trigger] a.tasks[p].children[i],
    ) by {
        assert(k.is_child(p, k.tasks[p].children[i]));
    }
    assert forall|p: usize| #[trigger]
        a.ready.contains(p) <==> a.tasks.contains_key(p) && a.tasks[p].status
            == TaskStatus::Ready by {
        assert(k.ready.contains(p) <==> k.tasks.contains_key(p) && k.tasks[p].status
            == TaskStatus::Ready);
    }
    assert forall|p: usize| #[trigger] a.tasks.contains_key(p) implies k.tasks.contains_key(p)
        && a.tasks[p].children == k.tasks[p].children && a.tasks[p].parent == k.tasks[p].parent
        && a.tasks[p].status == k.tasks[p].status && a.tasks[p].first_run_time
        == k.tasks[p].first_run_time by {}
    assert(a.tree_wf());
    assert(a.queue_wf());
}

/// A new child leaves the kernel well formed.
pub proof fn lemma_with_child_wf(
    k: KernelView,
    image: Seq<u8>,
    memory: Map<usize, MapPermission>,
)
    requires
        k.wf(),
        k.running(),
        k.next_pid < isize::MAX,
    ensures
        k.with_child(image, memory).wf(),
{
    let a = k.with_child(image, memory);
    let parent = k.current->0;
    let pid = k.next_pid as usize;
    assert(k.tasks.contains_key(parent));
    assert(!k.tasks.contains_key(pid));
    assert forall|p: usize, i: int|
        a.tasks.contains_key(p) && 0 <= i < a.tasks[p].children.len() implies a.is_child(
        p,
        #[trigger] a.tasks[p].children[i],
    ) by {
        if p == parent && i == k.cur().children.len() {
        } else {
            assert(k.is_child(p, k.tasks[p].children[i]));
        }
    }
    assert(a.cur().children.no_duplicates()) by {
        assert forall|i: int, j: int|
            0 <= i < j < a.cur().children.len() implies a.cur().children[i]
            != a.cur().children[j] by {
            assert(k.is_child(parent, k.tasks[parent].children[i]));
        }
    }
    assert forall|c: usize| #[trigger] a.tasks.contains_key(c) implies match a.tasks[c].parent {
        Some(p) => {
            &&& c != INIT_PID
            &&& a.tasks.contains_key(p)
            &&& a.tasks[p].children.contains(c)
        },
        None => c == INIT_PID,
    } by {
        if c == pid {
            assert(a.tasks[parent].children[k.cur().children.len() as int] == pid);
        } else {
            assert(k.tasks.contains_key(c));
            match k.tasks[c].parent {
                Some(p) => {
                    let i = choose|i: int|
                        0 <= i < k.tasks[p].children.len() && k.tasks[p].children[i] == c;
                    assert(a.tasks[p].children[i] == c);
                },
                None => {},
            }
        }
    }
    lemma_push_contains(k.ready, pid);
    assert forall|p: usize| #[trigger]
        a.ready.contains(p) <==> a.tasks.contains_key(p) && a.tasks[p].status
            == TaskStatus::Ready by {
        assert(k.ready.contains(p) <==> k.tasks.contains_key(p) && k.tasks[p].status
            == TaskStatus::Ready);
    }
    assert(!k.ready.contains(pid));
}

/// What a sequence holds once something was pushed to it.
proof fn lemma_push_contains(s: Seq<usize>, x: usize)
    ensures
        forall|y: usize| #[trigger] s.push(x).contains(y) <==> s.contains(y) || y == x,
        s.no_duplicates() && !s.contains(x) ==> s.push(x).no_duplicates(),
{
    assert forall|y: usize| #[trigger] s.push(x).contains(y) <==> s.contains(y) || y == x by {
        if s.contains(y) {
            let i = choose|i: int| 0 <= i < s.len() && s[i] == y;
            assert(s.push(x)[i] == y);
        }
        if y == x {
            assert(s.push(x)[s.len() as int] == x);
        }
        if s.push(x).contains(y) {
            let i = choose|i: int| 0 <= i < s.push(x).len() && s.push(x)[i] == y;
            if i < s.len() {
                assert(s[i] == y);
            }
        }
    }
}

/// What a sequence without duplicates holds once one of its places was taken out.
proof fn lemma_remove_contains(s: Seq<usize>, i: int)
    requires
        0 <= i < s.len(),
        s.no_duplicates(),
    ensures
        forall|y: usize| #[trigger] s.remove(i).contains(y) <==> s.contains(y) && y != s[i],
        s.remove(i).no_duplicates(),
{
    let r = s.remove(i);
    assert forall|y: usize| #[trigger] r.contains(y) <==> s.contains(y) && y != s[i] by {
        if r.contains(y) {
            let j = choose|j: int| 0 <= j < r.len() && r[j] == y;
            if j < i {
                assert(s[j] == y);
            } else {
                assert(s[j + 1] == y);
            }
        }
        if s.contains(y) && y != s[i] {
            let j = choose|j: int| 0 <= j < s.len() && s[j] == y;
            if j < i {
                assert(r[j] == y);
            } else {
                assert(r[j - 1] == y);
            }
        }
    }
}

/// Giving up the processor leaves the kernel well formed.
pub proof fn lemma_suspended_wf(k: KernelView)
    requires
        k.wf(),
        k.running(),
    ensures
        k.suspended().wf(),
{
    let a = k.suspended();
    let pid = k.current->0;
    assert(k.tasks.contains_key(pid));
    assert forall|p: usize, i: int|
        a.tasks.contains_key(p) && 0 <= i < a.tasks[p].children.len() implies a.is_child(
        p,
        #[trigger] a.tasks[p].children[i],
    ) by {
        assert(k.is_child(p, k.tasks[p].children[i]));
    }
    lemma_push_contains(k.ready, pid);
    assert forall|p: usize| #[trigger]
        a.ready.contains(p) <==> a.tasks.contains_key(p) && a.tasks[p].status
            == TaskStatus::Ready by {
        assert(k.ready.contains(p) <==> k.tasks.contains_key(p) && k.tasks[p].status
            == TaskStatus::Ready);
    }
    assert(!k.ready.contains(pid));
}

/// Handing out the processor leaves the kernel well formed.
pub proof fn lemma_dispatched_wf(k: KernelView, pid: usize, now: usize)
    requires
        k.wf(),
        !k.running(),
        k.ready.contains(pid),
    ensures
        k.dispatched(pid, now).wf(),
{
    let a = k.dispatched(pid, now);
    assert(k.tasks.contains_key(pid));
    assert forall|p: usize, i: int|
        a.tasks.contains_key(p) && 0 <= i < a.tasks[p].children.len() implies a.is_child(
        p,
        #[trigger] a.tasks[p].children[i],
    ) by {
        assert(k.is_child(p, k.tasks[p].children[i]));
    }
    lemma_remove_contains(k.ready, k.ready.index_of(pid));
    assert forall|p: usize| #[trigger]
        a.ready.contains(p) <==> a.tasks.contains_key(p) && a.tasks[p].status
            == TaskStatus::Ready by {
        assert(k.ready.contains(p) <==> k.tasks.contains_key(p) && k.tasks[p].status
            == TaskStatus::Ready);
    }
}

/// An exit leaves the kernel well formed.
pub proof fn lemma_exited_wf(k: KernelView, exit_code: i32)
    requires
        k.wf(),
        k.running(),
    ensures
        k.exited(exit_code).wf(),
{
    let a = k.exited(exit_code);
    let pid = k.current->0;
    let orphans = k.cur().children;
    let kept = k.tasks[INIT_PID].children;
    assert(k.tasks.contains_key(pid));
    assert forall|q: usize| orphans.contains(q) implies k.is_child(pid, q) by {
        let i = choose|i: int| 0 <= i < orphans.len() && orphans[i] == q;
        assert(k.is_child(pid, k.tasks[pid].children[i]));
    }
    assert forall|p: usize, i: int|
        a.tasks.contains_key(p) && 0 <= i < a.tasks[p].children.len() implies a.is_child(
        p,
        #[trigger] a.tasks[p].children[i],
    ) by {
        let c = a.tasks[p].children[i];
        if p == INIT_PID && pid != INIT_PID && i >= kept.len() {
            assert(orphans[i - kept.len()] == c);
            assert(orphans.contains(c));
        } else {
            assert(k.is_child(p, k.tasks[p].children[i]));
            if orphans.contains(c) {
                assert(k.tasks[c].parent == Some(pid));
            }
        }
    }
    if pid != INIT_PID {
        let all = kept + orphans;
        assert forall|i: int, j: int| 0 <= i < j < all.len() implies all[i] != all[j] by {
            if i < kept.len() && j >= kept.len() {
                assert(k.is_child(INIT_PID, k.tasks[INIT_PID].children[i]));
                assert(k.is_child(pid, k.tasks[pid].children[j - kept.len()]));
            }
        }
        assert(all.no_duplicates());
    }
    assert forall|c: usize| #[trigger] a.tasks.contains_key(c) implies match a.tasks[c].parent {
        Some(p) => {
            &&& c != INIT_PID
            &&& a.tasks.contains_key(p)
            &&& a.tasks[p].children.contains(c)
        },
        None => c == INIT_PID,
    } by {
        assert(k.tasks.contains_key(c));
        if orphans.contains(c) {
            assert(k.is_child(pid, c));
            let i = choose|i: int| 0 <= i < orphans.len() && orphans[i] == c;
            if pid == INIT_PID {
                assert(a.tasks[INIT_PID].children[i] == c);
            } else {
                assert(a.tasks[INIT_PID].children[kept.len() + i] == c);
            }
        } else {
            match k.tasks[c].parent {
                Some(p) => {
                    let i = choose|i: int|
                        0 <= i < k.tasks[p].children.len() && k.tasks[p].children[i] == c;
                    assert(a.tasks[p].children[i] == c);
                },
                None => {},
            }
        }
    }
    assert forall|p: usize| #[trigger]
        a.ready.contains(p) <==> a.tasks.contains_key(p) && a.tasks[p].status
            == TaskStatus::Ready by {
        assert(k.ready.contains(p) <==> k.tasks.contains_key(p) && k.tasks[p].status
            == TaskStatus::Ready);
    }
    assert forall|p: usize| #[trigger]
        a.tasks.contains_key(p) && a.tasks[p].status
            == TaskStatus::Zombie && p != INIT_PID implies a.tasks[p].children.len() == 0 by {
        assert(k.tasks.contains_key(p));
    }
    assert forall|p: usize| #[trigger]
        a.tasks.contains_key(p) implies a.tasks[p].children.no_duplicates() by {
        assert(k.tasks.contains_key(p));
    }
}

/// Collecting a child that has exited leaves the kernel well formed.
pub proof fn lemma_reaped_wf(k: KernelView, i: int)
    requires
        k.wf(),
        k.running(),
        0 <= i < k.cur().children.len(),
        k.tasks[k.cur().children[i]].status == TaskStatus::Zombie,
    ensures
        k.reaped(i).wf(),
{
    let a = k.reaped(i);
    let pid = k.current->0;
    let gone = k.cur().children[i];
    assert(k.tasks.contains_key(pid));
    assert(k.is_child(pid, k.tasks[pid].children[i]));
    lemma_remove_contains(k.cur().children, i);
    assert forall|p: usize, j: int|
        a.tasks.contains_key(p) && 0 <= j < a.tasks[p].children.len() implies a.is_child(
        p,
        #[trigger] a.tasks[p].children[j],
    ) by {
        assert(k.tasks.contains_key(p));
        if p == pid {
            let m = if j < i {
                j
            } else {
                j + 1
            };
            assert(a.tasks[p].children[j] == k.tasks[p].children[m]);
            assert(k.is_child(p, k.tasks[p].children[m]));
            assert(k.tasks[p].children[m] != k.tasks[p].children[i]);
        } else {
            assert(k.is_child(p, k.tasks[p].children[j]));
        }
    }
    assert forall|c: usize| #[trigger] a.tasks.contains_key(c) implies match a.tasks[c].parent {
        Some(p) => {
            &&& c != INIT_PID
            &&& a.tasks.contains_key(p)
            &&& a.tasks[p].children.contains(c)
        },
        None => c == INIT_PID,
    } by {
        assert(k.tasks.contains_key(c));
        match k.tasks[c].parent {
            Some(p) => {
                assert(k.tasks[p].children.contains(c));
                if p == gone {
                    assert(k.tasks.contains_key(gone));
                }
            },
            None => {},
        }
    }
    assert forall|p: usize| #[trigger]
        a.ready.contains(p) <==> a.tasks.contains_key(p) && a.tasks[p].status
            == TaskStatus::Ready by {
        assert(k.ready.contains(p) <==> k.tasks.contains_key(p) && k.tasks[p].status
            == TaskStatus::Ready);
    }
    assert forall|p: usize| #[trigger]
        a.tasks.contains_key(p) implies a.tasks[p].children.no_duplicates() by {
        assert(k.tasks.contains_key(p));
    }
    assert forall|p: usize| #[trigger]
        a.tasks.contains_key(p) && a.tasks[p].status
            == TaskStatus::Zombie && p != INIT_PID implies a.tasks[p].children.len() == 0 by {
        assert(k.tasks.contains_key(p));
    }
}

/// The kernel's tasks, and what it knows of the processor.
pub struct TaskTable {
    pub tasks: BTreeMap<usize, Task>,
    pub ready: Vec<usize>,
    pub current: Option<usize>,
    pub next_pid: usize,
}

impl View for TaskTable {
    type V = KernelView;

    open spec fn view(&self) -> KernelView {
        KernelView {
            tasks: self.tasks@.map_values(|t: Task| t@),
            ready: self.ready@,
            current: self.current,
            next_pid: self.next_pid as int,
        }
    }
}

impl TaskTable {
    /// A table whose one task runs the program `image` and waits for the processor.
    pub fn new(image: Vec<u8>) -> (r: TaskTable)
        ensures
            r@.wf(),
            r@ == booted(image@),
    {
        let mut tasks: BTreeMap<usize, Task> = BTreeMap::new();
        let ghost bytes = image@;
        tasks.insert(INIT_PID, Task::new(None, image, MemorySet::new()));
        let mut ready: Vec<usize> = Vec::new();
        ready.push(INIT_PID);
        let r = TaskTable { tasks, ready, current: None, next_pid: 1 };
        proof {
            assert(r@.tasks =~= map![INIT_PID => fresh_task(None, bytes, Map::empty())]);
            assert(r@.ready =~= seq![INIT_PID]);
            assert(r@.ready[0] == INIT_PID);
        }
        r
    }

    /// The task `pid`.
    pub fn task(&self, pid: usize) -> (r: &Task)
        requires
            self@.tasks.contains_key(pid),
        ensures
            *r == self.tasks@[pid],
            r@ == self@.tasks[pid],
    {
        match self.tasks.get(&pid) {
            Some(task) => task,
            None => {
                assert(false);
                vstd::pervasive::unreached()
            },
        }
    }

    /// Takes task `pid` out of the table, to be changed.
    fn take_task(&mut self, pid: usize) -> (task: Task)
        requires
            old(self)@.tasks.contains_key(pid),
        ensures
            task@ == old(self)@.tasks[pid],
            final(self)@ == (KernelView { tasks: old(self)@.tasks.remove(pid), ..old(self)@ }),
    {
        match self.tasks.remove(&pid) {
            Some(task) => {
                assert(self@.tasks =~= old(self)@.tasks.remove(pid));
                task
            },
            None => {
                assert(false);
                vstd::pervasive::unreached()
            },
        }
    }

    /// Puts a task into the table.
    fn put_task(&mut self, pid: usize, task: Task)
        ensures
            final(self)@ == old(self)@.with_task(pid, task@),
    {
        self.tasks.insert(pid, task);
        assert(self@.tasks =~= old(self)@.tasks.insert(pid, task@));
    }

    /// Takes the running task out of the table, to be changed.
    pub(crate) fn take_current(&mut self) -> (r: (usize, Task))
        requires
            old(self)@.wf(),
            old(self)@.running(),
        ensures
            old(self)@.current == Some(r.0),
            r.1@ == old(self)@.cur(),
            final(self)@ == (KernelView { tasks: old(self)@.tasks.remove(r.0), ..old(self)@ }),
    {
        match self.current {
            Some(pid) => {
                let task = self.take_task(pid);
                (pid, task)
            },
            None => {
                assert(false);
                vstd::pervasive::unreached()
            },
        }
    }

    /// Puts the running task back, changed in what concerns neither its state nor its relatives.
    pub(crate) fn put_current(&mut self, pid: usize, task: Task, Ghost(before): Ghost<KernelView>)
        requires
            before.wf(),
            before.current == Some(pid),
            old(self)@ == (KernelView { tasks: before.tasks.remove(pid), ..before }),
            task@.status == before.cur().status,
            task@.parent == before.cur().parent,
            task@.children == before.cur().children,
            task@.first_run_time == before.cur().first_run_time,
        ensures
            final(self)@.wf(),
            final(self)@ == before.with_cur(task@),
    {
        self.put_task(pid, task);
        proof {
            assert(self@ =~= before.with_cur(task@));
            lemma_with_task_wf(before, pid, task@);
        }
    }

    /// Makes a child of the running task, which waits for the processor.
    pub fn add_child(&mut self, image: Vec<u8>, memory: MemorySet) -> (pid: usize)
        requires
            old(self)@.wf(),
            old(self)@.running(),
            old(self)@.next_pid < isize::MAX,
        ensures
            final(self)@.wf(),
            final(self)@ == old(self)@.with_child(image@, memory@),
            pid == old(self)@.next_pid,
    {
        let ghost before = self@;
        proof {
            lemma_with_child_wf(before, image@, memory@);
        }
        let pid: usize = self.next_pid;
        let (parent, mut task) = self.take_current();
        task.children.push(pid);
        self.put_task(parent, task);
        self.put_task(pid, Task::new(Some(parent), image, memory));
        self.ready.push(pid);
        self.next_pid = pid + 1;
        assert(self@ =~= before.with_child(image@, memory@));
        pid
    }

    /// Takes the processor from the running task, which waits for it again.
    pub fn suspend_current(&mut self)
        requires
            old(self)@.wf(),
            old(self)@.running(),
        ensures
            final(self)@.wf(),
            final(self)@ == old(self)@.suspended(),
    {
        let ghost before = self@;
        proof {
            lemma_suspended_wf(before);
        }
        let (pid, mut task) = self.take_current();
        task.status = TaskStatus::Ready;
        self.put_task(pid, task);
        self.ready.push(pid);
        self.current = None;
        assert(self@ =~= before.suspended());
    }

    /// Ends the running task. Its children become children of the first task; those of the first
    /// task stay its own.
    pub fn exit_current(&mut self, exit_code: i32)
        requires
            old(self)@.wf(),
            old(self)@.running(),
        ensures
            final(self)@.wf(),
            final(self)@ == old(self)@.exited(exit_code),
    {
        let ghost before = self@;
        proof {
            lemma_exited_wf(before, exit_code);
        }
        let (pid, mut task) = self.take_current();
        let mut orphans: Vec<usize> = Vec::new();
        if pid != INIT_PID {
            core::mem::swap(&mut orphans, &mut task.children);
        }
        task.status = TaskStatus::Zombie;
        task.exit_code = exit_code;
        task.image = Vec::new();
        task.memory = MemorySet::new();
        self.put_task(pid, task);
        self.current = None;
        proof {
            assert(orphans@.take(0) =~= Seq::<usize>::empty());
            assert(before.tasks[INIT_PID].children + orphans@.take(0)
                =~= before.tasks[INIT_PID].children);
            assert(self@.tasks =~= Map::new(
                |q: usize| before.tasks.contains_key(q),
                |q: usize| before.task_after_exit(q, exit_code, orphans@.take(0)),
            ));
        }
        let mut i: usize = 0;
        while i < orphans.len()
            invariant
                i <= orphans@.len(),
                before.wf(),
                before.current == Some(pid),
                pid != INIT_PID ==> orphans@ == before.cur().children,
                pid == INIT_PID ==> orphans@.len() == 0,
                self@ == (KernelView {
                    tasks: Map::new(
                        |q: usize| before.tasks.contains_key(q),
                        |q: usize| before.task_after_exit(q, exit_code, orphans@.take(i as int)),
                    ),
                    current: None,
                    ..before
                }),
            decreases orphans@.len() - i,
        {
            let ghost now = self@;
            let child: usize = orphans[i];
            proof {
                assert(before.is_child(pid, before.tasks[pid].children[i as int]));
            }
            let mut orphan = self.take_task(child);
            orphan.parent = Some(INIT_PID);
            self.put_task(child, orphan);
            let mut init = self.take_task(INIT_PID);
            init.children.push(child);
            self.put_task(INIT_PID, init);
            proof {
                let t0 = orphans@.take(i as int);
                let t1 = orphans@.take(i + 1);
                assert(t1 =~= t0.push(child));
                lemma_push_contains(t0, child);
                assert(before.tasks[INIT_PID].children + t1 =~= (
                before.tasks[INIT_PID].children + t0).push(child));
                assert(!t0.contains(child)) by {
                    assert(before.tasks.contains_key(pid));
                }
                assert(self@.tasks =~= Map::new(
                    |q: usize| before.tasks.contains_key(q),
                    |q: usize| before.task_after_exit(q, exit_code, t1),
                ));
            }
            i = i + 1;
        }
        proof {
            assert(orphans@.take(i as int) =~= orphans@);
            if pid == INIT_PID {
                assert forall|q: usize| before.cur().children.contains(q) implies
                    before.is_child(pid, q) by {
                    let m = choose|m: int|
                        0 <= m < before.cur().children.len() && before.cur().children[m] == q;
                    assert(before.is_child(pid, before.tasks[pid].children[m]));
                }
            }
            assert(self@.tasks =~= before.exited(exit_code).tasks);
            assert(self@ =~= before.exited(exit_code));
        }
    }

    /// Gives the processor to task `pid`, which waits for it.
    pub fn dispatch(&mut self, pid: usize, now: usize)
        requires
            old(self)@.wf(),
            !old(self)@.running(),
            old(self)@.ready.contains(pid),
        ensures
            final(self)@.wf(),
            final(self)@ == old(self)@.dispatched(pid, now),
    {
        let ghost before = self@;
        proof {
            lemma_dispatched_wf(before, pid, now);
        }
        let mut i: usize = 0;
        while self.ready[i] != pid
            invariant
                *self == *old(self),
                i < self.ready.len(),
                self.ready@.contains(pid),
                forall|j: int| 0 <= j < i ==> self.ready@[j] != pid,
            decreases self.ready@.len() - i,
        {
            i = i + 1;
            proof {
                let m = choose|m: int| 0 <= m < self.ready@.len() && self.ready@[m] == pid;
                assert(m >= i);
            }
        }
        proof {
            let m = self.ready@.index_of(pid);
            assert(self.ready@[m] == pid);
            assert(m == i);
        }
        self.ready.remove(i);
        let mut task = self.take_task(pid);
        task.status = TaskStatus::Running;
        if task.first_run_time.is_none() {
            task.first_run_time = Some(now);
        }
        self.put_task(pid, task);
        self.current = Some(pid);
        assert(self@ =~= before.dispatched(pid, now));
    }

    /// Collects the running task's child at place `i`, which has exited: it leaves the table.
    pub fn reap(&mut self, i: usize) -> (r: (usize, i32))
        requires
            old(self)@.wf(),
            old(self)@.running(),
            i < old(self)@.cur().children.len(),
            old(self)@.tasks[old(self)@.cur().children[i as int]].status == TaskStatus::Zombie,
        ensures
            final(self)@.wf(),
            final(self)@ == old(self)@.reaped(i as int),
            r.0 == old(self)@.cur().children[i as int],
            r.1 == old(self)@.tasks[r.0].exit_code,
    {
        let ghost before = self@;
        proof {
            lemma_reaped_wf(before, i as int);
            let parent = before.current->0;
            assert(before.is_child(parent, before.tasks[parent].children[i as int]));
        }
        let (pid, mut task) = self.take_current();
        let child: usize = task.children.remove(i);
        self.put_task(pid, task);
        let gone = self.take_task(child);
        assert(self@ =~= before.reaped(i as int));
        (child, gone.exit_code)
    }
}

/// The kernel: its tasks, well formed at all times.
pub struct Kernel {
    table: TaskTable,
}

impl View for Kernel {
    type V = KernelView;

    closed spec fn view(&self) -> KernelView {
        self.table@
    }
}

impl Kernel {
    #[verifier::type_invariant]
    spec fn inv(self) -> bool {
        self.table@.wf()
    }

    /// A kernel whose one task runs the program `image` and waits for the processor.
    pub fn new(image: Vec<u8>) -> (r: Kernel)
        ensures
            r@.wf(),
            r@ == booted(image@),
    {
        Kernel { table: TaskTable::new(image) }
    }

    /// The tasks.
    pub fn table(&self) -> (r: &TaskTable)
        ensures
            r@ == self@,
            r@.wf(),
    {
        proof {
            use_type_invariant(self);
        }
        &self.table
    }

    /// Takes the tasks out, to be changed; a table with one task stays in their place until
    /// `put_back`.
    pub(crate) fn take_out(&mut self) -> (table: TaskTable)
        ensures
            table@ == old(self)@,
            table@.wf(),
    {
        proof {
            use_type_invariant(&*self);
        }
        let mut table = TaskTable::new(Vec::new());
        core::mem::swap(&mut self.table, &mut table);
        table
    }

    /// Puts the tasks back.
    pub(crate) fn put_back(&mut self, table: TaskTable)
        requires
            table@.wf(),
        ensures
            final(self)@ == table@,
    {
        self.table = table;
    }

    /// Gives the processor to task `pid`, which waits for it.
    pub fn dispatch(&mut self, pid: usize, now: usize)
        requires
            !old(self)@.running(),
            old(self)@.ready.contains(pid),
        ensures
            old(self)@.wf(),
            final(self)@.wf(),
            final(self)@ == old(self)@.dispatched(pid, now),
    {
        let mut table = self.take_out();
        table.dispatch(pid, now);
        self.put_back(table);
    }
}

} // verus!
