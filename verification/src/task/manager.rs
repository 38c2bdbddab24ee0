//! The ready queue and the stride discipline that picks the next task.

use vstd::prelude::*;
use std::collections::VecDeque;
use crate::config::BIG_STRIDE;
use crate::task::control_block::TaskControlBlock;

verus! {

/// Whether `q[i]` has the smallest stride in `q` and is the first that has.
pub open spec fn is_first_min(q: Seq<TaskControlBlock>, i: int) -> bool {
    &&& 0 <= i < q.len()
    &&& forall|j: int| 0 <= j < q.len() ==> q[i].stride <= (#[trigger] q[j]).stride
    &&& forall|j: int| 0 <= j < i ==> q[i].stride < (#[trigger] q[j]).stride
}

/// The place in `q` of the task that is dispatched next.
pub open spec fn min_index(q: Seq<TaskControlBlock>) -> int {
    choose|i: int| is_first_min(q, i)
}

/// Only one place in a queue is that of the first task with the smallest
/// stride.
pub proof fn lemma_first_min_unique(q: Seq<TaskControlBlock>, i: int)
    requires
        is_first_min(q, i),
    ensures
        min_index(q) == i,
{
    let k = min_index(q);
    assert(is_first_min(q, k));
    if k < i {
        assert(q[i].stride < q[k].stride);
        assert(q[k].stride <= q[i].stride);
    } else if i < k {
        assert(q[k].stride < q[i].stride);
        assert(q[i].stride <= q[k].stride);
    }
}

/// The tasks that are ready to run.
pub struct TaskManager {
    /// The ready tasks, in the order in which they were added.
    pub ready_queue: VecDeque<TaskControlBlock>,
}

impl View for TaskManager {
    type V = Seq<TaskControlBlock>;

    open spec fn view(&self) -> Seq<TaskControlBlock> {
        self.ready_queue@
    }
}

impl TaskManager {
    /// Whether the task that is dispatched next can take one more pass.
    pub open spec fn can_fetch(&self) -> bool {
        self@.len() > 0 ==> self@[min_index(self@)].can_advance()
    }

    /// A manager with no ready task.
    pub fn new() -> (m: TaskManager)
        ensures
            m@ == Seq::<TaskControlBlock>::empty(),
    {
        TaskManager { ready_queue: VecDeque::new() }
    }

    /// Appends `task` to the ready queue.
    pub fn add(&mut self, task: TaskControlBlock)
        ensures
            final(self)@ == old(self)@.push(task),
    {
        self.ready_queue.push_back(task);
    }

    /// Number of ready tasks.
    pub fn len(&self) -> (n: usize)
        ensures
            n == self@.len(),
    {
        self.ready_queue.len()
    }

    /// The place of the task that `fetch` would take, if there is one.
    pub fn find_min(&self) -> (r: Option<usize>)
        ensures
            r is None <==> self@.len() == 0,
            r is Some ==> is_first_min(self@, r->0 as int) && r->0 == min_index(self@),
    {
        let n = self.ready_queue.len();
        if n == 0 {
            return None;
        }
        let mut best: usize = 0;
        let mut i: usize = 1;
        while i < n
            invariant
                1 <= i <= n,
                n == self@.len(),
                best < i,
                forall|j: int| 0 <= j < i
                    ==> self@[best as int].stride <= (#[trigger] self@[j]).stride,
                forall|j: int| 0 <= j < best
                    ==> self@[best as int].stride < (#[trigger] self@[j]).stride,
            decreases n - i,
        {
            if self.ready_queue[i].stride < self.ready_queue[best].stride {
                best = i;
            }
            i = i + 1;
        }
        proof {
            lemma_first_min_unique(self@, best as int);
        }
        Some(best)
    }

    /// Whether `fetch` may be called: the task it would take can advance.
    pub fn fetchable(&self) -> (b: bool)
        ensures
            b == self.can_fetch(),
    {
        match self.find_min() {
            None => true,
            Some(i) => {
                let t = &self.ready_queue[i];
                match t.stride.checked_add(t.pass) {
                    Some(_) => true,
                    None => false,
                }
            },
        }
    }

    /// Takes the task with the smallest stride out of the queue, the first
    /// of them if several have it, and advances its stride by its pass.
    /// Returns nothing if no task is ready.
    pub fn fetch(&mut self) -> (r: Option<TaskControlBlock>)
        requires
            old(self).can_fetch(),
        ensures
            r is None <==> old(self)@.len() == 0,
            r is None ==> final(self)@ == old(self)@,
            r is Some ==> {
                let i = min_index(old(self)@);
                &&& is_first_min(old(self)@, i)
                &&& r->0 == old(self)@[i].advanced()
                &&& r->0.stride == old(self)@[i].stride + old(self)@[i].pass
                &&& final(self)@ == old(self)@.remove(i)
            },
    {
        match self.find_min() {
            None => None,
            Some(i) => {
                let taken = self.ready_queue.remove(i);
                let mut task = taken.unwrap();
                task.stride = task.stride + task.pass;
                Some(task)
            },
        }
    }
}

/// Appends `task` to the ready queue of `manager`.
pub fn add_task(manager: &mut TaskManager, task: TaskControlBlock)
    ensures
        final(manager)@ == old(manager)@.push(task),
{
    manager.add(task);
}

/// Takes the next task to run out of the ready queue of `manager`, or
/// nothing if no task is ready or the next one cannot advance its stride
/// any further.
pub fn fetch_task(manager: &mut TaskManager) -> (r: Option<TaskControlBlock>)
    ensures
        r is Some <==> old(manager)@.len() > 0 && old(manager).can_fetch(),
        r is None ==> final(manager)@ == old(manager)@,
        r is Some ==> {
            let i = min_index(old(manager)@);
            &&& is_first_min(old(manager)@, i)
            &&& r->0 == old(manager)@[i].advanced()
            &&& final(manager)@ == old(manager)@.remove(i)
        },
{
    if manager.fetchable() {
        manager.fetch()
    } else {
        None
    }
}

/// The task that `fetch` returns had the smallest stride of all ready tasks,
/// and no task before it in the queue had the same.
pub proof fn lemma_fetch_takes_minimum(q: Seq<TaskControlBlock>, j: int)
    requires
        0 <= j < q.len(),
    ensures
        is_first_min(q, min_index(q)),
        q[min_index(q)].stride <= q[j].stride,
        j < min_index(q) ==> q[min_index(q)].stride < q[j].stride,
{
    lemma_min_exists(q);
}

/// A queue that is not empty has a first task with the smallest stride.
pub proof fn lemma_min_exists(q: Seq<TaskControlBlock>)
    requires
        q.len() > 0,
    ensures
        is_first_min(q, min_index(q)),
    decreases q.len(),
{
    if q.len() == 1 {
        assert(is_first_min(q, 0));
    } else {
        let p = q.drop_last();
        lemma_min_exists(p);
        let k = min_index(p);
        let last = q.len() - 1;
        assert(forall|j: int| 0 <= j < p.len() ==> p[j] == q[j]);
        if q[last].stride < q[k].stride {
            assert forall|j: int| 0 <= j < q.len()
                implies q[last].stride <= (#[trigger] q[j]).stride by {
                if j < last {
                    assert(p[k].stride <= p[j].stride);
                }
            }
            assert forall|j: int| 0 <= j < last
                implies q[last].stride < (#[trigger] q[j]).stride by {
                assert(p[k].stride <= p[j].stride);
            }
            assert(is_first_min(q, last));
        } else {
            assert forall|j: int| 0 <= j < q.len()
                implies q[k].stride <= (#[trigger] q[j]).stride by {
                if j < last {
                    assert(p[k].stride <= p[j].stride);
                }
            }
            assert forall|j: int| 0 <= j < k implies q[k].stride < (#[trigger] q[j]).stride by {
                assert(p[k].stride < p[j].stride);
            }
            assert(is_first_min(q, k));
        }
    }
}

/// A dispatch never moves a well-formed task's stride back, and moves it
/// forward by exactly its pass.
pub proof fn lemma_stride_monotonic(t: TaskControlBlock)
    requires
        t.wf(),
        t.can_advance(),
    ensures
        t.advanced().stride == t.stride + t.pass,
        t.advanced().stride >= t.stride,
        t.priority <= BIG_STRIDE ==> t.advanced().stride > t.stride,
        t.advanced().wf(),
{
    let p = t.priority as int;
    assert(888888int / p >= 0 && (p <= 888888 ==> 888888int / p > 0)) by (nonlinear_arith)
        requires
            p >= 2,
    ;
}

/// Whether no two strides in `q` are more than `d` apart.
pub open spec fn strides_within(q: Seq<TaskControlBlock>, d: int) -> bool {
    forall|i: int, j: int|
        0 <= i < q.len() && 0 <= j < q.len() ==> (#[trigger] q[i]).stride - (
        #[trigger] q[j]).stride <= d
}

/// The ready queue after the next task was dispatched and came back to the
/// end of the queue.
pub open spec fn after_round(q: Seq<TaskControlBlock>) -> Seq<TaskControlBlock> {
    q.remove(min_index(q)).push(q[min_index(q)].advanced())
}

/// Dispatching keeps the strides close: if no two strides of ready tasks
/// are more than half the big stride apart, which is the largest pass a
/// task can have, then this is still so after the next task was dispatched
/// and came back.
pub proof fn lemma_fetch_keeps_strides_close(q: Seq<TaskControlBlock>)
    requires
        q.len() > 0,
        forall|i: int| 0 <= i < q.len() ==> (#[trigger] q[i]).wf(),
        q[min_index(q)].can_advance(),
        strides_within(q, BIG_STRIDE / 2),
    ensures
        strides_within(after_round(q), BIG_STRIDE / 2),
        forall|i: int| 0 <= i < after_round(q).len() ==> (#[trigger] after_round(q)[i]).wf(),
{
    lemma_min_exists(q);
    let m = min_index(q);
    let t = q[m];
    let r = after_round(q);
    let p = t.priority as int;
    assert(t.wf());
    assert(0 <= 888888int / p <= 444444) by (nonlinear_arith)
        requires
            p >= 2,
    ;
    assert forall|i: int| 0 <= i < r.len() implies (#[trigger] r[i]).wf() && t.stride
        <= r[i].stride <= t.stride + BIG_STRIDE / 2 by {
        if i < r.len() - 1 {
            let i2 = if i < m { i } else { i + 1 };
            assert(r[i] == q[i2]);
            assert(q[m].stride <= q[i2].stride);
            assert(q[i2].stride - q[m].stride <= BIG_STRIDE / 2);
        }
    }
    assert forall|i: int, j: int| 0 <= i < r.len() && 0 <= j < r.len() implies (
    #[trigger] r[i]).stride - (#[trigger] r[j]).stride <= BIG_STRIDE / 2 by {
        if i < r.len() - 1 && j < r.len() - 1 {
            let i2 = if i < m { i } else { i + 1 };
            let j2 = if j < m { j } else { j + 1 };
            assert(r[i] == q[i2] && r[j] == q[j2]);
            assert(q[i2].stride - q[j2].stride <= BIG_STRIDE / 2);
        } else if i < r.len() - 1 {
            let i2 = if i < m { i } else { i + 1 };
            assert(r[i] == q[i2]);
            assert(q[i2].stride - q[m].stride <= BIG_STRIDE / 2);
        } else if j < r.len() - 1 {
            let j2 = if j < m { j } else { j + 1 };
            assert(r[j] == q[j2]);
            assert(q[m].stride <= q[j2].stride);
        }
    }
}

} // verus!
