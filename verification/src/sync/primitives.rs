//! Mutex, semaphore and condition variable as state machines over thread
//! numbers. A primitive says whether the caller has to wait and which
//! waiter a release wakes; parking and waking the tasks is the scheduler's
//! part.

use vstd::prelude::*;
use std::collections::VecDeque;

verus! {

/// What an acquisition means for the caller.
#[derive(Clone, Copy, Debug, PartialEq, Eq, Structural)]
pub enum Acquire {
    /// The caller has the resource and goes on.
    Acquired,
    /// The caller is queued and sleeps until the resource is handed to it.
    Sleep,
    /// The caller is queued and keeps yielding until the resource is handed
    /// to it.
    Spin,
}

/// A mutex. Whether its waiters sleep or spin is chosen when it is made.
/// Waiters are served in the order in which they came.
pub struct Mutex {
    /// Whether waiters sleep (`true`) or spin (`false`).
    pub blocking: bool,
    /// Whether some thread owns the mutex.
    pub locked: bool,
    /// The threads that wait for the mutex, first come first.
    pub wait_queue: VecDeque<usize>,
}

impl Mutex {
    /// Threads wait only for a mutex that is owned.
    pub open spec fn wf(&self) -> bool {
        self.wait_queue@.len() > 0 ==> self.locked
    }

    /// What `lock` means for its caller.
    pub open spec fn lock_outcome(&self) -> Acquire {
        if !self.locked {
            Acquire::Acquired
        } else if self.blocking {
            Acquire::Sleep
        } else {
            Acquire::Spin
        }
    }

    /// Whether `self` is `before` after thread `tid` called `lock`.
    pub open spec fn is_after_lock(&self, before: Mutex, tid: usize) -> bool {
        &&& self.blocking == before.blocking
        &&& self.locked
        &&& self.wait_queue@ == if before.locked {
            before.wait_queue@.push(tid)
        } else {
            before.wait_queue@
        }
    }

    /// The thread that `unlock` hands the mutex to.
    pub open spec fn unlock_wakes(&self) -> Option<usize> {
        if self.wait_queue@.len() > 0 {
            Some(self.wait_queue@[0])
        } else {
            None
        }
    }

    /// Whether `self` is `before` after a call of `unlock`.
    pub open spec fn is_after_unlock(&self, before: Mutex) -> bool {
        &&& self.blocking == before.blocking
        &&& self.locked == (before.wait_queue@.len() > 0)
        &&& self.wait_queue@ == if before.wait_queue@.len() > 0 {
            before.wait_queue@.subrange(1, before.wait_queue@.len() as int)
        } else {
            before.wait_queue@
        }
    }

    /// A free mutex of the given kind.
    pub fn new(blocking: bool) -> (m: Mutex)
        ensures
            m.wf(),
            m.blocking == blocking,
            !m.locked,
            m.wait_queue@ == Seq::<usize>::empty(),
    {
        Mutex { blocking, locked: false, wait_queue: VecDeque::new() }
    }

    /// Thread `tid` asks for the mutex. A free mutex is taken at once. At an
    /// owned one the thread joins the queue.
    pub fn lock(&mut self, tid: usize) -> (r: Acquire)
        requires
            old(self).wf(),
        ensures
            final(self).wf(),
            r == old(self).lock_outcome(),
            final(self).is_after_lock(*old(self), tid),
    {
        if !self.locked {
            self.locked = true;
            Acquire::Acquired
        } else {
            self.wait_queue.push_back(tid);
            if self.blocking {
                Acquire::Sleep
            } else {
                Acquire::Spin
            }
        }
    }

    /// The owner lets go. The mutex passes to the first waiter, which is
    /// returned, or becomes free if nobody waits. Unlocking a free mutex
    /// changes nothing.
    pub fn unlock(&mut self) -> (woken: Option<usize>)
        requires
            old(self).wf(),
        ensures
            final(self).wf(),
            woken == old(self).unlock_wakes(),
            final(self).is_after_unlock(*old(self)),
    {
        let woken = self.wait_queue.pop_front();
        if woken.is_none() {
            self.locked = false;
        }
        woken
    }

    /// Whether thread `tid` is in the queue.
    pub fn is_waiting(&self, tid: usize) -> (b: bool)
        ensures
            b == self.wait_queue@.contains(tid),
    {
        let n = self.wait_queue.len();
        let mut i: usize = 0;
        while i < n
            invariant
                i <= n,
                n == self.wait_queue@.len(),
                forall|j: int| 0 <= j < i ==> self.wait_queue@[j] != tid,
            decreases n - i,
        {
            if self.wait_queue[i] == tid {
                return true;
            }
            i = i + 1;
        }
        false
    }
}

/// A counting semaphore. Waiters are served in the order in which they came.
pub struct Semaphore {
    /// Free units.
    pub count: usize,
    /// The threads that wait for a unit, first come first.
    pub wait_queue: VecDeque<usize>,
}

impl Semaphore {
    /// Threads wait only while no unit is free.
    pub open spec fn wf(&self) -> bool {
        self.wait_queue@.len() > 0 ==> self.count == 0
    }

    /// Whether `up` can count one more unit or has a waiter to hand it to.
    pub open spec fn can_up(&self) -> bool {
        self.wait_queue@.len() > 0 || self.count < usize::MAX
    }

    /// What `down` means for its caller.
    pub open spec fn down_outcome(&self) -> Acquire {
        if self.count > 0 {
            Acquire::Acquired
        } else {
            Acquire::Sleep
        }
    }

    /// Whether `self` is `before` after thread `tid` called `down`.
    pub open spec fn is_after_down(&self, before: Semaphore, tid: usize) -> bool {
        if before.count > 0 {
            self.count == before.count - 1 && self.wait_queue@ == before.wait_queue@
        } else {
            self.count == 0 && self.wait_queue@ == before.wait_queue@.push(tid)
        }
    }

    /// The thread that `up` hands the unit to.
    pub open spec fn up_wakes(&self) -> Option<usize> {
        if self.wait_queue@.len() > 0 {
            Some(self.wait_queue@[0])
        } else {
            None
        }
    }

    /// Whether `self` is `before` after a call of `up`.
    pub open spec fn is_after_up(&self, before: Semaphore) -> bool {
        if before.wait_queue@.len() > 0 {
            self.count == before.count && self.wait_queue@ == before.wait_queue@.subrange(
                1,
                before.wait_queue@.len() as int,
            )
        } else {
            self.count == before.count + 1 && self.wait_queue@ == before.wait_queue@
        }
    }

    /// A semaphore with `res_count` free units.
    pub fn new(res_count: usize) -> (s: Semaphore)
        ensures
            s.wf(),
            s.count == res_count,
            s.wait_queue@ == Seq::<usize>::empty(),
    {
        Semaphore { count: res_count, wait_queue: VecDeque::new() }
    }

    /// Whether `up` may be called.
    pub fn has_room(&self) -> (b: bool)
        ensures
            b == self.can_up(),
    {
        self.wait_queue.len() > 0 || self.count < usize::MAX
    }

    /// Thread `tid` takes a unit, or joins the queue if none is free.
    pub fn down(&mut self, tid: usize) -> (r: Acquire)
        requires
            old(self).wf(),
        ensures
            final(self).wf(),
            r == old(self).down_outcome(),
            final(self).is_after_down(*old(self), tid),
    {
        if self.count > 0 {
            self.count = self.count - 1;
            Acquire::Acquired
        } else {
            self.wait_queue.push_back(tid);
            Acquire::Sleep
        }
    }

    /// Gives a unit back. It passes to the first waiter, which is returned,
    /// or is counted as free if nobody waits.
    pub fn up(&mut self) -> (woken: Option<usize>)
        requires
            old(self).wf(),
            old(self).can_up(),
        ensures
            final(self).wf(),
            woken == old(self).up_wakes(),
            final(self).is_after_up(*old(self)),
    {
        let woken = self.wait_queue.pop_front();
        if woken.is_none() {
            self.count = self.count + 1;
        }
        woken
    }
}

/// A thread that waits on a condition variable, and the mutex it takes
/// again before it goes on.
#[derive(Clone, Copy, Debug, PartialEq, Eq, Structural)]
pub struct CondWaiter {
    /// The waiting thread.
    pub tid: usize,
    /// The handle of the mutex it gave up to wait.
    pub mutex_id: usize,
}

/// A condition variable. Waiters are woken in the order in which they came.
pub struct Condvar {
    /// The waiting threads, first come first.
    pub wait_queue: VecDeque<CondWaiter>,
}

impl Condvar {
    /// The waiter that `signal` takes off the queue.
    pub open spec fn signal_wakes(&self) -> Option<CondWaiter> {
        if self.wait_queue@.len() > 0 {
            Some(self.wait_queue@[0])
        } else {
            None
        }
    }

    /// The queue after a call of `signal`.
    pub open spec fn queue_after_signal(&self) -> Seq<CondWaiter> {
        if self.wait_queue@.len() > 0 {
            self.wait_queue@.subrange(1, self.wait_queue@.len() as int)
        } else {
            self.wait_queue@
        }
    }

    /// A condition variable on which nobody waits.
    pub fn new() -> (c: Condvar)
        ensures
            c.wait_queue@ == Seq::<CondWaiter>::empty(),
    {
        Condvar { wait_queue: VecDeque::new() }
    }

    /// Queues thread `tid`, which gave up mutex `mutex_id` to wait.
    pub fn wait(&mut self, tid: usize, mutex_id: usize)
        ensures
            final(self).wait_queue@ == old(self).wait_queue@.push(CondWaiter { tid, mutex_id }),
    {
        self.wait_queue.push_back(CondWaiter { tid, mutex_id });
    }

    /// Takes the first waiter off the queue, if there is one.
    pub fn signal(&mut self) -> (woken: Option<CondWaiter>)
        ensures
            woken == old(self).signal_wakes(),
            final(self).wait_queue@ == old(self).queue_after_signal(),
    {
        self.wait_queue.pop_front()
    }
}

} // verus!
