//! The control block of a process: what its threads share.

use vstd::prelude::*;
use crate::config::{MAX_BRK, MAX_HANDLES};
use crate::mm::memory_set::{MemorySet, PageEntry, PageMapping};
use crate::sync::deadlock::DeadlockLedger;
use crate::sync::primitives::{Acquire, CondWaiter, Condvar, Mutex, Semaphore};
use crate::task::control_block::TaskControlBlock;
use crate::task::slots::{find_empty_slot, first_empty_slot, put_slot, slot_filled, slot_replaced};

verus! {

/// An open file as the process sees it. Reading and writing it is done
/// outside, by whoever knows the file behind `file`.
#[derive(Clone, Copy, Debug, PartialEq, Eq, Structural)]
pub struct FileDescriptor {
    /// Names the open file to the outside.
    pub file: usize,
    /// Whether the file may be read through this descriptor.
    pub readable: bool,
    /// Whether the file may be written through this descriptor.
    pub writable: bool,
}

/// The file that stands for console input.
pub const STDIN_FILE: usize = 0;

/// The file that stands for console output.
pub const STDOUT_FILE: usize = 1;

impl FileDescriptor {
    /// The descriptor of console input.
    pub fn stdin() -> (fd: FileDescriptor)
        ensures
            fd == (FileDescriptor { file: STDIN_FILE, readable: true, writable: false }),
    {
        FileDescriptor { file: STDIN_FILE, readable: true, writable: false }
    }

    /// The descriptor of console output.
    pub fn stdout() -> (fd: FileDescriptor)
        ensures
            fd == (FileDescriptor { file: STDOUT_FILE, readable: false, writable: true }),
    {
        FileDescriptor { file: STDOUT_FILE, readable: false, writable: true }
    }
}

/// How a blocking acquisition ended.
#[derive(Clone, Copy, Debug, PartialEq, Eq, Structural)]
pub enum LockResult {
    /// The handle names no primitive, or the request cannot be recorded.
    BadHandle,
    /// The deadlock detector found the request unsafe.
    Refused,
    /// The request went to the primitive, with this outcome for the caller.
    Granted(Acquire),
}

/// How a release ended.
#[derive(Clone, Copy, Debug, PartialEq, Eq, Structural)]
pub enum ReleaseResult {
    /// The handle names no primitive, or the primitive cannot take the unit.
    BadHandle,
    /// The primitive was released and woke this thread, if any.
    Released(Option<usize>),
}

/// How a signal on a condition variable ended.
#[derive(Clone, Copy, Debug, PartialEq, Eq, Structural)]
pub enum SignalResult {
    /// The handle names no condition variable.
    BadHandle,
    /// Nobody waited.
    Nobody,
    /// This waiter left the queue and asked for its mutex again, with this
    /// outcome.
    Woken(CondWaiter, Acquire),
}

/// A process.
pub struct ProcessControlBlock {
    /// The process identifier, which is also the token of its address space.
    pub pid: usize,
    /// The parent, as far as this process knows.
    pub parent: Option<usize>,
    /// The children that have not been collected.
    pub children: Vec<usize>,
    /// Whether the process has exited.
    pub is_zombie: bool,
    /// The code the process exited with.
    pub exit_code: i32,
    /// The first task of a process that has exited, kept as a zombie until
    /// the process is collected.
    pub zombie_task: Option<TaskControlBlock>,
    /// The address space.
    pub memory_set: MemorySet,
    /// The lowest address of the heap.
    pub heap_bottom: usize,
    /// The current end of the heap.
    pub program_brk: usize,
    /// The open files.
    pub fd_table: Vec<Option<FileDescriptor>>,
    /// Number of threads that were created in this process.
    pub thread_count: usize,
    /// The mutexes, by handle.
    pub mutex_list: Vec<Option<Mutex>>,
    /// The semaphores, by handle.
    pub semaphore_list: Vec<Option<Semaphore>>,
    /// The condition variables, by handle.
    pub condvar_list: Vec<Option<Condvar>>,
    /// Whether blocking acquisitions go through the deadlock detector.
    pub enable_deadlock_detect: bool,
    /// The detector's ledger of the mutexes.
    pub mutex_ledger: DeadlockLedger,
    /// The detector's ledger of the semaphores.
    pub sem_ledger: DeadlockLedger,
}

impl ProcessControlBlock {
    /// The address space and the primitives are well formed, and each ledger
    /// has a row for every thread and a column for every handle.
    pub open spec fn wf(&self) -> bool {
        &&& self.memory_set.wf()
        &&& self.memory_set.token == self.pid
        &&& self.heap_bottom <= self.program_brk <= MAX_BRK
        &&& self.thread_count <= MAX_HANDLES
        &&& self.mutex_list.len() <= MAX_HANDLES
        &&& self.semaphore_list.len() <= MAX_HANDLES
        &&& self.condvar_list.len() <= MAX_HANDLES
        &&& self.fd_table.len() <= MAX_HANDLES
        &&& self.mutex_ledger@.wf()
        &&& self.mutex_ledger@.threads() == self.thread_count
        &&& self.mutex_ledger@.resources() == self.mutex_list.len()
        &&& self.sem_ledger@.wf()
        &&& self.sem_ledger@.threads() == self.thread_count
        &&& self.sem_ledger@.resources() == self.semaphore_list.len()
        &&& forall|i: int|
            0 <= i < self.mutex_list.len() && (#[trigger] self.mutex_list[i]) is Some
                ==> self.mutex_list[i]->0.wf()
        &&& forall|i: int|
            0 <= i < self.semaphore_list.len() && (#[trigger] self.semaphore_list[i]) is Some
                ==> self.semaphore_list[i]->0.wf()
    }

    /// Whether `id` is the handle of a mutex.
    pub open spec fn valid_mutex(&self, id: usize) -> bool {
        id < self.mutex_list.len() && self.mutex_list[id as int] is Some
    }

    /// Whether `id` is the handle of a semaphore.
    pub open spec fn valid_semaphore(&self, id: usize) -> bool {
        id < self.semaphore_list.len() && self.semaphore_list[id as int] is Some
    }

    /// Whether `id` is the handle of a condition variable.
    pub open spec fn valid_condvar(&self, id: usize) -> bool {
        id < self.condvar_list.len() && self.condvar_list[id as int] is Some
    }

    /// Whether a lock of mutex `id` goes through the deadlock detector:
    /// detection is enabled now and was when the mutex was created.
    pub open spec fn detects_mutex(&self, id: usize) -> bool {
        self.enable_deadlock_detect && self.mutex_ledger@.watched[id as int]
    }

    /// Whether a down on semaphore `id` goes through the deadlock detector.
    pub open spec fn detects_semaphore(&self, id: usize) -> bool {
        self.enable_deadlock_detect && self.sem_ledger@.watched[id as int]
    }

    /// How `mutex_lock` ends for thread `tid` and handle `id`.
    pub open spec fn mutex_lock_result(&self, tid: usize, id: usize) -> LockResult {
        if !self.valid_mutex(id) {
            LockResult::BadHandle
        } else if self.detects_mutex(id) && self.mutex_ledger@.need[tid as int][id as int]
            == usize::MAX {
            LockResult::BadHandle
        } else if self.detects_mutex(id) && !self.mutex_ledger@.safe_request(
            tid as int,
            id as int,
        ) {
            LockResult::Refused
        } else {
            LockResult::Granted(self.mutex_list[id as int]->0.lock_outcome())
        }
    }

    /// How `semaphore_down` ends for thread `tid` and handle `id`.
    pub open spec fn semaphore_down_result(&self, tid: usize, id: usize) -> LockResult {
        if !self.valid_semaphore(id) {
            LockResult::BadHandle
        } else if self.detects_semaphore(id) && self.sem_ledger@.need[tid as int][id as int]
            == usize::MAX {
            LockResult::BadHandle
        } else if self.detects_semaphore(id) && !self.sem_ledger@.safe_request(
            tid as int,
            id as int,
        ) {
            LockResult::Refused
        } else {
            LockResult::Granted(self.semaphore_list[id as int]->0.down_outcome())
        }
    }

    /// A process without children that has one thread, an empty address
    /// space, the console as its first three files, and no primitives.
    pub fn new(pid: usize, parent: Option<usize>) -> (p: ProcessControlBlock)
        ensures
            p.wf(),
            p.pid == pid,
            p.parent == parent,
            p.children@ == Seq::<usize>::empty(),
            !p.is_zombie,
            p.exit_code == 0,
            p.zombie_task is None,
            p.memory_set@ == Map::<usize, PageEntry>::empty(),
            p.memory_set.pages@ == Seq::<PageMapping>::empty(),
            p.heap_bottom == 0,
            p.program_brk == 0,
            p.fd_table@ == seq![
                Some(FileDescriptor { file: STDIN_FILE, readable: true, writable: false }),
                Some(FileDescriptor { file: STDOUT_FILE, readable: false, writable: true }),
                Some(FileDescriptor { file: STDOUT_FILE, readable: false, writable: true }),
            ],
            p.thread_count == 1,
            p.mutex_list@ == Seq::<Option<Mutex>>::empty(),
            p.semaphore_list@ == Seq::<Option<Semaphore>>::empty(),
            p.condvar_list@ == Seq::<Option<Condvar>>::empty(),
            !p.enable_deadlock_detect,
    {
        let mut fd_table: Vec<Option<FileDescriptor>> = Vec::new();
        fd_table.push(Some(FileDescriptor::stdin()));
        fd_table.push(Some(FileDescriptor::stdout()));
        fd_table.push(Some(FileDescriptor::stdout()));
        let mut mutex_ledger = DeadlockLedger::new();
        mutex_ledger.add_thread();
        let mut sem_ledger = DeadlockLedger::new();
        sem_ledger.add_thread();
        ProcessControlBlock {
            pid,
            parent,
            children: Vec::new(),
            is_zombie: false,
            exit_code: 0,
            zombie_task: None,
            memory_set: MemorySet::new(pid),
            heap_bottom: 0,
            program_brk: 0,
            fd_table,
            thread_count: 1,
            mutex_list: Vec::new(),
            semaphore_list: Vec::new(),
            condvar_list: Vec::new(),
            enable_deadlock_detect: false,
            mutex_ledger,
            sem_ledger,
        }
    }

    /// Whether `self` is what `alloc_fd` leaves of `before`, with result `fd`.
    pub open spec fn is_after_alloc_fd(
        &self,
        before: ProcessControlBlock,
        file: FileDescriptor,
        fd: Option<usize>,
    ) -> bool {
        &&& fd is Some <==> first_empty_slot(before.fd_table@) < MAX_HANDLES
        &&& fd is Some ==> {
            &&& slot_filled(before.fd_table@, self.fd_table@, fd->0 as int)
            &&& self.fd_table[fd->0 as int] == Some(file)
            &&& *self == (ProcessControlBlock {
                fd_table: self.fd_table,
                ..before
            })
        }
        &&& fd is None ==> *self == before
    }

    /// Puts `file` into the first empty slot of the file table, or appends
    /// it if there is none, and returns the slot. Fails only when the table
    /// cannot grow any more.
    pub fn alloc_fd(&mut self, file: FileDescriptor) -> (fd: Option<usize>)
        requires
            old(self).wf(),
        ensures
            final(self).wf(),
            final(self).is_after_alloc_fd(*old(self), file, fd),
    {
        let i = find_empty_slot(&self.fd_table);
        if i >= MAX_HANDLES {
            return None;
        }
        put_slot(&mut self.fd_table, i, file);
        Some(i)
    }

    /// Whether `self` is what `add_thread` leaves of `before`, with result `tid`.
    pub open spec fn is_after_add_thread(
        &self,
        before: ProcessControlBlock,
        tid: Option<usize>,
    ) -> bool {
        &&& tid is Some <==> before.thread_count < MAX_HANDLES
        &&& tid is Some ==> {
            &&& tid->0 == before.thread_count
            &&& self.thread_count == before.thread_count + 1
            &&& self.mutex_ledger@ == before.mutex_ledger@.with_thread()
            &&& self.sem_ledger@ == before.sem_ledger@.with_thread()
            &&& *self == (ProcessControlBlock {
                thread_count: self.thread_count,
                mutex_ledger: self.mutex_ledger,
                sem_ledger: self.sem_ledger,
                ..before
            })
        }
        &&& tid is None ==> *self == before
    }

    /// Adds a thread to the process and to both ledgers, and returns its
    /// number. Fails only when the number of threads cannot grow any more.
    pub fn add_thread(&mut self) -> (tid: Option<usize>)
        requires
            old(self).wf(),
        ensures
            final(self).wf(),
            final(self).is_after_add_thread(*old(self), tid),
    {
        if self.thread_count >= MAX_HANDLES {
            return None;
        }
        let tid = self.thread_count;
        self.thread_count = tid + 1;
        self.mutex_ledger.add_thread();
        self.sem_ledger.add_thread();
        Some(tid)
    }

    /// Whether `self` is what `mutex_create` leaves of `before`, with result `id`.
    pub open spec fn is_after_mutex_create(
        &self,
        before: ProcessControlBlock,
        blocking: bool,
        id: Option<usize>,
    ) -> bool {
        &&& id is Some <==> first_empty_slot(before.mutex_list@) < MAX_HANDLES
        &&& id is Some ==> {
            &&& slot_filled(before.mutex_list@, self.mutex_list@, id->0 as int)
            &&& self.mutex_list[id->0 as int]->0.blocking == blocking
            &&& !self.mutex_list[id->0 as int]->0.locked
            &&& self.mutex_list[id->0 as int]->0.wait_queue@ == Seq::<usize>::empty()
            &&& self.mutex_ledger@ == before.mutex_ledger@.with_resource(
                id->0 as int,
                1,
                before.enable_deadlock_detect,
            )
            &&& *self == (ProcessControlBlock {
                mutex_list: self.mutex_list,
                mutex_ledger: self.mutex_ledger,
                ..before
            })
        }
        &&& id is None ==> *self == before
    }

    /// Makes a mutex, of the sleeping kind if `blocking` and of the spinning
    /// kind if not, in the first empty slot of the mutex table, or appended
    /// if there is none, and returns the slot as its handle. On the ledger
    /// the mutex starts afresh with one free unit, watched if detection is
    /// enabled now. Fails only when the table cannot grow any more.
    pub fn mutex_create(&mut self, blocking: bool) -> (id: Option<usize>)
        requires
            old(self).wf(),
        ensures
            final(self).wf(),
            final(self).is_after_mutex_create(*old(self), blocking, id),
    {
        let i = find_empty_slot(&self.mutex_list);
        if i >= MAX_HANDLES {
            return None;
        }
        put_slot(&mut self.mutex_list, i, Mutex::new(blocking));
        self.mutex_ledger.set_resource(i, 1, self.enable_deadlock_detect);
        Some(i)
    }

    /// Whether `self` is what `semaphore_create` leaves of `before`, with result `id`.
    pub open spec fn is_after_semaphore_create(
        &self,
        before: ProcessControlBlock,
        res_count: usize,
        id: Option<usize>,
    ) -> bool {
        &&& id is Some <==> first_empty_slot(before.semaphore_list@) < MAX_HANDLES
        &&& id is Some ==> {
            &&& slot_filled(
                before.semaphore_list@,
                self.semaphore_list@,
                id->0 as int,
            )
            &&& self.semaphore_list[id->0 as int]->0.count == res_count
            &&& self.semaphore_list[id->0 as int]->0.wait_queue@ == Seq::<
                usize,
            >::empty()
            &&& self.sem_ledger@ == before.sem_ledger@.with_resource(
                id->0 as int,
                res_count,
                before.enable_deadlock_detect,
            )
            &&& *self == (ProcessControlBlock {
                semaphore_list: self.semaphore_list,
                sem_ledger: self.sem_ledger,
                ..before
            })
        }
        &&& id is None ==> *self == before
    }

    /// Makes a semaphore with `res_count` free units in the first empty slot
    /// of the semaphore table, or appended if there is none, and returns the
    /// slot as its handle. On the ledger the semaphore starts afresh with
    /// `res_count` free units, watched if detection is enabled now. Fails
    /// only when the table cannot grow any more.
    pub fn semaphore_create(&mut self, res_count: usize) -> (id: Option<usize>)
        requires
            old(self).wf(),
        ensures
            final(self).wf(),
            final(self).is_after_semaphore_create(*old(self), res_count, id),
    {
        let i = find_empty_slot(&self.semaphore_list);
        if i >= MAX_HANDLES {
            return None;
        }
        put_slot(&mut self.semaphore_list, i, Semaphore::new(res_count));
        self.sem_ledger.set_resource(i, res_count, self.enable_deadlock_detect);
        Some(i)
    }

    /// Whether `self` is what `condvar_create` leaves of `before`, with result `id`.
    pub open spec fn is_after_condvar_create(
        &self,
        before: ProcessControlBlock,
        id: Option<usize>,
    ) -> bool {
        &&& id is Some <==> first_empty_slot(before.condvar_list@) < MAX_HANDLES
        &&& id is Some ==> {
            &&& slot_filled(before.condvar_list@, self.condvar_list@, id->0 as int)
            &&& self.condvar_list[id->0 as int]->0.wait_queue@ == Seq::<
                CondWaiter,
            >::empty()
            &&& *self == (ProcessControlBlock {
                condvar_list: self.condvar_list,
                ..before
            })
        }
        &&& id is None ==> *self == before
    }

    /// Makes a condition variable in the first empty slot of the table, or
    /// appended if there is none, and returns the slot as its handle. Fails
    /// only when the table cannot grow any more.
    pub fn condvar_create(&mut self) -> (id: Option<usize>)
        requires
            old(self).wf(),
        ensures
            final(self).wf(),
            final(self).is_after_condvar_create(*old(self), id),
    {
        let i = find_empty_slot(&self.condvar_list);
        if i >= MAX_HANDLES {
            return None;
        }
        put_slot(&mut self.condvar_list, i, Condvar::new());
        Some(i)
    }

    /// Whether `self` is what `mutex_lock` leaves of `before`, with result `r`.
    pub open spec fn is_after_mutex_lock(
        &self,
        before: ProcessControlBlock,
        tid: usize,
        id: usize,
        r: LockResult,
    ) -> bool {
        &&& r == before.mutex_lock_result(tid, id)
        &&& r is Granted ==> {
            &&& slot_replaced(before.mutex_list@, self.mutex_list@, id as int)
            &&& self.mutex_list[id as int]->0.is_after_lock(
                before.mutex_list[id as int]->0,
                tid,
            )
            &&& self.mutex_ledger@ == if before.detects_mutex(id) {
                before.mutex_ledger@.after_request(tid as int, id as int)
            } else {
                before.mutex_ledger@
            }
            &&& *self == (ProcessControlBlock {
                mutex_list: self.mutex_list,
                mutex_ledger: self.mutex_ledger,
                ..before
            })
        }
        &&& !(r is Granted) ==> *self == before
    }

    /// Thread `tid` asks for mutex `id`. A handle that names no mutex fails.
    /// If the detector watches the mutex, the request is first put to the
    /// ledger, which may refuse it; then nothing has changed. Otherwise the
    /// mutex is locked or the thread joins its queue.
    pub fn mutex_lock(&mut self, tid: usize, id: usize) -> (r: LockResult)
        requires
            old(self).wf(),
            tid < old(self).thread_count,
        ensures
            final(self).wf(),
            final(self).is_after_mutex_lock(*old(self), tid, id, r),
    {
        if id >= self.mutex_list.len() || self.mutex_list[id].is_none() {
            return LockResult::BadHandle;
        }
        if self.enable_deadlock_detect && self.mutex_ledger.is_watched(id) {
            if !self.mutex_ledger.can_record(tid, id) {
                return LockResult::BadHandle;
            }
            if !self.mutex_ledger.request(tid, id) {
                return LockResult::Refused;
            }
        }
        match &mut self.mutex_list[id] {
            Some(m) => LockResult::Granted(m.lock(tid)),
            None => LockResult::BadHandle,
        }
    }

    /// Whether `self` is what `mutex_unlock` leaves of `before`, with result `r`.
    pub open spec fn is_after_mutex_unlock(
        &self,
        before: ProcessControlBlock,
        tid: usize,
        id: usize,
        r: ReleaseResult,
    ) -> bool {
        &&& !before.valid_mutex(id) ==> r is BadHandle && *self == before
        &&& before.valid_mutex(id) ==> {
            &&& r == ReleaseResult::Released(before.mutex_list[id as int]->0.unlock_wakes())
            &&& slot_replaced(before.mutex_list@, self.mutex_list@, id as int)
            &&& self.mutex_list[id as int]->0.is_after_unlock(
                before.mutex_list[id as int]->0,
            )
            &&& self.mutex_ledger@ == if before.mutex_ledger@.watched[id as int] {
                before.mutex_ledger@.after_release(
                    tid as int,
                    id as int,
                    before.mutex_list[id as int]->0.unlock_wakes(),
                )
            } else {
                before.mutex_ledger@
            }
            &&& *self == (ProcessControlBlock {
                mutex_list: self.mutex_list,
                mutex_ledger: self.mutex_ledger,
                ..before
            })
        }
    }

    /// Thread `tid` lets go of mutex `id`, which passes to the first waiter.
    /// A handle that names no mutex fails. If the ledger has the mutex, the
    /// release is booked there too.
    pub fn mutex_unlock(&mut self, tid: usize, id: usize) -> (r: ReleaseResult)
        requires
            old(self).wf(),
            tid < old(self).thread_count,
        ensures
            final(self).wf(),
            final(self).is_after_mutex_unlock(*old(self), tid, id, r),
    {
        if id >= self.mutex_list.len() || self.mutex_list[id].is_none() {
            return ReleaseResult::BadHandle;
        }
        let woken = match &mut self.mutex_list[id] {
            Some(m) => m.unlock(),
            None => None,
        };
        if self.mutex_ledger.is_watched(id) {
            self.mutex_ledger.release(tid, id, woken);
        }
        ReleaseResult::Released(woken)
    }

    /// Whether `self` is what `semaphore_down` leaves of `before`, with result `r`.
    pub open spec fn is_after_semaphore_down(
        &self,
        before: ProcessControlBlock,
        tid: usize,
        id: usize,
        r: LockResult,
    ) -> bool {
        &&& r == before.semaphore_down_result(tid, id)
        &&& r is Granted ==> {
            &&& slot_replaced(
                before.semaphore_list@,
                self.semaphore_list@,
                id as int,
            )
            &&& self.semaphore_list[id as int]->0.is_after_down(
                before.semaphore_list[id as int]->0,
                tid,
            )
            &&& self.sem_ledger@ == if before.detects_semaphore(id) {
                before.sem_ledger@.after_request(tid as int, id as int)
            } else {
                before.sem_ledger@
            }
            &&& *self == (ProcessControlBlock {
                semaphore_list: self.semaphore_list,
                sem_ledger: self.sem_ledger,
                ..before
            })
        }
        &&& !(r is Granted) ==> *self == before
    }

    /// Thread `tid` asks for a unit of semaphore `id`. A handle that names
    /// no semaphore fails. If the detector watches the semaphore, the
    /// request is first put to the ledger, which may refuse it; then nothing
    /// has changed. Otherwise the thread takes a unit or joins the queue.
    pub fn semaphore_down(&mut self, tid: usize, id: usize) -> (r: LockResult)
        requires
            old(self).wf(),
            tid < old(self).thread_count,
        ensures
            final(self).wf(),
            final(self).is_after_semaphore_down(*old(self), tid, id, r),
    {
        if id >= self.semaphore_list.len() || self.semaphore_list[id].is_none() {
            return LockResult::BadHandle;
        }
        if self.enable_deadlock_detect && self.sem_ledger.is_watched(id) {
            if !self.sem_ledger.can_record(tid, id) {
                return LockResult::BadHandle;
            }
            if !self.sem_ledger.request(tid, id) {
                return LockResult::Refused;
            }
        }
        match &mut self.semaphore_list[id] {
            Some(s) => LockResult::Granted(s.down(tid)),
            None => LockResult::BadHandle,
        }
    }

    /// Whether `semaphore_up` on handle `id` can go ahead: the handle names
    /// a semaphore, and that one can take the unit.
    pub open spec fn can_semaphore_up(&self, id: usize) -> bool {
        self.valid_semaphore(id) && self.semaphore_list[id as int]->0.can_up()
    }

    /// Whether `self` is what `semaphore_up` leaves of `before`, with result `r`.
    pub open spec fn is_after_semaphore_up(
        &self,
        before: ProcessControlBlock,
        tid: usize,
        id: usize,
        r: ReleaseResult,
    ) -> bool {
        &&& !before.can_semaphore_up(id) ==> r is BadHandle && *self == before
        &&& before.can_semaphore_up(id) ==> {
            &&& r == ReleaseResult::Released(before.semaphore_list[id as int]->0.up_wakes())
            &&& slot_replaced(
                before.semaphore_list@,
                self.semaphore_list@,
                id as int,
            )
            &&& self.semaphore_list[id as int]->0.is_after_up(
                before.semaphore_list[id as int]->0,
            )
            &&& self.sem_ledger@ == if before.sem_ledger@.watched[id as int] {
                before.sem_ledger@.after_release(
                    tid as int,
                    id as int,
                    before.semaphore_list[id as int]->0.up_wakes(),
                )
            } else {
                before.sem_ledger@
            }
            &&& *self == (ProcessControlBlock {
                semaphore_list: self.semaphore_list,
                sem_ledger: self.sem_ledger,
                ..before
            })
        }
    }

    /// Thread `tid` gives a unit of semaphore `id` back, which passes to the
    /// first waiter. A handle that names no semaphore fails, and so does a
    /// semaphore whose count is at its limit. If the ledger has the
    /// semaphore, the release is booked there too.
    pub fn semaphore_up(&mut self, tid: usize, id: usize) -> (r: ReleaseResult)
        requires
            old(self).wf(),
            tid < old(self).thread_count,
        ensures
            final(self).wf(),
            final(self).is_after_semaphore_up(*old(self), tid, id, r),
    {
        if id >= self.semaphore_list.len() {
            return ReleaseResult::BadHandle;
        }
        let room = match &self.semaphore_list[id] {
            Some(s) => s.has_room(),
            None => false,
        };
        if !room {
            return ReleaseResult::BadHandle;
        }
        let woken = match &mut self.semaphore_list[id] {
            Some(s) => s.up(),
            None => None,
        };
        if self.sem_ledger.is_watched(id) {
            self.sem_ledger.release(tid, id, woken);
        }
        ReleaseResult::Released(woken)
    }

    /// Whether `self` is what `condvar_wait` leaves of `before`, with result `r`.
    pub open spec fn is_after_condvar_wait(
        &self,
        before: ProcessControlBlock,
        tid: usize,
        condvar_id: usize,
        mutex_id: usize,
        r: ReleaseResult,
    ) -> bool {
        &&& !(before.valid_condvar(condvar_id) && before.valid_mutex(mutex_id)) ==> r
            is BadHandle && *self == before
        &&& before.valid_condvar(condvar_id) && before.valid_mutex(mutex_id) ==> {
            &&& r == ReleaseResult::Released(
                before.mutex_list[mutex_id as int]->0.unlock_wakes(),
            )
            &&& slot_replaced(before.mutex_list@, self.mutex_list@, mutex_id as int)
            &&& self.mutex_list[mutex_id as int]->0.is_after_unlock(
                before.mutex_list[mutex_id as int]->0,
            )
            &&& slot_replaced(
                before.condvar_list@,
                self.condvar_list@,
                condvar_id as int,
            )
            &&& self.condvar_list[condvar_id as int]->0.wait_queue@
                == before.condvar_list[condvar_id as int]->0.wait_queue@.push(
                CondWaiter { tid, mutex_id },
            )
            &&& *self == (ProcessControlBlock {
                mutex_list: self.mutex_list,
                condvar_list: self.condvar_list,
                ..before
            })
        }
    }

    /// Thread `tid` gives up mutex `mutex_id` and joins the queue of
    /// condition variable `condvar_id`. A handle that names no condition
    /// variable or no mutex fails. The mutex passes to its first waiter, as
    /// in an unlock that the ledger does not see.
    pub fn condvar_wait(&mut self, tid: usize, condvar_id: usize, mutex_id: usize) -> (r:
        ReleaseResult)
        requires
            old(self).wf(),
        ensures
            final(self).wf(),
            final(self).is_after_condvar_wait(*old(self), tid, condvar_id, mutex_id, r),
    {
        if condvar_id >= self.condvar_list.len() || self.condvar_list[condvar_id].is_none() {
            return ReleaseResult::BadHandle;
        }
        if mutex_id >= self.mutex_list.len() || self.mutex_list[mutex_id].is_none() {
            return ReleaseResult::BadHandle;
        }
        let woken = match &mut self.mutex_list[mutex_id] {
            Some(m) => m.unlock(),
            None => None,
        };
        match &mut self.condvar_list[condvar_id] {
            Some(c) => c.wait(tid, mutex_id),
            None => {},
        }
        ReleaseResult::Released(woken)
    }

    /// How `condvar_signal` ends for handle `id`.
    pub open spec fn condvar_signal_result(&self, id: usize) -> SignalResult {
        if !self.valid_condvar(id) {
            SignalResult::BadHandle
        } else {
            match self.condvar_list[id as int]->0.signal_wakes() {
                None => SignalResult::Nobody,
                Some(w) => SignalResult::Woken(
                    w,
                    if self.valid_mutex(w.mutex_id) {
                        self.mutex_list[w.mutex_id as int]->0.lock_outcome()
                    } else {
                        Acquire::Acquired
                    },
                ),
            }
        }
    }

    /// Whether `self` is what `condvar_signal` leaves of `before`, with result `r`.
    pub open spec fn is_after_condvar_signal(
        &self,
        before: ProcessControlBlock,
        id: usize,
        r: SignalResult,
    ) -> bool {
        &&& r == before.condvar_signal_result(id)
        &&& r is BadHandle ==> *self == before
        &&& !(r is BadHandle) ==> {
            &&& slot_replaced(before.condvar_list@, self.condvar_list@, id as int)
            &&& self.condvar_list[id as int]->0.wait_queue@
                == before.condvar_list[id as int]->0.queue_after_signal()
            &&& *self == (ProcessControlBlock {
                mutex_list: self.mutex_list,
                condvar_list: self.condvar_list,
                ..before
            })
        }
        &&& r is Woken && before.valid_mutex(r->0.mutex_id) ==> {
            &&& slot_replaced(
                before.mutex_list@,
                self.mutex_list@,
                r->0.mutex_id as int,
            )
            &&& self.mutex_list[r->0.mutex_id as int]->0.is_after_lock(
                before.mutex_list[r->0.mutex_id as int]->0,
                r->0.tid,
            )
        }
        &&& !(r is Woken && before.valid_mutex(r->0.mutex_id))
            ==> self.mutex_list == before.mutex_list
    }

    /// Takes the first waiter off the queue of condition variable `id` and
    /// lets it ask for its mutex again: it gets the mutex if that is free
    /// and joins the mutex's queue if not. A handle that names no condition
    /// variable fails. A waiter whose mutex is gone goes on without one.
    pub fn condvar_signal(&mut self, id: usize) -> (r: SignalResult)
        requires
            old(self).wf(),
        ensures
            final(self).wf(),
            final(self).is_after_condvar_signal(*old(self), id, r),
    {
        if id >= self.condvar_list.len() || self.condvar_list[id].is_none() {
            return SignalResult::BadHandle;
        }
        let woken = match &mut self.condvar_list[id] {
            Some(c) => c.signal(),
            None => None,
        };
        match woken {
            None => SignalResult::Nobody,
            Some(w) => {
                if w.mutex_id < self.mutex_list.len() && self.mutex_list[w.mutex_id].is_some() {
                    match &mut self.mutex_list[w.mutex_id] {
                        Some(m) => SignalResult::Woken(w, m.lock(w.tid)),
                        None => SignalResult::Woken(w, Acquire::Acquired),
                    }
                } else {
                    SignalResult::Woken(w, Acquire::Acquired)
                }
            },
        }
    }
}

} // verus!
