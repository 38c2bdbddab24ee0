//! System calls on files. The files themselves are outside: a call here
//! checks the descriptor and the user's memory and says what is to be done
//! with which file, and the caller does it.

use vstd::prelude::*;
use crate::config::MAX_HANDLES;
use crate::mm::memory_set::PageEntry;
use crate::mm::user_access::{
    pages_touched, piece_end, piece_start, translate_addr, Segment, UserWrite,
};
use crate::task::kernel::{lemma_process_replaced, Kernel};
use crate::task::process::{FileDescriptor, ProcessControlBlock};
use crate::task::slots::{first_empty_slot, slot_filled};

verus! {

/// A transfer between a file and a buffer in user memory.
pub struct Transfer {
    /// Names the open file to the outside.
    pub file: usize,
    /// The pieces of the buffer in physical memory, in order.
    pub segments: Vec<Segment>,
}

/// Whether the `len` bytes at `buf` in the translation `m` can be reached.
pub open spec fn buffer_mapped(m: Map<usize, PageEntry>, buf: usize, len: usize) -> bool {
    &&& buf + len <= usize::MAX
    &&& forall|k: int|
        0 <= k < pages_touched(buf as int, len as int) ==> translate_addr(
            m,
            #[trigger] piece_start(buf as int, k),
        ) is Some
}

/// Whether `segments` are the pieces of the `len` bytes at `buf` in the
/// translation `m`.
pub open spec fn is_buffer(
    m: Map<usize, PageEntry>,
    buf: usize,
    len: usize,
    segments: Seq<Segment>,
) -> bool {
    &&& segments.len() == pages_touched(buf as int, len as int)
    &&& forall|k: int|
        0 <= k < segments.len() ==> {
            &&& Some((#[trigger] segments[k]).pa) == translate_addr(m, piece_start(buf as int, k))
            &&& segments[k].len == piece_end(buf as int, len as int, k) - piece_start(buf as int, k)
        }
}

/// The open file behind descriptor `fd` of process `p`, if there is one.
pub open spec fn open_file(p: ProcessControlBlock, fd: usize) -> Option<FileDescriptor> {
    if fd < p.fd_table.len() {
        p.fd_table[fd as int]
    } else {
        None
    }
}

/// Looks a descriptor of the running task's process up.
fn lookup_fd(kernel: &Kernel, fd: usize) -> (r: Option<FileDescriptor>)
    requires
        kernel.wf(),
        kernel.current is Some,
    ensures
        r == open_file(kernel.cur_proc(), fd),
{
    let (pid, _tid) = kernel.current_ids();
    match &kernel.processes[pid] {
        Some(p) => {
            if fd < p.fd_table.len() {
                p.fd_table[fd]
            } else {
                None
            }
        },
        None => None,
    }
}

/// Translates a buffer of the running task's process.
fn user_buffer(kernel: &Kernel, buf: usize, len: usize) -> (r: Option<Vec<Segment>>)
    requires
        kernel.wf(),
        kernel.current is Some,
    ensures
        r is Some <==> buffer_mapped(kernel.cur_proc().memory_set@, buf, len),
        r is Some ==> is_buffer(kernel.cur_proc().memory_set@, buf, len, r->0@),
{
    let (pid, _tid) = kernel.current_ids();
    match &kernel.processes[pid] {
        Some(p) => p.memory_set.translated_byte_buffer(buf, len),
        None => None,
    }
}

/// The running task writes the `len` bytes at `buf` to the file behind
/// descriptor `fd`. Returns the transfer for the caller to make, whose
/// result is the number of bytes written. Returns -1 if `fd` is not the
/// descriptor of an open file, if the file may not be written through it,
/// or if the buffer runs past the last address or touches a page that is
/// not mapped. The kernel's state is not changed.
pub fn sys_write(kernel: &Kernel, fd: usize, buf: usize, len: usize) -> (r: Result<Transfer, isize>)
    requires
        kernel.wf(),
        kernel.current is Some,
    ensures
        ({
            let file = open_file(kernel.cur_proc(), fd);
            let m = kernel.cur_proc().memory_set@;
            &&& r is Ok <==> file is Some && file->0.writable && buffer_mapped(m, buf, len)
            &&& r is Err ==> r->Err_0 == -1
            &&& r is Ok ==> r->Ok_0.file == file->0.file && is_buffer(
                m,
                buf,
                len,
                r->Ok_0.segments@,
            )
        }),
{
    match lookup_fd(kernel, fd) {
        None => Err(-1),
        Some(file) => {
            if !file.writable {
                return Err(-1);
            }
            match user_buffer(kernel, buf, len) {
                Some(segments) => Ok(Transfer { file: file.file, segments }),
                None => Err(-1),
            }
        },
    }
}

/// The running task reads up to `len` bytes from the file behind
/// descriptor `fd` into the buffer at `buf`. Returns the transfer for the
/// caller to make, whose result is the number of bytes read. Returns -1 if
/// `fd` is not the descriptor of an open file, if the file may not be read
/// through it, or if the buffer runs past the last address or touches a
/// page that is not mapped. The kernel's state is not changed.
pub fn sys_read(kernel: &Kernel, fd: usize, buf: usize, len: usize) -> (r: Result<Transfer, isize>)
    requires
        kernel.wf(),
        kernel.current is Some,
    ensures
        ({
            let file = open_file(kernel.cur_proc(), fd);
            let m = kernel.cur_proc().memory_set@;
            &&& r is Ok <==> file is Some && file->0.readable && buffer_mapped(m, buf, len)
            &&& r is Err ==> r->Err_0 == -1
            &&& r is Ok ==> r->Ok_0.file == file->0.file && is_buffer(
                m,
                buf,
                len,
                r->Ok_0.segments@,
            )
        }),
{
    match lookup_fd(kernel, fd) {
        None => Err(-1),
        Some(file) => {
            if !file.readable {
                return Err(-1);
            }
            match user_buffer(kernel, buf, len) {
                Some(segments) => Ok(Transfer { file: file.file, segments }),
                None => Err(-1),
            }
        },
    }
}

/// Flag of `open`: the file is opened for writing only.
pub const O_WRONLY: u32 = 1;

/// Flag of `open`: the file is opened for reading and writing.
pub const O_RDWR: u32 = 2;

/// Flag of `open`: the file is created if it does not exist.
pub const O_CREATE: u32 = 512;

/// Flag of `open`: the file is emptied.
pub const O_TRUNC: u32 = 1024;

/// All flags of `open`.
pub const O_ALL: u32 = 1539;

/// The flags of an `open`.
#[derive(Clone, Copy, Debug, PartialEq, Eq, Structural)]
pub struct OpenFlags {
    /// The flags as bits.
    pub bits: u32,
}

impl OpenFlags {
    /// Whether `bits` holds nothing but flags of `open`.
    pub open spec fn valid(bits: u32) -> bool {
        bits & !O_ALL == 0
    }

    /// Whether a file opened with these flags may be read.
    pub open spec fn readable(self) -> bool {
        self.bits == 0 || self.bits & O_WRONLY == 0
    }

    /// Whether a file opened with these flags may be written.
    pub open spec fn writable(self) -> bool {
        self.bits != 0
    }

    /// The flags that `bits` holds, or nothing if it holds anything else.
    pub fn from_bits(bits: u32) -> (r: Option<OpenFlags>)
        ensures
            r is Some <==> Self::valid(bits),
            r is Some ==> r->0.bits == bits,
    {
        if bits & !O_ALL == 0 {
            Some(OpenFlags { bits })
        } else {
            None
        }
    }

    /// Whether a file opened with these flags may be read and written:
    /// without flags it is read only, with `O_WRONLY` written only, and
    /// else both.
    pub fn read_write(&self) -> (r: (bool, bool))
        ensures
            r.0 == self.readable(),
            r.1 == self.writable(),
    {
        if self.bits == 0 {
            (true, false)
        } else if self.bits & O_WRONLY != 0 {
            (false, true)
        } else {
            (true, true)
        }
    }
}

/// Whether `sys_open` with these arguments succeeds in kernel state `k`.
pub open spec fn open_succeeds(k: Kernel, flags: u32, file: Option<usize>) -> bool {
    &&& OpenFlags::valid(flags)
    &&& file is Some
    &&& first_empty_slot(k.cur_proc().fd_table@) < MAX_HANDLES
}

/// Gives the running task a descriptor for a file that was opened outside
/// with the flags `flags`: `file` names the file, and is nothing if the
/// file could not be opened. The descriptor is the first empty slot of the
/// process's file table, or a new last slot, and is returned.
///
/// Returns -1, and changes nothing, if `flags` holds anything but flags of
/// `open`, if there is no file, or if the table cannot grow any more.
pub fn sys_open(kernel: &mut Kernel, flags: u32, file: Option<usize>) -> (r: isize)
    requires
        old(kernel).wf(),
        old(kernel).current is Some,
    ensures
        final(kernel).wf(),
        !open_succeeds(*old(kernel), flags, file) ==> r == -1 && final(kernel).unchanged(
            *old(kernel),
        ),
        open_succeeds(*old(kernel), flags, file) ==> {
            let pid = old(kernel).current->0.pid;
            let p0 = old(kernel).cur_proc();
            let p1 = final(kernel).processes[pid as int]->0;
            &&& r == first_empty_slot(p0.fd_table@)
            &&& old(kernel).only_process_changed(*final(kernel), pid)
            &&& p1 == (ProcessControlBlock { fd_table: p1.fd_table, ..p0 })
            &&& slot_filled(p0.fd_table@, p1.fd_table@, r as int)
            &&& p1.fd_table[r as int] == Some(
                FileDescriptor {
                    file: file->0,
                    readable: (OpenFlags { bits: flags }).readable(),
                    writable: (OpenFlags { bits: flags }).writable(),
                },
            )
        },
{
    let open_flags = match OpenFlags::from_bits(flags) {
        Some(open_flags) => open_flags,
        None => {
            return -1;
        },
    };
    let file = match file {
        Some(file) => file,
        None => {
            return -1;
        },
    };
    let (readable, writable) = open_flags.read_write();
    let (pid, _tid) = kernel.current_ids();
    let fd = match &mut kernel.processes[pid] {
        Some(p) => p.alloc_fd(FileDescriptor { file, readable, writable }),
        None => None,
    };
    match fd {
        Some(fd) => {
            proof {
                lemma_process_replaced(old(kernel).processes@, kernel.processes@, pid as int);
            }
            fd as isize
        },
        None => {
            assert(kernel.processes@ =~= old(kernel).processes@);
            -1
        },
    }
}

/// Closes descriptor `fd` of the running task's process: its slot in the
/// file table becomes empty. Returns 0, or -1 if `fd` is not the descriptor
/// of an open file, which changes nothing.
pub fn sys_close(kernel: &mut Kernel, fd: usize) -> (r: isize)
    requires
        old(kernel).wf(),
        old(kernel).current is Some,
    ensures
        final(kernel).wf(),
        open_file(old(kernel).cur_proc(), fd) is None ==> r == -1 && final(kernel).unchanged(
            *old(kernel),
        ),
        open_file(old(kernel).cur_proc(), fd) is Some ==> {
            let pid = old(kernel).current->0.pid;
            let p0 = old(kernel).cur_proc();
            let p1 = final(kernel).processes[pid as int]->0;
            &&& r == 0
            &&& old(kernel).only_process_changed(*final(kernel), pid)
            &&& p1 == (ProcessControlBlock { fd_table: p1.fd_table, ..p0 })
            &&& p1.fd_table@ == p0.fd_table@.update(fd as int, None)
        },
{
    if lookup_fd(kernel, fd).is_none() {
        return -1;
    }
    let (pid, _tid) = kernel.current_ids();
    match &mut kernel.processes[pid] {
        Some(p) => {
            p.fd_table[fd] = None;
        },
        None => {},
    }
    proof {
        lemma_process_replaced(old(kernel).processes@, kernel.processes@, pid as int);
    }
    0
}

/// The kind of a file.
#[derive(Clone, Copy, Debug, PartialEq, Eq, Structural)]
pub enum StatMode {
    /// No kind.
    Null,
    /// A directory.
    Dir,
    /// An ordinary file.
    File,
}

impl StatMode {
    /// The kind as the bits that user programs know.
    pub fn bits(&self) -> (b: u32)
        ensures
            b == match *self {
                StatMode::Null => 0u32,
                StatMode::Dir => 0o040000u32,
                StatMode::File => 0o100000u32,
            },
    {
        match self {
            StatMode::Null => 0,
            StatMode::Dir => 0o040000,
            StatMode::File => 0o100000,
        }
    }
}

/// What a task is told about a file.
#[derive(Clone, Copy, Debug, PartialEq, Eq, Structural)]
pub struct Stat {
    /// The device that holds the file: always 0.
    pub dev: u64,
    /// The number of the file's inode.
    pub ino: u64,
    /// The kind of the file.
    pub mode: StatMode,
    /// Number of names the file has.
    pub nlink: u32,
}

/// Number of words that a `Stat` in user memory has after its fields, all
/// zero.
pub const STAT_PAD_WORDS: usize = 7;

/// Where part `i` of a `Stat` stands in user memory: the device, the inode
/// number, the kind, the number of names, and then the words of padding.
pub open spec fn stat_offset(i: int) -> int {
    if i == 0 {
        0
    } else if i == 1 {
        8
    } else if i == 2 {
        16
    } else if i == 3 {
        20
    } else {
        24 + 8 * (i - 4)
    }
}

/// Tells the running task about the file behind descriptor `fd`: `st` is
/// the address of a `Stat` in the task's memory, `ino` the number of the
/// file's inode and `nlink` the number of its names, as the file system has
/// them. Returns 0 and the value to store with the physical address of each
/// of its four fields and of the seven words of padding after them, which
/// are to be zero. Returns -1 and nothing if `fd` is not the descriptor of
/// an open file, or if a part of the structure has no address or lies in a
/// page that is not mapped. The kernel's state is not changed.
pub fn sys_fstat(kernel: &Kernel, fd: usize, st: usize, ino: u64, nlink: u32) -> (r: (
    isize,
    Option<UserWrite<Stat>>,
))
    requires
        kernel.wf(),
        kernel.current is Some,
    ensures
        ({
            let m = kernel.cur_proc().memory_set@;
            let parts = 4 + STAT_PAD_WORDS;
            &&& r.1 is Some <==> open_file(kernel.cur_proc(), fd) is Some && forall|i: int|
                0 <= i < parts ==> translate_addr(m, st + #[trigger] stat_offset(i)) is Some
            &&& r.0 == if r.1 is Some { 0isize } else { -1isize }
            &&& r.1 is Some ==> {
                &&& r.1->0.value == (Stat { dev: 0, ino, mode: StatMode::File, nlink })
                &&& r.1->0.addrs.len() == parts
                &&& forall|i: int|
                    0 <= i < parts ==> Some(#[trigger] r.1->0.addrs[i]) == translate_addr(
                        m,
                        st + stat_offset(i),
                    )
            }
        }),
{
    if lookup_fd(kernel, fd).is_none() {
        return (-1, None);
    }
    let parts: usize = 4 + STAT_PAD_WORDS;
    let mut offsets: Vec<usize> = Vec::new();
    let mut i: usize = 0;
    while i < parts
        invariant
            i <= parts,
            parts == 4 + STAT_PAD_WORDS,
            offsets.len() == i,
            forall|j: int| 0 <= j < i ==> #[trigger] offsets[j] == stat_offset(j),
        decreases parts - i,
    {
        let off: usize = if i == 0 {
            0
        } else if i == 1 {
            8
        } else if i == 2 {
            16
        } else if i == 3 {
            20
        } else {
            24 + 8 * (i - 4)
        };
        offsets.push(off);
        i = i + 1;
    }
    let (pid, _tid) = kernel.current_ids();
    let addrs = match &kernel.processes[pid] {
        Some(p) => p.memory_set.translate_fields(st, &offsets),
        None => None,
    };
    proof {
        let m = kernel.cur_proc().memory_set@;
        if addrs is Some {
            assert forall|i: int| 0 <= i < parts implies translate_addr(
                m,
                st + #[trigger] stat_offset(i),
            ) is Some by {
                assert(translate_addr(m, st + offsets[i]) is Some);
            }
        } else {
            let i = choose|i: int|
                0 <= i < offsets.len() && !(translate_addr(m, st + #[trigger] offsets[i]) is Some);
            assert(translate_addr(m, st + stat_offset(i)) is None);
        }
    }
    match addrs {
        Some(addrs) => (
            0,
            Some(UserWrite { value: Stat { dev: 0, ino, mode: StatMode::File, nlink }, addrs }),
        ),
        None => (-1, None),
    }
}

/// Whether two names are the same.
fn same_name(a: &Vec<u8>, b: &Vec<u8>) -> (r: bool)
    ensures
        r == (a@ == b@),
{
    if a.len() != b.len() {
        return false;
    }
    let n = a.len();
    let mut i: usize = 0;
    while i < n
        invariant
            i <= n,
            n == a.len(),
            n == b.len(),
            forall|j: int| 0 <= j < i ==> a@[j] == b@[j],
        decreases n - i,
    {
        if a[i] != b[i] {
            return false;
        }
        i = i + 1;
    }
    assert(a@ =~= b@);
    true
}

/// What is to be done for a `linkat`.
#[derive(Clone, Copy, Debug, PartialEq, Eq, Structural)]
pub enum LinkStep {
    /// The call fails with this result, and the file system is not touched.
    Fail(isize),
    /// The new name is to be given to the file; the call returns 0 if that
    /// worked and -1 if not.
    Link,
}

/// Gives the file with name `old_name` the further name `new_name`. A file
/// cannot be linked to its own name: then the call fails with -1. Otherwise
/// the link is for the caller to make.
pub fn sys_linkat(old_name: &Vec<u8>, new_name: &Vec<u8>) -> (r: LinkStep)
    ensures
        r == if old_name@ == new_name@ {
            LinkStep::Fail(-1isize)
        } else {
            LinkStep::Link
        },
{
    if same_name(old_name, new_name) {
        LinkStep::Fail(-1)
    } else {
        LinkStep::Link
    }
}

/// The result of a `linkat` whose link was tried: 0 if it was made, -1 if
/// not.
pub fn link_result(linked: bool) -> (r: isize)
    ensures
        r == if linked { 0isize } else { -1isize },
{
    if linked {
        0
    } else {
        -1
    }
}

/// What is to be done for an `unlinkat`.
#[derive(Clone, Copy, Debug, PartialEq, Eq, Structural)]
pub enum UnlinkStep {
    /// The call fails with this result, and the file system is not touched.
    Fail(isize),
    /// The name is to be removed, after the file's content was released if
    /// `clear` is set; the call returns what the removal returns.
    Unlink {
        /// Whether the name is the file's last, so that its content goes.
        clear: bool,
    },
}

/// Removes a name of a file. `nlink` is the number of names of the file
/// that the name was found to belong to, or nothing if there is no such
/// name: then the call fails with -1. The content of the file is released
/// with its last name.
pub fn sys_unlinkat(nlink: Option<u32>) -> (r: UnlinkStep)
    ensures
        r == match nlink {
            None => UnlinkStep::Fail(-1isize),
            Some(n) => UnlinkStep::Unlink { clear: n == 1 },
        },
{
    match nlink {
        None => UnlinkStep::Fail(-1),
        Some(n) => UnlinkStep::Unlink { clear: n == 1 },
    }
}

} // verus!
