//! The syscalls on files and on the file system.

use vstd::prelude::*;
use crate::fs::{FileHandle, Stat, STAT_SIZE};
use crate::marshal::{as_isize, bytes_equal, wrapped_isize};
use crate::mm::space::lemma_string_end_unique;
use crate::task::control_block::{lowest_free, TaskView};
use crate::task::processor::{current_task, Processor};

verus! {

/// A transfer out of a task that a file has to carry out: `data` is to be written to
/// `file`. The syscall returns the byte count that the file reports.
pub struct WriteRequest {
    pub file: FileHandle,
    pub data: Vec<u8>,
}

/// A transfer into a task that a file has to carry out: up to `len` bytes are to be read
/// from `file` and handed to `finish_read`, which stores them at address `buf`.
#[derive(Clone, Copy, Debug, PartialEq, Eq, Structural)]
pub struct ReadRequest {
    pub file: FileHandle,
    pub buf: usize,
    pub len: usize,
}

/// A request to the file system to open, or create, the file named `path` as `flags`
/// ask. The handle that the file system returns goes to `finish_open`.
pub struct OpenRequest {
    pub path: Vec<u8>,
    pub flags: u32,
}

/// A request to the file system to give the file named `old_name` the further name
/// `new_name`. The syscall returns what the file system reports.
pub struct LinkRequest {
    pub old_name: Vec<u8>,
    pub new_name: Vec<u8>,
}

/// The character `.` as a byte.
pub const DOT: u8 = 46;

/// Whether `name` is one of the two reserved names `.` and `..`.
pub open spec fn is_reserved_name(name: Seq<u8>) -> bool {
    name == seq![DOT] || name == seq![DOT, DOT]
}

impl TaskView {
    /// The string that starts at address `ptr` of the task, if it ends within mapped
    /// memory.
    pub open spec fn string_at(self, ptr: int) -> Option<Seq<u8>> {
        if exists|len: int| self.space.terminated_at(ptr, len) {
            let len = choose|len: int| self.space.terminated_at(ptr, len);
            Some(self.space.bytes(ptr, len))
        } else {
            None
        }
    }

    /// What the task may write to descriptor `fd` from the `len` bytes at address `buf`:
    /// the file and the bytes, where the descriptor is open and writable and the bytes
    /// are mapped.
    pub open spec fn write_transfer(self, fd: int, buf: int, len: int) -> Option<
        (FileHandle, Seq<u8>),
    > {
        match self.file(fd) {
            Some(file) => if file.writable && self.space.accessible(buf, len) {
                Some((file, self.space.bytes(buf, len)))
            } else {
                None
            },
            None => None,
        }
    }

    /// The file from which the task may read into the `len` bytes at address `buf`,
    /// where descriptor `fd` is open and readable and the bytes are mapped.
    pub open spec fn read_transfer(self, fd: int, buf: int, len: int) -> Option<FileHandle> {
        match self.file(fd) {
            Some(file) => if file.readable && self.space.accessible(buf, len) {
                Some(file)
            } else {
                None
            },
            None => None,
        }
    }

    /// The two names of a request to link, read from the addresses `old_name` and
    /// `new_name`, where the request goes to the file system: both names end within
    /// mapped memory and they differ.
    pub open spec fn link_request(self, old_name: int, new_name: int) -> Option<(Seq<u8>, Seq<u8>)> {
        match (self.string_at(old_name), self.string_at(new_name)) {
            (Some(old), Some(new)) => if old == new {
                None
            } else {
                Some((old, new))
            },
            _ => None,
        }
    }

    /// The name of a request to unlink, read from address `name`, where the request goes
    /// to the file system: the name ends within mapped memory and is not reserved.
    pub open spec fn unlink_request(self, name: int) -> Option<Seq<u8>> {
        match self.string_at(name) {
            Some(text) => if is_reserved_name(text) {
                None
            } else {
                Some(text)
            },
            None => None,
        }
    }

    /// The task after descriptor `fd` was closed, where it was open.
    pub open spec fn closed(self, fd: int) -> Option<TaskView> {
        match self.file(fd) {
            Some(_) => Some(TaskView { fd_table: self.fd_table.update(fd, None), ..self }),
            None => None,
        }
    }

    /// The task after `file` took the lowest descriptor that was free.
    pub open spec fn opened(self, file: FileHandle) -> TaskView {
        let fd = lowest_free(self.fd_table);
        let table = if fd < self.fd_table.len() {
            self.fd_table
        } else {
            self.fd_table.push(None)
        };
        TaskView { fd_table: table.update(fd, Some(file)), ..self }
    }
}

/// The string of a task that ends within mapped memory is the one that a scan from its
/// first byte to the first zero byte reads.
pub proof fn lemma_string_at(task: TaskView, ptr: int, len: int)
    requires
        task.space.terminated_at(ptr, len),
    ensures
        task.string_at(ptr) == Some(task.space.bytes(ptr, len)),
{
    let chosen = choose|len: int| task.space.terminated_at(ptr, len);
    lemma_string_end_unique(task.space, ptr, len, chosen);
}

/// A string that runs into unmapped memory is no string of the task.
pub proof fn lemma_no_string_at(task: TaskView, ptr: int, len: int)
    requires
        task.space.unterminated_at(ptr, len),
    ensures
        task.string_at(ptr) is None,
{
    if exists|other: int| task.space.terminated_at(ptr, other) {
        let other = choose|other: int| task.space.terminated_at(ptr, other);
        lemma_string_end_unique(task.space, ptr, other, len);
    }
}

/// A request to link a name to itself is refused, whether a file of that name exists
/// or not, and whether the name is given by one address or by two.
pub proof fn lemma_link_to_itself_refused(task: TaskView, old_name: int, new_name: int)
    requires
        old_name == new_name || task.string_at(old_name) == task.string_at(new_name),
    ensures
        task.link_request(old_name, new_name) is None,
{
}

/// A request to unlink `.` or `..` is refused.
pub proof fn lemma_unlink_reserved_refused(task: TaskView, name: int)
    requires
        task.string_at(name) == Some(seq![DOT]) || task.string_at(name) == Some(seq![DOT, DOT]),
    ensures
        task.unlink_request(name) is None,
{
}

/// Once a descriptor is closed, the task can neither read from it nor write to it,
/// whatever the buffer.
pub proof fn lemma_closed_descriptor_refuses(task: TaskView, fd: int, buf: int, len: int)
    requires
        task.closed(fd) is Some,
    ensures
        task.closed(fd).unwrap().read_transfer(fd, buf, len) is None,
        task.closed(fd).unwrap().write_transfer(fd, buf, len) is None,
        task.closed(fd).unwrap().closed(fd) is None,
{
}

/// The descriptor that a file is given on opening holds that file afterwards and was
/// free before, and no other descriptor changes.
pub proof fn lemma_opened_descriptor(task: TaskView, file: FileHandle)
    ensures
        task.file(lowest_free(task.fd_table)) is None,
        task.opened(file).file(lowest_free(task.fd_table)) == Some(file),
        forall|fd: int|
            fd != lowest_free(task.fd_table) ==> #[trigger] task.opened(file).file(fd) == task.file(
                fd,
            ),
{
    crate::task::control_block::lemma_lowest_free(task.fd_table);
}

/// Checks a write of the `len` bytes at address `buf` to descriptor `fd` and collects
/// the bytes. Fails with -1 where the descriptor is not open or not writable, or where
/// the bytes are not all mapped.
pub fn sys_write(processor: &Processor, fd: usize, buf: usize, len: usize) -> (request: Result<
    WriteRequest,
    isize,
>)
    requires
        processor.wf(),
        processor@.current is Some,
    ensures
        match processor@.current.unwrap().write_transfer(fd as int, buf as int, len as int) {
            Some((file, data)) => request is Ok && request.unwrap().file == file
                && request.unwrap().data@ == data,
            None => request == Err::<WriteRequest, isize>(-1isize),
        },
{
    let task = match current_task(processor) {
        Some(task) => task,
        None => vstd::pervasive::unreached(),
    };
    if let Some(file) = task.file(fd) {
        if !file.writable {
            return Err(-1);
        }
        match task.memory_set().read_bytes(buf, len) {
            Some(data) => Ok(WriteRequest { file, data }),
            None => Err(-1),
        }
    } else {
        Err(-1)
    }
}

/// Checks a read from descriptor `fd` into the `len` bytes at address `buf`. Fails with
/// -1 where the descriptor is not open or not readable, or where the bytes are not all
/// mapped.
pub fn sys_read(processor: &Processor, fd: usize, buf: usize, len: usize) -> (request: Result<
    ReadRequest,
    isize,
>)
    requires
        processor.wf(),
        processor@.current is Some,
    ensures
        match processor@.current.unwrap().read_transfer(fd as int, buf as int, len as int) {
            Some(file) => request == Ok::<ReadRequest, isize>(ReadRequest { file, buf, len }),
            None => request == Err::<ReadRequest, isize>(-1isize),
        },
{
    let task = match current_task(processor) {
        Some(task) => task,
        None => vstd::pervasive::unreached(),
    };
    if let Some(file) = task.file(fd) {
        if !file.readable {
            return Err(-1);
        }
        match task.memory_set().translated_byte_buffer(buf, len) {
            Some(_) => Ok(ReadRequest { file, buf, len }),
            None => Err(-1),
        }
    } else {
        Err(-1)
    }
}

/// The number of bytes of `data` that a buffer of `len` bytes takes.
pub open spec fn taken(len: usize, data: Seq<u8>) -> int {
    if data.len() <= len {
        data.len() as int
    } else {
        len as int
    }
}

/// Stores what a file has delivered for a read into the `len` bytes at address `buf`:
/// the bytes of `data`, as far as the buffer takes them. Returns their number, or -1,
/// with nothing changed, where the bytes to be stored are not all mapped.
pub fn finish_read(processor: &mut Processor, buf: usize, len: usize, data: &[u8]) -> (count: isize)
    requires
        old(processor).wf(),
        old(processor)@.current is Some,
    ensures
        final(processor).wf(),
        final(processor)@.current is Some,
        final(processor)@ == old(processor)@.with_current(
            TaskView {
                space: final(processor)@.current.unwrap().space,
                ..old(processor)@.current.unwrap()
            },
        ),
        old(processor)@.current.unwrap().space.accessible(buf as int, taken(len, data@)) ==> {
            &&& count == wrapped_isize(taken(len, data@) as usize)
            &&& old(processor)@.current.unwrap().space.written(
                buf as int,
                data@.take(taken(len, data@)),
                final(processor)@.current.unwrap().space,
            )
        },
        !old(processor)@.current.unwrap().space.accessible(buf as int, taken(len, data@)) ==> {
            &&& count == -1
            &&& final(processor)@ == old(processor)@
        },
{
    let count = if data.len() <= len { data.len() } else { len };
    let part = vstd::slice::slice_subrange(data, 0, count);
    assert(part@ =~= data@.take(count as int));
    let memory_set = processor.current_mut().memory_set_mut();
    if memory_set.write_bytes(buf, part) {
        as_isize(count)
    } else {
        -1
    }
}

/// Reads the name of the file to open from address `path`. Fails with -1 where the name
/// does not end within mapped memory.
pub fn sys_open(processor: &Processor, path: usize, flags: u32) -> (request: Result<
    OpenRequest,
    isize,
>)
    requires
        processor.wf(),
        processor@.current is Some,
    ensures
        match processor@.current.unwrap().string_at(path as int) {
            Some(name) => request is Ok && request.unwrap().path@ == name
                && request.unwrap().flags == flags,
            None => request == Err::<OpenRequest, isize>(-1isize),
        },
{
    let task = match current_task(processor) {
        Some(task) => task,
        None => vstd::pervasive::unreached(),
    };
    match task.memory_set().translated_str(path) {
        Some(name) => {
            proof {
                lemma_string_at(processor@.current.unwrap(), path as int, name@.len() as int);
            }
            Ok(OpenRequest { path: name, flags })
        },
        None => {
            proof {
                let len = choose|len: int|
                    processor@.current.unwrap().space.unterminated_at(path as int, len);
                lemma_no_string_at(processor@.current.unwrap(), path as int, len);
            }
            Err(-1)
        },
    }
}

/// Takes what the file system has answered to a request to open a file. Where it has
/// opened one, the handle gets the lowest descriptor that is free, and the descriptor is
/// returned; where it has not, the syscall fails with -1 and nothing changes.
pub fn finish_open(processor: &mut Processor, file: Option<FileHandle>) -> (fd: isize)
    requires
        old(processor)@.current is Some,
    ensures
        match file {
            Some(file) => {
                &&& fd == wrapped_isize(lowest_free(old(processor)@.current.unwrap().fd_table) as usize)
                &&& final(processor)@ == old(processor)@.with_current(
                    old(processor)@.current.unwrap().opened(file),
                )
            },
            None => fd == -1 && final(processor)@ == old(processor)@,
        },
{
    if let Some(inode) = file {
        let task = processor.current_mut();
        let fd = task.alloc_fd();
        task.set_file(fd, Some(inode));
        as_isize(fd)
    } else {
        -1
    }
}

/// Closes descriptor `fd`. Fails with -1, changing nothing, where it is not open.
pub fn sys_close(processor: &mut Processor, fd: usize) -> (status: isize)
    requires
        old(processor)@.current is Some,
    ensures
        match old(processor)@.current.unwrap().closed(fd as int) {
            Some(task) => status == 0 && final(processor)@ == old(processor)@.with_current(task),
            None => status == -1 && final(processor)@ == old(processor)@,
        },
{
    let task = processor.current_mut();
    if task.file(fd).is_none() {
        return -1;
    }
    task.set_file(fd, None);
    0
}

/// Checks a request for the metadata of the file behind descriptor `fd`, to be stored
/// at address `st`. Fails with -1 where the descriptor is not open or the record would
/// not lie in mapped memory. The record that the file reports goes to `finish_fstat`.
pub fn sys_fstat(processor: &Processor, fd: usize, st: usize) -> (file: Result<FileHandle, isize>)
    requires
        processor.wf(),
        processor@.current is Some,
    ensures
        match processor@.current.unwrap().file(fd as int) {
            Some(handle) => if processor@.current.unwrap().space.accessible(
                st as int,
                STAT_SIZE as int,
            ) {
                file == Ok::<FileHandle, isize>(handle)
            } else {
                file == Err::<FileHandle, isize>(-1isize)
            },
            None => file == Err::<FileHandle, isize>(-1isize),
        },
{
    let task = match current_task(processor) {
        Some(task) => task,
        None => vstd::pervasive::unreached(),
    };
    if let Some(file) = task.file(fd) {
        match task.memory_set().translated_byte_buffer(st, STAT_SIZE) {
            Some(_) => Ok(file),
            None => Err(-1),
        }
    } else {
        Err(-1)
    }
}

/// Stores the metadata `stat` that a file has reported at address `st`, also where the
/// record lies across pages. Returns 0, or -1, with nothing changed, where the record
/// would not lie in mapped memory.
pub fn finish_fstat(processor: &mut Processor, st: usize, stat: &Stat) -> (status: isize)
    requires
        old(processor).wf(),
        old(processor)@.current is Some,
    ensures
        final(processor).wf(),
        final(processor)@.current is Some,
        final(processor)@ == old(processor)@.with_current(
            TaskView {
                space: final(processor)@.current.unwrap().space,
                ..old(processor)@.current.unwrap()
            },
        ),
        old(processor)@.current.unwrap().space.accessible(st as int, STAT_SIZE as int) ==> {
            &&& status == 0
            &&& old(processor)@.current.unwrap().space.written(
                st as int,
                stat.encoding(),
                final(processor)@.current.unwrap().space,
            )
        },
        !old(processor)@.current.unwrap().space.accessible(st as int, STAT_SIZE as int) ==> {
            &&& status == -1
            &&& final(processor)@ == old(processor)@
        },
{
    let record = stat.to_bytes();
    let memory_set = processor.current_mut().memory_set_mut();
    if memory_set.write_bytes(st, record.as_slice()) {
        0
    } else {
        -1
    }
}

/// Reads the two names of a request to link from the addresses `old_name` and
/// `new_name`. Fails with -1 where a name does not end within mapped memory, and where
/// the two names are the same.
pub fn sys_linkat(processor: &Processor, old_name: usize, new_name: usize) -> (request: Result<
    LinkRequest,
    isize,
>)
    requires
        processor.wf(),
        processor@.current is Some,
    ensures
        match processor@.current.unwrap().link_request(old_name as int, new_name as int) {
            Some((old, new)) => request is Ok && request.unwrap().old_name@ == old
                && request.unwrap().new_name@ == new,
            None => request == Err::<LinkRequest, isize>(-1isize),
        },
{
    let task = match current_task(processor) {
        Some(task) => task,
        None => vstd::pervasive::unreached(),
    };
    let old = match task.memory_set().translated_str(old_name) {
        Some(name) => {
            proof {
                lemma_string_at(processor@.current.unwrap(), old_name as int, name@.len() as int);
            }
            name
        },
        None => {
            proof {
                let len = choose|len: int|
                    processor@.current.unwrap().space.unterminated_at(old_name as int, len);
                lemma_no_string_at(processor@.current.unwrap(), old_name as int, len);
            }
            return Err(-1);
        },
    };
    let new = match task.memory_set().translated_str(new_name) {
        Some(name) => {
            proof {
                lemma_string_at(processor@.current.unwrap(), new_name as int, name@.len() as int);
            }
            name
        },
        None => {
            proof {
                let len = choose|len: int|
                    processor@.current.unwrap().space.unterminated_at(new_name as int, len);
                lemma_no_string_at(processor@.current.unwrap(), new_name as int, len);
            }
            return Err(-1);
        },
    };
    if bytes_equal(&old, &new) {
        return Err(-1);
    }
    Ok(LinkRequest { old_name: old, new_name: new })
}

/// Reads the name of a request to unlink from address `name`. Fails with -1 where the
/// name does not end within mapped memory, and where it is `.` or `..`. The name goes to
/// the file system, and the syscall returns what the file system reports.
pub fn sys_unlinkat(processor: &Processor, name: usize) -> (request: Result<Vec<u8>, isize>)
    requires
        processor.wf(),
        processor@.current is Some,
    ensures
        match processor@.current.unwrap().unlink_request(name as int) {
            Some(text) => request is Ok && request.unwrap()@ == text,
            None => request == Err::<Vec<u8>, isize>(-1isize),
        },
{
    let task = match current_task(processor) {
        Some(task) => task,
        None => vstd::pervasive::unreached(),
    };
    let text = match task.memory_set().translated_str(name) {
        Some(text) => {
            proof {
                lemma_string_at(processor@.current.unwrap(), name as int, text@.len() as int);
            }
            text
        },
        None => {
            proof {
                let len = choose|len: int|
                    processor@.current.unwrap().space.unterminated_at(name as int, len);
                lemma_no_string_at(processor@.current.unwrap(), name as int, len);
            }
            return Err(-1);
        },
    };
    let single = text.len() == 1 && text[0] == DOT;
    let double = text.len() == 2 && text[0] == DOT && text[1] == DOT;
    proof {
        if single {
            assert(text@ =~= seq![DOT]);
        }
        if double {
            assert(text@ =~= seq![DOT, DOT]);
        }
        if text@ == seq![DOT] {
            assert(seq![DOT].len() == 1 && seq![DOT][0] == DOT);
        }
        if text@ == seq![DOT, DOT] {
            assert(seq![DOT, DOT].len() == 2 && seq![DOT, DOT][0] == DOT && seq![DOT, DOT][1] == DOT);
        }
    }
    if single || double {
        return Err(-1);
    }
    Ok(text)
}

} // verus!
