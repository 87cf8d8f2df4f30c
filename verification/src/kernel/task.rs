//! Task introspection used by the scheduler and lifecycle hooks: fields of a
//! `task_struct`, found at the offsets the loader injected.

use vstd::prelude::*;

use crate::btf;
use crate::common;
use crate::load::Offsets;

verus! {

/// A scheduler `task_struct`: what can be read from its address on, or `None` for
/// a null pointer. Reading further than that faults.
#[derive(Clone, Copy, Debug)]
pub struct Task<'a> {
    pub memory: Option<&'a [u8]>,
    pub offsets: Offsets,
    pub big_endian: bool,
}

/// The 32-bit word at `offset`, in the machine's byte order; 0 on a null task or
/// a fault.
pub open spec fn field(task: Task, offset: int) -> u32 {
    match task.memory {
        Some(memory) => if 0 <= offset && offset + 4 <= memory@.len() {
            let b = memory@.subrange(offset, offset + 4);
            (if task.big_endian {
                btf::be_value(b)
            } else {
                btf::le_value(b)
            }) as u32
        } else {
            0
        },
        None => 0,
    }
}

/// Both words from the pid offset on can be read.
pub open spec fn ids_readable(task: Task) -> bool {
    task.memory matches Some(memory) && task.offsets.pid + 8 <= memory@.len()
}

/// The two words from the pid offset on; zeros unless both can be read.
pub open spec fn both_ids(task: Task) -> (u32, u32) {
    if ids_readable(task) {
        (field(task, task.offsets.pid as int), field(task, task.offsets.pid + 4))
    } else {
        (0, 0)
    }
}

/// The two halves of a 64-bit load, in the order they lie in memory.
pub open spec fn halved(word: u64, big_endian: bool) -> (u32, u32) {
    let (low, high) = ((word % 0x1_0000_0000) as u32, (word / 0x1_0000_0000) as u32);
    if big_endian {
        (high, low)
    } else {
        (low, high)
    }
}

/// The two halves of a 64-bit load, in the order they lie in memory: low half
/// first on a little-endian machine, high half first on a big-endian one.
pub fn halves(word: u64, big_endian: bool) -> (out: (u32, u32))
    ensures
        ({
            let (low, high) = ((word % 0x1_0000_0000) as u32, (word / 0x1_0000_0000) as u32);
            out == if big_endian {
                (high, low)
            } else {
                (low, high)
            }
        }),
        out == halved(word, big_endian),
{
    assert(word as u32 == word % 0x1_0000_0000 && (word >> 32) as u32 == word / 0x1_0000_0000)
        by (bit_vector);
    if big_endian {
        ((word >> 32) as u32, word as u32)
    } else {
        (word as u32, (word >> 32) as u32)
    }
}

/// The thread id of a task.
pub open spec fn tid_of(task: Task) -> u32 {
    field(task, task.offsets.pid as int)
}

/// The process id of a task.
pub open spec fn tgid_of(task: Task) -> u32 {
    field(task, task.offsets.tgid as int)
}

/// The run state of a task.
pub open spec fn state_of(task: Task) -> u32 {
    field(task, task.offsets.state as int)
}

impl<'a> Task<'a> {
    /// The thread id (the scheduler's pid); 0 means idle or unreadable.
    pub fn pid(&self) -> (out: u32)
        ensures
            out == field(*self, self.offsets.pid as int),
            out == tid_of(*self),
    {
        self.read_u32(self.offsets.pid)
    }

    /// `pid` (thread id) and `tgid` (process id) in a single probe-read. In
    /// `task_struct` these are two adjacent `pid_t`s, so an 8-byte load at the pid
    /// offset yields both and halves the hotpath reads. User space verifies the
    /// adjacency against the running kernel's BTF before load.
    pub fn pid_and_tgid(&self) -> (out: (u32, u32))
        ensures
            out == both_ids(*self),
    {
        let memory = match self.memory {
            Some(memory) => memory,
            None => return (0, 0),
        };
        let at: u64 = self.offsets.pid as u64;
        if at + 8 > memory.len() as u64 {
            return (0, 0);
        }
        let i = at as usize;
        let first = word_at(memory, i, self.big_endian);
        let second = word_at(memory, i + 4, self.big_endian);
        let word: u64 = if self.big_endian {
            first as u64 * 0x1_0000_0000 + second as u64
        } else {
            second as u64 * 0x1_0000_0000 + first as u64
        };
        halves(word, self.big_endian)
    }

    /// The thread-group id (the process id users see).
    pub fn tgid(&self) -> (out: u32)
        ensures
            out == field(*self, self.offsets.tgid as int),
            out == tgid_of(*self),
    {
        self.read_u32(self.offsets.tgid)
    }

    /// The scheduler run state (`__state`; `state` before 5.14 - user space
    /// points the offset at the meaningful word either way).
    pub fn state(&self) -> (out: u32)
        ensures
            out == field(*self, self.offsets.state as int),
            out == state_of(*self),
    {
        self.read_u32(self.offsets.state)
    }

    /// Probe-read a `pid_t`-sized field at `offset`; 0 on a null task or fault.
    fn read_u32(&self, offset: u32) -> (out: u32)
        ensures
            out == field(*self, offset as int),
    {
        match self.memory {
            Some(memory) => {
                if offset as u64 + 4 > memory.len() as u64 {
                    return 0;
                }
                word_at(memory, offset as usize, self.big_endian)
            },
            None => 0,
        }
    }
}

/// The word at `at`.
fn word_at(memory: &[u8], at: usize, big_endian: bool) -> (out: u32)
    requires
        at + 4 <= memory@.len(),
    ensures
        out == if big_endian {
            btf::be_value(memory@.subrange(at as int, at + 4))
        } else {
            btf::le_value(memory@.subrange(at as int, at + 4))
        },
{
    let len = memory.len();
    let (a, b, c, d) = (
        memory[at] as u32,
        memory[at + 1] as u32,
        memory[at + 2] as u32,
        memory[at + 3] as u32,
    );
    if big_endian {
        d + 0x100 * c + 0x1_0000 * b + 0x100_0000 * a
    } else {
        a + 0x100 * b + 0x1_0000 * c + 0x100_0000 * d
    }
}

// ── Laws ─────────────────────────────────────────────────────────────────────

/// Where the two ids are adjacent, the single read of the hotpath gives what two
/// reads would.
pub proof fn one_read_gives_both(task: Task)
    requires
        task.offsets.tgid == task.offsets.pid + 4,
        ids_readable(task),
    ensures
        both_ids(task) == (
            field(task, task.offsets.pid as int),
            field(task, task.offsets.tgid as int),
        ),
{
}

/// What a word of the task holds is read back, in the byte order it was written in.
pub proof fn a_field_reads_back(task: Task, offset: int, value: u32)
    requires
        task.memory matches Some(memory) && 0 <= offset && offset + 4 <= memory@.len()
            && memory@.subrange(offset, offset + 4) == common::word_bytes(value, task.big_endian),
    ensures
        field(task, offset) == value,
{
    let b = task.memory->0@.subrange(offset, offset + 4);
    let w = common::word_bytes(value, task.big_endian);
    common::bytes_count_in_256s(value);
    assert(b[0] == w[0] && b[1] == w[1] && b[2] == w[2] && b[3] == w[3]);
    if task.big_endian {
        assert(btf::be_value(b) == value);
    } else {
        assert(btf::le_value(b) == value);
    }
}

/// A null task, or a read that would fault, gives zero; the read of both ids gives
/// neither where one of them would fault.
pub proof fn what_cannot_be_read_is_zero(task: Task, offset: int)
    ensures
        task.memory is None ==> field(task, offset) == 0 && both_ids(task) == (0u32, 0u32),
        task.memory matches Some(memory) && memory@.len() < offset + 4 ==> field(task, offset) == 0,
        task.memory matches Some(memory) && memory@.len() < task.offsets.pid + 8 ==> both_ids(task)
            == (0u32, 0u32),
{
}

/// The single read gives the thread id and then the process id, as they were written
/// one after the other.
pub proof fn both_ids_read_back(task: Task, tid: u32, tgid: u32)
    requires
        task.memory matches Some(memory) && task.offsets.pid + 8 <= memory@.len()
            && memory@.subrange(task.offsets.pid as int, task.offsets.pid + 8)
            == common::word_bytes(tid, task.big_endian) + common::word_bytes(tgid, task.big_endian),
    ensures
        both_ids(task) == (tid, tgid),
{
    let (memory, at) = (task.memory->0@, task.offsets.pid as int);
    let both = memory.subrange(at, at + 8);
    let (a, b) = (
        common::word_bytes(tid, task.big_endian),
        common::word_bytes(tgid, task.big_endian),
    );
    assert(memory.subrange(at, at + 4) =~= both.subrange(0, 4));
    assert(memory.subrange(at + 4, at + 8) =~= both.subrange(4, 8));
    assert((a + b).subrange(0, 4) =~= a);
    assert((a + b).subrange(4, 8) =~= b);
    a_field_reads_back(task, at, tid);
    a_field_reads_back(task, at + 4, tgid);
}

/// The halves of a load come in the order of memory: the low one first on a
/// little-endian machine, the high one first on a big-endian one.
pub proof fn halves_come_in_the_order_of_memory(first: u32, second: u32)
    ensures
        halved((second * 0x1_0000_0000 + first) as u64, false) == (first, second),
        halved((first * 0x1_0000_0000 + second) as u64, true) == (first, second),
{
}

/// `value` is written at `offset` of the task.
pub open spec fn is_written(task: Task, offset: int, value: u32) -> bool {
    task.memory matches Some(memory) && 0 <= offset && offset + 4 <= memory@.len()
        && memory@.subrange(offset, offset + 4) == common::word_bytes(value, task.big_endian)
}

/// Each field is read at its own offset: what is written there is what is read.
pub proof fn each_field_is_read_at_its_own_offset(task: Task, value: u32)
    ensures
        is_written(task, task.offsets.pid as int, value) ==> tid_of(task) == value,
        is_written(task, task.offsets.tgid as int, value) ==> tgid_of(task) == value,
        is_written(task, task.offsets.state as int, value) ==> state_of(task) == value,
{
    if is_written(task, task.offsets.pid as int, value) {
        a_field_reads_back(task, task.offsets.pid as int, value);
    }
    if is_written(task, task.offsets.tgid as int, value) {
        a_field_reads_back(task, task.offsets.tgid as int, value);
    }
    if is_written(task, task.offsets.state as int, value) {
        a_field_reads_back(task, task.offsets.state as int, value);
    }
}

} // verus!
