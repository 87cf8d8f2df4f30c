//! Constants and types shared across the eBPF ↔ user-space boundary so both sides
//! agree on the wire layout.

use vstd::prelude::*;

use crate::btf;

verus! {

/// Width of the kernel's `comm` field (`TASK_COMM_LEN`) - the size of a name in
/// the tgid→name map shared between the eBPF capture and the user-space reader.
pub const COMM_LEN: usize = 16;

/// A process's identity as the kernel captures it: the name, padded with zeros,
/// and the owner.
#[derive(Clone, Copy, Debug, PartialEq, Eq)]
pub struct Identity {
    pub comm: [u8; COMM_LEN],
    pub uid: u32,
}

/// A process that has ended, announced over the exit ring buffer.
///
/// It carries identity only. The counters live in per-CPU maps, and an eBPF
/// program can read no slot but its own CPU's, so the totals a departing process
/// leaves behind can only be summed in user space; this says who to look for.
#[derive(Clone, Copy, Debug, PartialEq, Eq, Structural)]
pub struct ExitEvent {
    pub tgid: u32,
}

/// The four bytes of a word, in one byte order or the other.
pub open spec fn word_bytes(word: u32, big_endian: bool) -> Seq<u8> {
    let low = seq![
        (word % 256) as u8,
        (word / 256 % 256) as u8,
        (word / 65_536 % 256) as u8,
        (word / 16_777_216) as u8,
    ];
    if big_endian {
        low.reverse()
    } else {
        low
    }
}

/// The word that four bytes hold, in one byte order or the other.
pub open spec fn word_value(bytes: Seq<u8>, big_endian: bool) -> nat {
    if big_endian {
        btf::be_value(bytes)
    } else {
        btf::le_value(bytes)
    }
}

/// The machine this runs on puts the most significant byte first.
pub open spec fn big_endian() -> bool {
    vstd::endian::endianness() == vstd::endian::Endian::Big
}

/// `u32::from_ne_bytes` reads a word in the machine's own byte order. Which of the two
/// that is rests on the machine and is not said here: [`vstd::endian::endianness`]
/// stands for it.
#[verifier::external_body]
fn native_word(bytes: [u8; 4]) -> (out: u32)
    ensures
        out == word_value(bytes@, big_endian()),
{
    u32::from_ne_bytes(bytes)
}

/// The record that starts with a tgid in the given byte order, if it is long enough.
pub open spec fn decoded(bytes: Seq<u8>, big_endian: bool) -> Option<ExitEvent> {
    if bytes.len() < 4 {
        None
    } else {
        Some(ExitEvent { tgid: word_value(bytes.take(4), big_endian) as u32 })
    }
}

impl ExitEvent {
    /// Decode one record off the ring, or `None` if it is short. The record was
    /// written in the machine's own byte order: the id that the machine wrote is read
    /// back, whatever follows it.
    pub fn from_bytes(bytes: &[u8]) -> (out: Option<ExitEvent>)
        ensures
            out == decoded(bytes@, big_endian()),
            out matches Some(event) ==> event.tgid == word_value(bytes@.take(4), big_endian()),
            bytes@.len() < 4 ==> out is None,
            forall|tgid: u32, tail: Seq<u8>|
                bytes@ == #[trigger] (word_bytes(tgid, big_endian()) + tail) ==> out == Some(
                    ExitEvent { tgid },
                ),
    {
        proof {
            assert forall|tgid: u32, tail: Seq<u8>|
                bytes@ == #[trigger] (word_bytes(tgid, big_endian()) + tail) implies decoded(
                bytes@,
                big_endian(),
            ) == Some(ExitEvent { tgid }) by {
                a_record_names_who_wrote_it(tgid, tail, big_endian());
            }
        }
        if bytes.len() < 4 {
            return None;
        }
        let word = [bytes[0], bytes[1], bytes[2], bytes[3]];
        assert(word@ == bytes@.take(4));
        Some(ExitEvent { tgid: native_word(word) })
    }

    /// Decode one record written in the given byte order, or `None` if it is short.
    pub fn from_bytes_in(bytes: &[u8], big_endian: bool) -> (out: Option<ExitEvent>)
        ensures
            out == decoded(bytes@, big_endian),
            out matches Some(event) ==> event.tgid == word_value(bytes@.take(4), big_endian),
    {
        if bytes.len() < 4 {
            return None;
        }
        let word = [bytes[0], bytes[1], bytes[2], bytes[3]];
        assert(word@ == bytes@.take(4));
        let (a, b, c, d): (u32, u32, u32, u32) = if big_endian {
            (word[3] as u32, word[2] as u32, word[1] as u32, word[0] as u32)
        } else {
            (word[0] as u32, word[1] as u32, word[2] as u32, word[3] as u32)
        };
        Some(ExitEvent { tgid: a + 0x100 * b + 0x1_0000 * c + 0x100_0000 * d })
    }
}

// ── Laws ─────────────────────────────────────────────────────────────────────

/// What is read of a record is what was written: the id in the byte order it was
/// written in, whatever follows it. A record too short to hold one names nobody.
pub proof fn a_record_names_who_wrote_it(tgid: u32, tail: Seq<u8>, big_endian: bool)
    ensures
        decoded(word_bytes(tgid, big_endian) + tail, big_endian) == Some(ExitEvent { tgid }),
        tail.len() < 4 ==> decoded(tail, big_endian) is None,
{
    let word = word_bytes(tgid, big_endian);
    assert((word + tail).take(4) == word);
}

/// Of the four bytes of a word the first counts ones, then 256s and so on, in one byte
/// order; in the other the last does.
pub proof fn bytes_count_in_256s(word: u32)
    ensures
        ({
            let b = word_bytes(word, false);
            b.len() == 4 && b[0] + 256 * b[1] + 65_536 * b[2] + 16_777_216 * b[3] == word
        }),
        ({
            let b = word_bytes(word, true);
            b.len() == 4 && b[3] + 256 * b[2] + 65_536 * b[1] + 16_777_216 * b[0] == word
        }),
{
}

} // verus!
