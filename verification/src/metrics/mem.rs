//! Resident set size, from `/proc/<pid>/statm` for the visible rows only.
//! Since Linux 6.2 the exact value cannot be summed from eBPF cheaply, so this
//! reads the same source `top` does, at negligible cost.

use vstd::prelude::*;

use crate::text;

verus! {

/// Resident set size in bytes.
#[derive(Debug, Clone, Copy, Default, PartialEq)]
pub struct MemMetrics {
    pub rss_bytes: u64,
}

/// The page size where the system reports none.
pub const PAGE: u64 = 4096;

/// Resident-set pages a `statm` line states: its second word.
pub open spec fn resident_pages(statm: Seq<char>) -> Option<nat> {
    match text::nth_word(statm, 1) {
        Some(word) => text::parsed(word, u64::MAX as nat),
        None => None,
    }
}

/// Resident-set pages from a `/proc/<pid>/statm` line - the second whitespace
/// field. `None` if the line is empty or malformed.
pub fn parse_statm_pages(statm: &str) -> (out: Option<u64>)
    ensures
        out is Some == resident_pages(statm@) is Some,
        out matches Some(n) ==> Some(n as nat) == resident_pages(statm@),
{
    match text::word_at(&text::to_chars(statm), 1) {
        Some(word) => text::parse_number(&word, u64::MAX),
        None => None,
    }
}

/// The page size to count with, where the system reports `reported`.
pub open spec fn page_of(reported: i64) -> u64 {
    if reported > 0 {
        reported as u64
    } else {
        PAGE
    }
}

#[derive(Debug)]
pub struct MemReader {
    pub page_size: u64,
}

impl MemReader {
    /// `page_size` is what the system reports; zero and below mean that it does
    /// not say.
    pub fn new(page_size: i64) -> (out: MemReader)
        ensures
            out.page_size == if page_size > 0 {
                page_size as u64
            } else {
                PAGE
            },
            out.page_size == page_of(page_size),
    {
        MemReader {
            page_size: if page_size > 0 {
                page_size as u64
            } else {
                PAGE
            },
        }
    }

    /// The resident bytes that `statm` states fit a 64-bit count.
    pub open spec fn fits(self, statm: Option<Seq<char>>) -> bool {
        match statm {
            Some(line) => match resident_pages(line) {
                Some(pages) => pages * self.page_size <= u64::MAX,
                None => true,
            },
            None => true,
        }
    }

    /// Whether the resident bytes that `statm` states fit a 64-bit count.
    pub fn countable(&self, statm: &Option<String>) -> (r: bool)
        ensures
            r == self.fits(text::content(*statm)),
    {
        match statm {
            Some(line) => match parse_statm_pages(line.as_str()) {
                Some(pages) => pages.checked_mul(self.page_size).is_some(),
                None => true,
            },
            None => true,
        }
    }

    /// Exact RSS from the process's `statm`. `None` once the process is gone and
    /// the file with it; a zombie reads zero, which is the truth - it has
    /// released its memory but not yet its exit status.
    pub fn for_pid(&self, statm: &Option<String>) -> (out: Option<MemMetrics>)
        requires
            self.fits(text::content(*statm)),
        ensures
            out == resident(text::content(*statm), self.page_size as nat),
    {
        let line = match statm {
            Some(line) => line,
            None => return None,
        };
        match parse_statm_pages(line.as_str()) {
            Some(pages) => Some(MemMetrics { rss_bytes: pages * self.page_size }),
            None => None,
        }
    }
}

/// The resident set that `statm`, if there is one, states.
pub open spec fn resident(statm: Option<Seq<char>>, page_size: nat) -> Option<MemMetrics> {
    match statm {
        Some(line) => match resident_pages(line) {
            Some(pages) => Some(MemMetrics { rss_bytes: (pages * page_size) as u64 }),
            None => None,
        },
        None => None,
    }
}

// ── Laws ─────────────────────────────────────────────────────────────────────

/// The resident set is the second number of the line, in pages: not the first, which is
/// all the process has mapped, nor any that follows. A file that is gone states none.
pub proof fn the_resident_pages_read_back(
    size: Seq<char>,
    gap: Seq<char>,
    pages: u64,
    tail: Seq<char>,
    page_size: nat,
)
    requires
        text::is_word(size),
        size.len() > 0,
        text::is_gap(gap),
        gap.len() > 0,
        tail.len() > 0 ==> text::is_space(tail[0]),
        pages * page_size <= u64::MAX,
    ensures
        resident_pages(size + gap + text::decimal(pages as nat) + tail) == Some(pages as nat),
        resident(Some(size + gap + text::decimal(pages as nat) + tail), page_size) matches Some(mem)
            && mem.rss_bytes == pages * page_size,
        resident(None, page_size) is None,
{
    let none = Seq::<char>::empty();
    let word = text::decimal(pages as nat);
    let (row, line) = (size + gap + word + tail, gap + word + tail);
    text::a_number_is_a_word(pages as nat);
    text::decimal_reads_back(pages as nat, u64::MAX as nat);
    assert(row =~= none + size + line);
    assert(line[0] == gap[0]);
    text::a_word_comes_off(none, size, line);
    text::a_word_comes_off(gap, word, tail);
    assert(text::words(row) == seq![size] + (seq![word] + text::words(tail)));
}

/// A line of one word states no resident set.
pub proof fn a_single_number_states_no_residence(size: Seq<char>, page_size: nat)
    requires
        text::is_word(size),
        size.len() > 0,
    ensures
        resident(Some(size), page_size) is None,
        resident(Some(Seq::<char>::empty()), page_size) is None,
{
    let none = Seq::<char>::empty();
    text::a_word_comes_off(none, size, none);
    assert(none + size + none =~= size);
    assert(text::words(none) == Seq::<Seq<char>>::empty());
}

/// Pages are as large as the system says, and where it does not say, 4096 bytes.
pub proof fn pages_are_as_large_as_reported(reported: i64)
    ensures
        reported > 0 ==> page_of(reported) == reported,
        reported <= 0 ==> page_of(reported) == 4096,
{
}

/// A line can be counted where it states no pages, or as many as fit a 64-bit count of
/// bytes.
pub proof fn a_line_fits_where_its_bytes_do(reader: MemReader, line: Seq<char>)
    ensures
        reader.fits(None),
        resident_pages(line) is None ==> reader.fits(Some(line)),
        resident_pages(line) matches Some(pages) ==> (reader.fits(Some(line)) <==> pages
            * reader.page_size <= u64::MAX),
{
}

} // verus!
