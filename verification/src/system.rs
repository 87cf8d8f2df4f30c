//! Machine-wide facts: the CPU topology both halves of truetop are sized by, and
//! the host specs the header shows. All fixed, so they are read once at startup;
//! memory and load are one small `/proc` file each per tick, which is a constant
//! cost rather than a per-process one. The files are read by the binary; a file
//! that could not be read is `None` here.

use vstd::prelude::*;

use crate::text;

verus! {

// ── CPU topology ─────────────────────────────────────────────────────────────

/// The two CPU counts truetop needs, resolved together once at startup and
/// logged there. `possible` is the per-CPU map stride, from the same sysfs file
/// the kernel allocates by; `online` is what the header calls cores and what
/// utilisation is a share of. They agree on a desktop and diverge on a VM that
/// reserves more CPU slots than it boots, so they are one type rather than two
/// interchangeable `usize`.
#[derive(Clone, Copy, Debug, PartialEq, Eq, Structural)]
pub struct CpuCounts {
    pub possible: usize,
    pub online: usize,
}

/// Why the CPU topology could not be had.
#[derive(Clone, Copy, Debug, PartialEq, Eq, Structural)]
pub enum TopologyError {
    /// The possible CPU count could not be read.
    Possible,
    /// The online CPU count is not a count.
    Online,
    /// The two counts do not go together.
    Implausible { online: usize, possible: usize },
}

impl TopologyError {
    /// The message for the operator.
    pub open spec fn text(self) -> Seq<char> {
        match self {
            TopologyError::Possible => "reading the possible CPU count"@,
            TopologyError::Online => "reading the online CPU count"@,
            TopologyError::Implausible { online, possible } => "implausible CPU topology: "@
                + text::decimal(online as nat) + " online, "@ + text::decimal(possible as nat)
                + " possible"@,
        }
    }

    /// The message for the operator.
    pub fn message(&self) -> (out: String)
        ensures
            out@ == self.text(),
    {
        match self {
            TopologyError::Possible => "reading the possible CPU count".to_owned(),
            TopologyError::Online => "reading the online CPU count".to_owned(),
            TopologyError::Implausible { online, possible } => {
                let mut out = "implausible CPU topology: ".to_owned();
                out.append(text::to_decimal(*online as u128).as_str());
                out.append(" online, ");
                out.append(text::to_decimal(*possible as u128).as_str());
                out.append(" possible");
                out
            },
        }
    }

    /// What lies underneath, where the library knows it: a count that is none cannot be
    /// converted to one. Why the possible count could not be read, its reader knows.
    pub open spec fn reason(self) -> Option<Seq<char>> {
        match self {
            TopologyError::Online => Some("out of range integral type conversion attempted"@),
            _ => None,
        }
    }

    /// What lies underneath, where the library knows it.
    pub fn cause(&self) -> (out: Option<&'static str>)
        ensures
            out is Some == self.reason() is Some,
            out matches Some(cause) ==> Some(cause@) == self.reason(),
    {
        match self {
            TopologyError::Online => Some("out of range integral type conversion attempted"),
            _ => None,
        }
    }
}

impl CpuCounts {
    /// At least one CPU runs, and none that is not possible.
    pub open spec fn plausible(self) -> bool {
        1 <= self.online <= self.possible
    }

    /// The topology that the two counts make.
    pub open spec fn counted(possible: Option<usize>, online: i64) -> Result<
        CpuCounts,
        TopologyError,
    > {
        match possible {
            None => Err(TopologyError::Possible),
            Some(possible) => if online < 0 || online > usize::MAX {
                Err(TopologyError::Online)
            } else if 1 <= online <= possible {
                Ok(CpuCounts { possible, online: online as usize })
            } else {
                Err(TopologyError::Implausible { online: online as usize, possible })
            },
        }
    }

    /// The topology the system reports: `possible` as the kernel lists it, if it
    /// could be read, and `online` as it counts them, negative where it does not
    /// know.
    pub fn detect(possible: Option<usize>, online: i64) -> (out: Result<CpuCounts, TopologyError>)
        ensures
            match possible {
                None => out == Err::<CpuCounts, _>(TopologyError::Possible),
                Some(possible) => if online < 0 || online > usize::MAX {
                    out == Err::<CpuCounts, _>(TopologyError::Online)
                } else if 1 <= online <= possible {
                    out == Ok::<_, TopologyError>(CpuCounts { possible, online: online as usize })
                } else {
                    out == Err::<CpuCounts, _>(
                        TopologyError::Implausible { online: online as usize, possible },
                    )
                },
            },
            out matches Ok(cpus) ==> cpus.plausible(),
            out == CpuCounts::counted(possible, online),
    {
        let possible = match possible {
            Some(possible) => possible,
            None => return Err(TopologyError::Possible),
        };
        let online = match online_cpus(online) {
            Some(online) => online,
            None => return Err(TopologyError::Online),
        };
        // A topology we cannot read makes every number downstream wrong, so this
        // fails rather than clamping into a plausible-looking lie.
        if online < 1 || online > possible {
            return Err(TopologyError::Implausible { online, possible });
        }
        Ok(CpuCounts { possible, online })
    }
}

/// The count the system reports, if it is one.
fn online_cpus(count: i64) -> (out: Option<usize>)
    ensures
        out == if 0 <= count <= usize::MAX {
            Some(count as usize)
        } else {
            None
        },
{
    if count < 0 || count as u64 > usize::MAX as u64 {
        None
    } else {
        Some(count as usize)
    }
}

// ── The host ─────────────────────────────────────────────────────────────────

/// The first line of a file, trimmed.
pub open spec fn top_line(content: Option<Seq<char>>) -> Option<Seq<char>> {
    match content {
        Some(content) => if text::lines(content).len() > 0 {
            Some(text::trimmed(text::lines(content)[0]))
        } else {
            None
        },
        None => None,
    }
}

/// The first line of a file, trimmed.
pub fn first_line(content: &Option<String>) -> (out: Option<String>)
    ensures
        text::content(out) == top_line(text::content(*content)),
{
    let content = match content {
        Some(content) => content,
        None => return None,
    };
    let lines = text::split_lines(&text::to_chars(content.as_str()));
    let ghost seen = lines@.map_values(|w: Vec<char>| w@);
    if lines.len() == 0 {
        return None;
    }
    assert(seen[0] == lines@[0]@);
    Some(text::to_text(&text::trim(&lines[0])))
}

/// The model a `/proc/cpuinfo` names: what follows the first colon of its first
/// `model name` line.
pub open spec fn named_model(cpuinfo: Option<Seq<char>>) -> Option<Seq<char>> {
    match cpuinfo {
        Some(cpuinfo) => match text::first_with(text::lines(cpuinfo), "model name"@) {
            Some(line) => {
                let colon = text::find(line, ':') as int;
                if colon < line.len() {
                    Some(text::trimmed(line.skip(colon + 1)))
                } else {
                    None
                }
            },
            None => None,
        },
        None => None,
    }
}

/// The model a `/proc/cpuinfo` names.
pub fn cpu_model(cpuinfo: &Option<String>) -> (out: Option<String>)
    ensures
        text::content(out) == named_model(text::content(*cpuinfo)),
{
    let cpuinfo = match cpuinfo {
        Some(cpuinfo) => cpuinfo,
        None => return None,
    };
    let line = match text::line_with(cpuinfo.as_str(), "model name") {
        Some(line) => line,
        None => return None,
    };
    let colon = text::index_of(&line, ':');
    if colon == line.len() {
        return None;
    }
    let rest = text::part(&line, colon + 1, line.len());
    assert(rest@ == line@.skip(colon + 1));
    Some(text::to_text(&text::trim(&rest)))
}

/// The kibibytes a `/proc/meminfo` row states.
pub open spec fn stated_kib(meminfo: Option<Seq<char>>, key: Seq<char>) -> Option<nat> {
    match meminfo {
        Some(meminfo) => match text::first_with(text::lines(meminfo), key) {
            Some(line) => match text::nth_word(line, 1) {
                Some(word) => text::parsed(word, u64::MAX as nat),
                None => None,
            },
            None => None,
        },
        None => None,
    }
}

/// The row's bytes fit a 64-bit count.
pub open spec fn row_fits(meminfo: Option<Seq<char>>, key: Seq<char>) -> bool {
    stated_kib(meminfo, key) matches Some(kib) ==> kib * 1024 <= u64::MAX
}

fn meminfo_kib(meminfo: &Option<String>, key: &str) -> (out: Option<u64>)
    ensures
        out is Some == stated_kib(text::content(*meminfo), key@) is Some,
        out matches Some(kib) ==> Some(kib as nat) == stated_kib(text::content(*meminfo), key@),
{
    let meminfo = match meminfo {
        Some(meminfo) => meminfo,
        None => return None,
    };
    let line = match text::line_with(meminfo.as_str(), key) {
        Some(line) => line,
        None => return None,
    };
    match text::word_at(&line, 1) {
        Some(word) => text::parse_number(&word, u64::MAX),
        None => None,
    }
}

/// Whether the bytes of both rows that are read of it fit a 64-bit count.
pub fn meminfo_fits(meminfo: &Option<String>) -> (r: bool)
    ensures
        r == (row_fits(text::content(*meminfo), "MemTotal:"@) && row_fits(
            text::content(*meminfo),
            "MemAvailable:"@,
        )),
{
    let total = match meminfo_kib(meminfo, "MemTotal:") {
        Some(kib) => kib <= u64::MAX / 1024,
        None => true,
    };
    let available = match meminfo_kib(meminfo, "MemAvailable:") {
        Some(kib) => kib <= u64::MAX / 1024,
        None => true,
    };
    total && available
}

/// A `/proc/meminfo` row, in bytes; the file reports kibibytes.
pub fn meminfo_field(meminfo: &Option<String>, key: &str) -> (out: Option<u64>)
    requires
        row_fits(text::content(*meminfo), key@),
    ensures
        match stated_kib(text::content(*meminfo), key@) {
            Some(kib) => out matches Some(bytes) && bytes == kib * 1024,
            None => out is None,
        },
{
    match meminfo_kib(meminfo, key) {
        Some(kib) => Some(kib * 1024),
        None => None,
    }
}

/// The installed memory a `/proc/meminfo` states; 0 where it states none.
pub open spec fn installed(meminfo: Option<Seq<char>>) -> nat {
    match stated_kib(meminfo, "MemTotal:"@) {
        Some(kib) => kib * 1024,
        None => 0,
    }
}

/// Installed memory.
pub fn memory_total_bytes(meminfo: &Option<String>) -> (out: u64)
    requires
        row_fits(text::content(*meminfo), "MemTotal:"@),
    ensures
        out == installed(text::content(*meminfo)),
{
    match meminfo_field(meminfo, "MemTotal:") {
        Some(bytes) => bytes,
        None => 0,
    }
}

/// The memory in use of `total`: none where nothing is said of what is available,
/// or more than there is.
pub open spec fn used(total: nat, meminfo: Option<Seq<char>>) -> nat {
    match stated_kib(meminfo, "MemAvailable:"@) {
        Some(kib) => if kib * 1024 <= total {
            (total - kib * 1024) as nat
        } else {
            0
        },
        None => 0,
    }
}

/// Memory in use: total minus available, the figure `free` reports as used.
pub fn memory_used_bytes(total: u64, meminfo: &Option<String>) -> (out: u64)
    requires
        row_fits(text::content(*meminfo), "MemAvailable:"@),
    ensures
        out == used(total as nat, text::content(*meminfo)),
{
    match meminfo_field(meminfo, "MemAvailable:") {
        Some(available) => total.saturating_sub(available),
        None => 0,
    }
}

/// The one-minute load average as a `/proc/loadavg` writes it.
pub open spec fn stated_load(loadavg: Option<Seq<char>>) -> Option<Seq<char>> {
    match top_line(loadavg) {
        Some(line) => text::nth_word(line, 0),
        None => None,
    }
}

/// The one-minute load average as a `/proc/loadavg` writes it: the first word of
/// its first line.
pub fn load_average(loadavg: &Option<String>) -> (out: Option<String>)
    ensures
        text::content(out) == stated_load(text::content(*loadavg)),
{
    match first_line(loadavg) {
        Some(line) => match text::word_at(&text::to_chars(line.as_str()), 0) {
            Some(word) => Some(text::to_text(&word)),
            None => None,
        },
        None => None,
    }
}

/// Constant properties of the host, read once.
#[derive(Debug)]
pub struct Machine {
    pub hostname: String,
    pub cpu_model: String,
    pub cores: usize,
    pub memory_total_bytes: u64,
}

/// What a host is shown as: its name, its processor, its cores and its memory.
pub open spec fn described(
    cpus: CpuCounts,
    hostname: Option<Seq<char>>,
    cpuinfo: Option<Seq<char>>,
    meminfo: Option<Seq<char>>,
) -> (Seq<char>, Seq<char>, nat, nat) {
    (
        match top_line(hostname) {
            Some(name) => name,
            None => "localhost"@,
        },
        match named_model(cpuinfo) {
            Some(model) => model,
            None => "unknown cpu"@,
        },
        cpus.online as nat,
        installed(meminfo),
    )
}

impl Machine {
    /// Takes [`CpuCounts`] rather than a bare number so the core count cannot be
    /// sourced from anywhere else.
    pub fn detect(
        cpus: CpuCounts,
        hostname: &Option<String>,
        cpuinfo: &Option<String>,
        meminfo: &Option<String>,
    ) -> (out: Machine)
        requires
            row_fits(text::content(*meminfo), "MemTotal:"@),
        ensures
            out.hostname@ == match top_line(text::content(*hostname)) {
                Some(name) => name,
                None => "localhost"@,
            },
            out.cpu_model@ == match named_model(text::content(*cpuinfo)) {
                Some(model) => model,
                None => "unknown cpu"@,
            },
            out.cores == cpus.online,
            out.memory_total_bytes == installed(text::content(*meminfo)),
            (
                out.hostname@,
                out.cpu_model@,
                out.cores as nat,
                out.memory_total_bytes as nat,
            ) == described(
                cpus,
                text::content(*hostname),
                text::content(*cpuinfo),
                text::content(*meminfo),
            ),
    {
        Machine {
            hostname: match first_line(hostname) {
                Some(name) => name,
                None => "localhost".to_owned(),
            },
            cpu_model: match cpu_model(cpuinfo) {
                Some(model) => model,
                None => "unknown cpu".to_owned(),
            },
            cores: cpus.online,
            memory_total_bytes: memory_total_bytes(meminfo),
        }
    }
}

// ── Laws ─────────────────────────────────────────────────────────────────────

/// Memory in use never exceeds what is installed, whatever the two rows say.
pub proof fn used_is_within_the_total(total: nat, meminfo: Option<Seq<char>>)
    ensures
        used(total, meminfo) <= total,
{
}

/// The topology is what the system counts, taken only where it can be one: at least one
/// CPU online and no more than are possible. Everything else is refused, and a count
/// that could not be read is never made up.
pub proof fn only_a_plausible_topology_is_taken(possible: Option<usize>, online: i64)
    ensures
        ({
            let out = CpuCounts::counted(possible, online);
            &&& out is Ok <==> (possible matches Some(n) && 1 <= online <= n)
            &&& out matches Ok(cpus) ==> Some(cpus.possible) == possible && cpus.online == online
            &&& possible is None ==> out == Err::<CpuCounts, _>(TopologyError::Possible)
            &&& possible is Some && online < 0 ==> out == Err::<CpuCounts, _>(TopologyError::Online)
            &&& out matches Err(TopologyError::Implausible { online: n, possible: m }) ==> n == online
                && Some(m) == possible
        }),
{
}

/// A row of `/proc/meminfo` reads what it says, in whatever line it stands: a key, white
/// space, a number and its unit.
pub proof fn a_memory_row_reads_back(
    front: Seq<char>,
    key: Seq<char>,
    gap: Seq<char>,
    n: u64,
    rest: Seq<char>,
)
    requires
        front.len() > 0 ==> front.last() == '\n',
        forall|i: int|
            0 <= i < text::lines(front).len() ==> !text::begins(
                #[trigger] text::lines(front)[i],
                key,
            ),
        text::is_word(key),
        key.len() > 0,
        text::is_gap(gap),
        gap.len() > 0,
        text::lacks(gap, '\n'),
    ensures
        stated_kib(
            Some(
                front + (key + gap + text::decimal(n as nat) + seq![' ', 'k', 'B'] + seq!['\n']
                    + rest),
            ),
            key,
        ) == Some(n as nat),
{
    let unit = seq![' ', 'k', 'B'];
    text::a_number_is_a_word(n as nat);
    text::decimal_reads_back(n as nat, u64::MAX as nat);
    text::a_row_is_found(front, key, gap, text::decimal(n as nat), unit, rest);
}

/// Memory is counted in bytes of which a kibibyte has 1024: installed is what the total
/// row says, in use is what is not available, and without the rows nothing is.
pub proof fn memory_is_what_the_rows_say(total: nat, meminfo: Option<Seq<char>>)
    ensures
        stated_kib(meminfo, "MemTotal:"@) matches Some(kib) ==> installed(meminfo) == 1024 * kib,
        stated_kib(meminfo, "MemTotal:"@) is None ==> installed(meminfo) == 0,
        stated_kib(meminfo, "MemAvailable:"@) matches Some(kib) ==> if 1024 * kib <= total {
            used(total, meminfo) + 1024 * kib == total
        } else {
            used(total, meminfo) == 0
        },
        stated_kib(meminfo, "MemAvailable:"@) is None ==> used(total, meminfo) == 0,
        stated_kib(None, "MemTotal:"@) is None,
{
}

/// The model is what stands behind the colon of the first `model name` line, without the
/// white space around it.
pub proof fn the_model_reads_back(
    front: Seq<char>,
    gap: Seq<char>,
    blank: Seq<char>,
    model: Seq<char>,
    rest: Seq<char>,
)
    requires
        front.len() > 0 ==> front.last() == '\n',
        forall|i: int|
            0 <= i < text::lines(front).len() ==> !text::begins(
                #[trigger] text::lines(front)[i],
                "model name"@,
            ),
        text::lacks(gap, ':'),
        text::lacks(gap, '\n'),
        text::is_gap(blank),
        text::lacks(blank, '\n'),
        text::lacks(model, '\n'),
        model.len() > 0,
        !text::is_space(model[0]),
        !text::is_space(model.last()),
    ensures
        named_model(
            Some(
                front + ("model name"@ + gap + seq![':'] + blank + model + seq!['\n'] + rest),
            ),
        ) == Some(model),
{
    reveal_strlit("model name");
    let key = "model name"@;
    let (head, behind) = (key + gap, blank + model);
    let row = key + gap + seq![':'] + blank + model;
    let line = gap + seq![':'] + blank + model;
    assert(row =~= key + line);
    assert(row =~= head + seq![':'] + behind);
    assert forall|i: int| 0 <= i < head.len() implies #[trigger] head[i] != ':' by {
        if i >= key.len() {
            assert(head[i] == gap[i - key.len()]);
        }
    }
    assert forall|i: int| 0 <= i < row.len() implies #[trigger] row[i] != '\n' by {
        let (a, b, c) = (
            key.len() as int,
            head.len() as int,
            (head.len() + 1 + blank.len()) as int,
        );
        if i < a {
            assert(row[i] == key[i]);
        } else if i < b {
            assert(row[i] == gap[i - a]);
        } else if i == b {
            assert(row[i] == ':');
        } else if i < c {
            assert(row[i] == blank[i - b - 1]);
        } else {
            assert(row[i] == model[i - c]);
        }
    }
    assert(row.last() == model.last());
    assert(text::is_space('\r'));
    let file = row + seq!['\n'] + rest;
    text::lines_come_in_order(front, file);
    text::a_line_comes_off(row, rest);
    text::the_first_that_begins_so(text::lines(front), line, text::lines(rest), key);
    assert(text::lines(front) + (seq![row] + text::lines(rest)) =~= text::lines(front) + seq![row]
        + text::lines(rest));
    text::the_first_is_found(head, ':', behind);
    let colon = head.len() as int;
    assert(row.skip(colon + 1) =~= behind);
    let none = Seq::<char>::empty();
    text::only_the_gaps_are_trimmed(blank, model, none);
    assert(blank + model + none =~= behind);
}

/// The first line of a file is what stands before its first line break, without the
/// white space around it, and the load the first word of that.
pub proof fn the_first_line_reads_back(
    front: Seq<char>,
    word: Seq<char>,
    tail: Seq<char>,
    rest: Seq<char>,
)
    requires
        text::is_gap(front),
        text::lacks(front, '\n'),
        text::is_word(word),
        word.len() > 0,
        tail.len() > 0 ==> text::is_space(tail[0]) && !text::is_space(tail.last()),
        text::lacks(tail, '\n'),
    ensures
        ({
            let file = Some(front + word + tail + seq!['\n'] + rest);
            &&& top_line(file) == Some(word + tail)
            &&& stated_load(file) == Some(word)
        }),
        top_line(None) is None,
        stated_load(None) is None,
        top_line(Some(Seq::<char>::empty())) is None,
{
    let row = front + word + tail;
    let core = word + tail;
    let none = Seq::<char>::empty();
    assert forall|i: int| 0 <= i < row.len() implies #[trigger] row[i] != '\n' by {
        let (a, b) = (front.len() as int, (front + word).len() as int);
        if i < a {
            assert(row[i] == front[i]);
        } else if i < b {
            assert(row[i] == word[i - a]);
        } else {
            assert(row[i] == tail[i - b]);
        }
    }
    if tail.len() > 0 {
        assert(row.last() == tail.last() && core.last() == tail.last());
    } else {
        assert(row.last() == word[word.len() - 1] && core.last() == word[word.len() - 1]);
    }
    assert(core[0] == word[0]);
    assert(text::is_space('\r'));
    text::a_line_comes_off(row, rest);
    text::only_the_gaps_are_trimmed(front, core, none);
    assert(front + core + none =~= row);
    text::a_word_comes_off(none, word, tail);
    assert(none + word + tail =~= core);
    text::a_line_comes_off(none, none);
}

/// A host is what its files say, and its cores are those that are online; a file that is
/// not there leaves a name of its own and no memory.
pub proof fn a_host_is_what_its_files_say(
    cpus: CpuCounts,
    hostname: Option<Seq<char>>,
    cpuinfo: Option<Seq<char>>,
    meminfo: Option<Seq<char>>,
)
    ensures
        ({
            let (host, model, cores, memory) = described(cpus, hostname, cpuinfo, meminfo);
            &&& top_line(hostname) matches Some(name) ==> host == name
            &&& named_model(cpuinfo) matches Some(name) ==> model == name
            &&& cores == cpus.online
            &&& hostname is None ==> host == "localhost"@
            &&& cpuinfo is None ==> model == "unknown cpu"@
            &&& meminfo is None ==> memory == 0
            &&& stated_kib(meminfo, "MemTotal:"@) matches Some(kib) ==> memory == 1024 * kib
        }),
{
}

/// An implausible topology is reported with both its counts.
pub proof fn both_counts_are_reported(online: usize, possible: usize)
    ensures
        ({
            let message = (TopologyError::Implausible { online, possible }).text();
            &&& text::occurs(message, text::decimal(online as nat) + " online"@)
            &&& text::occurs(message, text::decimal(possible as nat) + " possible"@)
        }),
{
    let (a, b) = (text::decimal(online as nat), text::decimal(possible as nat));
    let message = (TopologyError::Implausible { online, possible }).text();
    reveal_strlit(" online");
    reveal_strlit(" online, ");
    let head = "implausible CPU topology: "@;
    let (comma, none) = (seq![',', ' '], Seq::<char>::empty());
    assert(" online, "@ =~= " online"@ + comma);
    text::what_is_put_in_is_found(head, a + " online"@, comma + b + " possible"@);
    assert(message =~= head + (a + " online"@) + (comma + b + " possible"@));
    text::what_is_put_in_is_found(head + a + " online, "@, b + " possible"@, none);
    assert(message =~= head + a + " online, "@ + (b + " possible"@) + none);
}

} // verus!
