//! What the eBPF object is loaded with, decided before anything is: the
//! `task_struct` field offsets resolved from the running kernel's BTF and injected
//! as globals - our portable CO-RE (see `btf`) - and the size of its maps.

use vstd::prelude::*;

use crate::btf;
use crate::btf::{Btf, BtfError};
use crate::common::COMM_LEN;
use crate::text;

verus! {

// ── Map sizes ────────────────────────────────────────────────────────────────

/// The most entries a map gets by default.
pub const CEILING: u32 = 65_536;

/// The fewest entries a map gets by default.
pub const FLOOR: u32 = 16_384;

/// The kernel memory a per-CPU map may take by default, down to the fewest
/// entries: 32 MiB.
pub const BUDGET_PER_MAP: u64 = 33_554_432;

/// Entries per accounting map by default: what the budget affords, within bounds.
pub open spec fn affordable(possible_cpus: nat) -> nat {
    let per_entry = 8 * if possible_cpus == 0 {
        1
    } else {
        possible_cpus
    };
    let entries = BUDGET_PER_MAP as nat / per_entry;
    if entries < FLOOR {
        FLOOR as nat
    } else if entries > CEILING {
        CEILING as nat
    } else {
        entries
    }
}

/// Entries per accounting map when the operator has not chosen. Capped by a
/// memory budget rather than flat, because an LRU map is preallocated and a
/// per-CPU one costs `entries × 8 × possible_cpus`.
pub fn default_max_processes(possible_cpus: usize) -> (out: u32)
    requires
        8 * possible_cpus <= u64::MAX,
    ensures
        out == affordable(possible_cpus as nat),
{
    let per_entry: u64 = 8 * if possible_cpus == 0 {
        1
    } else {
        possible_cpus as u64
    };
    let entries: u64 = BUDGET_PER_MAP / per_entry;
    if entries < FLOOR as u64 {
        FLOOR
    } else if entries > CEILING as u64 {
        CEILING
    } else {
        entries as u32
    }
}

/// What the maps commit at load.
pub open spec fn committed(entries: nat, possible_cpus: nat) -> nat {
    2 * entries * 8 * possible_cpus + entries * COMM_LEN as nat + entries * 12
}

/// What those maps commit at load: two per-CPU counters, the name map, and the
/// tid → timestamp map (a `u32` key and a `u64` value).
pub fn map_bytes(entries: u32, possible_cpus: usize) -> (out: u64)
    requires
        committed(entries as nat, possible_cpus as nat) <= u64::MAX,
    ensures
        out == committed(entries as nat, possible_cpus as nat),
{
    let (n, cpus): (u64, u64) = (entries as u64, possible_cpus as u64);
    assert(16 * n * cpus == 2 * n * 8 * cpus) by (nonlinear_arith);
    2 * n * 8 * cpus + n * COMM_LEN as u64 + n * 12
}

/// Whether what the maps commit at load fits a 64-bit count.
pub fn map_bytes_fit(entries: u32, possible_cpus: usize) -> (r: bool)
    ensures
        r == (committed(entries as nat, possible_cpus as nat) <= u64::MAX),
{
    let (n, cpus): (u128, u128) = (entries as u128, possible_cpus as u128);
    assert(2 * n * 8 * cpus == 16 * (n * cpus)) by (nonlinear_arith);
    assert(n * cpus <= 0xffff_ffff * 0xffff_ffff_ffff_ffff) by (nonlinear_arith)
        requires
            n <= 0xffff_ffff,
            cpus <= 0xffff_ffff_ffff_ffff,
    ;
    assert(n * COMM_LEN as u128 == 16 * n) by (nonlinear_arith)
        requires
            COMM_LEN == 16,
    ;
    16 * (n * cpus) + n * COMM_LEN as u128 + n * 12 <= u64::MAX as u128
}

/// The entries each accounting map gets.
pub open spec fn entries_for(max_processes: Option<u32>, possible_cpus: nat) -> nat {
    match max_processes {
        Some(n) => n as nat,
        None => affordable(possible_cpus),
    }
}

/// The entries each accounting map gets: as the operator chose, else the default.
pub fn map_entries(max_processes: Option<u32>, possible_cpus: usize) -> (out: u32)
    requires
        8 * possible_cpus <= u64::MAX,
    ensures
        out == match max_processes {
            Some(n) => n as nat,
            None => affordable(possible_cpus as nat),
        },
        out == entries_for(max_processes, possible_cpus as nat),
{
    match max_processes {
        Some(n) => n,
        None => default_max_processes(possible_cpus),
    }
}

/// The default is the full size up to 64 CPUs and the smallest from 256 on; in
/// between it shrinks as CPUs are added, and never takes a per-CPU map over its
/// budget.
pub proof fn the_default_tapers(few: nat, many: nat)
    requires
        few <= many,
    ensures
        many <= 64 ==> affordable(many) == CEILING,
        few >= 256 ==> affordable(few) == FLOOR,
        affordable(many) <= affordable(few),
        FLOOR <= affordable(many) <= CEILING,
        affordable(many) > FLOOR ==> affordable(many) * 8 * many <= BUDGET_PER_MAP,
{
    let budget = BUDGET_PER_MAP as nat;
    let a: nat = if few == 0 { 1 } else { few };
    let b: nat = if many == 0 { 1 } else { many };
    assert(budget / (8 * b) <= budget / (8 * a)) by (nonlinear_arith)
        requires
            0 < a <= b,
    ;
    if many <= 64 {
        assert(budget / (8 * b) >= 65_536) by (nonlinear_arith)
            requires
                0 < b <= 64,
                budget == 33_554_432,
        ;
    }
    if few >= 256 {
        assert(budget / (8 * a) <= 16_384) by (nonlinear_arith)
            requires
                a >= 256,
                budget == 33_554_432,
        ;
    }
    let entries = budget / (8 * b);
    assert(entries * (8 * b) <= budget) by (nonlinear_arith)
        requires
            entries == budget / (8 * b),
            b > 0,
    ;
    if affordable(many) > FLOOR {
        let n = affordable(many);
        assert(n * 8 * many <= entries * (8 * b)) by (nonlinear_arith)
            requires
                n <= entries,
                many <= b,
        ;
    }
}

// ── Field offsets ────────────────────────────────────────────────────────────

/// Byte offsets of the kernel fields the programs read, resolved from the running
/// kernel's BTF and injected as constants, and whether its `sched_switch` carries
/// the previous task's state.
#[derive(Clone, Copy, Debug, PartialEq, Eq, Structural)]
pub struct Offsets {
    pub pid: u32,
    pub tgid: u32,
    pub state: u32,
    pub signal: u32,
    pub live: u32,
    pub cred_uid: u32,
    pub has_prev_state: bool,
}

/// A kernel field the programs read.
#[derive(Clone, Copy, Debug, PartialEq, Eq, Structural)]
pub enum Field {
    Pid,
    Tgid,
    /// The run state since 5.14: a 32-bit word.
    NewState,
    /// The run state before: a native long.
    OldState,
    Signal,
    Live,
    CredUid,
}

impl Field {
    /// The struct it is in.
    pub open spec fn owner(self) -> Seq<char> {
        match self {
            Field::Live => "signal_struct"@,
            Field::CredUid => "cred"@,
            _ => "task_struct"@,
        }
    }

    /// What it is called there.
    pub open spec fn name(self) -> Seq<char> {
        match self {
            Field::Pid => "pid"@,
            Field::Tgid => "tgid"@,
            Field::NewState => "__state"@,
            Field::OldState => "state"@,
            Field::Signal => "signal"@,
            Field::Live => "live"@,
            Field::CredUid => "uid"@,
        }
    }

    /// The struct it is in.
    pub fn owner_str(self) -> (out: &'static str)
        ensures
            out@ == self.owner(),
    {
        match self {
            Field::Live => "signal_struct",
            Field::CredUid => "cred",
            _ => "task_struct",
        }
    }

    /// What it is called there.
    pub fn name_str(self) -> (out: &'static str)
        ensures
            out@ == self.name(),
    {
        match self {
            Field::Pid => "pid",
            Field::Tgid => "tgid",
            Field::NewState => "__state",
            Field::OldState => "state",
            Field::Signal => "signal",
            Field::Live => "live",
            Field::CredUid => "uid",
        }
    }
}

/// Why the offsets could not be resolved.
#[derive(Clone, Copy, Debug, PartialEq, Eq, Structural)]
pub enum LoadError {
    /// The kernel ships no BTF that can be read.
    NoBtf { field: Field },
    /// Its BTF does not have the field.
    Unresolved { field: Field, cause: BtfError },
    /// The hotpath's single read needs the two ids side by side.
    NotAdjacent { pid: u32, tgid: u32 },
}

/// `struct::field`, as the messages name a field.
pub open spec fn qualified(field: Field) -> Seq<char> {
    "BTF: "@ + field.owner() + "::"@ + field.name()
}

/// Messages joined as a chain of causes is printed on one line.
pub open spec fn joined(links: Seq<Seq<char>>) -> Seq<char>
    decreases links.len(),
{
    if links.len() == 0 {
        Seq::empty()
    } else if links.len() == 1 {
        links[0]
    } else {
        joined(links.drop_last()) + ": "@ + links.last()
    }
}

/// What a run of messages says.
pub open spec fn said(links: Seq<String>) -> Seq<Seq<char>> {
    links.map_values(|link: String| link@)
}

impl LoadError {
    /// The messages for the operator, outermost first: what was looked for, at what
    /// point it failed where that was before the search, and what was wrong.
    pub open spec fn chain(self) -> Seq<Seq<char>> {
        match self {
            LoadError::NoBtf { field } => seq![
                qualified(field),
                "reading /sys/kernel/btf/vmlinux (CONFIG_DEBUG_INFO_BTF required)"@,
            ],
            LoadError::Unresolved { field, cause } => {
                let found = cause.text(field.owner(), field.name());
                if cause.is_malformed() {
                    seq![qualified(field), "parsing /sys/kernel/btf/vmlinux"@, found]
                } else {
                    seq![qualified(field), found]
                }
            },
            LoadError::NotAdjacent { pid, tgid } => seq![
                "task_struct pid ("@ + text::decimal(pid as nat) + ") and tgid ("@ + text::decimal(
                    tgid as nat,
                ) + ") are not adjacent in this kernel"@,
            ],
        }
    }

    /// The messages on one line.
    pub open spec fn text(self) -> Seq<char> {
        joined(self.chain())
    }

    /// The messages for the operator, outermost first.
    pub fn links(&self) -> (out: Vec<String>)
        ensures
            said(out@) == self.chain(),
    {
        let mut out: Vec<String> = Vec::new();
        match self {
            LoadError::NoBtf { field } => {
                out.push(qualify(*field));
                out.push(
                    "reading /sys/kernel/btf/vmlinux (CONFIG_DEBUG_INFO_BTF required)".to_owned(),
                );
            },
            LoadError::Unresolved { field, cause } => {
                out.push(qualify(*field));
                if cause.malformed() {
                    out.push("parsing /sys/kernel/btf/vmlinux".to_owned());
                }
                out.push(cause.message(field.owner_str(), field.name_str()));
            },
            LoadError::NotAdjacent { pid, tgid } => {
                let mut only = "task_struct pid (".to_owned();
                only.append(text::to_decimal(*pid as u128).as_str());
                only.append(") and tgid (");
                only.append(text::to_decimal(*tgid as u128).as_str());
                only.append(") are not adjacent in this kernel");
                out.push(only);
            },
        }
        assert(said(out@) == self.chain());
        out
    }

    /// The messages on one line.
    pub fn message(&self) -> (out: String)
        ensures
            out@ == self.text(),
    {
        let links = self.links();
        let mut out = links[0].clone();
        let ghost all = said(links@);
        assert(joined(all.take(1)) == all[0]);
        for i in 1..links.len()
            invariant
                all == said(links@),
                out@ == joined(all.take(i as int)),
        {
            out.append(": ");
            out.append(links[i].as_str());
            assert(all.take(i + 1).drop_last() == all.take(i as int));
            assert(all.take(i + 1).last() == links@[i as int]@);
        }
        assert(all.take(links@.len() as int) == all);
        out
    }
}

fn qualify(field: Field) -> (out: String)
    ensures
        out@ == qualified(field),
{
    let mut out = "BTF: ".to_owned();
    out.append(field.owner_str());
    out.append("::");
    out.append(field.name_str());
    out
}

/// The bytes of a file, where it could be read.
pub open spec fn bytes_of(data: Option<Vec<u8>>) -> Option<Seq<u8>> {
    match data {
        Some(data) => Some(data@),
        None => None,
    }
}

/// The byte offset of `field` in the BTF `data`, where the kernel ships it.
pub open spec fn offset_of(data: Option<Seq<u8>>, field: Field) -> Result<nat, LoadError> {
    match data {
        None => Err(LoadError::NoBtf { field }),
        Some(data) => match btf::header(data) {
            Err(cause) => Err(LoadError::Unresolved { field, cause }),
            Ok(layout) => match layout.lookup(field.owner(), field.name()) {
                Ok(offset) => Ok(offset),
                Err(cause) => Err(LoadError::Unresolved { field, cause }),
            },
        },
    }
}

/// Offset of the run state: `__state` (u32) since 5.14, previously `state` - a
/// native long, whose meaningful low word sits in the second half on 64-bit
/// big-endian.
pub open spec fn state_at(data: Option<Seq<u8>>, wide_big_endian: bool) -> Result<nat, LoadError> {
    match offset_of(data, Field::NewState) {
        Ok(offset) => Ok(offset),
        Err(_) => match offset_of(data, Field::OldState) {
            Ok(offset) => Ok(
                offset + if wide_big_endian {
                    4nat
                } else {
                    0
                },
            ),
            Err(e) => Err(e),
        },
    }
}

/// The offsets the programs are loaded with, or the first thing in the way: the
/// fields in order, and the adjacency of the two ids as soon as both are known.
pub open spec fn offsets_in(
    data: Option<Seq<u8>>,
    has_prev_state: Option<bool>,
    wide_big_endian: bool,
) -> Result<Offsets, LoadError> {
    match offset_of(data, Field::Pid) {
        Err(e) => Err(e),
        Ok(pid) => match offset_of(data, Field::Tgid) {
            Err(e) => Err(e),
            Ok(tgid) => if tgid != pid + 4 {
                Err(LoadError::NotAdjacent { pid: pid as u32, tgid: tgid as u32 })
            } else {
                match (
                    offset_of(data, Field::Signal),
                    offset_of(data, Field::Live),
                    offset_of(data, Field::CredUid),
                    state_at(data, wide_big_endian),
                ) {
                    (Err(e), _, _, _) => Err(e),
                    (_, Err(e), _, _) => Err(e),
                    (_, _, Err(e), _) => Err(e),
                    (_, _, _, Err(e)) => Err(e),
                    (Ok(signal), Ok(live), Ok(cred_uid), Ok(state)) => Ok(
                        Offsets {
                            pid: pid as u32,
                            tgid: tgid as u32,
                            state: state as u32,
                            signal: signal as u32,
                            live: live as u32,
                            cred_uid: cred_uid as u32,
                            has_prev_state: has_prev_state == Some(true),
                        },
                    ),
                }
            },
        },
    }
}

/// The kernel's BTF, as far as it could be had.
enum Source {
    Unreadable,
    Malformed(BtfError),
    Parsed(Btf),
}

impl Source {
    /// What the source was made of.
    spec fn is_of(self, data: Option<Seq<u8>>) -> bool {
        match (self, data) {
            (Source::Unreadable, None) => true,
            (Source::Malformed(e), Some(data)) => btf::header(data) == Err::<btf::Layout, _>(e),
            (Source::Parsed(b), Some(data)) => btf::header(data) == Ok::<_, BtfError>(b@),
            _ => false,
        }
    }

    fn offset(&self, field: Field, Ghost(data): Ghost<Option<Seq<u8>>>) -> (out: Result<
        u32,
        LoadError,
    >)
        requires
            self.is_of(data),
        ensures
            match offset_of(data, field) {
                Ok(offset) => out matches Ok(o) && o == offset && o <= 0x1fff_ffff,
                Err(e) => out == Err::<u32, _>(e),
            },
    {
        match self {
            Source::Unreadable => Err(LoadError::NoBtf { field }),
            Source::Malformed(cause) => Err(LoadError::Unresolved { field, cause: *cause }),
            Source::Parsed(btf) => match btf.field_offset(field.owner_str(), field.name_str()) {
                Ok(offset) => Ok(offset),
                Err(cause) => Err(LoadError::Unresolved { field, cause }),
            },
        }
    }

    fn state_offset(
        &self,
        wide_big_endian: bool,
        Ghost(data): Ghost<Option<Seq<u8>>>,
    ) -> (out: Result<u32, LoadError>)
        requires
            self.is_of(data),
        ensures
            match state_at(data, wide_big_endian) {
                Ok(offset) => out matches Ok(o) && o == offset,
                Err(e) => out == Err::<u32, _>(e),
            },
    {
        if let Ok(offset) = self.offset(Field::NewState, Ghost(data)) {
            return Ok(offset);
        }
        match self.offset(Field::OldState, Ghost(data)) {
            Ok(offset) => Ok(
                offset + if wide_big_endian {
                    4
                } else {
                    0
                },
            ),
            Err(e) => Err(e),
        }
    }
}

/// The offsets the programs are loaded with: `data` is the running kernel's BTF,
/// if it could be read, and `has_prev_state` whether its `sched_switch` carries
/// the previous task's state. A miss there falls back to the probe-read path,
/// correct on any kernel.
pub fn resolve_offsets(
    data: Option<Vec<u8>>,
    has_prev_state: Option<bool>,
    wide_big_endian: bool,
) -> (out: Result<Offsets, LoadError>)
    ensures
        out == offsets_in(bytes_of(data), has_prev_state, wide_big_endian),
{
    let ghost bytes = bytes_of(data);
    let source = match data {
        None => Source::Unreadable,
        Some(data) => match Btf::from_bytes(data) {
            Ok(btf) => Source::Parsed(btf),
            Err(e) => Source::Malformed(e),
        },
    };
    let pid = match source.offset(Field::Pid, Ghost(bytes)) {
        Ok(offset) => offset,
        Err(e) => return Err(e),
    };
    let tgid = match source.offset(Field::Tgid, Ghost(bytes)) {
        Ok(offset) => offset,
        Err(e) => return Err(e),
    };
    // The sched_switch hotpath reads pid and tgid in one 8-byte load
    // (`Task::pid_and_tgid`), which requires them adjacent.
    if tgid != pid + 4 {
        return Err(LoadError::NotAdjacent { pid, tgid });
    }
    // Live-thread count of the group, read on the exit path to tell a departed
    // process from a leader that exited while its threads ran on.
    let signal = match source.offset(Field::Signal, Ghost(bytes)) {
        Ok(offset) => offset,
        Err(e) => return Err(e),
    };
    let live = match source.offset(Field::Live, Ghost(bytes)) {
        Ok(offset) => offset,
        Err(e) => return Err(e),
    };
    let cred_uid = match source.offset(Field::CredUid, Ghost(bytes)) {
        Ok(offset) => offset,
        Err(e) => return Err(e),
    };
    let state = match source.state_offset(wide_big_endian, Ghost(bytes)) {
        Ok(offset) => offset,
        Err(e) => return Err(e),
    };
    let has_prev_state = match has_prev_state {
        Some(has) => has,
        None => false,
    };
    Ok(Offsets { pid, tgid, state, signal, live, cred_uid, has_prev_state })
}

/// Whatever offsets the programs are loaded with, the two ids are adjacent, as
/// the hotpath's single read needs them.
pub proof fn loaded_ids_are_adjacent(
    data: Option<Seq<u8>>,
    has_prev_state: Option<bool>,
    wide_big_endian: bool,
)
    ensures
        offsets_in(data, has_prev_state, wide_big_endian) matches Ok(offsets) ==> offsets.tgid
            == offsets.pid + 4,
{
    if let Some(data) = data {
        if let Ok(layout) = btf::header(data) {
            btf::lookup_is_small(layout, Field::Pid.owner(), Field::Pid.name());
            btf::lookup_is_small(layout, Field::Tgid.owner(), Field::Tgid.name());
        }
    }
}

// ── The load plan ────────────────────────────────────────────────────────────

/// A global of the object and the constant it is overridden with.
#[derive(Clone, Copy, Debug)]
pub struct Override {
    pub name: &'static str,
    pub value: u32,
}

impl View for Override {
    type V = (Seq<char>, u32);

    open spec fn view(&self) -> (Seq<char>, u32) {
        (self.name@, self.value)
    }
}

/// The globals to override, with their constants.
pub open spec fn overrides(o: Offsets) -> Seq<(Seq<char>, u32)> {
    seq![
        ("PID_OFFSET"@, o.pid),
        ("TGID_OFFSET"@, o.tgid),
        ("STATE_OFFSET"@, o.state),
        ("SIGNAL_OFFSET"@, o.signal),
        ("LIVE_OFFSET"@, o.live),
        ("CRED_UID_OFFSET"@, o.cred_uid),
        (
            "HAS_PREV_STATE"@,
            if o.has_prev_state {
                1u32
            } else {
                0
            },
        ),
    ]
}

/// The globals to override, with their constants.
pub fn globals(o: &Offsets) -> (out: Vec<Override>)
    ensures
        out@.map_values(|g: Override| g@) == overrides(*o),
{
    let out = vec![
        Override { name: "PID_OFFSET", value: o.pid },
        Override { name: "TGID_OFFSET", value: o.tgid },
        Override { name: "STATE_OFFSET", value: o.state },
        Override { name: "SIGNAL_OFFSET", value: o.signal },
        Override { name: "LIVE_OFFSET", value: o.live },
        Override { name: "CRED_UID_OFFSET", value: o.cred_uid },
        Override {
            name: "HAS_PREV_STATE",
            value: if o.has_prev_state {
                1
            } else {
                0
            },
        },
    ];
    assert(out@.map_values(|g: Override| g@) =~= overrides(*o));
    out
}

/// The maps that hold an entry per process or thread.
pub open spec fn sized_map_list() -> Seq<Seq<char>> {
    seq!["CPU_NS"@, "IOWAIT_NS"@, "COMM_MAP"@, "SLEEP_SINCE"@]
}

/// The accounting maps, all sized by `--max-processes`.
pub fn sized_maps() -> (out: Vec<&'static str>)
    ensures
        out@.map_values(|name: &'static str| name@) == seq![
            "CPU_NS"@,
            "IOWAIT_NS"@,
            "COMM_MAP"@,
            "SLEEP_SINCE"@,
        ],
        out@.map_values(|name: &'static str| name@) == sized_map_list(),
{
    let out = vec!["CPU_NS", "IOWAIT_NS", "COMM_MAP", "SLEEP_SINCE"];
    assert(out@.map_values(|name: &'static str| name@) =~= seq![
        "CPU_NS"@,
        "IOWAIT_NS"@,
        "COMM_MAP"@,
        "SLEEP_SINCE"@,
    ]);
    out
}

// ── Laws ─────────────────────────────────────────────────────────────────────

/// The programs are given the offset of the field each of them reads, as the kernel's
/// BTF has it: the thread and process ids, the signal pointer and the run state of a
/// `task_struct`, the live count of a `signal_struct` and the owner in a `cred`. The
/// run state is `__state` where there is one, else the low word of `state`.
pub proof fn every_offset_is_its_fields(
    data: Seq<u8>,
    has_prev_state: Option<bool>,
    wide_big_endian: bool,
)
    ensures
        offsets_in(Some(data), has_prev_state, wide_big_endian) matches Ok(o) ==> {
            &&& btf::header(data) matches Ok(b) && {
                &&& b.lookup("task_struct"@, "pid"@) == Ok::<nat, BtfError>(o.pid as nat)
                &&& b.lookup("task_struct"@, "tgid"@) == Ok::<nat, BtfError>(o.tgid as nat)
                &&& b.lookup("task_struct"@, "signal"@) == Ok::<nat, BtfError>(o.signal as nat)
                &&& b.lookup("signal_struct"@, "live"@) == Ok::<nat, BtfError>(o.live as nat)
                &&& b.lookup("cred"@, "uid"@) == Ok::<nat, BtfError>(o.cred_uid as nat)
                &&& match b.lookup("task_struct"@, "__state"@) {
                    Ok(at) => o.state == at,
                    Err(_) => b.lookup("task_struct"@, "state"@) matches Ok(at) && o.state == at
                        + if wide_big_endian {
                        4nat
                    } else {
                        0
                    },
                }
            }
            &&& o.has_prev_state <==> has_prev_state == Some(true)
        },
{
    if let Ok(b) = btf::header(data) {
        btf::lookup_is_small(b, "task_struct"@, "pid"@);
        btf::lookup_is_small(b, "task_struct"@, "tgid"@);
        btf::lookup_is_small(b, "task_struct"@, "signal"@);
        btf::lookup_is_small(b, "signal_struct"@, "live"@);
        btf::lookup_is_small(b, "cred"@, "uid"@);
        btf::lookup_is_small(b, "task_struct"@, "__state"@);
        btf::lookup_is_small(b, "task_struct"@, "state"@);
    }
}

/// Loading is refused for a reason and for no other: no readable BTF, a field that is
/// not in it, or two ids that are not side by side.
pub proof fn loading_is_refused_only_for_cause(
    data: Option<Seq<u8>>,
    has_prev_state: Option<bool>,
    wide_big_endian: bool,
)
    ensures
        ({
            let out = offsets_in(data, has_prev_state, wide_big_endian);
            match data {
                None => out == Err::<Offsets, LoadError>(LoadError::NoBtf { field: Field::Pid }),
                Some(data) => match btf::header(data) {
                    Err(cause) => out == Err::<Offsets, LoadError>(
                        LoadError::Unresolved { field: Field::Pid, cause },
                    ),
                    Ok(b) => out is Ok <==> {
                        &&& b.lookup("task_struct"@, "pid"@) is Ok
                        &&& b.lookup("task_struct"@, "tgid"@) is Ok
                        &&& b.lookup("task_struct"@, "tgid"@)->Ok_0 == b.lookup(
                            "task_struct"@,
                            "pid"@,
                        )->Ok_0 + 4
                        &&& b.lookup("task_struct"@, "signal"@) is Ok
                        &&& b.lookup("signal_struct"@, "live"@) is Ok
                        &&& b.lookup("cred"@, "uid"@) is Ok
                        &&& (b.lookup("task_struct"@, "__state"@) is Ok || b.lookup(
                            "task_struct"@,
                            "state"@,
                        ) is Ok)
                    },
                },
            }
        }),
{
}

/// Every global the programs read is overridden with the offset it is named after, and
/// the flag with one exactly where the tracepoint carries the state.
pub proof fn every_global_gets_its_offset(o: Offsets)
    ensures
        overrides(o).len() == 7,
        overrides(o).contains(("PID_OFFSET"@, o.pid)),
        overrides(o).contains(("TGID_OFFSET"@, o.tgid)),
        overrides(o).contains(("STATE_OFFSET"@, o.state)),
        overrides(o).contains(("SIGNAL_OFFSET"@, o.signal)),
        overrides(o).contains(("LIVE_OFFSET"@, o.live)),
        overrides(o).contains(("CRED_UID_OFFSET"@, o.cred_uid)),
        o.has_prev_state ==> overrides(o).contains(("HAS_PREV_STATE"@, 1u32)),
        !o.has_prev_state ==> overrides(o).contains(("HAS_PREV_STATE"@, 0u32)),
{
    let all = overrides(o);
    assert(all[0] == ("PID_OFFSET"@, o.pid));
    assert(all[1] == ("TGID_OFFSET"@, o.tgid));
    assert(all[2] == ("STATE_OFFSET"@, o.state));
    assert(all[3] == ("SIGNAL_OFFSET"@, o.signal));
    assert(all[4] == ("LIVE_OFFSET"@, o.live));
    assert(all[5] == ("CRED_UID_OFFSET"@, o.cred_uid));
    assert(all[6].0 == "HAS_PREV_STATE"@);
}

/// What an entry costs: two counters of eight bytes on every CPU, a name of sixteen
/// and a stamp of twelve. No entries cost nothing.
pub proof fn every_entry_costs_the_same(entries: nat, possible_cpus: nat)
    ensures
        committed(0, possible_cpus) == 0,
        committed(entries + 1, possible_cpus) - committed(entries, possible_cpus) == 8
            * possible_cpus + 8 * possible_cpus + 16 + 12,
{
    let (n, c) = (entries, possible_cpus);
    assert(2 * (n + 1) * 8 * c == 2 * n * 8 * c + 16 * c) by (nonlinear_arith);
    assert((n + 1) * 16 == n * 16 + 16) by (nonlinear_arith);
    assert(2 * 0 * 8 * c == 0) by (nonlinear_arith);
}

/// What the operator chose is taken as it is; left to the machine, the size is the one
/// that the CPU count allows, between the two bounds.
pub proof fn the_operator_has_the_last_word(chosen: u32, possible_cpus: nat)
    ensures
        entries_for(Some(chosen), possible_cpus) == chosen,
        possible_cpus <= 64 ==> entries_for(None, possible_cpus) == 65_536,
        possible_cpus >= 256 ==> entries_for(None, possible_cpus) == 16_384,
        64 < possible_cpus < 256 ==> {
            let n = entries_for(None, possible_cpus);
            &&& 16_384 <= n <= 65_536
            &&& n * 8 * possible_cpus <= 33_554_432 < (n + 1) * 8 * possible_cpus
        },
{
    the_default_tapers(possible_cpus, possible_cpus);
    if 64 < possible_cpus < 256 {
        let (c, n) = (possible_cpus, 33_554_432nat / (8 * possible_cpus));
        assert(n >= 16_384 && n <= 65_536) by (nonlinear_arith)
            requires
                64 < c < 256,
                n == 33_554_432nat / (8 * c),
        ;
        assert(n * 8 * c <= 33_554_432 < (n + 1) * 8 * c) by (nonlinear_arith)
            requires
                c > 0,
                n == 33_554_432nat / (8 * c),
        ;
    }
}

/// Both counters, the names and the stamps are sized alike, and nothing else is.
pub proof fn every_accounting_map_is_sized(name: Seq<char>)
    ensures
        sized_map_list().contains(name) <==> name == "CPU_NS"@ || name == "IOWAIT_NS"@ || name
            == "COMM_MAP"@ || name == "SLEEP_SINCE"@,
        sized_map_list().len() == 4,
{
    let all = sized_map_list();
    assert(all[0] == "CPU_NS"@ && all[1] == "IOWAIT_NS"@);
    assert(all[2] == "COMM_MAP"@ && all[3] == "SLEEP_SINCE"@);
}

/// A refusal says what was looked for, outermost, and what was wrong, innermost.
pub proof fn a_refusal_says_what_was_looked_for(field: Field, cause: BtfError)
    ensures
        ({
            let chain = (LoadError::Unresolved { field, cause }).chain();
            &&& text::occurs(chain.first(), field.owner() + "::"@ + field.name())
            &&& chain.last() == cause.text(field.owner(), field.name())
            &&& chain.len() == if cause.is_malformed() {
                3nat
            } else {
                2
            }
        }),
        text::occurs(
            (LoadError::NoBtf { field }).chain().first(),
            field.owner() + "::"@ + field.name(),
        ),
{
    lemma_qualified(field.owner(), field.name());
}

proof fn lemma_qualified(owner: Seq<char>, name: Seq<char>)
    ensures
        text::occurs("BTF: "@ + owner + "::"@ + name, owner + "::"@ + name),
{
    text::a_tail_is_found("BTF: "@, owner, "::"@, name);
}

/// On one line, a chain reads from the outermost cause to the innermost, with a colon
/// between two.
pub proof fn a_chain_reads_inwards(links: Seq<Seq<char>>, cause: Seq<char>)
    ensures
        joined(seq![cause]) == cause,
        links.len() > 0 ==> joined(links.push(cause)) == joined(links) + ": "@ + cause,
{
    assert(links.push(cause).drop_last() =~= links);
}

/// Where loading is refused for a field, that field is the one that is not there, and
/// for the reason that is given; where for two ids that are not side by side, they are
/// where it says.
pub proof fn a_refusal_is_true(data: Seq<u8>, has_prev_state: Option<bool>, wide_big_endian: bool)
    ensures
        btf::header(data) matches Ok(b) ==> (match offsets_in(
            Some(data),
            has_prev_state,
            wide_big_endian,
        ) {
            Err(LoadError::Unresolved { field, cause }) => {
                &&& b.lookup(field.owner(), field.name()) == Err::<nat, BtfError>(cause)
                &&& field == Field::Tgid || field == Field::Signal || field == Field::Live || field
                    == Field::CredUid || field == Field::OldState ==> b.lookup(
                    "task_struct"@,
                    "pid"@,
                ) is Ok
                &&& field == Field::OldState ==> b.lookup("task_struct"@, "__state"@) is Err
            },
            Err(LoadError::NotAdjacent { pid, tgid }) => {
                &&& b.lookup("task_struct"@, "pid"@) == Ok::<nat, BtfError>(pid as nat)
                &&& b.lookup("task_struct"@, "tgid"@) == Ok::<nat, BtfError>(tgid as nat)
                &&& tgid != pid + 4
            },
            Err(LoadError::NoBtf { .. }) => false,
            Ok(_) => true,
        }),
{
    if let Ok(b) = btf::header(data) {
        btf::lookup_is_small(b, "task_struct"@, "pid"@);
        btf::lookup_is_small(b, "task_struct"@, "tgid"@);
    }
}

/// Two ids that are not side by side are reported with where they are.
pub proof fn both_ids_are_reported(pid: u32, tgid: u32)
    ensures
        ({
            let chain = (LoadError::NotAdjacent { pid, tgid }).chain();
            &&& chain.len() == 1
            &&& text::occurs(chain[0], text::decimal(pid as nat))
            &&& text::occurs(chain[0], text::decimal(tgid as nat))
        }),
{
    lemma_reported(
        "task_struct pid ("@,
        text::decimal(pid as nat),
        ") and tgid ("@,
        text::decimal(tgid as nat),
        ") are not adjacent in this kernel"@,
    );
}

proof fn lemma_reported(a: Seq<char>, x: Seq<char>, b: Seq<char>, y: Seq<char>, c: Seq<char>)
    ensures
        text::occurs(a + x + b + y + c, x),
        text::occurs(a + x + b + y + c, y),
{
    text::what_is_put_in_is_found(a, x, b + y + c);
    assert(a + x + b + y + c =~= a + x + (b + y + c));
    text::what_is_put_in_is_found(a + x + b, y, c);
}

} // verus!
