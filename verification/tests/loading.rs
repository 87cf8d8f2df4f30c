//! The command line, the host, BTF and the way to attached programs.

use anyhow::Context;
use std::io::{Error, ErrorKind};
use std::time::{Duration, Instant};

use truetop::btf::{extra_len, field_byte_offset, Btf, BtfError};
use truetop::cli::{parse, Args, CliError, Command, Problem, USAGE, VERSION};
use truetop::load::{
    default_max_processes, globals, map_bytes, map_bytes_fit, map_entries, resolve_offsets, sized_maps, Field,
    LoadError,
};
use truetop::privilege::{diagnose, hint_for, privilege_hint, IoKind, PRIVILEGE_HINT};
use truetop::setup::{
    creds_warning, failure_context, take_percpu_map, Hook, MapKind, MapName, Outcome, Setup, Step,
    Verdict,
};
use truetop::system::{
    cpu_model, first_line, load_average, meminfo_field, meminfo_fits, memory_total_bytes,
    memory_used_bytes, CpuCounts, Machine, TopologyError,
};
use truetop::ui::theme::detect::{resolve, resolve_with};
use truetop::ui::theme::Background;

// ── btf ──────────────────────────────────────────────────────────────────────

const KIND_INT: u32 = 1;
const KIND_STRUCT: u32 = 4;

fn word(v: &mut Vec<u8>, x: u32, le: bool) {
    v.extend_from_slice(&if le { x.to_le_bytes() } else { x.to_be_bytes() });
}

fn blob(le: bool, types: &[u32], strings: &[u8]) -> Vec<u8> {
    let mut section = Vec::new();
    for &w in types {
        word(&mut section, w, le);
    }
    let mut buf = Vec::new();
    let magic = 0xeb9fu16;
    buf.extend_from_slice(&if le {
        magic.to_le_bytes()
    } else {
        magic.to_be_bytes()
    });
    buf.extend_from_slice(&[1, 0]); // version, flags
    // hdr_len, type_off, type_len, str_off, str_len
    for w in [
        24,
        0,
        section.len() as u32,
        section.len() as u32,
        strings.len() as u32,
    ] {
        word(&mut buf, w, le);
    }
    buf.extend_from_slice(&section);
    buf.extend_from_slice(strings);
    buf
}

// Minimal BTF (`le` picks endianness, which differs per arch): an int
// (id 1, skipped by the walk) then struct task { pid@0, tgid@4 }. btf_type
// and btf_member are three u32s each; strings are task@1 pid@6 tgid@10.
fn sample_btf(le: bool) -> Vec<u8> {
    blob(
        le,
        &[
            0,
            KIND_INT << 24,
            4,
            0,
            1,
            (KIND_STRUCT << 24) | 2,
            8,
            6,
            1,
            0,
            10,
            1,
            32,
        ],
        b"\0task\0pid\0tgid\0",
    )
}

fn parsed(data: Vec<u8>) -> Btf {
    match Btf::from_bytes(data) {
        Ok(btf) => btf,
        Err(e) => panic!("{e:?}"),
    }
}

#[test]
fn resolves_field_offset_in_both_endiannesses() {
    for le in [true, false] {
        let btf = parsed(sample_btf(le));
        assert_eq!(btf.field_offset("task", "pid").unwrap(), 0);
        assert_eq!(btf.field_offset("task", "tgid").unwrap(), 4);
    }
}

#[test]
fn unknown_field_is_error() {
    let btf = parsed(sample_btf(true));
    assert!(btf.field_offset("task", "missing").is_err());
    assert_eq!(btf.field_offset("task", "missing"), Err(BtfError::NoField));
}

#[test]
fn unknown_struct_is_error() {
    let btf = parsed(sample_btf(true));
    assert!(btf.field_offset("missing", "pid").is_err());
    assert_eq!(btf.field_offset("missing", "pid"), Err(BtfError::NoStruct));
}

#[test]
fn rejects_bad_magic() {
    assert!(Btf::from_bytes(vec![0; 64]).is_err());
    assert!(matches!(Btf::from_bytes(vec![0; 64]), Err(BtfError::BadMagic)));
}

#[test]
fn rejects_undersized_input() {
    assert!(Btf::from_bytes(vec![0x9f, 0xeb, 1, 0]).is_err());
    assert!(matches!(
        Btf::from_bytes(vec![0x9f, 0xeb, 1, 0]),
        Err(BtfError::TooSmall)
    ));
}

#[test]
fn out_of_bounds_sections_do_not_panic() {
    let mut blob = sample_btf(true);
    blob[16..20].copy_from_slice(&u32::MAX.to_le_bytes()); // str_off past the buffer
    let btf = parsed(blob);
    assert!(btf.field_offset("task", "pid").is_err());
}

#[test]
fn arbitrary_input_does_not_panic() {
    for len in 0..512usize {
        let mut data: Vec<u8> = (0..len).map(|i| (i * 31 + 7) as u8).collect();
        // Force a valid magic for half the cases to drive the walk deeper.
        if len >= 2 && len % 2 == 0 {
            data[0] = 0x9f;
            data[1] = 0xeb;
        }
        let _ = Btf::from_bytes(data).and_then(|b| b.field_offset("task_struct", "pid"));
    }
}

#[test]
fn a_bitfield_struct_keeps_its_offset_in_the_low_bits() {
    // The top bit of `info` says that the high byte of an offset is a size.
    let types = [
        1,
        0x8000_0000 | (KIND_STRUCT << 24) | 1,
        8,
        6,
        1,
        (5 << 24) | 64,
    ];
    let btf = parsed(blob(true, &types, b"\0task\0pid\0"));
    assert_eq!(btf.field_offset("task", "pid"), Ok(8));
}

#[test]
fn a_name_that_is_not_utf8_reads_as_empty() {
    let types = [1, (KIND_STRUCT << 24) | 1, 8, 4, 1, 32];
    let btf = parsed(blob(true, &types, b"\0\xff\xfe\0pid\0"));
    assert_eq!(btf.field_offset("", "pid"), Ok(4));
    assert_eq!(btf.string(1), "");
    assert_eq!(btf.string(4), "pid");
    assert_eq!(btf.string(9999), "");
    assert_eq!(btf.u32(0), Some(0x0001_eb9f));
    assert_eq!(btf.u32(u64::MAX), None);
}

#[test]
fn trailing_data_is_skipped_by_kind() {
    assert_eq!(extra_len(1, 9), 4);
    assert_eq!(extra_len(3, 9), 12);
    assert_eq!(extra_len(4, 9), 108);
    assert_eq!(extra_len(6, 9), 72);
    assert_eq!(extra_len(2, 9), 0);
    assert_eq!(extra_len(4, 1 << 32), 12 << 32);
}

#[test]
fn a_lookup_failure_says_what_is_missing() {
    assert_eq!(
        BtfError::NoField.message("task", "x"),
        "field `x` not found in `task`"
    );
    assert_eq!(
        BtfError::NoStruct.message("task", "x"),
        "struct `task` not found in BTF"
    );
    assert_eq!(BtfError::BadMagic.message("", ""), "bad BTF magic");
    assert_eq!(
        BtfError::TooSmall.message("", ""),
        "too small to be valid BTF"
    );
    assert_eq!(field_byte_offset(sample_btf(false), "task", "tgid"), Ok(4));
    assert_eq!(
        field_byte_offset(vec![], "task", "tgid"),
        Err(BtfError::TooSmall)
    );
}

// ── load ─────────────────────────────────────────────────────────────────────

/// `task_struct { pid, tgid, [state], signal }`, `signal_struct { live }` and
/// `cred { uid }`, with the given byte offsets.
fn kernel_btf(pid: u32, tgid: u32, state_name: &str, state: u32) -> Vec<u8> {
    let mut strings = vec![0u8];
    let mut at = |name: &str| {
        let offset = strings.len() as u32;
        strings.extend_from_slice(name.as_bytes());
        strings.push(0);
        offset
    };
    let (task, sig, cred) = (at("task_struct"), at("signal_struct"), at("cred"));
    let (p, t, s) = (at("pid"), at("tgid"), at(state_name));
    let (signal, live, uid) = (at("signal"), at("live"), at("uid"));
    let types = [
        task,
        (KIND_STRUCT << 24) | 4,
        64,
        p,
        1,
        pid * 8,
        t,
        1,
        tgid * 8,
        s,
        1,
        state * 8,
        signal,
        1,
        48 * 8,
        sig,
        (KIND_STRUCT << 24) | 1,
        64,
        live,
        1,
        12 * 8,
        cred,
        (KIND_STRUCT << 24) | 1,
        64,
        uid,
        1,
        8 * 8,
    ];
    blob(true, &types, &strings)
}

#[test]
fn offsets_come_from_the_kernels_own_btf() {
    let offsets = resolve_offsets(Some(kernel_btf(16, 20, "__state", 24)), Some(true), false)
        .expect("offsets");
    assert_eq!((offsets.pid, offsets.tgid), (16, 20));
    assert_eq!((offsets.state, offsets.signal), (24, 48));
    assert_eq!((offsets.live, offsets.cred_uid), (12, 8));
    assert!(offsets.has_prev_state);
    let values: Vec<(&str, u32)> = globals(&offsets).iter().map(|g| (g.name, g.value)).collect();
    assert_eq!(
        values,
        vec![
            ("PID_OFFSET", 16),
            ("TGID_OFFSET", 20),
            ("STATE_OFFSET", 24),
            ("SIGNAL_OFFSET", 48),
            ("LIVE_OFFSET", 12),
            ("CRED_UID_OFFSET", 8),
            ("HAS_PREV_STATE", 1),
        ]
    );
    assert_eq!(
        sized_maps(),
        vec!["CPU_NS", "IOWAIT_NS", "COMM_MAP", "SLEEP_SINCE"]
    );
}

#[test]
fn an_older_kernels_state_is_a_long() {
    let old = |wide_be| {
        resolve_offsets(Some(kernel_btf(16, 20, "state", 24)), None, wide_be).expect("offsets")
    };
    assert_eq!(old(false).state, 24);
    assert_eq!(old(true).state, 28);
    assert!(!old(false).has_prev_state);
}

#[test]
fn ids_that_are_not_adjacent_are_refused() {
    let err = resolve_offsets(Some(kernel_btf(16, 24, "state", 32)), None, false).unwrap_err();
    assert_eq!(err, LoadError::NotAdjacent { pid: 16, tgid: 24 });
    assert_eq!(
        err.message(),
        "task_struct pid (16) and tgid (24) are not adjacent in this kernel"
    );
}

#[test]
fn a_kernel_without_btf_is_told_which_option_it_lacks() {
    let err = resolve_offsets(None, None, false).unwrap_err();
    assert_eq!(err, LoadError::NoBtf { field: Field::Pid });
    assert!(err.message().contains("CONFIG_DEBUG_INFO_BTF"));
    let err = resolve_offsets(Some(sample_btf(true)), None, false).unwrap_err();
    assert_eq!(
        err.message(),
        "BTF: task_struct::pid: struct `task_struct` not found in BTF"
    );
    let err = resolve_offsets(Some(vec![0; 64]), None, false).unwrap_err();
    assert_eq!(
        err.message(),
        "BTF: task_struct::pid: parsing /sys/kernel/btf/vmlinux: bad BTF magic"
    );
    let err = resolve_offsets(Some(kernel_btf(16, 20, "other", 24)), None, false).unwrap_err();
    assert_eq!(
        err,
        LoadError::Unresolved {
            field: Field::OldState,
            cause: BtfError::NoField
        }
    );
}

#[test]
fn an_error_names_every_link_of_its_chain() {
    let links = |data| resolve_offsets(data, None, false).unwrap_err().links();
    assert_eq!(
        links(None),
        [
            "BTF: task_struct::pid",
            "reading /sys/kernel/btf/vmlinux (CONFIG_DEBUG_INFO_BTF required)"
        ]
    );
    assert_eq!(
        links(Some(vec![0; 64])),
        [
            "BTF: task_struct::pid",
            "parsing /sys/kernel/btf/vmlinux",
            "bad BTF magic"
        ]
    );
    assert_eq!(
        links(Some(sample_btf(true))),
        [
            "BTF: task_struct::pid",
            "struct `task_struct` not found in BTF"
        ]
    );
    let apart = resolve_offsets(Some(kernel_btf(16, 24, "state", 32)), None, false).unwrap_err();
    assert_eq!(apart.links(), [apart.message()]);
    for data in [None, Some(vec![0; 64]), Some(sample_btf(true))] {
        let err = resolve_offsets(data, None, false).unwrap_err();
        assert_eq!(err.message(), err.links().join(": "));
    }
}

#[test]
fn the_default_map_size_tracks_the_cpu_count() {
    assert_eq!(default_max_processes(16), 65_536);
    assert_eq!(default_max_processes(128), 32_768);
    assert_eq!(default_max_processes(4096), 16_384);
}

#[test]
fn what_the_maps_commit_is_counted_before_it_is_stated() {
    assert!(map_bytes_fit(65_536, 16));
    assert_eq!(map_bytes(65_536, 16), 65_536 * (2 * 8 * 16 + 16 + 12));
    assert!(map_bytes_fit(0, usize::MAX));
    assert!(!map_bytes_fit(u32::MAX, usize::MAX));
}

#[test]
fn the_default_is_full_up_to_64_cpus() {
    assert_eq!(default_max_processes(0), 65_536);
    assert_eq!(default_max_processes(64), 65_536);
    assert_eq!(default_max_processes(65), 64_527);
    assert_eq!(default_max_processes(256), 16_384);
    assert_eq!(map_entries(Some(1024), 64), 1024);
    assert_eq!(map_entries(None, 128), 32_768);
    // Two counters of 8 bytes per CPU, a 16-byte name and a 12-byte stamp.
    assert_eq!(map_bytes(1000, 4), 64_000 + 16_000 + 12_000);
}

// ── privilege ────────────────────────────────────────────────────────────────

#[test]
fn permission_denied_anywhere_in_the_chain_hints_privilege() {
    // aya surfaces a load EPERM as an io::Error source under its own context.
    let err = anyhow::Error::new(Error::from(ErrorKind::PermissionDenied))
        .context("loading eBPF object");
    assert_eq!(privilege_hint(&err), Some(PRIVILEGE_HINT));
}

#[test]
fn unrelated_failures_are_left_alone() {
    assert_eq!(privilege_hint(&anyhow::Error::msg("COMM_MAP not found")), None);
    let missing = anyhow::Error::new(Error::from(ErrorKind::NotFound));
    assert_eq!(privilege_hint(&missing), None);
}

#[test]
fn a_hint_goes_in_front_of_the_chain() {
    let denied: Result<(), Error> = Err(Error::from(ErrorKind::PermissionDenied));
    let err = diagnose(denied.context("loading").unwrap_err());
    let chain: Vec<String> = err.chain().map(|cause| cause.to_string()).collect();
    assert_eq!(chain.len(), 3);
    assert_eq!(chain[0], PRIVILEGE_HINT);
    assert_eq!(chain[1], "loading");

    let err = diagnose(anyhow::Error::msg("COMM_MAP not found").context("setup"));
    let chain: Vec<String> = err.chain().map(|cause| cause.to_string()).collect();
    assert_eq!(chain, vec!["setup", "COMM_MAP not found"]);
}

/// An error that cannot say what it is.
#[derive(Debug)]
struct Mute;

impl std::fmt::Display for Mute {
    fn fmt(&self, _: &mut std::fmt::Formatter<'_>) -> std::fmt::Result {
        panic!("nobody asked for a message");
    }
}

impl std::error::Error for Mute {}

#[test]
fn the_hint_asks_no_link_for_its_message() {
    assert_eq!(privilege_hint(&anyhow::Error::new(Mute)), None);
    let denied = anyhow::Error::new(Error::new(ErrorKind::PermissionDenied, Mute)).context("load");
    assert_eq!(privilege_hint(&denied), Some(PRIVILEGE_HINT));
}

#[test]
fn the_hint_is_decided_by_the_kinds_alone() {
    assert_eq!(hint_for(&vec![]), None);
    assert_eq!(hint_for(&vec![None, Some(IoKind::Other), None]), None);
    let denied = Some(IoKind::PermissionDenied);
    assert_eq!(hint_for(&vec![None, Some(IoKind::Other), denied]), Some(PRIVILEGE_HINT));
}

#[test]
fn more_context_changes_no_diagnosis() {
    let denied = || anyhow::Error::new(Error::from(ErrorKind::PermissionDenied));
    assert_eq!(privilege_hint(&denied().context("a").context("b")), Some(PRIVILEGE_HINT));
    assert_eq!(privilege_hint(&diagnose(denied())), Some(PRIVILEGE_HINT));
    assert_eq!(privilege_hint(&anyhow::Error::msg("x").context(PRIVILEGE_HINT)), None);
}

// ── setup ────────────────────────────────────────────────────────────────────

fn run_setup(fails: Option<Step>) -> (Vec<Step>, Option<Verdict>) {
    let mut setup = Setup::new();
    let mut steps = Vec::new();
    let mut last = None;
    while let Some(step) = setup.next() {
        steps.push(step);
        let outcome = if Some(step) == fails {
            Outcome::Missing
        } else {
            Outcome::Done
        };
        let verdict = setup.report(outcome);
        if verdict != Verdict::Proceed {
            last = Some(verdict);
        }
        if verdict == Verdict::Abort {
            break;
        }
    }
    (steps, last)
}

#[test]
fn the_setup_attaches_then_takes_the_maps() {
    let (steps, last) = run_setup(None);
    assert_eq!(steps.len(), 12);
    assert_eq!(steps[0], Step::Attach(Hook::SchedSwitch));
    assert_eq!(steps[4], Step::AttachCreds);
    assert_eq!(steps[5], Step::Take(MapName::CpuNs));
    assert_eq!(steps[11], Step::Capacity);
    assert_eq!(last, None);
}

#[test]
fn only_the_credential_hook_may_fail() {
    let (steps, last) = run_setup(Some(Step::AttachCreds));
    assert_eq!(steps.len(), 12);
    assert_eq!(last, Some(Verdict::Warn));
    let (steps, last) = run_setup(Some(Step::Take(MapName::Exits)));
    assert_eq!(steps.len(), 9);
    assert_eq!(last, Some(Verdict::Abort));
    let (steps, last) = run_setup(Some(Step::Attach(Hook::SchedSwitch)));
    assert_eq!(steps.len(), 1);
    assert_eq!(last, Some(Verdict::Abort));
}

#[test]
fn a_failed_step_says_what_it_was() {
    let said = |step, outcome| failure_context(step, outcome).expect("a context");
    assert_eq!(
        said(Step::Attach(Hook::SchedProcessExit), Outcome::Missing),
        "program `sched_process_exit` not found in object"
    );
    assert_eq!(
        said(Step::Attach(Hook::SchedProcessFork), Outcome::LoadFailed),
        "loading `sched_process_fork`"
    );
    assert_eq!(
        said(Step::Attach(Hook::SchedProcessExec), Outcome::AttachFailed),
        "attaching `sched_process_exec`"
    );
    assert_eq!(
        said(Step::AttachCreds, Outcome::Missing),
        "program `commit_creds` not found in object"
    );
    assert_eq!(said(Step::AttachCreds, Outcome::NoBtf), "reading kernel BTF");
    assert_eq!(said(Step::AttachCreds, Outcome::LoadFailed), "loading");
    assert_eq!(said(Step::AttachCreds, Outcome::AttachFailed), "attaching");
    assert_eq!(
        said(Step::Take(MapName::CommMap), Outcome::Missing),
        "COMM_MAP not found"
    );
    assert_eq!(
        said(Step::Take(MapName::Exits), Outcome::Missing),
        "EXITS map not found"
    );
    assert_eq!(
        said(Step::Take(MapName::CpuNs), Outcome::WrongKind),
        "CPU_NS is not a per-CPU hash map"
    );
    assert_eq!(
        said(Step::Take(MapName::IowaitNs), Outcome::WrongKind),
        "IOWAIT_NS is not a per-CPU hash map"
    );
    // Here the cause says it all.
    assert_eq!(
        failure_context(Step::Attach(Hook::SchedSwitch), Outcome::WrongKind),
        None
    );
    assert_eq!(
        failure_context(Step::Take(MapName::Exits), Outcome::WrongKind),
        None
    );
    assert_eq!(failure_context(Step::Capacity, Outcome::Unknown), None);
    assert_eq!(
        creds_warning("loading: permission denied"),
        "credential changes will go unnoticed: loading: permission denied"
    );
    assert_eq!(take_percpu_map(None), Outcome::Missing);
    assert_eq!(take_percpu_map(Some(MapKind::Other)), Outcome::WrongKind);
    assert_eq!(take_percpu_map(Some(MapKind::PerCpuHash)), Outcome::Done);
    assert_eq!(take_percpu_map(Some(MapKind::LruPerCpuHash)), Outcome::Done);
}

// ── cli ──────────────────────────────────────────────────────────────────────

fn parse_args(args: &[&str]) -> Result<Args, CliError> {
    parse(&args.iter().map(|arg| (*arg).to_owned()).collect())
}

#[test]
fn no_arguments_render_the_ui_and_leave_the_size_to_the_machine() {
    let args = parse_args(&[]).unwrap();
    assert!(matches!(args.command, Command::Ui));
    assert_eq!(args.max_processes, None);
}

#[test]
fn bench_takes_a_tick_count() {
    assert!(matches!(
        parse_args(&["--bench", "5"]).unwrap().command,
        Command::Bench(5)
    ));
}

#[test]
fn max_processes_applies_to_whichever_mode_runs() {
    let args = parse_args(&["--max-processes", "1024", "--bench", "5"]).unwrap();
    assert!(matches!(args.command, Command::Bench(5)));
    assert_eq!(args.max_processes, Some(1024));
}

#[test]
fn help_and_version_answer_without_attaching() {
    assert!(matches!(
        parse_args(&["--help"]).unwrap().command,
        Command::Print(_)
    ));
    assert!(matches!(
        parse_args(&["-V"]).unwrap().command,
        Command::Print(_)
    ));
}

#[test]
fn the_background_is_named_or_left_to_the_terminal() {
    assert_eq!(parse_args(&[]).unwrap().background, None);
    assert_eq!(
        parse_args(&["--background", "auto"]).unwrap().background,
        None
    );
    assert_eq!(
        parse_args(&["--background", "light"]).unwrap().background,
        Some(Background::Light)
    );
    assert!(parse_args(&["--background", "sepia"]).is_err());
    assert!(parse_args(&["--background"]).is_err());
}

#[test]
fn malformed_arguments_are_rejected() {
    assert!(parse_args(&["--nope"]).is_err());
    assert!(parse_args(&["--bench"]).is_err());
    assert!(parse_args(&["--bench", "many"]).is_err());
    assert!(parse_args(&["--max-processes"]).is_err());
    assert!(parse_args(&["--max-processes", "0"]).is_err());
}

#[test]
fn each_rejection_says_why() {
    let why = |args: &[&str]| {
        let err = parse_args(args).unwrap_err();
        (err.problem, err.message())
    };
    assert_eq!(
        why(&["--bench"]),
        (
            Problem::BenchNeedsTicks,
            "--bench needs a tick count".to_owned()
        )
    );
    assert_eq!(
        why(&["--bench", "many"]),
        (
            Problem::NotTicks,
            "--bench: `many` is not a tick count".to_owned()
        )
    );
    assert_eq!(
        why(&["--background"]),
        (
            Problem::BackgroundNeedsName,
            "--background needs a name".to_owned()
        )
    );
    assert_eq!(
        why(&["--background", "sepia"]),
        (
            Problem::NotBackground,
            "--background: `sepia` is not auto, dark or light".to_owned()
        )
    );
    assert_eq!(
        why(&["--max-processes"]),
        (
            Problem::MaxNeedsCount,
            "--max-processes needs a count".to_owned()
        )
    );
    assert_eq!(
        why(&["--max-processes", "0"]),
        (
            Problem::NotCount,
            "--max-processes: `0` is not a count".to_owned()
        )
    );
    assert_eq!(
        why(&["--nope"]),
        (
            Problem::Unknown,
            format!("unknown argument `--nope`\n\n{USAGE}")
        )
    );
}

#[test]
fn a_tick_count_that_is_none_says_why_underneath() {
    let mut values: Vec<String> = ["", "+", "-", "many", "-5", "++5", "+-5", "5 ", " 5", "5x", "é",
        "4294967296", "4294967295x", "4294967296x", "42949672950x", "99999999999999999999999",
        "+4294967296", "00000000000000000000x", "000000000004294967296", "1e3", "0x10", "5é"]
        .iter()
        .map(|value| value.to_string())
        .collect();
    let mut n: u64 = 9;
    for i in 0..3000u64 {
        n = n.wrapping_mul(6364136223846793005).wrapping_add(1442695040888963407);
        let mut value = format!("{}", n >> (i % 40));
        let at = (n % 13) as usize;
        if i % 3 == 0 && at <= value.len() {
            value.insert(at, ['x', '+', '-', 'é'][(i % 4) as usize]);
        }
        values.push(value);
    }
    for value in &values {
        match (parse_args(&["--bench", value]), value.parse::<u32>()) {
            (Ok(args), Ok(ticks)) => assert!(matches!(args.command, Command::Bench(t) if t == ticks)),
            (Err(err), Err(cause)) => {
                assert_eq!(err.message(), format!("--bench: `{value}` is not a tick count"));
                assert_eq!(err.cause().map(str::to_owned), Some(cause.to_string()), "{value}");
            }
            (got, expected) => panic!("{value}: {got:?}, {expected:?}"),
        }
    }
    // Nothing lies underneath the others.
    for args in [&["--bench"][..], &["--max-processes", "x"], &["--background", "x"], &["--x"]] {
        assert_eq!(parse_args(args).unwrap_err().cause(), None);
    }
}

#[test]
fn a_negative_count_says_why_underneath() {
    let err = CpuCounts::detect(Some(4), -1).unwrap_err();
    assert_eq!(err.message(), "reading the online CPU count");
    let cause = usize::try_from(-1i64).unwrap_err();
    assert_eq!(err.cause().map(str::to_owned), Some(cause.to_string()));
    assert_eq!(CpuCounts::detect(None, 4).unwrap_err().cause(), None);
    assert_eq!(CpuCounts::detect(Some(4), 5).unwrap_err().cause(), None);
}

#[test]
fn help_answers_whatever_follows_and_a_later_choice_overrides() {
    let printed = |args: &[&str]| match parse_args(args).unwrap().command {
        Command::Print(text) => text,
        other => panic!("{other:?}"),
    };
    assert_eq!(printed(&["--help", "--nope"]), USAGE);
    assert_eq!(printed(&["--bench", "3", "-V"]), VERSION);
    assert!(USAGE.starts_with("usage: truetop [--background <NAME>]"));
    assert!(USAGE.ends_with("print the version"));
    let args = parse_args(&["--background", "dark", "--background", "auto", "--bench", "+7"]);
    let args = args.unwrap();
    assert_eq!(args.background, None);
    assert!(matches!(args.command, Command::Bench(7)));
    assert!(parse_args(&["--bench", "4294967296"]).is_err());
}

// ── the terminal's background ────────────────────────────────────────────────

#[test]
fn a_named_background_is_taken_at_its_word() {
    assert_eq!(resolve(Some(Background::Light)), Background::Light);
    assert_eq!(resolve(Some(Background::Dark)), Background::Dark);
}

/// Under tmux and over some ssh setups the query goes unanswered, so startup
/// must not wait on a reply that is not coming.
#[test]
fn asking_a_terminal_that_will_not_answer_still_returns() {
    let started = Instant::now();
    let _ = resolve(None);
    assert!(started.elapsed() < Duration::from_secs(2));
}

#[test]
fn an_unanswered_query_means_dark() {
    assert_eq!(resolve_with(None, None), Background::Dark);
    assert_eq!(resolve_with(None, Some(Background::Light)), Background::Light);
    assert_eq!(
        resolve_with(Some(Background::Dark), Some(Background::Light)),
        Background::Dark
    );
}

// ── system ───────────────────────────────────────────────────────────────────

const MEMINFO: &str = "MemTotal:       32768 kB\nMemFree:        1 kB\nMemAvailable:   8192 kB\n";

#[test]
fn the_host_reports_its_installed_memory() {
    let cpus = CpuCounts::detect(Some(16), 8).expect("CPU topology");
    let machine = Machine::detect(
        cpus,
        &Some("testhost\n".to_owned()),
        &Some("processor\t: 0\nmodel name\t: Test CPU: fast\n".to_owned()),
        &Some(MEMINFO.to_owned()),
    );
    assert!(machine.memory_total_bytes > 0);
    assert_eq!(machine.memory_total_bytes, 32 << 20);
    assert_eq!(machine.hostname, "testhost");
    assert_eq!(machine.cpu_model, "Test CPU: fast");
    assert_eq!(machine.cores, 8);
}

#[test]
fn a_host_that_tells_nothing_gets_placeholders() {
    let cpus = CpuCounts {
        possible: 1,
        online: 1,
    };
    let machine = Machine::detect(cpus, &None, &Some("no model".to_owned()), &None);
    assert_eq!(machine.hostname, "localhost");
    assert_eq!(machine.cpu_model, "unknown cpu");
    assert_eq!(machine.memory_total_bytes, 0);
    assert_eq!(first_line(&Some(String::new())), None);
    assert_eq!(first_line(&Some("\nx".to_owned())).as_deref(), Some(""));
    assert_eq!(cpu_model(&Some("model name without a colon".to_owned())), None);
}

#[test]
fn an_implausible_topology_is_an_error() {
    assert_eq!(
        CpuCounts::detect(Some(8), 8),
        Ok(CpuCounts {
            possible: 8,
            online: 8
        })
    );
    assert_eq!(CpuCounts::detect(None, 8), Err(TopologyError::Possible));
    assert_eq!(CpuCounts::detect(Some(8), -1), Err(TopologyError::Online));
    let err = CpuCounts::detect(Some(8), 9).unwrap_err();
    assert_eq!(
        err.message(),
        "implausible CPU topology: 9 online, 8 possible"
    );
    assert!(CpuCounts::detect(Some(8), 0).is_err());
    assert_eq!(
        TopologyError::Possible.message(),
        "reading the possible CPU count"
    );
    assert_eq!(
        TopologyError::Online.message(),
        "reading the online CPU count"
    );
}

#[test]
fn memory_in_use_is_total_minus_available() {
    let meminfo = Some(MEMINFO.to_owned());
    assert!(meminfo_fits(&meminfo));
    assert_eq!(memory_total_bytes(&meminfo), 32 << 20);
    assert_eq!(memory_used_bytes(32 << 20, &meminfo), 24 << 20);
    assert_eq!(memory_used_bytes(1 << 20, &meminfo), 0);
    assert_eq!(memory_used_bytes(32 << 20, &None), 0);
    assert_eq!(memory_total_bytes(&None), 0);
    assert_eq!(meminfo_field(&meminfo, "MemFree:"), Some(1024));
    assert_eq!(meminfo_field(&meminfo, "Swap:"), None);
    assert!(!meminfo_fits(&Some("MemTotal: 18446744073709551615 kB".to_owned())));
}

#[test]
fn the_load_average_is_the_first_word() {
    assert_eq!(
        load_average(&Some("0.52 0.58 0.59 1/1034 12345\n".to_owned())).as_deref(),
        Some("0.52")
    );
    assert_eq!(load_average(&Some("\n".to_owned())), None);
    assert_eq!(load_average(&None), None);
}
