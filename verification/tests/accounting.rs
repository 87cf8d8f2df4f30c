//! Counters, deltas and the collector.

use std::collections::{HashMap, HashSet, VecDeque};

use truetop::backend::{
    push_capped, select_candidates, top_pids, headless_line, Collector, Lookup, SystemState,
    HISTORY, MAX_ROWS,
};
use truetop::batch::{can_fold, fold, next_batch, BatchReader, Reply, BATCH, ENOENT};
use truetop::common::Identity;
use truetop::counters::entries;
use truetop::double::Double;
use truetop::cpu_maps::{add_inflight, can_add, monotonic_ns, Running};
use truetop::metrics::identity::{
    backfill_proc_names, decode_comm, load_passwd, proc_entry_pid, proc_uid, ProcEntry,
};
use truetop::metrics::mem::parse_statm_pages;
use truetop::metrics::{
    CpuCollector, Deltas, IoWaitCollector, MemMetrics, MemReader, Resolver, Snapshot,
};
use truetop::percent::Percent;
use truetop::reaper::{Reaper, BUDGET};
use truetop::system::CpuCounts;

const SECOND: u64 = 1_000_000_000;

fn deltas(pairs: &[(u32, u64)]) -> Deltas {
    Deltas {
        whole: 100,
        parts: pairs.iter().copied().collect(),
    }
}

fn snapshot(at: u64, pairs: &[(u32, u64)]) -> Snapshot {
    Snapshot {
        at: Some(at),
        by_pid: pairs.iter().copied().collect(),
    }
}

// ── backend ──────────────────────────────────────────────────────────────────

#[test]
fn top_pids_selects_by_value_not_by_order() {
    let cpu = deltas(&[(1, 1), (2, 5), (3, 3), (4, 4), (5, 2)]);
    let top: HashSet<u32> = top_pids(&cpu, 3).into_iter().collect();
    assert_eq!(top, HashSet::from([2, 4, 3]));
}

#[test]
fn candidates_union_top_cpu_and_top_io() {
    let cpu = deltas(&[(1, 90), (2, 10), (3, 1)]);
    // pid 4 has high I/O but no CPU rank: it must still make the cut.
    let io = deltas(&[(3, 80), (4, 70), (5, 1)]);
    let got: HashSet<u32> = select_candidates(&cpu, &io, 2).into_iter().collect();
    assert_eq!(got, HashSet::from([1, 2, 3, 4]));
}

#[test]
fn a_pid_on_top_of_both_metrics_is_selected_once() {
    let cpu = deltas(&[(1, 90), (2, 10)]);
    let io = deltas(&[(1, 80), (2, 70)]);
    let got = select_candidates(&cpu, &io, 2);
    assert_eq!(got.len(), 2);
    assert!(select_candidates(&cpu, &io, 0).is_empty());
}

#[test]
fn the_selection_stops_at_two_metrics_worth_of_rows() {
    let cpu = deltas(&(0..2000).map(|pid| (pid, pid as u64)).collect::<Vec<_>>());
    let io = deltas(&(0..2000).map(|pid| (pid, 5000 - pid as u64)).collect::<Vec<_>>());
    let got = select_candidates(&cpu, &io, MAX_ROWS);
    assert_eq!(got.len(), 2 * MAX_ROWS);
    let got: HashSet<u32> = got.into_iter().collect();
    for pid in 0..MAX_ROWS as u32 {
        assert!(got.contains(&pid));
        assert!(got.contains(&(1999 - pid)));
    }
}

#[test]
fn a_history_drops_its_oldest_sample_once_full() {
    let mut history: VecDeque<Percent> = VecDeque::new();
    for i in 0..HISTORY as u64 + 5 {
        push_capped(&mut history, Percent::new(i, 100));
    }
    assert_eq!(history.len(), HISTORY);
    assert_eq!(history[0], Percent::new(5, 100));
    assert_eq!(history[HISTORY - 1], Percent::new(HISTORY as u64 + 4, 100));
}

#[test]
fn a_headless_run_reports_each_tick() {
    assert_eq!(headless_line(3, 10, 412), "tick 3/10: 412 processes");
}

fn collector(capacity: u32) -> Collector {
    let proc = vec![ProcEntry {
        file_name: "7".to_owned(),
        comm: Some("old\n".to_owned()),
        status: Some("Name:\told\nUid:\t1000\t1000\t1000\t1000\n".to_owned()),
    }];
    let passwd = Some("root:x:0:0:root:/root:/bin/sh\nramos:x:1000:1000::/home:/bin/sh\n".to_owned());
    Collector::new(
        Resolver::new(&proc, &passwd),
        MemReader::new(4096),
        CpuCounts {
            possible: 8,
            online: 4,
        },
        capacity,
        16 << 30,
    )
}

fn named(name: &[u8], uid: u32) -> Option<Identity> {
    let mut comm = [0u8; 16];
    comm[..name.len()].copy_from_slice(name);
    Some(Identity { comm, uid })
}

fn tick(collector: &mut Collector, at: u64, cpu: &[(u32, u64)], io: &[(u32, u64)]) -> SystemState {
    let measured = collector.measure(snapshot(at, cpu), snapshot(at, io));
    let lookups = measured
        .candidates
        .iter()
        .map(|&pid| Lookup {
            live: if pid == 9 { named(b"fio", 0) } else { None },
            statm: if pid == 9 {
                Some("100 25 3".to_owned())
            } else {
                None
            },
        })
        .collect();
    let meminfo = Some("MemTotal: 16777216 kB\nMemAvailable: 12582912 kB\n".to_owned());
    collector.tick(&measured, &lookups, &meminfo, "0.52".to_owned())
}

#[test]
fn a_tick_publishes_rows_totals_and_memory() {
    let mut c = collector(3);
    let first = tick(&mut c, SECOND, &[(7, 0), (9, 0)], &[(9, 0)]);
    assert_eq!(first.cpu_history.len(), HISTORY);
    assert_eq!(first.total_cpu_percent, Percent::zero());
    assert!(first.processes.iter().all(|p| p.io.is_none()));
    // Two processes at nothing add up to nothing; no waits at all, to the zero that
    // adding up starts from.
    assert_eq!(first.total_cpu_percent.text(), "0.0");
    assert_eq!(first.total_io_percent, Percent::zero());
    assert_eq!(first.total_io_percent.text(), "-0.0");
    assert_eq!(first.io_history[0].text(), "0.0");
    assert_eq!(first.io_history[HISTORY - 1].text(), "-0.0");

    let state = tick(
        &mut c,
        2 * SECOND,
        &[(7, SECOND), (9, SECOND / 2), (11, SECOND)],
        &[(9, SECOND / 4)],
    );
    assert_eq!(state.accounted, 3);
    assert!(state.at_capacity);
    assert_eq!(state.memory_used_bytes, 4 << 30);
    assert_eq!(state.memory_total_bytes, 16 << 30);
    assert_eq!(state.load_average, "0.52");
    // One and a half core-seconds over four cores.
    assert_eq!(state.total_cpu_percent, Percent::nearest_to(75, 2));
    assert_eq!(state.total_io_percent, Percent::nearest_to(25, 1));
    assert_eq!(state.cpu_history.len(), HISTORY);
    assert_eq!(state.cpu_history[HISTORY - 1], Percent::nearest_to(75, 2));

    let row = |pid: u32| state.processes.iter().find(|p| p.pid == pid).expect("a row");
    assert_eq!(row(7).name, "old");
    assert_eq!(row(7).user.as_deref(), Some("ramos"));
    assert_eq!(row(7).cpu.cpu_percent, Percent::nearest_to(100, 1));
    assert_eq!(row(7).mem, None);
    assert_eq!(row(7).io, None);
    assert_eq!(row(9).name, "fio");
    assert_eq!(row(9).user.as_deref(), Some("root"));
    assert_eq!(row(9).mem, Some(MemMetrics { rss_bytes: 25 * 4096 }));
    assert_eq!(row(9).io.expect("a wait").io_wait_percent, Percent::nearest_to(25, 1));
    // First seen this tick: listed, at nothing.
    assert_eq!(row(11).name, "<unknown>");
    assert_eq!(row(11).user, None);
    assert_eq!(row(11).cpu.cpu_percent, Percent::zero());
}

#[test]
fn below_capacity_nothing_is_said() {
    let mut c = collector(4);
    assert!(!tick(&mut c, SECOND, &[(1, 0), (2, 0), (3, 0)], &[]).at_capacity);
}

/// The exit leaves the counter standing for one more read; once it is reaped the
/// next read no longer has it.
#[test]
fn a_process_that_ends_is_charged_then_gone() {
    let mut c = collector(100);
    tick(&mut c, SECOND, &[(7, 0)], &[]);
    let after_exit = tick(&mut c, 2 * SECOND, &[(7, SECOND / 2)], &[]);
    assert_eq!(after_exit.processes[0].pid, 7);
    assert_eq!(after_exit.processes[0].cpu.cpu_percent, Percent::nearest_to(50, 1));
    assert_eq!(after_exit.processes[0].name, "old");

    let mut reaper = Reaper::new();
    assert_eq!(reaper.reap(&7u32.to_ne_bytes(), &mut c.names), Some(7));
    let next = tick(&mut c, 3 * SECOND, &[], &[]);
    assert!(next.processes.is_empty());
    assert_eq!(c.names.resolve(7, &None), "<unknown>");
}

// ── reaper ───────────────────────────────────────────────────────────────────

#[test]
fn the_reaper_stops_at_its_budget() {
    let mut names = Resolver::new(&vec![], &None);
    let mut reaper = Reaper::new();
    let mut taken = 0;
    while reaper.wants_more() {
        assert_eq!(reaper.reap(&taken_bytes(taken), &mut names), Some(taken));
        taken += 1;
    }
    assert_eq!(taken as usize, BUDGET);
}

fn taken_bytes(n: u32) -> [u8; 4] {
    n.to_ne_bytes()
}

#[test]
fn a_short_record_names_nobody() {
    let mut names = Resolver::new(&vec![], &None);
    let mut reaper = Reaper::new();
    assert_eq!(reaper.reap(&[1, 2, 3], &mut names), None);
    assert_eq!(reaper.reap(&[], &mut names), None);
}

// ── batch ────────────────────────────────────────────────────────────────────

#[test]
fn fold_sums_each_key_across_cpus() {
    let mut totals = HashMap::new();
    fold(&[10, 20], &[1, 2, 3, 4, 5, 6], 2, 3, &mut totals);
    assert_eq!(totals, HashMap::from([(10, 6), (20, 15)]));
}

#[test]
fn fold_handles_a_single_cpu() {
    let mut totals = HashMap::new();
    fold(&[7], &[42], 1, 1, &mut totals);
    assert_eq!(totals, HashMap::from([(7, 42)]));
}

#[test]
fn fold_ignores_entries_past_count() {
    // Scratch buffers outlive a batch; slots beyond `count` are stale.
    let mut totals = HashMap::new();
    fold(&[1, 2, 99], &[10, 20, 7777], 2, 1, &mut totals);
    assert_eq!(totals, HashMap::from([(1, 10), (2, 20)]));
}

#[test]
fn fold_of_an_empty_batch_is_empty() {
    let mut totals = HashMap::new();
    fold(&[0; 4], &[0; 4], 0, 1, &mut totals);
    assert!(totals.is_empty());
}

#[test]
fn what_cannot_be_folded_is_told_beforehand() {
    assert!(can_fold(&[1, 2, 3, 4], 2, 2));
    assert!(!can_fold(&[1, 2, 3, 4], 3, 2));
    assert!(!can_fold(&[u64::MAX, 1], 1, 2));
    assert!(!can_fold(&[0], usize::MAX, 2));
}

#[test]
fn a_short_batch_is_not_the_end_but_enoent_is() {
    let ok = |count| Reply { ret: 0, errno: None, count };
    let tail = |count| Reply { ret: -1, errno: Some(ENOENT), count };
    assert_eq!(next_batch(ok(17)), Some((17, false)));
    assert_eq!(next_batch(tail(3)), Some((3, true)));
    assert_eq!(next_batch(Reply { ret: -1, errno: Some(14), count: 9 }), None);
    assert_eq!(next_batch(Reply { ret: -1, errno: None, count: 9 }), None);

    let mut reader = BatchReader::new(2);
    assert_eq!(reader.keys.len(), BATCH);
    assert_eq!(reader.values.len(), BATCH * 2);
    let mut totals = HashMap::new();
    reader.keys[0] = 4242;
    reader.values[0] = 1;
    reader.values[1] = 2;
    assert!(reader.can_read(ok(1)));
    assert!(reader.sum_per_cpu(ok(1), &mut totals));
    reader.keys[0] = 4243;
    assert!(!reader.sum_per_cpu(tail(1), &mut totals));
    assert_eq!(totals, HashMap::from([(4242, 3), (4243, 3)]));
    // Nothing written and not the tail: going on would spin.
    assert!(!reader.sum_per_cpu(ok(0), &mut totals));
    // A failed call leaves the totals alone.
    assert!(!reader.sum_per_cpu(Reply { ret: -1, errno: Some(14), count: 1 }, &mut totals));
    assert_eq!(totals.len(), 2);
    assert!(!reader.can_read(ok(BATCH as u32 + 1)));
}

// ── cpu maps ─────────────────────────────────────────────────────────────────

#[test]
fn a_running_thread_is_billed_its_slice_so_far() {
    let mut by_pid = HashMap::from([(1, 100)]);
    let running = Some(Running {
        tgids: vec![1, 2, 0, 3, 1],
        starts: vec![900, 950, 500, 0, 990],
    });
    assert!(can_add(&by_pid, running.as_ref().unwrap(), 1000));
    add_inflight(&mut by_pid, &running, 1000);
    // Idle (0) and unstamped CPUs bill nobody; two CPUs run process 1.
    assert_eq!(by_pid, HashMap::from([(1, 210), (2, 50)]));
}

#[test]
fn unreadable_slots_leave_the_counters_as_they_are() {
    let mut by_pid = HashMap::from([(1, 100)]);
    add_inflight(&mut by_pid, &None, 1000);
    assert_eq!(by_pid, HashMap::from([(1, 100)]));
    // A stamp in the future is no slice.
    let ahead = Some(Running {
        tgids: vec![1],
        starts: vec![2000],
    });
    add_inflight(&mut by_pid, &ahead, 1000);
    assert_eq!(by_pid, HashMap::from([(1, 100)]));
}

#[test]
fn a_counter_that_would_overflow_is_told_beforehand() {
    let by_pid = HashMap::from([(1, u64::MAX - 5)]);
    let running = Running {
        tgids: vec![1],
        starts: vec![1],
    };
    assert!(can_add(&by_pid, &running, 6));
    assert!(!can_add(&by_pid, &running, 7));
}

#[test]
fn a_clock_reading_counts_nanoseconds() {
    assert_eq!(monotonic_ns(3, 7), 3_000_000_007);
}

// ── counters ─────────────────────────────────────────────────────────────────

#[test]
fn a_map_lists_every_entry_once() {
    let m = HashMap::from([(3, 30), (1, 10), (2, 20)]);
    let mut all = entries(&m);
    all.sort();
    assert_eq!(all, vec![(1, 10), (2, 20), (3, 30)]);
}

// ── sums ─────────────────────────────────────────────────────────────────────

fn float(number: Double) -> f64 {
    number.mant as f64 * 2f64.powi(number.exp)
}

/// The totals are summed one share after the other, rounding at each.
#[test]
fn sums_agree_with_floating_point() {
    let mut n: u64 = 3;
    for round in 0..200u64 {
        let mut counts = Vec::new();
        for pid in 0..(round % 40) as u32 {
            n = n.wrapping_mul(6364136223846793005).wrapping_add(1442695040888963407);
            counts.push((pid, n >> (n % 61)));
        }
        for whole in [1, 999_999_999, 1_000_000_007, 1_234_567_891_011, u64::MAX] {
            let sum: f64 = counts.iter().map(|&(_, n)| n as f64 / whole as f64 * 100.0).sum();
            let got = Percent::sum(&counts, whole);
            assert_eq!(float(got.double()), sum);
            assert_eq!(got.is_minus(), sum.is_sign_negative());
            assert_eq!(got.text(), format!("{sum:.1}"));
            for cores in [1, 3, 12, 96, 4096] {
                let got = Percent::average(&counts, whole, cores);
                assert_eq!(float(got.double()), sum / cores as f64);
                assert_eq!(got.text(), format!("{:.1}", sum / cores as f64));
            }
        }
    }
    assert_eq!(Percent::sum(&vec![], SECOND), Percent::zero());
    assert_eq!(Percent::sum(&vec![], SECOND).text(), "-0.0");
    assert_eq!(Percent::average(&vec![], SECOND, 4).text(), "-0.0");
    assert_eq!(Percent::sum(&vec![(1, 0)], SECOND).text(), "0.0");
    let full = vec![(0, u64::MAX); 1000];
    assert_eq!(Percent::sum(&full, 1).text(), format!("{:.1}", 1000.0 * u64::MAX as f64 * 100.0));
}

#[test]
fn a_larger_counter_never_reads_as_the_smaller_share() {
    let mut n: u64 = 11;
    for _ in 0..2000 {
        n = n.wrapping_mul(6364136223846793005).wrapping_add(1442695040888963407);
        let (a, whole) = (n >> (n % 60), (n >> 7) | 1);
        let b = a.saturating_add(n % 1000);
        assert!(!Percent::new(b, whole).less(&Percent::new(a, whole)));
    }
}

#[test]
fn the_whole_interval_reads_a_hundred() {
    for whole in [1, 3, 7, 999_999_937, SECOND, u64::MAX - 1, u64::MAX] {
        assert_eq!(Percent::new(whole, whole), Percent::nearest_to(100, 1));
        assert_eq!(Percent::new(whole, whole).text(), "100.0");
    }
}

// ── cpu ──────────────────────────────────────────────────────────────────────

fn cpu_collector(prev: &[(u32, u64)], base: u64) -> CpuCollector {
    let mut c = CpuCollector::new();
    c.prev = snapshot(base, prev);
    c
}

#[test]
fn zero_without_baseline() {
    let mut c = CpuCollector::new();
    let out = c.deltas(snapshot(5 + SECOND, &[(1, 1_000_000_000)]));
    assert_eq!(out.get(1), Some(Percent::zero()));
}

// One core-second of on-CPU time over a one-second interval is 100%.
#[test]
fn full_core_reads_100() {
    let mut c = cpu_collector(&[(1, 0)], 5);
    let out = c.deltas(snapshot(5 + SECOND, &[(1, 1_000_000_000)]));
    assert_eq!(out.get(1), Some(Percent::nearest_to(100, 1)));
    assert_eq!(out.get(1).unwrap().text(), "100.0");
}

// Top's convention: eight thread-seconds in one second read ~800%, unclamped.
#[test]
fn multithread_exceeds_100() {
    let mut c = cpu_collector(&[(1, 0)], 5);
    let out = c.deltas(snapshot(5 + SECOND, &[(1, 8_000_000_000)]));
    assert_eq!(out.get(1), Some(Percent::nearest_to(800, 1)));
    assert_eq!(out.get(1).unwrap().text(), "800.0");
}

/// Eviction and pid reuse both land here: the counter is smaller than the
/// baseline, so the interval reads zero rather than a negative rate.
#[test]
fn cpu_saturates_on_counter_reset() {
    let mut c = cpu_collector(&[(1, 1_000_000_000)], 5);
    let out = c.deltas(snapshot(5 + SECOND, &[(1, 0)]));
    assert_eq!(out.get(1), Some(Percent::zero()));
    // And then it reports normally.
    let out = c.deltas(snapshot(5 + 2 * SECOND, &[(1, SECOND / 2)]));
    assert_eq!(out.get(1), Some(Percent::nearest_to(50, 1)));
}

#[test]
fn intervals_add_up_to_what_the_counter_grew_by() {
    let mut c = cpu_collector(&[(1, 10)], 5);
    let mut charged = 0;
    for (at, total) in [(6, 15), (9, 15), (20, 70)] {
        let out = c.deltas(snapshot(at, &[(1, total)]));
        charged += out.parts[&1];
    }
    assert_eq!(charged, 60);
}

#[test]
fn no_time_passed_reads_zero() {
    let mut c = cpu_collector(&[(1, 0)], 5);
    let out = c.deltas(snapshot(5, &[(1, 100)]));
    assert_eq!(out.get(1), Some(Percent::zero()));
    assert_eq!(out.get(2), None);
}

// ── iowait ───────────────────────────────────────────────────────────────────

fn io_collector(prev: &[(u32, u64)], base: u64) -> IoWaitCollector {
    let mut c = IoWaitCollector::new();
    c.prev = snapshot(base, prev);
    c
}

#[test]
fn percent_from_counter_delta() {
    let mut c = io_collector(&[(1, 0)], 5);
    let out = c.deltas(snapshot(5 + SECOND, &[(1, 100_000_000)]));
    assert_eq!(out.get(1), Some(Percent::nearest_to(10, 1)));
}

// Two threads blocked for the whole interval sum to 200%.
#[test]
fn concurrent_thread_waits_exceed_100() {
    let mut c = io_collector(&[(1, 0)], 5);
    let out = c.deltas(snapshot(5 + SECOND, &[(1, 2_000_000_000)]));
    assert_eq!(out.get(1), Some(Percent::nearest_to(200, 1)));
}

#[test]
fn absent_without_baseline() {
    let mut c = IoWaitCollector::new();
    let out = c.deltas(snapshot(5 + SECOND, &[(1, 1_000_000)]));
    assert!(!out.parts.contains_key(&1));
}

#[test]
fn iowait_saturates_on_counter_reset() {
    let mut c = io_collector(&[(1, 1_000_000_000)], 5);
    let out = c.deltas(snapshot(5 + SECOND, &[(1, 0)]));
    assert_eq!(out.get(1), Some(Percent::zero()));
}

// ── mem ──────────────────────────────────────────────────────────────────────

#[test]
fn parse_statm_reads_resident_pages() {
    assert_eq!(parse_statm_pages("4096 512 64 1 0 128 0"), Some(512));
    assert_eq!(parse_statm_pages("  4096   512  "), Some(512));
}

/// What `/proc/<pid>/statm` holds for a zombie, verified against a real one.
#[test]
fn parse_statm_reads_a_zombie_as_zero() {
    assert_eq!(parse_statm_pages("0 0 0 0 0 0 0"), Some(0));
}

#[test]
fn parse_statm_rejects_malformed() {
    assert_eq!(parse_statm_pages(""), None);
    assert_eq!(parse_statm_pages("4096"), None);
    assert_eq!(parse_statm_pages("4096 notanumber"), None);
}

#[test]
fn resident_pages_scale_by_the_page_size() {
    let reader = MemReader::new(16384);
    let statm = Some("9 3 1".to_owned());
    assert!(reader.countable(&statm));
    assert_eq!(reader.for_pid(&statm), Some(MemMetrics { rss_bytes: 49152 }));
    assert_eq!(reader.for_pid(&None), None);
    assert_eq!(MemReader::new(-1).page_size, 4096);
    assert_eq!(MemReader::new(0).page_size, 4096);
    assert!(!reader.countable(&Some("1 18446744073709551615".to_owned())));
}

// ── identity ─────────────────────────────────────────────────────────────────

fn comm(bytes: &[u8]) -> [u8; 16] {
    let mut raw = [0u8; 16];
    raw[..bytes.len()].copy_from_slice(bytes);
    raw
}

#[test]
fn decode_comm_stops_at_nul() {
    assert_eq!(decode_comm(comm(b"bash\0ignored")), "bash");
}

#[test]
fn decode_comm_reads_full_buffer() {
    assert_eq!(decode_comm([b'a'; 16]), "a".repeat(16));
}

#[test]
fn decode_comm_is_lossy_on_invalid_utf8() {
    assert_eq!(decode_comm(comm(&[0xff, 0xff])), "\u{fffd}\u{fffd}");
}

#[test]
fn decode_comm_trims_and_keeps_utf8() {
    assert_eq!(decode_comm(comm(" caf\u{e9}\t".as_bytes())), "caf\u{e9}");
}

#[test]
fn the_real_uid_is_the_first_of_four() {
    let status = "Name:\tbash\nUmask:\t0022\nUid:\t1000\t0\t0\t0\nGid:\t5\n";
    assert_eq!(proc_uid(status), Some(1000));
    assert_eq!(proc_uid("Name:\tbash\n"), None);
    assert_eq!(proc_uid("Uid:\n"), None);
    assert_eq!(proc_uid("Uid:\t-1\n"), None);
}

#[test]
fn passwd_maps_uids_to_names() {
    let passwd = "root:x:0:0::/root:/bin/sh\n# comment\nbad:x:none:1\nshort:x\nfirst:x:7:1\nlast:x:7:1\n";
    let users = load_passwd(&Some(passwd.to_owned()));
    assert_eq!(users.len(), 2);
    assert_eq!(users[&0], "root");
    assert_eq!(users[&7], "last");
    assert!(load_passwd(&None).is_empty());
}

#[test]
fn only_numbered_entries_are_processes() {
    assert_eq!(proc_entry_pid("123"), Some(123));
    assert_eq!(proc_entry_pid("self"), None);
    assert_eq!(proc_entry_pid("4294967296"), None);
}

#[test]
fn the_startup_snapshot_needs_both_files() {
    let entry = |file_name: &str, comm: Option<&str>, status: Option<&str>| ProcEntry {
        file_name: file_name.to_owned(),
        comm: comm.map(str::to_owned),
        status: status.map(str::to_owned),
    };
    let seed = backfill_proc_names(&vec![
        entry("1", Some("init\n"), Some("Uid:\t0\n")),
        entry("2", None, Some("Uid:\t0\n")),
        entry("3", Some("x"), None),
        entry("self", Some("x"), Some("Uid:\t0\n")),
        entry("5", Some("x"), Some("no uid")),
    ]);
    assert_eq!(seed.len(), 1);
    assert_eq!(seed[&1].name, "init");
    assert_eq!(seed[&1].uid, 0);
}

#[test]
fn a_live_identity_wins_over_the_seed() {
    let proc = vec![ProcEntry {
        file_name: "7".to_owned(),
        comm: Some("old".to_owned()),
        status: Some("Uid: 1000".to_owned()),
    }];
    let mut names = Resolver::new(&proc, &Some("ramos:x:1000:1000".to_owned()));
    assert_eq!(names.resolve(7, &None), "old");
    assert_eq!(names.user(7, &None).as_deref(), Some("ramos"));
    let live = named(b"new", 33);
    assert_eq!(names.resolve(7, &live), "new");
    assert_eq!(names.user(7, &live).as_deref(), Some("33"));
    names.forget(7);
    assert_eq!(names.resolve(7, &None), "<unknown>");
    assert_eq!(names.user(7, &None), None);
}
