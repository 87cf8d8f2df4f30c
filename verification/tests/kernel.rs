//! The kernel-space logic, and the benchmark's models.

use std::collections::HashMap;

use truetop::batch::fold;
use truetop::bench::{
    after_fork, can_collect, collect_batched, collect_procfs, count_argument, read_self_cpu_ns,
    Forked, PerCpuSample,
};
use truetop::common::{ExitEvent, Identity, COMM_LEN};
use truetop::cpu_maps::{add_inflight, Running};
use truetop::kernel::cpu::{charge_out, mark_in, Cpu};
use truetop::kernel::iowait::{sleep_out, wake_in, Sleepers, Wake};
use truetop::kernel::lifecycle::{capture, commit_creds, exit, sched_process_exit, Names};
use truetop::kernel::sched::{prev_state, sched_switch, tid_and_tgid, Switch};
use truetop::kernel::task::{halves, Task};
use truetop::load::Offsets;

const RUNNING: u32 = 0;
const UNINTERRUPTIBLE: u32 = 0x2;
const IDLE_KTHREAD: u32 = 0x402;

fn switch(prev: (u32, u32, u32), next: (u32, u32), now: u64) -> Switch {
    Switch {
        prev_tid: prev.0,
        prev_tgid: prev.1,
        prev_state: prev.2,
        next_tid: next.0,
        next_tgid: next.1,
        now,
    }
}

#[test]
fn a_slice_is_billed_to_the_process_that_ran_it() {
    let (mut cpu, mut sleepers) = (Cpu::new(), Sleepers::new());
    // The first switch seen has no baseline to charge from.
    sched_switch(&mut cpu, &mut sleepers, switch((5, 5, RUNNING), (11, 10), 100));
    assert!(cpu.cpu_ns.is_empty());
    sched_switch(&mut cpu, &mut sleepers, switch((11, 10, RUNNING), (0, 0), 175));
    assert_eq!(cpu.cpu_ns[&10], 75);
    assert_eq!(cpu.current_tgid, 0);
    // Idle is not charged, and a second thread of the process adds to its total.
    sched_switch(&mut cpu, &mut sleepers, switch((0, 0, RUNNING), (12, 10), 500));
    assert_eq!(cpu.cpu_ns[&10], 75);
    sched_switch(&mut cpu, &mut sleepers, switch((12, 10, RUNNING), (5, 5), 525));
    assert_eq!(cpu.cpu_ns[&10], 100);
    assert_eq!(cpu.cpu_ns.len(), 1);
    assert_eq!((cpu.start_time, cpu.current_tgid), (525, 5));
}

#[test]
fn the_charge_is_decided_from_what_was_looked_up() {
    assert_eq!(charge_out(0, Some(10), Some(5), 20), None);
    assert_eq!(charge_out(1, Some(0), Some(5), 20), None);
    assert_eq!(charge_out(1, None, Some(5), 20), None);
    assert_eq!(charge_out(1, Some(10), None, 20), Some(10));
    assert_eq!(charge_out(1, Some(10), Some(5), 20), Some(15));
    assert_eq!(charge_out(1, Some(30), Some(5), 20), Some(5));
    assert_eq!(charge_out(1, Some(10), Some(u64::MAX), 20), Some(u64::MAX));
    assert_eq!(mark_in(0, 20), None);
    assert_eq!(mark_in(3, 20), Some(20));
}

/// Read with the in-flight slice added, a process shows the same right before and
/// right after any switch.
#[test]
fn a_switch_neither_makes_nor_loses_time() {
    let read = |cpu: &Cpu, pid: u32, now: u64| {
        let billed = cpu.cpu_ns.get(&pid).copied().unwrap_or(0);
        let running = cpu.current_tgid == pid && pid != 0 && cpu.start_time != 0;
        billed + if running { now - cpu.start_time } else { 0 }
    };
    let (mut cpu, mut sleepers) = (Cpu::new(), Sleepers::new());
    let mut on_cpu = (0, 0);
    for (next, now) in [((1, 1), 10), ((2, 2), 17), ((0, 0), 40), ((3, 1), 90), ((2, 2), 91)] {
        let before = [read(&cpu, 1, now), read(&cpu, 2, now)];
        sched_switch(&mut cpu, &mut sleepers, switch((on_cpu.0, on_cpu.1, RUNNING), next, now));
        assert_eq!(before, [read(&cpu, 1, now), read(&cpu, 2, now)]);
        on_cpu = next;
    }
    assert_eq!(read(&cpu, 1, 91), 8);
    assert_eq!(read(&cpu, 2, 91), 23);
    assert_eq!(read(&cpu, 2, 100), 32);
}

#[test]
fn a_blocked_sleep_is_billed_once_across_cpus() {
    let (mut first, mut second, mut sleepers) = (Cpu::new(), Cpu::new(), Sleepers::new());
    sched_switch(&mut first, &mut sleepers, switch((21, 20, UNINTERRUPTIBLE), (0, 0), 100));
    assert_eq!(sleepers.since[&21], 100);
    sched_switch(&mut second, &mut sleepers, switch((0, 0, RUNNING), (21, 20), 350));
    assert_eq!(second.iowait_ns[&20], 250);
    assert!(first.iowait_ns.is_empty());
    assert!(sleepers.since.is_empty());
    sleepers.wake_in(&mut second, 20, 21, 400);
    assert_eq!(second.iowait_ns[&20], 250);
}

#[test]
fn only_uninterruptible_sleep_counts() {
    assert!(sleep_out(UNINTERRUPTIBLE, 1));
    assert!(sleep_out(UNINTERRUPTIBLE | 0x80, 1));
    assert!(!sleep_out(UNINTERRUPTIBLE, 0));
    assert!(!sleep_out(IDLE_KTHREAD, 1));
    assert!(!sleep_out(RUNNING, 1));
    assert!(!sleep_out(0x1, 1));
}

#[test]
fn a_wake_up_is_decided_from_what_was_looked_up() {
    let nothing = Wake {
        unstamp: false,
        total: None,
    };
    assert_eq!(wake_in(20, 0, Some(5), Some(1), 9), nothing);
    assert_eq!(wake_in(20, 21, None, Some(1), 9), nothing);
    // The process is unknown: the stamp goes, nobody is billed.
    assert_eq!(
        wake_in(0, 21, Some(5), None, 9),
        Wake {
            unstamp: true,
            total: None
        }
    );
    assert_eq!(wake_in(20, 21, Some(5), Some(1), 9).total, Some(5));
    assert_eq!(wake_in(20, 21, Some(5), None, 9).total, Some(4));
}

#[test]
fn the_state_comes_from_the_argument_where_there_is_one() {
    assert_eq!(prev_state(1, 7, 9), 7);
    assert_eq!(prev_state(0, 7, 9), 9);
    assert_eq!(tid_and_tgid(0x0000_0014_0000_0015), (0x15, 0x14));
}

// ── task ─────────────────────────────────────────────────────────────────────

const OFFSETS: Offsets = Offsets {
    pid: 4,
    tgid: 8,
    state: 0,
    signal: 0,
    live: 0,
    cred_uid: 0,
    has_prev_state: false,
};

#[test]
fn fields_are_read_at_their_offsets_in_either_byte_order() {
    for big_endian in [false, true] {
        let mut memory = Vec::new();
        for word in [2u32, 0x0102_0304, 77] {
            memory.extend_from_slice(&if big_endian {
                word.to_be_bytes()
            } else {
                word.to_le_bytes()
            });
        }
        let task = Task {
            memory: Some(&memory),
            offsets: OFFSETS,
            big_endian,
        };
        assert_eq!(task.state(), 2);
        assert_eq!(task.pid(), 0x0102_0304);
        assert_eq!(task.tgid(), 77);
        assert_eq!(task.pid_and_tgid(), (task.pid(), task.tgid()));
    }
}

#[test]
fn a_null_task_or_a_fault_reads_zero() {
    let null = Task {
        memory: None,
        offsets: OFFSETS,
        big_endian: false,
    };
    assert_eq!((null.pid(), null.tgid(), null.state()), (0, 0, 0));
    assert_eq!(null.pid_and_tgid(), (0, 0));
    let memory = [1u8; 10];
    let short = Task {
        memory: Some(&memory),
        offsets: OFFSETS,
        big_endian: false,
    };
    assert_eq!(short.pid(), 0x0101_0101);
    assert_eq!(short.tgid(), 0);
    assert_eq!(short.pid_and_tgid(), (0, 0));
    assert_eq!(halves(0x0000_0002_0000_0001, false), (1, 2));
    assert_eq!(halves(0x0000_0002_0000_0001, true), (2, 1));
}

// ── lifecycle ────────────────────────────────────────────────────────────────

fn comm(name: &[u8]) -> [u8; COMM_LEN] {
    let mut raw = [0u8; COMM_LEN];
    raw[..name.len()].copy_from_slice(name);
    raw
}

#[test]
fn a_child_is_named_after_its_parent_until_it_execs() {
    let mut names = Names::new();
    names.sched_process_fork(42, Some(comm(b"postgres")), 26);
    assert_eq!(
        names.get(42),
        Some(Identity {
            comm: comm(b"postgres"),
            uid: 26
        })
    );
    names.sched_process_exec(42, Some(comm(b"psql")), 26);
    assert_eq!(names.get(42).unwrap().comm, comm(b"psql"));
    assert_eq!(names.get(43), None);
    // Neither idle nor a task whose name the kernel does not give is recorded.
    names.sched_process_exec(0, Some(comm(b"x")), 0);
    names.sched_process_exec(44, None, 0);
    assert_eq!(names.by_tgid.len(), 1);
    assert_eq!(capture(0, Some(comm(b"x")), 0), None);
}

#[test]
fn dropping_privileges_changes_the_owner_and_keeps_the_name() {
    let mut names = Names::new();
    names.sched_process_exec(42, Some(comm(b"nginx")), 0);
    names.commit_creds(42, Some(33));
    assert_eq!(
        names.get(42),
        Some(Identity {
            comm: comm(b"nginx"),
            uid: 33
        })
    );
    names.commit_creds(42, None);
    assert_eq!(names.get(42).unwrap().uid, 33);
    names.commit_creds(43, Some(1));
    assert_eq!(names.get(43), None);
    assert_eq!(commit_creds(0, Some(1), names.get(42)), None);
}

#[test]
fn a_group_is_announced_when_its_last_thread_goes() {
    let mut sleepers = Sleepers::new();
    sleepers.sleep_out(UNINTERRUPTIBLE, 42, 10);
    // The leader exits while its threads run on.
    assert_eq!(sched_process_exit(&mut sleepers, 42, 42, false), None);
    assert!(sleepers.since.is_empty());
    assert_eq!(
        sched_process_exit(&mut sleepers, 43, 42, true),
        Some(ExitEvent { tgid: 42 })
    );
    assert_eq!(sched_process_exit(&mut sleepers, 0, 0, true), None);
    assert!(exit(43, 42, false).forget_thread);
    assert!(!exit(0, 42, true).forget_thread);
}

#[test]
fn an_exit_record_reads_back() {
    for tgid in [0, 1, 4242, u32::MAX] {
        let mut record = tgid.to_ne_bytes().to_vec();
        assert_eq!(ExitEvent::from_bytes(&record), Some(ExitEvent { tgid }));
        record.push(9);
        assert_eq!(ExitEvent::from_bytes(&record), Some(ExitEvent { tgid }));
    }
    assert_eq!(ExitEvent::from_bytes(&[1, 2, 3]), None);
}

#[test]
fn an_exit_record_reads_back_in_either_byte_order() {
    for tgid in [0, 1, 255, 256, 4242, 0x0102_0304, u32::MAX] {
        for tail in [&[][..], &[9][..], &[1, 2, 3, 4, 5][..]] {
            let big = [&tgid.to_be_bytes()[..], tail].concat();
            let little = [&tgid.to_le_bytes()[..], tail].concat();
            assert_eq!(ExitEvent::from_bytes_in(&big, true), Some(ExitEvent { tgid }));
            assert_eq!(ExitEvent::from_bytes_in(&little, false), Some(ExitEvent { tgid }));
        }
    }
    let record = [1, 2, 3, 4];
    assert_eq!(ExitEvent::from_bytes_in(&record, true), Some(ExitEvent { tgid: 0x0102_0304 }));
    assert_eq!(ExitEvent::from_bytes_in(&record, false), Some(ExitEvent { tgid: 0x0403_0201 }));
    let own = 1u32.to_ne_bytes() == 1u32.to_be_bytes();
    assert_eq!(ExitEvent::from_bytes(&record), ExitEvent::from_bytes_in(&record, own));
    for order in [true, false] {
        assert_eq!(ExitEvent::from_bytes_in(&[1, 2, 3], order), None);
        assert_eq!(ExitEvent::from_bytes_in(&[], order), None);
    }
}

/// What the batched read and the in-flight correction make of three CPUs is the time
/// that passed on them.
#[test]
fn a_read_sums_billed_and_running_time() {
    let mut sleepers = Sleepers::new();
    let mut cpus = [Cpu::new(), Cpu::new(), Cpu::new()];
    // Process 10 runs on all three from different times on, and leaves the first.
    for (i, cpu) in cpus.iter_mut().enumerate() {
        let at = 100 * (i as u64 + 1);
        sched_switch(cpu, &mut sleepers, switch((0, 0, RUNNING), (11 + i as u32, 10), at));
    }
    sched_switch(&mut cpus[0], &mut sleepers, switch((11, 10, RUNNING), (20, 20), 400));

    let values: Vec<u64> = cpus
        .iter()
        .map(|cpu| cpu.cpu_ns.get(&10).copied().unwrap_or(0))
        .collect();
    let mut totals = HashMap::new();
    fold(&[10], &values, 1, 3, &mut totals);
    assert_eq!(totals, HashMap::from([(10, 300)]));
    let running = Some(Running {
        tgids: cpus.iter().map(|cpu| cpu.current_tgid).collect(),
        starts: cpus.iter().map(|cpu| cpu.start_time).collect(),
    });
    add_inflight(&mut totals, &running, 1000);
    assert_eq!(totals, HashMap::from([(10, 300 + 800 + 700), (20, 600)]));
}

// ── bench ────────────────────────────────────────────────────────────────────

#[test]
fn a_batched_collection_sums_every_slot() {
    let samples: Vec<(u32, PerCpuSample)> = (0..3).map(|pid| (pid, vec![pid as u64; 4])).collect();
    assert_eq!(collect_batched(&samples), 12);
    assert_eq!(collect_batched(&[]), 0);
}

#[test]
fn a_procfs_collection_parses_one_stat_per_process() {
    let stat = |utime: u64, stime: u64| {
        Some(format!(
            "12 (a b) c) R 1 2 3 4 5 6 7 8 9 10 {utime} {stime} 0 0 20\n"
        ))
    };
    assert_eq!(read_self_cpu_ns(&stat(31, 11)), 42);
    assert_eq!(read_self_cpu_ns(&None), 0);
    assert_eq!(read_self_cpu_ns(&Some("12 (x) R 1".to_owned())), 0);
    assert_eq!(collect_procfs(&vec![stat(1, 2), None, stat(10, 20)]), 33);
    assert!(can_collect(&vec![stat(u64::MAX, 0), None]));
    assert!(!can_collect(&vec![stat(u64::MAX, 1)]));
    assert!(!can_collect(&vec![stat(u64::MAX, 0), stat(0, 1)]));
}

#[test]
fn the_benchmarks_take_a_count() {
    assert_eq!(count_argument(&Some("12".to_owned()), 4), 12);
    assert_eq!(count_argument(&Some("many".to_owned()), 4), 4);
    assert_eq!(count_argument(&None, 4), 4);
    assert_eq!(after_fork(0), Forked::Child);
    assert_eq!(after_fork(-1), Forked::Refused);
    assert_eq!(after_fork(77), Forked::Parent(77));
}
