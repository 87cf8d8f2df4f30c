//! Process lifecycle: identity on `exec`, `fork` and credential changes, and the
//! departure on `exit`.
//!
//! `exec` alone would miss every process that forks and never calls `execve` -
//! how PostgreSQL backends, nginx workers and Redis children are spawned -
//! leaving them unnamed. The kernel copies the parent's `comm` into the child
//! before the fork hook fires, so the fork hook records that inherited name; a
//! later `exec` overwrites it with the real one. A process that changes its
//! credentials afterwards keeps its name and gets its new owner.
//!
//! On exit two things must happen, and they belong to different owners. The
//! transient sleep timestamp is the kernel's to drop: it is scratch state, not
//! accounting, and keeping it would leak. The accumulated counters are user
//! space's to close: they live in per-CPU maps the program cannot sum, so the exit
//! only announces the departure and leaves the totals standing for the next
//! collector tick to read and then remove.

use std::collections::HashMap;

use vstd::prelude::*;

use crate::common::{ExitEvent, Identity, COMM_LEN};
use crate::kernel::iowait::Sleepers;

verus! {

broadcast use vstd::std_specs::hash::group_hash_axioms;

/// The identity to record for process `tgid`, where `comm` is the name of the
/// current task, if the kernel gave one. Neither idle nor the unreadable get one.
pub fn capture(tgid: u32, comm: Option<[u8; COMM_LEN]>, uid: u32) -> (out: Option<Identity>)
    ensures
        out == captured(tgid, comm, uid),
{
    match comm {
        Some(comm) => if tgid != 0 {
            Some(Identity { comm, uid })
        } else {
            None
        },
        None => None,
    }
}

pub open spec fn captured(tgid: u32, comm: Option<[u8; COMM_LEN]>, uid: u32) -> Option<Identity> {
    match comm {
        Some(comm) if tgid != 0 => Some(Identity { comm, uid }),
        _ => None,
    }
}

/// The identity to record once process `tgid` commits credentials, where `uid` is
/// the new owner, if it could be read, and `known` what was recorded before: the
/// same name with the new owner. A process nothing is known of stays unknown.
pub fn commit_creds(tgid: u32, uid: Option<u32>, known: Option<Identity>) -> (out: Option<
    Identity,
>)
    ensures
        out == reowned(tgid, uid, known),
{
    match (uid, known) {
        (Some(uid), Some(identity)) => if tgid != 0 {
            Some(Identity { comm: identity.comm, uid })
        } else {
            None
        },
        _ => None,
    }
}

pub open spec fn reowned(tgid: u32, uid: Option<u32>, known: Option<Identity>) -> Option<Identity> {
    match (uid, known) {
        (Some(uid), Some(identity)) if tgid != 0 => Some(Identity { uid, ..identity }),
        _ => None,
    }
}

/// What a thread's exit calls for.
#[derive(Clone, Copy, Debug, PartialEq, Eq, Structural)]
pub struct Exit {
    /// Drop the thread's sleep stamp.
    pub forget_thread: bool,
    /// Announce that its process has ended.
    pub announce: Option<ExitEvent>,
}

/// What the exit of thread `tid` of process `tgid` calls for.
///
/// Not `tid == tgid`: a leader that calls `pthread_exit` becomes a zombie
/// while its threads run on, and announcing there strips a live process of
/// its counters and its name.
pub fn exit(tid: u32, tgid: u32, group_is_dead: bool) -> (out: Exit)
    ensures
        out == exited(tid, tgid, group_is_dead),
{
    if tid == 0 {
        return Exit { forget_thread: false, announce: None };
    }
    Exit {
        forget_thread: true,
        announce: if group_is_dead {
            Some(ExitEvent { tgid })
        } else {
            None
        },
    }
}

pub open spec fn exited(tid: u32, tgid: u32, group_is_dead: bool) -> Exit {
    Exit {
        forget_thread: tid != 0,
        announce: if tid != 0 && group_is_dead {
            Some(ExitEvent { tgid })
        } else {
            None
        },
    }
}

// ── The names, and the announcements ─────────────────────────────────────────

/// tgid → identity. The name outlives the process: user space reads it to label
/// a departed process before reaping the entry.
#[derive(Debug)]
pub struct Names {
    pub by_tgid: HashMap<u32, Identity>,
}

impl View for Names {
    type V = Map<u32, Identity>;

    open spec fn view(&self) -> Map<u32, Identity> {
        self.by_tgid@
    }
}

/// `names` with `identity`, if there is one, recorded for `tgid`.
pub open spec fn recorded(
    names: Map<u32, Identity>,
    tgid: u32,
    identity: Option<Identity>,
) -> Map<u32, Identity> {
    match identity {
        Some(identity) => names.insert(tgid, identity),
        None => names,
    }
}

/// What `names` hold of `tgid`.
pub open spec fn known(names: Map<u32, Identity>, tgid: u32) -> Option<Identity> {
    if names.contains_key(tgid) {
        Some(names[tgid])
    } else {
        None
    }
}

/// `names` once process `tgid` has executed a program.
pub open spec fn executed(
    names: Map<u32, Identity>,
    tgid: u32,
    comm: Option<[u8; COMM_LEN]>,
    uid: u32,
) -> Map<u32, Identity> {
    recorded(names, tgid, captured(tgid, comm, uid))
}

/// `names` once process `child` has been forked.
pub open spec fn forked(
    names: Map<u32, Identity>,
    child: u32,
    comm: Option<[u8; COMM_LEN]>,
    uid: u32,
) -> Map<u32, Identity> {
    recorded(names, child, captured(child, comm, uid))
}

/// `names` once process `tgid` has committed credentials.
pub open spec fn committed(names: Map<u32, Identity>, tgid: u32, uid: Option<u32>) -> Map<
    u32,
    Identity,
> {
    recorded(names, tgid, reowned(tgid, uid, known(names, tgid)))
}

impl Names {
    /// No process is known.
    pub fn new() -> (out: Names)
        ensures
            out@ == Map::<u32, Identity>::empty(),
    {
        Names { by_tgid: HashMap::new() }
    }

    /// What is known of `tgid`.
    pub fn get(&self, tgid: u32) -> (out: Option<Identity>)
        ensures
            out == known(self@, tgid),
    {
        match self.by_tgid.get(&tgid) {
            Some(identity) => Some(*identity),
            None => None,
        }
    }

    fn record(&mut self, tgid: u32, identity: Option<Identity>)
        ensures
            final(self)@ == recorded(old(self)@, tgid, identity),
    {
        if let Some(identity) = identity {
            self.by_tgid.insert(tgid, identity);
        }
    }

    /// Process `tgid` has executed a program; `comm` already holds its name.
    pub fn sched_process_exec(&mut self, tgid: u32, comm: Option<[u8; COMM_LEN]>, uid: u32)
        ensures
            final(self)@ == recorded(old(self)@, tgid, captured(tgid, comm, uid)),
            final(self)@ == executed(old(self)@, tgid, comm, uid),
    {
        let identity = capture(tgid, comm, uid);
        self.record(tgid, identity);
    }

    /// Process `child` has been forked; `comm` and `uid` are the parent's, which
    /// the child has already inherited.
    pub fn sched_process_fork(&mut self, child: u32, comm: Option<[u8; COMM_LEN]>, uid: u32)
        ensures
            final(self)@ == recorded(old(self)@, child, captured(child, comm, uid)),
            final(self)@ == forked(old(self)@, child, comm, uid),
    {
        let identity = capture(child, comm, uid);
        self.record(child, identity);
    }

    /// Process `tgid` commits credentials whose owner is `uid`.
    pub fn commit_creds(&mut self, tgid: u32, uid: Option<u32>)
        ensures
            final(self)@ == recorded(
                old(self)@,
                tgid,
                reowned(tgid, uid, known(old(self)@, tgid)),
            ),
            final(self)@ == committed(old(self)@, tgid, uid),
    {
        let identity = commit_creds(tgid, uid, self.get(tgid));
        self.record(tgid, identity);
    }
}

/// The stamps once thread `tid` has exited.
pub open spec fn without(since: Map<u32, u64>, tid: u32) -> Map<u32, u64> {
    if tid != 0 {
        since.remove(tid)
    } else {
        since
    }
}

/// Thread `tid` of process `tgid` exits; the process is announced if it was the
/// last of its group.
pub fn sched_process_exit(sleepers: &mut Sleepers, tid: u32, tgid: u32, group_is_dead: bool) -> (
    out: Option<ExitEvent>)
    ensures
        out == exited(tid, tgid, group_is_dead).announce,
        final(sleepers)@ == if tid != 0 {
            old(sleepers)@.remove(tid)
        } else {
            old(sleepers)@
        },
        final(sleepers)@ == without(old(sleepers)@, tid),
{
    let exit = exit(tid, tgid, group_is_dead);
    if exit.forget_thread {
        sleepers.forget_thread(tid);
    }
    exit.announce
}

// ── Laws ─────────────────────────────────────────────────────────────────────

/// A child that never executes a program carries its parent's name; one that
/// does carries the program's.
pub proof fn exec_overrides_the_inherited_name(
    names: Map<u32, Identity>,
    child: u32,
    inherited: [u8; COMM_LEN],
    own: [u8; COMM_LEN],
    uid: u32,
)
    requires
        child != 0,
    ensures
        ({
            let forked = recorded(names, child, captured(child, Some(inherited), uid));
            let executed = recorded(forked, child, captured(child, Some(own), uid));
            &&& known(forked, child) == Some(Identity { comm: inherited, uid })
            &&& known(executed, child) == Some(Identity { comm: own, uid })
        }),
{
}

/// A process that drops privileges keeps its name and reports its new user.
pub proof fn a_new_owner_keeps_the_name(names: Map<u32, Identity>, tgid: u32, uid: u32)
    requires
        tgid != 0,
        names.contains_key(tgid),
    ensures
        known(recorded(names, tgid, reowned(tgid, Some(uid), known(names, tgid))), tgid) == Some(
            Identity { comm: names[tgid].comm, uid },
        ),
{
}

/// No event of one process changes what is known of another.
pub proof fn others_keep_their_names(
    names: Map<u32, Identity>,
    tgid: u32,
    identity: Option<Identity>,
    other: u32,
)
    requires
        other != tgid,
    ensures
        known(recorded(names, tgid, identity), other) == known(names, other),
{
}

/// A group is announced when its last thread goes, whichever that is: a leader
/// that exits while its threads run on is not announced.
pub proof fn only_a_dead_group_is_announced(tid: u32, tgid: u32, group_is_dead: bool)
    requires
        tid != 0,
    ensures
        exited(tid, tgid, group_is_dead).announce is Some == group_is_dead,
        exited(tid, tgid, group_is_dead).announce matches Some(event) ==> event.tgid == tgid,
{
}

/// Neither idle nor a task whose name cannot be read is recorded, and a new owner is
/// recorded only of a process that is known and where the owner can be read; the name
/// book is then as it was.
pub proof fn nothing_is_made_up(
    names: Map<u32, Identity>,
    tgid: u32,
    comm: Option<[u8; COMM_LEN]>,
    owner: Option<u32>,
    uid: u32,
)
    ensures
        recorded(names, 0, captured(0, comm, uid)) == names,
        recorded(names, tgid, captured(tgid, None, uid)) == names,
        recorded(names, 0, reowned(0, owner, known(names, 0))) == names,
        recorded(names, tgid, reowned(tgid, None, known(names, tgid))) == names,
        !names.contains_key(tgid) ==> recorded(names, tgid, reowned(tgid, owner, known(names, tgid)))
            == names,
{
}

/// A thread's exit drops its own sleep stamp and no other; idle does not exit, and is
/// announced by nobody.
pub proof fn an_exit_drops_its_own_stamp(
    since: Map<u32, u64>,
    tid: u32,
    tgid: u32,
    group_is_dead: bool,
    other: u32,
)
    ensures
        tid != 0 ==> !without(since, tid).contains_key(tid) && exited(
            tid,
            tgid,
            group_is_dead,
        ).forget_thread,
        other != tid ==> without(since, tid).contains_key(other) == since.contains_key(other)
            && without(since, tid)[other] == since[other],
        without(since, 0) == since,
        exited(0, tgid, group_is_dead).announce is None && !exited(
            0,
            tgid,
            group_is_dead,
        ).forget_thread,
{
}

/// A fork and an exec name the process, whatever was recorded of its id before, with the
/// name and the owner of the moment; a change of credentials changes the owner of a
/// known process and nothing else. None of them touches another process.
pub proof fn the_latest_event_names_a_process(
    names: Map<u32, Identity>,
    tgid: u32,
    comm: [u8; COMM_LEN],
    uid: u32,
    other: u32,
)
    requires
        tgid != 0,
        other != tgid,
    ensures
        known(forked(names, tgid, Some(comm), uid), tgid) == Some(Identity { comm, uid }),
        known(executed(names, tgid, Some(comm), uid), tgid) == Some(Identity { comm, uid }),
        names.contains_key(tgid) ==> known(committed(names, tgid, Some(uid)), tgid) == Some(
            Identity { comm: names[tgid].comm, uid },
        ),
        !names.contains_key(tgid) ==> known(committed(names, tgid, Some(uid)), tgid) is None,
        committed(names, tgid, None) == names,
        forked(names, tgid, None, uid) == names && executed(names, tgid, None, uid) == names,
        forked(names, 0, Some(comm), uid) == names && executed(names, 0, Some(comm), uid) == names,
        known(forked(names, tgid, Some(comm), uid), other) == known(names, other),
        known(executed(names, tgid, Some(comm), uid), other) == known(names, other),
        known(committed(names, tgid, Some(uid)), other) == known(names, other),
{
}

} // verus!
