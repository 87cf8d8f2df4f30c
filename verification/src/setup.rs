//! Attaching the programs and taking the maps, one step at a time: what comes
//! next, and what a failure means. The binary performs each step and reports back.

use vstd::prelude::*;

use crate::text;

verus! {

/// A tracepoint; its program has the same name.
#[derive(Clone, Copy, Debug, PartialEq, Eq, Structural)]
pub enum Hook {
    SchedSwitch,
    SchedProcessExec,
    SchedProcessFork,
    SchedProcessExit,
}

/// A map of the object that user space reads.
#[derive(Clone, Copy, Debug, PartialEq, Eq, Structural)]
pub enum MapName {
    CpuNs,
    IowaitNs,
    CommMap,
    Exits,
    StartTime,
    CurrentTgid,
}

/// One step of the setup.
#[derive(Clone, Copy, Debug, PartialEq, Eq, Structural)]
pub enum Step {
    /// Load the tracepoint's program and attach it.
    Attach(Hook),
    /// Load and attach the hook on credential changes: the one that is not a raw
    /// tracepoint, because the kernel exposes none for them.
    AttachCreds,
    /// Take a map out of the object.
    Take(MapName),
    /// Ask the kernel for the capacity of the CPU counter map: its number, not
    /// the one we asked for, is what saturation is measured against.
    Capacity,
}

/// How a step went.
#[derive(Clone, Copy, Debug, PartialEq, Eq, Structural)]
pub enum Outcome {
    Done,
    /// The object holds no such program or map.
    Missing,
    /// The program is of another type, or the map of another kind.
    WrongKind,
    /// The kernel's own BTF could not be read.
    NoBtf,
    LoadFailed,
    AttachFailed,
    /// The kernel did not say.
    Unknown,
}

/// What to do after a step.
#[derive(Clone, Copy, Debug, PartialEq, Eq, Structural)]
pub enum Verdict {
    Proceed,
    /// Say so, and proceed.
    Warn,
    /// Give up.
    Abort,
}

/// The steps, in order. Counter maps are taken raw so the collector can read them
/// in batches.
pub open spec fn plan() -> Seq<Step> {
    seq![
        Step::Attach(Hook::SchedSwitch),
        Step::Attach(Hook::SchedProcessExec),
        Step::Attach(Hook::SchedProcessFork),
        Step::Attach(Hook::SchedProcessExit),
        Step::AttachCreds,
        Step::Take(MapName::CpuNs),
        Step::Take(MapName::IowaitNs),
        Step::Take(MapName::CommMap),
        Step::Take(MapName::Exits),
        Step::Take(MapName::StartTime),
        Step::Take(MapName::CurrentTgid),
        Step::Capacity,
    ]
}

/// What an outcome of `step` means. Credential changes are accuracy, not function:
/// without that hook a process that drops privileges after exec keeps the uid it
/// was born with. Everything else is needed.
pub open spec fn verdict(step: Step, outcome: Outcome) -> Verdict {
    if outcome == Outcome::Done {
        Verdict::Proceed
    } else if step == Step::AttachCreds {
        Verdict::Warn
    } else {
        Verdict::Abort
    }
}

/// The step that follows `done` of them.
pub open spec fn step_after(done: nat) -> Option<Step> {
    if done < plan().len() {
        Some(plan()[done as int])
    } else {
        None
    }
}

/// How many steps are behind a setup once the next went as `outcome`: one that aborts is
/// not.
pub open spec fn moved_on(done: nat, outcome: Outcome) -> nat {
    if verdict(plan()[done as int], outcome) == Verdict::Abort {
        done
    } else {
        done + 1
    }
}

/// The setup so far: how many steps are behind it.
#[derive(Debug)]
pub struct Setup {
    done: usize,
}

impl Setup {
    /// The steps behind it.
    pub closed spec fn done(self) -> nat {
        self.done as nat
    }

    #[verifier::type_invariant]
    spec fn sane(self) -> bool {
        self.done <= 12
    }

    /// Nothing has been done.
    pub fn new() -> (out: Setup)
        ensures
            out.done() == 0,
    {
        Setup { done: 0 }
    }

    /// The step to perform next; `None` once all are done.
    pub fn next(&self) -> (out: Option<Step>)
        ensures
            out == if self.done() < plan().len() {
                Some(plan()[self.done() as int])
            } else {
                None
            },
            out == step_after(self.done()),
    {
        proof {
            use_type_invariant(self);
        }
        Some(
            match self.done {
                0 => Step::Attach(Hook::SchedSwitch),
                1 => Step::Attach(Hook::SchedProcessExec),
                2 => Step::Attach(Hook::SchedProcessFork),
                3 => Step::Attach(Hook::SchedProcessExit),
                4 => Step::AttachCreds,
                5 => Step::Take(MapName::CpuNs),
                6 => Step::Take(MapName::IowaitNs),
                7 => Step::Take(MapName::CommMap),
                8 => Step::Take(MapName::Exits),
                9 => Step::Take(MapName::StartTime),
                10 => Step::Take(MapName::CurrentTgid),
                11 => Step::Capacity,
                _ => return None,
            },
        )
    }

    /// Take note of how the next step went, and say what to do now.
    pub fn report(&mut self, outcome: Outcome) -> (out: Verdict)
        requires
            old(self).done() < plan().len(),
        ensures
            out == verdict(plan()[old(self).done() as int], outcome),
            final(self).done() == if out == Verdict::Abort {
                old(self).done()
            } else {
                old(self).done() + 1
            },
            final(self).done() == moved_on(old(self).done(), outcome),
    {
        let step = match self.next() {
            Some(step) => step,
            None => return Verdict::Abort,
        };
        let out = if outcome == Outcome::Done {
            Verdict::Proceed
        } else if step == Step::AttachCreds {
            Verdict::Warn
        } else {
            return Verdict::Abort;
        };
        self.done = self.done + 1;
        out
    }
}

/// The kinds of map that are told apart.
#[derive(Clone, Copy, Debug, PartialEq, Eq, Structural)]
pub enum MapKind {
    PerCpuHash,
    LruPerCpuHash,
    Other,
}

/// How taking a counter map of the kind `found` goes.
pub open spec fn taken(found: Option<MapKind>) -> Outcome {
    match found {
        Some(MapKind::PerCpuHash) => Outcome::Done,
        Some(MapKind::LruPerCpuHash) => Outcome::Done,
        Some(MapKind::Other) => Outcome::WrongKind,
        None => Outcome::Missing,
    }
}

/// How taking a counter map went, where `found` is the kind of the map of that
/// name, if there is one.
pub fn take_percpu_map(found: Option<MapKind>) -> (out: Outcome)
    ensures
        out == match found {
            Some(MapKind::PerCpuHash) => Outcome::Done,
            Some(MapKind::LruPerCpuHash) => Outcome::Done,
            Some(MapKind::Other) => Outcome::WrongKind,
            None => Outcome::Missing,
        },
        out == taken(found),
{
    match found {
        Some(MapKind::PerCpuHash) | Some(MapKind::LruPerCpuHash) => Outcome::Done,
        Some(MapKind::Other) => Outcome::WrongKind,
        None => Outcome::Missing,
    }
}

// ── Names and messages ───────────────────────────────────────────────────────

impl Hook {
    pub open spec fn name(self) -> Seq<char> {
        match self {
            Hook::SchedSwitch => "sched_switch"@,
            Hook::SchedProcessExec => "sched_process_exec"@,
            Hook::SchedProcessFork => "sched_process_fork"@,
            Hook::SchedProcessExit => "sched_process_exit"@,
        }
    }

    /// The tracepoint's name, and its program's.
    pub fn name_str(self) -> (out: &'static str)
        ensures
            out@ == self.name(),
    {
        match self {
            Hook::SchedSwitch => "sched_switch",
            Hook::SchedProcessExec => "sched_process_exec",
            Hook::SchedProcessFork => "sched_process_fork",
            Hook::SchedProcessExit => "sched_process_exit",
        }
    }
}

impl MapName {
    pub open spec fn name(self) -> Seq<char> {
        match self {
            MapName::CpuNs => "CPU_NS"@,
            MapName::IowaitNs => "IOWAIT_NS"@,
            MapName::CommMap => "COMM_MAP"@,
            MapName::Exits => "EXITS"@,
            MapName::StartTime => "START_TIME"@,
            MapName::CurrentTgid => "CURRENT_TGID"@,
        }
    }

    /// The map's name in the object.
    pub fn name_str(self) -> (out: &'static str)
        ensures
            out@ == self.name(),
    {
        match self {
            MapName::CpuNs => "CPU_NS",
            MapName::IowaitNs => "IOWAIT_NS",
            MapName::CommMap => "COMM_MAP",
            MapName::Exits => "EXITS",
            MapName::StartTime => "START_TIME",
            MapName::CurrentTgid => "CURRENT_TGID",
        }
    }
}

/// The context that a step's failure is reported in; none where its cause speaks
/// for itself.
pub open spec fn context(step: Step, outcome: Outcome) -> Option<Seq<char>> {
    match (step, outcome) {
        (Step::Attach(hook), Outcome::Missing) => Some(
            "program `"@ + hook.name() + "` not found in object"@,
        ),
        (Step::Attach(hook), Outcome::LoadFailed) => Some("loading `"@ + hook.name() + "`"@),
        (Step::Attach(hook), Outcome::AttachFailed) => Some("attaching `"@ + hook.name() + "`"@),
        (Step::AttachCreds, Outcome::Missing) => Some(
            "program `commit_creds` not found in object"@,
        ),
        (Step::AttachCreds, Outcome::NoBtf) => Some("reading kernel BTF"@),
        (Step::AttachCreds, Outcome::LoadFailed) => Some("loading"@),
        (Step::AttachCreds, Outcome::AttachFailed) => Some("attaching"@),
        (Step::Take(MapName::CommMap), Outcome::Missing) => Some("COMM_MAP not found"@),
        (Step::Take(map), Outcome::Missing) => Some(map.name() + " map not found"@),
        (Step::Take(MapName::CpuNs), Outcome::WrongKind) => Some(
            "CPU_NS is not a per-CPU hash map"@,
        ),
        (Step::Take(MapName::IowaitNs), Outcome::WrongKind) => Some(
            "IOWAIT_NS is not a per-CPU hash map"@,
        ),
        _ => None,
    }
}

/// `name` between two texts.
fn around(before: &str, name: &str, after: &str) -> (out: String)
    ensures
        out@ == before@ + name@ + after@,
{
    let mut out = before.to_owned();
    out.append(name);
    out.append(after);
    out
}

/// The context that a step's failure is reported in; none where its cause speaks
/// for itself.
pub fn failure_context(step: Step, outcome: Outcome) -> (out: Option<String>)
    ensures
        text::content(out) == context(step, outcome),
{
    Some(
        match (step, outcome) {
            (Step::Attach(hook), Outcome::Missing) => around(
                "program `",
                hook.name_str(),
                "` not found in object",
            ),
            (Step::Attach(hook), Outcome::LoadFailed) => around("loading `", hook.name_str(), "`"),
            (Step::Attach(hook), Outcome::AttachFailed) => around(
                "attaching `",
                hook.name_str(),
                "`",
            ),
            (Step::AttachCreds, Outcome::Missing) => {
                "program `commit_creds` not found in object".to_owned()
            },
            (Step::AttachCreds, Outcome::NoBtf) => "reading kernel BTF".to_owned(),
            (Step::AttachCreds, Outcome::LoadFailed) => "loading".to_owned(),
            (Step::AttachCreds, Outcome::AttachFailed) => "attaching".to_owned(),
            (Step::Take(MapName::CommMap), Outcome::Missing) => "COMM_MAP not found".to_owned(),
            (Step::Take(map), Outcome::Missing) => {
                let mut out = map.name_str().to_owned();
                out.append(" map not found");
                out
            },
            (Step::Take(MapName::CpuNs), Outcome::WrongKind) => {
                "CPU_NS is not a per-CPU hash map".to_owned()
            },
            (Step::Take(MapName::IowaitNs), Outcome::WrongKind) => {
                "IOWAIT_NS is not a per-CPU hash map".to_owned()
            },
            _ => return None,
        },
    )
}

/// The warning for a setup that proceeds without the hook on credential changes.
pub open spec fn warning(error: Seq<char>) -> Seq<char> {
    "credential changes will go unnoticed: "@ + error
}

/// The warning for a setup that proceeds without the hook on credential changes,
/// because of `error`.
pub fn creds_warning(error: &str) -> (out: String)
    ensures
        out@ == "credential changes will go unnoticed: "@ + error@,
        out@ == warning(error@),
{
    let mut out = "credential changes will go unnoticed: ".to_owned();
    out.append(error);
    out
}

// ── Laws ─────────────────────────────────────────────────────────────────────

/// The steps performed when they go as `outcomes`, from the `done`th on: all of
/// them, or those up to the one that aborts.
pub open spec fn performed(outcomes: spec_fn(Step) -> Outcome, done: nat) -> nat
    decreases plan().len() - done,
{
    if done >= plan().len() {
        done
    } else if verdict(plan()[done as int], outcomes(plan()[done as int])) == Verdict::Abort {
        done
    } else {
        performed(outcomes, done + 1)
    }
}

/// The setup completes exactly when every step goes well, but for the hook on
/// credential changes, whose failure it survives.
pub proof fn only_the_credential_hook_is_optional(outcomes: spec_fn(Step) -> Outcome)
    ensures
        performed(outcomes, 0) == plan().len() <==> (forall|i: int|
            0 <= i < plan().len() && #[trigger] plan()[i] != Step::AttachCreds ==> outcomes(
                plan()[i],
            ) == Outcome::Done),
{
    lemma_performed(outcomes, 0);
}

proof fn lemma_performed(outcomes: spec_fn(Step) -> Outcome, done: nat)
    requires
        done <= plan().len(),
    ensures
        performed(outcomes, done) <= plan().len(),
        performed(outcomes, done) == plan().len() <==> (forall|i: int|
            done <= i < plan().len() && #[trigger] plan()[i] != Step::AttachCreds ==> outcomes(
                plan()[i],
            ) == Outcome::Done),
    decreases plan().len() - done,
{
    if done < plan().len() {
        lemma_performed(outcomes, done + 1);
        assert(plan()[done as int] == plan()[done as int]);
    }
}

/// Every tracepoint is attached, every map taken and the capacity asked for, each once:
/// all programs before any map, and the capacity when its map has been taken.
pub proof fn the_plan_leaves_nothing_out(hook: Hook, map: MapName)
    ensures
        plan().contains(Step::Attach(hook)),
        plan().contains(Step::AttachCreds),
        plan().contains(Step::Take(map)),
        plan().contains(Step::Capacity),
        plan().no_duplicates(),
        forall|i: int, j: int|
            0 <= i < plan().len() && 0 <= j < plan().len() && !(#[trigger] plan()[i] is Take)
                && plan()[i] != Step::Capacity && #[trigger] plan()[j] is Take ==> i < j,
        forall|i: int, j: int|
            0 <= i < plan().len() && 0 <= j < plan().len() && #[trigger] plan()[i] == Step::Take(
                MapName::CpuNs,
            ) && #[trigger] plan()[j] == Step::Capacity ==> i < j,
{
    let all = plan();
    assert(all[0] == Step::Attach(Hook::SchedSwitch));
    assert(all[1] == Step::Attach(Hook::SchedProcessExec));
    assert(all[2] == Step::Attach(Hook::SchedProcessFork));
    assert(all[3] == Step::Attach(Hook::SchedProcessExit));
    assert(all[4] == Step::AttachCreds);
    assert(all[5] == Step::Take(MapName::CpuNs));
    assert(all[6] == Step::Take(MapName::IowaitNs));
    assert(all[7] == Step::Take(MapName::CommMap));
    assert(all[8] == Step::Take(MapName::Exits));
    assert(all[9] == Step::Take(MapName::StartTime));
    assert(all[10] == Step::Take(MapName::CurrentTgid));
    assert(all[11] == Step::Capacity);
}

/// What went well is proceeded from, and what did not is never passed over in silence:
/// the credential hook is warned of, anything else is given up on.
pub proof fn a_failure_is_never_silent(step: Step, outcome: Outcome)
    ensures
        verdict(step, outcome) == Verdict::Proceed <==> outcome == Outcome::Done,
        verdict(step, outcome) == Verdict::Warn <==> outcome != Outcome::Done && step
            == Step::AttachCreds,
{
}

/// A counter map may be of either per-CPU kind and of no other, and must be there.
pub proof fn either_per_cpu_map_will_do(found: Option<MapKind>)
    ensures
        taken(found) == Outcome::Done <==> found == Some(MapKind::PerCpuHash) || found == Some(
            MapKind::LruPerCpuHash,
        ),
        taken(None) == Outcome::Missing,
        taken(Some(MapKind::Other)) == Outcome::WrongKind,
{
}

/// A tracepoint that cannot be attached, or a map that is not there, is reported by its
/// name.
pub proof fn a_failure_is_reported_by_name(hook: Hook, map: MapName, outcome: Outcome)
    ensures
        outcome == Outcome::Missing || outcome == Outcome::LoadFailed || outcome
            == Outcome::AttachFailed ==> context(Step::Attach(hook), outcome) is Some
            && text::occurs(context(Step::Attach(hook), outcome)->0, hook.name()),
        context(Step::Take(map), Outcome::Missing) is Some && text::begins(
            context(Step::Take(map), Outcome::Missing)->0,
            map.name(),
        ),
{
    let name = hook.name();
    text::what_is_put_in_is_found("program `"@, name, "` not found in object"@);
    text::what_is_put_in_is_found("loading `"@, name, "`"@);
    text::what_is_put_in_is_found("attaching `"@, name, "`"@);
    text::a_text_begins_with_its_front(map.name(), " map not found"@, map.name());
    reveal_strlit("COMM_MAP");
    reveal_strlit("COMM_MAP not found");
    assert("COMM_MAP not found"@.take(8) =~= "COMM_MAP"@);
}

/// The steps come one after the other: each once that before it is behind the setup, the
/// credential hook whether or not it could be attached, and none after the last.
pub proof fn steps_come_one_after_the_other(done: nat, outcome: Outcome)
    requires
        done < 12,
    ensures
        step_after(done) is Some,
        step_after(12) is None,
        outcome == Outcome::Done ==> moved_on(done, outcome) == done + 1,
        step_after(done) == Some(Step::AttachCreds) ==> moved_on(done, outcome) == done + 1,
        outcome != Outcome::Done && step_after(done) != Some(Step::AttachCreds) ==> moved_on(
            done,
            outcome,
        ) == done,
        step_after(0) == Some(Step::Attach(Hook::SchedSwitch)),
        step_after(11) == Some(Step::Capacity),
{
}

/// Every tracepoint goes by the kernel's name for it, and every map by the one its
/// programs know it by.
pub proof fn everything_goes_by_its_name()
    ensures
        Hook::SchedSwitch.name() == "sched_switch"@,
        Hook::SchedProcessExec.name() == "sched_process_exec"@,
        Hook::SchedProcessFork.name() == "sched_process_fork"@,
        Hook::SchedProcessExit.name() == "sched_process_exit"@,
        MapName::CpuNs.name() == "CPU_NS"@,
        MapName::IowaitNs.name() == "IOWAIT_NS"@,
        MapName::CommMap.name() == "COMM_MAP"@,
        MapName::Exits.name() == "EXITS"@,
        MapName::StartTime.name() == "START_TIME"@,
        MapName::CurrentTgid.name() == "CURRENT_TGID"@,
{
}

/// The warning ends with what went wrong.
pub proof fn the_warning_says_what_went_wrong(error: Seq<char>)
    ensures
        text::occurs(warning(error), error),
        text::begins(warning(error), "credential changes"@),
{
    let none = Seq::<char>::empty();
    let front = "credential changes will go unnoticed: "@;
    text::what_is_put_in_is_found(front, error, none);
    assert(front + error + none =~= front + error);
    reveal_strlit("credential changes will go unnoticed: ");
    reveal_strlit("credential changes");
    assert((front + error).take(18) =~= "credential changes"@);
}

} // verus!
