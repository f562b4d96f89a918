//! Cleanup Executor: walks a removal plan one target at a time, under an
//! optional dry-run mode. Each target is attempted exactly once; a failure
//! on one target is recorded and never stops the remaining targets or the
//! run. The filesystem work itself is the caller's: the executor yields the
//! next action to take and is handed back the outcome.

use vstd::prelude::*;
use crate::resolve::RemovalPlan;

verus! {

/// What the caller reports of one removal attempt.
#[derive(Clone, Copy, Debug, PartialEq, Eq, Structural)]
pub enum Outcome {
    /// The target was disposed of.
    Removed,
    /// The target was already gone: benign, tolerated.
    Missing,
    /// Permission or another filesystem error.
    Failed,
}

/// The next thing to do for one target.
#[derive(Debug)]
pub enum Action {
    /// Dry run: report the path that would be removed; touch nothing.
    Report(String),
    /// Dispose of the path.
    Remove(String),
}

/// Where a run stands.
#[derive(Clone, Copy, Debug, PartialEq, Eq, Structural)]
pub enum Status {
    /// Targets remain.
    Executing,
    /// Every target was attempted; none was reported failing.
    Completed,
    /// Every target was attempted; at least one was reported failing.
    PartiallyFailed,
}

/// An error was reported for the target.
pub open spec fn is_error(o: Outcome) -> bool {
    o is Missing || o is Failed
}

/// The paths of a target list, in order.
pub open spec fn paths_of(targets: Seq<(Seq<char>, Seq<char>)>) -> Seq<Seq<char>> {
    targets.map_values(|t: (Seq<char>, Seq<char>)| t.1)
}

/// The executor's abstract state.
#[verifier::ext_equal]
pub struct ExecState {
    pub targets: Seq<(Seq<char>, Seq<char>)>,
    pub dry_run: bool,
    pub idx: int,
    pub attempted: Seq<Seq<char>>,
    pub failures: Seq<Seq<char>>,
}

/// A fresh run over `targets`.
pub open spec fn init_state(targets: Seq<(Seq<char>, Seq<char>)>, dry_run: bool) -> ExecState {
    ExecState {
        targets: targets,
        dry_run: dry_run,
        idx: 0,
        attempted: Seq::empty(),
        failures: Seq::empty(),
    }
}

/// One attempt recorded: the run advances to the next target whatever the
/// outcome was; an error is noted against the path, nothing more.
pub open spec fn step_state(s: ExecState, o: Outcome) -> ExecState {
    ExecState {
        idx: s.idx + 1,
        attempted: s.attempted.push(s.targets[s.idx].1),
        failures: if is_error(o) {
            s.failures.push(s.targets[s.idx].1)
        } else {
            s.failures
        },
        ..s
    }
}

/// A whole sequence of attempts recorded in order.
pub open spec fn run_state(s: ExecState, os: Seq<Outcome>) -> ExecState
    decreases os.len(),
{
    if os.len() == 0 {
        s
    } else {
        run_state(step_state(s, os[0]), os.drop_first())
    }
}

/// The status a state denotes.
pub open spec fn status_of(s: ExecState) -> Status {
    if s.idx < s.targets.len() {
        Status::Executing
    } else if s.failures.len() == 0 {
        Status::Completed
    } else {
        Status::PartiallyFailed
    }
}

/// Walks one removal plan to completion, attempting each target exactly
/// once.
pub struct CleanupExecutor {
    plan: RemovalPlan,
    dry_run: bool,
    idx: usize,
    attempted: Vec<String>,
    failures: Vec<String>,
}

impl CleanupExecutor {
    /// The abstract state this executor is in.
    pub closed spec fn state(&self) -> ExecState {
        ExecState {
            targets: self.plan@,
            dry_run: self.dry_run,
            idx: self.idx as int,
            attempted: self.attempted@.map_values(|s: String| s@),
            failures: self.failures@.map_values(|s: String| s@),
        }
    }

    pub closed spec fn wf(&self) -> bool {
        self.idx <= self.plan@.len()
    }

    pub fn new(plan: RemovalPlan, dry_run: bool) -> (r: CleanupExecutor)
        ensures
            r.wf(),
            r.state() == init_state(plan@, dry_run),
    {
        let r = CleanupExecutor {
            plan,
            dry_run,
            idx: 0,
            attempted: Vec::new(),
            failures: Vec::new(),
        };
        proof {
            assert(r.state() =~= init_state(r.plan@, dry_run));
        }
        r
    }

    /// Whether every target has been attempted.
    pub fn done(&self) -> (r: bool)
        requires
            self.wf(),
        ensures
            r == (self.state().idx == self.state().targets.len()),
    {
        self.idx == self.plan.len()
    }

    /// The next action to take: under dry run, only a report of the path;
    /// otherwise its removal. `None` once every target has been attempted.
    pub fn next_action(&self) -> (r: Option<Action>)
        requires
            self.wf(),
        ensures
            (r is Some) == (self.state().idx < self.state().targets.len()),
            match r {
                Some(a) => match a {
                    Action::Report(p) => self.state().dry_run
                        && p@ == self.state().targets[self.state().idx].1,
                    Action::Remove(p) => !self.state().dry_run
                        && p@ == self.state().targets[self.state().idx].1,
                },
                None => true,
            },
    {
        if self.idx < self.plan.len() {
            let t = self.plan.target_at(self.idx);
            let path = t.1.clone();
            if self.dry_run {
                Some(Action::Report(path))
            } else {
                Some(Action::Remove(path))
            }
        } else {
            None
        }
    }

    /// Records the outcome of the current target's attempt and moves to the
    /// next target. The run advances whatever the outcome was: an error is
    /// per-file, never fatal.
    pub fn record(&mut self, outcome: Outcome)
        requires
            old(self).wf(),
            old(self).state().idx < old(self).state().targets.len(),
        ensures
            final(self).wf(),
            final(self).state() == step_state(old(self).state(), outcome),
    {
        let n = self.plan.len();
        assert(self.idx < n);
        let path = self.plan.target_at(self.idx).1.clone();
        let ghost a0 = self.attempted@.map_values(|s: String| s@);
        let ghost f0 = self.failures@.map_values(|s: String| s@);
        match outcome {
            Outcome::Removed => {},
            Outcome::Missing | Outcome::Failed => {
                let p2 = path.clone();
                self.failures.push(p2);
            },
        }
        self.attempted.push(path);
        self.idx = self.idx + 1;
        proof {
            assert(self.attempted@.map_values(|s: String| s@)
                =~= a0.push(old(self).state().targets[old(self).state().idx].1));
            if is_error(outcome) {
                assert(self.failures@.map_values(|s: String| s@)
                    =~= f0.push(old(self).state().targets[old(self).state().idx].1));
            } else {
                assert(self.failures@.map_values(|s: String| s@) =~= f0);
            }
            assert(self.state() =~= step_state(old(self).state(), outcome));
        }
    }

    /// Where the run stands: still executing, completed clean, or completed
    /// with per-file failures.
    pub fn status(&self) -> (r: Status)
        requires
            self.wf(),
        ensures
            r == status_of(self.state()),
    {
        if self.idx < self.plan.len() {
            Status::Executing
        } else if self.failures.len() == 0 {
            Status::Completed
        } else {
            Status::PartiallyFailed
        }
    }

    pub fn failure_count(&self) -> (r: usize)
        ensures
            r == self.state().failures.len(),
    {
        self.failures.len()
    }

    /// The path of the `i`th recorded failure.
    pub fn failure_at(&self, i: usize) -> (r: &String)
        requires
            i < self.state().failures.len(),
        ensures
            r@ == self.state().failures[i as int],
    {
        &self.failures[i]
    }
}

proof fn lemma_run_segment(s: ExecState, os: Seq<Outcome>)
    requires
        0 <= s.idx,
        s.idx + os.len() <= s.targets.len(),
    ensures
        run_state(s, os).targets == s.targets,
        run_state(s, os).dry_run == s.dry_run,
        run_state(s, os).idx == s.idx + os.len(),
        run_state(s, os).attempted == s.attempted + paths_of(
            s.targets.subrange(s.idx, s.idx + os.len()),
        ),
        run_state(s, os).failures.len() >= s.failures.len(),
    decreases os.len(),
{
    if os.len() == 0 {
        assert(s.targets.subrange(s.idx, s.idx) =~= Seq::empty());
        assert(s.attempted + paths_of(Seq::empty()) =~= s.attempted);
    } else {
        let s1 = step_state(s, os[0]);
        lemma_run_segment(s1, os.drop_first());
        let seg = s.targets.subrange(s.idx, s.idx + os.len());
        let seg1 = s.targets.subrange(s.idx + 1, s.idx + os.len());
        assert(paths_of(seg) =~= seq![s.targets[s.idx].1] + paths_of(seg1));
        assert(s1.attempted + paths_of(seg1) =~= s.attempted + paths_of(seg));
    }
}

proof fn lemma_run_all_missing_failures(s: ExecState, os: Seq<Outcome>)
    requires
        0 <= s.idx,
        s.idx + os.len() <= s.targets.len(),
        forall|i: int| 0 <= i < os.len() ==> os[i] is Missing,
    ensures
        run_state(s, os).failures == s.failures + paths_of(
            s.targets.subrange(s.idx, s.idx + os.len()),
        ),
    decreases os.len(),
{
    if os.len() == 0 {
        assert(s.targets.subrange(s.idx, s.idx) =~= Seq::empty());
        assert(s.failures + paths_of(Seq::empty()) =~= s.failures);
    } else {
        let s1 = step_state(s, os[0]);
        assert(forall|i: int| 0 <= i < os.drop_first().len() ==> os.drop_first()[i] is Missing);
        lemma_run_all_missing_failures(s1, os.drop_first());
        let seg = s.targets.subrange(s.idx, s.idx + os.len());
        let seg1 = s.targets.subrange(s.idx + 1, s.idx + os.len());
        assert(paths_of(seg) =~= seq![s.targets[s.idx].1] + paths_of(seg1));
        assert(s1.failures + paths_of(seg1) =~= s.failures + paths_of(seg));
    }
}

/// Dry-run mode is a property of the whole run: no sequence of recorded
/// outcomes ever changes it, so by `next_action`'s contract a dry executor
/// only ever reports paths and never asks for a removal.
pub proof fn lemma_dry_run_stays_dry(s: ExecState, os: Seq<Outcome>)
    ensures
        run_state(s, os).dry_run == s.dry_run,
    decreases os.len(),
{
    if os.len() > 0 {
        lemma_dry_run_stays_dry(step_state(s, os[0]), os.drop_first());
    }
}

/// Per-file failure isolation: however the outcomes fall — any of them may
/// be a failure — a full run over a plan attempts every target, in order,
/// exactly once, and ends in a terminal state.
pub proof fn lemma_every_target_attempted(
    targets: Seq<(Seq<char>, Seq<char>)>,
    dry_run: bool,
    os: Seq<Outcome>,
)
    requires
        os.len() == targets.len(),
    ensures
        run_state(init_state(targets, dry_run), os).idx == targets.len(),
        run_state(init_state(targets, dry_run), os).attempted == paths_of(targets),
        status_of(run_state(init_state(targets, dry_run), os)) != Status::Executing,
{
    lemma_run_segment(init_state(targets, dry_run), os);
    assert(targets.subrange(0, targets.len() as int) =~= targets);
    assert(Seq::<Seq<char>>::empty() + paths_of(targets) =~= paths_of(targets));
}

/// Missing targets are tolerated: a second run over the same plan, in which
/// every target is already gone (every outcome `Missing`), still attempts
/// every path and ends in a terminal state; each missing file is noted
/// per-file, none is fatal.
pub proof fn lemma_second_run_tolerates_missing(
    targets: Seq<(Seq<char>, Seq<char>)>,
    dry_run: bool,
    os: Seq<Outcome>,
)
    requires
        os.len() == targets.len(),
        forall|i: int| 0 <= i < os.len() ==> os[i] is Missing,
    ensures
        run_state(init_state(targets, dry_run), os).idx == targets.len(),
        run_state(init_state(targets, dry_run), os).attempted == paths_of(targets),
        run_state(init_state(targets, dry_run), os).failures == paths_of(targets),
        status_of(run_state(init_state(targets, dry_run), os)) != Status::Executing,
{
    lemma_every_target_attempted(targets, dry_run, os);
    lemma_run_all_missing_failures(init_state(targets, dry_run), os);
    assert(targets.subrange(0, targets.len() as int) =~= targets);
    assert(Seq::<Seq<char>>::empty() + paths_of(targets) =~= paths_of(targets));
}

} // verus!
