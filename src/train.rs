use vstd::prelude::*;
use crate::state::{opt_view, registry_wf, spec_remove, without, StackModel, lemma_remove_checkout, lemma_remove_keeps_wf};

verus! {

/// One step of the merge train, as a mathematical value.
pub ghost enum TrainStep {
    /// Point the pull request at the base branch.
    Retarget { pull: u64, base: Seq<char> },
    /// Sync the whole stack again.
    Sync,
    /// Merge the pull request.
    Merge { pull: u64 },
    /// Wait for the provider to finish the merge.
    Settle,
    /// Drop the merged branch from the registry (nothing when its branch is
    /// not known).
    Retire { branch: Option<Seq<char>> },
}

/// Which of the five steps of a pull request failed.
#[derive(Debug, Clone, Copy, PartialEq, Eq, Structural)]
pub enum TrainPhase {
    Retarget,
    Sync,
    Merge,
    Settle,
    Retire,
}

/// Why a merge train stopped: the step and the pull request it was on. The
/// branches retired before it stay retired.
#[derive(Debug, Clone, Copy, PartialEq, Eq, Structural)]
pub struct TrainError {
    pub phase: TrainPhase,
    pub pull: u64,
}

/// What the program around the library does next for a merge train.
pub enum TrainAction {
    Retarget { pull: u64, base: String },
    Sync,
    Merge { pull: u64 },
    Settle,
    Retire { branch: Option<String> },
    Finished,
    Stopped { error: TrainError },
}

/// What came of the last action.
#[derive(Debug, Clone, Copy, PartialEq, Eq, Structural)]
pub enum TrainEvent {
    Succeeded,
    Failed,
}

/// The step at position `p` of a train over `pulls`, bottom first, whose
/// branches are `branches`: five steps for each pull request.
pub open spec fn train_step_at(
    pulls: Seq<u64>,
    branches: Seq<Option<Seq<char>>>,
    base: Seq<char>,
    p: int,
) -> TrainStep {
    let k = p / 5;
    let j = p % 5;
    if j == 0 {
        TrainStep::Retarget { pull: pulls[k], base }
    } else if j == 1 {
        TrainStep::Sync
    } else if j == 2 {
        TrainStep::Merge { pull: pulls[k] }
    } else if j == 3 {
        TrainStep::Settle
    } else {
        TrainStep::Retire { branch: branches[k] }
    }
}

/// Which of the five steps of a pull request stands at `j`.
pub open spec fn phase_at(j: int) -> TrainPhase {
    if j == 0 {
        TrainPhase::Retarget
    } else if j == 1 {
        TrainPhase::Sync
    } else if j == 2 {
        TrainPhase::Merge
    } else if j == 3 {
        TrainPhase::Settle
    } else {
        TrainPhase::Retire
    }
}

/// Every step of a train that meets no failure, in order.
pub open spec fn train_steps(
    pulls: Seq<u64>,
    branches: Seq<Option<Seq<char>>>,
    base: Seq<char>,
) -> Seq<TrainStep> {
    Seq::new(5 * pulls.len(), |p: int| train_step_at(pulls, branches, base, p))
}

/// The step that an action stands for, if it is one.
pub open spec fn step_of(a: TrainAction) -> Option<TrainStep> {
    match a {
        TrainAction::Retarget { pull, base } => Some(TrainStep::Retarget { pull, base: base@ }),
        TrainAction::Sync => Some(TrainStep::Sync),
        TrainAction::Merge { pull } => Some(TrainStep::Merge { pull }),
        TrainAction::Settle => Some(TrainStep::Settle),
        TrainAction::Retire { branch } => Some(TrainStep::Retire { branch: opt_view(branch) }),
        _ => None,
    }
}

pub open spec fn opt_names(v: Seq<Option<String>>) -> Seq<Option<Seq<char>>> {
    v.map_values(|b: Option<String>| opt_view(b))
}

/// A merge train: the pull requests of a stack, bottom first, each with the
/// branch it stands for, retired one by one into the base branch.
pub struct MergeTrain {
    pub base: String,
    pub pulls: Vec<u64>,
    pub branches: Vec<Option<String>>,
    pub pos: usize,
    pub stopped: Option<TrainError>,
}

impl MergeTrain {
    pub open spec fn wf(&self) -> bool {
        &&& self.pulls.len() == self.branches.len()
        &&& self.pos <= 5 * self.pulls.len()
        &&& 5 * self.pulls.len() <= usize::MAX
    }

    pub open spec fn steps(&self) -> Seq<TrainStep> {
        train_steps(self.pulls@, opt_names(self.branches@), self.base@)
    }

    /// A train over `pulls`, bottom first, where `branches[k]` is the branch
    /// of `pulls[k]` when it is known, into `base`.
    pub fn new(base: String, pulls: Vec<u64>, branches: Vec<Option<String>>) -> (r: MergeTrain)
        requires
            pulls.len() == branches.len(),
            5 * pulls.len() <= usize::MAX,
        ensures
            r.wf(),
            r.pos == 0,
            r.stopped is None,
            r.base@ == base@,
            r.pulls@ == pulls@,
            opt_names(r.branches@) == opt_names(branches@),
    {
        MergeTrain { base, pulls, branches, pos: 0, stopped: None }
    }

    /// The action for the current position: the step there, `Finished` after
    /// the last one, or `Stopped` after a failure.
    pub fn action(&self) -> (a: TrainAction)
        requires
            self.wf(),
        ensures
            self.stopped matches Some(e) ==> a == (TrainAction::Stopped { error: e }),
            self.stopped is None && self.pos == 5 * self.pulls.len() ==> a is Finished,
            self.stopped is None && self.pos < 5 * self.pulls.len() ==> step_of(a) == Some(
                self.steps()[self.pos as int],
            ),
    {
        if let Some(e) = self.stopped {
            return TrainAction::Stopped { error: e };
        }
        if self.pos == 5 * self.pulls.len() {
            return TrainAction::Finished;
        }
        let k = self.pos / 5;
        let j = self.pos % 5;
        assert(k < self.pulls.len()) by (nonlinear_arith)
            requires
                k == self.pos / 5,
                self.pos < 5 * self.pulls.len(),
        ;
        if j == 0 {
            TrainAction::Retarget { pull: self.pulls[k], base: self.base.clone() }
        } else if j == 1 {
            TrainAction::Sync
        } else if j == 2 {
            TrainAction::Merge { pull: self.pulls[k] }
        } else if j == 3 {
            TrainAction::Settle
        } else {
            let branch = match &self.branches[k] {
                Some(b) => Some(b.clone()),
                None => None,
            };
            TrainAction::Retire { branch }
        }
    }

    /// Moves on: to the next step on success; a failure stops the train at
    /// the step it was on.
    pub fn advance(&mut self, event: TrainEvent)
        requires
            old(self).wf(),
        ensures
            final(self).wf(),
            final(self).base == old(self).base,
            final(self).pulls == old(self).pulls,
            final(self).branches == old(self).branches,
            old(self).stopped is Some || old(self).pos == 5 * old(self).pulls.len()
                ==> final(self).pos == old(self).pos && final(self).stopped == old(self).stopped,
            old(self).stopped is None && old(self).pos < 5 * old(self).pulls.len()
                && event == TrainEvent::Succeeded
                ==> final(self).pos == old(self).pos + 1 && final(self).stopped == None::<TrainError>,
            old(self).stopped is None && old(self).pos < 5 * old(self).pulls.len()
                && event == TrainEvent::Failed
                ==> final(self).pos == old(self).pos && final(self).stopped == Some(
                TrainError {
                    phase: phase_at(old(self).pos as int % 5),
                    pull: old(self).pulls@[old(self).pos as int / 5],
                },
            ),
    {
        if self.stopped.is_some() || self.pos == 5 * self.pulls.len() {
            return;
        }
        match event {
            TrainEvent::Succeeded => {
                self.pos = self.pos + 1;
            },
            TrainEvent::Failed => {
                let k = self.pos / 5;
                let j = self.pos % 5;
                assert(k < self.pulls.len()) by (nonlinear_arith)
                    requires
                        k == self.pos / 5,
                        self.pos < 5 * self.pulls.len(),
                ;
                let phase = if j == 0 {
                    TrainPhase::Retarget
                } else if j == 1 {
                    TrainPhase::Sync
                } else if j == 2 {
                    TrainPhase::Merge
                } else if j == 3 {
                    TrainPhase::Settle
                } else {
                    TrainPhase::Retire
                };
                self.stopped = Some(TrainError { phase, pull: self.pulls[k] });
            },
        }
    }
}

/// The registry after `bs` are dropped, first to last.
pub open spec fn remove_all(reg: Seq<StackModel>, bs: Seq<Seq<char>>) -> Seq<StackModel>
    decreases bs.len(),
{
    if bs.len() == 0 {
        reg
    } else {
        remove_all(spec_remove(reg, bs[0]), bs.drop_first())
    }
}

/// Retiring every branch of a stack, bottom first, takes the stack out of
/// the registry and leaves the other stacks as they were.
pub proof fn lemma_retire_whole_stack(reg: Seq<StackModel>, s: int)
    requires
        registry_wf(reg),
        0 <= s < reg.len(),
    ensures
        remove_all(reg, reg[s].branches) == reg.remove(s),
    decreases reg[s].branches.len(),
{
    let bs = reg[s].branches;
    lemma_remove_checkout(reg, s, 0);
    if bs.len() == 1 {
        assert(bs.drop_first().len() == 0);
        assert(remove_all(spec_remove(reg, bs[0]), bs.drop_first()) == spec_remove(reg, bs[0]));
    } else {
        let r2 = spec_remove(reg, bs[0]);
        lemma_remove_keeps_wf(reg, bs[0]);
        crate::state::lemma_resolve_unique(reg, s, 0, bs[0]);
        assert(r2 == reg.update(s, without(reg[s], 0)));
        assert(r2[s].branches == bs.drop_first());
        lemma_retire_whole_stack(r2, s);
        assert(r2.remove(s) =~= reg.remove(s));
        assert(remove_all(reg, bs) == remove_all(r2, bs.drop_first()));
    }
}

/// A train in which every step succeeds visits, for each pull request in
/// order, the retargeting onto the base, a sync, the merge, the wait and the
/// retirement of its branch: every request is retargeted before it is merged,
/// and merged after every request below it.
pub proof fn lemma_train_order(
    pulls: Seq<u64>,
    branches: Seq<Option<Seq<char>>>,
    base: Seq<char>,
    k: int,
)
    requires
        0 <= k < pulls.len(),
    ensures
        train_steps(pulls, branches, base)[5 * k] == (TrainStep::Retarget { pull: pulls[k], base }),
        train_steps(pulls, branches, base)[5 * k + 1] == TrainStep::Sync,
        train_steps(pulls, branches, base)[5 * k + 2] == (TrainStep::Merge { pull: pulls[k] }),
        train_steps(pulls, branches, base)[5 * k + 3] == TrainStep::Settle,
        train_steps(pulls, branches, base)[5 * k + 4] == (TrainStep::Retire { branch: branches[k] }),
        5 * k + 4 < train_steps(pulls, branches, base).len(),
{
    assert((5 * k) / 5 == k && (5 * k) % 5 == 0) by (nonlinear_arith);
    assert((5 * k + 1) / 5 == k && (5 * k + 1) % 5 == 1) by (nonlinear_arith);
    assert((5 * k + 2) / 5 == k && (5 * k + 2) % 5 == 2) by (nonlinear_arith);
    assert((5 * k + 3) / 5 == k && (5 * k + 3) % 5 == 3) by (nonlinear_arith);
    assert((5 * k + 4) / 5 == k && (5 * k + 4) % 5 == 4) by (nonlinear_arith);
    assert(5 * k + 4 < 5 * pulls.len()) by (nonlinear_arith)
        requires
            k < pulls.len(),
    ;
}

/// The steps of a train of three pull requests `p` whose branches are `bs`,
/// one after the other.
pub open spec fn steps_of_three(p: Seq<u64>, bs: Seq<Seq<char>>, base: Seq<char>) -> Seq<TrainStep> {
    seq![
        TrainStep::Retarget { pull: p[0], base },
        TrainStep::Sync,
        TrainStep::Merge { pull: p[0] },
        TrainStep::Settle,
        TrainStep::Retire { branch: Some(bs[0]) },
        TrainStep::Retarget { pull: p[1], base },
        TrainStep::Sync,
        TrainStep::Merge { pull: p[1] },
        TrainStep::Settle,
        TrainStep::Retire { branch: Some(bs[1]) },
        TrainStep::Retarget { pull: p[2], base },
        TrainStep::Sync,
        TrainStep::Merge { pull: p[2] },
        TrainStep::Settle,
        TrainStep::Retire { branch: Some(bs[2]) },
    ]
}

/// A stack `[a, b, c]` over `base` with three open pull requests: a train
/// with no failure retargets each request onto `base` and merges it, in the
/// order a, b, c, retires a, b and c, and the stack leaves the registry.
pub proof fn lemma_train_of_three(
    reg: Seq<StackModel>,
    s: int,
    p: Seq<u64>,
    base: Seq<char>,
)
    requires
        registry_wf(reg),
        0 <= s < reg.len(),
        reg[s].branches.len() == 3,
        reg[s].base == base,
        p.len() == 3,
    ensures
        train_steps(p, seq![Some(reg[s].branches[0]), Some(reg[s].branches[1]), Some(reg[s].branches[2])], base)
            == steps_of_three(p, reg[s].branches, base),
        remove_all(reg, reg[s].branches) == reg.remove(s),
{
    let bs = reg[s].branches;
    let branches = seq![Some(bs[0]), Some(bs[1]), Some(bs[2])];
    lemma_train_order(p, branches, base, 0);
    lemma_train_order(p, branches, base, 1);
    lemma_train_order(p, branches, base, 2);
    assert(train_steps(p, branches, base) =~= seq![
        TrainStep::Retarget { pull: p[0], base },
        TrainStep::Sync,
        TrainStep::Merge { pull: p[0] },
        TrainStep::Settle,
        TrainStep::Retire { branch: Some(bs[0]) },
        TrainStep::Retarget { pull: p[1], base },
        TrainStep::Sync,
        TrainStep::Merge { pull: p[1] },
        TrainStep::Settle,
        TrainStep::Retire { branch: Some(bs[1]) },
        TrainStep::Retarget { pull: p[2], base },
        TrainStep::Sync,
        TrainStep::Merge { pull: p[2] },
        TrainStep::Settle,
        TrainStep::Retire { branch: Some(bs[2]) },
    ]);
    lemma_retire_whole_stack(reg, s);
}

/// A train over distinct pull requests asks for each merge once: two merge
/// steps of the same pull request are one step.
pub proof fn lemma_train_merges_once(
    pulls: Seq<u64>,
    branches: Seq<Option<Seq<char>>>,
    base: Seq<char>,
    p1: int,
    p2: int,
)
    requires
        pulls.no_duplicates(),
        0 <= p1 < train_steps(pulls, branches, base).len(),
        0 <= p2 < train_steps(pulls, branches, base).len(),
        train_steps(pulls, branches, base)[p1] is Merge,
        train_steps(pulls, branches, base)[p1] == train_steps(pulls, branches, base)[p2],
    ensures
        p1 == p2,
{
    let k1 = p1 / 5;
    let k2 = p2 / 5;
    assert(p1 == 5 * k1 + p1 % 5 && 0 <= p1 % 5 < 5 && 0 <= k1) by (nonlinear_arith)
        requires
            k1 == p1 / 5,
            0 <= p1,
    ;
    assert(p2 == 5 * k2 + p2 % 5 && 0 <= p2 % 5 < 5 && 0 <= k2) by (nonlinear_arith)
        requires
            k2 == p2 / 5,
            0 <= p2,
    ;
    assert(k1 < pulls.len() && k2 < pulls.len()) by (nonlinear_arith)
        requires
            p1 == 5 * k1 + p1 % 5,
            p2 == 5 * k2 + p2 % 5,
            0 <= p1 % 5 < 5,
            0 <= p2 % 5 < 5,
            p1 < 5 * pulls.len(),
            p2 < 5 * pulls.len(),
    ;
    assert(pulls[k1] == pulls[k2]);
}

} // verus!
