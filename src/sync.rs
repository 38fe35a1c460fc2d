use vstd::prelude::*;
use crate::state::{opt_view, GitStack, StackModel};

verus! {

/// How a branch is published after it was rebased.
pub enum PublishDecision {
    /// The remote already holds the local tip: nothing is sent.
    UpToDate,
    /// The remote has no such branch: push it and set the upstream.
    Create,
    /// The remote holds another tip: force-push, but only over `expected`,
    /// the remote tip that was last seen.
    ForceWithLease { expected: String },
}

/// What safe publishing decides for a branch whose local tip is `local` and
/// whose remote-tracking tip is `remote` (`None`: no remote branch).
pub open spec fn decides(local: Seq<char>, remote: Option<Seq<char>>, d: PublishDecision) -> bool {
    match remote {
        None => d is Create,
        Some(t) => if t == local {
            d is UpToDate
        } else {
            d matches PublishDecision::ForceWithLease { expected } && expected@ == t
        },
    }
}

/// Safe publishing: compares the local tip of a branch with its
/// remote-tracking tip (`None` when the remote has no such branch).
pub fn publish_decision(local: &String, remote: &Option<String>) -> (r: PublishDecision)
    ensures
        decides(local@, opt_view(*remote), r),
{
    match remote {
        None => PublishDecision::Create,
        Some(t) => {
            if *t == *local {
                PublishDecision::UpToDate
            } else {
                PublishDecision::ForceWithLease { expected: t.clone() }
            }
        },
    }
}

/// A push guarded by a lease on `expected` is taken by the remote exactly when
/// the remote still holds `expected`.
pub open spec fn lease_accepts(expected: Seq<char>, remote_now: Seq<char>) -> bool {
    expected == remote_now
}

/// Safe publishing never pushes, let alone force-pushes, when the local and
/// remote tips are equal; when they differ it force-pushes with a lease on
/// the remote tip it saw, which the remote takes when nobody pushed in
/// between.
pub proof fn lemma_safe_publish(local: Seq<char>, remote: Seq<char>, d: PublishDecision)
    requires
        decides(local, Some(remote), d),
    ensures
        remote == local ==> d is UpToDate,
        remote != local ==> (d matches PublishDecision::ForceWithLease { expected }
            && lease_accepts(expected@, remote)),
{
}

/// Why a sync stopped.
#[derive(Debug, Clone, Copy, PartialEq, Eq, Structural)]
pub enum SyncError {
    /// Rebasing the branch at this index failed (a conflict): the repository
    /// is left as the rebase left it.
    RebaseFailed { index: usize },
    /// The tips of the branch at this index could not be read.
    TipsUnreadable { index: usize },
    /// The remote refused the push of the branch at this index.
    PublishRejected { index: usize },
    /// The branch that was checked out at the start could not be restored.
    RestoreFailed,
}

/// Where a sync stands.
#[derive(Debug, Clone, Copy, PartialEq, Eq, Structural)]
pub enum SyncPhase {
    /// Pulling the branch at this index, best effort.
    Pulling(usize),
    /// Rebasing the branch at this index onto the one below it.
    Rebasing(usize),
    /// Reading the local and remote tips of the branch at this index.
    ReadingTips(usize),
    /// Publishing the branch at this index.
    Pushing(usize),
    /// Checking out again the branch of the start.
    Restoring,
    /// Checking out again the branch of the start after a failure.
    RestoringAfter(SyncError),
    /// Every branch is rebased and published.
    Done,
    /// The sync stopped.
    Aborted(SyncError),
}

/// What the program around the library does next for a sync.
pub enum SyncAction {
    /// Check `branch` out and pull it with rebase; a failure is harmless.
    Pull { branch: String },
    /// Check `branch` out and rebase it onto `onto`, moving the refs inside
    /// the rebased range along.
    Rebase { branch: String, onto: String },
    /// Read the local tip of `branch` and its remote-tracking tip.
    ReadTips { branch: String },
    /// Push `branch` and set its upstream; with `lease`, force only over that
    /// remote tip.
    Push { branch: String, lease: Option<String> },
    /// Check `branch` out.
    Restore { branch: String },
    /// The sync is over.
    Finished,
    /// The sync failed.
    Failed { error: SyncError },
}

/// What came of the last action.
pub enum SyncEvent {
    Succeeded,
    Failed,
    /// The local tip and the remote-tracking tip (`None`: no remote branch).
    Tips { local: String, remote: Option<String> },
}

/// One sync of a stack: every branch pulled, then rebased onto its
/// predecessor and published, bottom first, and the checkout of the start
/// restored.
pub struct SyncRun {
    pub branches: Vec<String>,
    pub base: String,
    pub origin: String,
    pub phase: SyncPhase,
    pub lease: Option<String>,
}

/// What a branch at index `i` is rebased onto: the branch below it, or the
/// base for the bottom one.
pub open spec fn onto_of(st: StackModel, i: int) -> Seq<char> {
    if i == 0 {
        st.base
    } else {
        st.branches[i - 1]
    }
}

/// The phase after branch `i` is done, of `n`.
pub open spec fn after_branch(i: usize, n: nat) -> SyncPhase {
    if i + 1 < n {
        SyncPhase::Rebasing((i + 1) as usize)
    } else {
        SyncPhase::Restoring
    }
}

/// The phase that follows `p` on event `e`, for a stack of `n` branches.
pub open spec fn spec_next(p: SyncPhase, n: nat, e: SyncEvent) -> SyncPhase {
    match p {
        SyncPhase::Pulling(i) => if i + 1 < n {
            SyncPhase::Pulling((i + 1) as usize)
        } else {
            SyncPhase::Rebasing(0)
        },
        SyncPhase::Rebasing(i) => match e {
            SyncEvent::Succeeded => SyncPhase::ReadingTips(i),
            _ => SyncPhase::Aborted(SyncError::RebaseFailed { index: i }),
        },
        SyncPhase::ReadingTips(i) => match e {
            SyncEvent::Tips { local, remote } => match remote {
                Some(t) => if t@ == local@ {
                    after_branch(i, n)
                } else {
                    SyncPhase::Pushing(i)
                },
                None => SyncPhase::Pushing(i),
            },
            _ => SyncPhase::RestoringAfter(SyncError::TipsUnreadable { index: i }),
        },
        SyncPhase::Pushing(i) => match e {
            SyncEvent::Succeeded => after_branch(i, n),
            _ => SyncPhase::RestoringAfter(SyncError::PublishRejected { index: i }),
        },
        SyncPhase::Restoring => match e {
            SyncEvent::Succeeded => SyncPhase::Done,
            _ => SyncPhase::Aborted(SyncError::RestoreFailed),
        },
        SyncPhase::RestoringAfter(err) => SyncPhase::Aborted(err),
        SyncPhase::Done => SyncPhase::Done,
        SyncPhase::Aborted(err) => SyncPhase::Aborted(err),
    }
}

/// A phase that names a branch names one of the stack.
pub open spec fn phase_in_range(p: SyncPhase, n: nat) -> bool {
    match p {
        SyncPhase::Pulling(i) => i < n,
        SyncPhase::Rebasing(i) => i < n,
        SyncPhase::ReadingTips(i) => i < n,
        SyncPhase::Pushing(i) => i < n,
        _ => true,
    }
}

impl SyncRun {
    pub open spec fn stack_model(&self) -> StackModel {
        StackModel {
            prefix: None,
            base: self.base@,
            branches: crate::state::names_of(self.branches@),
        }
    }

    pub open spec fn wf(&self) -> bool {
        phase_in_range(self.phase, self.branches.len() as nat)
    }

    /// What the action of phase `self.phase` is.
    pub open spec fn action_of(&self, a: SyncAction) -> bool {
        let bs = self.stack_model().branches;
        match self.phase {
            SyncPhase::Pulling(i) => a matches SyncAction::Pull { branch } && branch@ == bs[i as int],
            SyncPhase::Rebasing(i) => a matches SyncAction::Rebase { branch, onto } && branch@
                == bs[i as int] && onto@ == onto_of(self.stack_model(), i as int),
            SyncPhase::ReadingTips(i) => a matches SyncAction::ReadTips { branch } && branch@
                == bs[i as int],
            SyncPhase::Pushing(i) => a matches SyncAction::Push { branch, lease } && branch@
                == bs[i as int] && opt_view(lease) == opt_view(self.lease),
            SyncPhase::Restoring => a matches SyncAction::Restore { branch } && branch@
                == self.origin@,
            SyncPhase::RestoringAfter(_) => a matches SyncAction::Restore { branch } && branch@
                == self.origin@,
            SyncPhase::Done => a is Finished,
            SyncPhase::Aborted(err) => a == SyncAction::Failed { error: err },
        }
    }

    /// A sync of `stack`, which returns to `origin`, the branch checked out
    /// now.
    pub fn new(stack: &GitStack, origin: String) -> (r: SyncRun)
        ensures
            r.wf(),
            r.stack_model().base == stack@.base,
            r.stack_model().branches == stack@.branches,
            r.origin@ == origin@,
            r.lease is None,
            stack.branches.len() > 0 ==> r.phase == SyncPhase::Pulling(0),
            stack.branches.len() == 0 ==> r.phase == SyncPhase::Restoring,
    {
        let mut branches: Vec<String> = Vec::new();
        let mut i: usize = 0;
        while i < stack.branches.len()
            invariant
                i <= stack.branches.len(),
                branches.len() == i,
                forall|k: int| 0 <= k < i ==> #[trigger] branches@[k]@ == stack.branches@[k]@,
            decreases stack.branches.len() - i,
        {
            branches.push(stack.branches[i].clone());
            i = i + 1;
        }
        assert(crate::state::names_of(branches@) =~= stack@.branches);
        let phase = if stack.branches.len() > 0 {
            SyncPhase::Pulling(0)
        } else {
            SyncPhase::Restoring
        };
        SyncRun { branches, base: stack.base_branch.clone(), origin, phase, lease: None }
    }

    /// The action that the current phase asks for.
    pub fn action(&self) -> (a: SyncAction)
        requires
            self.wf(),
        ensures
            self.action_of(a),
    {
        match self.phase {
            SyncPhase::Pulling(i) => SyncAction::Pull { branch: self.branches[i].clone() },
            SyncPhase::Rebasing(i) => {
                let onto = if i == 0 {
                    self.base.clone()
                } else {
                    self.branches[i - 1].clone()
                };
                SyncAction::Rebase { branch: self.branches[i].clone(), onto }
            },
            SyncPhase::ReadingTips(i) => SyncAction::ReadTips { branch: self.branches[i].clone() },
            SyncPhase::Pushing(i) => SyncAction::Push {
                branch: self.branches[i].clone(),
                lease: match &self.lease {
                    Some(t) => Some(t.clone()),
                    None => None,
                },
            },
            SyncPhase::Restoring => SyncAction::Restore { branch: self.origin.clone() },
            SyncPhase::RestoringAfter(_) => SyncAction::Restore { branch: self.origin.clone() },
            SyncPhase::Done => SyncAction::Finished,
            SyncPhase::Aborted(err) => SyncAction::Failed { error: err },
        }
    }

    /// Moves on with what came of the last action.
    pub fn advance(&mut self, event: SyncEvent)
        requires
            old(self).wf(),
        ensures
            final(self).wf(),
            final(self).phase == spec_next(old(self).phase, old(self).branches.len() as nat, event),
            final(self).branches == old(self).branches,
            final(self).base == old(self).base,
            final(self).origin == old(self).origin,
            final(self).phase is Pushing ==> (old(self).phase is Pushing && opt_view(final(self).lease)
                == opt_view(old(self).lease)) || (event matches SyncEvent::Tips { remote, .. }
                && opt_view(final(self).lease) == opt_view(remote)),
    {
        let n = self.branches.len();
        match self.phase {
            SyncPhase::Pulling(i) => {
                self.phase = if i + 1 < n {
                    SyncPhase::Pulling(i + 1)
                } else {
                    SyncPhase::Rebasing(0)
                };
            },
            SyncPhase::Rebasing(i) => {
                self.phase = match event {
                    SyncEvent::Succeeded => SyncPhase::ReadingTips(i),
                    _ => SyncPhase::Aborted(SyncError::RebaseFailed { index: i }),
                };
            },
            SyncPhase::ReadingTips(i) => {
                match event {
                    SyncEvent::Tips { local, remote } => {
                        match publish_decision(&local, &remote) {
                            PublishDecision::UpToDate => {
                                self.phase = if i + 1 < n {
                                    SyncPhase::Rebasing(i + 1)
                                } else {
                                    SyncPhase::Restoring
                                };
                            },
                            _ => {
                                self.lease = remote;
                                self.phase = SyncPhase::Pushing(i);
                            },
                        }
                    },
                    _ => {
                        self.phase = SyncPhase::RestoringAfter(
                            SyncError::TipsUnreadable { index: i },
                        );
                    },
                }
            },
            SyncPhase::Pushing(i) => {
                self.phase = match event {
                    SyncEvent::Succeeded => if i + 1 < n {
                        SyncPhase::Rebasing(i + 1)
                    } else {
                        SyncPhase::Restoring
                    },
                    _ => SyncPhase::RestoringAfter(SyncError::PublishRejected { index: i }),
                };
            },
            SyncPhase::Restoring => {
                self.phase = match event {
                    SyncEvent::Succeeded => SyncPhase::Done,
                    _ => SyncPhase::Aborted(SyncError::RestoreFailed),
                };
            },
            SyncPhase::RestoringAfter(err) => {
                self.phase = SyncPhase::Aborted(err);
            },
            SyncPhase::Done => {},
            SyncPhase::Aborted(_) => {},
        }
    }
}

/// The phase reached from `p` through `events`, first to last.
pub open spec fn phase_after(p: SyncPhase, n: nat, events: Seq<SyncEvent>) -> SyncPhase
    decreases events.len(),
{
    if events.len() == 0 {
        p
    } else {
        phase_after(spec_next(p, n, events[0]), n, events.drop_first())
    }
}

/// Nothing changed since the last publish: the remote holds the local tip.
pub open spec fn tips_in_step(e: SyncEvent) -> bool {
    match e {
        SyncEvent::Tips { local, remote } => match remote {
            Some(t) => t@ == local@,
            None => false,
        },
        _ => true,
    }
}

/// A sync in which every branch's remote tip already equals its local tip, as
/// on a second sync with nothing changed in between, never reaches a push:
/// it sends nothing to the remote.
pub proof fn lemma_sync_without_changes_publishes_nothing(
    p: SyncPhase,
    n: nat,
    events: Seq<SyncEvent>,
)
    requires
        !(p is Pushing),
        forall|k: int| 0 <= k < events.len() ==> tips_in_step(#[trigger] events[k]),
    ensures
        !(phase_after(p, n, events) is Pushing),
    decreases events.len(),
{
    if events.len() > 0 {
        let q = spec_next(p, n, events[0]);
        assert(tips_in_step(events[0]));
        assert(!(q is Pushing));
        assert forall|k: int| 0 <= k < events.drop_first().len() implies tips_in_step(
            #[trigger] events.drop_first()[k],
        ) by {
            assert(events.drop_first()[k] == events[k + 1]);
        }
        lemma_sync_without_changes_publishes_nothing(q, n, events.drop_first());
    }
}

} // verus!
