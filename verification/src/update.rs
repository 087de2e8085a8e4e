//! Bringing existing pull requests up to date.

use crate::commits::{commit_at, commit_count};
use crate::forge::{base_branch, statuses_view, GitHubForge};
use crate::formatter::{create_pr_body_for_oid, pr_body};
use crate::types::{
    CommitStatus, CommitStatusView, NonZeroOid, StackStateView, SubmitStatus,
};
use std::collections::BTreeMap;
use vstd::prelude::*;

verus! {

/// Why nothing more can be done for a commit.
#[derive(Clone, Copy, Debug, PartialEq, Eq, Structural)]
pub enum SkipReason {
    /// The base of the pull request is a commit that has no branch.
    UnknownBase,

    /// The change has no pull request number.
    MissingNumber,
}

/// One step of an update.
#[derive(Debug)]
pub enum UpdateAction {
    /// Push the branch of a commit to the remote.
    Push { oid: NonZeroOid, commit_status: CommitStatus },

    /// Update the specified pull request's title, body, and base ref.
    UpdatePullRequest {
        oid: NonZeroOid,
        pr_number: usize,
        base_ref_name: String,
        title: String,
        body: String,
    },

    /// The pull request of a commit cannot be updated.
    Skip { oid: NonZeroOid, reason: SkipReason },

    /// One more commit is done.
    Progress,
}

/// What an [`UpdateAction`] says, with each text as its characters.
pub enum UpdateActionView {
    Push { oid: NonZeroOid, commit_status: CommitStatusView },
    UpdatePullRequest {
        oid: NonZeroOid,
        pr_number: usize,
        base_ref_name: Seq<char>,
        title: Seq<char>,
        body: Seq<char>,
    },
    Skip { oid: NonZeroOid, reason: SkipReason },
    Progress,
}

impl View for UpdateAction {
    type V = UpdateActionView;

    open spec fn view(&self) -> UpdateActionView {
        match self {
            UpdateAction::Push { oid, commit_status } => UpdateActionView::Push {
                oid: *oid,
                commit_status: commit_status@,
            },
            UpdateAction::UpdatePullRequest { oid, pr_number, base_ref_name, title, body } =>
            UpdateActionView::UpdatePullRequest {
                oid: *oid,
                pr_number: *pr_number,
                base_ref_name: base_ref_name@,
                title: title@,
                body: body@,
            },
            UpdateAction::Skip { oid, reason } => UpdateActionView::Skip {
                oid: *oid,
                reason: *reason,
            },
            UpdateAction::Progress => UpdateActionView::Progress,
        }
    }
}

/// What actions say, in their order.
pub open spec fn actions_view(actions: Seq<UpdateAction>) -> Seq<UpdateActionView> {
    Seq::new(actions.len(), |i: int| actions[i]@)
}

/// Whether an update passes over a commit: unless it is among the requested commits and needs an
/// update.
pub open spec fn passed_over(requested: Map<NonZeroOid, CommitStatusView>, oid: NonZeroOid) -> bool {
    !(requested.contains_key(oid) && requested[oid].submit_status == SubmitStatus::NeedsUpdate)
}

/// What is done to the pull request of the commit at index `i`.
pub open spec fn pull_request_actions(state: StackStateView, expand_details: bool, i: int) -> Seq<
    UpdateActionView,
> {
    let (oid, change) = state.commits[i];
    if !change.should_update_pr {
        seq![UpdateActionView::Progress]
    } else {
        match (
            base_branch(state.oids_to_branchless_refs, change.pr_base),
            change.pr_number,
        ) {
            (None, _) => seq![UpdateActionView::Skip { oid, reason: SkipReason::UnknownBase }],
            (Some(_), None) => seq![
                UpdateActionView::Skip { oid, reason: SkipReason::MissingNumber },
            ],
            (Some(base_ref_name), Some(pr_number)) => seq![
                UpdateActionView::UpdatePullRequest {
                    oid,
                    pr_number,
                    base_ref_name,
                    title: change.title,
                    body: pr_body(state, oid, expand_details),
                },
                UpdateActionView::Progress,
            ],
        }
    }
}

/// What is done for the commit at index `i`: it is pushed if it should be, and then its pull
/// request is updated if it should be.
pub open spec fn commit_actions(
    state: StackStateView,
    requested: Map<NonZeroOid, CommitStatusView>,
    expand_details: bool,
    i: int,
) -> Seq<UpdateActionView> {
    let (oid, change) = state.commits[i];
    let push = if change.should_push {
        seq![UpdateActionView::Push { oid, commit_status: change.commit_status }]
    } else {
        Seq::empty()
    };
    if passed_over(requested, oid) {
        Seq::empty()
    } else {
        push + pull_request_actions(state, expand_details, i)
    }
}

/// What is done for the first `count` commits.
pub open spec fn update_actions(
    state: StackStateView,
    requested: Map<NonZeroOid, CommitStatusView>,
    expand_details: bool,
    count: int,
) -> Seq<UpdateActionView>
    decreases count,
{
    if count <= 0 {
        Seq::empty()
    } else {
        update_actions(state, requested, expand_details, count - 1) + commit_actions(
            state,
            requested,
            expand_details,
            count - 1,
        )
    }
}

impl GitHubForge {
    /// Adds what is done to the pull request of the commit at `index`.
    fn update_pull_request(&self, expand_details: bool, index: usize, actions: &mut Vec<UpdateAction>)
        requires
            index < self.stack_state@.commits.len(),
        ensures
            actions_view(final(actions)@) == actions_view(old(actions)@) + pull_request_actions(
                self.stack_state@,
                expand_details,
                index as int,
            ),
    {
        let ghost before = actions_view(actions@);
        let ghost expected = pull_request_actions(self.stack_state@, expand_details, index as int);
        let (oid, stacked_change) = commit_at(&self.stack_state.commits, index);
        assert(self.stack_state@.commits[index as int] == (*oid, stacked_change@));
        if stacked_change.should_update_pr {
            let base_ref_name = match self.find_base_ref_name(&stacked_change.pr_base) {
                Some(base_ref_name) => base_ref_name,
                None => {
                    actions.push(UpdateAction::Skip { oid: *oid, reason: SkipReason::UnknownBase });
                    assert(actions_view(actions@) =~= before + expected);
                    return;
                },
            };
            let pr_number = match stacked_change.pr_number {
                Some(pr_number) => pr_number,
                None => {
                    actions.push(
                        UpdateAction::Skip { oid: *oid, reason: SkipReason::MissingNumber },
                    );
                    assert(actions_view(actions@) =~= before + expected);
                    return;
                },
            };
            let body = create_pr_body_for_oid(*oid, &self.stack_state, expand_details);
            actions.push(
                UpdateAction::UpdatePullRequest {
                    oid: *oid,
                    pr_number,
                    base_ref_name: base_ref_name.clone(),
                    title: stacked_change.title.clone(),
                    body,
                },
            );
        }
        actions.push(UpdateAction::Progress);
        assert(actions_view(actions@) =~= before + expected);
    }

    /// Decides how the tracked commits are brought up to date, in their topological order.
    ///
    /// An [`UpdateRun`] hands the actions out in their order, up to the first one that fails.
    pub fn update(&self, commits: &BTreeMap<NonZeroOid, CommitStatus>, expand_details: bool) -> (actions:
        Vec<UpdateAction>)
        ensures
            actions_view(actions@) == update_actions(
                self.stack_state@,
                statuses_view(commits@),
                expand_details,
                self.stack_state@.commits.len() as int,
            ),
    {
        let mut actions: Vec<UpdateAction> = Vec::new();
        let count: usize = commit_count(&self.stack_state.commits);
        let mut i: usize = 0;
        let ghost state = self.stack_state@;
        let ghost requested = statuses_view(commits@);
        assert(actions_view(actions@) =~= Seq::<UpdateActionView>::empty());
        while i < count
            invariant
                i <= count,
                count == state.commits.len(),
                state == self.stack_state@,
                requested == statuses_view(commits@),
                actions_view(actions@) == update_actions(
                    state,
                    requested,
                    expand_details,
                    i as int,
                ),
            decreases count - i,
        {
            let (oid, stacked_change) = commit_at(&self.stack_state.commits, i);
            assert(state.commits[i as int] == (*oid, stacked_change@));
            let ghost before = actions_view(actions@);
            let pass = match commits.get(oid) {
                Some(status) => status.submit_status != SubmitStatus::NeedsUpdate,
                None => true,
            };
            if !pass {
                if stacked_change.should_push {
                    actions.push(
                        UpdateAction::Push {
                            oid: *oid,
                            commit_status: stacked_change.commit_status.clone(),
                        },
                    );
                    assert(actions_view(actions@) =~= before + seq![
                        UpdateActionView::Push {
                            oid: *oid,
                            commit_status: stacked_change.commit_status@,
                        },
                    ]);
                }
                self.update_pull_request(expand_details, i, &mut actions);
            }
            assert(actions_view(actions@) =~= before + commit_actions(
                state,
                requested,
                expand_details,
                i as int,
            ));
            i += 1;
        }
        actions
    }
}

/// An update as it is performed: its actions are taken in their order, up to the first one that
/// fails.
#[derive(Debug)]
pub struct UpdateRun {
    /// The actions of the update.
    pub actions: Vec<UpdateAction>,

    /// How many of the actions were handed out.
    pub position: usize,
}

/// What came of the action that was handed out last.
#[derive(Clone, Copy, Debug, PartialEq, Eq, Structural)]
pub enum UpdateEvent {
    /// It succeeded, or there was none yet.
    Continue,

    /// It failed, and this is the exit code to end with.
    Failed(isize),
}

/// What is to be done next.
#[derive(Clone, Copy, Debug, PartialEq, Eq, Structural)]
pub enum UpdateStep {
    /// Take the action at this index.
    Perform(usize),

    /// Every action was taken.
    Finish,

    /// End with an exit code.
    Stop(isize),
}

/// What became of an update.
#[derive(Debug)]
pub struct UpdateOutcome {
    /// The actions that succeeded.
    pub done: Vec<UpdateAction>,

    /// The exit code to end with, if an action failed.
    pub result: Result<(), isize>,
}

/// What an [`UpdateRun`] says.
pub struct UpdateRunView {
    pub actions: Seq<UpdateActionView>,
    pub position: int,
}

impl View for UpdateRun {
    type V = UpdateRunView;

    open spec fn view(&self) -> UpdateRunView {
        UpdateRunView { actions: actions_view(self.actions@), position: self.position as int }
    }
}

impl UpdateRunView {
    /// Whether no more actions were handed out than there are.
    pub open spec fn in_range(self) -> bool {
        0 <= self.position <= self.actions.len()
    }

    /// The actions that were handed out.
    pub open spec fn handed_out(self) -> Seq<UpdateActionView> {
        self.actions.take(self.position)
    }
}

/// The actions that succeeded: those that were handed out, without the last one if it failed.
pub open spec fn done_actions(run: UpdateRunView, failure: Option<isize>) -> Seq<UpdateActionView> {
    if failure is Some && run.position > 0 {
        run.actions.take(run.position - 1)
    } else {
        run.handed_out()
    }
}

/// What an event leads to: the next action, if there is one, unless the last one failed. Nothing is
/// handed out after an action that failed.
pub open spec fn update_step(run: UpdateRunView, event: UpdateEvent) -> (UpdateRunView, UpdateStep) {
    match event {
        UpdateEvent::Failed(exit_code) => (run, UpdateStep::Stop(exit_code)),
        UpdateEvent::Continue => if run.position < run.actions.len() {
            (
                UpdateRunView { position: run.position + 1, ..run },
                UpdateStep::Perform(run.position as usize),
            )
        } else {
            (run, UpdateStep::Finish)
        },
    }
}

impl UpdateRun {
    /// Starts to perform an update.
    pub fn new(actions: Vec<UpdateAction>) -> (run: UpdateRun)
        ensures
            run@ == (UpdateRunView { actions: actions_view(actions@), position: 0 }),
            run@.in_range(),
    {
        UpdateRun { actions, position: 0 }
    }

    /// Decides what is to be done next, given what came of the last action.
    pub fn step(&mut self, event: UpdateEvent) -> (step: UpdateStep)
        ensures
            (final(self)@, step) == update_step(old(self)@, event),
            final(self).actions@ == old(self).actions@,
            step matches UpdateStep::Perform(index) ==> index < final(self).actions@.len(),
            old(self)@.in_range() ==> final(self)@.in_range(),
    {
        match event {
            UpdateEvent::Failed(exit_code) => UpdateStep::Stop(exit_code),
            UpdateEvent::Continue => {
                if self.position < self.actions.len() {
                    let index: usize = self.position;
                    self.position = index + 1;
                    UpdateStep::Perform(index)
                } else {
                    UpdateStep::Finish
                }
            },
        }
    }

    /// What became of the update, if the action that was handed out last failed with the given
    /// exit code, or if none failed.
    pub fn outcome(self, failure: Option<isize>) -> (outcome: UpdateOutcome)
        requires
            self@.in_range(),
        ensures
            actions_view(outcome.done@) == done_actions(self@, failure),
            outcome.result == match failure {
                Some(exit_code) => Err::<(), isize>(exit_code),
                None => Ok::<(), isize>(()),
            },
    {
        let mut done = self.actions;
        let count: usize = match failure {
            Some(_) => if self.position > 0 {
                self.position - 1
            } else {
                0
            },
            None => self.position,
        };
        done.truncate(count);
        assert(actions_view(done@) =~= actions_view(self.actions@).take(count as int));
        let result = match failure {
            Some(exit_code) => Err(exit_code),
            None => Ok(()),
        };
        UpdateOutcome { done, result }
    }
}

} // verus!
