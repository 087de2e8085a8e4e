//! The order in which pull requests are created.
//!
//! A [`CreationRun`] says one action after the other. Each is to be taken, and the run is told what
//! came of it. The first call that fails ends the run.

use crate::create::{
    after_branch, after_pull_request, issue_number, next_wanted, pr_branch_name,
    requested_statuses, BranchOutcome, BranchRequest, Creation, IssueRequest, PullRequestRequest,
};
use crate::forge::{base_branch, statuses_view, GitHubForge};
use crate::types::{tracked_at, CommitStatus, CommitStatusView, NonZeroOid, StackStateView};
use std::collections::BTreeMap;
use vstd::prelude::*;

verus! {

/// What a run waits for.
#[derive(Debug)]
pub enum CreationPhase {
    /// Nothing: it can go on to the next commit.
    Ready,

    /// The URL of an issue.
    AwaitingIssue(IssueRequest),

    /// What came of the attempt to create a branch.
    AwaitingBranch(BranchRequest),

    /// What the push of a branch created.
    AwaitingPush(BranchRequest),

    /// The URL of a pull request.
    AwaitingPullRequest(BranchRequest),

    /// The end of the update that follows the creation.
    AwaitingUpdate,

    /// Nothing any more.
    Finished,
}

/// The creation of pull requests as it goes on. What a push reports of each commit is an `S`.
#[derive(Debug)]
pub struct CreationRun<S> {
    /// The commits that are gone through.
    pub creation: Creation,

    /// What the run waits for.
    pub phase: CreationPhase,

    /// What was reported of each commit that was pushed.
    pub results: BTreeMap<NonZeroOid, S>,
}

/// What came of an action.
#[derive(Debug)]
pub enum CreationEvent<S> {
    /// There is nothing to tell: the run is to go on.
    Continue,

    /// An issue was created, and this is its URL.
    IssueCreated(String),

    /// A branch was to be created.
    BranchAttempted(BranchOutcome),

    /// A branch was pushed, and this was reported of the commits that were created remotely.
    BranchPushed(Vec<(NonZeroOid, S)>),

    /// An issue was converted into a pull request, and this is its URL.
    PullRequestCreated(String),

    /// The update that follows the creation is done.
    Updated,

    /// The action failed, and this is the exit code to end with.
    Failed(isize),
}

/// Why a commit is given up.
#[derive(Clone, Copy, Debug, PartialEq, Eq, Structural)]
pub enum CreationSkip {
    /// The URL of its issue does not end in a number.
    MalformedIssueUrl,

    /// The base of its pull request is a commit that has no branch.
    UnknownBase,
}

/// What is to be done next.
#[derive(Debug)]
pub enum CreationAction {
    /// Create an issue.
    CreateIssue { oid: NonZeroOid, title: String, body: String },

    /// Create a branch that points to a commit.
    CreateBranch { oid: NonZeroOid, branch_name: String },

    /// Push the branch of a commit to the remote.
    PushBranch { oid: NonZeroOid, commit_status: CommitStatus },

    /// Convert an issue into a pull request.
    CreatePullRequest(PullRequestRequest),

    /// One more pull request was created. Then go on.
    Progress,

    /// Nothing more can be done for a commit. Go on.
    Skip { oid: NonZeroOid, reason: CreationSkip },

    /// Bring the pull requests of these commits up to date.
    Update { commits: BTreeMap<NonZeroOid, CommitStatus> },

    /// Everything is done: the results are complete.
    Finish,

    /// End with an exit code, because a call failed.
    Stop(isize),

    /// End with the error that kept a branch from being created.
    Abort,

    /// The event does not answer the last action. Nothing changes.
    Mismatch,
}

/// What an [`IssueRequest`] says.
pub struct IssueRequestView {
    pub index: int,
    pub oid: NonZeroOid,
    pub title: Seq<char>,
    pub body: Seq<char>,
}

impl View for IssueRequest {
    type V = IssueRequestView;

    open spec fn view(&self) -> IssueRequestView {
        IssueRequestView {
            index: self.index as int,
            oid: self.oid,
            title: self.title@,
            body: self.body@,
        }
    }
}

/// What a [`BranchRequest`] says.
pub struct BranchRequestView {
    pub index: int,
    pub oid: NonZeroOid,
    pub issue_num: usize,
    pub branch_name: Seq<char>,
}

impl View for BranchRequest {
    type V = BranchRequestView;

    open spec fn view(&self) -> BranchRequestView {
        BranchRequestView {
            index: self.index as int,
            oid: self.oid,
            issue_num: self.issue_num,
            branch_name: self.branch_name@,
        }
    }
}

impl Clone for BranchRequest {
    fn clone(&self) -> (copy: Self)
        ensures
            copy@ == self@,
    {
        BranchRequest {
            index: self.index,
            oid: self.oid,
            issue_num: self.issue_num,
            branch_name: self.branch_name.clone(),
        }
    }
}

/// What a [`PullRequestRequest`] says.
pub struct PullRequestRequestView {
    pub issue_num: usize,
    pub head_ref_name: Seq<char>,
    pub base_ref_name: Seq<char>,
    pub draft: bool,
}

impl View for PullRequestRequest {
    type V = PullRequestRequestView;

    open spec fn view(&self) -> PullRequestRequestView {
        PullRequestRequestView {
            issue_num: self.issue_num,
            head_ref_name: self.head_ref_name@,
            base_ref_name: self.base_ref_name@,
            draft: self.draft,
        }
    }
}

/// What a [`CreationPhase`] says.
pub enum CreationPhaseView {
    Ready,
    AwaitingIssue(IssueRequestView),
    AwaitingBranch(BranchRequestView),
    AwaitingPush(BranchRequestView),
    AwaitingPullRequest(BranchRequestView),
    AwaitingUpdate,
    Finished,
}

impl View for CreationPhase {
    type V = CreationPhaseView;

    open spec fn view(&self) -> CreationPhaseView {
        match self {
            CreationPhase::Ready => CreationPhaseView::Ready,
            CreationPhase::AwaitingIssue(issue) => CreationPhaseView::AwaitingIssue(issue@),
            CreationPhase::AwaitingBranch(branch) => CreationPhaseView::AwaitingBranch(branch@),
            CreationPhase::AwaitingPush(branch) => CreationPhaseView::AwaitingPush(branch@),
            CreationPhase::AwaitingPullRequest(branch) => CreationPhaseView::AwaitingPullRequest(
                branch@,
            ),
            CreationPhase::AwaitingUpdate => CreationPhaseView::AwaitingUpdate,
            CreationPhase::Finished => CreationPhaseView::Finished,
        }
    }
}

/// What a [`CreationRun`] says.
pub struct CreationRunView<S> {
    pub requested: Map<NonZeroOid, CommitStatusView>,
    pub pr_branch_prefix: Seq<char>,
    pub draft: bool,
    pub position: int,
    pub phase: CreationPhaseView,
    pub results: Map<NonZeroOid, S>,
}

impl<S> View for CreationRun<S> {
    type V = CreationRunView<S>;

    open spec fn view(&self) -> CreationRunView<S> {
        CreationRunView {
            requested: statuses_view(self.creation.commits@),
            pr_branch_prefix: self.creation.pr_branch_prefix@,
            draft: self.creation.draft,
            position: self.creation.position as int,
            phase: self.phase@,
            results: self.results@,
        }
    }
}

/// What a [`CreationEvent`] says.
pub enum CreationEventView<S> {
    Continue,
    IssueCreated(Seq<char>),
    BranchAttempted(BranchOutcome),
    BranchPushed(Seq<(NonZeroOid, S)>),
    PullRequestCreated(Seq<char>),
    Updated,
    Failed(isize),
}

impl<S> View for CreationEvent<S> {
    type V = CreationEventView<S>;

    open spec fn view(&self) -> CreationEventView<S> {
        match self {
            CreationEvent::Continue => CreationEventView::Continue,
            CreationEvent::IssueCreated(url) => CreationEventView::IssueCreated(url@),
            CreationEvent::BranchAttempted(outcome) => CreationEventView::BranchAttempted(*outcome),
            CreationEvent::BranchPushed(created) => CreationEventView::BranchPushed(created@),
            CreationEvent::PullRequestCreated(url) => CreationEventView::PullRequestCreated(url@),
            CreationEvent::Updated => CreationEventView::Updated,
            CreationEvent::Failed(exit_code) => CreationEventView::Failed(*exit_code),
        }
    }
}

/// What a [`CreationAction`] says.
pub enum CreationActionView {
    CreateIssue { oid: NonZeroOid, title: Seq<char>, body: Seq<char> },
    CreateBranch { oid: NonZeroOid, branch_name: Seq<char> },
    PushBranch { oid: NonZeroOid, commit_status: CommitStatusView },
    CreatePullRequest(PullRequestRequestView),
    Progress,
    Skip { oid: NonZeroOid, reason: CreationSkip },
    Update { commits: Map<NonZeroOid, CommitStatusView> },
    Finish,
    Stop(isize),
    Abort,
    Mismatch,
}

impl View for CreationAction {
    type V = CreationActionView;

    open spec fn view(&self) -> CreationActionView {
        match self {
            CreationAction::CreateIssue { oid, title, body } => CreationActionView::CreateIssue {
                oid: *oid,
                title: title@,
                body: body@,
            },
            CreationAction::CreateBranch { oid, branch_name } => CreationActionView::CreateBranch {
                oid: *oid,
                branch_name: branch_name@,
            },
            CreationAction::PushBranch { oid, commit_status } => CreationActionView::PushBranch {
                oid: *oid,
                commit_status: commit_status@,
            },
            CreationAction::CreatePullRequest(request) => CreationActionView::CreatePullRequest(
                request@,
            ),
            CreationAction::Progress => CreationActionView::Progress,
            CreationAction::Skip { oid, reason } => CreationActionView::Skip {
                oid: *oid,
                reason: *reason,
            },
            CreationAction::Update { commits } => CreationActionView::Update {
                commits: statuses_view(commits@),
            },
            CreationAction::Finish => CreationActionView::Finish,
            CreationAction::Stop(exit_code) => CreationActionView::Stop(*exit_code),
            CreationAction::Abort => CreationActionView::Abort,
            CreationAction::Mismatch => CreationActionView::Mismatch,
        }
    }
}

/// The results with what a push reported.
pub open spec fn with_results<S>(
    results: Map<NonZeroOid, S>,
    created: Seq<(NonZeroOid, S)>,
) -> Map<NonZeroOid, S>
    decreases created.len(),
{
    if created.len() == 0 {
        results
    } else {
        with_results(results, created.drop_last()).insert(created.last().0, created.last().1)
    }
}

/// A run, the state of the submission, and what is to be done next.
pub struct CreationStep<S> {
    pub run: CreationRunView<S>,
    pub state: StackStateView,
    pub action: CreationActionView,
}

/// Goes on to the next commit for which a pull request is to be created. When there is none left,
/// the commits that were asked for are brought up to date.
pub open spec fn next_commit_step<S>(run: CreationRunView<S>, state: StackStateView) -> CreationStep<
    S,
> {
    match next_wanted(state.commits, run.requested, run.position) {
        Some(index) => {
            let (oid, change) = state.commits[index];
            CreationStep {
                run: CreationRunView {
                    position: index + 1,
                    phase: CreationPhaseView::AwaitingIssue(
                        IssueRequestView { index, oid, title: change.title, body: change.body },
                    ),
                    ..run
                },
                state,
                action: CreationActionView::CreateIssue {
                    oid,
                    title: change.title,
                    body: change.body,
                },
            }
        },
        None => CreationStep {
            run: CreationRunView {
                position: if run.position < state.commits.len() {
                    state.commits.len() as int
                } else {
                    run.position
                },
                phase: CreationPhaseView::AwaitingUpdate,
                ..run
            },
            state,
            action: CreationActionView::Update {
                commits: requested_statuses(state.commits, run.requested),
            },
        },
    }
}

/// Names a branch by the number of an issue, and has it created.
pub open spec fn issue_step<S>(
    run: CreationRunView<S>,
    state: StackStateView,
    issue: IssueRequestView,
    url: Seq<char>,
) -> CreationStep<S> {
    match issue_number(url) {
        Some(issue_num) => {
            let branch_name = pr_branch_name(run.pr_branch_prefix, issue_num);
            CreationStep {
                run: CreationRunView {
                    phase: CreationPhaseView::AwaitingBranch(
                        BranchRequestView {
                            index: issue.index,
                            oid: issue.oid,
                            issue_num,
                            branch_name,
                        },
                    ),
                    ..run
                },
                state,
                action: CreationActionView::CreateBranch { oid: issue.oid, branch_name },
            }
        },
        None => CreationStep {
            run: CreationRunView { phase: CreationPhaseView::Ready, ..run },
            state,
            action: CreationActionView::Skip {
                oid: issue.oid,
                reason: CreationSkip::MalformedIssueUrl,
            },
        },
    }
}

/// Records a branch and has it pushed. Where there is no branch the run ends, and nothing changes.
pub open spec fn branch_step<S>(
    run: CreationRunView<S>,
    state: StackStateView,
    branch: BranchRequestView,
    outcome: BranchOutcome,
) -> CreationStep<S> {
    if outcome == BranchOutcome::Failed {
        CreationStep { run, state, action: CreationActionView::Abort }
    } else {
        let after = after_branch(state, branch.index, branch.branch_name);
        CreationStep {
            run: CreationRunView { phase: CreationPhaseView::AwaitingPush(branch), ..run },
            state: after,
            action: CreationActionView::PushBranch {
                oid: branch.oid,
                commit_status: after.commits[branch.index].1.commit_status,
            },
        }
    }
}

/// Keeps what a push reported, and has the issue converted into a pull request.
pub open spec fn push_step<S>(
    run: CreationRunView<S>,
    state: StackStateView,
    branch: BranchRequestView,
    created: Seq<(NonZeroOid, S)>,
) -> CreationStep<S> {
    let results = with_results(run.results, created);
    match base_branch(
        state.oids_to_branchless_refs,
        state.commits[branch.index].1.pr_base,
    ) {
        Some(base_ref_name) => CreationStep {
            run: CreationRunView {
                phase: CreationPhaseView::AwaitingPullRequest(branch),
                results,
                ..run
            },
            state,
            action: CreationActionView::CreatePullRequest(
                PullRequestRequestView {
                    issue_num: branch.issue_num,
                    head_ref_name: branch.branch_name,
                    base_ref_name,
                    draft: run.draft,
                },
            ),
        },
        None => CreationStep {
            run: CreationRunView { phase: CreationPhaseView::Ready, results, ..run },
            state,
            action: CreationActionView::Skip {
                oid: branch.oid,
                reason: CreationSkip::UnknownBase,
            },
        },
    }
}

/// Records a pull request.
pub open spec fn pull_request_step<S>(
    run: CreationRunView<S>,
    state: StackStateView,
    branch: BranchRequestView,
    url: Seq<char>,
) -> CreationStep<S> {
    CreationStep {
        run: CreationRunView { phase: CreationPhaseView::Ready, ..run },
        state: after_pull_request(state, branch.index, branch.branch_name, branch.issue_num, url),
        action: CreationActionView::Progress,
    }
}

/// What an event leads to. A call that failed ends the run and changes nothing. An event that does
/// not answer the last action changes nothing either.
pub open spec fn creation_step<S>(
    run: CreationRunView<S>,
    state: StackStateView,
    event: CreationEventView<S>,
) -> CreationStep<S> {
    match (event, run.phase) {
        (CreationEventView::Failed(exit_code), _) => CreationStep {
            run,
            state,
            action: CreationActionView::Stop(exit_code),
        },
        (CreationEventView::Continue, CreationPhaseView::Ready) => next_commit_step(run, state),
        (
            CreationEventView::IssueCreated(url),
            CreationPhaseView::AwaitingIssue(issue),
        ) => issue_step(run, state, issue, url),
        (
            CreationEventView::BranchAttempted(outcome),
            CreationPhaseView::AwaitingBranch(branch),
        ) => branch_step(run, state, branch, outcome),
        (
            CreationEventView::BranchPushed(created),
            CreationPhaseView::AwaitingPush(branch),
        ) => push_step(run, state, branch, created),
        (
            CreationEventView::PullRequestCreated(url),
            CreationPhaseView::AwaitingPullRequest(branch),
        ) => pull_request_step(run, state, branch, url),
        (CreationEventView::Updated, CreationPhaseView::AwaitingUpdate) => CreationStep {
            run: CreationRunView { phase: CreationPhaseView::Finished, ..run },
            state,
            action: CreationActionView::Finish,
        },
        _ => CreationStep { run, state, action: CreationActionView::Mismatch },
    }
}

impl<S> CreationRunView<S> {
    /// Whether the commit that the run is at is tracked at its index.
    pub open spec fn fits(self, state: StackStateView) -> bool {
        match self.phase {
            CreationPhaseView::AwaitingIssue(issue) => tracked_at(
                state.commits,
                issue.oid,
                issue.index,
            ),
            CreationPhaseView::AwaitingBranch(branch) => tracked_at(
                state.commits,
                branch.oid,
                branch.index,
            ),
            CreationPhaseView::AwaitingPush(branch) => tracked_at(
                state.commits,
                branch.oid,
                branch.index,
            ),
            CreationPhaseView::AwaitingPullRequest(branch) => tracked_at(
                state.commits,
                branch.oid,
                branch.index,
            ),
            _ => true,
        }
    }
}

impl<S> CreationRun<S> {
    /// Starts a run, which is to be told to go on.
    pub fn new(creation: Creation) -> (run: CreationRun<S>)
        ensures
            run@ == (CreationRunView::<S> {
                requested: statuses_view(creation.commits@),
                pr_branch_prefix: creation.pr_branch_prefix@,
                draft: creation.draft,
                position: creation.position as int,
                phase: CreationPhaseView::Ready,
                results: Map::empty(),
            }),
            forall|state: StackStateView| #[trigger] run@.fits(state),
    {
        CreationRun { creation, phase: CreationPhase::Ready, results: BTreeMap::new() }
    }

    /// Keeps what a push reported.
    fn keep_results(&mut self, created: Vec<(NonZeroOid, S)>)
        ensures
            final(self)@ == (CreationRunView {
                results: with_results(old(self)@.results, created@),
                ..old(self)@
            }),
            final(self).creation == old(self).creation,
            final(self).phase == old(self).phase,
    {
        let ghost before = self.results@;
        assert(created@.take(0) =~= Seq::<(NonZeroOid, S)>::empty());
        for entry in iter: created
            invariant
                iter.seq() == created@,
                self.results@ == with_results(before, created@.take(iter.index() as int)),
                self.creation == old(self).creation,
                self.phase == old(self).phase,
        {
            assert(created@.take(iter.index() + 1).drop_last() =~= created@.take(
                iter.index() as int,
            ));
            let (oid, status) = entry;
            self.results.insert(oid, status);
        }
        assert(created@.take(created@.len() as int) =~= created@);
    }

    /// Goes on to the next commit.
    fn go_on(&mut self, forge: &GitHubForge) -> (action: CreationAction)
        ensures
            (CreationStep { run: final(self)@, state: forge.stack_state@, action: action@ })
                == next_commit_step(old(self)@, forge.stack_state@),
            final(self)@.fits(forge.stack_state@),
    {
        match self.creation.next_issue(forge) {
            Some(issue) => {
                let action = CreationAction::CreateIssue {
                    oid: issue.oid,
                    title: issue.title.clone(),
                    body: issue.body.clone(),
                };
                self.phase = CreationPhase::AwaitingIssue(issue);
                action
            },
            None => {
                self.phase = CreationPhase::AwaitingUpdate;
                CreationAction::Update { commits: self.creation.commits_to_update(forge) }
            },
        }
    }

    /// Decides what is to be done next, given what came of the last action.
    pub fn step(&mut self, forge: &mut GitHubForge, event: CreationEvent<S>) -> (action:
        CreationAction)
        requires
            old(self)@.fits(old(forge).stack_state@),
        ensures
            (CreationStep {
                run: final(self)@,
                state: final(forge).stack_state@,
                action: action@,
            }) == creation_step(old(self)@, old(forge).stack_state@, event@),
            final(self)@.fits(final(forge).stack_state@),
            final(forge).create_unsubmitted == old(forge).create_unsubmitted,
            old(forge).stack_state@.well_formed() ==> final(forge).stack_state@.well_formed(),
            old(forge).stack_state@.own_ids() ==> final(forge).stack_state@.own_ids(),
    {
        match (event, &self.phase) {
            (CreationEvent::Failed(exit_code), _) => CreationAction::Stop(exit_code),
            (CreationEvent::Continue, CreationPhase::Ready) => self.go_on(forge),
            (CreationEvent::IssueCreated(url), CreationPhase::AwaitingIssue(issue)) => {
                let oid = issue.oid;
                match self.creation.issue_created(issue, url.as_str()) {
                    Some(branch) => {
                        let branch_name = branch.branch_name.clone();
                        self.phase = CreationPhase::AwaitingBranch(branch);
                        CreationAction::CreateBranch { oid, branch_name }
                    },
                    None => {
                        self.phase = CreationPhase::Ready;
                        CreationAction::Skip { oid, reason: CreationSkip::MalformedIssueUrl }
                    },
                }
            },
            (CreationEvent::BranchAttempted(outcome), CreationPhase::AwaitingBranch(branch)) => {
                let branch = branch.clone();
                match self.creation.branch_created(forge, &branch, outcome) {
                    Some(commit_status) => {
                        let oid = branch.oid;
                        self.phase = CreationPhase::AwaitingPush(branch);
                        CreationAction::PushBranch { oid, commit_status }
                    },
                    None => CreationAction::Abort,
                }
            },
            (CreationEvent::BranchPushed(created), CreationPhase::AwaitingPush(branch)) => {
                let branch = branch.clone();
                self.keep_results(created);
                match self.creation.branch_pushed(forge, &branch) {
                    Some(request) => {
                        self.phase = CreationPhase::AwaitingPullRequest(branch);
                        CreationAction::CreatePullRequest(request)
                    },
                    None => {
                        self.phase = CreationPhase::Ready;
                        CreationAction::Skip {
                            oid: branch.oid,
                            reason: CreationSkip::UnknownBase,
                        }
                    },
                }
            },
            (
                CreationEvent::PullRequestCreated(url),
                CreationPhase::AwaitingPullRequest(branch),
            ) => {
                self.creation.pull_request_created(forge, branch, url);
                self.phase = CreationPhase::Ready;
                CreationAction::Progress
            },
            (CreationEvent::Updated, CreationPhase::AwaitingUpdate) => {
                self.phase = CreationPhase::Finished;
                CreationAction::Finish
            },
            _ => CreationAction::Mismatch,
        }
    }
}

} // verus!
