//! What stands for a value in the contracts leaves nothing of the value out.

use crate::client::{
    infos_view, pull_requests_view, raw_outcome, text_outcome, GhFailure, PullRequestInfo,
    PullRequests, RawOutcome, TextOutcome,
};
use crate::commits::commit_entries;
use crate::create::{BranchRequest, IssueRequest, PullRequestRequest};
use crate::creation_run::{
    CreationAction, CreationActionView, CreationEvent, CreationEventView, CreationPhase,
    CreationPhaseView, CreationRun, CreationRunView,
};
use crate::forge::{branches_view, statuses_view};
use crate::formatter::changes_view;
use crate::status::{StackWalk, StatusQuery};
use crate::text::texts;
use crate::types::{
    optional_text, stacks_view, texts_by_oid, CommitStatus, NonZeroOid, RefOrOid, RefOrOidView,
    StackState, StackStateView, StackedChange,
};
use crate::update::{actions_view, UpdateAction, UpdateActionView, UpdateRun, UpdateRunView};
use vstd::prelude::*;

verus! {

/// A text that may be missing is there if and only if it is there, and says what it says.
pub proof fn law_optional_text(text: String)
    ensures
        optional_text(Some(text)) == Some(text@),
        optional_text(None) is None,
{
}

/// Each name and each status stands for itself.
pub proof fn law_status_in_full(status: CommitStatus)
    ensures
        status@.submit_status == status.submit_status,
        status@.local_commit_name == optional_text(status.local_commit_name),
        status@.remote_name == optional_text(status.remote_name),
        status@.remote_commit_name == optional_text(status.remote_commit_name),
{
}

/// A base is a commit or a branch, and two bases are the same if and only if they name the same
/// commit or the same branch.
pub proof fn law_base_in_full(oid: NonZeroOid, branch: String, one: RefOrOid, other: RefOrOid)
    ensures
        RefOrOid::Oid(oid)@ == RefOrOidView::Oid(oid),
        RefOrOid::Branch(branch)@ == RefOrOidView::Branch(branch@),
        vstd::std_specs::cmp::PartialEqSpec::eq_spec(&one, &other) <==> match (one, other) {
            (RefOrOid::Oid(a), RefOrOid::Oid(b)) => a == b,
            (RefOrOid::Branch(a), RefOrOid::Branch(b)) => a@ == b@,
            _ => false,
        },
{
}

/// Each thing that is known of a change stands for itself.
pub proof fn law_change_in_full(change: StackedChange)
    ensures
        change@.oid == change.oid,
        change@.commit_status == change.commit_status@,
        change@.should_push == change.should_push,
        change@.should_update_pr == change.should_update_pr,
        change@.pr_url == optional_text(change.pr_url),
        change@.pr_number == change.pr_number,
        change@.pr_base == change.pr_base@,
        change@.title == change.title@,
        change@.body == change.body@,
{
}

/// The state of a submission has every entry of its map in its order, every stack, and every branch
/// that stands for a commit.
pub proof fn law_state_in_full(state: StackState, i: int, oid: NonZeroOid)
    ensures
        state@.commits.len() == commit_entries(state.commits).len(),
        0 <= i < state@.commits.len() ==> state@.commits[i].0 == commit_entries(state.commits)[i].0
            && state@.commits[i].1 == commit_entries(state.commits)[i].1@,
        state@.stacks.len() == state.stacks@.len(),
        0 <= i < state@.stacks.len() ==> state@.stacks[i] == state.stacks@[i]@,
        state@.oids_to_branchless_refs.contains_key(oid)
            == state.oids_to_branchless_refs@.contains_key(oid),
        state.oids_to_branchless_refs@.contains_key(oid) ==> state@.oids_to_branchless_refs[oid]
            == state.oids_to_branchless_refs@[oid]@,
{
}

/// Each thing that a pull request says stands for itself, and so does each pull request of a branch.
pub proof fn law_pull_request_in_full(
    info: PullRequestInfo,
    pull_requests: PullRequests,
    branch: Seq<char>,
    i: int,
)
    ensures
        info@.number == info.number,
        info@.url == info.url@,
        info@.head_ref_name == info.head_ref_name@,
        info@.head_ref_oid == info.head_ref_oid,
        info@.base_ref_name == info.base_ref_name@,
        info@.closed == info.closed,
        info@.is_draft == info.is_draft,
        info@.title == info.title@,
        info@.body == info.body@,
        pull_requests_view(pull_requests).contains_key(branch) == pull_requests@.contains_key(
            branch,
        ),
        pull_requests@.contains_key(branch) ==> pull_requests_view(pull_requests)[branch].len()
            == pull_requests@[branch]@.len(),
        pull_requests@.contains_key(branch) && 0 <= i < pull_requests@[branch]@.len()
            ==> pull_requests_view(pull_requests)[branch][i] == pull_requests@[branch]@[i]@,
{
}

/// A list stands for its members, in their order.
pub proof fn law_lists_in_full(
    strings: Seq<String>,
    infos: Seq<PullRequestInfo>,
    changes: Seq<&StackedChange>,
    stacks: Seq<Vec<NonZeroOid>>,
    references: Seq<(NonZeroOid, Vec<String>)>,
    actions: Seq<UpdateAction>,
    i: int,
)
    ensures
        texts(strings).len() == strings.len(),
        0 <= i < strings.len() ==> texts(strings)[i] == strings[i]@,
        infos_view(infos).len() == infos.len(),
        0 <= i < infos.len() ==> infos_view(infos)[i] == infos[i]@,
        changes_view(changes).len() == changes.len(),
        0 <= i < changes.len() ==> changes_view(changes)[i] == changes[i]@,
        stacks_view(stacks).len() == stacks.len(),
        0 <= i < stacks.len() ==> stacks_view(stacks)[i] == stacks[i]@,
        branches_view(references).len() == references.len(),
        0 <= i < references.len() ==> branches_view(references)[i].0 == references[i].0
            && branches_view(references)[i].1 == texts(references[i].1@),
        actions_view(actions).len() == actions.len(),
        0 <= i < actions.len() ==> actions_view(actions)[i] == actions[i]@,
{
}

/// A map from commits stands for what it has for each commit.
pub proof fn law_maps_in_full(
    statuses: Map<NonZeroOid, CommitStatus>,
    refs: Map<NonZeroOid, String>,
    oid: NonZeroOid,
)
    ensures
        statuses_view(statuses).contains_key(oid) == statuses.contains_key(oid),
        statuses.contains_key(oid) ==> statuses_view(statuses)[oid] == statuses[oid]@,
        texts_by_oid(refs).contains_key(oid) == refs.contains_key(oid),
        refs.contains_key(oid) ==> texts_by_oid(refs)[oid] == refs[oid]@,
{
}

/// Each thing that a query and a walk know stands for itself.
pub proof fn law_walk_in_full(query: StatusQuery, walk: StackWalk)
    ensures
        query.env().main_branch_name == query.main_branch_name@,
        query.env().default_remote == optional_text(query.default_remote),
        query.env().pull_requests == pull_requests_view(query.pull_requests),
        walk@.stack == walk.stack@,
        walk@.position == walk.position,
        walk@.nearest_base_ref == walk.nearest_base_ref@,
        walk@.update_until_head == walk.update_until_head,
        walk@.update_whole_stack == walk.update_whole_stack,
{
}

/// Each thing that an action of an update says stands for itself.
pub proof fn law_update_action_in_full(action: UpdateAction, run: UpdateRun)
    ensures
        match action {
            UpdateAction::Push { oid, commit_status } => action@ == (UpdateActionView::Push {
                oid,
                commit_status: commit_status@,
            }),
            UpdateAction::UpdatePullRequest { oid, pr_number, base_ref_name, title, body } => action@
                == (UpdateActionView::UpdatePullRequest {
                oid,
                pr_number,
                base_ref_name: base_ref_name@,
                title: title@,
                body: body@,
            }),
            UpdateAction::Skip { oid, reason } => action@ == (UpdateActionView::Skip {
                oid,
                reason,
            }),
            UpdateAction::Progress => action@ == UpdateActionView::Progress,
        },
        run@.actions.len() == run.actions@.len(),
        run@.position == run.position,
{
}

/// Each thing that is asked for in a creation stands for itself.
pub proof fn law_requests_in_full(
    issue: IssueRequest,
    branch: BranchRequest,
    request: PullRequestRequest,
)
    ensures
        issue@.index == issue.index,
        issue@.oid == issue.oid,
        issue@.title == issue.title@,
        issue@.body == issue.body@,
        branch@.index == branch.index,
        branch@.oid == branch.oid,
        branch@.issue_num == branch.issue_num,
        branch@.branch_name == branch.branch_name@,
        request@.issue_num == request.issue_num,
        request@.head_ref_name == request.head_ref_name@,
        request@.base_ref_name == request.base_ref_name@,
        request@.draft == request.draft,
{
}

/// Each thing that a creation knows, is told and says stands for itself.
pub proof fn law_creation_in_full<S>(
    run: CreationRun<S>,
    event: CreationEvent<S>,
    action: CreationAction,
)
    ensures
        run@.requested == statuses_view(run.creation.commits@),
        run@.pr_branch_prefix == run.creation.pr_branch_prefix@,
        run@.draft == run.creation.draft,
        run@.position == run.creation.position,
        run@.results == run.results@,
        match run.phase {
            CreationPhase::Ready => run@.phase == CreationPhaseView::Ready,
            CreationPhase::AwaitingIssue(issue) => run@.phase == CreationPhaseView::AwaitingIssue(
                issue@,
            ),
            CreationPhase::AwaitingBranch(branch) => run@.phase
                == CreationPhaseView::AwaitingBranch(branch@),
            CreationPhase::AwaitingPush(branch) => run@.phase == CreationPhaseView::AwaitingPush(
                branch@,
            ),
            CreationPhase::AwaitingPullRequest(branch) => run@.phase
                == CreationPhaseView::AwaitingPullRequest(branch@),
            CreationPhase::AwaitingUpdate => run@.phase == CreationPhaseView::AwaitingUpdate,
            CreationPhase::Finished => run@.phase == CreationPhaseView::Finished,
        },
        match event {
            CreationEvent::Continue => event@ == CreationEventView::<S>::Continue,
            CreationEvent::IssueCreated(url) => event@ == CreationEventView::<S>::IssueCreated(
                url@,
            ),
            CreationEvent::BranchAttempted(outcome) => event@
                == CreationEventView::<S>::BranchAttempted(outcome),
            CreationEvent::BranchPushed(created) => event@ == CreationEventView::BranchPushed(
                created@,
            ),
            CreationEvent::PullRequestCreated(url) => event@
                == CreationEventView::<S>::PullRequestCreated(url@),
            CreationEvent::Updated => event@ == CreationEventView::<S>::Updated,
            CreationEvent::Failed(exit_code) => event@ == CreationEventView::<S>::Failed(exit_code),
        },
        match action {
            CreationAction::CreateIssue { oid, title, body } => action@
                == (CreationActionView::CreateIssue { oid, title: title@, body: body@ }),
            CreationAction::CreateBranch { oid, branch_name } => action@
                == (CreationActionView::CreateBranch { oid, branch_name: branch_name@ }),
            CreationAction::PushBranch { oid, commit_status } => action@
                == (CreationActionView::PushBranch { oid, commit_status: commit_status@ }),
            CreationAction::CreatePullRequest(request) => action@
                == CreationActionView::CreatePullRequest(request@),
            CreationAction::Progress => action@ == CreationActionView::Progress,
            CreationAction::Skip { oid, reason } => action@ == (CreationActionView::Skip {
                oid,
                reason,
            }),
            CreationAction::Update { commits } => action@ == (CreationActionView::Update {
                commits: statuses_view(commits@),
            }),
            CreationAction::Finish => action@ == CreationActionView::Finish,
            CreationAction::Stop(exit_code) => action@ == CreationActionView::Stop(exit_code),
            CreationAction::Abort => action@ == CreationActionView::Abort,
            CreationAction::Mismatch => action@ == CreationActionView::Mismatch,
        },
{
}

/// Each outcome of a call stands for itself.
pub proof fn law_outcomes_in_full(text: String, output: Vec<u8>, failure: GhFailure)
    ensures
        text_outcome(Ok(text)) == TextOutcome::Text(text@),
        text_outcome(Err(failure)) == (TextOutcome::Failure {
            exit_code: failure.exit_code as int,
            report: texts(failure.report@),
        }),
        raw_outcome(Ok(output)) == RawOutcome::Output(output@),
        raw_outcome(Err(failure)) == (RawOutcome::Failure {
            exit_code: failure.exit_code as int,
            report: texts(failure.report@),
        }),
{
}

/// A request fits a state if and only if its commit is tracked at its index, and a run fits if and
/// only if the request that it waits for does.
pub proof fn law_fitting_requests<S>(
    branch: BranchRequest,
    run: CreationRunView<S>,
    state: StackStateView,
)
    ensures
        branch.fits(state) <==> branch.index < state.commits.len() && state.commits[
            branch.index as int
        ].0 == branch.oid,
        run.fits(state) <==> match run.phase {
            CreationPhaseView::AwaitingIssue(issue) => 0 <= issue.index < state.commits.len()
                && state.commits[issue.index].0 == issue.oid,
            CreationPhaseView::AwaitingBranch(branch) => 0 <= branch.index < state.commits.len()
                && state.commits[branch.index].0 == branch.oid,
            CreationPhaseView::AwaitingPush(branch) => 0 <= branch.index < state.commits.len()
                && state.commits[branch.index].0 == branch.oid,
            CreationPhaseView::AwaitingPullRequest(branch) => 0 <= branch.index
                < state.commits.len() && state.commits[branch.index].0 == branch.oid,
            _ => true,
        },
{
}

/// An update is in range if and only if no more actions were handed out than there are, and what was
/// handed out are the first ones.
pub proof fn law_handed_out_actions(run: UpdateRunView)
    ensures
        run.in_range() <==> 0 <= run.position <= run.actions.len(),
        run.handed_out() == run.actions.take(run.position),
        run.in_range() ==> run.handed_out().len() == run.position,
{
}

/// No commit is tracked twice if and only if any two entries have different ids, and each is tracked
/// under its own id if and only if every entry has the id of its change.
pub proof fn law_valid_states(state: StackStateView)
    ensures
        state.well_formed() <==> forall|i: int, j: int|
            0 <= i < state.commits.len() && 0 <= j < state.commits.len() && (
            #[trigger] state.commits[i]).0 == (#[trigger] state.commits[j]).0 ==> i == j,
        state.own_ids() <==> forall|i: int|
            0 <= i < state.commits.len() ==> (#[trigger] state.commits[i]).1.oid
                == state.commits[i].0,
{
    if state.well_formed() {
        assert forall|i: int, j: int|
            0 <= i < state.commits.len() && 0 <= j < state.commits.len() && (
            #[trigger] state.commits[i]).0 == (#[trigger] state.commits[j]).0 implies i == j by {
            if i < j {
                assert(state.commits[i].0 != state.commits[j].0);
            } else if j < i {
                assert(state.commits[j].0 != state.commits[i].0);
            }
        }
    }
}

} // verus!
