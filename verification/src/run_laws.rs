//! What holds of creations and updates as they are performed, whatever calls fail.

use crate::create::{
    after_branch, after_pull_request, is_wanted, issue_number, next_wanted, pr_branch_name,
    BranchOutcome,
};
use crate::create_laws::{
    bases_covered, created_up_to, law_creation_goes_in_order, law_creation_knows_every_base,
    lemma_created_up_to,
};
use crate::creation_run::{
    creation_step, with_results, CreationActionView, CreationEventView, CreationPhaseView,
    CreationRunView, CreationStep, PullRequestRequestView,
};
use crate::forge::base_branch;
use crate::status_laws::bases_come_first;
use crate::types::{CommitStatusView, CommitsView, NonZeroOid, StackStateView};
use crate::update::{
    done_actions, update_step, UpdateActionView, UpdateEvent, UpdateRunView, UpdateStep,
};
use vstd::prelude::*;

verus! {

/// A call that fails ends a creation with its exit code, whatever the creation waited for. Nothing
/// is changed: what was created before stays recorded.
pub proof fn law_failed_call_stops_creation<S>(
    run: CreationRunView<S>,
    state: StackStateView,
    exit_code: isize,
)
    ensures
        creation_step(run, state, CreationEventView::Failed(exit_code)) == (CreationStep {
            run,
            state,
            action: CreationActionView::Stop(exit_code),
        }),
{
}

/// The index of the commit that a run is at, if it is at one.
pub open spec fn current_index(phase: CreationPhaseView) -> Option<int> {
    match phase {
        CreationPhaseView::AwaitingIssue(issue) => Some(issue.index),
        CreationPhaseView::AwaitingBranch(branch) => Some(branch.index),
        CreationPhaseView::AwaitingPush(branch) => Some(branch.index),
        CreationPhaseView::AwaitingPullRequest(branch) => Some(branch.index),
        _ => None,
    }
}

/// Whether the commit that a run is at is the last one that it went to.
pub open spec fn in_place<S>(run: CreationRunView<S>) -> bool {
    &&& 0 <= run.position
    &&& match current_index(run.phase) {
        Some(index) => index == run.position - 1,
        None => true,
    }
}

/// The run and the state after several events.
pub open spec fn creation_after<S>(
    run: CreationRunView<S>,
    state: StackStateView,
    events: Seq<CreationEventView<S>>,
) -> (CreationRunView<S>, StackStateView)
    decreases events.len(),
{
    if events.len() == 0 {
        (run, state)
    } else {
        let (before, at) = creation_after(run, state, events.drop_last());
        let step = creation_step(before, at, events.last());
        (step.run, step.state)
    }
}

proof fn lemma_step_leaves_others<S>(
    run: CreationRunView<S>,
    state: StackStateView,
    event: CreationEventView<S>,
    i: int,
)
    requires
        run.fits(state),
        in_place(run),
        0 <= i < state.commits.len(),
        i < run.position,
        current_index(run.phase) != Some(i),
    ensures
        ({
            let step = creation_step(run, state, event);
            &&& step.run.fits(step.state)
            &&& in_place(step.run)
            &&& run.position <= step.run.position
            &&& current_index(step.run.phase) != Some(i)
            &&& step.state.commits.len() == state.commits.len()
            &&& step.state.commits[i] == state.commits[i]
            &&& forall|oid: NonZeroOid| #[trigger]
                state.oids_to_branchless_refs.contains_key(oid)
                    ==> step.state.oids_to_branchless_refs.contains_key(oid)
                    && step.state.oids_to_branchless_refs[oid] == state.oids_to_branchless_refs[oid]
        }),
{
    law_creation_goes_in_order(state.commits, run.requested, run.position);
}

/// What was recorded of a commit stays once the run has left it, whatever comes of the commits
/// behind it. So do the branches that stand for commits.
pub proof fn law_created_entries_stay<S>(
    run: CreationRunView<S>,
    state: StackStateView,
    events: Seq<CreationEventView<S>>,
    i: int,
)
    requires
        run.fits(state),
        in_place(run),
        0 <= i < state.commits.len(),
        i < run.position,
        current_index(run.phase) != Some(i),
    ensures
        ({
            let (end, after) = creation_after(run, state, events);
            &&& end.fits(after)
            &&& in_place(end)
            &&& i < end.position
            &&& current_index(end.phase) != Some(i)
            &&& after.commits.len() == state.commits.len()
            &&& after.commits[i] == state.commits[i]
            &&& forall|oid: NonZeroOid| #[trigger]
                state.oids_to_branchless_refs.contains_key(oid)
                    ==> after.oids_to_branchless_refs.contains_key(oid)
                    && after.oids_to_branchless_refs[oid] == state.oids_to_branchless_refs[oid]
        }),
    decreases events.len(),
{
    if events.len() > 0 {
        law_created_entries_stay(run, state, events.drop_last(), i);
        let (before, at) = creation_after(run, state, events.drop_last());
        lemma_step_leaves_others(before, at, events.last(), i);
    }
}

/// Whether the event at index `i` tells a run that waits for it that a commit was created remotely.
pub open spec fn reported_at<S>(
    run: CreationRunView<S>,
    state: StackStateView,
    events: Seq<CreationEventView<S>>,
    oid: NonZeroOid,
    i: int,
) -> bool {
    &&& 0 <= i < events.len()
    &&& creation_after(run, state, events.take(i)).0.phase is AwaitingPush
    &&& events[i] matches CreationEventView::BranchPushed(created) && exists|k: int|
        0 <= k < created.len() && (#[trigger] created[k]).0 == oid
}

proof fn lemma_with_results<S>(
    results: Map<NonZeroOid, S>,
    created: Seq<(NonZeroOid, S)>,
    oid: NonZeroOid,
)
    ensures
        with_results(results, created).contains_key(oid) <==> results.contains_key(oid) || exists|
            k: int,
        |
            0 <= k < created.len() && (#[trigger] created[k]).0 == oid,
    decreases created.len(),
{
    if created.len() > 0 {
        let front = created.drop_last();
        lemma_with_results(results, front, oid);
        assert(created[created.len() - 1] == created.last());
        if exists|k: int| 0 <= k < front.len() && (#[trigger] front[k]).0 == oid {
            let k = choose|k: int| 0 <= k < front.len() && (#[trigger] front[k]).0 == oid;
            assert(created[k] == front[k]);
        }
        if exists|k: int| 0 <= k < created.len() && (#[trigger] created[k]).0 == oid {
            let k = choose|k: int| 0 <= k < created.len() && (#[trigger] created[k]).0 == oid;
            if k < front.len() {
                assert(front[k] == created[k]);
            }
        }
    }
}

/// The results of a creation are for exactly the commits that a push reported as created.
pub proof fn law_results_are_what_was_pushed<S>(
    run: CreationRunView<S>,
    state: StackStateView,
    events: Seq<CreationEventView<S>>,
    oid: NonZeroOid,
)
    ensures
        creation_after(run, state, events).0.results.contains_key(oid) <==> (
        run.results.contains_key(oid) || exists|i: int| reported_at(run, state, events, oid, i)),
    decreases events.len(),
{
    if events.len() > 0 {
        let front = events.drop_last();
        let n = front.len() as int;
        law_results_are_what_was_pushed(run, state, front, oid);
        let (before, at) = creation_after(run, state, front);
        assert(events.take(n) =~= front);
        assert forall|i: int| 0 <= i < n implies #[trigger] reported_at(run, state, events, oid, i)
            == reported_at(run, state, front, oid, i) by {
            assert(events.take(i) =~= front.take(i));
            assert(events[i] == front[i]);
        }
        if exists|i: int| reported_at(run, state, front, oid, i) {
            let i = choose|i: int| reported_at(run, state, front, oid, i);
            assert(reported_at(run, state, events, oid, i));
        }
        if let CreationEventView::BranchPushed(created) = events.last() {
            lemma_with_results(before.results, created, oid);
        }
        if exists|i: int| reported_at(run, state, events, oid, i) {
            let i = choose|i: int| reported_at(run, state, events, oid, i);
            if i < n {
                assert(reported_at(run, state, front, oid, i));
            }
        }
        if before.phase is AwaitingPush && events.last() is BranchPushed {
            assert(reported_at(run, state, events, oid, n) <==> {
                let created = events.last()->BranchPushed_0;
                exists|k: int| 0 <= k < created.len() && (#[trigger] created[k]).0 == oid
            });
        }
    } else {
        assert(forall|i: int| !reported_at(run, state, events, oid, i));
    }
}

/// Where every call succeeds, one commit after the other gets its pull request: an issue is created
/// for the commit, a branch is named by the issue and created, the branch is pushed, and the issue
/// is converted into a pull request for the branch, which is based on the branch of its base. Then
/// the branch and the pull request are recorded, and the creation can go on.
pub proof fn law_one_pull_request_is_created<S>(
    run: CreationRunView<S>,
    state: StackStateView,
    index: int,
    issue_url: Seq<char>,
    outcome: BranchOutcome,
    created: Seq<(NonZeroOid, S)>,
    pr_url: Seq<char>,
)
    requires
        run.phase is Ready,
        0 <= run.position,
        next_wanted(state.commits, run.requested, run.position) == Some(index),
        issue_number(issue_url) is Some,
        outcome != BranchOutcome::Failed,
        base_branch(state.oids_to_branchless_refs, state.commits[index].1.pr_base) is Some,
    ensures
        ({
            let (oid, change) = state.commits[index];
            let issue_num = issue_number(issue_url)->0;
            let branch_name = pr_branch_name(run.pr_branch_prefix, issue_num);
            let branched = after_branch(state, index, branch_name);
            let first = creation_step(run, state, CreationEventView::Continue);
            let second = creation_step(
                first.run,
                first.state,
                CreationEventView::IssueCreated(issue_url),
            );
            let third = creation_step(
                second.run,
                second.state,
                CreationEventView::BranchAttempted(outcome),
            );
            let fourth = creation_step(
                third.run,
                third.state,
                CreationEventView::BranchPushed(created),
            );
            let fifth = creation_step(
                fourth.run,
                fourth.state,
                CreationEventView::PullRequestCreated(pr_url),
            );
            &&& first.action == CreationActionView::CreateIssue {
                oid,
                title: change.title,
                body: change.body,
            }
            &&& second.action == CreationActionView::CreateBranch { oid, branch_name }
            &&& third.action == CreationActionView::PushBranch {
                oid,
                commit_status: branched.commits[index].1.commit_status,
            }
            &&& fourth.action == CreationActionView::CreatePullRequest(
                PullRequestRequestView {
                    issue_num,
                    head_ref_name: branch_name,
                    base_ref_name: base_branch(
                        state.oids_to_branchless_refs,
                        change.pr_base,
                    )->0,
                    draft: run.draft,
                },
            )
            &&& fifth.action == CreationActionView::Progress
            &&& fifth.state == after_pull_request(branched, index, branch_name, issue_num, pr_url)
            &&& fifth.run == CreationRunView {
                position: index + 1,
                results: with_results(run.results, created),
                ..run
            }
        }),
{
    law_creation_goes_in_order(state.commits, run.requested, run.position);
}

/// What the calls for one commit answer, where all of them succeed.
pub struct CreationAnswers<S> {
    pub issue_url: Seq<char>,
    pub created: Seq<(NonZeroOid, S)>,
    pub pr_url: Seq<char>,
}

/// The events of the creation of one pull request, where every call succeeds.
pub open spec fn events_of_commit<S>(answers: CreationAnswers<S>) -> Seq<CreationEventView<S>> {
    seq![
        CreationEventView::Continue,
        CreationEventView::IssueCreated(answers.issue_url),
        CreationEventView::BranchAttempted(BranchOutcome::Created),
        CreationEventView::BranchPushed(answers.created),
        CreationEventView::PullRequestCreated(answers.pr_url),
    ]
}

/// The events of a creation for the first `count` tracked commits, where every call succeeds. The
/// answers are given for each tracked commit.
pub open spec fn successful_events<S>(
    commits: CommitsView,
    requested: Map<NonZeroOid, CommitStatusView>,
    answers: Seq<CreationAnswers<S>>,
    count: int,
) -> Seq<CreationEventView<S>>
    decreases count,
{
    if count <= 0 {
        Seq::empty()
    } else {
        let front = successful_events(commits, requested, answers, count - 1);
        if is_wanted(requested, commits[count - 1].0) {
            front + events_of_commit(answers[count - 1])
        } else {
            front
        }
    }
}

/// The numbers and the URLs of the pull requests that were created.
pub open spec fn numbers_and_urls<S>(answers: Seq<CreationAnswers<S>>) -> Seq<(usize, Seq<char>)> {
    Seq::new(
        answers.len(),
        |i: int| (issue_number(answers[i].issue_url)->0, answers[i].pr_url),
    )
}

proof fn lemma_creation_after_add<S>(
    run: CreationRunView<S>,
    state: StackStateView,
    front: Seq<CreationEventView<S>>,
    back: Seq<CreationEventView<S>>,
)
    ensures
        ({
            let (mid, at) = creation_after(run, state, front);
            creation_after(run, state, front + back) == creation_after(mid, at, back)
        }),
    decreases back.len(),
{
    if back.len() > 0 {
        lemma_creation_after_add(run, state, front, back.drop_last());
        assert((front + back).drop_last() =~= front + back.drop_last());
    } else {
        assert(front + back =~= front);
    }
}

proof fn lemma_events_of_commit<S>(
    run: CreationRunView<S>,
    state: StackStateView,
    answers: CreationAnswers<S>,
)
    ensures
        ({
            let first = creation_step(run, state, CreationEventView::Continue);
            let second = creation_step(
                first.run,
                first.state,
                CreationEventView::IssueCreated(answers.issue_url),
            );
            let third = creation_step(
                second.run,
                second.state,
                CreationEventView::BranchAttempted(BranchOutcome::Created),
            );
            let fourth = creation_step(
                third.run,
                third.state,
                CreationEventView::BranchPushed(answers.created),
            );
            let fifth = creation_step(
                fourth.run,
                fourth.state,
                CreationEventView::PullRequestCreated(answers.pr_url),
            );
            creation_after(run, state, events_of_commit(answers)) == (fifth.run, fifth.state)
        }),
{
    let events = events_of_commit(answers);
    let none = Seq::<CreationEventView<S>>::empty();
    assert(events.drop_last() =~= events.take(4));
    assert(events.take(4).drop_last() =~= events.take(3));
    assert(events.take(3).drop_last() =~= events.take(2));
    assert(events.take(2).drop_last() =~= events.take(1));
    assert(events.take(1).drop_last() =~= none);
    assert(creation_after(run, state, none) == (run, state));
    let first = creation_step(run, state, events[0]);
    assert(creation_after(run, state, events.take(1)) == (first.run, first.state));
    let second = creation_step(first.run, first.state, events[1]);
    assert(creation_after(run, state, events.take(2)) == (second.run, second.state));
    let third = creation_step(second.run, second.state, events[2]);
    assert(creation_after(run, state, events.take(3)) == (third.run, third.state));
    let fourth = creation_step(third.run, third.state, events[3]);
    assert(creation_after(run, state, events.take(4)) == (fourth.run, fourth.state));
}

proof fn lemma_next_wanted_by_ids(
    one: CommitsView,
    other: CommitsView,
    requested: Map<NonZeroOid, CommitStatusView>,
    from: int,
)
    requires
        0 <= from,
        one.len() == other.len(),
        forall|i: int| 0 <= i < one.len() ==> (#[trigger] one[i]).0 == other[i].0,
    ensures
        next_wanted(one, requested, from) == next_wanted(other, requested, from),
    decreases one.len() - from,
{
    if from < one.len() {
        assert(one[from].0 == other[from].0);
        lemma_next_wanted_by_ids(one, other, requested, from + 1);
    }
}

/// Where every call succeeds, a creation gives each wanted commit its branch and its pull request,
/// in the order in which the commits are tracked, and skips none of them. This holds as long as
/// every commit in the place of a base was tracked first and has a branch or is going to get one.
pub proof fn law_successful_creation<S>(
    run: CreationRunView<S>,
    state: StackStateView,
    answers: Seq<CreationAnswers<S>>,
    count: int,
)
    requires
        run.phase is Ready,
        run.position == 0,
        0 <= count <= state.commits.len(),
        answers.len() == state.commits.len(),
        forall|i: int|
            0 <= i < answers.len() ==> issue_number((#[trigger] answers[i]).issue_url) is Some,
        bases_come_first(state.commits),
        bases_covered(state, run.requested),
    ensures
        ({
            let events = successful_events(state.commits, run.requested, answers, count);
            let (end, after) = creation_after(run, state, events);
            &&& after == created_up_to(
                state,
                run.requested,
                run.pr_branch_prefix,
                numbers_and_urls(answers),
                count,
            )
            &&& end == CreationRunView {
                position: end.position,
                results: end.results,
                ..run
            }
            &&& 0 <= end.position <= count
            &&& next_wanted(state.commits, run.requested, end.position) == next_wanted(
                state.commits,
                run.requested,
                count,
            )
        }),
    decreases count,
{
    if count > 0 {
        let index = count - 1;
        let replies = numbers_and_urls(answers);
        let prefix = run.pr_branch_prefix;
        let front = successful_events(state.commits, run.requested, answers, index);
        law_successful_creation(run, state, answers, index);
        let (before, at) = creation_after(run, state, front);
        if is_wanted(run.requested, state.commits[index].0) {
            let answer = answers[index];
            lemma_created_up_to(state, run.requested, prefix, replies, index);
            lemma_next_wanted_by_ids(at.commits, state.commits, run.requested, before.position);
            law_creation_knows_every_base(state, run.requested, prefix, replies, index);
            law_one_pull_request_is_created(
                before,
                at,
                index,
                answer.issue_url,
                BranchOutcome::Created,
                answer.created,
                answer.pr_url,
            );
            lemma_events_of_commit(before, at, answer);
            lemma_creation_after_add(run, state, front, events_of_commit(answer));
        }
    }
}

/// An update that was told so many times to go on.
pub open spec fn update_after(run: UpdateRunView, count: int) -> UpdateRunView
    decreases count,
{
    if count <= 0 {
        run
    } else {
        update_step(update_after(run, count - 1), UpdateEvent::Continue).0
    }
}

/// The actions of an update are taken in their order up to the first one that fails: those in front
/// of it are done, the update ends with its exit code, and none of those behind it is handed out.
/// Where none fails all of them are done.
pub proof fn law_update_stops_at_first_failure(
    actions: Seq<UpdateActionView>,
    failed: int,
    exit_code: isize,
)
    requires
        0 <= failed <= actions.len() <= usize::MAX,
    ensures
        ({
            let start = UpdateRunView { actions, position: 0 };
            let before = update_after(start, failed);
            if failed < actions.len() {
                let (at, step) = update_step(before, UpdateEvent::Continue);
                &&& step == UpdateStep::Perform(failed as usize)
                &&& at.handed_out() == actions.take(failed + 1)
                &&& update_step(at, UpdateEvent::Failed(exit_code)) == (
                    at,
                    UpdateStep::Stop(exit_code),
                )
                &&& done_actions(at, Some(exit_code)) == actions.take(failed)
            } else {
                &&& update_step(before, UpdateEvent::Continue) == (before, UpdateStep::Finish)
                &&& done_actions(before, None) == actions
            }
        }),
{
    lemma_update_after(actions, failed);
    if failed == actions.len() {
        assert(actions.take(failed) =~= actions);
    }
}

proof fn lemma_update_after(actions: Seq<UpdateActionView>, count: int)
    requires
        0 <= count <= actions.len(),
    ensures
        update_after(UpdateRunView { actions, position: 0 }, count) == (UpdateRunView {
            actions,
            position: count,
        }),
    decreases count,
{
    if count > 0 {
        lemma_update_after(actions, count - 1);
    }
}

} // verus!
