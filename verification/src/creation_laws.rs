//! What each step of a creation names, records and asks for.

use crate::create::{
    after_branch, after_pull_request, issue_number, next_wanted, pr_branch_name,
    requested_statuses, BranchOutcome,
};
use crate::creation_run::{
    creation_step, with_results, CreationActionView, CreationEventView, CreationPhaseView, CreationRunView,
    CreationSkip, CreationStep, IssueRequestView,
};
use crate::create_laws::law_creation_goes_in_order;
use crate::forge::base_branch;
use crate::text::{
    decimal, is_digit, law_decimal_round_trip, lemma_decimal_digits, parsed_usize,
};
use crate::text_laws::law_text_behind_last_mark;
use crate::types::{
    CommitStatusView, CommitsView, NonZeroOid, RefOrOidView, StackStateView, SubmitStatus,
};
use vstd::prelude::*;

verus! {

/// The branch of a pull request is named by the prefix, `pr` and the number of the issue, all of it:
/// what follows the prefix and `pr` reads back as the number, and no zero is put in front.
pub proof fn law_branch_is_named_by_issue(prefix: Seq<char>, issue_num: usize)
    ensures
        ({
            let name = pr_branch_name(prefix, issue_num);
            let number = name.skip(prefix.len() as int + 2);
            &&& name.len() > prefix.len() + 2
            &&& name.take(prefix.len() as int) == prefix
            &&& name[prefix.len() as int] == 'p'
            &&& name[prefix.len() as int + 1] == 'r'
            &&& parsed_usize(number) == Some(issue_num)
            &&& forall|k: int| 0 <= k < number.len() ==> '0' <= #[trigger] number[k] <= '9'
            &&& issue_num > 0 ==> number[0] != '0'
        }),
{
    reveal_strlit("pr");
    let name = pr_branch_name(prefix, issue_num);
    let digits = decimal(issue_num as int);
    lemma_decimal_digits(issue_num as int);
    lemma_first_digit(issue_num as int);
    law_decimal_round_trip(issue_num);
    assert(name.skip(prefix.len() as int + 2) =~= digits);
    assert(name.take(prefix.len() as int) =~= prefix);
    assert forall|k: int| 0 <= k < digits.len() implies '0' <= #[trigger] digits[k] <= '9' by {
        assert(is_digit(digits[k]));
    }
}

proof fn lemma_first_digit(number: int)
    requires
        0 <= number,
    ensures
        decimal(number).len() > 0,
        number > 0 ==> decimal(number)[0] != '0',
    decreases number,
{
    if number >= 10 {
        lemma_first_digit(number / 10);
    }
}

/// Different issues give different branches.
pub proof fn law_branches_of_issues_differ(prefix: Seq<char>, one: usize, other: usize)
    requires
        pr_branch_name(prefix, one) == pr_branch_name(prefix, other),
    ensures
        one == other,
{
    law_branch_is_named_by_issue(prefix, one);
    law_branch_is_named_by_issue(prefix, other);
}

/// The number of an issue is what follows the last slash of its URL, if that is a number, whatever
/// stands in front. A URL without a slash has none.
pub proof fn law_issue_number_follows_last_slash(front: Seq<char>, back: Seq<char>)
    requires
        !back.contains('/'),
    ensures
        issue_number(front.push('/') + back) == parsed_usize(back),
        issue_number(back) is None,
{
    law_text_behind_last_mark(front, '/', back);
}

/// The next commit to get a pull request is the first one, not before the given index, that was
/// asked for as unsubmitted. Nothing else that is known of a commit has a say.
pub proof fn law_next_commit_is_first_unsubmitted(
    commits: CommitsView,
    requested: Map<NonZeroOid, CommitStatusView>,
    from: int,
)
    requires
        0 <= from,
    ensures
        match next_wanted(commits, requested, from) {
            Some(next) => {
                &&& from <= next < commits.len()
                &&& requested.contains_key(commits[next].0)
                &&& requested[commits[next].0].submit_status == SubmitStatus::Unsubmitted
                &&& forall|i: int|
                    from <= i < next && requested.contains_key((#[trigger] commits[i]).0)
                        ==> requested[commits[i].0].submit_status != SubmitStatus::Unsubmitted
            },
            None => forall|i: int|
                from <= i < commits.len() && requested.contains_key((#[trigger] commits[i]).0)
                    ==> requested[commits[i].0].submit_status != SubmitStatus::Unsubmitted,
        },
    decreases commits.len() - from,
{
    if from < commits.len() && !(requested.contains_key(commits[from].0)
        && requested[commits[from].0].submit_status == SubmitStatus::Unsubmitted) {
        law_next_commit_is_first_unsubmitted(commits, requested, from + 1);
    }
}

/// A new branch is recorded as the name of its commit, locally and remotely. Nothing else of the
/// commit changes, nor anything of other commits, of the stacks and of the branches that stand for
/// commits.
pub proof fn law_branch_is_recorded(
    state: StackStateView,
    index: int,
    branch_name: Seq<char>,
    i: int,
)
    requires
        0 <= index < state.commits.len(),
        0 <= i < state.commits.len(),
    ensures
        ({
            let after = after_branch(state, index, branch_name);
            let old_change = state.commits[index].1;
            let new_change = after.commits[index].1;
            &&& after.commits.len() == state.commits.len()
            &&& i != index ==> after.commits[i] == state.commits[i]
            &&& after.commits[index].0 == state.commits[index].0
            &&& new_change.commit_status.local_commit_name == Some(branch_name)
            &&& new_change.commit_status.remote_commit_name == Some(branch_name)
            &&& new_change.commit_status.remote_name == old_change.commit_status.remote_name
            &&& new_change.commit_status.submit_status == old_change.commit_status.submit_status
            &&& new_change.oid == old_change.oid
            &&& new_change.should_push == old_change.should_push
            &&& new_change.should_update_pr == old_change.should_update_pr
            &&& new_change.pr_url == old_change.pr_url
            &&& new_change.pr_number == old_change.pr_number
            &&& new_change.pr_base == old_change.pr_base
            &&& new_change.title == old_change.title
            &&& new_change.body == old_change.body
            &&& after.stacks == state.stacks
            &&& after.oids_to_branchless_refs == state.oids_to_branchless_refs
        }),
{
}

/// A new pull request is recorded with its number and its URL. Its commit was pushed, and needs an
/// update from now on. Its branch stands for the commit, unless another one does. Nothing else
/// changes.
pub proof fn law_pull_request_is_recorded(
    state: StackStateView,
    index: int,
    branch_name: Seq<char>,
    issue_num: usize,
    pr_url: Seq<char>,
    i: int,
)
    requires
        0 <= index < state.commits.len(),
        0 <= i < state.commits.len(),
    ensures
        ({
            let after = after_pull_request(state, index, branch_name, issue_num, pr_url);
            let oid = state.commits[index].0;
            let refs = state.oids_to_branchless_refs;
            let old_change = state.commits[index].1;
            let new_change = after.commits[index].1;
            &&& after.commits.len() == state.commits.len()
            &&& i != index ==> after.commits[i] == state.commits[i]
            &&& after.commits[index].0 == oid
            &&& new_change.pr_number == Some(issue_num)
            &&& new_change.pr_url == Some(pr_url)
            &&& new_change.commit_status.submit_status == SubmitStatus::NeedsUpdate
            &&& !new_change.should_push
            &&& new_change.commit_status.local_commit_name
                == old_change.commit_status.local_commit_name
            &&& new_change.commit_status.remote_commit_name
                == old_change.commit_status.remote_commit_name
            &&& new_change.commit_status.remote_name == old_change.commit_status.remote_name
            &&& new_change.oid == old_change.oid
            &&& new_change.should_update_pr == old_change.should_update_pr
            &&& new_change.pr_base == old_change.pr_base
            &&& new_change.title == old_change.title
            &&& new_change.body == old_change.body
            &&& after.stacks == state.stacks
            &&& !refs.contains_key(oid) ==> after.oids_to_branchless_refs == refs.insert(
                oid,
                branch_name,
            )
            &&& refs.contains_key(oid) ==> after.oids_to_branchless_refs == refs
        }),
{
}

/// A creation that is told to go on asks for the issue of the next commit, with the title and the
/// body of the commit as they are.
pub proof fn law_issue_has_title_and_body<S>(
    run: CreationRunView<S>,
    state: StackStateView,
    index: int,
)
    requires
        run.phase is Ready,
        next_wanted(state.commits, run.requested, run.position) == Some(index),
    ensures
        ({
            let (oid, change) = state.commits[index];
            let step = creation_step(run, state, CreationEventView::Continue);
            &&& step.action == CreationActionView::CreateIssue {
                oid,
                title: change.title,
                body: change.body,
            }
            &&& step.state == state
            &&& step.run == CreationRunView {
                position: index + 1,
                phase: CreationPhaseView::AwaitingIssue(
                    IssueRequestView { index, oid, title: change.title, body: change.body },
                ),
                ..run
            }
        }),
{
}

/// A creation that has no commit left asks for the update of the commits that were asked for, and is
/// finished when that is done.
pub proof fn law_creation_ends_with_update<S>(run: CreationRunView<S>, state: StackStateView)
    requires
        run.phase is Ready,
        0 <= run.position,
        next_wanted(state.commits, run.requested, run.position) is None,
    ensures
        ({
            let step = creation_step(run, state, CreationEventView::Continue);
            let last = creation_step(step.run, step.state, CreationEventView::Updated);
            &&& step.action == CreationActionView::Update {
                commits: requested_statuses(state.commits, run.requested),
            }
            &&& step.state == state
            &&& step.run.results == run.results
            &&& last.action == CreationActionView::Finish
            &&& last.state == state
            &&& last.run.results == run.results
            &&& last.run.phase is Finished
        }),
{
    law_creation_goes_in_order(state.commits, run.requested, run.position);
}

/// A commit whose issue has no number is given up: nothing is recorded, and the creation can go on.
pub proof fn law_malformed_issue_is_given_up<S>(
    run: CreationRunView<S>,
    state: StackStateView,
    url: Seq<char>,
)
    requires
        run.phase is AwaitingIssue,
        issue_number(url) is None,
    ensures
        creation_step(run, state, CreationEventView::IssueCreated(url)) == (CreationStep {
            run: CreationRunView { phase: CreationPhaseView::Ready, ..run },
            state,
            action: CreationActionView::Skip {
                oid: run.phase->AwaitingIssue_0.oid,
                reason: CreationSkip::MalformedIssueUrl,
            },
        }),
{
}

/// A commit whose base has no branch is given up once it was pushed: its result is kept, and the
/// creation can go on. No other commit is given up then.
pub proof fn law_unknown_base_is_given_up<S>(
    run: CreationRunView<S>,
    state: StackStateView,
    created: Seq<(NonZeroOid, S)>,
)
    requires
        run.phase is AwaitingPush,
    ensures
        ({
            let branch = run.phase->AwaitingPush_0;
            let base = state.commits[branch.index].1.pr_base;
            let step = creation_step(run, state, CreationEventView::BranchPushed(created));
            &&& step.state == state
            &&& (base matches RefOrOidView::Oid(oid) && !state.oids_to_branchless_refs.contains_key(
                oid,
            )) <==> step.action == CreationActionView::Skip {
                oid: branch.oid,
                reason: CreationSkip::UnknownBase,
            }
            &&& (base matches RefOrOidView::Oid(oid) && !state.oids_to_branchless_refs.contains_key(
                oid,
            )) ==> step.run.phase is Ready
        }),
{
    let base = state.commits[run.phase->AwaitingPush_0.index].1.pr_base;
    if base_branch(state.oids_to_branchless_refs, base) is None {
        assert(base is Oid);
    }
}

/// Where a branch could not be created the creation ends, and nothing is recorded.
pub proof fn law_missing_branch_aborts<S>(run: CreationRunView<S>, state: StackStateView)
    requires
        run.phase is AwaitingBranch,
    ensures
        creation_step(
            run,
            state,
            CreationEventView::BranchAttempted(BranchOutcome::Failed),
        ) == (CreationStep { run, state, action: CreationActionView::Abort }),
        creation_step(
            run,
            state,
            CreationEventView::BranchAttempted(BranchOutcome::Exists),
        ) == creation_step(
            run,
            state,
            CreationEventView::BranchAttempted(BranchOutcome::Created),
        ),
{
}

/// An event that does not answer the last action changes nothing.
pub proof fn law_mismatch_changes_nothing<S>(
    run: CreationRunView<S>,
    state: StackStateView,
    event: CreationEventView<S>,
)
    requires
        event !is Failed,
        event is Continue ==> run.phase !is Ready,
        event is IssueCreated ==> run.phase !is AwaitingIssue,
        event is BranchAttempted ==> run.phase !is AwaitingBranch,
        event is BranchPushed ==> run.phase !is AwaitingPush,
        event is PullRequestCreated ==> run.phase !is AwaitingPullRequest,
        event is Updated ==> run.phase !is AwaitingUpdate,
    ensures
        creation_step(run, state, event) == (CreationStep {
            run,
            state,
            action: CreationActionView::Mismatch,
        }),
{
}

/// The branch that a creation asks for is named by the prefix and the whole number at the end of the
/// URL of the issue, and it is for the commit that the issue is for.
pub proof fn law_branch_is_asked_for<S>(
    run: CreationRunView<S>,
    state: StackStateView,
    front: Seq<char>,
    issue_num: usize,
)
    requires
        run.phase is AwaitingIssue,
    ensures
        ({
            let issue = run.phase->AwaitingIssue_0;
            let url = front.push('/') + decimal(issue_num as int);
            let step = creation_step(run, state, CreationEventView::IssueCreated(url));
            let name = step.action->CreateBranch_branch_name;
            &&& step.action is CreateBranch
            &&& step.action->CreateBranch_oid == issue.oid
            &&& run.pr_branch_prefix.is_prefix_of(name)
            &&& parsed_usize(name.skip(run.pr_branch_prefix.len() as int + 2)) == Some(issue_num)
            &&& step.state == state
        }),
{
    let digits = decimal(issue_num as int);
    lemma_decimal_digits(issue_num as int);
    assert(!digits.contains('/')) by {
        if digits.contains('/') {
            let k = choose|k: int| 0 <= k < digits.len() && digits[k] == '/';
            assert(is_digit(digits[k]));
        }
    }
    law_issue_number_follows_last_slash(front, digits);
    law_decimal_round_trip(issue_num);
    law_branch_is_named_by_issue(run.pr_branch_prefix, issue_num);
    let name = pr_branch_name(run.pr_branch_prefix, issue_num);
    assert(name.subrange(0, run.pr_branch_prefix.len() as int) =~= name.take(
        run.pr_branch_prefix.len() as int,
    ));
}

/// Each thing that a push reports is kept under its commit, and a later report takes the place of an
/// earlier one.
pub proof fn law_every_report_is_kept<S>(
    results: Map<NonZeroOid, S>,
    created: Seq<(NonZeroOid, S)>,
    oid: NonZeroOid,
    status: S,
)
    ensures
        with_results(results, Seq::empty()) == results,
        with_results(results, created.push((oid, status))) == with_results(results, created).insert(
            oid,
            status,
        ),
{
    assert(created.push((oid, status)).drop_last() =~= created);
}

} // verus!
