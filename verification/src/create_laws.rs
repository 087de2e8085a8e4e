//! What holds of the branches and pull requests that a submission creates and updates.

use crate::create::{
    after_branch, after_pull_request, is_wanted, issue_number, next_wanted, pr_branch_name,
    requested_statuses,
};
use crate::forge::{
    base_branch, branchless_refs, last_with_prefix, lemma_tracked_at, tracked_statuses,
};
use crate::formatter::pr_body;
use crate::status::StatusEnv;
use crate::status_laws::{
    bases_come_first, has_branch_or_waits, law_query_finds_every_base, queried, waits_at,
    QueryState, StackReply,
};
use crate::text::{
    decimal, is_digit, law_decimal_round_trip, lemma_decimal_digits, stands_last_at,
};
use crate::types::{
    tracked_at, CommitStatusView, CommitsView, NonZeroOid, RefOrOidView, StackStateView,
    SubmitStatus,
};
use crate::update::{
    commit_actions, passed_over, pull_request_actions, update_actions, UpdateActionView,
};
use vstd::prelude::*;

verus! {

/// Whether every branch begins with the prefix.
pub open spec fn all_begin_with(refs: Map<NonZeroOid, Seq<char>>, prefix: Seq<char>) -> bool {
    forall|oid: NonZeroOid| #[trigger]
        refs.contains_key(oid) ==> prefix.is_prefix_of(refs[oid])
}

proof fn lemma_last_with_prefix(names: Seq<Seq<char>>, prefix: Seq<char>)
    ensures
        last_with_prefix(names, prefix) is Some ==> prefix.is_prefix_of(
            last_with_prefix(names, prefix)->0,
        ) && names.contains(last_with_prefix(names, prefix)->0),
        last_with_prefix(names, prefix) is None ==> forall|i: int|
            0 <= i < names.len() ==> !prefix.is_prefix_of(#[trigger] names[i]),
    decreases names.len(),
{
    if names.len() > 0 {
        let front = names.drop_last();
        lemma_last_with_prefix(front, prefix);
        if prefix.is_prefix_of(names.last()) {
            assert(names[names.len() - 1] == names.last());
        } else if last_with_prefix(front, prefix) is Some {
            let i = choose|i: int|
                0 <= i < front.len() && front[i] == last_with_prefix(front, prefix)->0;
            assert(names[i] == front[i]);
        } else {
            assert forall|i: int| 0 <= i < names.len() implies !prefix.is_prefix_of(
                #[trigger] names[i],
            ) by {
                if i < front.len() {
                    assert(names[i] == front[i]);
                }
            }
        }
    }
}

/// The branch that is picked for a commit begins with the prefix and points to the commit. A
/// commit that has a branch with the prefix gets one.
pub proof fn law_picked_branches(
    references: Seq<(NonZeroOid, Seq<Seq<char>>)>,
    prefix: Seq<char>,
)
    ensures
        all_begin_with(branchless_refs(references, prefix), prefix),
        forall|oid: NonZeroOid| #[trigger]
            branchless_refs(references, prefix).contains_key(oid) ==> exists|i: int|
                0 <= i < references.len() && (#[trigger] references[i]).0 == oid
                    && references[i].1.contains(branchless_refs(references, prefix)[oid]),
        forall|i: int, j: int|
            0 <= i < references.len() && 0 <= j < references[i].1.len() && prefix.is_prefix_of(
                #[trigger] references[i].1[j],
            ) ==> branchless_refs(references, prefix).contains_key(references[i].0),
    decreases references.len(),
{
    if references.len() > 0 {
        let front = references.drop_last();
        let refs = branchless_refs(references, prefix);
        law_picked_branches(front, prefix);
        lemma_last_with_prefix(references.last().1, prefix);
        assert(references[references.len() - 1] == references.last());
        assert forall|oid: NonZeroOid| #[trigger] refs.contains_key(oid) implies exists|i: int|
            0 <= i < references.len() && (#[trigger] references[i]).0 == oid
                && references[i].1.contains(refs[oid]) by {
            if oid == references.last().0 && last_with_prefix(references.last().1, prefix) is Some {
                assert(references[references.len() - 1].0 == oid);
            } else {
                let i = choose|i: int|
                    0 <= i < front.len() && (#[trigger] front[i]).0 == oid && front[i].1.contains(
                        branchless_refs(front, prefix)[oid],
                    );
                assert(references[i] == front[i]);
            }
        }
        assert forall|i: int, j: int|
            0 <= i < references.len() && 0 <= j < references[i].1.len() && prefix.is_prefix_of(
                #[trigger] references[i].1[j],
            ) implies refs.contains_key(references[i].0) by {
            if i < front.len() {
                assert(front[i].1[j] == references[i].1[j]);
            }
        }
    }
}

/// The branch of a new pull request begins with the prefix, so every managed branch still does
/// once the pull request was recorded.
pub proof fn law_creation_keeps_prefix(
    state: StackStateView,
    index: int,
    prefix: Seq<char>,
    issue_num: usize,
    pr_url: Seq<char>,
)
    requires
        0 <= index < state.commits.len(),
        all_begin_with(state.oids_to_branchless_refs, prefix),
    ensures
        prefix.is_prefix_of(pr_branch_name(prefix, issue_num)),
        all_begin_with(
            after_pull_request(
                state,
                index,
                pr_branch_name(prefix, issue_num),
                issue_num,
                pr_url,
            ).oids_to_branchless_refs,
            prefix,
        ),
{
    let name = pr_branch_name(prefix, issue_num);
    assert(name.subrange(0, prefix.len() as int) =~= prefix);
}

/// Once the pull request of a commit was recorded, the commit stands for a branch wherever it is
/// the base of a pull request: for the new one, unless it had one before. What other bases stand
/// for does not change.
pub proof fn law_created_commit_is_a_base(
    state: StackStateView,
    index: int,
    branch_name: Seq<char>,
    issue_num: usize,
    pr_url: Seq<char>,
    base: RefOrOidView,
)
    requires
        0 <= index < state.commits.len(),
    ensures
        ({
            let refs = state.oids_to_branchless_refs;
            let after = after_pull_request(state, index, branch_name, issue_num, pr_url);
            let created = RefOrOidView::Oid(state.commits[index].0);
            &&& base_branch(after.oids_to_branchless_refs, created) == (if base_branch(
                refs,
                created,
            ) is Some {
                base_branch(refs, created)
            } else {
                Some(branch_name)
            })
            &&& base != created ==> base_branch(after.oids_to_branchless_refs, base)
                == base_branch(refs, base)
        }),
{
}

/// The number of an issue is found in every URL that ends in a slash and the number.
pub proof fn law_issue_number_of_url(front: Seq<char>, number: usize)
    ensures
        issue_number(front.push('/') + decimal(number as int)) == Some(number),
{
    let digits = decimal(number as int);
    let url = front.push('/') + digits;
    lemma_decimal_digits(number as int);
    assert(stands_last_at(url, '/', front.len() as int)) by {
        assert forall|j: int| front.len() < j < url.len() implies url[j] != '/' by {
            assert(url[j] == digits[j - front.len() - 1]);
            assert(is_digit(digits[j - front.len() - 1]));
        }
    }
    let last = choose|i: int| stands_last_at(url, '/', i);
    assert(last == front.len());
    assert(url.skip(last + 1) =~= digits);
    law_decimal_round_trip(number);
}

/// Commits get their pull requests in the order in which they are tracked: the next one is the
/// first, from where the last one was left, that is unsubmitted and was asked for. None is left
/// out, and there is no next one only if there is no such commit.
pub proof fn law_creation_goes_in_order(
    commits: CommitsView,
    requested: Map<NonZeroOid, CommitStatusView>,
    from: int,
)
    requires
        0 <= from,
    ensures
        match next_wanted(commits, requested, from) {
            Some(next) => {
                &&& from <= next < commits.len()
                &&& is_wanted(requested, commits[next].0)
                &&& forall|i: int|
                    from <= i < next ==> !is_wanted(requested, (#[trigger] commits[i]).0)
            },
            None => forall|i: int|
                from <= i < commits.len() ==> !is_wanted(requested, (#[trigger] commits[i]).0),
        },
    decreases commits.len() - from,
{
    if from < commits.len() && !is_wanted(requested, commits[from].0) {
        law_creation_goes_in_order(commits, requested, from + 1);
    }
}

/// The state once each of the first `count` commits that were wanted got a branch and a pull
/// request, given the number and the URL of the pull request of each tracked commit.
pub open spec fn created_up_to(
    state: StackStateView,
    requested: Map<NonZeroOid, CommitStatusView>,
    prefix: Seq<char>,
    replies: Seq<(usize, Seq<char>)>,
    count: int,
) -> StackStateView
    decreases count,
{
    if count <= 0 {
        state
    } else {
        let index = count - 1;
        let before = created_up_to(state, requested, prefix, replies, index);
        let (issue_num, pr_url) = replies[index];
        let branch_name = pr_branch_name(prefix, issue_num);
        if is_wanted(requested, state.commits[index].0) {
            after_pull_request(
                after_branch(before, index, branch_name),
                index,
                branch_name,
                issue_num,
                pr_url,
            )
        } else {
            before
        }
    }
}

/// Whether each commit that a pull request is based on has a branch or is going to get one.
pub open spec fn bases_covered(
    state: StackStateView,
    requested: Map<NonZeroOid, CommitStatusView>,
) -> bool {
    forall|i: int|
        0 <= i < state.commits.len() ==> match (#[trigger] state.commits[i]).1.pr_base {
            RefOrOidView::Oid(oid) => state.oids_to_branchless_refs.contains_key(oid) || is_wanted(
                requested,
                oid,
            ),
            RefOrOidView::Branch(_) => true,
        }
}

/// Creating pull requests changes neither which commits are tracked nor what they are based on.
/// Every commit that had a branch keeps it, and those that got a pull request have one.
pub proof fn lemma_created_up_to(
    state: StackStateView,
    requested: Map<NonZeroOid, CommitStatusView>,
    prefix: Seq<char>,
    replies: Seq<(usize, Seq<char>)>,
    count: int,
)
    requires
        0 <= count <= state.commits.len(),
    ensures
        ({
            let after = created_up_to(state, requested, prefix, replies, count);
            &&& after.commits.len() == state.commits.len()
            &&& forall|i: int|
                0 <= i < state.commits.len() ==> (#[trigger] after.commits[i]).0
                    == state.commits[i].0 && after.commits[i].1.pr_base
                    == state.commits[i].1.pr_base && after.commits[i].1.oid
                    == state.commits[i].1.oid
            &&& forall|oid: NonZeroOid|
                state.oids_to_branchless_refs.contains_key(oid)
                    ==> #[trigger] after.oids_to_branchless_refs.contains_key(oid)
            &&& forall|i: int|
                0 <= i < count && is_wanted(requested, (#[trigger] state.commits[i]).0)
                    ==> after.oids_to_branchless_refs.contains_key(state.commits[i].0)
        }),
    decreases count,
{
    if count > 0 {
        lemma_created_up_to(state, requested, prefix, replies, count - 1);
    }
}

/// When it is the turn of a commit, the branch that its pull request is based on is known. This
/// holds as long as every commit in the place of a base was tracked first and has a branch or is
/// going to get one, and as long as the creation before it succeeded.
pub proof fn law_creation_knows_every_base(
    state: StackStateView,
    requested: Map<NonZeroOid, CommitStatusView>,
    prefix: Seq<char>,
    replies: Seq<(usize, Seq<char>)>,
    index: int,
)
    requires
        0 <= index < state.commits.len(),
        bases_come_first(state.commits),
        bases_covered(state, requested),
    ensures
        ({
            let before = created_up_to(state, requested, prefix, replies, index);
            base_branch(before.oids_to_branchless_refs, before.commits[index].1.pr_base) is Some
        }),
{
    lemma_created_up_to(state, requested, prefix, replies, index);
    let before = created_up_to(state, requested, prefix, replies, index);
    assert(before.commits[index].1.pr_base == state.commits[index].1.pr_base);
    if let RefOrOidView::Oid(base) = state.commits[index].1.pr_base {
        let k = choose|k: int| 0 <= k < index && tracked_at(state.commits, base, k);
        assert(state.commits[k].0 == base);
    }
}

/// Where pull requests are created for all commits that a query found, the branch that each of
/// them is based on is known when it is its turn, as long as the creation before it succeeded.
pub proof fn law_queried_stacks_have_known_bases(
    env: StatusEnv,
    create_unsubmitted: bool,
    at: QueryState,
    stacks: Seq<StackReply>,
    prefix: Seq<char>,
    replies: Seq<(usize, Seq<char>)>,
    index: int,
)
    requires
        at.state.commits.len() == 0,
        forall|k: int|
            0 <= k < stacks.len() ==> (#[trigger] stacks[k]).messages.len()
                <= stacks[k].head_first.len(),
        0 <= index < queried(env, create_unsubmitted, at, stacks).state.commits.len(),
    ensures
        ({
            let state = queried(env, create_unsubmitted, at, stacks).state;
            let before = created_up_to(
                state,
                tracked_statuses(state.commits),
                prefix,
                replies,
                index,
            );
            base_branch(before.oids_to_branchless_refs, before.commits[index].1.pr_base) is Some
        }),
{
    let state = queried(env, create_unsubmitted, at, stacks).state;
    let requested = tracked_statuses(state.commits);
    law_query_finds_every_base(env, create_unsubmitted, at, stacks);
    assert forall|i: int| 0 <= i < state.commits.len() implies match (
    #[trigger] state.commits[i]).1.pr_base {
        RefOrOidView::Oid(oid) => state.oids_to_branchless_refs.contains_key(oid) || is_wanted(
            requested,
            oid,
        ),
        RefOrOidView::Branch(_) => true,
    } by {
        assert(has_branch_or_waits(state.commits, state.commits[i].1.pr_base));
        if let RefOrOidView::Oid(oid) = state.commits[i].1.pr_base {
            let k = choose|k: int| waits_at(state.commits, oid, k);
            lemma_tracked_at(state, k);
        }
    }
    law_creation_knows_every_base(state, requested, prefix, replies, index);
}

/// What is done for a commit is part of what is done for all commits.
proof fn lemma_commit_actions_included(
    state: StackStateView,
    requested: Map<NonZeroOid, CommitStatusView>,
    expand_details: bool,
    count: int,
    i: int,
    k: int,
)
    requires
        0 <= i < count <= state.commits.len(),
        0 <= k < commit_actions(state, requested, expand_details, i).len(),
    ensures
        update_actions(state, requested, expand_details, count).contains(
            commit_actions(state, requested, expand_details, i)[k],
        ),
    decreases count,
{
    let action = commit_actions(state, requested, expand_details, i)[k];
    let front = update_actions(state, requested, expand_details, count - 1);
    let all = update_actions(state, requested, expand_details, count);
    if i < count - 1 {
        lemma_commit_actions_included(state, requested, expand_details, count - 1, i, k);
        let m = choose|m: int| 0 <= m < front.len() && front[m] == action;
        assert(all[m] == action);
    } else {
        assert(all[front.len() + k] == action);
    }
}

/// An update deals with the commits in the order in which they are tracked: what is done for a
/// commit directly follows what is done for those before it, and nothing is done for a commit
/// that is passed over.
pub proof fn law_update_goes_in_order(
    state: StackStateView,
    requested: Map<NonZeroOid, CommitStatusView>,
    expand_details: bool,
    count: int,
    i: int,
)
    requires
        0 <= i < count <= state.commits.len(),
    ensures
        (update_actions(state, requested, expand_details, i) + commit_actions(
            state,
            requested,
            expand_details,
            i,
        )).is_prefix_of(update_actions(state, requested, expand_details, count)),
        passed_over(requested, state.commits[i].0) ==> commit_actions(
            state,
            requested,
            expand_details,
            i,
        ).len() == 0,
    decreases count,
{
    let up_to = update_actions(state, requested, expand_details, i + 1);
    let all = update_actions(state, requested, expand_details, count);
    if i < count - 1 {
        law_update_goes_in_order(state, requested, expand_details, count - 1, i);
        let front = update_actions(state, requested, expand_details, count - 1);
        assert(forall|m: int| 0 <= m < up_to.len() ==> front[m] == up_to[m]);
        assert(all.subrange(0, up_to.len() as int) =~= up_to);
    }
}

/// Whatever an update does, it does for a tracked commit that is not passed over.
pub proof fn law_update_concerns_outdated_commits(
    state: StackStateView,
    requested: Map<NonZeroOid, CommitStatusView>,
    expand_details: bool,
    count: int,
    action: UpdateActionView,
)
    requires
        0 <= count <= state.commits.len(),
        update_actions(state, requested, expand_details, count).contains(action),
    ensures
        exists|i: int|
            0 <= i < count && !passed_over(requested, state.commits[i].0) && (
            #[trigger] commit_actions(state, requested, expand_details, i)).contains(action),
    decreases count,
{
    let all = update_actions(state, requested, expand_details, count);
    let front = update_actions(state, requested, expand_details, count - 1);
    let last = commit_actions(state, requested, expand_details, count - 1);
    let m = choose|m: int| 0 <= m < all.len() && all[m] == action;
    if m < front.len() {
        assert(front[m] == action);
        law_update_concerns_outdated_commits(
            state,
            requested,
            expand_details,
            count - 1,
            action,
        );
        let i = choose|i: int|
            0 <= i < count - 1 && !passed_over(requested, state.commits[i].0) && (
            #[trigger] commit_actions(state, requested, expand_details, i)).contains(action);
        assert(commit_actions(state, requested, expand_details, i).contains(action));
    } else {
        assert(last[m - front.len()] == action);
        assert(last.contains(action));
    }
}

/// A pull request that was just created gets its title, its base and its body with the stack
/// section in the update that follows, and its branch is not pushed a second time.
pub proof fn law_created_pull_request_gets_updated(
    state: StackStateView,
    requested: Map<NonZeroOid, CommitStatusView>,
    expand_details: bool,
    index: int,
    branch_name: Seq<char>,
    issue_num: usize,
    pr_url: Seq<char>,
)
    requires
        state.well_formed(),
        0 <= index < state.commits.len(),
        requested.contains_key(state.commits[index].0),
        state.commits[index].1.should_update_pr,
        base_branch(state.oids_to_branchless_refs, state.commits[index].1.pr_base) is Some,
    ensures
        ({
            let branched = after_branch(state, index, branch_name);
            let created = after_pull_request(branched, index, branch_name, issue_num, pr_url);
            let statuses = requested_statuses(created.commits, requested);
            let update = UpdateActionView::UpdatePullRequest {
                oid: state.commits[index].0,
                pr_number: issue_num,
                base_ref_name: base_branch(
                    state.oids_to_branchless_refs,
                    state.commits[index].1.pr_base,
                )->0,
                title: state.commits[index].1.title,
                body: pr_body(created, state.commits[index].0, expand_details),
            };
            &&& commit_actions(created, statuses, expand_details, index) == seq![
                update,
                UpdateActionView::Progress,
            ]
            &&& update_actions(
                created,
                statuses,
                expand_details,
                created.commits.len() as int,
            ).contains(update)
        }),
{
    let oid = state.commits[index].0;
    let branched = after_branch(state, index, branch_name);
    let created = after_pull_request(branched, index, branch_name, issue_num, pr_url);
    let statuses = requested_statuses(created.commits, requested);
    assert(created.well_formed()) by {
        assert forall|i: int| 0 <= i < created.commits.len() implies created.commits[i].0
            == state.commits[i].0 by {}
    }
    lemma_tracked_at(created, index);
    assert(statuses.contains_key(oid));
    assert(statuses[oid].submit_status == SubmitStatus::NeedsUpdate);
    let actions = commit_actions(created, statuses, expand_details, index);
    assert(actions =~= pull_request_actions(created, expand_details, index));
    lemma_commit_actions_included(
        created,
        statuses,
        expand_details,
        created.commits.len() as int,
        index,
        0,
    );
}

/// A pull request that is to be updated gets its title, its base and its body with the stack
/// section in an update of all tracked commits, as long as its base is known.
pub proof fn law_outdated_pull_request_gets_updated(
    state: StackStateView,
    expand_details: bool,
    index: int,
)
    requires
        state.well_formed(),
        0 <= index < state.commits.len(),
        state.commits[index].1.commit_status.submit_status == SubmitStatus::NeedsUpdate,
        state.commits[index].1.should_update_pr,
        state.commits[index].1.pr_number is Some,
        base_branch(state.oids_to_branchless_refs, state.commits[index].1.pr_base) is Some,
    ensures
        update_actions(
            state,
            tracked_statuses(state.commits),
            expand_details,
            state.commits.len() as int,
        ).contains(
            UpdateActionView::UpdatePullRequest {
                oid: state.commits[index].0,
                pr_number: state.commits[index].1.pr_number->0,
                base_ref_name: base_branch(
                    state.oids_to_branchless_refs,
                    state.commits[index].1.pr_base,
                )->0,
                title: state.commits[index].1.title,
                body: pr_body(state, state.commits[index].0, expand_details),
            },
        ),
{
    let requested = tracked_statuses(state.commits);
    lemma_tracked_at(state, index);
    let actions = commit_actions(state, requested, expand_details, index);
    let k: int = if state.commits[index].1.should_push {
        1
    } else {
        0
    };
    assert(actions[k] == pull_request_actions(state, expand_details, index)[0]);
    lemma_commit_actions_included(
        state,
        requested,
        expand_details,
        state.commits.len() as int,
        index,
        k,
    );
}

/// If every tracked commit is up to date, an update of all of them does nothing.
pub proof fn law_nothing_to_update(state: StackStateView, expand_details: bool, count: int)
    requires
        state.well_formed(),
        0 <= count <= state.commits.len(),
        forall|i: int|
            0 <= i < state.commits.len() ==> (
            #[trigger] state.commits[i]).1.commit_status.submit_status == SubmitStatus::UpToDate,
    ensures
        update_actions(state, tracked_statuses(state.commits), expand_details, count) == Seq::<
            UpdateActionView,
        >::empty(),
    decreases count,
{
    if count > 0 {
        law_nothing_to_update(state, expand_details, count - 1);
        lemma_tracked_at(state, count - 1);
        assert(passed_over(tracked_statuses(state.commits), state.commits[count - 1].0));
    }
}

} // verus!
