//! What an update does for each commit, told by what is known of the commit.

use crate::client::{grouped, PullRequestInfoView};
use crate::forge::tracked_statuses;
use crate::formatter::pr_body;
use crate::lookup_laws::{law_listed_pull_request_is_found, law_statuses_are_those_recorded};
use crate::query_laws::{
    complete_messages, law_query_takes_pull_request_over, law_query_tells_what_differs,
    law_query_tracks_its_stacks, query_context, query_outcome,
};
use crate::status::StatusEnv;
use crate::status_laws::{QueryState, StackReply};
use crate::types::{CommitStatusView, NonZeroOid, RefOrOidView, StackStateView, SubmitStatus};
use crate::update::{update_actions, SkipReason, UpdateActionView};
use vstd::prelude::*;

verus! {

/// Whether a commit was asked for as one that needs an update.
pub open spec fn is_asked_for(
    requested: Map<NonZeroOid, CommitStatusView>,
    oid: NonZeroOid,
) -> bool {
    requested.contains_key(oid) && requested[oid].submit_status == SubmitStatus::NeedsUpdate
}

/// Whether the branch that a base stands for is the given one.
pub open spec fn is_base(
    refs: Map<NonZeroOid, Seq<char>>,
    base: RefOrOidView,
    branch: Seq<char>,
) -> bool {
    ||| base == RefOrOidView::Branch(branch)
    ||| exists|oid: NonZeroOid|
        base == RefOrOidView::Oid(oid) && #[trigger] refs.contains_key(oid) && refs[oid] == branch
}

/// Whether a base is a commit that has no branch.
pub open spec fn base_is_missing(refs: Map<NonZeroOid, Seq<char>>, base: RefOrOidView) -> bool {
    base matches RefOrOidView::Oid(oid) && !refs.contains_key(oid)
}

/// The actions for all tracked commits.
pub open spec fn all_actions(
    state: StackStateView,
    requested: Map<NonZeroOid, CommitStatusView>,
    expand_details: bool,
) -> Seq<UpdateActionView> {
    update_actions(state, requested, expand_details, state.commits.len() as int)
}

/// The actions that are added for the commit at index `i`.
pub open spec fn actions_added(
    state: StackStateView,
    requested: Map<NonZeroOid, CommitStatusView>,
    expand_details: bool,
    i: int,
) -> Seq<UpdateActionView> {
    update_actions(state, requested, expand_details, i + 1).skip(
        update_actions(state, requested, expand_details, i).len() as int,
    )
}

/// The actions for the commits before a commit come first, and those for the commit are added to
/// them. For a commit that was not asked for nothing is added. For one that was, a push comes first
/// if and only if the commit is to be pushed, whatever is to be done to its pull request. Then comes
/// the edit if and only if its pull request is to be edited, or else what keeps it from being
/// edited. Progress comes last, unless something kept the pull request from being edited.
pub proof fn law_actions_for_commit(
    state: StackStateView,
    requested: Map<NonZeroOid, CommitStatusView>,
    expand_details: bool,
    i: int,
    pr_number: usize,
    base_ref_name: Seq<char>,
)
    requires
        0 <= i < state.commits.len(),
    ensures
        ({
            let (oid, change) = state.commits[i];
            let refs = state.oids_to_branchless_refs;
            let added = actions_added(state, requested, expand_details, i);
            let push = UpdateActionView::Push { oid, commit_status: change.commit_status };
            let pushes: int = if change.should_push {
                1
            } else {
                0
            };
            let edit = UpdateActionView::UpdatePullRequest {
                oid,
                pr_number,
                base_ref_name,
                title: change.title,
                body: pr_body(state, oid, expand_details),
            };
            &&& update_actions(state, requested, expand_details, 0).len() == 0
            &&& update_actions(state, requested, expand_details, i + 1) == update_actions(
                state,
                requested,
                expand_details,
                i,
            ) + added
            &&& !is_asked_for(requested, oid) ==> added.len() == 0
            &&& is_asked_for(requested, oid) && change.should_push ==> added.len() > 0 && added[0]
                == push
            &&& is_asked_for(requested, oid) && !change.should_update_pr ==> added.skip(pushes)
                == seq![UpdateActionView::Progress]
            &&& is_asked_for(requested, oid) && change.should_update_pr && base_is_missing(
                refs,
                change.pr_base,
            ) ==> added.skip(pushes) == seq![
                UpdateActionView::Skip { oid, reason: SkipReason::UnknownBase },
            ]
            &&& is_asked_for(requested, oid) && change.should_update_pr && is_base(
                refs,
                change.pr_base,
                base_ref_name,
            ) && change.pr_number is None ==> added.skip(pushes) == seq![
                UpdateActionView::Skip { oid, reason: SkipReason::MissingNumber },
            ]
            &&& is_asked_for(requested, oid) && change.should_update_pr && is_base(
                refs,
                change.pr_base,
                base_ref_name,
            ) && change.pr_number == Some(pr_number) ==> added.skip(pushes) == seq![
                edit,
                UpdateActionView::Progress,
            ]
        }),
{
    let (oid, change) = state.commits[i];
    let refs = state.oids_to_branchless_refs;
    let before = update_actions(state, requested, expand_details, i);
    let after = update_actions(state, requested, expand_details, i + 1);
    let added = actions_added(state, requested, expand_details, i);
    assert(after =~= before + added);
    if is_asked_for(requested, oid) {
        let pushes: int = if change.should_push {
            1
        } else {
            0
        };
        let rest = added.skip(pushes);
        if !change.should_update_pr {
            assert(rest =~= seq![UpdateActionView::Progress]);
        } else if base_is_missing(refs, change.pr_base) {
            assert(rest =~= seq![UpdateActionView::Skip { oid, reason: SkipReason::UnknownBase }]);
        } else if is_base(refs, change.pr_base, base_ref_name) {
            if change.pr_number is None {
                assert(rest =~= seq![
                    UpdateActionView::Skip { oid, reason: SkipReason::MissingNumber },
                ]);
            } else if change.pr_number == Some(pr_number) {
                assert(rest =~= seq![
                    UpdateActionView::UpdatePullRequest {
                        oid,
                        pr_number,
                        base_ref_name,
                        title: change.title,
                        body: pr_body(state, oid, expand_details),
                    },
                    UpdateActionView::Progress,
                ]);
            }
        }
    }
}

proof fn lemma_added_is_included(
    state: StackStateView,
    requested: Map<NonZeroOid, CommitStatusView>,
    expand_details: bool,
    count: int,
    i: int,
    k: int,
)
    requires
        0 <= i < count <= state.commits.len(),
        0 <= k < actions_added(state, requested, expand_details, i).len(),
    ensures
        update_actions(state, requested, expand_details, count).contains(
            actions_added(state, requested, expand_details, i)[k],
        ),
    decreases count,
{
    let action = actions_added(state, requested, expand_details, i)[k];
    let front = update_actions(state, requested, expand_details, count - 1);
    let all = update_actions(state, requested, expand_details, count);
    law_actions_for_commit(state, requested, expand_details, count - 1, 0, Seq::empty());
    if i < count - 1 {
        lemma_added_is_included(state, requested, expand_details, count - 1, i, k);
        let m = choose|m: int| 0 <= m < front.len() && front[m] == action;
        assert(all[m] == action);
    } else {
        assert(all[front.len() + k] == action);
    }
}

proof fn lemma_action_was_added(
    state: StackStateView,
    requested: Map<NonZeroOid, CommitStatusView>,
    expand_details: bool,
    count: int,
    action: UpdateActionView,
) -> (i: int)
    requires
        0 <= count <= state.commits.len(),
        update_actions(state, requested, expand_details, count).contains(action),
    ensures
        0 <= i < count,
        actions_added(state, requested, expand_details, i).contains(action),
    decreases count,
{
    let all = update_actions(state, requested, expand_details, count);
    let m = choose|m: int| 0 <= m < all.len() && all[m] == action;
    let front = update_actions(state, requested, expand_details, count - 1);
    let added = actions_added(state, requested, expand_details, count - 1);
    law_actions_for_commit(state, requested, expand_details, count - 1, 0, Seq::empty());
    if m < front.len() {
        assert(front[m] == action);
        lemma_action_was_added(state, requested, expand_details, count - 1, action)
    } else {
        assert(added[m - front.len()] == action);
        count - 1
    }
}

/// Every commit that was asked for and is to be pushed is pushed with its own status, whether or not
/// its pull request is to be edited.
pub proof fn law_update_pushes(
    state: StackStateView,
    requested: Map<NonZeroOid, CommitStatusView>,
    expand_details: bool,
    i: int,
)
    requires
        0 <= i < state.commits.len(),
        is_asked_for(requested, state.commits[i].0),
        state.commits[i].1.should_push,
    ensures
        all_actions(state, requested, expand_details).contains(
            UpdateActionView::Push {
                oid: state.commits[i].0,
                commit_status: state.commits[i].1.commit_status,
            },
        ),
{
    law_actions_for_commit(state, requested, expand_details, i, 0, Seq::empty());
    lemma_added_is_included(
        state,
        requested,
        expand_details,
        state.commits.len() as int,
        i,
        0,
    );
}

/// Whatever is pushed is a tracked commit that was asked for and is to be pushed, with its own
/// status.
pub proof fn law_update_pushes_nothing_else(
    state: StackStateView,
    requested: Map<NonZeroOid, CommitStatusView>,
    expand_details: bool,
    oid: NonZeroOid,
    commit_status: CommitStatusView,
)
    requires
        all_actions(state, requested, expand_details).contains(
            UpdateActionView::Push { oid, commit_status },
        ),
    ensures
        is_asked_for(requested, oid),
        exists|i: int|
            0 <= i < state.commits.len() && (#[trigger] state.commits[i]).0 == oid
                && state.commits[i].1.should_push && state.commits[i].1.commit_status
                == commit_status,
{
    let push = UpdateActionView::Push { oid, commit_status };
    let i = lemma_action_was_added(
        state,
        requested,
        expand_details,
        state.commits.len() as int,
        push,
    );
    lemma_kinds_of_actions(state, requested, expand_details, i, push);
    assert(state.commits[i].0 == oid);
}

/// Whatever is added for a commit is about that commit, and says what is known of it.
proof fn lemma_kinds_of_actions(
    state: StackStateView,
    requested: Map<NonZeroOid, CommitStatusView>,
    expand_details: bool,
    i: int,
    action: UpdateActionView,
)
    requires
        0 <= i < state.commits.len(),
        actions_added(state, requested, expand_details, i).contains(action),
    ensures
        ({
            let (oid, change) = state.commits[i];
            let refs = state.oids_to_branchless_refs;
            &&& is_asked_for(requested, oid)
            &&& match action {
                UpdateActionView::Push { oid: pushed, commit_status } => pushed == oid
                    && change.should_push && commit_status == change.commit_status,
                UpdateActionView::UpdatePullRequest {
                    oid: edited,
                    pr_number,
                    base_ref_name,
                    title,
                    body,
                } => {
                    &&& edited == oid
                    &&& change.should_update_pr
                    &&& change.pr_number == Some(pr_number)
                    &&& is_base(refs, change.pr_base, base_ref_name)
                    &&& title == change.title
                    &&& body == pr_body(state, oid, expand_details)
                },
                UpdateActionView::Skip { oid: skipped, reason } => {
                    &&& skipped == oid
                    &&& change.should_update_pr
                    &&& reason == SkipReason::UnknownBase ==> base_is_missing(refs, change.pr_base)
                    &&& reason == SkipReason::MissingNumber ==> change.pr_number is None
                },
                UpdateActionView::Progress => true,
            }
        }),
{
    let (oid, change) = state.commits[i];
    let refs = state.oids_to_branchless_refs;
    let added = actions_added(state, requested, expand_details, i);
    let branch = match change.pr_base {
        RefOrOidView::Branch(branch) => branch,
        RefOrOidView::Oid(base) => refs[base],
    };
    let number = match change.pr_number {
        Some(number) => number,
        None => 0,
    };
    if let RefOrOidView::Oid(base) = change.pr_base {
        if refs.contains_key(base) {
            assert(is_base(refs, change.pr_base, branch));
        }
    }
    law_actions_for_commit(state, requested, expand_details, i, number, branch);
    let k = choose|k: int| 0 <= k < added.len() && added[k] == action;
    if change.should_push {
        assert(k > 0 ==> added[k] == added.skip(1)[k - 1]);
    } else {
        assert(added[k] == added.skip(0)[k]);
    }
}

/// Every commit that was asked for and whose pull request is to be edited has it edited, with its
/// number, its title, the branch that its base stands for and the body that is rendered for it,
/// whether or not the commit is pushed. It takes that the number and the branch are known.
pub proof fn law_update_edits(
    state: StackStateView,
    requested: Map<NonZeroOid, CommitStatusView>,
    expand_details: bool,
    i: int,
    pr_number: usize,
    base_ref_name: Seq<char>,
)
    requires
        0 <= i < state.commits.len(),
        is_asked_for(requested, state.commits[i].0),
        state.commits[i].1.should_update_pr,
        state.commits[i].1.pr_number == Some(pr_number),
        is_base(state.oids_to_branchless_refs, state.commits[i].1.pr_base, base_ref_name),
    ensures
        all_actions(state, requested, expand_details).contains(
            UpdateActionView::UpdatePullRequest {
                oid: state.commits[i].0,
                pr_number,
                base_ref_name,
                title: state.commits[i].1.title,
                body: pr_body(state, state.commits[i].0, expand_details),
            },
        ),
{
    law_actions_for_commit(state, requested, expand_details, i, pr_number, base_ref_name);
    let added = actions_added(state, requested, expand_details, i);
    let k: int = if state.commits[i].1.should_push {
        1
    } else {
        0
    };
    assert(added[k] == added.skip(k)[0]);
    lemma_added_is_included(
        state,
        requested,
        expand_details,
        state.commits.len() as int,
        i,
        k,
    );
}

/// Whatever is edited is the pull request of a tracked commit that was asked for and whose pull
/// request is to be edited, and it is edited to what is known of that commit.
pub proof fn law_update_edits_nothing_else(
    state: StackStateView,
    requested: Map<NonZeroOid, CommitStatusView>,
    expand_details: bool,
    oid: NonZeroOid,
    pr_number: usize,
    base_ref_name: Seq<char>,
    title: Seq<char>,
    body: Seq<char>,
)
    requires
        all_actions(state, requested, expand_details).contains(
            UpdateActionView::UpdatePullRequest { oid, pr_number, base_ref_name, title, body },
        ),
    ensures
        is_asked_for(requested, oid),
        body == pr_body(state, oid, expand_details),
        exists|i: int|
            0 <= i < state.commits.len() && (#[trigger] state.commits[i]).0 == oid
                && state.commits[i].1.should_update_pr && state.commits[i].1.pr_number == Some(
                pr_number,
            ) && state.commits[i].1.title == title && is_base(
                state.oids_to_branchless_refs,
                state.commits[i].1.pr_base,
                base_ref_name,
            ),
{
    let edit = UpdateActionView::UpdatePullRequest { oid, pr_number, base_ref_name, title, body };
    let i = lemma_action_was_added(
        state,
        requested,
        expand_details,
        state.commits.len() as int,
        edit,
    );
    lemma_kinds_of_actions(state, requested, expand_details, i, edit);
    assert(state.commits[i].0 == oid);
}

/// Every commit whose pull request has another head than the commit is pushed by the update of all
/// commits that follows a query, even if nothing else of the pull request differs. No commit is
/// pushed whose pull request has the commit as its head.
pub proof fn law_amended_commits_are_pushed(
    env: StatusEnv,
    create_unsubmitted: bool,
    at: QueryState,
    replies: Seq<StackReply>,
    expand_details: bool,
    i: int,
    pr: PullRequestInfoView,
)
    requires
        at.state.commits.len() == 0,
        complete_messages(replies),
        ({
            let context = query_context(env, create_unsubmitted, at.state);
            let end = query_outcome(env, create_unsubmitted, at, replies);
            &&& 0 <= i < end.commits.len()
            &&& context.pr(end.commits[i].0) == Some(pr)
        }),
    ensures
        ({
            let end = query_outcome(env, create_unsubmitted, at, replies);
            let (oid, change) = end.commits[i];
            let actions = all_actions(end, tracked_statuses(end.commits), expand_details);
            let push = UpdateActionView::Push { oid, commit_status: change.commit_status };
            &&& pr.head_ref_oid != oid ==> actions.contains(push)
            &&& pr.head_ref_oid == oid ==> forall|commit_status: CommitStatusView|
                !#[trigger] actions.contains(UpdateActionView::Push { oid, commit_status })
        }),
{
    let end = query_outcome(env, create_unsubmitted, at, replies);
    let (oid, change) = end.commits[i];
    let requested = tracked_statuses(end.commits);
    let actions = all_actions(end, requested, expand_details);
    law_query_tracks_its_stacks(env, create_unsubmitted, at, replies);
    law_query_tells_what_differs(env, create_unsubmitted, at, replies, i, pr);
    law_statuses_are_those_recorded(end.commits, i);
    if pr.head_ref_oid != oid {
        law_update_pushes(end, requested, expand_details, i);
    } else {
        assert forall|commit_status: CommitStatusView|
            !#[trigger] actions.contains(UpdateActionView::Push { oid, commit_status }) by {
            if actions.contains(UpdateActionView::Push { oid, commit_status }) {
                law_update_pushes_nothing_else(
                    end,
                    requested,
                    expand_details,
                    oid,
                    commit_status,
                );
                let j = choose|j: int|
                    0 <= j < end.commits.len() && (#[trigger] end.commits[j]).0 == oid
                        && end.commits[j].1.should_push && end.commits[j].1.commit_status
                        == commit_status;
                assert(end.commits[j].0 == end.commits[i].0);
            }
        }
    }
}

/// Every commit whose pull request has another title is given its own title by the update of all
/// commits that follows a query, whether the commit was amended or not, as long as the branch of
/// its base is known.
pub proof fn law_new_titles_are_set(
    env: StatusEnv,
    create_unsubmitted: bool,
    at: QueryState,
    replies: Seq<StackReply>,
    expand_details: bool,
    i: int,
    pr: PullRequestInfoView,
    base_ref_name: Seq<char>,
)
    requires
        at.state.commits.len() == 0,
        complete_messages(replies),
        ({
            let context = query_context(env, create_unsubmitted, at.state);
            let end = query_outcome(env, create_unsubmitted, at, replies);
            &&& 0 <= i < end.commits.len()
            &&& context.pr(end.commits[i].0) == Some(pr)
            &&& pr.title != end.commits[i].1.title
            &&& is_base(end.oids_to_branchless_refs, end.commits[i].1.pr_base, base_ref_name)
        }),
    ensures
        ({
            let end = query_outcome(env, create_unsubmitted, at, replies);
            let (oid, change) = end.commits[i];
            all_actions(end, tracked_statuses(end.commits), expand_details).contains(
                UpdateActionView::UpdatePullRequest {
                    oid,
                    pr_number: pr.number,
                    base_ref_name,
                    title: change.title,
                    body: pr_body(end, oid, expand_details),
                },
            )
        }),
{
    let end = query_outcome(env, create_unsubmitted, at, replies);
    law_query_tracks_its_stacks(env, create_unsubmitted, at, replies);
    law_query_tells_what_differs(env, create_unsubmitted, at, replies, i, pr);
    law_query_takes_pull_request_over(env, create_unsubmitted, at, replies, i);
    law_statuses_are_those_recorded(end.commits, i);
    law_update_edits(
        end,
        tracked_statuses(end.commits),
        expand_details,
        i,
        pr.number,
        base_ref_name,
    );
}

/// A commit counts as submitted after a query if any pull request is listed whose head is the branch
/// of the commit, be it a draft, closed or neither. It counts as unsubmitted if none is.
pub proof fn law_listed_commits_count_as_submitted(
    env: StatusEnv,
    create_unsubmitted: bool,
    at: QueryState,
    replies: Seq<StackReply>,
    infos: Seq<PullRequestInfoView>,
    prefix: Seq<char>,
    i: int,
    j: int,
)
    requires
        at.state.commits.len() == 0,
        complete_messages(replies),
        env.pull_requests == grouped(infos, Some(prefix)),
        ({
            let end = query_outcome(env, create_unsubmitted, at, replies);
            let refs = at.state.oids_to_branchless_refs;
            &&& 0 <= i < end.commits.len()
            &&& refs.contains_key(end.commits[i].0)
            &&& prefix.is_prefix_of(refs[end.commits[i].0])
        }),
    ensures
        ({
            let (oid, change) = query_outcome(env, create_unsubmitted, at, replies).commits[i];
            let branch = at.state.oids_to_branchless_refs[oid];
            &&& 0 <= j < infos.len() && infos[j].head_ref_name == branch
                ==> change.commit_status.submit_status != SubmitStatus::Unsubmitted
            &&& (forall|k: int| 0 <= k < infos.len() ==> (#[trigger] infos[k]).head_ref_name != branch)
                ==> change.commit_status.submit_status == SubmitStatus::Unsubmitted
        }),
{
    let (oid, change) = query_outcome(env, create_unsubmitted, at, replies).commits[i];
    let refs = at.state.oids_to_branchless_refs;
    law_query_takes_pull_request_over(env, create_unsubmitted, at, replies, i);
    if 0 <= j < infos.len() && infos[j].head_ref_name == refs[oid] {
        let first = lemma_first_with_head(infos, refs[oid], j);
        law_listed_pull_request_is_found(infos, Some(prefix), refs, oid, first);
    } else {
        law_listed_pull_request_is_found(infos, Some(prefix), refs, oid, j);
    }
}

/// Where a pull request with a given head is listed first.
proof fn lemma_first_with_head(
    infos: Seq<PullRequestInfoView>,
    branch: Seq<char>,
    j: int,
) -> (first: int)
    requires
        0 <= j < infos.len(),
        infos[j].head_ref_name == branch,
    ensures
        0 <= first <= j,
        infos[first].head_ref_name == branch,
        forall|i: int| 0 <= i < first ==> (#[trigger] infos[i]).head_ref_name != branch,
    decreases j,
{
    if exists|i: int| 0 <= i < j && (#[trigger] infos[i]).head_ref_name == branch {
        let i = choose|i: int| 0 <= i < j && (#[trigger] infos[i]).head_ref_name == branch;
        lemma_first_with_head(infos, branch, i)
    } else {
        j
    }
}

} // verus!
