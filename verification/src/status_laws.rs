//! What holds of every walk through the stacks of a submission.

use crate::client::PullRequestInfoView;
use crate::forge::pr_of;
use crate::status::{
    base_ref_stale, next_head, outdated, submitted_change, visited, walk_end, walk_start,
    without_commit, CommitMessage, StackWalkView, StatusEnv, WalkState,
};
use crate::types::{
    is_tracked, tracked_at, CommitsView, NonZeroOid, RefOrOidView, StackStateView, SubmitStatus,
};
use vstd::prelude::*;

verus! {

/// Visits to as many commits of a walk as there are messages, one after the other.
pub open spec fn walked(
    env: StatusEnv,
    create_unsubmitted: bool,
    at: WalkState,
    messages: Seq<CommitMessage>,
) -> WalkState
    decreases messages.len(),
{
    if messages.len() == 0 {
        at
    } else {
        visited(
            env,
            create_unsubmitted,
            walked(env, create_unsubmitted, at, messages.drop_last()),
            messages.last(),
        )
    }
}

/// The pull request of the commit that a walk visits next.
pub open spec fn next_pr(env: StatusEnv, at: WalkState) -> Option<PullRequestInfoView> {
    pr_of(
        at.state.oids_to_branchless_refs,
        env.pull_requests,
        at.walk.stack[at.walk.position],
    )
}

/// Whether the walk has a commit for each of `count` visits.
pub open spec fn has_commits(walk: StackWalkView, count: int) -> bool {
    0 <= walk.position && walk.position + count <= walk.stack.len()
}

/// A walk leaves alone what it does not visit: the stack, the branches and the recorded stacks
/// stay as they are, and so does every commit that was tracked before. The commits that it visits
/// are tracked, and no other commit is new.
pub proof fn law_walk_tracks_its_commits(
    env: StatusEnv,
    create_unsubmitted: bool,
    at: WalkState,
    messages: Seq<CommitMessage>,
)
    requires
        has_commits(at.walk, messages.len() as int),
    ensures
        ({
            let end = walked(env, create_unsubmitted, at, messages);
            &&& end.walk.stack == at.walk.stack
            &&& end.walk.position == at.walk.position + messages.len()
            &&& end.state.oids_to_branchless_refs == at.state.oids_to_branchless_refs
            &&& end.state.stacks == at.state.stacks
            &&& at.state.commits.is_prefix_of(end.state.commits)
            &&& forall|k: int|
                at.walk.position <= k < at.walk.position + messages.len() ==> is_tracked(
                    end.state.commits,
                    #[trigger] at.walk.stack[k],
                )
            &&& forall|i: int|
                at.state.commits.len() <= i < end.state.commits.len() ==> exists|k: int|
                    at.walk.position <= k < at.walk.position + messages.len() && at.walk.stack[k]
                        == (#[trigger] end.state.commits[i]).0
            &&& at.state.well_formed() ==> end.state.well_formed()
            &&& at.state.own_ids() ==> end.state.own_ids()
        }),
    decreases messages.len(),
{
    if messages.len() > 0 {
        let front = messages.drop_last();
        let mid = walked(env, create_unsubmitted, at, front);
        let end = walked(env, create_unsubmitted, at, messages);
        law_walk_tracks_its_commits(env, create_unsubmitted, at, front);
        let oid = mid.walk.stack[mid.walk.position];
        assert(end.state.commits.len() >= mid.state.commits.len());
        assert(mid.state.commits.is_prefix_of(end.state.commits)) by {
            assert(end.state.commits.take(mid.state.commits.len() as int) =~= mid.state.commits);
        }
        assert(end.state.commits.take(at.state.commits.len() as int) =~= at.state.commits) by {
            assert(forall|i: int|
                0 <= i < mid.state.commits.len() ==> end.state.commits[i] == mid.state.commits[i]);
            assert(forall|i: int|
                0 <= i < at.state.commits.len() ==> mid.state.commits[i] == at.state.commits[i]);
        }
        assert(is_tracked(end.state.commits, oid)) by {
            if is_tracked(mid.state.commits, oid) {
            } else {
                assert(tracked_at(end.state.commits, oid, mid.state.commits.len() as int));
            }
        }
        assert forall|k: int|
            at.walk.position <= k < at.walk.position + messages.len() implies is_tracked(
            end.state.commits,
            #[trigger] at.walk.stack[k],
        ) by {
            if k < at.walk.position + front.len() {
                let i = choose|i: int| tracked_at(mid.state.commits, at.walk.stack[k], i);
                assert(tracked_at(end.state.commits, at.walk.stack[k], i));
            }
        }
        assert forall|i: int| at.state.commits.len() <= i < end.state.commits.len() implies exists|
            k: int,
        |
            at.walk.position <= k < at.walk.position + messages.len() && at.walk.stack[k] == (
            #[trigger] end.state.commits[i]).0 by {
            if i < mid.state.commits.len() {
                assert(end.state.commits[i] == mid.state.commits[i]);
                let k = choose|k: int|
                    at.walk.position <= k < at.walk.position + front.len() && at.walk.stack[k]
                        == mid.state.commits[i].0;
                assert(at.walk.stack[k] == end.state.commits[i].0);
            } else {
                assert(at.walk.stack[mid.walk.position] == end.state.commits[i].0);
            }
        }
        if at.state.well_formed() {
            if !is_tracked(mid.state.commits, oid) {
                assert forall|i: int| 0 <= i < mid.state.commits.len() implies mid.state.commits[i].0
                    != oid by {
                    assert(!tracked_at(mid.state.commits, oid, i));
                }
            }
        }
    }
}

/// Of two commits that a walk starts to track, the one closer to the main branch comes first: new
/// commits are in topological order.
pub proof fn law_new_commits_in_topological_order(
    env: StatusEnv,
    create_unsubmitted: bool,
    at: WalkState,
    messages: Seq<CommitMessage>,
    k: int,
    l: int,
    i: int,
    j: int,
)
    requires
        has_commits(at.walk, messages.len() as int),
        at.walk.stack.no_duplicates(),
        at.walk.position <= k < l < at.walk.position + messages.len(),
        !is_tracked(at.state.commits, at.walk.stack[k]),
        !is_tracked(at.state.commits, at.walk.stack[l]),
        tracked_at(
            walked(env, create_unsubmitted, at, messages).state.commits,
            at.walk.stack[k],
            i,
        ),
        tracked_at(
            walked(env, create_unsubmitted, at, messages).state.commits,
            at.walk.stack[l],
            j,
        ),
    ensures
        i < j,
    decreases messages.len(),
{
    let front = messages.drop_last();
    let mid = walked(env, create_unsubmitted, at, front);
    let end = walked(env, create_unsubmitted, at, messages);
    law_walk_tracks_its_commits(env, create_unsubmitted, at, front);
    let oid = mid.walk.stack[mid.walk.position];
    assert(forall|m: int|
        0 <= m < mid.state.commits.len() ==> end.state.commits[m] == mid.state.commits[m]);
    if l < at.walk.position + front.len() {
        assert(oid != at.walk.stack[k] && oid != at.walk.stack[l]);
        assert(tracked_at(mid.state.commits, at.walk.stack[k], i));
        assert(tracked_at(mid.state.commits, at.walk.stack[l], j));
        law_new_commits_in_topological_order(
            env,
            create_unsubmitted,
            at,
            front,
            k,
            l,
            i,
            j,
        );
    } else {
        assert(oid == at.walk.stack[l]);
        assert(oid != at.walk.stack[k]);
        assert(tracked_at(mid.state.commits, at.walk.stack[k], i));
        if j < mid.state.commits.len() {
            assert(mid.state.commits[j].0 == oid);
            if j < at.state.commits.len() {
                assert(tracked_at(at.state.commits, oid, j));
            } else {
                let m = choose|m: int|
                    at.walk.position <= m < at.walk.position + front.len() && at.walk.stack[m]
                        == mid.state.commits[j].0;
                assert(at.walk.stack[m] == at.walk.stack[l]);
            }
        }
    }
}

/// Whether the commit that is visited next changes the structure of the stack: its pull request
/// has another base than it should have, or it has none and is going to get one.
pub open spec fn structural_change(env: StatusEnv, create_unsubmitted: bool, at: WalkState) -> bool {
    match next_pr(env, at) {
        Some(pr) => base_ref_stale(at.walk, pr),
        None => create_unsubmitted,
    }
}

/// Whether the commit that is visited next outdates the commits on top of it: it was amended, or it
/// has no pull request and is going to get one.
pub open spec fn outdates_those_above(env: StatusEnv, create_unsubmitted: bool, at: WalkState) -> bool {
    match next_pr(env, at) {
        Some(pr) => pr.head_ref_oid != at.walk.stack[at.walk.position],
        None => create_unsubmitted,
    }
}

/// A walk calls for an update of the whole stack if and only if some commit that it visited
/// changes the structure of the stack, and takes the rest of the stack for outdated if and only if
/// some commit that it visited was amended or is to be created.
pub proof fn law_walk_notices_changes(
    env: StatusEnv,
    create_unsubmitted: bool,
    at: WalkState,
    messages: Seq<CommitMessage>,
)
    requires
        has_commits(at.walk, messages.len() as int),
    ensures
        walked(env, create_unsubmitted, at, messages).walk.update_whole_stack <==> (
        at.walk.update_whole_stack || exists|k: int|
            0 <= k < messages.len() && structural_change(
                env,
                create_unsubmitted,
                walked(env, create_unsubmitted, at, #[trigger] messages.take(k)),
            )),
        walked(env, create_unsubmitted, at, messages).walk.update_until_head <==> (
        at.walk.update_until_head || exists|k: int|
            0 <= k < messages.len() && outdates_those_above(
                env,
                create_unsubmitted,
                walked(env, create_unsubmitted, at, #[trigger] messages.take(k)),
            )),
    decreases messages.len(),
{
    if messages.len() > 0 {
        let front = messages.drop_last();
        let n = front.len() as int;
        let mid = walked(env, create_unsubmitted, at, front);
        law_walk_notices_changes(env, create_unsubmitted, at, front);
        law_walk_tracks_its_commits(env, create_unsubmitted, at, front);
        assert(messages.take(n) =~= front);
        assert forall|k: int| 0 <= k < n implies #[trigger] messages.take(k) == front.take(k) by {
            assert(messages.take(k) =~= front.take(k));
        }
        if exists|k: int|
            0 <= k < front.len() && structural_change(
                env,
                create_unsubmitted,
                walked(env, create_unsubmitted, at, #[trigger] front.take(k)),
            ) {
            let k = choose|k: int|
                0 <= k < front.len() && structural_change(
                    env,
                    create_unsubmitted,
                    walked(env, create_unsubmitted, at, #[trigger] front.take(k)),
                );
            assert(messages.take(k) == front.take(k));
        }
        if exists|k: int|
            0 <= k < front.len() && outdates_those_above(
                env,
                create_unsubmitted,
                walked(env, create_unsubmitted, at, #[trigger] front.take(k)),
            ) {
            let k = choose|k: int|
                0 <= k < front.len() && outdates_those_above(
                    env,
                    create_unsubmitted,
                    walked(env, create_unsubmitted, at, #[trigger] front.take(k)),
                );
            assert(messages.take(k) == front.take(k));
        }
    }
}

/// Once a commit was amended or is to be created, the pull request of every commit on top of it
/// is found to need an update, and so is its own.
pub proof fn law_amended_commit_outdates_those_on_top(
    env: StatusEnv,
    create_unsubmitted: bool,
    at: WalkState,
    messages: Seq<CommitMessage>,
    k: int,
    l: int,
)
    requires
        has_commits(at.walk, messages.len() as int),
        0 <= k <= l < messages.len(),
        outdates_those_above(
            env,
            create_unsubmitted,
            walked(env, create_unsubmitted, at, messages.take(k)),
        ),
        next_pr(env, walked(env, create_unsubmitted, at, messages.take(l))) is Some,
    ensures
        submitted_change(
            env,
            walked(env, create_unsubmitted, at, messages.take(l)).walk,
            next_pr(env, walked(env, create_unsubmitted, at, messages.take(l)))->0,
            messages[l],
        ).commit_status.submit_status == SubmitStatus::NeedsUpdate,
{
    let below = messages.take(l);
    if k < l {
        law_walk_notices_changes(env, create_unsubmitted, at, below);
        assert(below.take(k) =~= messages.take(k));
    }
}

/// If anything structural changed in the stack, the end of a walk outdates all of it: no commit of
/// the stack is left up to date, and the pull request of each is to be updated. Nothing else is
/// changed.
pub proof fn law_walk_end_outdates_whole_stack(state: StackStateView, walk: StackWalkView)
    ensures
        ({
            let end = walk_end(state, walk);
            &&& end.commits.len() == state.commits.len()
            &&& end.stacks == state.stacks.push(walk.stack)
            &&& end.oids_to_branchless_refs == state.oids_to_branchless_refs
            &&& forall|i: int|
                0 <= i < state.commits.len() ==> {
                    &&& (#[trigger] end.commits[i]).0 == state.commits[i].0
                    &&& end.commits[i].1 == state.commits[i].1 || end.commits[i].1 == outdated(
                        state.commits[i].1,
                    )
                    &&& !(walk.update_whole_stack && walk.stack.contains(state.commits[i].0))
                        ==> end.commits[i].1 == state.commits[i].1
                    &&& walk.update_whole_stack && walk.stack.contains(state.commits[i].0)
                        ==> end.commits[i].1.commit_status.submit_status != SubmitStatus::UpToDate
                        && end.commits[i].1.should_update_pr
                }
            &&& state.well_formed() ==> end.well_formed()
            &&& state.own_ids() ==> end.own_ids()
        }),
{
    let end = walk_end(state, walk);
    assert forall|i: int| 0 <= i < state.commits.len() implies (#[trigger] end.commits[i]).0
        == state.commits[i].0 && end.commits[i].1.oid == state.commits[i].1.oid by {}
}

/// Whether a commit and its pull request agree, given what the pull request should be based on.
pub open spec fn matches_pull_request(
    oid: NonZeroOid,
    message: CommitMessage,
    pr: PullRequestInfoView,
    base: Seq<char>,
) -> bool {
    pr.head_ref_oid == oid && pr.title == message.summary && pr.base_ref_name == base
}

/// Whether every commit of a stack agrees with its pull request, each of which is based on the one
/// before it and the first on the main branch.
pub open spec fn matching_stack(
    env: StatusEnv,
    state: StackStateView,
    stack: Seq<NonZeroOid>,
    messages: Seq<CommitMessage>,
) -> bool {
    forall|k: int|
        0 <= k < messages.len() ==> {
            let pr = pr_of(
                state.oids_to_branchless_refs,
                env.pull_requests,
                #[trigger] stack[k],
            );
            &&& pr is Some
            &&& matches_pull_request(
                stack[k],
                messages[k],
                pr->0,
                if k == 0 {
                    env.main_branch_name
                } else {
                    pr_of(state.oids_to_branchless_refs, env.pull_requests, stack[k - 1])->0.head_ref_name
                },
            )
        }
}

/// A stack whose commits agree with their pull requests is up to date: nothing calls for an
/// update, and no commit that the walk starts to track is to be pushed or updated.
pub proof fn law_matching_stack_is_up_to_date(
    env: StatusEnv,
    create_unsubmitted: bool,
    at: WalkState,
    head_first: Seq<NonZeroOid>,
    messages: Seq<CommitMessage>,
)
    requires
        at.walk == walk_start(env, head_first),
        messages.len() <= head_first.len(),
        matching_stack(env, at.state, head_first.reverse(), messages),
    ensures
        ({
            let end = walked(env, create_unsubmitted, at, messages);
            &&& !end.walk.update_until_head
            &&& !end.walk.update_whole_stack
            &&& forall|i: int|
                at.state.commits.len() <= i < end.state.commits.len() ==> {
                    let change = (#[trigger] end.state.commits[i]).1;
                    &&& change.commit_status.submit_status == SubmitStatus::UpToDate
                    &&& !change.should_push
                    &&& !change.should_update_pr
                }
        }),
{
    lemma_matching_walk(env, create_unsubmitted, at, head_first, messages);
}

proof fn lemma_matching_walk(
    env: StatusEnv,
    create_unsubmitted: bool,
    at: WalkState,
    head_first: Seq<NonZeroOid>,
    messages: Seq<CommitMessage>,
)
    requires
        at.walk == walk_start(env, head_first),
        messages.len() <= head_first.len(),
        matching_stack(env, at.state, head_first.reverse(), messages),
    ensures
        ({
            let end = walked(env, create_unsubmitted, at, messages);
            let stack = head_first.reverse();
            &&& !end.walk.update_until_head
            &&& !end.walk.update_whole_stack
            &&& end.walk.nearest_base_ref == RefOrOidView::Branch(
                if messages.len() == 0 {
                    env.main_branch_name
                } else {
                    pr_of(
                        at.state.oids_to_branchless_refs,
                        env.pull_requests,
                        stack[messages.len() - 1],
                    )->0.head_ref_name
                },
            )
            &&& forall|i: int|
                at.state.commits.len() <= i < end.state.commits.len() ==> {
                    let change = (#[trigger] end.state.commits[i]).1;
                    &&& change.commit_status.submit_status == SubmitStatus::UpToDate
                    &&& !change.should_push
                    &&& !change.should_update_pr
                }
        }),
    decreases messages.len(),
{
    if messages.len() > 0 {
        let front = messages.drop_last();
        let stack = head_first.reverse();
        assert(matching_stack(env, at.state, stack, front)) by {
            assert forall|k: int| 0 <= k < front.len() implies front[k] == messages[k] by {}
        }
        lemma_matching_walk(env, create_unsubmitted, at, head_first, front);
        law_walk_tracks_its_commits(env, create_unsubmitted, at, front);
        let mid = walked(env, create_unsubmitted, at, front);
        let end = walked(env, create_unsubmitted, at, messages);
        assert(mid.walk.position == front.len());
        assert(stack[front.len() as int] == mid.walk.stack[mid.walk.position]);
        assert forall|i: int| at.state.commits.len() <= i < mid.state.commits.len() implies (
        #[trigger] end.state.commits[i]) == mid.state.commits[i] by {}
    }
}

/// Whether each commit that a pull request is based on is tracked before the commit of the pull
/// request.
pub open spec fn bases_come_first(commits: CommitsView) -> bool {
    forall|i: int|
        0 <= i < commits.len() ==> match (#[trigger] commits[i]).1.pr_base {
            RefOrOidView::Oid(oid) => exists|k: int| 0 <= k < i && tracked_at(commits, oid, k),
            RefOrOidView::Branch(_) => true,
        }
}

/// Whether the commit that the next pull request would be based on is tracked, if it is a commit.
pub open spec fn next_base_tracked(at: WalkState) -> bool {
    match at.walk.nearest_base_ref {
        RefOrOidView::Oid(oid) => is_tracked(at.state.commits, oid),
        RefOrOidView::Branch(_) => true,
    }
}

/// Where the base of a pull request is a commit without a branch, that commit is tracked before
/// the commit of the pull request. So it is its turn first when branches are created, and its
/// branch is known when the pull request needs it.
pub proof fn law_bases_come_first(
    env: StatusEnv,
    create_unsubmitted: bool,
    at: WalkState,
    messages: Seq<CommitMessage>,
)
    requires
        has_commits(at.walk, messages.len() as int),
        bases_come_first(at.state.commits),
        next_base_tracked(at),
    ensures
        ({
            let end = walked(env, create_unsubmitted, at, messages);
            &&& bases_come_first(end.state.commits)
            &&& next_base_tracked(end)
            &&& bases_come_first(walk_end(end.state, end.walk).commits)
        }),
    decreases messages.len(),
{
    let end = walked(env, create_unsubmitted, at, messages);
    if messages.len() > 0 {
        let front = messages.drop_last();
        let mid = walked(env, create_unsubmitted, at, front);
        law_bases_come_first(env, create_unsubmitted, at, front);
        law_walk_tracks_its_commits(env, create_unsubmitted, at, front);
        law_walk_tracks_its_commits(env, create_unsubmitted, at, messages);
        let oid = mid.walk.stack[mid.walk.position];
        let n = mid.state.commits.len() as int;
        assert(forall|i: int| 0 <= i < n ==> end.state.commits[i] == mid.state.commits[i]);
        assert forall|i: int| 0 <= i < end.state.commits.len() implies match (
        #[trigger] end.state.commits[i]).1.pr_base {
            RefOrOidView::Oid(base) => exists|k: int|
                0 <= k < i && tracked_at(end.state.commits, base, k),
            RefOrOidView::Branch(_) => true,
        } by {
            if let RefOrOidView::Oid(base) = end.state.commits[i].1.pr_base {
                if i < n {
                    assert(mid.state.commits[i] == end.state.commits[i]);
                    let k = choose|k: int| 0 <= k < i && tracked_at(mid.state.commits, base, k);
                    assert(tracked_at(end.state.commits, base, k));
                } else {
                    assert(mid.walk.nearest_base_ref == RefOrOidView::Oid(base));
                    let k = choose|k: int| tracked_at(mid.state.commits, base, k);
                    assert(tracked_at(end.state.commits, base, k));
                }
            }
        }
        assert(oid == at.walk.stack[at.walk.position + front.len()]);
        if let RefOrOidView::Oid(base) = end.walk.nearest_base_ref {
            if base != oid {
                let k = choose|k: int| tracked_at(mid.state.commits, base, k);
                assert(tracked_at(end.state.commits, base, k));
            }
        }
    }
    let closed = walk_end(end.state, end.walk);
    law_walk_end_outdates_whole_stack(end.state, end.walk);
    assert forall|i: int| 0 <= i < closed.commits.len() implies match (
    #[trigger] closed.commits[i]).1.pr_base {
        RefOrOidView::Oid(base) => exists|k: int| 0 <= k < i && tracked_at(closed.commits, base, k),
        RefOrOidView::Branch(_) => true,
    } by {
        assert(closed.commits[i].1.pr_base == end.state.commits[i].1.pr_base);
        if let RefOrOidView::Oid(base) = end.state.commits[i].1.pr_base {
            let k = choose|k: int| 0 <= k < i && tracked_at(end.state.commits, base, k);
            assert(tracked_at(closed.commits, base, k));
        }
    }
}

/// How many commits the subgraphs have in all.
pub open spec fn commit_total(subgraphs: Seq<Seq<NonZeroOid>>) -> nat
    decreases subgraphs.len(),
{
    if subgraphs.len() == 0 {
        0
    } else {
        subgraphs[0].len() + commit_total(subgraphs.drop_first())
    }
}

proof fn lemma_total_after_update(subgraphs: Seq<Seq<NonZeroOid>>, subgraph: Seq<NonZeroOid>)
    requires
        subgraphs.len() > 0,
    ensures
        commit_total(subgraphs.update(0, subgraph)) == commit_total(subgraphs) - subgraphs[0].len()
            + subgraph.len(),
{
    assert(subgraphs.update(0, subgraph).drop_first() =~= subgraphs.drop_first());
}

/// The heads run out: there is one as long as any commit is left, and with each one the commits
/// get fewer. A visit never adds to them.
pub proof fn law_heads_run_out(subgraphs: Seq<Seq<NonZeroOid>>, oid: NonZeroOid)
    ensures
        next_head(subgraphs).0 is Some <==> commit_total(subgraphs) > 0,
        next_head(subgraphs).0 is Some ==> commit_total(next_head(subgraphs).1) == commit_total(
            subgraphs,
        ) - 1,
        commit_total(without_commit(subgraphs, oid)) <= commit_total(subgraphs),
    decreases subgraphs.len(),
{
    if subgraphs.len() > 0 {
        if subgraphs[0].len() == 0 {
            law_heads_run_out(subgraphs.drop_first(), oid);
        } else {
            lemma_total_after_update(subgraphs, subgraphs[0].drop_last());
        }
        subgraphs[0].index_of_first_ensures(oid);
        lemma_total_after_update(subgraphs, subgraphs[0].remove_value(oid));
    }
}

/// A walk takes the commits that it visits out of their subgraph, and no others, so that none of
/// them comes up as a head again. The other subgraphs stay as they are.
pub proof fn law_walked_commits_leave(
    env: StatusEnv,
    create_unsubmitted: bool,
    at: WalkState,
    messages: Seq<CommitMessage>,
)
    requires
        has_commits(at.walk, messages.len() as int),
        at.subgraphs.len() > 0,
        at.subgraphs[0].no_duplicates(),
    ensures
        ({
            let end = walked(env, create_unsubmitted, at, messages);
            &&& end.subgraphs.len() == at.subgraphs.len()
            &&& end.subgraphs.drop_first() == at.subgraphs.drop_first()
            &&& end.subgraphs[0].no_duplicates()
            &&& forall|oid: NonZeroOid| #[trigger]
                end.subgraphs[0].contains(oid) <==> at.subgraphs[0].contains(oid)
                    && !at.walk.stack.subrange(
                    at.walk.position,
                    at.walk.position + messages.len(),
                ).contains(oid)
        }),
    decreases messages.len(),
{
    let p = at.walk.position;
    if messages.len() > 0 {
        let front = messages.drop_last();
        let mid = walked(env, create_unsubmitted, at, front);
        let end = walked(env, create_unsubmitted, at, messages);
        law_walked_commits_leave(env, create_unsubmitted, at, front);
        law_walk_tracks_its_commits(env, create_unsubmitted, at, front);
        let gone = at.walk.stack[p + front.len()];
        let before = mid.subgraphs[0];
        assert(end.subgraphs == mid.subgraphs.update(0, before.remove_value(gone)));
        assert(end.subgraphs.drop_first() =~= mid.subgraphs.drop_first());
        before.index_of_first_ensures(gone);
        let visited_before = at.walk.stack.subrange(p, p + front.len());
        let visited_now = at.walk.stack.subrange(p, p + messages.len());
        assert(visited_now =~= visited_before.push(gone));
        assert forall|oid: NonZeroOid| visited_now.contains(oid) <==> visited_before.contains(oid)
            || oid == gone by {
            if visited_before.contains(oid) {
                let m = choose|m: int| 0 <= m < visited_before.len() && visited_before[m] == oid;
                assert(visited_now[m] == oid);
            }
            if oid == gone {
                assert(visited_now[front.len() as int] == oid);
            }
        }
        lemma_remove_value(before, gone);
    } else {
        assert(at.walk.stack.subrange(p, p) =~= Seq::<NonZeroOid>::empty());
    }
}

proof fn lemma_remove_value(before: Seq<NonZeroOid>, gone: NonZeroOid)
    requires
        before.no_duplicates(),
    ensures
        before.remove_value(gone).no_duplicates(),
        forall|oid: NonZeroOid| #[trigger]
            before.remove_value(gone).contains(oid) <==> before.contains(oid) && oid != gone,
{
    let after = before.remove_value(gone);
    before.index_of_first_ensures(gone);
    if before.contains(gone) {
        let at = before.index_of_first(gone)->0;
        assert(after == before.remove(at));
        assert forall|oid: NonZeroOid| #[trigger] after.contains(oid) <==> before.contains(oid)
            && oid != gone by {
            if after.contains(oid) {
                let m = choose|m: int| 0 <= m < after.len() && after[m] == oid;
                let n = if m < at {
                    m
                } else {
                    m + 1
                };
                assert(before[n] == oid);
                assert(before[at] == gone);
            }
            if before.contains(oid) && oid != gone {
                let n = choose|n: int| 0 <= n < before.len() && before[n] == oid;
                let m = if n < at {
                    n
                } else {
                    n - 1
                };
                assert(after[m] == oid);
            }
        }
    }
}

/// What is found out about a head: the commits between the main branch and the head, the head
/// first, and their messages, the one closest to the main branch first.
pub struct StackReply {
    pub head_first: Seq<NonZeroOid>,
    pub messages: Seq<CommitMessage>,
}

/// What a query changes.
pub struct QueryState {
    pub state: StackStateView,
    pub subgraphs: Seq<Seq<NonZeroOid>>,
}

/// The query once the stack of the next head was walked. Nothing changes if there is none.
pub open spec fn stack_queried(
    env: StatusEnv,
    create_unsubmitted: bool,
    at: QueryState,
    reply: StackReply,
) -> QueryState {
    match next_head(at.subgraphs) {
        (Some(_), rest) => {
            let end = walked(
                env,
                create_unsubmitted,
                WalkState {
                    state: at.state,
                    subgraphs: rest,
                    walk: walk_start(env, reply.head_first),
                },
                reply.messages,
            );
            QueryState { state: walk_end(end.state, end.walk), subgraphs: end.subgraphs }
        },
        (None, _) => at,
    }
}

/// The query once one head after the other was taken out, as many as there are replies.
pub open spec fn queried(
    env: StatusEnv,
    create_unsubmitted: bool,
    at: QueryState,
    replies: Seq<StackReply>,
) -> QueryState
    decreases replies.len(),
{
    if replies.len() == 0 {
        at
    } else {
        stack_queried(
            env,
            create_unsubmitted,
            queried(env, create_unsubmitted, at, replies.drop_last()),
            replies.last(),
        )
    }
}

/// Whether a reply is complete: the stack ends in the head, and each of its commits has a message.
pub open spec fn complete_reply(at: QueryState, reply: StackReply) -> bool {
    &&& reply.messages.len() == reply.head_first.len()
    &&& match next_head(at.subgraphs).0 {
        Some(head) => reply.head_first.contains(head),
        None => true,
    }
}

/// Whether a commit is in one of the subgraphs.
pub open spec fn in_subgraphs(subgraphs: Seq<Seq<NonZeroOid>>, oid: NonZeroOid) -> bool {
    exists|i: int| 0 <= i < subgraphs.len() && (#[trigger] subgraphs[i]).contains(oid)
}

proof fn lemma_next_head_keeps(subgraphs: Seq<Seq<NonZeroOid>>, oid: NonZeroOid)
    requires
        in_subgraphs(subgraphs, oid),
    ensures
        next_head(subgraphs).0 is Some,
        next_head(subgraphs).0 == Some(oid) || in_subgraphs(next_head(subgraphs).1, oid),
    decreases subgraphs.len(),
{
    let i = choose|i: int| 0 <= i < subgraphs.len() && (#[trigger] subgraphs[i]).contains(oid);
    let k = choose|k: int| 0 <= k < subgraphs[i].len() && subgraphs[i][k] == oid;
    if subgraphs[0].len() == 0 {
        let rest = subgraphs.drop_first();
        assert(rest[i - 1].contains(oid));
        lemma_next_head_keeps(rest, oid);
    } else {
        let rest = next_head(subgraphs).1;
        if i == 0 {
            if k < subgraphs[0].len() - 1 {
                assert(rest[0][k] == oid);
                assert(rest[0].contains(oid));
            }
        } else {
            assert(rest[i] == subgraphs[i]);
            assert(rest[i].contains(oid));
        }
    }
}

proof fn lemma_without_commit_keeps(
    subgraphs: Seq<Seq<NonZeroOid>>,
    gone: NonZeroOid,
    oid: NonZeroOid,
)
    requires
        in_subgraphs(subgraphs, oid),
        oid != gone,
    ensures
        in_subgraphs(without_commit(subgraphs, gone), oid),
{
    let i = choose|i: int| 0 <= i < subgraphs.len() && (#[trigger] subgraphs[i]).contains(oid);
    let rest = without_commit(subgraphs, gone);
    if i == 0 {
        let before = subgraphs[0];
        before.index_of_first_ensures(gone);
        let k = choose|k: int| 0 <= k < before.len() && before[k] == oid;
        if before.contains(gone) {
            let at = before.index_of_first(gone)->0;
            let m = if k < at {
                k
            } else {
                k - 1
            };
            assert(rest[0] == before.remove(at));
            assert(rest[0][m] == oid);
        }
        assert(rest[0].contains(oid));
    } else {
        assert(rest[i] == subgraphs[i]);
        assert(rest[i].contains(oid));
    }
}

proof fn lemma_walked_keeps(
    env: StatusEnv,
    create_unsubmitted: bool,
    at: WalkState,
    messages: Seq<CommitMessage>,
    oid: NonZeroOid,
)
    requires
        has_commits(at.walk, messages.len() as int),
        in_subgraphs(at.subgraphs, oid),
    ensures
        ({
            let end = walked(env, create_unsubmitted, at, messages);
            in_subgraphs(end.subgraphs, oid) || is_tracked(end.state.commits, oid)
        }),
    decreases messages.len(),
{
    if messages.len() > 0 {
        let front = messages.drop_last();
        let mid = walked(env, create_unsubmitted, at, front);
        let end = walked(env, create_unsubmitted, at, messages);
        lemma_walked_keeps(env, create_unsubmitted, at, front, oid);
        law_walk_tracks_its_commits(env, create_unsubmitted, at, front);
        law_walk_tracks_its_commits(env, create_unsubmitted, at, messages);
        let gone = mid.walk.stack[mid.walk.position];
        if is_tracked(mid.state.commits, oid) {
            let i = choose|i: int| tracked_at(mid.state.commits, oid, i);
            assert(tracked_at(end.state.commits, oid, i));
        } else if oid != gone {
            lemma_without_commit_keeps(mid.subgraphs, gone, oid);
        } else {
            assert(oid == at.walk.stack[at.walk.position + front.len()]);
        }
    }
}

proof fn lemma_walk_end_keeps_tracked(state: StackStateView, walk: StackWalkView, oid: NonZeroOid)
    requires
        is_tracked(state.commits, oid),
    ensures
        is_tracked(walk_end(state, walk).commits, oid),
{
    let i = choose|i: int| tracked_at(state.commits, oid, i);
    assert(tracked_at(walk_end(state, walk).commits, oid, i));
}

/// Every submitted commit gets a status: once no head is left, each commit of the subgraphs that
/// the query started with is tracked, and so is every commit that was tracked before. The state
/// stays well-formed.
pub proof fn law_every_commit_gets_a_status(
    env: StatusEnv,
    create_unsubmitted: bool,
    at: QueryState,
    replies: Seq<StackReply>,
    oid: NonZeroOid,
)
    requires
        at.state.well_formed(),
        in_subgraphs(at.subgraphs, oid) || is_tracked(at.state.commits, oid),
        forall|k: int|
            0 <= k < replies.len() ==> complete_reply(
                queried(env, create_unsubmitted, at, #[trigger] replies.take(k)),
                replies[k],
            ),
    ensures
        ({
            let end = queried(env, create_unsubmitted, at, replies);
            &&& end.state.well_formed()
            &&& is_tracked(end.state.commits, oid) || in_subgraphs(end.subgraphs, oid)
            &&& next_head(end.subgraphs).0 is None ==> is_tracked(end.state.commits, oid)
        }),
    decreases replies.len(),
{
    let end = queried(env, create_unsubmitted, at, replies);
    if replies.len() > 0 {
        let front = replies.drop_last();
        let n = front.len() as int;
        assert forall|k: int| 0 <= k < front.len() implies complete_reply(
            queried(env, create_unsubmitted, at, #[trigger] front.take(k)),
            front[k],
        ) by {
            assert(front.take(k) =~= replies.take(k));
        }
        law_every_commit_gets_a_status(env, create_unsubmitted, at, front, oid);
        let mid = queried(env, create_unsubmitted, at, front);
        assert(replies.take(n) =~= front);
        assert(complete_reply(mid, replies[n]));
        let reply = replies.last();
        if next_head(mid.subgraphs).0 is Some {
            let head = next_head(mid.subgraphs).0->0;
            let start = WalkState {
                state: mid.state,
                subgraphs: next_head(mid.subgraphs).1,
                walk: walk_start(env, reply.head_first),
            };
            let walk_over = walked(env, create_unsubmitted, start, reply.messages);
            law_walk_tracks_its_commits(env, create_unsubmitted, start, reply.messages);
            law_walk_end_outdates_whole_stack(walk_over.state, walk_over.walk);
            if is_tracked(mid.state.commits, oid) {
                let i = choose|i: int| tracked_at(mid.state.commits, oid, i);
                assert(tracked_at(walk_over.state.commits, oid, i));
            } else {
                lemma_next_head_keeps(mid.subgraphs, oid);
                if oid == head {
                    let k = choose|k: int|
                        0 <= k < reply.head_first.len() && reply.head_first[k] == head;
                    let stack = reply.head_first.reverse();
                    assert(stack[stack.len() - 1 - k] == head);
                    assert(start.walk.stack[stack.len() - 1 - k] == oid);
                } else {
                    lemma_walked_keeps(env, create_unsubmitted, start, reply.messages, oid);
                }
            }
            if is_tracked(walk_over.state.commits, oid) {
                lemma_walk_end_keeps_tracked(walk_over.state, walk_over.walk, oid);
            }
        }
    }
    if in_subgraphs(end.subgraphs, oid) {
        lemma_next_head_keeps(end.subgraphs, oid);
    }
}

/// Whether every tracked commit that has no pull request is known to be unsubmitted.
pub open spec fn unsubmitted_known(env: StatusEnv, state: StackStateView) -> bool {
    forall|i: int|
        0 <= i < state.commits.len() && pr_of(
            state.oids_to_branchless_refs,
            env.pull_requests,
            (#[trigger] state.commits[i]).0,
        ) is None ==> state.commits[i].1.commit_status.submit_status == SubmitStatus::Unsubmitted
}

/// Whether the commit with the given id is tracked at index `k` and unsubmitted.
pub open spec fn waits_at(commits: CommitsView, oid: NonZeroOid, k: int) -> bool {
    tracked_at(commits, oid, k) && commits[k].1.commit_status.submit_status
        == SubmitStatus::Unsubmitted
}

/// Whether a base is a branch or else a tracked commit that is unsubmitted.
pub open spec fn has_branch_or_waits(commits: CommitsView, base: RefOrOidView) -> bool {
    match base {
        RefOrOidView::Oid(oid) => exists|k: int| waits_at(commits, oid, k),
        RefOrOidView::Branch(_) => true,
    }
}

/// Whether the base of every tracked commit is a branch or else a tracked commit that is
/// unsubmitted.
pub open spec fn bases_have_branch_or_wait(commits: CommitsView) -> bool {
    forall|i: int|
        0 <= i < commits.len() ==> has_branch_or_waits(commits, (#[trigger] commits[i]).1.pr_base)
}

proof fn lemma_base_still_waits(before: CommitsView, after: CommitsView, base: RefOrOidView)
    requires
        has_branch_or_waits(before, base),
        before.len() <= after.len(),
        forall|i: int|
            0 <= i < before.len() ==> (#[trigger] after[i]).0 == before[i].0 && (
            before[i].1.commit_status.submit_status == SubmitStatus::Unsubmitted
                ==> after[i].1.commit_status.submit_status == SubmitStatus::Unsubmitted),
    ensures
        has_branch_or_waits(after, base),
{
    if let RefOrOidView::Oid(oid) = base {
        let k = choose|k: int| waits_at(before, oid, k);
        assert(after[k].0 == before[k].0);
        assert(waits_at(after, oid, k));
    }
}

proof fn lemma_visit_keeps_bases(
    env: StatusEnv,
    create_unsubmitted: bool,
    at: WalkState,
    message: CommitMessage,
)
    requires
        has_commits(at.walk, 1),
        unsubmitted_known(env, at.state),
        bases_have_branch_or_wait(at.state.commits),
        has_branch_or_waits(at.state.commits, at.walk.nearest_base_ref),
    ensures
        ({
            let end = visited(env, create_unsubmitted, at, message);
            &&& unsubmitted_known(env, end.state)
            &&& bases_have_branch_or_wait(end.state.commits)
            &&& has_branch_or_waits(end.state.commits, end.walk.nearest_base_ref)
        }),
{
    let end = visited(env, create_unsubmitted, at, message);
    let before = at.state.commits;
    let after = end.state.commits;
    let oid = at.walk.stack[at.walk.position];
    assert(forall|i: int| 0 <= i < before.len() ==> after[i] == before[i]);
    assert forall|i: int| 0 <= i < after.len() implies has_branch_or_waits(
        after,
        (#[trigger] after[i]).1.pr_base,
    ) by {
        if i < before.len() {
            assert(has_branch_or_waits(before, before[i].1.pr_base));
        }
        lemma_base_still_waits(before, after, after[i].1.pr_base);
    }
    assert forall|i: int|
        0 <= i < after.len() && pr_of(
            end.state.oids_to_branchless_refs,
            env.pull_requests,
            (#[trigger] after[i]).0,
        ) is None implies after[i].1.commit_status.submit_status == SubmitStatus::Unsubmitted by {
        if i < before.len() {
            assert(after[i] == before[i]);
        }
    }
    match next_pr(env, at) {
        Some(_) => {},
        None => {
            if create_unsubmitted {
                let k = if is_tracked(before, oid) {
                    choose|k: int| tracked_at(before, oid, k)
                } else {
                    before.len() as int
                };
                if let RefOrOidView::Oid(base) = end.walk.nearest_base_ref {
                    assert(waits_at(after, base, k));
                }
            } else {
                lemma_base_still_waits(before, after, at.walk.nearest_base_ref);
            }
        },
    }
}

proof fn lemma_walk_keeps_bases(
    env: StatusEnv,
    create_unsubmitted: bool,
    at: WalkState,
    messages: Seq<CommitMessage>,
)
    requires
        has_commits(at.walk, messages.len() as int),
        unsubmitted_known(env, at.state),
        bases_have_branch_or_wait(at.state.commits),
        has_branch_or_waits(at.state.commits, at.walk.nearest_base_ref),
    ensures
        ({
            let end = walked(env, create_unsubmitted, at, messages);
            &&& unsubmitted_known(env, end.state)
            &&& bases_have_branch_or_wait(end.state.commits)
            &&& has_branch_or_waits(end.state.commits, end.walk.nearest_base_ref)
        }),
    decreases messages.len(),
{
    if messages.len() > 0 {
        let front = messages.drop_last();
        lemma_walk_keeps_bases(env, create_unsubmitted, at, front);
        law_walk_tracks_its_commits(env, create_unsubmitted, at, front);
        lemma_visit_keeps_bases(
            env,
            create_unsubmitted,
            walked(env, create_unsubmitted, at, front),
            messages.last(),
        );
    }
}

proof fn lemma_walk_end_keeps_bases(env: StatusEnv, state: StackStateView, walk: StackWalkView)
    requires
        unsubmitted_known(env, state),
        bases_have_branch_or_wait(state.commits),
    ensures
        unsubmitted_known(env, walk_end(state, walk)),
        bases_have_branch_or_wait(walk_end(state, walk).commits),
{
    let end = walk_end(state, walk);
    law_walk_end_outdates_whole_stack(state, walk);
    assert forall|i: int| 0 <= i < end.commits.len() implies (#[trigger] end.commits[i]).1.pr_base
        == state.commits[i].1.pr_base && (state.commits[i].1.commit_status.submit_status
        == SubmitStatus::Unsubmitted ==> end.commits[i].1.commit_status.submit_status
        == SubmitStatus::Unsubmitted) by {}
    assert forall|i: int| 0 <= i < end.commits.len() implies has_branch_or_waits(
        end.commits,
        (#[trigger] end.commits[i]).1.pr_base,
    ) by {
        assert(has_branch_or_waits(state.commits, state.commits[i].1.pr_base));
        lemma_base_still_waits(state.commits, end.commits, end.commits[i].1.pr_base);
    }
}

/// In a query that starts without tracked commits, the base of every commit is a branch, or else
/// a commit that is tracked before it and is unsubmitted. The state is well-formed.
pub proof fn law_query_finds_every_base(
    env: StatusEnv,
    create_unsubmitted: bool,
    at: QueryState,
    replies: Seq<StackReply>,
)
    requires
        at.state.commits.len() == 0,
        forall|k: int|
            0 <= k < replies.len() ==> (#[trigger] replies[k]).messages.len()
                <= replies[k].head_first.len(),
    ensures
        ({
            let end = queried(env, create_unsubmitted, at, replies);
            &&& end.state.well_formed()
            &&& unsubmitted_known(env, end.state)
            &&& bases_have_branch_or_wait(end.state.commits)
            &&& bases_come_first(end.state.commits)
        }),
    decreases replies.len(),
{
    if replies.len() > 0 {
        let front = replies.drop_last();
        assert forall|k: int| 0 <= k < front.len() implies (#[trigger] front[k]).messages.len()
            <= front[k].head_first.len() by {
            assert(front[k] == replies[k]);
        }
        law_query_finds_every_base(env, create_unsubmitted, at, front);
        let mid = queried(env, create_unsubmitted, at, front);
        let reply = replies[replies.len() - 1];
        if next_head(mid.subgraphs).0 is Some {
            let start = WalkState {
                state: mid.state,
                subgraphs: next_head(mid.subgraphs).1,
                walk: walk_start(env, reply.head_first),
            };
            let end = walked(env, create_unsubmitted, start, reply.messages);
            law_walk_tracks_its_commits(env, create_unsubmitted, start, reply.messages);
            lemma_walk_keeps_bases(env, create_unsubmitted, start, reply.messages);
            law_bases_come_first(env, create_unsubmitted, start, reply.messages);
            law_walk_end_outdates_whole_stack(end.state, end.walk);
            lemma_walk_end_keeps_bases(env, end.state, end.walk);
        }
    }
}

} // verus!
