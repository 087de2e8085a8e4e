//! What each step of a query does to the commit that it is about, and what it leaves alone.

use crate::client::PullRequestInfoView;
use crate::status::{
    next_head, sorted_subgraphs, visited, walk_end, walk_start, CommitMessage, StackWalkView,
    StatusEnv, WalkState,
};
use crate::types::{
    tracked_at, CommitsView, NonZeroOid, RefOrOidView, StackStateView, SubmitStatus,
};
use vstd::prelude::*;

verus! {

/// Whether the first pull request that is listed for the branch of a commit is the given one.
pub open spec fn has_pull_request(
    env: StatusEnv,
    refs: Map<NonZeroOid, Seq<char>>,
    oid: NonZeroOid,
    pr: PullRequestInfoView,
) -> bool {
    &&& refs.contains_key(oid)
    &&& env.pull_requests.contains_key(refs[oid])
    &&& env.pull_requests[refs[oid]].len() > 0
    &&& env.pull_requests[refs[oid]][0] == pr
}

/// Whether no pull request is listed for the branch of a commit.
pub open spec fn has_no_pull_request(
    env: StatusEnv,
    refs: Map<NonZeroOid, Seq<char>>,
    oid: NonZeroOid,
) -> bool {
    refs.contains_key(oid) && env.pull_requests.contains_key(refs[oid])
        ==> env.pull_requests[refs[oid]].len() == 0
}

/// Whether a commit is not among those that are tracked.
pub open spec fn is_unknown(commits: CommitsView, oid: NonZeroOid) -> bool {
    forall|i: int| 0 <= i < commits.len() ==> (#[trigger] commits[i]).0 != oid
}

proof fn lemma_unknown_is_untracked(commits: CommitsView, oid: NonZeroOid)
    requires
        is_unknown(commits, oid),
    ensures
        forall|i: int| !tracked_at(commits, oid, i),
{
    assert forall|i: int| !tracked_at(commits, oid, i) by {
        if tracked_at(commits, oid, i) {
            assert(commits[i].0 != oid);
        }
    }
}

/// A visit to a commit that has a pull request and is not tracked yet tracks it behind all others.
/// Each thing that can be out of date is told by itself: the commit is to be pushed if and only if
/// the pull request has another head, and the pull request is to be edited if and only if it has
/// another title or another base. It needs an update if any of these holds of it, or if something
/// below it outdated the stack. What the pull request says is taken over, and the walk goes on
/// from its branch.
pub proof fn law_visit_to_submitted_commit(
    env: StatusEnv,
    create_unsubmitted: bool,
    at: WalkState,
    message: CommitMessage,
    pr: PullRequestInfoView,
)
    requires
        0 <= at.walk.position < at.walk.stack.len(),
        has_pull_request(
            env,
            at.state.oids_to_branchless_refs,
            at.walk.stack[at.walk.position],
            pr,
        ),
        is_unknown(at.state.commits, at.walk.stack[at.walk.position]),
    ensures
        ({
            let oid = at.walk.stack[at.walk.position];
            let end = visited(env, create_unsubmitted, at, message);
            let change = end.state.commits.last().1;
            let amended = pr.head_ref_oid != oid;
            let moved = at.walk.nearest_base_ref != RefOrOidView::Branch(pr.base_ref_name);
            let renamed = message.summary != pr.title;
            &&& end.state.commits == at.state.commits.push((oid, change))
            &&& change.oid == oid
            &&& change.should_push == amended
            &&& renamed ==> change.should_update_pr
            &&& moved ==> change.should_update_pr
            &&& !renamed && !moved ==> !change.should_update_pr
            &&& amended || renamed || moved || at.walk.update_until_head
                || at.walk.update_whole_stack ==> change.commit_status.submit_status
                == SubmitStatus::NeedsUpdate
            &&& !(amended || renamed || moved || at.walk.update_until_head
                || at.walk.update_whole_stack) ==> change.commit_status.submit_status
                == SubmitStatus::UpToDate
            &&& change.commit_status.local_commit_name == Some(pr.head_ref_name)
            &&& change.commit_status.remote_commit_name == Some(pr.head_ref_name)
            &&& change.commit_status.remote_name == env.default_remote
            &&& change.pr_url == Some(pr.url)
            &&& change.pr_number == Some(pr.number)
            &&& change.pr_base == at.walk.nearest_base_ref
            &&& change.title == message.summary
            &&& change.body == pr.body
        }),
{
    lemma_unknown_is_untracked(at.state.commits, at.walk.stack[at.walk.position]);
}

/// A visit to a commit that has no pull request and is not tracked yet tracks it behind all others,
/// as one that is to be pushed and to get a pull request, with its own summary and message.
pub proof fn law_visit_to_unsubmitted_commit(
    env: StatusEnv,
    create_unsubmitted: bool,
    at: WalkState,
    message: CommitMessage,
)
    requires
        0 <= at.walk.position < at.walk.stack.len(),
        has_no_pull_request(
            env,
            at.state.oids_to_branchless_refs,
            at.walk.stack[at.walk.position],
        ),
        is_unknown(at.state.commits, at.walk.stack[at.walk.position]),
    ensures
        ({
            let oid = at.walk.stack[at.walk.position];
            let end = visited(env, create_unsubmitted, at, message);
            let change = end.state.commits.last().1;
            &&& end.state.commits == at.state.commits.push((oid, change))
            &&& change.oid == oid
            &&& change.should_push
            &&& change.should_update_pr
            &&& change.commit_status.submit_status == SubmitStatus::Unsubmitted
            &&& change.commit_status.local_commit_name is None
            &&& change.commit_status.remote_commit_name is None
            &&& change.commit_status.remote_name is None
            &&& change.pr_url is None
            &&& change.pr_number is None
            &&& change.pr_base == at.walk.nearest_base_ref
            &&& change.title == message.summary
            &&& change.body == message.message
        }),
{
    lemma_unknown_is_untracked(at.state.commits, at.walk.stack[at.walk.position]);
}

/// A visit to a commit that is tracked already leaves everything that is tracked as it is.
pub proof fn law_visit_to_tracked_commit(
    env: StatusEnv,
    create_unsubmitted: bool,
    at: WalkState,
    message: CommitMessage,
    i: int,
)
    requires
        0 <= at.walk.position < at.walk.stack.len(),
        0 <= i < at.state.commits.len(),
        at.state.commits[i].0 == at.walk.stack[at.walk.position],
    ensures
        visited(env, create_unsubmitted, at, message).state.commits == at.state.commits,
{
    assert(tracked_at(at.state.commits, at.walk.stack[at.walk.position], i));
}

/// Where a walk stands after a visit does not rest on whether the commit was tracked, nor on its
/// message. Behind a pull request the next base is its branch, and the walk remembers whether the
/// commit was amended and whether its base is another one.
pub proof fn law_walk_behind_submitted_commit(
    env: StatusEnv,
    create_unsubmitted: bool,
    at: WalkState,
    message: CommitMessage,
    pr: PullRequestInfoView,
)
    requires
        0 <= at.walk.position < at.walk.stack.len(),
        has_pull_request(
            env,
            at.state.oids_to_branchless_refs,
            at.walk.stack[at.walk.position],
            pr,
        ),
    ensures
        ({
            let walk = visited(env, create_unsubmitted, at, message).walk;
            &&& walk.stack == at.walk.stack
            &&& walk.position == at.walk.position + 1
            &&& walk.nearest_base_ref == RefOrOidView::Branch(pr.head_ref_name)
            &&& walk.update_until_head <==> at.walk.update_until_head || pr.head_ref_oid
                != at.walk.stack[at.walk.position]
            &&& walk.update_whole_stack <==> at.walk.update_whole_stack || at.walk.nearest_base_ref
                != RefOrOidView::Branch(pr.base_ref_name)
        }),
{
}

/// Behind a commit without a pull request the walk stands where it stood, unless the commit is
/// going to get one: then it is the next base, and the whole stack is outdated.
pub proof fn law_walk_behind_unsubmitted_commit(
    env: StatusEnv,
    at: WalkState,
    message: CommitMessage,
)
    requires
        0 <= at.walk.position < at.walk.stack.len(),
        has_no_pull_request(
            env,
            at.state.oids_to_branchless_refs,
            at.walk.stack[at.walk.position],
        ),
    ensures
        ({
            let passed = visited(env, false, at, message).walk;
            let created = visited(env, true, at, message).walk;
            &&& passed.stack == at.walk.stack
            &&& passed.position == at.walk.position + 1
            &&& passed.nearest_base_ref == at.walk.nearest_base_ref
            &&& passed.update_until_head == at.walk.update_until_head
            &&& passed.update_whole_stack == at.walk.update_whole_stack
            &&& created.stack == at.walk.stack
            &&& created.position == at.walk.position + 1
            &&& created.nearest_base_ref == RefOrOidView::Oid(at.walk.stack[at.walk.position])
            &&& created.update_until_head
            &&& created.update_whole_stack
        }),
{
}

/// A visit takes its commit out of the subgraph that is being walked, where it stands first, and
/// changes no other subgraph. Neither branches nor recorded stacks change.
pub proof fn law_visit_takes_commit_out(
    env: StatusEnv,
    create_unsubmitted: bool,
    at: WalkState,
    message: CommitMessage,
    before: Seq<NonZeroOid>,
    behind: Seq<NonZeroOid>,
)
    requires
        0 <= at.walk.position < at.walk.stack.len(),
        !before.contains(at.walk.stack[at.walk.position]),
    ensures
        ({
            let oid = at.walk.stack[at.walk.position];
            let end = visited(env, create_unsubmitted, at, message);
            &&& end.subgraphs.len() == at.subgraphs.len()
            &&& forall|i: int| 0 < i < at.subgraphs.len() ==> end.subgraphs[i] == at.subgraphs[i]
            &&& at.subgraphs.len() > 0 && at.subgraphs[0] == before.push(oid) + behind
                ==> end.subgraphs[0] == before + behind
            &&& at.subgraphs.len() > 0 && at.subgraphs[0] == before ==> end.subgraphs[0] == before
            &&& end.state.oids_to_branchless_refs == at.state.oids_to_branchless_refs
            &&& end.state.stacks == at.state.stacks
        }),
{
    let oid = at.walk.stack[at.walk.position];
    let subgraph = at.subgraphs[0];
    let end = visited(env, create_unsubmitted, at, message);
    subgraph.index_of_first_ensures(oid);
    if at.subgraphs.len() > 0 && subgraph == before.push(oid) + behind {
        let n = before.len() as int;
        assert(subgraph[n] == oid);
        assert forall|i: int| 0 <= i < n implies subgraph[i] != oid by {
            assert(subgraph[i] == before[i]);
            assert(before.contains(before[i]));
        }
        assert(subgraph.index_of_first(oid) == Some(n));
        assert(end.subgraphs[0] =~= before + behind);
    }
}

/// The next head is the last commit of the first subgraph that has one. The subgraphs before it are
/// dropped, and those behind it stay. Where no subgraph has a commit there is no head.
pub proof fn law_next_head_is_last_of_first(
    empty: nat,
    subgraph: Seq<NonZeroOid>,
    head: NonZeroOid,
    behind: Seq<Seq<NonZeroOid>>,
)
    ensures
        next_head(Seq::new(empty, |i: int| Seq::empty())) == (
            None::<NonZeroOid>,
            Seq::<Seq<NonZeroOid>>::empty(),
        ),
        next_head(
            Seq::new(empty, |i: int| Seq::empty()) + seq![subgraph.push(head)] + behind,
        ) == (Some(head), seq![subgraph] + behind),
    decreases empty,
{
    let nothing = Seq::new(empty, |i: int| Seq::<NonZeroOid>::empty());
    let all = nothing + seq![subgraph.push(head)] + behind;
    if empty == 0 {
        assert(nothing =~= Seq::empty());
        assert(all[0] == subgraph.push(head));
        assert(subgraph.push(head).drop_last() =~= subgraph);
        assert(all.update(0, subgraph) =~= seq![subgraph] + behind);
    } else {
        let fewer = Seq::new((empty - 1) as nat, |i: int| Seq::<NonZeroOid>::empty());
        law_next_head_is_last_of_first((empty - 1) as nat, subgraph, head, behind);
        assert(nothing.drop_first() =~= fewer);
        assert(all[0] =~= Seq::empty());
        assert(nothing[0] =~= Seq::empty());
        assert(all.drop_first() =~= fewer + seq![subgraph.push(head)] + behind);
    }
}

/// One more component is put behind the others if it could be sorted, as it was sorted, and left
/// out otherwise.
pub proof fn law_sorted_components_are_kept(
    components: Seq<Option<Vec<NonZeroOid>>>,
    subgraph: Vec<NonZeroOid>,
)
    ensures
        sorted_subgraphs(Seq::empty()) == Seq::<Seq<NonZeroOid>>::empty(),
        sorted_subgraphs(components.push(Some(subgraph))) == sorted_subgraphs(components).push(
            subgraph@,
        ),
        sorted_subgraphs(components.push(None)) == sorted_subgraphs(components),
{
    assert(components.push(Some(subgraph)).drop_last() =~= components);
    assert(components.push(None).drop_last() =~= components);
}

/// A walk starts at the commit that is farthest from the head, based on the main branch, with
/// nothing known to be outdated. It goes through the commits that it was given, the other way
/// round.
pub proof fn law_walk_starts_at_the_bottom(env: StatusEnv, head_first: Seq<NonZeroOid>, k: int)
    requires
        0 <= k < head_first.len(),
    ensures
        ({
            let walk = walk_start(env, head_first);
            &&& walk.stack.len() == head_first.len()
            &&& walk.stack[k] == head_first[head_first.len() - 1 - k]
            &&& walk.position == 0
            &&& walk.nearest_base_ref == RefOrOidView::Branch(env.main_branch_name)
            &&& !walk.update_until_head
            &&& !walk.update_whole_stack
        }),
{
}

/// The end of a walk records the stack. If anything structural changed, each commit of the stack is
/// to be edited and none is left up to date, whatever was said of it before. Nothing else that is
/// known of it changes, and nothing changes for commits outside the stack or where nothing
/// structural changed.
pub proof fn law_walk_end_in_full(state: StackStateView, walk: StackWalkView, i: int)
    requires
        0 <= i < state.commits.len(),
    ensures
        ({
            let end = walk_end(state, walk);
            let (oid, before) = state.commits[i];
            let after = end.commits[i].1;
            &&& end.stacks == state.stacks.push(walk.stack)
            &&& end.oids_to_branchless_refs == state.oids_to_branchless_refs
            &&& end.commits.len() == state.commits.len()
            &&& end.commits[i].0 == oid
            &&& !walk.update_whole_stack ==> after == before
            &&& !walk.stack.contains(oid) ==> after == before
            &&& walk.update_whole_stack && walk.stack.contains(oid) ==> {
                &&& after.should_update_pr
                &&& before.commit_status.submit_status == SubmitStatus::Unsubmitted
                    ==> after.commit_status.submit_status == SubmitStatus::Unsubmitted
                &&& before.commit_status.submit_status != SubmitStatus::Unsubmitted
                    ==> after.commit_status.submit_status == SubmitStatus::NeedsUpdate
            }
            &&& after.oid == before.oid
            &&& after.should_push == before.should_push
            &&& after.commit_status.local_commit_name == before.commit_status.local_commit_name
            &&& after.commit_status.remote_commit_name == before.commit_status.remote_commit_name
            &&& after.commit_status.remote_name == before.commit_status.remote_name
            &&& after.pr_url == before.pr_url
            &&& after.pr_number == before.pr_number
            &&& after.pr_base == before.pr_base
            &&& after.title == before.title
            &&& after.body == before.body
        }),
{
}

} // verus!
