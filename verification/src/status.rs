//! Finding out which commits are out of date.
//!
//! The commits of a submission form subgraphs. A [`StatusQuery`] hands out the heads of these
//! subgraphs one by one. For each head, the commits between the main branch and the head are
//! walked with a [`StackWalk`], which compares every commit with its pull request and tracks it in
//! the [`GitHubForge`].

use crate::client::{pull_requests_view, PullRequestInfoView, PullRequests};
use crate::commits::{
    commit_at, commit_at_mut, commit_count, commit_entries, insert_if_new, keyed_at, StackCommits,
};
use crate::decode::{decode_lossy, lossy_text};
use crate::forge::{pr_of, GitHubForge};
use crate::formatter::contains_oid;
use crate::types::{
    commits_view, copy_optional_text, is_tracked, optional_text, same_oid, stacks_view, tracked_at,
    CommitStatus, CommitStatusView, CommitsView, NonZeroOid, RefOrOid, RefOrOidView, StackState,
    StackStateView, StackedChange, StackedChangeView, SubmitStatus,
};
use vstd::prelude::*;

verus! {

/// What is known about the repository and its pull requests while statuses are queried, and which
/// commits are still to be walked.
pub struct StatusQuery {
    /// The branch that stacks are based on.
    pub main_branch_name: String,

    /// The remote that branches are pushed to.
    pub default_remote: Option<String>,

    /// The pull requests of the repository by their branches.
    pub pull_requests: PullRequests,

    /// The subgraphs that are not walked completely, each topologically sorted, without the
    /// commits that were walked.
    pub subgraphs: Vec<Vec<NonZeroOid>>,
}

/// What does not change while statuses are queried.
pub struct StatusEnv {
    pub main_branch_name: Seq<char>,
    pub default_remote: Option<Seq<char>>,
    pub pull_requests: Map<Seq<char>, Seq<PullRequestInfoView>>,
}

/// The walk of one linear stack, from the commit closest to the main branch up to the head.
#[derive(Debug)]
pub struct StackWalk {
    /// The stack. Commits closest to the main branch come first.
    pub stack: Vec<NonZeroOid>,

    /// How many commits of the stack were visited.
    pub position: usize,

    /// What a pull request for the next commit would be based on.
    pub nearest_base_ref: RefOrOid,

    /// Whether a visited commit was amended or is going to get a pull request, so that the rest of
    /// the stack, which was presumably rebased, counts as outdated.
    pub update_until_head: bool,

    /// Whether the structure of the stack changed, so that every pull request of it has to be
    /// updated.
    pub update_whole_stack: bool,
}

/// What a [`StackWalk`] says.
pub struct StackWalkView {
    pub stack: Seq<NonZeroOid>,
    pub position: int,
    pub nearest_base_ref: RefOrOidView,
    pub update_until_head: bool,
    pub update_whole_stack: bool,
}

impl View for StackWalk {
    type V = StackWalkView;

    open spec fn view(&self) -> StackWalkView {
        StackWalkView {
            stack: self.stack@,
            position: self.position as int,
            nearest_base_ref: self.nearest_base_ref@,
            update_until_head: self.update_until_head,
            update_whole_stack: self.update_whole_stack,
        }
    }
}

/// Everything that a visit to a commit reads and changes.
pub struct WalkState {
    pub state: StackStateView,
    pub subgraphs: Seq<Seq<NonZeroOid>>,
    pub walk: StackWalkView,
}

/// The summary and the message of a commit.
pub struct CommitMessage {
    pub summary: Seq<char>,
    pub message: Seq<char>,
}

/// The next head and the subgraphs without it: the last commit of the first subgraph that has
/// any. Subgraphs without commits are dropped.
pub open spec fn next_head(subgraphs: Seq<Seq<NonZeroOid>>) -> (
    Option<NonZeroOid>,
    Seq<Seq<NonZeroOid>>,
)
    decreases subgraphs.len(),
{
    if subgraphs.len() == 0 {
        (None, subgraphs)
    } else if subgraphs[0].len() == 0 {
        next_head(subgraphs.drop_first())
    } else {
        (Some(subgraphs[0].last()), subgraphs.update(0, subgraphs[0].drop_last()))
    }
}

/// The subgraphs without the first occurrence of a commit in the subgraph that is being walked.
pub open spec fn without_commit(subgraphs: Seq<Seq<NonZeroOid>>, oid: NonZeroOid) -> Seq<
    Seq<NonZeroOid>,
> {
    if subgraphs.len() == 0 {
        subgraphs
    } else {
        subgraphs.update(0, subgraphs[0].remove_value(oid))
    }
}

/// The start of a walk: nothing was visited, and the first pull request is based on the main
/// branch. The stack is given with its head first.
pub open spec fn walk_start(env: StatusEnv, head_first: Seq<NonZeroOid>) -> StackWalkView {
    StackWalkView {
        stack: head_first.reverse(),
        position: 0,
        nearest_base_ref: RefOrOidView::Branch(env.main_branch_name),
        update_until_head: false,
        update_whole_stack: false,
    }
}

/// Whether a pull request has another base than it should have.
pub open spec fn base_ref_stale(walk: StackWalkView, pr: PullRequestInfoView) -> bool {
    RefOrOidView::Branch(pr.base_ref_name) != walk.nearest_base_ref
}

/// The walk behind a commit that has a pull request. The commits on top are presumed to be based
/// on it. If the commit was amended, the rest of the stack is outdated; if its base is another
/// one, the whole stack is.
pub open spec fn walk_past_submitted(walk: StackWalkView, pr: PullRequestInfoView) -> StackWalkView {
    StackWalkView {
        stack: walk.stack,
        position: walk.position + 1,
        nearest_base_ref: RefOrOidView::Branch(pr.head_ref_name),
        update_until_head: walk.update_until_head || pr.head_ref_oid != walk.stack[walk.position],
        update_whole_stack: walk.update_whole_stack || base_ref_stale(walk, pr),
    }
}

/// The walk behind a commit that has no pull request. If it is going to get one, this changes the
/// structure of the stack, and the commits on top are based on the commit.
pub open spec fn walk_past_unsubmitted(walk: StackWalkView, create_unsubmitted: bool) -> StackWalkView {
    if create_unsubmitted {
        StackWalkView {
            stack: walk.stack,
            position: walk.position + 1,
            nearest_base_ref: RefOrOidView::Oid(walk.stack[walk.position]),
            update_until_head: true,
            update_whole_stack: true,
        }
    } else {
        StackWalkView { position: walk.position + 1, ..walk }
    }
}

/// What is tracked of a commit that has a pull request. It is up to date if its title is the same
/// and nothing below it or in itself calls for an update.
pub open spec fn submitted_change(
    env: StatusEnv,
    walk: StackWalkView,
    pr: PullRequestInfoView,
    message: CommitMessage,
) -> StackedChangeView {
    let oid = walk.stack[walk.position];
    let title_stale = message.summary != pr.title;
    let past = walk_past_submitted(walk, pr);
    StackedChangeView {
        oid,
        commit_status: CommitStatusView {
            submit_status: if title_stale || past.update_until_head || past.update_whole_stack {
                SubmitStatus::NeedsUpdate
            } else {
                SubmitStatus::UpToDate
            },
            local_commit_name: Some(pr.head_ref_name),
            remote_name: env.default_remote,
            remote_commit_name: Some(pr.head_ref_name),
        },
        should_push: pr.head_ref_oid != oid,
        should_update_pr: title_stale || base_ref_stale(walk, pr),
        pr_url: Some(pr.url),
        pr_number: Some(pr.number),
        pr_base: walk.nearest_base_ref,
        title: message.summary,
        body: pr.body,
    }
}

/// What is tracked of a commit that has no pull request.
pub open spec fn unsubmitted_change(walk: StackWalkView, message: CommitMessage) -> StackedChangeView {
    StackedChangeView {
        oid: walk.stack[walk.position],
        commit_status: CommitStatusView {
            submit_status: SubmitStatus::Unsubmitted,
            local_commit_name: None,
            remote_name: None,
            remote_commit_name: None,
        },
        should_push: true,
        should_update_pr: true,
        pr_url: None,
        pr_number: None,
        pr_base: walk.nearest_base_ref,
        title: message.summary,
        body: message.message,
    }
}

/// The commits with one more behind them, unless it is tracked already.
pub open spec fn with_commit(commits: CommitsView, oid: NonZeroOid, change: StackedChangeView) -> CommitsView {
    if is_tracked(commits, oid) {
        commits
    } else {
        commits.push((oid, change))
    }
}

/// A visit to the next commit of a walk: the commit is tracked, and it leaves the subgraph.
pub open spec fn visited(
    env: StatusEnv,
    create_unsubmitted: bool,
    at: WalkState,
    message: CommitMessage,
) -> WalkState {
    let oid = at.walk.stack[at.walk.position];
    let pr = pr_of(at.state.oids_to_branchless_refs, env.pull_requests, oid);
    let change = match pr {
        Some(pr) => submitted_change(env, at.walk, pr, message),
        None => unsubmitted_change(at.walk, message),
    };
    WalkState {
        state: StackStateView { commits: with_commit(at.state.commits, oid, change), ..at.state },
        subgraphs: without_commit(at.subgraphs, oid),
        walk: match pr {
            Some(pr) => walk_past_submitted(at.walk, pr),
            None => walk_past_unsubmitted(at.walk, create_unsubmitted),
        },
    }
}

/// A change of which the pull request has to be updated, whatever was thought before. It is not up
/// to date any more.
pub open spec fn outdated(change: StackedChangeView) -> StackedChangeView {
    StackedChangeView {
        commit_status: CommitStatusView {
            submit_status: if change.commit_status.submit_status == SubmitStatus::UpToDate {
                SubmitStatus::NeedsUpdate
            } else {
                change.commit_status.submit_status
            },
            ..change.commit_status
        },
        should_update_pr: true,
        ..change
    }
}

/// The commits, of which those in the stack are outdated.
pub open spec fn with_outdated_stack(commits: CommitsView, stack: Seq<NonZeroOid>) -> CommitsView {
    Seq::new(
        commits.len(),
        |i: int|
            if stack.contains(commits[i].0) {
                (commits[i].0, outdated(commits[i].1))
            } else {
                commits[i]
            },
    )
}

/// The end of a walk: if anything structural changed in the stack, all of it is outdated. The
/// stack is recorded.
pub open spec fn walk_end(state: StackStateView, walk: StackWalkView) -> StackStateView {
    StackStateView {
        commits: if walk.update_whole_stack {
            with_outdated_stack(state.commits, walk.stack)
        } else {
            state.commits
        },
        stacks: state.stacks.push(walk.stack),
        oids_to_branchless_refs: state.oids_to_branchless_refs,
    }
}

/// The subgraphs that could be sorted.
pub open spec fn sorted_subgraphs(components: Seq<Option<Vec<NonZeroOid>>>) -> Seq<Seq<NonZeroOid>>
    decreases components.len(),
{
    if components.len() == 0 {
        Seq::empty()
    } else {
        let front = sorted_subgraphs(components.drop_last());
        match components.last() {
            Some(subgraph) => front.push(subgraph@),
            None => front,
        }
    }
}

impl StatusQuery {
    /// What does not change while statuses are queried.
    pub open spec fn env(&self) -> StatusEnv {
        StatusEnv {
            main_branch_name: self.main_branch_name@,
            default_remote: optional_text(self.default_remote),
            pull_requests: pull_requests_view(self.pull_requests),
        }
    }

    /// Starts a query on the connected components of the submitted commits, each topologically
    /// sorted. A component that could not be sorted is left out.
    pub fn new(
        main_branch_name: String,
        default_remote: Option<String>,
        pull_requests: PullRequests,
        components: Vec<Option<Vec<NonZeroOid>>>,
    ) -> (query: StatusQuery)
        ensures
            query.env() == (StatusEnv {
                main_branch_name: main_branch_name@,
                default_remote: optional_text(default_remote),
                pull_requests: pull_requests_view(pull_requests),
            }),
            stacks_view(query.subgraphs@) == sorted_subgraphs(components@),
    {
        let mut subgraphs: Vec<Vec<NonZeroOid>> = Vec::new();
        assert(stacks_view(subgraphs@) =~= sorted_subgraphs(components@.take(0)));
        for component in iter: components
            invariant
                iter.seq() == components@,
                stacks_view(subgraphs@) == sorted_subgraphs(components@.take(iter.index() as int)),
        {
            let ghost before = stacks_view(subgraphs@);
            assert(components@.take(iter.index() + 1).drop_last() =~= components@.take(
                iter.index() as int,
            ));
            match component {
                Some(subgraph) => {
                    subgraphs.push(subgraph);
                    assert(stacks_view(subgraphs@) =~= before.push(subgraph@));
                },
                None => {},
            }
        }
        assert(components@.take(components@.len() as int) =~= components@);
        StatusQuery { main_branch_name, default_remote, pull_requests, subgraphs }
    }

    /// Takes the next head out of the subgraphs, if any commit is left.
    ///
    /// Since a subgraph is topologically sorted, its last commit is a head. The walk of its stack
    /// removes the commits that it visits, so that the heads of a forked stack come up one by
    /// one.
    pub fn next_head(&mut self) -> (head: Option<NonZeroOid>)
        ensures
            (head, stacks_view(final(self).subgraphs@)) == next_head(
                stacks_view(old(self).subgraphs@),
            ),
            final(self).env() == old(self).env(),
    {
        while self.subgraphs.len() > 0
            invariant
                next_head(stacks_view(self.subgraphs@)) == next_head(
                    stacks_view(old(self).subgraphs@),
                ),
                self.env() == old(self).env(),
            decreases self.subgraphs@.len(),
        {
            let ghost before = stacks_view(self.subgraphs@);
            match self.subgraphs[0].pop() {
                Some(head) => {
                    assert(stacks_view(self.subgraphs@) =~= before.update(0, before[0].drop_last()));
                    return Some(head);
                },
                None => {},
            }
            assert(stacks_view(self.subgraphs@) =~= before);
            self.subgraphs.remove(0);
            assert(stacks_view(self.subgraphs@) =~= before.drop_first());
        }
        assert(stacks_view(self.subgraphs@) =~= Seq::<Seq<NonZeroOid>>::empty());
        None
    }

    /// Removes the first occurrence of a commit from the subgraph that is being walked.
    fn remove_commit(&mut self, oid: NonZeroOid)
        ensures
            stacks_view(final(self).subgraphs@) == without_commit(
                stacks_view(old(self).subgraphs@),
                oid,
            ),
            final(self).env() == old(self).env(),
    {
        if self.subgraphs.len() == 0 {
            return;
        }
        let ghost before = stacks_view(self.subgraphs@);
        let count: usize = self.subgraphs[0].len();
        let mut i: usize = 0;
        while i < count
            invariant
                self.subgraphs@ == old(self).subgraphs@,
                self.env() == old(self).env(),
                self.subgraphs@.len() > 0,
                before == stacks_view(self.subgraphs@),
                count == before[0].len(),
                i <= count,
                forall|j: int| 0 <= j < i ==> before[0][j] != oid,
            decreases count - i,
        {
            if same_oid(self.subgraphs[0][i], oid) {
                proof {
                    before[0].index_of_first_ensures(oid);
                    assert(before[0].index_of_first(oid) == Some(i as int));
                }
                self.subgraphs[0].remove(i);
                assert(stacks_view(self.subgraphs@) =~= without_commit(before, oid));
                return;
            }
            i += 1;
        }
        proof {
            before[0].index_of_first_ensures(oid);
            assert(!before[0].contains(oid));
            assert(without_commit(before, oid) =~= before);
        }
    }

    /// Starts the walk of the stack between the main branch and a head, given with the head first.
    pub fn start_walk(&self, head_first: &Vec<NonZeroOid>) -> (walk: StackWalk)
        ensures
            walk@ == walk_start(self.env(), head_first@),
    {
        let mut stack: Vec<NonZeroOid> = Vec::new();
        let mut i: usize = head_first.len();
        while i > 0
            invariant
                i <= head_first@.len(),
                stack@ == head_first@.reverse().take(head_first@.len() - i),
            decreases i,
        {
            i -= 1;
            stack.push(head_first[i]);
            assert(stack@ =~= head_first@.reverse().take(head_first@.len() - i));
        }
        assert(stack@ =~= head_first@.reverse());
        StackWalk {
            stack,
            position: 0,
            nearest_base_ref: RefOrOid::Branch(self.main_branch_name.clone()),
            update_until_head: false,
            update_whole_stack: false,
        }
    }
}

/// Tracks a commit behind those that are tracked, unless it is tracked already.
fn track_commit(state: &mut StackState, oid: NonZeroOid, change: StackedChange)
    requires
        change.oid == oid,
    ensures
        final(state)@ == (StackStateView {
            commits: with_commit(old(state)@.commits, oid, change@),
            ..old(state)@
        }),
        old(state)@.well_formed() ==> final(state)@.well_formed(),
        old(state)@.own_ids() ==> final(state)@.own_ids(),
{
    let ghost entries = commit_entries(state.commits);
    let ghost before = state@;
    insert_if_new(&mut state.commits, oid, change);
    proof {
        assert forall|i: int| tracked_at(before.commits, oid, i) == keyed_at(entries, oid, i) by {}
        if is_tracked(before.commits, oid) {
            let i = choose|i: int| tracked_at(before.commits, oid, i);
            assert(keyed_at(entries, oid, i));
        } else {
            assert forall|i: int| !#[trigger] keyed_at(entries, oid, i) by {
                assert(!tracked_at(before.commits, oid, i));
            }
            assert(state@.commits =~= before.commits.push((oid, change@)));
            assert forall|i: int| 0 <= i < before.commits.len() implies before.commits[i].0
                != oid by {
                assert(!tracked_at(before.commits, oid, i));
            }
        }
    }
}

/// Marks the commits of a stack as outdated.
fn mark_outdated(commits: &mut StackCommits, stack: &Vec<NonZeroOid>)
    ensures
        commits_view(commit_entries(*final(commits))) == with_outdated_stack(
            commits_view(commit_entries(*old(commits))),
            stack@,
        ),
{
    let count: usize = commit_count(commits);
    let ghost before = commits_view(commit_entries(*commits));
    let ghost target = with_outdated_stack(before, stack@);
    let mut i: usize = 0;
    while i < count
        invariant
            i <= count,
            count == before.len(),
            target == with_outdated_stack(before, stack@),
            commit_entries(*commits).len() == count,
            forall|j: int| 0 <= j < i ==> commits_view(commit_entries(*commits))[j] == target[j],
            forall|j: int| i <= j < count ==> commits_view(commit_entries(*commits))[j] == before[j],
        decreases count - i,
    {
        let ghost entries = commit_entries(*commits);
        let oid = *commit_at(commits, i).0;
        assert(commits_view(entries)[i as int] == before[i as int]);
        if contains_oid(stack, oid) {
            let change = commit_at_mut(commits, i);
            change.should_update_pr = true;
            if change.commit_status.submit_status == SubmitStatus::UpToDate {
                change.commit_status.submit_status = SubmitStatus::NeedsUpdate;
            }
        }
        assert(commits_view(commit_entries(*commits))[i as int] == target[i as int]);
        assert forall|j: int| 0 <= j < count && j != i implies commits_view(
            commit_entries(*commits),
        )[j] == commits_view(entries)[j] by {}
        i += 1;
    }
    assert(commits_view(commit_entries(*commits)) =~= target);
}

impl StackWalk {
    /// The commit that is to be visited next, if any is left.
    pub fn next_commit(&self) -> (oid: Option<NonZeroOid>)
        ensures
            match oid {
                Some(oid) => self.position < self.stack@.len() && oid
                    == self.stack@[self.position as int],
                None => self.position >= self.stack@.len(),
            },
    {
        if self.position < self.stack.len() {
            Some(self.stack[self.position])
        } else {
            None
        }
    }

    /// Visits the next commit, given the bytes of its summary and of its message.
    pub fn visit_commit(
        &mut self,
        forge: &mut GitHubForge,
        query: &mut StatusQuery,
        summary: &Vec<u8>,
        message: &Vec<u8>,
    )
        requires
            old(self).position < old(self).stack@.len(),
        ensures
            (WalkState {
                state: final(forge).stack_state@,
                subgraphs: stacks_view(final(query).subgraphs@),
                walk: final(self)@,
            }) == visited(
                old(query).env(),
                old(forge).create_unsubmitted,
                (WalkState {
                    state: old(forge).stack_state@,
                    subgraphs: stacks_view(old(query).subgraphs@),
                    walk: old(self)@,
                }),
                (CommitMessage {
                    summary: lossy_text(summary@),
                    message: lossy_text(message@),
                }),
            ),
            final(forge).create_unsubmitted == old(forge).create_unsubmitted,
            final(query).env() == old(query).env(),
            old(forge).stack_state@.well_formed() ==> final(forge).stack_state@.well_formed(),
            old(forge).stack_state@.own_ids() ==> final(forge).stack_state@.own_ids(),
    {
        let commit_summary = decode_lossy(summary);
        let commit_body = decode_lossy(message);
        self.visit(forge, query, commit_summary, commit_body);
    }

    /// Visits the next commit, given its summary and its message. If it is not tracked yet, it is
    /// from now on.
    pub fn visit(
        &mut self,
        forge: &mut GitHubForge,
        query: &mut StatusQuery,
        commit_summary: String,
        commit_body: String,
    )
        requires
            old(self).position < old(self).stack@.len(),
        ensures
            (WalkState {
                state: final(forge).stack_state@,
                subgraphs: stacks_view(final(query).subgraphs@),
                walk: final(self)@,
            }) == visited(
                old(query).env(),
                old(forge).create_unsubmitted,
                (WalkState {
                    state: old(forge).stack_state@,
                    subgraphs: stacks_view(old(query).subgraphs@),
                    walk: old(self)@,
                }),
                (CommitMessage { summary: commit_summary@, message: commit_body@ }),
            ),
            final(forge).create_unsubmitted == old(forge).create_unsubmitted,
            final(query).env() == old(query).env(),
            old(forge).stack_state@.well_formed() ==> final(forge).stack_state@.well_formed(),
            old(forge).stack_state@.own_ids() ==> final(forge).stack_state@.own_ids(),
    {
        let oid = self.stack[self.position];
        match forge.find_pr_for_oid(&oid, &query.pull_requests) {
            Some(pr) => {
                // If our local commits have been reordered, or if a commit that will get a pull
                // request was inserted into the stack, this will be true.
                let base_ref = RefOrOid::Branch(pr.base_ref_name.clone());
                let base_ref_stale = base_ref != self.nearest_base_ref;

                // If this commit was amended and has to be pushed to the remote branch, this will
                // be true.
                let oid_stale = !same_oid(pr.head_ref_oid, oid);

                // If the commit message summary changed since the pull request was last updated,
                // this will be true.
                let title_stale = commit_summary != pr.title;

                // If this commit was amended, presumably all its descendents were rebased, and
                // the rest of the stack is outdated.
                self.update_until_head = self.update_until_head || oid_stale;

                // If commits of the stack were reordered or inserted, or if one of its branches
                // has another name, the body of every pull request in the stack has to reflect
                // the new structure.
                self.update_whole_stack = self.update_whole_stack || base_ref_stale;

                // `update_whole_stack` can still become true later, in which case every commit of
                // the stack will be marked as outdated at the end of the walk.
                let submit_status = if title_stale || self.update_until_head
                    || self.update_whole_stack {
                    SubmitStatus::NeedsUpdate
                } else {
                    SubmitStatus::UpToDate
                };

                let change = StackedChange {
                    oid,
                    commit_status: CommitStatus {
                        submit_status,
                        local_commit_name: Some(pr.head_ref_name.clone()),
                        remote_name: copy_optional_text(&query.default_remote),
                        remote_commit_name: Some(pr.head_ref_name.clone()),
                    },
                    should_push: oid_stale,
                    should_update_pr: title_stale || base_ref_stale,
                    pr_url: Some(pr.url.clone()),
                    pr_number: Some(pr.number),
                    pr_base: self.nearest_base_ref.clone(),
                    title: commit_summary,
                    // The body is not synced with the local commit message. It's complicated to
                    // decide whether the two are out of sync while ignoring the stack section, and
                    // clobbering manual edits to the body is irritating anyway.
                    body: pr.body.clone(),
                };
                track_commit(&mut forge.stack_state, oid, change);

                // Descendents are presumed to be based on this pull request, at least until the
                // next presumed base is found.
                self.nearest_base_ref = RefOrOid::Branch(pr.head_ref_name.clone());
            },
            None => {
                let change = StackedChange {
                    oid,
                    // The commit will get a branch of its own, even if it already has some.
                    commit_status: CommitStatus {
                        submit_status: SubmitStatus::Unsubmitted,
                        local_commit_name: None,
                        remote_name: None,
                        remote_commit_name: None,
                    },
                    should_push: true,
                    should_update_pr: true,
                    pr_url: None,
                    pr_number: None,
                    pr_base: self.nearest_base_ref.clone(),
                    title: commit_summary,
                    body: commit_body,
                };
                track_commit(&mut forge.stack_state, oid, change);

                // If this commit is going to get a pull request, that is a structural change to
                // the stack. Existing pull requests will all need to be updated and future
                // commits should use this commit as a base.
                if forge.create_unsubmitted {
                    self.update_until_head = true;
                    self.update_whole_stack = true;
                    self.nearest_base_ref = RefOrOid::Oid(oid);
                }
            },
        }
        query.remove_commit(oid);
        assert(self.position < self.stack.len());
        self.position += 1;
    }

    /// Ends the walk: if anything structural changed in the stack, at least the body of each of
    /// its pull requests has to be updated. The stack is recorded, so that it is known how many
    /// linear stacks a given commit is in.
    pub fn finish(self, forge: &mut GitHubForge)
        ensures
            final(forge).stack_state@ == walk_end(old(forge).stack_state@, self@),
            final(forge).create_unsubmitted == old(forge).create_unsubmitted,
            old(forge).stack_state@.well_formed() ==> final(forge).stack_state@.well_formed(),
            old(forge).stack_state@.own_ids() ==> final(forge).stack_state@.own_ids(),
    {
        let ghost before = forge.stack_state@;
        if self.update_whole_stack {
            mark_outdated(&mut forge.stack_state.commits, &self.stack);
        }
        proof {
            let commits = forge.stack_state@.commits;
            assert forall|i: int| 0 <= i < commits.len() implies commits[i].0
                == before.commits[i].0 && commits[i].1.oid == before.commits[i].1.oid by {}
        }
        forge.stack_state.stacks.push(self.stack);
        assert(forge.stack_state@.stacks =~= before.stacks.push(self.stack@));
    }
}

} // verus!
