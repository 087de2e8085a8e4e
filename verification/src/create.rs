//! Creating pull requests for commits that have none.
//!
//! A [`Creation`] goes through the tracked commits in their topological order. For each one that
//! was asked for, an issue is created, which gives the number to name a branch by; the branch is
//! created and pushed; and the issue is turned into a pull request for the branch. Each step says
//! what is to be done next, and is told what came of it.

use crate::commits::{commit_at, commit_at_mut, commit_count};
use crate::forge::{base_branch, statuses_view, GitHubForge};
use crate::text::{
    after_last, concat, cut_after_last, decimal, parse_usize, parsed_usize, write_decimal,
};
use crate::types::{
    change_at, is_tracked, tracked_at, tracked_change, CommitStatus, CommitStatusView,
    CommitsView, NonZeroOid, StackStateView, StackedChangeView, SubmitStatus,
};
use std::collections::BTreeMap;
use vstd::prelude::*;

verus! {

/// The creation of pull requests for the requested commits.
#[derive(Debug)]
pub struct Creation {
    /// The requested commits. Pull requests are created for those that are unsubmitted.
    pub commits: BTreeMap<NonZeroOid, CommitStatus>,

    /// What the names of new branches begin with.
    pub pr_branch_prefix: String,

    /// Whether the pull requests are drafts.
    pub draft: bool,

    /// How many of the tracked commits were gone through.
    pub position: usize,
}

/// A commit for which an issue is to be created. Issues and pull requests draw from the same pool
/// of numbers and an issue can be converted into a pull request, so this lets the number of the
/// pull request be part of the name of the branch.
#[derive(Debug)]
pub struct IssueRequest {
    /// Which of the tracked commits it is.
    pub index: usize,
    pub oid: NonZeroOid,
    pub title: String,
    pub body: String,
}

/// A branch that is to be created and pushed for a commit. It may exist already.
#[derive(Debug)]
pub struct BranchRequest {
    /// Which of the tracked commits it is.
    pub index: usize,
    pub oid: NonZeroOid,
    pub issue_num: usize,
    pub branch_name: String,
}

/// What came of the attempt to create a branch.
#[derive(Clone, Copy, Debug, PartialEq, Eq, Structural)]
pub enum BranchOutcome {
    /// The branch is new.
    Created,

    /// There is a branch of that name already.
    Exists,

    /// The branch could not be created.
    Failed,
}

/// An issue that is to be converted into a pull request.
#[derive(Debug)]
pub struct PullRequestRequest {
    pub issue_num: usize,
    pub head_ref_name: String,
    pub base_ref_name: String,
    pub draft: bool,
}

/// Whether a pull request is to be created for a commit.
pub open spec fn is_wanted(requested: Map<NonZeroOid, CommitStatusView>, oid: NonZeroOid) -> bool {
    requested.contains_key(oid) && requested[oid].submit_status == SubmitStatus::Unsubmitted
}

/// The first commit, not before index `from`, for which a pull request is to be created.
pub open spec fn next_wanted(
    commits: CommitsView,
    requested: Map<NonZeroOid, CommitStatusView>,
    from: int,
) -> Option<int>
    decreases commits.len() - from,
{
    if from >= commits.len() {
        None
    } else if is_wanted(requested, commits[from].0) {
        Some(from)
    } else {
        next_wanted(commits, requested, from + 1)
    }
}

/// The number of an issue: what follows the last slash of its URL.
pub open spec fn issue_number(url: Seq<char>) -> Option<usize> {
    match after_last(url, '/') {
        Some(number) => parsed_usize(number),
        None => None,
    }
}

/// The name of the branch for a pull request.
pub open spec fn pr_branch_name(prefix: Seq<char>, issue_num: usize) -> Seq<char> {
    prefix + "pr"@ + decimal(issue_num as int)
}

/// A change that has a branch, which is called the same locally and remotely.
pub open spec fn with_branch(change: StackedChangeView, branch_name: Seq<char>) -> StackedChangeView {
    StackedChangeView {
        commit_status: CommitStatusView {
            local_commit_name: Some(branch_name),
            remote_commit_name: Some(branch_name),
            ..change.commit_status
        },
        ..change
    }
}

/// A change that has a pull request. It was pushed, and its pull request still has to get the
/// stack section.
pub open spec fn with_pull_request(
    change: StackedChangeView,
    issue_num: usize,
    pr_url: Seq<char>,
) -> StackedChangeView {
    StackedChangeView {
        commit_status: CommitStatusView {
            submit_status: SubmitStatus::NeedsUpdate,
            ..change.commit_status
        },
        pr_url: Some(pr_url),
        pr_number: Some(issue_num),
        should_push: false,
        ..change
    }
}

/// The state with another change at an index.
pub open spec fn with_change(state: StackStateView, index: int, change: StackedChangeView) -> StackStateView {
    StackStateView {
        commits: state.commits.update(index, (state.commits[index].0, change)),
        ..state
    }
}

/// The branches with one for a commit, unless the commit has one already.
pub open spec fn with_ref(
    refs: Map<NonZeroOid, Seq<char>>,
    oid: NonZeroOid,
    branch_name: Seq<char>,
) -> Map<NonZeroOid, Seq<char>> {
    if refs.contains_key(oid) {
        refs
    } else {
        refs.insert(oid, branch_name)
    }
}

/// The state once the branch of a change was created.
pub open spec fn after_branch(
    state: StackStateView,
    index: int,
    branch_name: Seq<char>,
) -> StackStateView {
    with_change(state, index, with_branch(state.commits[index].1, branch_name))
}

/// The state once the issue of a change was converted into a pull request. From now on the branch
/// stands for the commit where a pull request is based on it.
pub open spec fn after_pull_request(
    state: StackStateView,
    index: int,
    branch_name: Seq<char>,
    issue_num: usize,
    pr_url: Seq<char>,
) -> StackStateView {
    StackStateView {
        oids_to_branchless_refs: with_ref(
            state.oids_to_branchless_refs,
            state.commits[index].0,
            branch_name,
        ),
        ..with_change(
            state,
            index,
            with_pull_request(state.commits[index].1, issue_num, pr_url),
        )
    }
}

/// The statuses of the tracked commits that were asked for.
pub open spec fn requested_statuses(
    commits: CommitsView,
    requested: Map<NonZeroOid, CommitStatusView>,
) -> Map<NonZeroOid, CommitStatusView> {
    Map::new(
        |oid: NonZeroOid| is_tracked(commits, oid) && requested.contains_key(oid),
        |oid: NonZeroOid| tracked_change(commits, oid)->0.commit_status,
    )
}

impl BranchRequest {
    /// Whether the request is for a commit that is tracked at its index.
    pub open spec fn fits(&self, state: StackStateView) -> bool {
        tracked_at(state.commits, self.oid, self.index as int)
    }
}

impl Creation {
    /// Starts the creation of pull requests for those of the given commits that are unsubmitted.
    pub fn new(
        commits: BTreeMap<NonZeroOid, CommitStatus>,
        pr_branch_prefix: String,
        draft: bool,
    ) -> (creation: Creation)
        ensures
            creation.commits == commits,
            creation.pr_branch_prefix == pr_branch_prefix,
            creation.draft == draft,
            creation.position == 0,
    {
        Creation { commits, pr_branch_prefix, draft, position: 0 }
    }

    /// Goes on to the next commit for which a pull request is to be created, if any is left.
    pub fn next_issue(&mut self, forge: &GitHubForge) -> (request: Option<IssueRequest>)
        ensures
            match request {
                Some(request) => {
                    let entry = forge.stack_state@.commits[request.index as int];
                    &&& next_wanted(
                        forge.stack_state@.commits,
                        statuses_view(old(self).commits@),
                        old(self).position as int,
                    ) == Some(request.index as int)
                    &&& request.index < forge.stack_state@.commits.len()
                    &&& request.oid == entry.0
                    &&& request.title@ == entry.1.title
                    &&& request.body@ == entry.1.body
                    &&& final(self).position == request.index + 1
                },
                None => next_wanted(
                    forge.stack_state@.commits,
                    statuses_view(old(self).commits@),
                    old(self).position as int,
                ) is None && final(self).position == (if old(self).position
                    < forge.stack_state@.commits.len() {
                    forge.stack_state@.commits.len() as int
                } else {
                    old(self).position as int
                }),
            },
            final(self).commits == old(self).commits,
            final(self).pr_branch_prefix == old(self).pr_branch_prefix,
            final(self).draft == old(self).draft,
    {
        let count: usize = commit_count(&forge.stack_state.commits);
        let ghost commits = forge.stack_state@.commits;
        let ghost requested = statuses_view(self.commits@);
        while self.position < count
            invariant
                count == commits.len(),
                commits == forge.stack_state@.commits,
                requested == statuses_view(self.commits@),
                next_wanted(commits, requested, self.position as int) == next_wanted(
                    commits,
                    requested,
                    old(self).position as int,
                ),
                self.position == old(self).position || old(self).position < self.position <= count,
                self.commits == old(self).commits,
                self.pr_branch_prefix == old(self).pr_branch_prefix,
                self.draft == old(self).draft,
            decreases count - self.position,
        {
            let index: usize = self.position;
            let (oid, stacked_change) = commit_at(&forge.stack_state.commits, index);
            assert(commits[index as int] == (*oid, stacked_change@));
            let wanted = match self.commits.get(oid) {
                Some(status) => status.submit_status == SubmitStatus::Unsubmitted,
                None => false,
            };
            self.position = index + 1;
            if wanted {
                return Some(
                    IssueRequest {
                        index,
                        oid: *oid,
                        title: stacked_change.title.clone(),
                        body: stacked_change.body.clone(),
                    },
                );
            }
        }
        None
    }

    /// Names the branch for a commit by the number of its issue. There is none if the URL of the
    /// issue does not end in a number; the commit is then given up.
    pub fn issue_created(&self, issue: &IssueRequest, new_issue_url: &str) -> (request: Option<
        BranchRequest,
    >)
        ensures
            match request {
                Some(request) => {
                    &&& issue_number(new_issue_url@) == Some(request.issue_num)
                    &&& request.branch_name@ == pr_branch_name(
                        self.pr_branch_prefix@,
                        request.issue_num,
                    )
                    &&& request.index == issue.index
                    &&& request.oid == issue.oid
                },
                None => issue_number(new_issue_url@) is None,
            },
    {
        let number = match cut_after_last(new_issue_url, '/') {
            Some(number) => number,
            None => {
                return None;
            },
        };
        match parse_usize(number) {
            Some(issue_num) => {
                let mut branch_name = concat(self.pr_branch_prefix.as_str(), "pr");
                branch_name.append(write_decimal(issue_num).as_str());
                Some(BranchRequest { index: issue.index, oid: issue.oid, issue_num, branch_name })
            },
            None => None,
        }
    }

    /// Records the branch of a commit, be it new or not. What is returned is the status with which
    /// the branch is to be pushed. There is none if the branch could not be created; the whole
    /// creation then stops, and nothing is recorded.
    pub fn branch_created(
        &self,
        forge: &mut GitHubForge,
        branch: &BranchRequest,
        outcome: BranchOutcome,
    ) -> (status: Option<CommitStatus>)
        requires
            branch.fits(old(forge).stack_state@),
        ensures
            match status {
                Some(status) => {
                    &&& outcome != BranchOutcome::Failed
                    &&& final(forge).stack_state@ == after_branch(
                        old(forge).stack_state@,
                        branch.index as int,
                        branch.branch_name@,
                    )
                    &&& status@
                        == final(forge).stack_state@.commits[branch.index as int].1.commit_status
                },
                None => outcome == BranchOutcome::Failed && final(forge).stack_state@ == old(
                    forge,
                ).stack_state@,
            },
            final(forge).create_unsubmitted == old(forge).create_unsubmitted,
            branch.fits(final(forge).stack_state@),
            old(forge).stack_state@.well_formed() ==> final(forge).stack_state@.well_formed(),
            old(forge).stack_state@.own_ids() ==> final(forge).stack_state@.own_ids(),
    {
        match outcome {
            BranchOutcome::Created | BranchOutcome::Exists => {},
            BranchOutcome::Failed => {
                return None;
            },
        }
        let ghost before = forge.stack_state@;
        let change = commit_at_mut(&mut forge.stack_state.commits, branch.index);
        change.commit_status.local_commit_name = Some(branch.branch_name.clone());
        change.commit_status.remote_commit_name = Some(branch.branch_name.clone());
        let status = change.commit_status.clone();
        assert(forge.stack_state@.commits =~= after_branch(
            before,
            branch.index as int,
            branch.branch_name@,
        ).commits);
        Some(status)
    }

    /// Says how the issue of a commit is to be converted into a pull request, now that its branch
    /// was pushed. If the base of the commit is another commit, the branch of that commit is the
    /// base; if that commit has none, the base is not known and the commit is given up.
    pub fn branch_pushed(&self, forge: &GitHubForge, branch: &BranchRequest) -> (request: Option<
        PullRequestRequest,
    >)
        requires
            branch.fits(forge.stack_state@),
        ensures
            match request {
                Some(request) => {
                    &&& base_branch(
                        forge.stack_state@.oids_to_branchless_refs,
                        forge.stack_state@.commits[branch.index as int].1.pr_base,
                    ) == Some(request.base_ref_name@)
                    &&& request.issue_num == branch.issue_num
                    &&& request.head_ref_name@ == branch.branch_name@
                    &&& request.draft == self.draft
                },
                None => base_branch(
                    forge.stack_state@.oids_to_branchless_refs,
                    forge.stack_state@.commits[branch.index as int].1.pr_base,
                ) is None,
            },
    {
        let (_oid, stacked_change) = commit_at(&forge.stack_state.commits, branch.index);
        match forge.find_base_ref_name(&stacked_change.pr_base) {
            Some(base_ref_name) => Some(
                PullRequestRequest {
                    issue_num: branch.issue_num,
                    head_ref_name: branch.branch_name.clone(),
                    base_ref_name: base_ref_name.clone(),
                    draft: self.draft,
                },
            ),
            None => None,
        }
    }

    /// Records the pull request of a commit.
    pub fn pull_request_created(
        &self,
        forge: &mut GitHubForge,
        branch: &BranchRequest,
        pr_url: String,
    )
        requires
            branch.fits(old(forge).stack_state@),
        ensures
            final(forge).stack_state@ == after_pull_request(
                old(forge).stack_state@,
                branch.index as int,
                branch.branch_name@,
                branch.issue_num,
                pr_url@,
            ),
            final(forge).create_unsubmitted == old(forge).create_unsubmitted,
            old(forge).stack_state@.well_formed() ==> final(forge).stack_state@.well_formed(),
            old(forge).stack_state@.own_ids() ==> final(forge).stack_state@.own_ids(),
    {
        let ghost before = forge.stack_state@;
        let change = commit_at_mut(&mut forge.stack_state.commits, branch.index);
        change.commit_status.submit_status = SubmitStatus::NeedsUpdate;
        change.pr_url = Some(pr_url);
        change.pr_number = Some(branch.issue_num);
        change.should_push = false;
        let ghost after = after_pull_request(
            before,
            branch.index as int,
            branch.branch_name@,
            branch.issue_num,
            pr_url@,
        );
        assert(forge.stack_state@.commits =~= after.commits);
        if !forge.stack_state.oids_to_branchless_refs.contains_key(&branch.oid) {
            forge.stack_state.oids_to_branchless_refs.insert(
                branch.oid,
                branch.branch_name.clone(),
            );
        }
        assert(forge.stack_state@.oids_to_branchless_refs =~= after.oids_to_branchless_refs);
    }

    /// The statuses of the commits that were asked for, with which [`GitHubForge::update`] brings
    /// the new pull requests up to date.
    pub fn commits_to_update(&self, forge: &GitHubForge) -> (statuses: BTreeMap<
        NonZeroOid,
        CommitStatus,
    >)
        ensures
            statuses_view(statuses@) == requested_statuses(
                forge.stack_state@.commits,
                statuses_view(self.commits@),
            ),
    {
        let mut statuses: BTreeMap<NonZeroOid, CommitStatus> = BTreeMap::new();
        let count: usize = commit_count(&forge.stack_state.commits);
        let mut i: usize = 0;
        let ghost commits = forge.stack_state@.commits;
        let ghost requested = statuses_view(self.commits@);
        let ghost expected = requested_statuses(commits, requested);
        while i < count
            invariant
                i <= count,
                count == commits.len(),
                commits == forge.stack_state@.commits,
                requested == statuses_view(self.commits@),
                expected == requested_statuses(commits, requested),
                forall|oid: NonZeroOid| #[trigger]
                    statuses@.contains_key(oid) ==> expected.contains_key(oid) && statuses@[oid]@
                        == expected[oid],
                forall|j: int|
                    0 <= j < i && requested.contains_key((#[trigger] commits[j]).0)
                        ==> statuses@.contains_key(commits[j].0),
            decreases count - i,
        {
            let (oid, stacked_change) = change_at(&forge.stack_state.commits, i);
            if self.commits.contains_key(oid) {
                statuses.insert(*oid, stacked_change.commit_status.clone());
            }
            i += 1;
        }
        proof {
            assert forall|oid: NonZeroOid| #[trigger]
                expected.contains_key(oid) implies statuses@.contains_key(oid) by {
                let k = choose|k: int| tracked_at(commits, oid, k);
                assert(requested.contains_key(commits[k].0));
            }
            assert(statuses_view(statuses@) =~= expected);
        }
        statuses
    }
}

} // verus!
