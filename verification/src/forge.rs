//! The state of one submission to GitHub.

use crate::client::{
    infos_view, pull_requests_view, PullRequestInfo, PullRequestInfoView, PullRequests,
};
use crate::commits::commit_count;
use crate::text::{starts_with, texts};
use crate::types::{
    change_at, is_tracked, optional_text, texts_by_oid, tracked_at, tracked_change, CommitStatus,
    CommitStatusView, CommitsView, NonZeroOid, RefOrOid, RefOrOidView, StackState, StackStateView,
};
use std::collections::BTreeMap;
use vstd::prelude::*;

verus! {

/// Testing environment variable. When this is set, the mock GitHub client is used. This should be
/// set to the path of an existing repository that represents the remote.
pub const MOCK_REMOTE_REPO_PATH_ENV_KEY: &'static str =
    "BRANCHLESS_SUBMIT_GITHUB_MOCK_REMOTE_REPO_PATH";

/// The prefix that the names of pull request branches begin with, unless configured otherwise.
pub const DEFAULT_PR_BRANCH_PREFIX: &'static str = "branchless/";

/// The prefix that is configured, or else the default.
pub open spec fn prefix_or_default(configured: Option<Seq<char>>) -> Seq<char> {
    match configured {
        Some(configured) => configured,
        None => DEFAULT_PR_BRANCH_PREFIX@,
    }
}

/// Whether stack details are shown open: as configured, and else they are.
pub open spec fn expands_details(configured: Option<bool>) -> bool {
    configured != Some(false)
}

/// The prefix of pull request branches, given the value of `branchless.submit.branchPrefix`.
pub fn get_pr_branch_prefix(configured: Option<String>) -> (prefix: String)
    ensures
        prefix@ == prefix_or_default(optional_text(configured)),
{
    match configured {
        Some(configured) => configured,
        None => DEFAULT_PR_BRANCH_PREFIX.to_owned(),
    }
}

/// Whether stack details are shown open, given the value of
/// `branchless.submit.defaultDetailsOpen`.
pub fn get_expand_details_config(configured: Option<bool>) -> (expand: bool)
    ensures
        expand == expands_details(configured),
{
    match configured {
        Some(configured) => configured,
        None => true,
    }
}

/// The last of several names that begins with a prefix.
pub open spec fn last_with_prefix(names: Seq<Seq<char>>, prefix: Seq<char>) -> Option<Seq<char>>
    decreases names.len(),
{
    if names.len() == 0 {
        None
    } else if prefix.is_prefix_of(names.last()) {
        Some(names.last())
    } else {
        last_with_prefix(names.drop_last(), prefix)
    }
}

/// A commit and the names of the branches that point to it.
pub open spec fn branches_view(references: Seq<(NonZeroOid, Vec<String>)>) -> Seq<
    (NonZeroOid, Seq<Seq<char>>),
> {
    Seq::new(references.len(), |i: int| (references[i].0, texts(references[i].1@)))
}

/// Each commit that has a branch with the prefix, with the last such branch listed for it.
pub open spec fn branchless_refs(
    references: Seq<(NonZeroOid, Seq<Seq<char>>)>,
    prefix: Seq<char>,
) -> Map<NonZeroOid, Seq<char>>
    decreases references.len(),
{
    if references.len() == 0 {
        Map::empty()
    } else {
        let front = branchless_refs(references.drop_last(), prefix);
        match last_with_prefix(references.last().1, prefix) {
            Some(name) => front.insert(references.last().0, name),
            None => front,
        }
    }
}

/// Finds the last of several names that begins with a prefix.
fn find_last_with_prefix<'a>(names: &'a Vec<String>, prefix: &str) -> (found: Option<&'a String>)
    ensures
        match found {
            Some(name) => last_with_prefix(texts(names@), prefix@) == Some(name@),
            None => last_with_prefix(texts(names@), prefix@) is None,
        },
{
    let mut i: usize = names.len();
    let ghost all = texts(names@);
    assert(all.take(i as int) =~= all);
    while i > 0
        invariant
            i <= names@.len(),
            all == texts(names@),
            last_with_prefix(all, prefix@) == last_with_prefix(all.take(i as int), prefix@),
        decreases i,
    {
        assert(all.take(i as int).drop_last() =~= all.take(i - 1));
        if starts_with(names[i - 1].as_str(), prefix) {
            return Some(&names[i - 1]);
        }
        i -= 1;
    }
    None
}

/// Picks for each commit a single branch that begins with the configured prefix. The branches of
/// a commit are named without `refs/heads/` and the like; of several that begin with the prefix
/// the last one is picked.
pub fn build_branchless_ref_map(
    references: &Vec<(NonZeroOid, Vec<String>)>,
    pr_branch_prefix: &str,
) -> (refs: BTreeMap<NonZeroOid, String>)
    ensures
        texts_by_oid(refs@) == branchless_refs(branches_view(references@), pr_branch_prefix@),
{
    let mut refs: BTreeMap<NonZeroOid, String> = BTreeMap::new();
    let mut i: usize = 0;
    let ghost all = branches_view(references@);
    assert(all.take(0) =~= Seq::<(NonZeroOid, Seq<Seq<char>>)>::empty());
    assert(texts_by_oid(refs@) =~= Map::<NonZeroOid, Seq<char>>::empty());
    while i < references.len()
        invariant
            i <= references@.len(),
            all == branches_view(references@),
            texts_by_oid(refs@) == branchless_refs(all.take(i as int), pr_branch_prefix@),
        decreases references@.len() - i,
    {
        assert(all.take(i + 1).drop_last() =~= all.take(i as int));
        let ghost front = texts_by_oid(refs@);
        let (oid, names) = &references[i];
        match find_last_with_prefix(names, pr_branch_prefix) {
            Some(name) => {
                refs.insert(*oid, name.clone());
                assert(texts_by_oid(refs@) =~= front.insert(*oid, name@));
            },
            None => {},
        }
        i += 1;
    }
    assert(all.take(i as int) =~= all);
    refs
}

/// The [GitHub](https://en.wikipedia.org/wiki/GitHub) code hosting platform.
#[derive(Debug)]
pub struct GitHubForge {
    /// Whether to create branches and pull requests for unsubmitted commits.
    pub create_unsubmitted: bool,

    /// Cached information about commits that are relevant to the submission.
    pub stack_state: StackState,
}

/// The pull request of a commit: the first one of the commit's branch.
pub open spec fn pr_of(
    refs: Map<NonZeroOid, Seq<char>>,
    pull_requests: Map<Seq<char>, Seq<PullRequestInfoView>>,
    oid: NonZeroOid,
) -> Option<PullRequestInfoView> {
    if refs.contains_key(oid) && pull_requests.contains_key(refs[oid])
        && pull_requests[refs[oid]].len() > 0 {
        Some(pull_requests[refs[oid]][0])
    } else {
        None
    }
}

/// The branch that a base stands for, if it is known: a commit stands for its branch.
pub open spec fn base_branch(refs: Map<NonZeroOid, Seq<char>>, base: RefOrOidView) -> Option<
    Seq<char>,
> {
    match base {
        RefOrOidView::Branch(branch) => Some(branch),
        RefOrOidView::Oid(oid) => if refs.contains_key(oid) {
            Some(refs[oid])
        } else {
            None
        },
    }
}

/// The statuses of the tracked commits, by their ids.
pub open spec fn tracked_statuses(commits: CommitsView) -> Map<NonZeroOid, CommitStatusView> {
    Map::new(
        |oid: NonZeroOid| is_tracked(commits, oid),
        |oid: NonZeroOid| tracked_change(commits, oid)->0.commit_status,
    )
}

/// What statuses say, by the ids of their commits.
pub open spec fn statuses_view(statuses: Map<NonZeroOid, CommitStatus>) -> Map<
    NonZeroOid,
    CommitStatusView,
> {
    statuses.map_values(|status: CommitStatus| status@)
}

/// In a state that tracks no commit twice, the commit at an index is the one that its id finds.
pub proof fn lemma_tracked_at(state: StackStateView, i: int)
    requires
        state.well_formed(),
        0 <= i < state.commits.len(),
    ensures
        is_tracked(state.commits, state.commits[i].0),
        tracked_change(state.commits, state.commits[i].0) == Some(state.commits[i].1),
{
    assert(tracked_at(state.commits, state.commits[i].0, i));
    let k = choose|k: int| tracked_at(state.commits, state.commits[i].0, k);
    assert(state.commits[k].0 == state.commits[i].0);
}

impl GitHubForge {
    /// Factory function to create a [`GitHubForge`] that tracks no commits yet, from the branches
    /// that point to each commit.
    pub fn new(
        references: &Vec<(NonZeroOid, Vec<String>)>,
        pr_branch_prefix: &str,
        create_unsubmitted: bool,
    ) -> (forge: GitHubForge)
        ensures
            forge.create_unsubmitted == create_unsubmitted,
            forge.stack_state@ == (StackStateView {
                commits: Seq::empty(),
                stacks: Seq::empty(),
                oids_to_branchless_refs: branchless_refs(
                    branches_view(references@),
                    pr_branch_prefix@,
                ),
            }),
            forge.stack_state@.well_formed(),
            forge.stack_state@.own_ids(),
    {
        let mut stack_state = StackState::default();
        stack_state.oids_to_branchless_refs = build_branchless_ref_map(
            references,
            pr_branch_prefix,
        );
        GitHubForge { create_unsubmitted, stack_state }
    }

    /// Finds the pull request of a commit.
    pub fn find_pr_for_oid<'b>(&self, oid: &NonZeroOid, pull_requests_per_branch: &'b PullRequests) -> (pr:
        Option<&'b PullRequestInfo>)
        ensures
            match pr {
                Some(pr) => pr_of(
                    self.stack_state@.oids_to_branchless_refs,
                    pull_requests_view(*pull_requests_per_branch),
                    *oid,
                ) == Some(pr@),
                None => pr_of(
                    self.stack_state@.oids_to_branchless_refs,
                    pull_requests_view(*pull_requests_per_branch),
                    *oid,
                ) is None,
            },
    {
        match self.stack_state.oids_to_branchless_refs.get(oid) {
            Some(branch) => match pull_requests_per_branch.get(branch.as_str()) {
                Some(infos) => if infos.len() > 0 {
                    assert(infos_view(infos@)[0] == infos@[0]@);
                    Some(&infos[0])
                } else {
                    None
                },
                None => None,
            },
            None => None,
        }
    }

    /// Finds the branch that a base stands for.
    pub fn find_base_ref_name<'a>(&'a self, base: &'a RefOrOid) -> (name: Option<&'a String>)
        ensures
            match name {
                Some(name) => base_branch(self.stack_state@.oids_to_branchless_refs, base@) == Some(
                    name@,
                ),
                None => base_branch(self.stack_state@.oids_to_branchless_refs, base@) is None,
            },
    {
        match base {
            RefOrOid::Branch(branch) => Some(branch),
            RefOrOid::Oid(base_oid) => self.stack_state.oids_to_branchless_refs.get(base_oid),
        }
    }

    /// The statuses of all tracked commits.
    pub fn commit_statuses(&self) -> (statuses: BTreeMap<NonZeroOid, CommitStatus>)
        ensures
            statuses_view(statuses@) == tracked_statuses(self.stack_state@.commits),
    {
        let mut statuses: BTreeMap<NonZeroOid, CommitStatus> = BTreeMap::new();
        let count: usize = commit_count(&self.stack_state.commits);
        let mut i: usize = 0;
        let ghost commits = self.stack_state@.commits;
        while i < count
            invariant
                i <= count,
                count == commits.len(),
                commits == self.stack_state@.commits,
                forall|oid: NonZeroOid| #[trigger]
                    statuses@.contains_key(oid) ==> is_tracked(commits, oid) && statuses@[oid]@
                        == tracked_change(commits, oid)->0.commit_status,
                forall|j: int| 0 <= j < i ==> statuses@.contains_key((#[trigger] commits[j]).0),
            decreases count - i,
        {
            let (oid, change) = change_at(&self.stack_state.commits, i);
            statuses.insert(*oid, change.commit_status.clone());
            i += 1;
        }
        proof {
            assert forall|oid: NonZeroOid| #[trigger]
                is_tracked(commits, oid) implies statuses@.contains_key(oid) by {
                let k = choose|k: int| tracked_at(commits, oid, k);
                assert(statuses@.contains_key(commits[k].0));
            }
            assert(statuses_view(statuses@) =~= tracked_statuses(commits));
        }
        statuses
    }
}

} // verus!
