//! Assorted types for use across other modules.

use crate::commits::{
    commit_at, commit_entries, get_commit, keyed_at, new_commits, StackCommits,
};
use std::collections::BTreeMap;
use vstd::prelude::*;

verus! {

/// The id of a commit: the first sixteen and the last four bytes of git's object id, both read as
/// big-endian numbers. Git never gives the id that is all zeroes to an object.
pub type NonZeroOid = (u128, u32);

/// Whether two ids are the same.
pub fn same_oid(a: NonZeroOid, b: NonZeroOid) -> (same: bool)
    ensures
        same == (a == b),
{
    a.0 == b.0 && a.1 == b.1
}

/// How a local commit stands to its remote counterpart.
#[derive(Clone, Copy, Debug, PartialEq, Eq, Structural)]
pub enum SubmitStatus {
    /// The commit has no pull request yet.
    Unsubmitted,

    /// The pull request of the commit is older than the commit.
    NeedsUpdate,

    /// The pull request of the commit matches the commit.
    UpToDate,
}

/// What is known of a commit's local and remote names.
#[derive(Debug)]
pub struct CommitStatus {
    /// How the commit stands to its remote counterpart.
    pub submit_status: SubmitStatus,

    /// The name of the local branch, if the commit has one.
    pub local_commit_name: Option<String>,

    /// The remote that the branch is pushed to.
    pub remote_name: Option<String>,

    /// The name of the remote branch, if the commit has one.
    pub remote_commit_name: Option<String>,
}

/// What a [`CommitStatus`] says, with each name as its characters.
pub struct CommitStatusView {
    pub submit_status: SubmitStatus,
    pub local_commit_name: Option<Seq<char>>,
    pub remote_name: Option<Seq<char>>,
    pub remote_commit_name: Option<Seq<char>>,
}

/// The characters of a text that may be missing.
pub open spec fn optional_text(text: Option<String>) -> Option<Seq<char>> {
    match text {
        Some(text) => Some(text@),
        None => None,
    }
}

/// Copies a text that may be missing.
pub fn copy_optional_text(text: &Option<String>) -> (copy: Option<String>)
    ensures
        optional_text(copy) == optional_text(*text),
{
    match text {
        Some(text) => Some(text.clone()),
        None => None,
    }
}

impl View for CommitStatus {
    type V = CommitStatusView;

    open spec fn view(&self) -> CommitStatusView {
        CommitStatusView {
            submit_status: self.submit_status,
            local_commit_name: optional_text(self.local_commit_name),
            remote_name: optional_text(self.remote_name),
            remote_commit_name: optional_text(self.remote_commit_name),
        }
    }
}

impl Clone for CommitStatus {
    fn clone(&self) -> (copy: Self)
        ensures
            copy@ == self@,
    {
        CommitStatus {
            submit_status: self.submit_status,
            local_commit_name: copy_optional_text(&self.local_commit_name),
            remote_name: copy_optional_text(&self.remote_name),
            remote_commit_name: copy_optional_text(&self.remote_commit_name),
        }
    }
}

/// Represents a pull request base which may or may not have a branch yet.
///
/// If unsubmitted commits are to be created, each pull request's base should be its parent
/// commit. However, that commit may not already have a branch. Its id is a placeholder until a
/// branch is created for it.
#[derive(Debug)]
pub enum RefOrOid {
    /// The id of a commit that has no branch yet.
    Oid(NonZeroOid),

    /// An already-existing branch name which could be the repo's default branch or another
    /// branchless-managed branch.
    Branch(String),
}

/// What a [`RefOrOid`] names, with a branch name as its characters.
pub enum RefOrOidView {
    Oid(NonZeroOid),
    Branch(Seq<char>),
}

impl View for RefOrOid {
    type V = RefOrOidView;

    open spec fn view(&self) -> RefOrOidView {
        match self {
            RefOrOid::Oid(oid) => RefOrOidView::Oid(*oid),
            RefOrOid::Branch(branch) => RefOrOidView::Branch(branch@),
        }
    }
}

impl Clone for RefOrOid {
    fn clone(&self) -> (copy: Self)
        ensures
            copy@ == self@,
    {
        match self {
            RefOrOid::Oid(oid) => RefOrOid::Oid(*oid),
            RefOrOid::Branch(branch) => RefOrOid::Branch(branch.clone()),
        }
    }
}

impl PartialEq for RefOrOid {
    fn eq(&self, other: &Self) -> (same: bool) {
        match (self, other) {
            (RefOrOid::Oid(oid), RefOrOid::Oid(other_oid)) => same_oid(*oid, *other_oid),
            (RefOrOid::Branch(branch), RefOrOid::Branch(other_branch)) => *branch == *other_branch,
            _ => false,
        }
    }
}

impl vstd::std_specs::cmp::PartialEqSpecImpl for RefOrOid {
    open spec fn obeys_eq_spec() -> bool {
        true
    }

    open spec fn eq_spec(&self, other: &Self) -> bool {
        self@ == other@
    }
}

/// [`StackedChange`] collects all of the information known about a local commit and its
/// remote status.
#[derive(Debug)]
pub struct StackedChange {
    /// The current local id for this change.
    pub oid: NonZeroOid,

    /// What the change is called locally and remotely, and whether it is up to date.
    pub commit_status: CommitStatus,

    /// Whether the local change should be pushed to the remote.
    pub should_push: bool,

    /// Whether the pull request's title, body, or base ref should be updated.
    pub should_update_pr: bool,

    /// Pull request URL for this change (if one has been opened).
    pub pr_url: Option<String>,

    /// Pull request number for this change (if a pull request has been opened).
    pub pr_number: Option<usize>,

    /// The base ref that is (or will be) used for this pull request.
    ///
    /// If unsubmitted commits are to be created and this change's parent was one of them, this
    /// is an id until there is a branch for the parent.
    pub pr_base: RefOrOid,

    /// Commit message summary which corresponds to the title of the pull request.
    pub title: String,

    /// Commit message body which corresponds to the body of the pull request.
    ///
    /// Before updating the pull request, a section will be injected into the body which links to
    /// other pull requests in the stack(s) containing this one.
    pub body: String,
}

/// What a [`StackedChange`] says, with each text as its characters.
pub struct StackedChangeView {
    pub oid: NonZeroOid,
    pub commit_status: CommitStatusView,
    pub should_push: bool,
    pub should_update_pr: bool,
    pub pr_url: Option<Seq<char>>,
    pub pr_number: Option<usize>,
    pub pr_base: RefOrOidView,
    pub title: Seq<char>,
    pub body: Seq<char>,
}

impl View for StackedChange {
    type V = StackedChangeView;

    open spec fn view(&self) -> StackedChangeView {
        StackedChangeView {
            oid: self.oid,
            commit_status: self.commit_status@,
            should_push: self.should_push,
            should_update_pr: self.should_update_pr,
            pr_url: optional_text(self.pr_url),
            pr_number: self.pr_number,
            pr_base: self.pr_base@,
            title: self.title@,
            body: self.body@,
        }
    }
}

/// Information about the changes/stacks that one submission is operating on. May include
/// additional commits if the submitted commits are disjointed or not connected to the default
/// branch.
#[derive(Debug)]
pub struct StackState {
    /// Information about all of the relevant commits. It maintains the order the elements were
    /// inserted in, so if a commit is inserted before its children it will be in topological
    /// order.
    pub commits: StackCommits,

    /// A list of linear stacks between the main branch and all of the heads in the submitted
    /// commits. Some commits may appear in more than one stack in the case of a forked stack.
    pub stacks: Vec<Vec<NonZeroOid>>,

    /// Mapping from an id to a single branchless-managed branch name.
    pub oids_to_branchless_refs: BTreeMap<NonZeroOid, String>,
}

/// The commits of a [`StackState`] in their order, each under its id.
pub type CommitsView = Seq<(NonZeroOid, StackedChangeView)>;

/// What a [`StackState`] holds.
pub struct StackStateView {
    pub commits: CommitsView,
    pub stacks: Seq<Seq<NonZeroOid>>,
    pub oids_to_branchless_refs: Map<NonZeroOid, Seq<char>>,
}

/// Entries in their order, with each change as what it says.
pub open spec fn commits_view(entries: Seq<(NonZeroOid, StackedChange)>) -> CommitsView {
    Seq::new(entries.len(), |i: int| (entries[i].0, entries[i].1@))
}

/// Stacks as sequences of ids.
pub open spec fn stacks_view(stacks: Seq<Vec<NonZeroOid>>) -> Seq<Seq<NonZeroOid>> {
    Seq::new(stacks.len(), |i: int| stacks[i]@)
}

/// A map from ids to texts, with each text as its characters.
pub open spec fn texts_by_oid(map: Map<NonZeroOid, String>) -> Map<NonZeroOid, Seq<char>> {
    map.map_values(|text: String| text@)
}

/// Whether the commit with the given id is the one tracked at index `i`.
pub open spec fn tracked_at(commits: CommitsView, oid: NonZeroOid, i: int) -> bool {
    0 <= i < commits.len() && commits[i].0 == oid
}

/// Whether the commit with the given id is tracked.
pub open spec fn is_tracked(commits: CommitsView, oid: NonZeroOid) -> bool {
    exists|i: int| tracked_at(commits, oid, i)
}

/// What is known of the commit with the given id, if it is tracked.
pub open spec fn tracked_change(commits: CommitsView, oid: NonZeroOid) -> Option<
    StackedChangeView,
> {
    if is_tracked(commits, oid) {
        Some(commits[choose|i: int| tracked_at(commits, oid, i)].1)
    } else {
        None
    }
}

/// Looks up a tracked commit.
pub fn find_change<'a>(commits: &'a StackCommits, oid: &NonZeroOid) -> (found: Option<
    &'a StackedChange,
>)
    ensures
        match found {
            Some(change) => tracked_change(commits_view(commit_entries(*commits)), *oid) == Some(
                change@,
            ),
            None => tracked_change(commits_view(commit_entries(*commits)), *oid) is None,
        },
{
    let found = get_commit(commits, oid);
    proof {
        let entries = commit_entries(*commits);
        let view = commits_view(entries);
        assert forall|i: int| tracked_at(view, *oid, i) == keyed_at(entries, *oid, i) by {}
        if found is Some {
            let i = choose|i: int| #[trigger]
                keyed_at(entries, *oid, i) && *found->0 == entries[i].1 && forall|j: int|
                    #[trigger] keyed_at(entries, *oid, j) ==> j == i;
            assert(tracked_at(view, *oid, i));
            let k = choose|k: int| tracked_at(view, *oid, k);
            assert(keyed_at(entries, *oid, k));
        }
    }
    found
}

/// Reads the commit at an index. It is the one that its id finds.
pub(crate) fn change_at<'a>(commits: &'a StackCommits, index: usize) -> (entry: (
    &'a NonZeroOid,
    &'a StackedChange,
))
    requires
        index < commits_view(commit_entries(*commits)).len(),
    ensures
        commits_view(commit_entries(*commits))[index as int] == (*entry.0, entry.1@),
        is_tracked(commits_view(commit_entries(*commits)), *entry.0),
        tracked_change(commits_view(commit_entries(*commits)), *entry.0) == Some(entry.1@),
{
    let entry = commit_at(commits, index);
    proof {
        let entries = commit_entries(*commits);
        let view = commits_view(entries);
        let oid = *entry.0;
        assert(tracked_at(view, oid, index as int));
        let k = choose|k: int| tracked_at(view, oid, k);
        assert(keyed_at(entries, oid, k));
    }
    entry
}

impl View for StackState {
    type V = StackStateView;

    open spec fn view(&self) -> StackStateView {
        StackStateView {
            commits: commits_view(commit_entries(self.commits)),
            stacks: stacks_view(self.stacks@),
            oids_to_branchless_refs: texts_by_oid(self.oids_to_branchless_refs@),
        }
    }
}

impl StackStateView {
    /// No commit is tracked twice.
    pub open spec fn well_formed(self) -> bool {
        forall|i: int, j: int|
            0 <= i < j < self.commits.len() ==> (#[trigger] self.commits[i]).0 != (
            #[trigger] self.commits[j]).0
    }

    /// Each commit is tracked under its own id.
    pub open spec fn own_ids(self) -> bool {
        forall|i: int|
            0 <= i < self.commits.len() ==> (#[trigger] self.commits[i]).0 == self.commits[i].1.oid
    }
}

impl Default for StackState {
    /// A state that tracks nothing.
    fn default() -> (state: Self)
        ensures
            state@.commits == Seq::<(NonZeroOid, StackedChangeView)>::empty(),
            state@.stacks == Seq::<Seq<NonZeroOid>>::empty(),
            state@.oids_to_branchless_refs == Map::<NonZeroOid, Seq<char>>::empty(),
            state@.well_formed(),
            state@.own_ids(),
    {
        StackState {
            commits: new_commits(),
            stacks: Vec::new(),
            oids_to_branchless_refs: BTreeMap::new(),
        }
    }
}

} // verus!
