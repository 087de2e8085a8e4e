//! The commits of a submission in the order in which they were found, kept in an
//! [`indexmap::IndexMap`].

use crate::types::{NonZeroOid, StackedChange};
use indexmap::IndexMap;
use vstd::prelude::*;

verus! {

/// [`indexmap::IndexMap`], of which nothing is known but what the functions of this module say.
#[verifier::external_type_specification]
#[verifier::external_body]
#[verifier::reject_recursive_types(K)]
#[verifier::reject_recursive_types(V)]
#[verifier::reject_recursive_types(S)]
pub struct ExIndexMap<K, V, S>(indexmap::IndexMap<K, V, S>);

/// Tracked commits by their ids, in the order in which they were first inserted.
pub type StackCommits = IndexMap<NonZeroOid, StackedChange>;

/// The key-value pairs of the map in the map's order, which is the order of its indices and of
/// its iterators.
pub uninterp spec fn commit_entries(commits: StackCommits) -> Seq<(NonZeroOid, StackedChange)>;

/// Whether `oid` is the key at index `i`.
pub open spec fn keyed_at(
    entries: Seq<(NonZeroOid, StackedChange)>,
    oid: NonZeroOid,
    i: int,
) -> bool {
    0 <= i < entries.len() && entries[i].0 == oid
}

/// Calls [`IndexMap::new`], which makes a map without entries.
#[verifier::external_body]
pub(crate) fn new_commits() -> (commits: StackCommits)
    ensures
        commit_entries(commits) == Seq::<(NonZeroOid, StackedChange)>::empty(),
{
    IndexMap::new()
}

/// Calls [`IndexMap::len`], which counts the key-value pairs.
#[verifier::external_body]
pub(crate) fn commit_count(commits: &StackCommits) -> (count: usize)
    ensures
        count == commit_entries(*commits).len(),
{
    commits.len()
}

/// Calls [`IndexMap::get`], which returns the value of the one entry whose key equals `oid`, and
/// `None` if there is no such entry.
#[verifier::external_body]
pub(crate) fn get_commit<'a>(commits: &'a StackCommits, oid: &NonZeroOid) -> (found: Option<
    &'a StackedChange,
>)
    ensures
        match found {
            Some(change) => exists|i: int| #[trigger]
                keyed_at(commit_entries(*commits), *oid, i) && *change == commit_entries(
                    *commits,
                )[i].1 && forall|j: int| #[trigger]
                    keyed_at(commit_entries(*commits), *oid, j) ==> j == i,
            None => forall|j: int| !#[trigger] keyed_at(commit_entries(*commits), *oid, j),
        },
{
    commits.get(oid)
}

/// Calls [`IndexMap::get_index`], which returns the entry at an index. No other entry has the same
/// key. An index that is out of bounds would give nothing to return, so it is left out.
#[verifier::external_body]
pub(crate) fn commit_at<'a>(commits: &'a StackCommits, index: usize) -> (entry: (
    &'a NonZeroOid,
    &'a StackedChange,
))
    requires
        index < commit_entries(*commits).len(),
    ensures
        *entry.0 == commit_entries(*commits)[index as int].0,
        *entry.1 == commit_entries(*commits)[index as int].1,
        forall|j: int| #[trigger]
            keyed_at(commit_entries(*commits), *entry.0, j) ==> j == index,
{
    commits.get_index(index).unwrap()
}

/// Calls [`IndexMap::get_index_mut`], which lends the value at an index for writing. The keys, the
/// order and the other values stay as they are. An index that is out of bounds would give nothing
/// to lend, so it is left out.
#[verifier::external_body]
pub(crate) fn commit_at_mut(commits: &mut StackCommits, index: usize) -> (change: &mut StackedChange)
    requires
        index < commit_entries(*old(commits)).len(),
    ensures
        *change == commit_entries(*old(commits))[index as int].1,
        commit_entries(*final(commits)) == commit_entries(*old(commits)).update(
            index as int,
            (commit_entries(*old(commits))[index as int].0, *final(change)),
        ),
{
    commits.get_index_mut(index).unwrap().1
}

/// Calls [`IndexMap::entry`] and `or_insert` on the entry: where the key is new, the pair is
/// appended to the map's order, and where it is not, the map stays as it is.
#[verifier::external_body]
pub(crate) fn insert_if_new(commits: &mut StackCommits, oid: NonZeroOid, change: StackedChange)
    ensures
        (exists|i: int| #[trigger] keyed_at(commit_entries(*old(commits)), oid, i))
            ==> commit_entries(*final(commits)) == commit_entries(*old(commits)),
        (forall|i: int| !#[trigger] keyed_at(commit_entries(*old(commits)), oid, i))
            ==> commit_entries(*final(commits)) == commit_entries(*old(commits)).push(
            (oid, change),
        ),
{
    commits.entry(oid).or_insert(change);
}

} // verus!
