//! What is found for a commit or a branch, whatever else is known of them.

use crate::client::{grouped, PullRequestInfoView};
use crate::create::requested_statuses;
use crate::forge::{
    base_branch, branchless_refs, expands_details, last_with_prefix, pr_of, prefix_or_default,
    tracked_statuses,
};
use crate::types::{
    tracked_at, tracked_change, CommitStatusView, CommitsView, NonZeroOid, RefOrOidView,
};
use vstd::prelude::*;

verus! {

/// Whether no two entries have the same id.
pub open spec fn ids_differ(commits: CommitsView) -> bool {
    forall|i: int, j: int|
        0 <= i < j < commits.len() ==> (#[trigger] commits[i]).0 != (#[trigger] commits[j]).0
}

/// Looking an id up gives what is known of the one commit that has it, and nothing if no commit has
/// it.
pub proof fn law_change_is_found_by_id(commits: CommitsView, oid: NonZeroOid, i: int)
    requires
        ids_differ(commits),
    ensures
        0 <= i < commits.len() && commits[i].0 == oid ==> tracked_change(commits, oid) == Some(
            commits[i].1,
        ),
        (forall|j: int| 0 <= j < commits.len() ==> (#[trigger] commits[j]).0 != oid)
            ==> tracked_change(commits, oid) is None,
{
    if 0 <= i < commits.len() && commits[i].0 == oid {
        assert(tracked_at(commits, oid, i));
        let k = choose|k: int| tracked_at(commits, oid, k);
        assert(commits[k].0 == commits[i].0);
    }
    if tracked_change(commits, oid) is Some {
        let k = choose|k: int| tracked_at(commits, oid, k);
        assert(commits[k].0 == oid);
    }
}

/// The statuses of tracked commits are the statuses that are recorded for them, each under the id
/// of its commit, and there are no others.
pub proof fn law_statuses_are_those_recorded(commits: CommitsView, i: int)
    requires
        ids_differ(commits),
        0 <= i < commits.len(),
    ensures
        tracked_statuses(commits).contains_key(commits[i].0),
        tracked_statuses(commits)[commits[i].0] == commits[i].1.commit_status,
        forall|oid: NonZeroOid| #[trigger]
            tracked_statuses(commits).contains_key(oid) ==> exists|j: int|
                0 <= j < commits.len() && (#[trigger] commits[j]).0 == oid,
{
    law_change_is_found_by_id(commits, commits[i].0, i);
    assert(tracked_at(commits, commits[i].0, i));
    assert forall|oid: NonZeroOid| #[trigger]
        tracked_statuses(commits).contains_key(oid) implies exists|j: int|
        0 <= j < commits.len() && (#[trigger] commits[j]).0 == oid by {
        let j = choose|j: int| tracked_at(commits, oid, j);
        assert(commits[j].0 == oid);
    }
}

/// The statuses for the update after a creation are those that are recorded for the commits that
/// were asked for. No other commit is among them.
pub proof fn law_requested_statuses_are_those_recorded(
    commits: CommitsView,
    requested: Map<NonZeroOid, CommitStatusView>,
    i: int,
)
    requires
        ids_differ(commits),
        0 <= i < commits.len(),
    ensures
        requested_statuses(commits, requested).contains_key(commits[i].0)
            <==> requested.contains_key(commits[i].0),
        requested.contains_key(commits[i].0) ==> requested_statuses(
            commits,
            requested,
        )[commits[i].0] == commits[i].1.commit_status,
        forall|oid: NonZeroOid| #[trigger]
            requested_statuses(commits, requested).contains_key(oid) ==> requested.contains_key(oid)
                && exists|j: int| 0 <= j < commits.len() && (#[trigger] commits[j]).0 == oid,
{
    law_change_is_found_by_id(commits, commits[i].0, i);
    assert(tracked_at(commits, commits[i].0, i));
    assert forall|oid: NonZeroOid| #[trigger]
        requested_statuses(commits, requested).contains_key(oid) implies requested.contains_key(oid)
        && exists|j: int| 0 <= j < commits.len() && (#[trigger] commits[j]).0 == oid by {
        let j = choose|j: int| tracked_at(commits, oid, j);
        assert(commits[j].0 == oid);
    }
}

/// The pull request of a commit is the first one that is listed for the branch of the commit,
/// whatever it says of itself. A commit without a branch has none, and neither has one whose branch
/// has no pull request.
pub proof fn law_first_pull_request_of_branch(
    refs: Map<NonZeroOid, Seq<char>>,
    pull_requests: Map<Seq<char>, Seq<PullRequestInfoView>>,
    oid: NonZeroOid,
    branch: Seq<char>,
    first: PullRequestInfoView,
    others: Seq<PullRequestInfoView>,
)
    ensures
        pr_of(
            refs.insert(oid, branch),
            pull_requests.insert(branch, seq![first] + others),
            oid,
        ) == Some(first),
        pr_of(refs.insert(oid, branch), pull_requests.insert(branch, Seq::empty()), oid) is None,
        pr_of(refs.insert(oid, branch), pull_requests.remove(branch), oid) is None,
        pr_of(refs.remove(oid), pull_requests, oid) is None,
{
}

/// What is found for a commit rests on its own branch alone.
pub proof fn law_other_branches_have_no_say(
    refs: Map<NonZeroOid, Seq<char>>,
    pull_requests: Map<Seq<char>, Seq<PullRequestInfoView>>,
    oid: NonZeroOid,
    other: NonZeroOid,
    branch: Seq<char>,
    infos: Seq<PullRequestInfoView>,
)
    requires
        oid != other,
        refs.contains_key(oid) ==> refs[oid] != branch,
    ensures
        pr_of(refs.insert(other, branch), pull_requests, oid) == pr_of(refs, pull_requests, oid),
        pr_of(refs, pull_requests.insert(branch, infos), oid) == pr_of(refs, pull_requests, oid),
{
}

/// A branch stands for itself as a base. A commit stands for the branch that was picked or created
/// for it, and for nothing as long as there is none.
pub proof fn law_base_stands_for_its_branch(
    refs: Map<NonZeroOid, Seq<char>>,
    oid: NonZeroOid,
    branch: Seq<char>,
)
    ensures
        base_branch(refs, RefOrOidView::Branch(branch)) == Some(branch),
        base_branch(refs.insert(oid, branch), RefOrOidView::Oid(oid)) == Some(branch),
        base_branch(refs.remove(oid), RefOrOidView::Oid(oid)) is None,
{
}

/// Grouping one more pull request adds it behind those of its branch if its branch begins with the
/// prefix, or if there is no prefix, whatever else it says. Nothing changes for other branches.
pub proof fn law_one_more_pull_request_is_grouped(
    infos: Seq<PullRequestInfoView>,
    info: PullRequestInfoView,
    prefix: Option<Seq<char>>,
)
    ensures
        grouped(Seq::empty(), prefix) == Map::<Seq<char>, Seq<PullRequestInfoView>>::empty(),
        (prefix matches Some(prefix) ==> prefix.is_prefix_of(info.head_ref_name)) ==> grouped(
            infos.push(info),
            prefix,
        ) == grouped(infos, prefix).insert(
            info.head_ref_name,
            if grouped(infos, prefix).contains_key(info.head_ref_name) {
                grouped(infos, prefix)[info.head_ref_name].push(info)
            } else {
                seq![info]
            },
        ),
        (prefix matches Some(prefix) && !prefix.is_prefix_of(info.head_ref_name)) ==> grouped(
            infos.push(info),
            prefix,
        ) == grouped(infos, prefix),
{
    reveal(Seq::filter);
    assert(infos.push(info).drop_last() =~= infos);
    assert(grouped(Seq::empty(), prefix) =~= Map::empty());
    let before = grouped(infos, prefix);
    let after = grouped(infos.push(info), prefix);
    if prefix matches Some(prefix) ==> prefix.is_prefix_of(info.head_ref_name) {
        assert(after =~= before.insert(
            info.head_ref_name,
            if before.contains_key(info.head_ref_name) {
                before[info.head_ref_name].push(info)
            } else {
                seq![info]
            },
        )) by {
            assert(before.contains_key(info.head_ref_name) || infos.filter(
                |other: PullRequestInfoView| other.head_ref_name == info.head_ref_name,
            ) =~= Seq::empty());
        }
    } else {
        assert(after =~= before);
    }
}

proof fn lemma_listed_is_grouped(
    infos: Seq<PullRequestInfoView>,
    prefix: Option<Seq<char>>,
    j: int,
)
    requires
        0 <= j < infos.len(),
        prefix matches Some(prefix) ==> prefix.is_prefix_of(infos[j].head_ref_name),
        forall|i: int|
            0 <= i < j ==> (#[trigger] infos[i]).head_ref_name != infos[j].head_ref_name,
    ensures
        grouped(infos, prefix).contains_key(infos[j].head_ref_name),
        grouped(infos, prefix)[infos[j].head_ref_name].len() > 0,
        grouped(infos, prefix)[infos[j].head_ref_name][0] == infos[j],
    decreases infos.len(),
{
    let front = infos.drop_last();
    let last = infos.last();
    assert(front.push(last) =~= infos);
    law_one_more_pull_request_is_grouped(front, last, prefix);
    if j < infos.len() - 1 {
        assert(front[j] == infos[j]);
        assert forall|i: int| 0 <= i < j implies (#[trigger] front[i]).head_ref_name
            != front[j].head_ref_name by {
            assert(infos[i].head_ref_name != infos[j].head_ref_name);
        }
        lemma_listed_is_grouped(front, prefix, j);
    } else {
        assert forall|i: int| 0 <= i < front.len() implies (#[trigger] front[i]).head_ref_name
            != last.head_ref_name by {
            assert(infos[i].head_ref_name != infos[j].head_ref_name);
        }
        lemma_unlisted_is_not_grouped(front, prefix, last.head_ref_name);
    }
}

proof fn lemma_unlisted_is_not_grouped(
    infos: Seq<PullRequestInfoView>,
    prefix: Option<Seq<char>>,
    branch: Seq<char>,
)
    requires
        forall|i: int| 0 <= i < infos.len() ==> (#[trigger] infos[i]).head_ref_name != branch,
    ensures
        !grouped(infos, prefix).contains_key(branch),
    decreases infos.len(),
{
    if infos.len() > 0 {
        let front = infos.drop_last();
        assert(front.push(infos.last()) =~= infos);
        law_one_more_pull_request_is_grouped(front, infos.last(), prefix);
        assert forall|i: int| 0 <= i < front.len() implies (#[trigger] front[i]).head_ref_name
            != branch by {
            assert(infos[i].head_ref_name != branch);
        }
        assert(infos[infos.len() - 1].head_ref_name != branch);
        lemma_unlisted_is_not_grouped(front, prefix, branch);
    } else {
        assert(infos =~= Seq::empty());
        law_one_more_pull_request_is_grouped(infos, arbitrary(), prefix);
    }
}

/// Of the pull requests that are listed, the pull request of a commit is the first one whose head
/// is the branch of the commit, be it a draft, closed or neither. The commit has none if and only
/// if no such pull request is listed. The branch of the commit begins with the prefix that the list
/// is filtered by.
pub proof fn law_listed_pull_request_is_found(
    infos: Seq<PullRequestInfoView>,
    prefix: Option<Seq<char>>,
    refs: Map<NonZeroOid, Seq<char>>,
    oid: NonZeroOid,
    j: int,
)
    requires
        refs.contains_key(oid),
        prefix matches Some(prefix) ==> prefix.is_prefix_of(refs[oid]),
    ensures
        0 <= j < infos.len() && infos[j].head_ref_name == refs[oid] && (forall|i: int|
            0 <= i < j ==> (#[trigger] infos[i]).head_ref_name != refs[oid]) ==> pr_of(
            refs,
            grouped(infos, prefix),
            oid,
        ) == Some(infos[j]),
        (forall|i: int| 0 <= i < infos.len() ==> (#[trigger] infos[i]).head_ref_name != refs[oid])
            ==> pr_of(refs, grouped(infos, prefix), oid) is None,
{
    if 0 <= j < infos.len() && infos[j].head_ref_name == refs[oid] && forall|i: int|
        0 <= i < j ==> (#[trigger] infos[i]).head_ref_name != refs[oid] {
        lemma_listed_is_grouped(infos, prefix, j);
    }
    if forall|i: int| 0 <= i < infos.len() ==> (#[trigger] infos[i]).head_ref_name != refs[oid] {
        lemma_unlisted_is_not_grouped(infos, prefix, refs[oid]);
    }
}

/// One more branch of a commit is picked if it begins with the prefix, whatever was listed before
/// it. Otherwise it changes nothing.
pub proof fn law_last_branch_with_prefix(
    references: Seq<(NonZeroOid, Seq<Seq<char>>)>,
    oid: NonZeroOid,
    names: Seq<Seq<char>>,
    name: Seq<char>,
    prefix: Seq<char>,
)
    ensures
        branchless_refs(Seq::empty(), prefix) == Map::<NonZeroOid, Seq<char>>::empty(),
        branchless_refs(references.push((oid, Seq::empty())), prefix) == branchless_refs(
            references,
            prefix,
        ),
        prefix.is_prefix_of(name) ==> branchless_refs(
            references.push((oid, names.push(name))),
            prefix,
        ) == branchless_refs(references, prefix).insert(oid, name),
        !prefix.is_prefix_of(name) ==> branchless_refs(
            references.push((oid, names.push(name))),
            prefix,
        ) == branchless_refs(references.push((oid, names)), prefix),
{
    assert(references.push((oid, Seq::empty())).drop_last() =~= references);
    assert(references.push((oid, names.push(name))).drop_last() =~= references);
    assert(references.push((oid, names)).drop_last() =~= references);
    assert(names.push(name).drop_last() =~= names);
    assert(last_with_prefix(Seq::empty(), prefix) is None);
}

/// What is configured is what is used, even if it is empty. Nothing but a missing value brings the
/// default.
pub proof fn law_configuration_is_used(prefix: Seq<char>, expand: bool)
    ensures
        prefix_or_default(Some(prefix)) == prefix,
        prefix_or_default(None) == "branchless/"@,
        expands_details(Some(expand)) == expand,
        expands_details(None),
{
}

} // verus!
