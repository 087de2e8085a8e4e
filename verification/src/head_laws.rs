//! What holds of the heads of the submitted commits, where no commit has more than one parent.

use crate::query_laws::{
    complete_messages, law_one_stack_per_head, law_recorded_stacks_have_no_say, query_outcome,
};
use crate::status::{
    next_head, walk_start, without_commit, CommitMessage, StatusEnv, WalkState,
};
use crate::status_laws::{
    has_commits, in_subgraphs, law_walked_commits_leave, queried, walked, QueryState, StackReply,
};
use crate::types::NonZeroOid;
use vstd::prelude::*;

verus! {

/// Whether the parent of the commit at index `j` comes before it.
pub open spec fn parent_before(
    parent: spec_fn(NonZeroOid) -> Option<NonZeroOid>,
    subgraph: Seq<NonZeroOid>,
    j: int,
) -> bool {
    exists|i: int| 0 <= i < j && parent(subgraph[j]) == Some(#[trigger] subgraph[i])
}

/// Whether commits hang together and are sorted with parents first: each but the first comes after
/// its parent. No commit occurs twice.
pub open spec fn sorted_component(
    parent: spec_fn(NonZeroOid) -> Option<NonZeroOid>,
    subgraph: Seq<NonZeroOid>,
) -> bool {
    &&& subgraph.no_duplicates()
    &&& forall|j: int| 0 < j < subgraph.len() ==> #[trigger] parent_before(parent, subgraph, j)
}

/// Whether the parent of a commit is none of the submitted commits.
pub open spec fn parent_outside(
    parent: spec_fn(NonZeroOid) -> Option<NonZeroOid>,
    subgraphs: Seq<Seq<NonZeroOid>>,
    oid: NonZeroOid,
) -> bool {
    match parent(oid) {
        Some(below) => !in_subgraphs(subgraphs, below),
        None => true,
    }
}

/// Whether subgraphs are the connected components of the submitted commits, each sorted with
/// parents first.
pub open spec fn are_components(
    parent: spec_fn(NonZeroOid) -> Option<NonZeroOid>,
    subgraphs: Seq<Seq<NonZeroOid>>,
) -> bool {
    &&& forall|a: int|
        0 <= a < subgraphs.len() ==> sorted_component(parent, #[trigger] subgraphs[a])
    &&& forall|a: int, b: int, oid: NonZeroOid|
        0 <= a < subgraphs.len() && 0 <= b < subgraphs.len() && #[trigger] subgraphs[a].contains(oid)
            && #[trigger] subgraphs[b].contains(oid) ==> a == b
    &&& forall|a: int|
        0 <= a < subgraphs.len() && (#[trigger] subgraphs[a]).len() > 0 ==> parent_outside(
            parent,
            subgraphs,
            subgraphs[a][0],
        )
}

/// Whether a stack is a path of parents that leads down to where none of the submitted commits is
/// below.
pub open spec fn is_path(
    parent: spec_fn(NonZeroOid) -> Option<NonZeroOid>,
    subgraphs: Seq<Seq<NonZeroOid>>,
    stack: Seq<NonZeroOid>,
) -> bool {
    &&& stack.len() > 0
    &&& stack.no_duplicates()
    &&& forall|k: int|
        0 < k < stack.len() ==> parent(#[trigger] stack[k]) == Some(stack[k - 1])
    &&& parent_outside(parent, subgraphs, stack[0])
}

/// Whether a commit is a head of the submitted commits: it is one of them, and none of them is a
/// child of it.
pub open spec fn is_head(
    parent: spec_fn(NonZeroOid) -> Option<NonZeroOid>,
    subgraphs: Seq<Seq<NonZeroOid>>,
    oid: NonZeroOid,
) -> bool {
    &&& in_subgraphs(subgraphs, oid)
    &&& forall|child: NonZeroOid| #[trigger]
        in_subgraphs(subgraphs, child) ==> parent(child) != Some(oid)
}

/// Whether a stack ends in a commit.
pub open spec fn ends_in(stacks: Seq<Seq<NonZeroOid>>, a: int, oid: NonZeroOid) -> bool {
    0 <= a < stacks.len() && stacks[a].len() > 0 && stacks[a].last() == oid
}

/// Whether the reply for the next head is the path of parents that leads down from it.
pub open spec fn follows_parents(
    parent: spec_fn(NonZeroOid) -> Option<NonZeroOid>,
    subgraphs: Seq<Seq<NonZeroOid>>,
    at: QueryState,
    reply: StackReply,
) -> bool {
    next_head(at.subgraphs).0 matches Some(head) ==> {
        let stack = reply.head_first.reverse();
        &&& is_path(parent, subgraphs, stack)
        &&& stack.last() == head
    }
}

proof fn lemma_member(subgraphs: Seq<Seq<NonZeroOid>>, a: int, k: int)
    requires
        0 <= a < subgraphs.len(),
        0 <= k < subgraphs[a].len(),
    ensures
        subgraphs[a].contains(subgraphs[a][k]),
        in_subgraphs(subgraphs, subgraphs[a][k]),
{
    assert(subgraphs[a].contains(subgraphs[a][k]));
}

/// The parent of a commit is in the same component, if it is submitted.
proof fn lemma_parent_in_component(
    parent: spec_fn(NonZeroOid) -> Option<NonZeroOid>,
    subgraphs: Seq<Seq<NonZeroOid>>,
    a: int,
    child: NonZeroOid,
    oid: NonZeroOid,
)
    requires
        are_components(parent, subgraphs),
        0 <= a < subgraphs.len(),
        subgraphs[a].contains(child),
        parent(child) == Some(oid),
        in_subgraphs(subgraphs, oid) || child != subgraphs[a][0],
    ensures
        subgraphs[a].contains(oid),
{
    let subgraph = subgraphs[a];
    let j = choose|j: int| 0 <= j < subgraph.len() && subgraph[j] == child;
    if j > 0 {
        assert(parent_before(parent, subgraph, j));
        let i = choose|i: int| 0 <= i < j && parent(subgraph[j]) == Some(#[trigger] subgraph[i]);
        lemma_member(subgraphs, a, i);
    }
}

/// A path from a commit of a component leads down to the first commit of the component, without
/// leaving the component.
proof fn lemma_path_reaches_first(
    parent: spec_fn(NonZeroOid) -> Option<NonZeroOid>,
    subgraphs: Seq<Seq<NonZeroOid>>,
    a: int,
    stack: Seq<NonZeroOid>,
    m: int,
) -> (r: int)
    requires
        are_components(parent, subgraphs),
        is_path(parent, subgraphs, stack),
        0 <= a < subgraphs.len(),
        0 <= m < stack.len(),
        subgraphs[a].contains(stack[m]),
    ensures
        0 <= r <= m,
        stack[r] == subgraphs[a][0],
        forall|q: int| r <= q <= m ==> subgraphs[a].contains(#[trigger] stack[q]),
    decreases m,
{
    let subgraph = subgraphs[a];
    if stack[m] == subgraph[0] {
        m
    } else {
        if m == 0 {
            let j = choose|j: int| 0 <= j < subgraph.len() && subgraph[j] == stack[0];
            assert(parent_before(parent, subgraph, j));
            let i = choose|i: int|
                0 <= i < j && parent(subgraph[j]) == Some(#[trigger] subgraph[i]);
            lemma_member(subgraphs, a, i);
        }
        assert(parent(stack[m]) == Some(stack[m - 1]));
        lemma_parent_in_component(parent, subgraphs, a, stack[m], stack[m - 1]);
        lemma_path_reaches_first(parent, subgraphs, a, stack, m - 1)
    }
}

/// A path that joins two commits of a component does not leave the component.
proof fn lemma_path_stays_inside(
    parent: spec_fn(NonZeroOid) -> Option<NonZeroOid>,
    subgraphs: Seq<Seq<NonZeroOid>>,
    a: int,
    stack: Seq<NonZeroOid>,
    k: int,
    l: int,
)
    requires
        are_components(parent, subgraphs),
        is_path(parent, subgraphs, stack),
        0 <= a < subgraphs.len(),
        0 <= k < l < stack.len(),
        subgraphs[a].contains(stack[k]),
        subgraphs[a].contains(stack[l]),
    ensures
        subgraphs[a].contains(stack[k + 1]),
{
    let low = lemma_path_reaches_first(parent, subgraphs, a, stack, k);
    let high = lemma_path_reaches_first(parent, subgraphs, a, stack, l);
    assert(stack[low] == stack[high]);
    assert(low == high);
    assert(subgraphs[a].contains(stack[k + 1]));
}

/// Whether no commit comes before its parent.
spec fn parents_first(
    parent: spec_fn(NonZeroOid) -> Option<NonZeroOid>,
    subgraph: Seq<NonZeroOid>,
) -> bool {
    forall|i: int, j: int|
        0 <= i < j < subgraph.len() ==> parent(#[trigger] subgraph[i]) != Some(
            #[trigger] subgraph[j],
        )
}

/// Whether some commits of a component are left, with every child of a commit that is left.
spec fn left_of_component(
    parent: spec_fn(NonZeroOid) -> Option<NonZeroOid>,
    component: Seq<NonZeroOid>,
    left: Seq<NonZeroOid>,
) -> bool {
    &&& left.no_duplicates()
    &&& parents_first(parent, left)
    &&& forall|oid: NonZeroOid| #[trigger] left.contains(oid) ==> component.contains(oid)
    &&& forall|oid: NonZeroOid, child: NonZeroOid| #[trigger]
        left.contains(oid) && #[trigger] component.contains(child) && parent(child) == Some(oid)
            ==> left.contains(child)
}

/// Whether these subgraphs are left once the first `gone` components were walked completely and the
/// next one perhaps in part.
spec fn left_of_components(
    parent: spec_fn(NonZeroOid) -> Option<NonZeroOid>,
    components: Seq<Seq<NonZeroOid>>,
    left: Seq<Seq<NonZeroOid>>,
    gone: int,
) -> bool {
    &&& 0 <= gone
    &&& left.len() + gone == components.len()
    &&& forall|i: int| 0 < i < left.len() ==> #[trigger] left[i] == components[gone + i]
    &&& left.len() > 0 ==> left_of_component(parent, components[gone], left[0])
}

proof fn lemma_component_is_left(
    parent: spec_fn(NonZeroOid) -> Option<NonZeroOid>,
    components: Seq<Seq<NonZeroOid>>,
    a: int,
)
    requires
        are_components(parent, components),
        0 <= a < components.len(),
    ensures
        left_of_component(parent, components[a], components[a]),
{
    let subgraph = components[a];
    assert forall|i: int, j: int| 0 <= i < j < subgraph.len() implies parent(
        #[trigger] subgraph[i],
    ) != Some(#[trigger] subgraph[j]) by {
        lemma_member(components, a, j);
        if i > 0 {
            assert(parent_before(parent, subgraph, i));
            let k = choose|k: int|
                0 <= k < i && parent(subgraph[i]) == Some(#[trigger] subgraph[k]);
            assert(subgraph[k] != subgraph[j]);
        }
    }
}

/// Where the next head is taken from: the first subgraph that has a commit.
proof fn lemma_next_head_at(subgraphs: Seq<Seq<NonZeroOid>>) -> (n: int)
    requires
        next_head(subgraphs).0 is Some,
    ensures
        0 <= n < subgraphs.len(),
        subgraphs[n].len() > 0,
        forall|m: int| 0 <= m < n ==> (#[trigger] subgraphs[m]).len() == 0,
        next_head(subgraphs) == (
            Some(subgraphs[n].last()),
            subgraphs.skip(n).update(0, subgraphs[n].drop_last()),
        ),
    decreases subgraphs.len(),
{
    if subgraphs[0].len() == 0 {
        let rest = subgraphs.drop_first();
        let n = lemma_next_head_at(rest);
        assert(rest.skip(n) =~= subgraphs.skip(n + 1));
        assert forall|m: int| 0 <= m < n + 1 implies (#[trigger] subgraphs[m]).len() == 0 by {
            if m > 0 {
                assert(rest[m - 1] == subgraphs[m]);
            }
        }
        n + 1
    } else {
        assert(subgraphs.skip(0) =~= subgraphs);
        0
    }
}

/// Subgraphs without commits can be left out.
proof fn lemma_skip_empty(
    parent: spec_fn(NonZeroOid) -> Option<NonZeroOid>,
    components: Seq<Seq<NonZeroOid>>,
    left: Seq<Seq<NonZeroOid>>,
    gone: int,
    n: int,
)
    requires
        are_components(parent, components),
        left_of_components(parent, components, left, gone),
        0 <= n < left.len(),
        forall|m: int| 0 <= m < n ==> (#[trigger] left[m]).len() == 0,
    ensures
        left_of_components(parent, components, left.skip(n), gone + n),
        forall|oid: NonZeroOid| #[trigger]
            in_subgraphs(left, oid) == in_subgraphs(left.skip(n), oid),
{
    let rest = left.skip(n);
    if n > 0 {
        assert(left[n] == components[gone + n]);
        lemma_component_is_left(parent, components, gone + n);
    }
    assert forall|i: int| 0 < i < rest.len() implies #[trigger] rest[i] == components[gone + n
        + i] by {
        assert(rest[i] == left[n + i]);
    }
    assert forall|oid: NonZeroOid| #[trigger] in_subgraphs(left, oid) == in_subgraphs(
        rest,
        oid,
    ) by {
        if in_subgraphs(left, oid) {
            let i = choose|i: int| 0 <= i < left.len() && (#[trigger] left[i]).contains(oid);
            assert(i >= n);
            assert(rest[i - n].contains(oid));
        }
        if in_subgraphs(rest, oid) {
            let i = choose|i: int| 0 <= i < rest.len() && (#[trigger] rest[i]).contains(oid);
            assert(left[n + i].contains(oid));
        }
    }
}

proof fn lemma_removal_keeps_parents_first(
    parent: spec_fn(NonZeroOid) -> Option<NonZeroOid>,
    before: Seq<NonZeroOid>,
    gone: NonZeroOid,
)
    requires
        parents_first(parent, before),
    ensures
        parents_first(parent, before.remove_value(gone)),
{
    let after = before.remove_value(gone);
    before.index_of_first_ensures(gone);
    if before.contains(gone) {
        let place = before.index_of_first(gone)->0;
        assert(after == before.remove(place));
        assert forall|i: int, j: int| 0 <= i < j < after.len() implies parent(
            #[trigger] after[i],
        ) != Some(#[trigger] after[j]) by {
            let p = if i < place {
                i
            } else {
                i + 1
            };
            let q = if j < place {
                j
            } else {
                j + 1
            };
            assert(after[i] == before[p]);
            assert(after[j] == before[q]);
        }
    }
}

proof fn lemma_walk_keeps_parents_first(
    parent: spec_fn(NonZeroOid) -> Option<NonZeroOid>,
    env: StatusEnv,
    create_unsubmitted: bool,
    at: WalkState,
    messages: Seq<CommitMessage>,
)
    requires
        at.subgraphs.len() > 0,
        parents_first(parent, at.subgraphs[0]),
    ensures
        walked(env, create_unsubmitted, at, messages).subgraphs.len() > 0,
        parents_first(parent, walked(env, create_unsubmitted, at, messages).subgraphs[0]),
    decreases messages.len(),
{
    if messages.len() > 0 {
        let front = messages.drop_last();
        lemma_walk_keeps_parents_first(parent, env, create_unsubmitted, at, front);
        let mid = walked(env, create_unsubmitted, at, front);
        let gone = mid.walk.stack[mid.walk.position];
        lemma_removal_keeps_parents_first(parent, mid.subgraphs[0], gone);
        assert(walked(env, create_unsubmitted, at, messages).subgraphs == without_commit(
            mid.subgraphs,
            gone,
        ));
    }
}

/// Whether the recorded stacks end in heads that are not left any more, no two of them in the same
/// one, and every head that is not left ends one.
spec fn heads_recorded(
    parent: spec_fn(NonZeroOid) -> Option<NonZeroOid>,
    components: Seq<Seq<NonZeroOid>>,
    left: Seq<Seq<NonZeroOid>>,
    stacks: Seq<Seq<NonZeroOid>>,
) -> bool {
    &&& forall|a: int|
        0 <= a < stacks.len() ==> (#[trigger] stacks[a]).len() > 0 && is_head(
            parent,
            components,
            stacks[a].last(),
        ) && !in_subgraphs(left, stacks[a].last())
    &&& forall|a: int, b: int|
        0 <= a < b < stacks.len() ==> (#[trigger] stacks[a]).last() != (
        #[trigger] stacks[b]).last()
    &&& forall|oid: NonZeroOid| #[trigger]
        is_head(parent, components, oid) ==> in_subgraphs(left, oid) || exists|a: int|
            ends_in(stacks, a, oid)
}

/// The last commit of what is left of a component is a head.
proof fn lemma_last_is_head(
    parent: spec_fn(NonZeroOid) -> Option<NonZeroOid>,
    components: Seq<Seq<NonZeroOid>>,
    left: Seq<NonZeroOid>,
    a: int,
)
    requires
        are_components(parent, components),
        0 <= a < components.len(),
        left_of_component(parent, components[a], left),
        left.len() > 0,
    ensures
        is_head(parent, components, left.last()),
        components[a].contains(left.last()),
{
    let head = left.last();
    assert(left.contains(head)) by {
        assert(left[left.len() - 1] == head);
    }
    assert(components[a].contains(head));
    assert forall|child: NonZeroOid| #[trigger] in_subgraphs(components, child) implies parent(
        child,
    ) != Some(head) by {
        if parent(child) == Some(head) {
            let b = choose|b: int|
                0 <= b < components.len() && (#[trigger] components[b]).contains(child);
            lemma_parent_in_component(parent, components, b, child, head);
            assert(a == b);
            assert(left.contains(child));
            let i = choose|i: int| 0 <= i < left.len() && left[i] == child;
            if i < left.len() - 1 {
                assert(parent(left[i]) != Some(left[left.len() - 1]));
            } else {
                // No commit is its own parent.
                let j = choose|j: int| 0 <= j < components[a].len() && components[a][j] == head;
                if j > 0 {
                    assert(parent_before(parent, components[a], j));
                }
            }
        }
    }
}

/// One more head is taken, and its stack is walked.
proof fn lemma_head_walked(
    parent: spec_fn(NonZeroOid) -> Option<NonZeroOid>,
    components: Seq<Seq<NonZeroOid>>,
    left: Seq<Seq<NonZeroOid>>,
    gone: int,
    stacks: Seq<Seq<NonZeroOid>>,
    stack: Seq<NonZeroOid>,
    after: Seq<Seq<NonZeroOid>>,
)
    requires
        are_components(parent, components),
        left_of_components(parent, components, left, gone),
        heads_recorded(parent, components, left, stacks),
        left.len() > 0,
        left[0].len() > 0,
        is_path(parent, components, stack),
        stack.last() == left[0].last(),
        after.len() == left.len(),
        after.drop_first() == left.drop_first(),
        after[0].no_duplicates(),
        parents_first(parent, after[0]),
        forall|oid: NonZeroOid| #[trigger]
            after[0].contains(oid) <==> left[0].drop_last().contains(oid) && !stack.contains(oid),
    ensures
        left_of_components(parent, components, after, gone),
        heads_recorded(parent, components, after, stacks.push(stack)),
{
    let component = components[gone];
    let head = left[0].last();
    let front = left[0].drop_last();
    lemma_last_is_head(parent, components, left[0], gone);
    assert(stack[stack.len() - 1] == head);
    assert(stack.contains(head));
    assert forall|oid: NonZeroOid| #[trigger] left[0].contains(oid) <==> front.contains(oid) || oid
        == head by {
        if left[0].contains(oid) {
            let i = choose|i: int| 0 <= i < left[0].len() && left[0][i] == oid;
            if i < front.len() {
                assert(front[i] == oid);
            }
        }
        if front.contains(oid) {
            let i = choose|i: int| 0 <= i < front.len() && front[i] == oid;
            assert(left[0][i] == oid);
        }
        if oid == head {
            assert(left[0][left[0].len() - 1] == oid);
        }
    }
    assert forall|oid: NonZeroOid, child: NonZeroOid| #[trigger]
        after[0].contains(oid) && #[trigger] component.contains(child) && parent(child) == Some(
            oid,
        ) implies after[0].contains(child) by {
        assert(left[0].contains(oid));
        assert(left[0].contains(child));
        assert(component.contains(oid));
        assert(in_subgraphs(components, oid));
        if stack.contains(child) {
            let k = choose|k: int| 0 <= k < stack.len() && stack[k] == child;
            if k > 0 {
                assert(parent(stack[k]) == Some(stack[k - 1]));
                assert(stack.contains(stack[k - 1]));
            }
        }
    }
    assert forall|i: int| 0 < i < after.len() implies #[trigger] after[i] == left[i] by {
        assert(after.drop_first()[i - 1] == left.drop_first()[i - 1]);
    }
    assert forall|oid: NonZeroOid| #[trigger] after[0].contains(oid) implies component.contains(
        oid,
    ) by {
        assert(left[0].contains(oid));
    }
    assert(left_of_component(parent, component, after[0]));
    assert(left_of_components(parent, components, after, gone));
    assert forall|oid: NonZeroOid| #[trigger] in_subgraphs(after, oid) implies in_subgraphs(
        left,
        oid,
    ) && oid != head by {
        let i = choose|i: int| 0 <= i < after.len() && (#[trigger] after[i]).contains(oid);
        if i > 0 {
            assert(left[i].contains(oid));
            assert(components[gone + i].contains(oid));
        } else {
            assert(left[0].contains(oid));
        }
    }
    assert(in_subgraphs(left, head)) by {
        assert(left[0].contains(head));
    }
    let all = stacks.push(stack);
    assert forall|a: int| 0 <= a < all.len() implies (#[trigger] all[a]).len() > 0 && is_head(
        parent,
        components,
        all[a].last(),
    ) && !in_subgraphs(after, all[a].last()) by {
        if a < stacks.len() {
            assert(all[a] == stacks[a]);
        }
    }
    assert forall|a: int, b: int| 0 <= a < b < all.len() implies (#[trigger] all[a]).last() != (
    #[trigger] all[b]).last() by {
        assert(all[a] == stacks[a]);
        if b < stacks.len() {
            assert(all[b] == stacks[b]);
        }
    }
    assert forall|oid: NonZeroOid| #[trigger] is_head(parent, components, oid) implies in_subgraphs(
        after,
        oid,
    ) || exists|a: int| ends_in(all, a, oid) by {
        if in_subgraphs(left, oid) {
            let i = choose|i: int| 0 <= i < left.len() && (#[trigger] left[i]).contains(oid);
            if i > 0 {
                assert(after[i].contains(oid));
            } else if oid == head {
                assert(ends_in(all, stacks.len() as int, oid));
            } else if stack.contains(oid) {
                let k = choose|k: int| 0 <= k < stack.len() && stack[k] == oid;
                assert(component.contains(stack[k]));
                assert(component.contains(stack[stack.len() - 1]));
                lemma_path_stays_inside(parent, components, gone, stack, k, stack.len() - 1);
                assert(in_subgraphs(components, stack[k + 1]));
                assert(parent(stack[k + 1]) == Some(stack[k]));
            } else {
                assert(after[0].contains(oid));
            }
        } else {
            let a = choose|a: int| ends_in(stacks, a, oid);
            assert(ends_in(all, a, oid));
        }
    }
}

proof fn lemma_heads_of_query(
    parent: spec_fn(NonZeroOid) -> Option<NonZeroOid>,
    env: StatusEnv,
    create_unsubmitted: bool,
    at: QueryState,
    replies: Seq<StackReply>,
) -> (gone: int)
    requires
        are_components(parent, at.subgraphs),
        complete_messages(replies),
        forall|k: int|
            0 <= k < replies.len() ==> follows_parents(
                parent,
                at.subgraphs,
                queried(env, create_unsubmitted, at, #[trigger] replies.take(k)),
                replies[k],
            ),
    ensures
        ({
            let end = queried(env, create_unsubmitted, at, replies);
            let stacks = query_outcome(env, create_unsubmitted, at, replies).stacks;
            &&& left_of_components(parent, at.subgraphs, end.subgraphs, gone)
            &&& heads_recorded(parent, at.subgraphs, end.subgraphs, stacks)
        }),
    decreases replies.len(),
{
    let stacks = query_outcome(env, create_unsubmitted, at, replies).stacks;
    if replies.len() == 0 {
        if at.subgraphs.len() > 0 {
            lemma_component_is_left(parent, at.subgraphs, 0);
        }
        assert(stacks.len() == 0);
        0
    } else {
        let front = replies.drop_last();
        let last = front.len() as int;
        let reply = replies[last];
        assert(complete_messages(front)) by {
            assert(forall|k: int| 0 <= k < front.len() ==> front[k] == replies[k]);
        }
        assert forall|k: int| 0 <= k < front.len() implies follows_parents(
            parent,
            at.subgraphs,
            queried(env, create_unsubmitted, at, #[trigger] front.take(k)),
            front[k],
        ) by {
            assert(front.take(k) =~= replies.take(k));
        }
        let gone = lemma_heads_of_query(parent, env, create_unsubmitted, at, front);
        let mid = queried(env, create_unsubmitted, at, front);
        let end = queried(env, create_unsubmitted, at, replies);
        let before = query_outcome(env, create_unsubmitted, at, front).stacks;
        law_recorded_stacks_have_no_say(env, create_unsubmitted, at, front);
        law_one_stack_per_head(env, create_unsubmitted, mid, reply);
        assert(replies.take(last) =~= front);
        assert(follows_parents(parent, at.subgraphs, mid, reply));
        if next_head(mid.subgraphs).0 is Some {
            let n = lemma_next_head_at(mid.subgraphs);
            let left = mid.subgraphs.skip(n);
            let stack = reply.head_first.reverse();
            lemma_skip_empty(parent, at.subgraphs, mid.subgraphs, gone, n);
            let start = WalkState {
                state: mid.state,
                subgraphs: next_head(mid.subgraphs).1,
                walk: walk_start(env, reply.head_first),
            };
            assert(start.subgraphs[0] == left[0].drop_last());
            assert(has_commits(start.walk, reply.messages.len() as int));
            assert(parents_first(parent, start.subgraphs[0])) by {
                assert forall|i: int, j: int|
                    0 <= i < j < start.subgraphs[0].len() implies parent(
                    #[trigger] start.subgraphs[0][i],
                ) != Some(#[trigger] start.subgraphs[0][j]) by {
                    assert(left[0][i] == start.subgraphs[0][i]);
                    assert(left[0][j] == start.subgraphs[0][j]);
                }
            }
            law_walked_commits_leave(env, create_unsubmitted, start, reply.messages);
            lemma_walk_keeps_parents_first(
                parent,
                env,
                create_unsubmitted,
                start,
                reply.messages,
            );
            assert(stack.subrange(0, stack.len() as int) =~= stack);
            assert(end.subgraphs.drop_first() =~= left.drop_first()) by {
                assert(start.subgraphs.drop_first() =~= left.drop_first());
            }
            assert(stacks =~= before.push(stack));
            lemma_head_walked(
                parent,
                at.subgraphs,
                left,
                gone + n,
                before,
                stack,
                end.subgraphs,
            );
            gone + n
        } else {
            gone
        }
    }
}

/// A query records one stack for each head of the submitted commits: every stack that it records
/// ends in a head, and once no commit is left every head ends exactly one of them. This holds where
/// no commit has more than one parent, the subgraphs are the connected components with parents
/// first, and each stack leads from its head down along the parents.
pub proof fn law_one_stack_for_each_head(
    parent: spec_fn(NonZeroOid) -> Option<NonZeroOid>,
    env: StatusEnv,
    create_unsubmitted: bool,
    at: QueryState,
    replies: Seq<StackReply>,
)
    requires
        are_components(parent, at.subgraphs),
        complete_messages(replies),
        forall|k: int|
            0 <= k < replies.len() ==> follows_parents(
                parent,
                at.subgraphs,
                queried(env, create_unsubmitted, at, #[trigger] replies.take(k)),
                replies[k],
            ),
    ensures
        ({
            let end = queried(env, create_unsubmitted, at, replies);
            let stacks = query_outcome(env, create_unsubmitted, at, replies).stacks;
            &&& forall|a: int|
                0 <= a < stacks.len() ==> (#[trigger] stacks[a]).len() > 0 && is_head(
                    parent,
                    at.subgraphs,
                    stacks[a].last(),
                )
            &&& forall|a: int, b: int|
                0 <= a < b < stacks.len() ==> (#[trigger] stacks[a]).last() != (
                #[trigger] stacks[b]).last()
            &&& next_head(end.subgraphs).0 is None ==> forall|oid: NonZeroOid| #[trigger]
                is_head(parent, at.subgraphs, oid) ==> exists|a: int| ends_in(stacks, a, oid)
        }),
{
    let end = queried(env, create_unsubmitted, at, replies);
    let stacks = query_outcome(env, create_unsubmitted, at, replies).stacks;
    let gone = lemma_heads_of_query(parent, env, create_unsubmitted, at, replies);
    if next_head(end.subgraphs).0 is None {
        assert forall|oid: NonZeroOid| #[trigger]
            is_head(parent, at.subgraphs, oid) implies exists|a: int| ends_in(stacks, a, oid) by {
            if in_subgraphs(end.subgraphs, oid) {
                lemma_left_has_head(end.subgraphs, oid);
            }
        }
    }
}

/// As long as a commit is left there is a next head.
proof fn lemma_left_has_head(subgraphs: Seq<Seq<NonZeroOid>>, oid: NonZeroOid)
    requires
        in_subgraphs(subgraphs, oid),
    ensures
        next_head(subgraphs).0 is Some,
    decreases subgraphs.len(),
{
    let i = choose|i: int| 0 <= i < subgraphs.len() && (#[trigger] subgraphs[i]).contains(oid);
    if subgraphs[0].len() == 0 {
        assert(subgraphs.drop_first()[i - 1].contains(oid));
        lemma_left_has_head(subgraphs.drop_first(), oid);
    }
}

} // verus!
