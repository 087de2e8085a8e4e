//! What holds of a whole query, in which one stack is walked after the other.

use crate::client::PullRequestInfoView;
use crate::status::{
    next_head, outdated, submitted_change, unsubmitted_change, walk_end, walk_start, CommitMessage,
    StackWalkView, StatusEnv, WalkState,
};
use crate::status_laws::{
    law_new_commits_in_topological_order, law_walk_end_outdates_whole_stack,
    law_walk_tracks_its_commits, queried, stack_queried, walked, QueryState, StackReply,
};
use crate::types::{
    is_tracked, tracked_at, NonZeroOid, RefOrOidView, StackStateView, StackedChangeView,
    SubmitStatus,
};
use vstd::prelude::*;

verus! {

/// What a query decides by, and what it does not change.
pub struct QueryContext {
    pub env: StatusEnv,
    pub create_unsubmitted: bool,
    pub oids_to_branchless_refs: Map<NonZeroOid, Seq<char>>,
}

/// What a query that starts from the given state decides by.
pub open spec fn query_context(
    env: StatusEnv,
    create_unsubmitted: bool,
    state: StackStateView,
) -> QueryContext {
    QueryContext {
        env,
        create_unsubmitted,
        oids_to_branchless_refs: state.oids_to_branchless_refs,
    }
}

impl QueryContext {
    /// The pull request of a commit: the first one that is listed for the branch of the commit,
    /// whatever it says.
    pub open spec fn pr(self, oid: NonZeroOid) -> Option<PullRequestInfoView> {
        if self.oids_to_branchless_refs.contains_key(oid) && self.env.pull_requests.contains_key(
            self.oids_to_branchless_refs[oid],
        ) && self.env.pull_requests[self.oids_to_branchless_refs[oid]].len() > 0 {
            Some(self.env.pull_requests[self.oids_to_branchless_refs[oid]][0])
        } else {
            None
        }
    }

    /// What the pull request of the commit at index `k` of a stack is to be based on: the branch of
    /// the nearest commit below that has a pull request, or else the main branch. A commit that
    /// is going to get a pull request is a base like one that has it.
    pub open spec fn base_along(self, stack: Seq<NonZeroOid>, k: int) -> RefOrOidView
        decreases k,
    {
        if k <= 0 {
            RefOrOidView::Branch(self.env.main_branch_name)
        } else {
            match self.pr(stack[k - 1]) {
                Some(pr) => RefOrOidView::Branch(pr.head_ref_name),
                None => if self.create_unsubmitted {
                    RefOrOidView::Oid(stack[k - 1])
                } else {
                    self.base_along(stack, k - 1)
                },
            }
        }
    }

    /// Whether the commit at index `k` of a stack changes the structure of the stack: its pull
    /// request has another base than it should have, or it has none and is going to get one.
    pub open spec fn changes_structure(self, stack: Seq<NonZeroOid>, k: int) -> bool {
        match self.pr(stack[k]) {
            Some(pr) => RefOrOidView::Branch(pr.base_ref_name) != self.base_along(stack, k),
            None => self.create_unsubmitted,
        }
    }

    /// Whether one of the first `count` commits of a stack changes the structure of the stack.
    pub open spec fn structure_changed(self, stack: Seq<NonZeroOid>, count: int) -> bool {
        exists|k: int| 0 <= k < count && #[trigger] self.changes_structure(stack, k)
    }

    /// Whether the commit at index `k` of a stack was amended, or has no pull request and is going
    /// to get one.
    pub open spec fn is_new(self, stack: Seq<NonZeroOid>, k: int) -> bool {
        match self.pr(stack[k]) {
            Some(pr) => pr.head_ref_oid != stack[k],
            None => self.create_unsubmitted,
        }
    }

    /// Whether one of the first `count` commits of a stack was amended or is to be created.
    pub open spec fn any_new(self, stack: Seq<NonZeroOid>, count: int) -> bool {
        exists|k: int| 0 <= k < count && #[trigger] self.is_new(stack, k)
    }

    /// The walk of a stack once `k` commits were visited.
    pub open spec fn walk_along(self, stack: Seq<NonZeroOid>, k: int) -> StackWalkView {
        StackWalkView {
            stack,
            position: k,
            nearest_base_ref: self.base_along(stack, k),
            update_until_head: self.any_new(stack, k),
            update_whole_stack: self.structure_changed(stack, k),
        }
    }

    /// What a walk tracks of the commit at index `k` of a stack, if it was not tracked before.
    pub open spec fn change_along(
        self,
        stack: Seq<NonZeroOid>,
        messages: Seq<CommitMessage>,
        k: int,
    ) -> StackedChangeView {
        match self.pr(stack[k]) {
            Some(pr) => submitted_change(self.env, self.walk_along(stack, k), pr, messages[k]),
            None => unsubmitted_change(self.walk_along(stack, k), messages[k]),
        }
    }

    /// A tracked commit once the walk of a stack has ended.
    pub open spec fn after_stack(
        self,
        stack: Seq<NonZeroOid>,
        entry: (NonZeroOid, StackedChangeView),
    ) -> (NonZeroOid, StackedChangeView) {
        if self.structure_changed(stack, stack.len() as int) && stack.contains(entry.0) {
            (entry.0, outdated(entry.1))
        } else {
            entry
        }
    }

    /// Whether an entry is what a walk tracks of the commit at index `k` of its stack.
    pub open spec fn is_entry_along(
        self,
        stack: Seq<NonZeroOid>,
        messages: Seq<CommitMessage>,
        entry: (NonZeroOid, StackedChangeView),
        k: int,
    ) -> bool {
        0 <= k < messages.len() && entry == (stack[k], self.change_along(stack, messages, k))
    }

    /// Whether an entry is what a walk tracks of one of the commits of its stack.
    pub open spec fn is_tracked_along(
        self,
        stack: Seq<NonZeroOid>,
        messages: Seq<CommitMessage>,
        entry: (NonZeroOid, StackedChangeView),
    ) -> bool {
        exists|k: int| self.is_entry_along(stack, messages, entry, k)
    }

    /// Whether an entry is what is tracked of the commit at index `k` of a stack once the walk that
    /// started to track it has ended.
    pub open spec fn is_entry_after(
        self,
        stack: Seq<NonZeroOid>,
        messages: Seq<CommitMessage>,
        entry: (NonZeroOid, StackedChangeView),
        k: int,
    ) -> bool {
        0 <= k < stack.len() && entry == self.after_stack(
            stack,
            (stack[k], self.change_along(stack, messages, k)),
        )
    }

    /// Whether an entry is what is tracked of one of the commits of a stack once the walk that
    /// started to track it has ended.
    pub open spec fn is_tracked_after(
        self,
        stack: Seq<NonZeroOid>,
        messages: Seq<CommitMessage>,
        entry: (NonZeroOid, StackedChangeView),
    ) -> bool {
        exists|k: int| self.is_entry_after(stack, messages, entry, k)
    }
}

/// One more commit of a stack adds what it says itself.
proof fn lemma_one_more(context: QueryContext, stack: Seq<NonZeroOid>, k: int)
    requires
        0 <= k,
    ensures
        context.structure_changed(stack, k + 1) <==> context.structure_changed(stack, k)
            || context.changes_structure(stack, k),
        context.any_new(stack, k + 1) <==> context.any_new(stack, k) || context.is_new(stack, k),
{
    if context.structure_changed(stack, k) {
        let m = choose|m: int| 0 <= m < k && #[trigger] context.changes_structure(stack, m);
        assert(context.changes_structure(stack, m));
    }
    if context.any_new(stack, k) {
        let m = choose|m: int| 0 <= m < k && #[trigger] context.is_new(stack, m);
        assert(context.is_new(stack, m));
    }
}

/// What a walk finds out about a stack can be read off the stack: where the walk stands, and what
/// it tracks of each commit that is new to it.
proof fn lemma_walk_along(
    context: QueryContext,
    at: WalkState,
    head_first: Seq<NonZeroOid>,
    messages: Seq<CommitMessage>,
)
    requires
        at.walk == walk_start(context.env, head_first),
        at.state.oids_to_branchless_refs == context.oids_to_branchless_refs,
        messages.len() <= head_first.len(),
    ensures
        ({
            let end = walked(context.env, context.create_unsubmitted, at, messages);
            let stack = head_first.reverse();
            &&& end.walk == context.walk_along(stack, messages.len() as int)
            &&& forall|i: int|
                at.state.commits.len() <= i < end.state.commits.len() ==> context.is_tracked_along(
                    stack,
                    messages,
                    #[trigger] end.state.commits[i],
                )
        }),
    decreases messages.len(),
{
    let stack = head_first.reverse();
    let end = walked(context.env, context.create_unsubmitted, at, messages);
    if messages.len() > 0 {
        let front = messages.drop_last();
        let n = front.len() as int;
        let mid = walked(context.env, context.create_unsubmitted, at, front);
        lemma_walk_along(context, at, head_first, front);
        law_walk_tracks_its_commits(context.env, context.create_unsubmitted, at, front);
        lemma_one_more(context, stack, n);
        assert(mid.walk.stack[mid.walk.position] == stack[n]);
        assert(end.walk == context.walk_along(stack, n + 1));
        assert forall|i: int|
            at.state.commits.len() <= i < end.state.commits.len() implies context.is_tracked_along(
            stack,
            messages,
            #[trigger] end.state.commits[i],
        ) by {
            if i < mid.state.commits.len() {
                assert(end.state.commits[i] == mid.state.commits[i]);
                let k = choose|k: int|
                    context.is_entry_along(stack, front, mid.state.commits[i], k);
                assert(front[k] == messages[k]);
                assert(context.is_entry_along(stack, messages, end.state.commits[i], k));
            } else {
                assert(context.is_entry_along(stack, messages, end.state.commits[i], n));
            }
        }
    }
}

/// For each head one stack is recorded: the one that was found between the main branch and the
/// head, the commit closest to the main branch first.
pub proof fn law_one_stack_per_head(
    env: StatusEnv,
    create_unsubmitted: bool,
    at: QueryState,
    reply: StackReply,
)
    requires
        reply.messages.len() <= reply.head_first.len(),
    ensures
        stack_queried(env, create_unsubmitted, at, reply).state.stacks == if next_head(
            at.subgraphs,
        ).0 is Some {
            at.state.stacks.push(reply.head_first.reverse())
        } else {
            at.state.stacks
        },
{
    if next_head(at.subgraphs).0 is Some {
        let start = WalkState {
            state: at.state,
            subgraphs: next_head(at.subgraphs).1,
            walk: walk_start(env, reply.head_first),
        };
        law_walk_tracks_its_commits(env, create_unsubmitted, start, reply.messages);
    }
}

/// What the walk of one more stack does to the state.
proof fn lemma_stack_queried(context: QueryContext, at: QueryState, reply: StackReply)
    requires
        next_head(at.subgraphs).0 is Some,
        at.state.oids_to_branchless_refs == context.oids_to_branchless_refs,
        reply.messages.len() == reply.head_first.len(),
    ensures
        ({
            let end = stack_queried(context.env, context.create_unsubmitted, at, reply).state;
            let stack = reply.head_first.reverse();
            &&& end.stacks == at.state.stacks.push(stack)
            &&& end.oids_to_branchless_refs == at.state.oids_to_branchless_refs
            &&& at.state.well_formed() ==> end.well_formed()
            &&& at.state.own_ids() ==> end.own_ids()
            &&& at.state.commits.len() <= end.commits.len()
            &&& forall|i: int|
                0 <= i < at.state.commits.len() ==> (#[trigger] end.commits[i])
                    == context.after_stack(stack, at.state.commits[i])
            &&& forall|i: int|
                at.state.commits.len() <= i < end.commits.len() ==> context.is_tracked_after(
                    stack,
                    reply.messages,
                    #[trigger] end.commits[i],
                )
            &&& forall|k: int|
                0 <= k < stack.len() ==> is_tracked(end.commits, #[trigger] stack[k])
        }),
{
    let env = context.env;
    let create_unsubmitted = context.create_unsubmitted;
    let stack = reply.head_first.reverse();
    let start = WalkState {
        state: at.state,
        subgraphs: next_head(at.subgraphs).1,
        walk: walk_start(env, reply.head_first),
    };
    let over = walked(env, create_unsubmitted, start, reply.messages);
    let end = walk_end(over.state, over.walk);
    law_walk_tracks_its_commits(env, create_unsubmitted, start, reply.messages);
    lemma_walk_along(context, start, reply.head_first, reply.messages);
    law_walk_end_outdates_whole_stack(over.state, over.walk);
    assert(over.walk == context.walk_along(stack, stack.len() as int));
    assert forall|i: int| 0 <= i < end.commits.len() implies (#[trigger] end.commits[i])
        == context.after_stack(stack, over.state.commits[i]) by {}
    assert forall|i: int| 0 <= i < at.state.commits.len() implies (#[trigger] end.commits[i])
        == context.after_stack(stack, at.state.commits[i]) by {
        assert(over.state.commits[i] == at.state.commits[i]);
    }
    assert forall|i: int|
        at.state.commits.len() <= i < end.commits.len() implies context.is_tracked_after(
        stack,
        reply.messages,
        #[trigger] end.commits[i],
    ) by {
        assert(context.is_tracked_along(stack, reply.messages, over.state.commits[i]));
        let k = choose|k: int|
            context.is_entry_along(stack, reply.messages, over.state.commits[i], k);
        assert(context.is_entry_after(stack, reply.messages, end.commits[i], k));
    }
    assert forall|k: int| 0 <= k < stack.len() implies is_tracked(
        end.commits,
        #[trigger] stack[k],
    ) by {
        assert(start.walk.stack[k] == stack[k]);
        let i = choose|i: int| tracked_at(over.state.commits, stack[k], i);
        assert(tracked_at(end.commits, stack[k], i));
    }
}

/// Whether nothing is tracked and no stack is recorded.
spec fn is_blank(at: QueryState) -> bool {
    at.state.commits.len() == 0 && at.state.stacks.len() == 0
}

/// A query without the stacks that were recorded before it.
pub open spec fn without_stacks(at: QueryState) -> QueryState {
    QueryState { state: StackStateView { stacks: Seq::empty(), ..at.state }, ..at }
}

/// What a query leaves, with no other stacks than those that it recorded itself.
pub open spec fn query_outcome(
    env: StatusEnv,
    create_unsubmitted: bool,
    at: QueryState,
    replies: Seq<StackReply>,
) -> StackStateView {
    let end = queried(env, create_unsubmitted, at, replies).state;
    StackStateView { stacks: end.stacks.skip(at.state.stacks.len() as int), ..end }
}

proof fn lemma_walk_without_stacks(
    env: StatusEnv,
    create_unsubmitted: bool,
    at: WalkState,
    stacks: Seq<Seq<NonZeroOid>>,
    messages: Seq<CommitMessage>,
)
    ensures
        ({
            let end = walked(env, create_unsubmitted, at, messages);
            walked(
                env,
                create_unsubmitted,
                WalkState { state: StackStateView { stacks, ..at.state }, ..at },
                messages,
            ) == (WalkState { state: StackStateView { stacks, ..end.state }, ..end })
        }),
    decreases messages.len(),
{
    if messages.len() > 0 {
        lemma_walk_without_stacks(env, create_unsubmitted, at, stacks, messages.drop_last());
    }
}

/// The stacks that were recorded before a query have no say in what it finds out: it tracks what it
/// would track without them, and records its own stacks behind them.
pub proof fn law_recorded_stacks_have_no_say(
    env: StatusEnv,
    create_unsubmitted: bool,
    at: QueryState,
    replies: Seq<StackReply>,
)
    requires
        complete_messages(replies),
    ensures
        ({
            let end = queried(env, create_unsubmitted, at, replies);
            let bare = queried(env, create_unsubmitted, without_stacks(at), replies);
            &&& end.subgraphs == bare.subgraphs
            &&& end.state.stacks == at.state.stacks + bare.state.stacks
            &&& query_outcome(env, create_unsubmitted, at, replies) == bare.state
        }),
    decreases replies.len(),
{
    let end = queried(env, create_unsubmitted, at, replies);
    let bare = queried(env, create_unsubmitted, without_stacks(at), replies);
    if replies.len() > 0 {
        let front = replies.drop_last();
        let reply = replies[replies.len() - 1];
        assert(complete_messages(front)) by {
            assert(forall|k: int| 0 <= k < front.len() ==> front[k] == replies[k]);
        }
        law_recorded_stacks_have_no_say(env, create_unsubmitted, at, front);
        let mid = queried(env, create_unsubmitted, at, front);
        let bare_mid = queried(env, create_unsubmitted, without_stacks(at), front);
        law_one_stack_per_head(env, create_unsubmitted, mid, reply);
        law_one_stack_per_head(env, create_unsubmitted, bare_mid, reply);
        if next_head(mid.subgraphs).0 is Some {
            let start = WalkState {
                state: mid.state,
                subgraphs: next_head(mid.subgraphs).1,
                walk: walk_start(env, reply.head_first),
            };
            lemma_walk_without_stacks(
                env,
                create_unsubmitted,
                start,
                bare_mid.state.stacks,
                reply.messages,
            );
            assert(bare_mid.state == StackStateView {
                stacks: bare_mid.state.stacks,
                ..mid.state
            });
        }
    }
    assert(end.state.stacks =~= at.state.stacks + bare.state.stacks);
    assert(end.state.stacks.skip(at.state.stacks.len() as int) =~= bare.state.stacks);
}

/// Whether every commit of every stack comes with its message.
pub open spec fn complete_messages(replies: Seq<StackReply>) -> bool {
    forall|k: int|
        0 <= k < replies.len() ==> (#[trigger] replies[k]).messages.len()
            == replies[k].head_first.len()
}

/// Whether the history of every commit is linear: where a commit is in two stacks, the commits
/// below it are the same. No stack has a commit twice.
pub open spec fn linear_histories(stacks: Seq<Seq<NonZeroOid>>) -> bool {
    forall|a: int, b: int, k: int, l: int|
        0 <= a < stacks.len() && 0 <= b < stacks.len() && 0 <= k < stacks[a].len() && 0 <= l
            < stacks[b].len() && #[trigger] stacks[a][k] == #[trigger] stacks[b][l]
            ==> stacks[a].take(k + 1) == stacks[b].take(l + 1)
}

/// Whether a commit stands at index `k` of the recorded stack `a`.
pub open spec fn stands_at(stacks: Seq<Seq<NonZeroOid>>, a: int, k: int, oid: NonZeroOid) -> bool {
    0 <= a < stacks.len() && 0 <= k < stacks[a].len() && stacks[a][k] == oid
}

/// Whether a commit is in one of the recorded stacks.
pub open spec fn in_stacks(stacks: Seq<Seq<NonZeroOid>>, oid: NonZeroOid) -> bool {
    exists|a: int, k: int| stands_at(stacks, a, k, oid)
}

/// Where a commit stands in two stacks of linear histories, it has the same commits below it.
proof fn lemma_same_history(
    stacks: Seq<Seq<NonZeroOid>>,
    a: int,
    k: int,
    b: int,
    l: int,
    oid: NonZeroOid,
)
    requires
        linear_histories(stacks),
        stands_at(stacks, a, k, oid),
        stands_at(stacks, b, l, oid),
    ensures
        k == l,
        forall|m: int| 0 <= m <= k ==> #[trigger] stacks[a][m] == stacks[b][m],
{
    assert(stacks[a][k] == stacks[b][l]);
    assert(stacks[a].take(k + 1).len() == stacks[b].take(l + 1).len());
    assert forall|m: int| 0 <= m <= k implies #[trigger] stacks[a][m] == stacks[b][m] by {
        assert(stacks[a].take(k + 1)[m] == stacks[b].take(l + 1)[m]);
    }
}

/// What is said of a commit by those below it is the same in two stacks that have the same commits
/// below it.
proof fn lemma_same_below(
    context: QueryContext,
    one: Seq<NonZeroOid>,
    other: Seq<NonZeroOid>,
    k: int,
)
    requires
        0 <= k,
        forall|m: int| 0 <= m < k ==> #[trigger] one[m] == other[m],
    ensures
        context.base_along(one, k) == context.base_along(other, k),
        context.any_new(one, k) == context.any_new(other, k),
    decreases k,
{
    if k > 0 {
        lemma_same_below(context, one, other, k - 1);
        lemma_one_more(context, one, k - 1);
        lemma_one_more(context, other, k - 1);
        assert(one[k - 1] == other[k - 1]);
    }
}

/// Whether what is tracked is what is in the recorded stacks.
pub open spec fn tracks_its_stacks(state: StackStateView) -> bool {
    &&& forall|a: int, k: int|
        0 <= a < state.stacks.len() && 0 <= k < state.stacks[a].len() ==> is_tracked(
            state.commits,
            #[trigger] state.stacks[a][k],
        )
    &&& forall|i: int|
        0 <= i < state.commits.len() ==> in_stacks(state.stacks, (#[trigger] state.commits[i]).0)
}

proof fn lemma_query_tracks(
    env: StatusEnv,
    create_unsubmitted: bool,
    at: QueryState,
    replies: Seq<StackReply>,
)
    requires
        is_blank(at),
        complete_messages(replies),
    ensures
        ({
            let end = queried(env, create_unsubmitted, at, replies).state;
            &&& end.well_formed()
            &&& end.own_ids()
            &&& tracks_its_stacks(end)
            &&& end.oids_to_branchless_refs == at.state.oids_to_branchless_refs
        }),
    decreases replies.len(),
{
    if replies.len() > 0 {
        let front = replies.drop_last();
        let mid = queried(env, create_unsubmitted, at, front);
        assert(complete_messages(front)) by {
            assert(forall|k: int| 0 <= k < front.len() ==> front[k] == replies[k]);
        }
        lemma_query_tracks(env, create_unsubmitted, at, front);
        if next_head(mid.subgraphs).0 is Some {
            let reply = replies[replies.len() - 1];
            let context = query_context(env, create_unsubmitted, at.state);
            lemma_stack_queried(context, mid, reply);
            lemma_stack_added(context, mid, reply);
        }
    }
}

/// The commits that a query tracks are those of the stacks that it records. None is tracked twice,
/// and each is tracked under its own id. Branches stay as they are.
pub proof fn law_query_tracks_its_stacks(
    env: StatusEnv,
    create_unsubmitted: bool,
    at: QueryState,
    replies: Seq<StackReply>,
)
    requires
        at.state.commits.len() == 0,
        complete_messages(replies),
    ensures
        ({
            let end = query_outcome(env, create_unsubmitted, at, replies);
            &&& end.well_formed()
            &&& end.own_ids()
            &&& tracks_its_stacks(end)
            &&& end.oids_to_branchless_refs == at.state.oids_to_branchless_refs
        }),
{
    law_recorded_stacks_have_no_say(env, create_unsubmitted, at, replies);
    lemma_query_tracks(env, create_unsubmitted, without_stacks(at), replies);
}

proof fn lemma_stack_added(context: QueryContext, at: QueryState, reply: StackReply)
    requires
        next_head(at.subgraphs).0 is Some,
        at.state.oids_to_branchless_refs == context.oids_to_branchless_refs,
        reply.messages.len() == reply.head_first.len(),
        tracks_its_stacks(at.state),
    ensures
        tracks_its_stacks(
            stack_queried(context.env, context.create_unsubmitted, at, reply).state,
        ),
{
    let end = stack_queried(context.env, context.create_unsubmitted, at, reply).state;
    let stack = reply.head_first.reverse();
    let n = at.state.stacks.len() as int;
    lemma_stack_queried(context, at, reply);
    assert forall|a: int, k: int|
        0 <= a < end.stacks.len() && 0 <= k < end.stacks[a].len() implies is_tracked(
        end.commits,
        #[trigger] end.stacks[a][k],
    ) by {
        if a < n {
            let oid = at.state.stacks[a][k];
            assert(is_tracked(at.state.commits, oid));
            let i = choose|i: int| tracked_at(at.state.commits, oid, i);
            assert(end.commits[i] == context.after_stack(stack, at.state.commits[i]));
            assert(tracked_at(end.commits, oid, i));
        } else {
            assert(end.stacks[a][k] == stack[k]);
        }
    }
    assert forall|i: int| 0 <= i < end.commits.len() implies in_stacks(
        end.stacks,
        (#[trigger] end.commits[i]).0,
    ) by {
        if i < at.state.commits.len() {
            assert(in_stacks(at.state.stacks, at.state.commits[i].0));
            let (a, k) = choose|a: int, k: int|
                stands_at(at.state.stacks, a, k, at.state.commits[i].0);
            assert(end.commits[i] == context.after_stack(stack, at.state.commits[i]));
            assert(stands_at(end.stacks, a, k, end.commits[i].0));
        } else {
            assert(context.is_tracked_after(stack, reply.messages, end.commits[i]));
            let k = choose|k: int|
                context.is_entry_after(stack, reply.messages, end.commits[i], k);
            assert(stands_at(end.stacks, n, k, end.commits[i].0));
        }
    }
}

impl QueryContext {
    /// Whether a commit is in a recorded stack whose structure changed.
    pub open spec fn in_changed_stack(
        self,
        stacks: Seq<Seq<NonZeroOid>>,
        oid: NonZeroOid,
    ) -> bool {
        exists|a: int|
            0 <= a < stacks.len() && (#[trigger] stacks[a]).contains(oid)
                && self.structure_changed(stacks[a], stacks[a].len() as int)
    }

    /// Whether a commit matches its pull request: the title is the same, and neither the commit nor
    /// one below it in its stack is new.
    pub open spec fn matches_along(
        self,
        stack: Seq<NonZeroOid>,
        k: int,
        title: Seq<char>,
    ) -> bool {
        match self.pr(stack[k]) {
            Some(pr) => pr.title == title && !self.any_new(stack, k + 1),
            None => false,
        }
    }

    /// Whether what is tracked of the commit at index `k` of the recorded stack `a` is what the
    /// recorded stacks say of it.
    pub open spec fn fits_at(
        self,
        stacks: Seq<Seq<NonZeroOid>>,
        entry: (NonZeroOid, StackedChangeView),
        a: int,
        k: int,
    ) -> bool {
        let (oid, change) = entry;
        let status = change.commit_status.submit_status;
        &&& stands_at(stacks, a, k, oid)
        &&& change.pr_base == self.base_along(stacks[a], k)
        &&& status == SubmitStatus::Unsubmitted <==> self.pr(oid) is None
        &&& status == SubmitStatus::UpToDate <==> self.matches_along(stacks[a], k, change.title)
            && !self.in_changed_stack(stacks, oid)
        &&& change.oid == oid
        &&& match self.pr(oid) {
            Some(pr) => {
                &&& change.should_push <==> pr.head_ref_oid != oid
                &&& change.should_update_pr <==> pr.title != change.title || self.in_changed_stack(
                    stacks,
                    oid,
                )
                &&& change.pr_url == Some(pr.url)
                &&& change.pr_number == Some(pr.number)
                &&& change.body == pr.body
                &&& change.commit_status.local_commit_name == Some(pr.head_ref_name)
                &&& change.commit_status.remote_commit_name == Some(pr.head_ref_name)
                &&& change.commit_status.remote_name == self.env.default_remote
            },
            None => {
                &&& change.should_push
                &&& change.should_update_pr
                &&& change.pr_url is None
                &&& change.pr_number is None
                &&& change.commit_status.local_commit_name is None
                &&& change.commit_status.remote_commit_name is None
                &&& change.commit_status.remote_name is None
            },
        }
    }

    /// Whether what is tracked of a commit is what the recorded stacks say of it.
    pub open spec fn fits(
        self,
        stacks: Seq<Seq<NonZeroOid>>,
        entry: (NonZeroOid, StackedChangeView),
    ) -> bool {
        exists|a: int, k: int| self.fits_at(stacks, entry, a, k)
    }

    /// Whether what is tracked of every commit is what the recorded stacks say of it.
    pub open spec fn all_fit(self, state: StackStateView) -> bool {
        forall|i: int|
            0 <= i < state.commits.len() ==> self.fits(state.stacks, #[trigger] state.commits[i])
    }
}

/// One more recorded stack.
proof fn lemma_in_changed_stack_push(
    context: QueryContext,
    stacks: Seq<Seq<NonZeroOid>>,
    stack: Seq<NonZeroOid>,
    oid: NonZeroOid,
)
    ensures
        context.in_changed_stack(stacks.push(stack), oid) <==> context.in_changed_stack(stacks, oid)
            || stack.contains(oid) && context.structure_changed(stack, stack.len() as int),
{
    let all = stacks.push(stack);
    if context.in_changed_stack(stacks, oid) {
        let a = choose|a: int|
            0 <= a < stacks.len() && (#[trigger] stacks[a]).contains(oid)
                && context.structure_changed(stacks[a], stacks[a].len() as int);
        assert(all[a] == stacks[a]);
    }
    if context.in_changed_stack(all, oid) {
        let a = choose|a: int|
            0 <= a < all.len() && (#[trigger] all[a]).contains(oid) && context.structure_changed(
                all[a],
                all[a].len() as int,
            );
        if a < stacks.len() {
            assert(stacks[a] == all[a]);
        }
    }
    assert(all[stacks.len() as int] == stack);
}

/// A commit that is tracked stays as it should be when one more stack is walked.
proof fn lemma_old_entry_fits(
    context: QueryContext,
    stacks: Seq<Seq<NonZeroOid>>,
    stack: Seq<NonZeroOid>,
    entry: (NonZeroOid, StackedChangeView),
)
    requires
        context.fits(stacks, entry),
    ensures
        context.fits(stacks.push(stack), context.after_stack(stack, entry)),
{
    let (a, k) = choose|a: int, k: int| context.fits_at(stacks, entry, a, k);
    let all = stacks.push(stack);
    lemma_in_changed_stack_push(context, stacks, stack, entry.0);
    assert(all[a] == stacks[a]);
    assert(context.fits_at(all, context.after_stack(stack, entry), a, k));
}

/// A commit that a walk starts to track is tracked as it should be.
proof fn lemma_new_entry_fits(
    context: QueryContext,
    stacks: Seq<Seq<NonZeroOid>>,
    stack: Seq<NonZeroOid>,
    messages: Seq<CommitMessage>,
    k: int,
)
    requires
        0 <= k < stack.len(),
        !context.in_changed_stack(stacks, stack[k]),
    ensures
        context.fits(
            stacks.push(stack),
            context.after_stack(stack, (stack[k], context.change_along(stack, messages, k))),
        ),
{
    let all = stacks.push(stack);
    let n = stacks.len() as int;
    let entry = (stack[k], context.change_along(stack, messages, k));
    lemma_in_changed_stack_push(context, stacks, stack, stack[k]);
    lemma_one_more(context, stack, k);
    assert(all[n] == stack);
    assert(stack.contains(stack[k]));
    if context.structure_changed(stack, k + 1) {
        let m = choose|m: int| 0 <= m < k + 1 && #[trigger] context.changes_structure(stack, m);
        assert(context.changes_structure(stack, m));
        assert(context.structure_changed(stack, stack.len() as int));
    }
    assert(context.fits_at(all, context.after_stack(stack, entry), n, k));
}

proof fn lemma_stack_fits(context: QueryContext, at: QueryState, reply: StackReply)
    requires
        next_head(at.subgraphs).0 is Some,
        at.state.oids_to_branchless_refs == context.oids_to_branchless_refs,
        reply.messages.len() == reply.head_first.len(),
        at.state.well_formed(),
        tracks_its_stacks(at.state),
        context.all_fit(at.state),
    ensures
        context.all_fit(stack_queried(context.env, context.create_unsubmitted, at, reply).state),
{
    let end = stack_queried(context.env, context.create_unsubmitted, at, reply).state;
    let stack = reply.head_first.reverse();
    lemma_stack_queried(context, at, reply);
    assert forall|i: int| 0 <= i < end.commits.len() implies context.fits(
        end.stacks,
        #[trigger] end.commits[i],
    ) by {
        if i < at.state.commits.len() {
            assert(context.fits(at.state.stacks, at.state.commits[i]));
            lemma_old_entry_fits(context, at.state.stacks, stack, at.state.commits[i]);
        } else {
            assert(context.is_tracked_after(stack, reply.messages, end.commits[i]));
            let k = choose|k: int|
                context.is_entry_after(stack, reply.messages, end.commits[i], k);
            if context.in_changed_stack(at.state.stacks, stack[k]) {
                let a = choose|a: int|
                    0 <= a < at.state.stacks.len() && (#[trigger] at.state.stacks[a]).contains(
                        stack[k],
                    ) && context.structure_changed(
                        at.state.stacks[a],
                        at.state.stacks[a].len() as int,
                    );
                let m = choose|m: int|
                    0 <= m < at.state.stacks[a].len() && at.state.stacks[a][m] == stack[k];
                assert(is_tracked(at.state.commits, at.state.stacks[a][m]));
                lemma_untracked_before(context, at, reply, stack[k], i);
            }
            lemma_new_entry_fits(context, at.state.stacks, stack, reply.messages, k);
        }
    }
}

proof fn lemma_query_fits(
    env: StatusEnv,
    create_unsubmitted: bool,
    at: QueryState,
    replies: Seq<StackReply>,
)
    requires
        is_blank(at),
        complete_messages(replies),
    ensures
        query_context(env, create_unsubmitted, at.state).all_fit(
            queried(env, create_unsubmitted, at, replies).state,
        ),
    decreases replies.len(),
{
    if replies.len() > 0 {
        let front = replies.drop_last();
        let mid = queried(env, create_unsubmitted, at, front);
        assert(complete_messages(front)) by {
            assert(forall|k: int| 0 <= k < front.len() ==> front[k] == replies[k]);
        }
        lemma_query_fits(env, create_unsubmitted, at, front);
        lemma_query_tracks(env, create_unsubmitted, at, front);
        if next_head(mid.subgraphs).0 is Some {
            let context = query_context(env, create_unsubmitted, at.state);
            lemma_stack_fits(context, mid, replies[replies.len() - 1]);
        }
    }
}

/// Along every stack that a query records, the pull request of each commit is based on the nearest
/// commit below that has one or is going to get one, and on the main branch if there is none. This
/// holds where the histories of the commits are linear.
pub proof fn law_query_bases_along_stacks(
    env: StatusEnv,
    create_unsubmitted: bool,
    at: QueryState,
    replies: Seq<StackReply>,
    a: int,
    k: int,
    i: int,
)
    requires
        at.state.commits.len() == 0,
        complete_messages(replies),
        linear_histories(query_outcome(env, create_unsubmitted, at, replies).stacks),
        ({
            let end = query_outcome(env, create_unsubmitted, at, replies);
            &&& 0 <= a < end.stacks.len()
            &&& 0 <= k < end.stacks[a].len()
            &&& tracked_at(end.commits, end.stacks[a][k], i)
        }),
    ensures
        ({
            let context = query_context(env, create_unsubmitted, at.state);
            let end = query_outcome(env, create_unsubmitted, at, replies);
            end.commits[i].1.pr_base == context.base_along(end.stacks[a], k)
        }),
{
    let context = query_context(env, create_unsubmitted, at.state);
    let end = query_outcome(env, create_unsubmitted, at, replies);
    law_recorded_stacks_have_no_say(env, create_unsubmitted, at, replies);
    lemma_query_fits(env, create_unsubmitted, without_stacks(at), replies);
    assert(context.fits(end.stacks, end.commits[i]));
    let (b, l) = choose|b: int, l: int| context.fits_at(end.stacks, end.commits[i], b, l);
    lemma_same_history(end.stacks, a, k, b, l, end.commits[i].0);
    lemma_same_below(context, end.stacks[a], end.stacks[b], k);
}

/// A commit of a recorded stack is up to date after a query if and only if it has a pull request
/// with its title, neither it nor a commit below it was amended or is to be created, and the
/// structure of no stack that it is in changed. It is unsubmitted if and only if it has no pull
/// request. This holds where the histories of the commits are linear.
pub proof fn law_query_finds_what_is_up_to_date(
    env: StatusEnv,
    create_unsubmitted: bool,
    at: QueryState,
    replies: Seq<StackReply>,
    a: int,
    k: int,
    i: int,
)
    requires
        at.state.commits.len() == 0,
        complete_messages(replies),
        linear_histories(query_outcome(env, create_unsubmitted, at, replies).stacks),
        ({
            let end = query_outcome(env, create_unsubmitted, at, replies);
            &&& 0 <= a < end.stacks.len()
            &&& 0 <= k < end.stacks[a].len()
            &&& tracked_at(end.commits, end.stacks[a][k], i)
        }),
    ensures
        ({
            let context = query_context(env, create_unsubmitted, at.state);
            let end = query_outcome(env, create_unsubmitted, at, replies);
            let (oid, change) = end.commits[i];
            let status = change.commit_status.submit_status;
            &&& status == SubmitStatus::UpToDate <==> context.matches_along(
                end.stacks[a],
                k,
                change.title,
            ) && !context.in_changed_stack(end.stacks, oid)
            &&& status == SubmitStatus::Unsubmitted <==> context.pr(oid) is None
        }),
{
    let context = query_context(env, create_unsubmitted, at.state);
    let end = query_outcome(env, create_unsubmitted, at, replies);
    law_recorded_stacks_have_no_say(env, create_unsubmitted, at, replies);
    lemma_query_fits(env, create_unsubmitted, without_stacks(at), replies);
    assert(context.fits(end.stacks, end.commits[i]));
    let (b, l) = choose|b: int, l: int| context.fits_at(end.stacks, end.commits[i], b, l);
    lemma_same_history(end.stacks, a, k, b, l, end.commits[i].0);
    lemma_same_below(context, end.stacks[a], end.stacks[b], k + 1);
}

/// If the structure of a recorded stack changed, every commit of the stack that has a pull request
/// needs an update, and its pull request is to be updated.
pub proof fn law_query_outdates_changed_stacks(
    env: StatusEnv,
    create_unsubmitted: bool,
    at: QueryState,
    replies: Seq<StackReply>,
    a: int,
    i: int,
)
    requires
        at.state.commits.len() == 0,
        complete_messages(replies),
        ({
            let context = query_context(env, create_unsubmitted, at.state);
            let end = query_outcome(env, create_unsubmitted, at, replies);
            &&& 0 <= a < end.stacks.len()
            &&& context.structure_changed(end.stacks[a], end.stacks[a].len() as int)
            &&& 0 <= i < end.commits.len()
            &&& end.stacks[a].contains(end.commits[i].0)
            &&& context.pr(end.commits[i].0) is Some
        }),
    ensures
        ({
            let end = query_outcome(env, create_unsubmitted, at, replies);
            &&& end.commits[i].1.commit_status.submit_status == SubmitStatus::NeedsUpdate
            &&& end.commits[i].1.should_update_pr
        }),
{
    let context = query_context(env, create_unsubmitted, at.state);
    let end = query_outcome(env, create_unsubmitted, at, replies);
    law_recorded_stacks_have_no_say(env, create_unsubmitted, at, replies);
    lemma_query_fits(env, create_unsubmitted, without_stacks(at), replies);
    assert(context.fits(end.stacks, end.commits[i]));
    assert(context.in_changed_stack(end.stacks, end.commits[i].0));
    let (b, l) = choose|b: int, l: int| context.fits_at(end.stacks, end.commits[i], b, l);
    assert(context.fits_at(end.stacks, end.commits[i], b, l));
}

/// After a query, a commit that has a pull request is to be pushed if and only if the pull request
/// has another head than the commit. Its pull request is to be edited if its title is another one,
/// whether the commit was amended or not, and if its base is another one; and only if one of these
/// holds or the structure of a stack that the commit is in changed.
pub proof fn law_query_tells_what_differs(
    env: StatusEnv,
    create_unsubmitted: bool,
    at: QueryState,
    replies: Seq<StackReply>,
    i: int,
    pr: PullRequestInfoView,
)
    requires
        at.state.commits.len() == 0,
        complete_messages(replies),
        ({
            let context = query_context(env, create_unsubmitted, at.state);
            let end = query_outcome(env, create_unsubmitted, at, replies);
            &&& 0 <= i < end.commits.len()
            &&& context.pr(end.commits[i].0) == Some(pr)
        }),
    ensures
        ({
            let context = query_context(env, create_unsubmitted, at.state);
            let end = query_outcome(env, create_unsubmitted, at, replies);
            let (oid, change) = end.commits[i];
            let changed = context.in_changed_stack(end.stacks, oid);
            &&& change.should_push <==> pr.head_ref_oid != oid
            &&& pr.title != change.title ==> change.should_update_pr
            &&& RefOrOidView::Branch(pr.base_ref_name) != change.pr_base ==> change.should_update_pr
            &&& changed ==> change.should_update_pr
            &&& change.should_update_pr ==> pr.title != change.title || RefOrOidView::Branch(
                pr.base_ref_name,
            ) != change.pr_base || changed
            &&& change.should_push || change.should_update_pr
                ==> change.commit_status.submit_status == SubmitStatus::NeedsUpdate
            &&& change.commit_status.submit_status != SubmitStatus::Unsubmitted
        }),
{
    let context = query_context(env, create_unsubmitted, at.state);
    let end = query_outcome(env, create_unsubmitted, at, replies);
    let (oid, change) = end.commits[i];
    law_recorded_stacks_have_no_say(env, create_unsubmitted, at, replies);
    lemma_query_fits(env, create_unsubmitted, without_stacks(at), replies);
    assert(context.fits(end.stacks, end.commits[i]));
    let (a, k) = choose|a: int, k: int| context.fits_at(end.stacks, end.commits[i], a, k);
    assert(context.fits_at(end.stacks, end.commits[i], a, k));
    let stack = end.stacks[a];
    assert(stack.contains(oid));
    if RefOrOidView::Branch(pr.base_ref_name) != change.pr_base {
        assert(context.changes_structure(stack, k));
        assert(context.structure_changed(stack, stack.len() as int));
        assert(context.in_changed_stack(end.stacks, oid));
    }
    if pr.head_ref_oid != oid {
        assert(context.is_new(stack, k));
        assert(context.any_new(stack, k + 1));
    }
}

/// After a query, what is known of a commit that has a pull request is what the pull request says:
/// its URL, its number, its body and its branch. Of a commit that has none nothing of the kind is
/// known, and it is to be pushed and to get a pull request.
pub proof fn law_query_takes_pull_request_over(
    env: StatusEnv,
    create_unsubmitted: bool,
    at: QueryState,
    replies: Seq<StackReply>,
    i: int,
)
    requires
        at.state.commits.len() == 0,
        complete_messages(replies),
        0 <= i < query_outcome(env, create_unsubmitted, at, replies).commits.len(),
    ensures
        ({
            let context = query_context(env, create_unsubmitted, at.state);
            let (oid, change) = query_outcome(env, create_unsubmitted, at, replies).commits[i];
            let status = change.commit_status;
            &&& change.oid == oid
            &&& match context.pr(oid) {
                Some(pr) => {
                    &&& change.pr_url == Some(pr.url)
                    &&& change.pr_number == Some(pr.number)
                    &&& change.body == pr.body
                    &&& status.local_commit_name == Some(pr.head_ref_name)
                    &&& status.remote_commit_name == Some(pr.head_ref_name)
                    &&& status.remote_name == env.default_remote
                    &&& status.submit_status != SubmitStatus::Unsubmitted
                },
                None => {
                    &&& change.pr_url is None
                    &&& change.pr_number is None
                    &&& change.should_push
                    &&& change.should_update_pr
                    &&& status.local_commit_name is None
                    &&& status.remote_commit_name is None
                    &&& status.remote_name is None
                    &&& status.submit_status == SubmitStatus::Unsubmitted
                },
            }
        }),
{
    let context = query_context(env, create_unsubmitted, at.state);
    let end = query_outcome(env, create_unsubmitted, at, replies);
    law_recorded_stacks_have_no_say(env, create_unsubmitted, at, replies);
    lemma_query_fits(env, create_unsubmitted, without_stacks(at), replies);
    assert(context.fits(end.stacks, end.commits[i]));
    let (a, k) = choose|a: int, k: int| context.fits_at(end.stacks, end.commits[i], a, k);
    assert(context.fits_at(end.stacks, end.commits[i], a, k));
}

/// Whether every message is that of its commit.
pub open spec fn messages_belong(
    replies: Seq<StackReply>,
    message: spec_fn(NonZeroOid) -> CommitMessage,
) -> bool {
    forall|r: int, k: int|
        0 <= r < replies.len() && 0 <= k < replies[r].messages.len() ==> #[trigger]
            replies[r].messages[k] == message(replies[r].head_first.reverse()[k])
}

/// Whether what is tracked of a commit has the words of the commit: its summary as the title, and
/// its message as the body if it has no pull request.
pub open spec fn has_its_words(
    context: QueryContext,
    entry: (NonZeroOid, StackedChangeView),
    message: spec_fn(NonZeroOid) -> CommitMessage,
) -> bool {
    &&& entry.1.title == message(entry.0).summary
    &&& context.pr(entry.0) is None ==> entry.1.body == message(entry.0).message
}

proof fn lemma_query_words(
    env: StatusEnv,
    create_unsubmitted: bool,
    at: QueryState,
    replies: Seq<StackReply>,
    message: spec_fn(NonZeroOid) -> CommitMessage,
)
    requires
        is_blank(at),
        complete_messages(replies),
        messages_belong(replies, message),
    ensures
        ({
            let end = queried(env, create_unsubmitted, at, replies).state;
            forall|i: int|
                0 <= i < end.commits.len() ==> has_its_words(
                    query_context(env, create_unsubmitted, at.state),
                    #[trigger] end.commits[i],
                    message,
                )
        }),
    decreases replies.len(),
{
    if replies.len() > 0 {
        let context = query_context(env, create_unsubmitted, at.state);
        let front = replies.drop_last();
        let last = front.len() as int;
        let reply = replies[last];
        let mid = queried(env, create_unsubmitted, at, front);
        let end = queried(env, create_unsubmitted, at, replies).state;
        assert(complete_messages(front)) by {
            assert(forall|k: int| 0 <= k < front.len() ==> front[k] == replies[k]);
        }
        assert forall|r: int, k: int|
            0 <= r < front.len() && 0 <= k < front[r].messages.len() implies #[trigger]
            front[r].messages[k] == message(front[r].head_first.reverse()[k]) by {
            assert(front[r] == replies[r]);
            assert(replies[r].messages[k] == message(replies[r].head_first.reverse()[k]));
        }
        lemma_query_words(env, create_unsubmitted, at, front, message);
        lemma_query_tracks(env, create_unsubmitted, at, front);
        if next_head(mid.subgraphs).0 is Some {
            let stack = reply.head_first.reverse();
            lemma_stack_queried(context, mid, reply);
            assert forall|i: int| 0 <= i < end.commits.len() implies has_its_words(
                context,
                #[trigger] end.commits[i],
                message,
            ) by {
                if i < mid.state.commits.len() {
                    assert(end.commits[i] == context.after_stack(stack, mid.state.commits[i]));
                    assert(has_its_words(context, mid.state.commits[i], message));
                } else {
                    assert(context.is_tracked_after(stack, reply.messages, end.commits[i]));
                    let k = choose|k: int|
                        context.is_entry_after(stack, reply.messages, end.commits[i], k);
                    assert(replies[last].messages[k] == message(stack[k]));
                }
            }
        }
    }
}

/// After a query, the title of a commit is its summary, and a commit that has no pull request has
/// its message as the body.
pub proof fn law_query_keeps_words(
    env: StatusEnv,
    create_unsubmitted: bool,
    at: QueryState,
    replies: Seq<StackReply>,
    message: spec_fn(NonZeroOid) -> CommitMessage,
    i: int,
)
    requires
        at.state.commits.len() == 0,
        complete_messages(replies),
        messages_belong(replies, message),
        0 <= i < query_outcome(env, create_unsubmitted, at, replies).commits.len(),
    ensures
        has_its_words(
            query_context(env, create_unsubmitted, at.state),
            query_outcome(env, create_unsubmitted, at, replies).commits[i],
            message,
        ),
{
    law_recorded_stacks_have_no_say(env, create_unsubmitted, at, replies);
    lemma_query_words(env, create_unsubmitted, without_stacks(at), replies, message);
}

/// Where the pull request of a commit has another base than the one that is tracked for it, or
/// where a commit without a pull request is going to get one, the structure of every stack that
/// the commit is in changed. This holds where the histories of the commits are linear.
pub proof fn law_query_notices_other_base(
    env: StatusEnv,
    create_unsubmitted: bool,
    at: QueryState,
    replies: Seq<StackReply>,
    a: int,
    k: int,
    i: int,
)
    requires
        at.state.commits.len() == 0,
        complete_messages(replies),
        linear_histories(query_outcome(env, create_unsubmitted, at, replies).stacks),
        ({
            let context = query_context(env, create_unsubmitted, at.state);
            let end = query_outcome(env, create_unsubmitted, at, replies);
            &&& 0 <= a < end.stacks.len()
            &&& 0 <= k < end.stacks[a].len()
            &&& tracked_at(end.commits, end.stacks[a][k], i)
            &&& match context.pr(end.commits[i].0) {
                Some(pr) => RefOrOidView::Branch(pr.base_ref_name) != end.commits[i].1.pr_base,
                None => create_unsubmitted,
            }
        }),
    ensures
        ({
            let context = query_context(env, create_unsubmitted, at.state);
            let end = query_outcome(env, create_unsubmitted, at, replies);
            context.structure_changed(end.stacks[a], end.stacks[a].len() as int)
        }),
{
    let context = query_context(env, create_unsubmitted, at.state);
    let end = query_outcome(env, create_unsubmitted, at, replies);
    law_query_bases_along_stacks(env, create_unsubmitted, at, replies, a, k, i);
    assert(context.changes_structure(end.stacks[a], k));
}

/// Whether the commits of every recorded stack are tracked in the order of the stack.
pub open spec fn tracked_in_order(state: StackStateView) -> bool {
    forall|a: int, k: int, l: int, i: int, j: int|
        #![trigger tracked_at(state.commits, state.stacks[a][k], i), tracked_at(state.commits, state.stacks[a][l], j)]
        0 <= a < state.stacks.len() && 0 <= k < l < state.stacks[a].len() && tracked_at(
            state.commits,
            state.stacks[a][k],
            i,
        ) && tracked_at(state.commits, state.stacks[a][l], j) ==> i < j
}

/// Where a commit is tracked, if none is tracked twice.
proof fn lemma_tracked_once(state: StackStateView, oid: NonZeroOid, i: int, j: int)
    requires
        state.well_formed(),
        tracked_at(state.commits, oid, i),
        tracked_at(state.commits, oid, j),
    ensures
        i == j,
{
}

proof fn lemma_stack_in_order(context: QueryContext, at: QueryState, reply: StackReply)
    requires
        next_head(at.subgraphs).0 is Some,
        at.state.oids_to_branchless_refs == context.oids_to_branchless_refs,
        reply.messages.len() == reply.head_first.len(),
        at.state.well_formed(),
        tracks_its_stacks(at.state),
        tracked_in_order(at.state),
        linear_histories(
            stack_queried(context.env, context.create_unsubmitted, at, reply).state.stacks,
        ),
    ensures
        tracked_in_order(stack_queried(context.env, context.create_unsubmitted, at, reply).state),
{
    let env = context.env;
    let create_unsubmitted = context.create_unsubmitted;
    let end = stack_queried(env, create_unsubmitted, at, reply).state;
    let stack = reply.head_first.reverse();
    let n = at.state.stacks.len() as int;
    let before = at.state.commits;
    lemma_stack_queried(context, at, reply);
    assert forall|m: int| 0 <= m < before.len() implies (#[trigger] end.commits[m]).0
        == before[m].0 by {
        assert(end.commits[m] == context.after_stack(stack, before[m]));
    }
    assert forall|a: int, k: int, l: int, i: int, j: int|
        #![trigger tracked_at(end.commits, end.stacks[a][k], i), tracked_at(end.commits, end.stacks[a][l], j)]
        0 <= a < end.stacks.len() && 0 <= k < l < end.stacks[a].len() && tracked_at(
            end.commits,
            end.stacks[a][k],
            i,
        ) && tracked_at(end.commits, end.stacks[a][l], j) implies i < j by {
        let lower = end.stacks[a][k];
        let upper = end.stacks[a][l];
        if a < n || j < before.len() {
            // The upper commit was tracked before, and so was the lower one.
            if a == n {
                assert(in_stacks(at.state.stacks, before[j].0));
            }
            let (b, m) = if a < n {
                (a, l)
            } else {
                choose|b: int, m: int| stands_at(at.state.stacks, b, m, before[j].0)
            };
            let other = at.state.stacks[b];
            assert(end.stacks[b] == other);
            assert(end.commits[j].0 == upper);
            assert(stands_at(end.stacks, b, m, upper));
            assert(stands_at(end.stacks, a, l, upper));
            lemma_same_history(end.stacks, a, l, b, m, upper);
            assert(end.stacks[a][k] == end.stacks[b][k]);
            assert(is_tracked(before, other[k]));
            assert(is_tracked(before, other[l]));
            let p = choose|p: int| tracked_at(before, other[k], p);
            let q = choose|q: int| tracked_at(before, other[l], q);
            assert(end.commits[p].0 == before[p].0);
            assert(end.commits[q].0 == before[q].0);
            lemma_tracked_once(end, lower, i, p);
            lemma_tracked_once(end, upper, j, q);
            assert(tracked_at(before, at.state.stacks[b][k], p));
            assert(tracked_at(before, at.state.stacks[b][l], q));
        } else if i >= before.len() {
            lemma_new_in_order(context, at, reply, k, l, i, j);
        }
    }
}

/// A commit that is tracked behind those that were tracked before is new.
proof fn lemma_untracked_before(
    context: QueryContext,
    at: QueryState,
    reply: StackReply,
    oid: NonZeroOid,
    i: int,
)
    requires
        next_head(at.subgraphs).0 is Some,
        at.state.oids_to_branchless_refs == context.oids_to_branchless_refs,
        reply.messages.len() == reply.head_first.len(),
        at.state.well_formed(),
        at.state.commits.len() <= i,
        tracked_at(
            stack_queried(context.env, context.create_unsubmitted, at, reply).state.commits,
            oid,
            i,
        ),
    ensures
        !is_tracked(at.state.commits, oid),
{
    let end = stack_queried(context.env, context.create_unsubmitted, at, reply).state;
    let stack = reply.head_first.reverse();
    lemma_stack_queried(context, at, reply);
    if is_tracked(at.state.commits, oid) {
        let j = choose|j: int| tracked_at(at.state.commits, oid, j);
        assert(end.commits[j] == context.after_stack(stack, at.state.commits[j]));
        lemma_tracked_once(end, oid, i, j);
    }
}

proof fn lemma_new_in_order(
    context: QueryContext,
    at: QueryState,
    reply: StackReply,
    k: int,
    l: int,
    i: int,
    j: int,
)
    requires
        next_head(at.subgraphs).0 is Some,
        at.state.oids_to_branchless_refs == context.oids_to_branchless_refs,
        reply.messages.len() == reply.head_first.len(),
        at.state.well_formed(),
        linear_histories(
            stack_queried(context.env, context.create_unsubmitted, at, reply).state.stacks,
        ),
        0 <= k < l < reply.head_first.len(),
        at.state.commits.len() <= i,
        at.state.commits.len() <= j,
        tracked_at(
            stack_queried(context.env, context.create_unsubmitted, at, reply).state.commits,
            reply.head_first.reverse()[k],
            i,
        ),
        tracked_at(
            stack_queried(context.env, context.create_unsubmitted, at, reply).state.commits,
            reply.head_first.reverse()[l],
            j,
        ),
    ensures
        i < j,
{
    let env = context.env;
    let create_unsubmitted = context.create_unsubmitted;
    let stack = reply.head_first.reverse();
    let end = stack_queried(env, create_unsubmitted, at, reply).state;
    let n = at.state.stacks.len() as int;
    let start = WalkState {
        state: at.state,
        subgraphs: next_head(at.subgraphs).1,
        walk: walk_start(env, reply.head_first),
    };
    let over = walked(env, create_unsubmitted, start, reply.messages);
    lemma_stack_queried(context, at, reply);
    law_walk_end_outdates_whole_stack(over.state, over.walk);
    assert(end.stacks[n] == stack);
    assert(stack.no_duplicates()) by {
        assert forall|p: int, q: int|
            0 <= p < stack.len() && 0 <= q < stack.len() && p != q implies stack[p] != stack[q] by {
            if stack[p] == stack[q] {
                lemma_same_history(end.stacks, n, p, n, q, stack[p]);
            }
        }
    }
    lemma_untracked_before(context, at, reply, stack[k], i);
    lemma_untracked_before(context, at, reply, stack[l], j);
    assert(over.state.commits[i].0 == end.commits[i].0);
    assert(over.state.commits[j].0 == end.commits[j].0);
    assert(tracked_at(over.state.commits, start.walk.stack[k], i));
    assert(tracked_at(over.state.commits, start.walk.stack[l], j));
    law_new_commits_in_topological_order(
        env,
        create_unsubmitted,
        start,
        reply.messages,
        k,
        l,
        i,
        j,
    );
}

proof fn lemma_query_in_order(
    env: StatusEnv,
    create_unsubmitted: bool,
    at: QueryState,
    replies: Seq<StackReply>,
)
    requires
        is_blank(at),
        complete_messages(replies),
        linear_histories(queried(env, create_unsubmitted, at, replies).state.stacks),
    ensures
        tracked_in_order(queried(env, create_unsubmitted, at, replies).state),
    decreases replies.len(),
{
    if replies.len() > 0 {
        let front = replies.drop_last();
        let mid = queried(env, create_unsubmitted, at, front);
        let end = queried(env, create_unsubmitted, at, replies);
        let reply = replies[replies.len() - 1];
        assert(complete_messages(front)) by {
            assert(forall|k: int| 0 <= k < front.len() ==> front[k] == replies[k]);
        }
        lemma_query_tracks(env, create_unsubmitted, at, front);
        law_one_stack_per_head(env, create_unsubmitted, mid, reply);
        assert(linear_histories(mid.state.stacks)) by {
            assert forall|a: int, b: int, k: int, l: int|
                0 <= a < mid.state.stacks.len() && 0 <= b < mid.state.stacks.len() && 0 <= k
                    < mid.state.stacks[a].len() && 0 <= l < mid.state.stacks[b].len()
                    && #[trigger] mid.state.stacks[a][k] == #[trigger] mid.state.stacks[b][l]
                implies mid.state.stacks[a].take(k + 1) == mid.state.stacks[b].take(l + 1) by {
                assert(end.state.stacks[a] == mid.state.stacks[a]);
                assert(end.state.stacks[b] == mid.state.stacks[b]);
                assert(end.state.stacks[a][k] == end.state.stacks[b][l]);
            }
        }
        lemma_query_in_order(env, create_unsubmitted, at, front);
        if next_head(mid.subgraphs).0 is Some {
            let context = query_context(env, create_unsubmitted, at.state);
            lemma_stack_in_order(context, mid, reply);
        }
    }
}

/// A query tracks commits in topological order: along every stack that it records, a commit is
/// tracked before those on top of it. This holds where the histories of the commits are linear.
pub proof fn law_query_in_topological_order(
    env: StatusEnv,
    create_unsubmitted: bool,
    at: QueryState,
    replies: Seq<StackReply>,
)
    requires
        at.state.commits.len() == 0,
        complete_messages(replies),
        linear_histories(query_outcome(env, create_unsubmitted, at, replies).stacks),
    ensures
        tracked_in_order(query_outcome(env, create_unsubmitted, at, replies)),
{
    law_recorded_stacks_have_no_say(env, create_unsubmitted, at, replies);
    lemma_query_in_order(env, create_unsubmitted, without_stacks(at), replies);
}

} // verus!
