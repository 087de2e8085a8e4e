//! What holds of every table of stacks.

use crate::formatter::{
    after_section, before_section, data_cells, insert_by_length, list_item, list_items,
    longest_first, pr_body, section_text, stack_table, stacks_with, table_cell, tracked_changes,
    PR_BODY_SECTION_END, PR_BODY_SECTION_START,
};
use crate::text::{contains_text, occurs_at};
use crate::types::{tracked_change, CommitsView, NonZeroOid, StackStateView, StackedChangeView};
use vstd::prelude::*;

verus! {

/// Whether no stack comes before a longer one.
pub open spec fn lengths_descend(stacks: Seq<Seq<NonZeroOid>>) -> bool {
    forall|i: int, j: int|
        0 <= i < j < stacks.len() ==> (#[trigger] stacks[i]).len() >= (#[trigger] stacks[j]).len()
}

/// The stacks of a given length, in their order.
pub open spec fn of_length(stacks: Seq<Seq<NonZeroOid>>, length: nat) -> Seq<Seq<NonZeroOid>> {
    stacks.filter(|stack: Seq<NonZeroOid>| stack.len() == length)
}

proof fn lemma_of_length_push(stacks: Seq<Seq<NonZeroOid>>, stack: Seq<NonZeroOid>, length: nat)
    ensures
        of_length(stacks.push(stack), length) == if stack.len() == length {
            of_length(stacks, length).push(stack)
        } else {
            of_length(stacks, length)
        },
{
    reveal(Seq::filter);
    assert(stacks.push(stack).drop_last() =~= stacks);
}

proof fn lemma_insert_by_length(
    sorted: Seq<Seq<NonZeroOid>>,
    stack: Seq<NonZeroOid>,
    length: nat,
)
    requires
        lengths_descend(sorted),
    ensures
        ({
            let after = insert_by_length(sorted, stack);
            &&& lengths_descend(after)
            &&& after.to_multiset() == sorted.to_multiset().insert(stack)
            &&& of_length(after, length) == of_length(sorted.push(stack), length)
            &&& forall|i: int|
                0 <= i < after.len() ==> (#[trigger] after[i]) == stack || sorted.contains(after[i])
        }),
    decreases sorted.len(),
{
    broadcast use vstd::seq_lib::group_to_multiset_ensures;

    let after = insert_by_length(sorted, stack);
    if sorted.len() > 0 && sorted.last().len() < stack.len() {
        let front = sorted.drop_last();
        let last = sorted.last();
        lemma_insert_by_length(front, stack, length);
        let inserted = insert_by_length(front, stack);
        assert(after == inserted.push(last));
        assert(front.push(last) =~= sorted);
        assert(after.to_multiset() =~= sorted.to_multiset().insert(stack));
        lemma_of_length_push(inserted, last, length);
        lemma_of_length_push(front, stack, length);
        lemma_of_length_push(front, last, length);
        lemma_of_length_push(sorted, stack, length);
        assert forall|i: int| 0 <= i < after.len() implies (#[trigger] after[i]) == stack
            || sorted.contains(after[i]) by {
            if i < inserted.len() {
                assert(after[i] == inserted[i]);
                if inserted[i] != stack {
                    let k = choose|k: int| 0 <= k < front.len() && front[k] == inserted[i];
                    assert(sorted[k] == after[i]);
                }
            } else {
                assert(sorted[sorted.len() - 1] == after[i]);
            }
        }
        assert forall|i: int, j: int| 0 <= i < j < after.len() implies (
        #[trigger] after[i]).len() >= (#[trigger] after[j]).len() by {
            assert(after[i] == inserted[i]);
            if j < inserted.len() {
                assert(after[j] == inserted[j]);
            } else if inserted[i] != stack {
                let k = choose|k: int| 0 <= k < front.len() && front[k] == inserted[i];
                assert(sorted[k].len() >= sorted[sorted.len() - 1].len());
            }
        }
    } else {
        assert forall|i: int| 0 <= i < after.len() implies (#[trigger] after[i]) == stack
            || sorted.contains(after[i]) by {
            if i < sorted.len() {
                assert(sorted[i] == after[i]);
            }
        }
        assert forall|i: int, j: int| 0 <= i < j < after.len() implies (
        #[trigger] after[i]).len() >= (#[trigger] after[j]).len() by {
            if j == sorted.len() {
                assert(sorted[i].len() >= sorted[sorted.len() - 1].len());
            }
        }
    }
}

/// The columns of a table are the stacks, each as often as it is recorded, from the longest to the
/// shortest. Stacks of the same length keep the order in which they were recorded.
pub proof fn law_longest_stack_first(stacks: Seq<Seq<NonZeroOid>>, length: nat)
    ensures
        lengths_descend(longest_first(stacks)),
        longest_first(stacks).to_multiset() == stacks.to_multiset(),
        of_length(longest_first(stacks), length) == of_length(stacks, length),
    decreases stacks.len(),
{
    broadcast use vstd::seq_lib::group_to_multiset_ensures;

    if stacks.len() > 0 {
        let front = stacks.drop_last();
        law_longest_stack_first(front, length);
        lemma_insert_by_length(longest_first(front), stacks.last(), length);
        assert(front.push(stacks.last()) =~= stacks);
        lemma_of_length_push(longest_first(front), stacks.last(), length);
        lemma_of_length_push(front, stacks.last(), length);
    }
}

proof fn lemma_contains_in_between(
    front: Seq<char>,
    text: Seq<char>,
    back: Seq<char>,
    pattern: Seq<char>,
)
    requires
        contains_text(text, pattern),
    ensures
        contains_text(front + text + back, pattern),
{
    let i = choose|i: int| occurs_at(text, pattern, i);
    let whole = front + text + back;
    let at = front.len() + i;
    assert(whole.subrange(at, at + pattern.len()) =~= text.subrange(i, i + pattern.len()));
    assert(occurs_at(whole, pattern, at));
}

proof fn lemma_contains_itself(text: Seq<char>)
    ensures
        contains_text(text, text),
{
    assert(text.subrange(0, text.len() as int) =~= text);
    assert(occurs_at(text, text, 0));
}

proof fn lemma_item_in_list(stack: Seq<StackedChangeView>, oid: NonZeroOid, k: int)
    requires
        0 <= k < stack.len(),
    ensures
        contains_text(list_items(stack, oid), list_item(stack[k], oid)),
    decreases stack.len(),
{
    let front = list_items(stack.drop_last(), oid);
    let last = list_item(stack.last(), oid);
    if k < stack.len() - 1 {
        lemma_item_in_list(stack.drop_last(), oid, k);
        lemma_contains_in_between(Seq::empty(), front, last, list_item(stack[k], oid));
        assert(Seq::empty() + front + last =~= list_items(stack, oid));
    } else {
        lemma_contains_itself(last);
        lemma_contains_in_between(front, last, Seq::empty(), last);
        assert(front + last + Seq::empty() =~= list_items(stack, oid));
    }
}

proof fn lemma_tracked_in_stack(commits: CommitsView, stack: Seq<NonZeroOid>, k: int)
    requires
        0 <= k < stack.len(),
        tracked_change(commits, stack[k]) is Some,
    ensures
        tracked_changes(commits, stack).contains(tracked_change(commits, stack[k])->0),
    decreases stack.len(),
{
    let change = tracked_change(commits, stack[k])->0;
    let front = tracked_changes(commits, stack.drop_last());
    let all = tracked_changes(commits, stack);
    if k < stack.len() - 1 {
        lemma_tracked_in_stack(commits, stack.drop_last(), k);
        let m = choose|m: int| 0 <= m < front.len() && front[m] == change;
        assert(all[m] == change);
    } else {
        assert(all[front.len() as int] == change);
    }
}

proof fn lemma_cell_in_row(
    commits: CommitsView,
    stacks: Seq<Seq<NonZeroOid>>,
    oid: NonZeroOid,
    k: int,
)
    requires
        0 <= k < stacks.len(),
    ensures
        contains_text(
            data_cells(commits, stacks, oid),
            table_cell(tracked_changes(commits, stacks[k]), oid),
        ),
    decreases stacks.len(),
{
    let front = data_cells(commits, stacks.drop_last(), oid);
    let last = table_cell(tracked_changes(commits, stacks.last()), oid);
    let cell = table_cell(tracked_changes(commits, stacks[k]), oid);
    if k < stacks.len() - 1 {
        lemma_cell_in_row(commits, stacks.drop_last(), oid, k);
        lemma_contains_in_between(Seq::empty(), front, last + "|"@, cell);
        assert(Seq::empty() + front + (last + "|"@) =~= data_cells(commits, stacks, oid));
    } else {
        lemma_contains_itself(last);
        lemma_contains_in_between(front, last, "|"@, cell);
    }
}

proof fn lemma_contains_transitive(outer: Seq<char>, middle: Seq<char>, inner: Seq<char>)
    requires
        contains_text(outer, middle),
        contains_text(middle, inner),
    ensures
        contains_text(outer, inner),
{
    let i = choose|i: int| occurs_at(outer, middle, i);
    lemma_contains_in_between(
        outer.take(i),
        middle,
        outer.skip(i + middle.len()),
        inner,
    );
    assert(outer.take(i) + middle + outer.skip(i + middle.len()) =~= outer) by {
        assert(outer.subrange(i, i + middle.len()) == middle);
    }
}

/// The body of a pull request links to every tracked commit of every stack that the commit is in,
/// itself included.
pub proof fn law_body_links_to_stacks(
    state: StackStateView,
    oid: NonZeroOid,
    expand_details: bool,
    stack: Seq<NonZeroOid>,
    other: NonZeroOid,
)
    requires
        tracked_change(state.commits, oid) is Some,
        state.stacks.contains(stack),
        stack.contains(oid),
        stack.contains(other),
        tracked_change(state.commits, other) is Some,
    ensures
        contains_text(
            pr_body(state, oid, expand_details),
            list_item(tracked_change(state.commits, other)->0, oid),
        ),
{
    broadcast use vstd::seq_lib::group_to_multiset_ensures;

    let item = list_item(tracked_change(state.commits, other)->0, oid);
    let relevant = stacks_with(state.stacks, oid);
    let columns = longest_first(relevant);
    let pred = |stack: Seq<NonZeroOid>| stack.contains(oid);
    let s = choose|s: int| 0 <= s < state.stacks.len() && state.stacks[s] == stack;
    assert(pred(state.stacks[s]));
    state.stacks.lemma_filter_contains(pred, s);
    assert(relevant.contains(stack));
    law_longest_stack_first(relevant, 0);
    assert(columns.to_multiset().count(stack) > 0);
    assert(columns.contains(stack));
    let column = choose|c: int| 0 <= c < columns.len() && columns[c] == stack;

    let k = choose|k: int| 0 <= k < stack.len() && stack[k] == other;
    lemma_tracked_in_stack(state.commits, stack, k);
    let changes = tracked_changes(state.commits, stack);
    let m = choose|m: int|
        0 <= m < changes.len() && changes[m] == tracked_change(state.commits, other)->0;
    lemma_item_in_list(changes, oid, m);
    let cell = table_cell(changes, oid);
    lemma_contains_in_between("<ul>"@, list_items(changes, oid), "</ul>"@, item);
    let row = data_cells(state.commits, columns, oid);
    lemma_cell_in_row(state.commits, columns, oid, column);
    lemma_contains_transitive(row, cell, item);
    let table = stack_table(state, oid);
    let table_head = table.take(table.len() - row.len());
    assert(table =~= table_head + row + Seq::empty());
    lemma_contains_in_between(table_head, row, Seq::empty(), item);
    let section = section_text(table, expand_details);
    let section_head = section.take(section.len() - table.len() - "\n\n</details>\n"@.len());
    assert(section =~= section_head + table + "\n\n</details>\n"@);
    lemma_contains_in_between(section_head, table, "\n\n</details>\n"@, item);
    let body = pr_body(state, oid, expand_details);
    let change_body = tracked_change(state.commits, oid)->0.body;
    let front = before_section(change_body) + PR_BODY_SECTION_START@;
    let back = PR_BODY_SECTION_END@ + after_section(change_body);
    assert(body =~= front + section + back);
    lemma_contains_in_between(front, section, back, item);
}

/// A commit has a table if and only if it is in a stack.
pub proof fn law_table_for_every_stacked_commit(state: StackStateView, oid: NonZeroOid)
    ensures
        stack_table(state, oid).len() > 0 <==> exists|i: int|
            0 <= i < state.stacks.len() && (#[trigger] state.stacks[i]).contains(oid),
{
    broadcast use vstd::seq_lib::group_to_multiset_ensures;

    let relevant = stacks_with(state.stacks, oid);
    let columns = longest_first(relevant);
    let pred = |stack: Seq<NonZeroOid>| stack.contains(oid);
    law_longest_stack_first(relevant, 0);
    assert(columns.len() == columns.to_multiset().len());
    assert(relevant.len() == relevant.to_multiset().len());
    if exists|i: int| 0 <= i < state.stacks.len() && (#[trigger] state.stacks[i]).contains(oid) {
        let i = choose|i: int|
            0 <= i < state.stacks.len() && (#[trigger] state.stacks[i]).contains(oid);
        assert(pred(state.stacks[i]));
        state.stacks.lemma_filter_contains(pred, i);
        assert(relevant.contains(state.stacks[i]));
        assert(relevant.len() > 0);
        reveal_strlit("|");
    }
    if relevant.len() > 0 {
        state.stacks.lemma_filter_pred(pred, 0);
        assert(relevant.contains(relevant[0]));
        state.stacks.lemma_filter_contains_rev(pred, relevant[0]);
        let i = choose|i: int| 0 <= i < state.stacks.len() && state.stacks[i] == relevant[0];
        assert(state.stacks[i].contains(oid));
    }
}

} // verus!
