//! What a stack section shows, written out.

use crate::formatter::{
    data_cells, header_cells, header_rule, list_item, list_items, longest_first, pr_body,
    stack_table, stacks_with, table_cell, tracked_changes,
};
use crate::lookup_laws::{ids_differ, law_change_is_found_by_id};
use crate::table_laws::law_body_links_to_stacks;
use crate::text::{contains_text, decimal, occurs_at};
use crate::text_laws::law_pattern_is_found_where_it_stands_first;
use crate::types::{CommitsView, NonZeroOid, StackStateView, StackedChangeView};
use vstd::prelude::*;

verus! {

/// The cell of a stack of one change is a list of one link: the URL of its pull request, or a
/// placeholder if it has none, behind an arrow if and only if the change is the current one. Nothing
/// else that is known of the change has a say.
pub proof fn law_cell_links_to_pull_request(
    change: StackedChangeView,
    current_oid: NonZeroOid,
    url: Seq<char>,
)
    ensures
        change.pr_url == Some(url) && change.oid != current_oid ==> table_cell(
            seq![change],
            current_oid,
        ) == "<ul><li>"@ + url + "</li></ul>"@,
        change.pr_url == Some(url) && change.oid == current_oid ==> table_cell(
            seq![change],
            current_oid,
        ) == "<ul><li>➡️"@ + url + "</li></ul>"@,
        change.pr_url is None && change.oid != current_oid ==> table_cell(
            seq![change],
            current_oid,
        ) == "<ul><li><unknown></li></ul>"@,
        change.pr_url is None && change.oid == current_oid ==> table_cell(
            seq![change],
            current_oid,
        ) == "<ul><li>➡️<unknown></li></ul>"@,
{
    reveal_literals();
    let stack = seq![change];
    assert(stack.drop_last() =~= Seq::<StackedChangeView>::empty());
    assert(list_items(stack.drop_last(), current_oid) =~= Seq::<char>::empty());
    let cell = table_cell(stack, current_oid);
    assert(list_items(stack, current_oid) =~= list_item(change, current_oid));
    if change.pr_url == Some(url) {
        if change.oid != current_oid {
            assert(cell =~= "<ul><li>"@ + url + "</li></ul>"@);
        } else {
            assert(cell =~= "<ul><li>➡️"@ + url + "</li></ul>"@);
        }
    }
    if change.pr_url is None {
        if change.oid != current_oid {
            assert(cell =~= "<ul><li><unknown></li></ul>"@);
        } else {
            assert(cell =~= "<ul><li>➡️<unknown></li></ul>"@);
        }
    }
}

proof fn reveal_literals()
    ensures
        "<ul><li>"@ =~= "<ul>"@ + "<li>"@,
        "</li></ul>"@ =~= "</li>"@ + "</ul>"@,
        "<ul><li>➡️"@ =~= "<ul>"@ + "<li>"@ + "➡️"@,
        "<ul><li><unknown></li></ul>"@ =~= "<ul>"@ + "<li>"@ + "<unknown>"@ + "</li>"@ + "</ul>"@,
        "<ul><li>➡️<unknown></li></ul>"@ =~= "<ul>"@ + "<li>"@ + "➡️"@ + "<unknown>"@ + "</li>"@
            + "</ul>"@,
        "<ul></ul>"@ =~= "<ul>"@ + "</ul>"@,
        "<ul>"@.len() == 4,
        "</ul>"@.len() == 5,
        "<li>"@.len() == 4,
{
    reveal_strlit("<ul><li>");
    reveal_strlit("</li></ul>");
    reveal_strlit("<ul><li>➡️");
    reveal_strlit("<ul><li><unknown></li></ul>");
    reveal_strlit("<ul><li>➡️<unknown></li></ul>");
    reveal_strlit("<ul></ul>");
    reveal_strlit("<ul>");
    reveal_strlit("</ul>");
    reveal_strlit("<li>");
    reveal_strlit("</li>");
    reveal_strlit("➡️");
    reveal_strlit("<unknown>");
}

/// The cell of a stack shows the links of all its changes in their order: one more change adds its
/// own link behind the others.
pub proof fn law_cell_shows_every_change(
    stack: Seq<StackedChangeView>,
    change: StackedChangeView,
    current_oid: NonZeroOid,
)
    ensures
        table_cell(Seq::empty(), current_oid) == "<ul></ul>"@,
        ({
            let cell = table_cell(stack, current_oid);
            let single = table_cell(seq![change], current_oid);
            table_cell(stack.push(change), current_oid) == cell.take(cell.len() - 5) + single.skip(
                4,
            )
        }),
{
    reveal_literals();
    assert(list_items(Seq::empty(), current_oid) =~= Seq::<char>::empty());
    assert(table_cell(Seq::empty(), current_oid) =~= "<ul></ul>"@);
    let cell = table_cell(stack, current_oid);
    let single = table_cell(seq![change], current_oid);
    assert(stack.push(change).drop_last() =~= stack);
    assert(seq![change].drop_last() =~= Seq::<StackedChangeView>::empty());
    let item = list_item(change, current_oid);
    assert(list_items(seq![change], current_oid) =~= item);
    assert(single.skip(4) =~= item + "</ul>"@);
    assert(cell.take(cell.len() - 5) =~= "<ul>"@ + list_items(stack, current_oid));
    assert(table_cell(stack.push(change), current_oid) =~= cell.take(cell.len() - 5) + single.skip(
        4,
    ));
}

/// The changes of a stack are what is tracked of its commits, in the order of the stack. Commits
/// that are not tracked are left out.
pub proof fn law_stack_shows_tracked_commits(
    commits: CommitsView,
    stack: Seq<NonZeroOid>,
    oid: NonZeroOid,
    i: int,
)
    requires
        ids_differ(commits),
    ensures
        tracked_changes(commits, Seq::empty()) == Seq::<StackedChangeView>::empty(),
        0 <= i < commits.len() && commits[i].0 == oid ==> tracked_changes(commits, stack.push(oid))
            == tracked_changes(commits, stack).push(commits[i].1),
        (forall|j: int| 0 <= j < commits.len() ==> (#[trigger] commits[j]).0 != oid)
            ==> tracked_changes(commits, stack.push(oid)) == tracked_changes(commits, stack),
{
    assert(stack.push(oid).drop_last() =~= stack);
    law_change_is_found_by_id(commits, oid, i);
}

/// Of one more stack a commit is shown in it if and only if it is in it.
pub proof fn law_stacks_of_commit(
    stacks: Seq<Seq<NonZeroOid>>,
    stack: Seq<NonZeroOid>,
    oid: NonZeroOid,
)
    ensures
        stacks_with(Seq::empty(), oid) == Seq::<Seq<NonZeroOid>>::empty(),
        stack.contains(oid) ==> stacks_with(stacks.push(stack), oid) == stacks_with(
            stacks,
            oid,
        ).push(stack),
        !stack.contains(oid) ==> stacks_with(stacks.push(stack), oid) == stacks_with(stacks, oid),
{
    reveal(Seq::filter);
    assert(stacks.push(stack).drop_last() =~= stacks);
}

/// The table has three lines: a header that numbers the stacks from one on, a rule, and one cell for
/// each stack, each between bars. One more stack is one more column. A commit that is in no stack
/// has no table.
pub proof fn law_table_has_a_column_for_each_stack(
    state: StackStateView,
    oid: NonZeroOid,
    count: int,
    stacks: Seq<Seq<NonZeroOid>>,
    stack: Seq<NonZeroOid>,
)
    requires
        0 <= count,
    ensures
        header_cells(0) == Seq::<char>::empty(),
        header_cells(count + 1) == header_cells(count) + " Stack "@ + decimal(count + 1) + " |"@,
        header_rule(0) == Seq::<char>::empty(),
        header_rule(count + 1) == header_rule(count) + "-|"@,
        data_cells(state.commits, Seq::empty(), oid) == Seq::<char>::empty(),
        data_cells(state.commits, stacks.push(stack), oid) == data_cells(
            state.commits,
            stacks,
            oid,
        ) + table_cell(tracked_changes(state.commits, stack), oid) + "|"@,
        ({
            let columns = longest_first(stacks_with(state.stacks, oid));
            let n = columns.len() as int;
            if n == 0 {
                stack_table(state, oid) == Seq::<char>::empty()
            } else {
                stack_table(state, oid) == "|"@ + header_cells(n) + "\n|"@ + header_rule(n)
                    + "\n|"@ + data_cells(state.commits, columns, oid)
            }
        }),
{
    reveal_strlit("\n|");
    reveal_strlit("\n");
    reveal_strlit("|");
    assert(stacks.push(stack).drop_last() =~= stacks);
    let columns = longest_first(stacks_with(state.stacks, oid));
    let n = columns.len() as int;
    if n > 0 {
        assert("\n|"@ =~= "\n"@ + "|"@);
        assert(stack_table(state, oid) =~= "|"@ + header_cells(n) + "\n|"@ + header_rule(n)
            + "\n|"@ + data_cells(state.commits, columns, oid));
    }
}

/// The table of a commit that is in one stack alone, written out.
pub proof fn law_table_of_single_stack(
    state: StackStateView,
    oid: NonZeroOid,
    stack: Seq<NonZeroOid>,
)
    requires
        state.stacks == seq![stack],
        stack.contains(oid),
    ensures
        stack_table(state, oid) == "| Stack 1 |\n|-|\n|"@ + table_cell(
            tracked_changes(state.commits, stack),
            oid,
        ) + "|"@,
{
    let none = Seq::<Seq<NonZeroOid>>::empty();
    assert(none.push(stack) =~= state.stacks);
    law_stacks_of_commit(none, stack, oid);
    let relevant = stacks_with(state.stacks, oid);
    let columns = longest_first(relevant);
    assert(relevant =~= seq![stack]);
    assert(relevant.drop_last() =~= none);
    assert(longest_first(none) == none);
    assert(columns =~= seq![stack]);
    law_table_has_a_column_for_each_stack(state, oid, 0, none, stack);
    reveal_strlit("| Stack 1 |\n|-|\n|");
    reveal_strlit(" Stack ");
    reveal_strlit(" |");
    reveal_strlit("-|");
    reveal_strlit("\n|");
    reveal_strlit("|");
    assert(decimal(1) =~= seq!['1']);
    assert(none.push(stack) =~= columns);
    assert(stack_table(state, oid) =~= "| Stack 1 |\n|-|\n|"@ + table_cell(
        tracked_changes(state.commits, stack),
        oid,
    ) + "|"@);
}

/// Whether a text stands in another one.
pub open spec fn shows(text: Seq<char>, part: Seq<char>) -> bool {
    exists|p: int|
        0 <= p && p + part.len() <= text.len() && #[trigger] text.subrange(p, p + part.len())
            == part
}

/// The body of a pull request holds the URL of every tracked commit that has one, of every stack
/// that its own commit is in, as an item of a list. The one of its own commit stands behind an
/// arrow. Nothing else that is known of these commits has a say.
pub proof fn law_body_shows_urls_of_stacks(
    state: StackStateView,
    oid: NonZeroOid,
    expand_details: bool,
    stack: Seq<NonZeroOid>,
    own: int,
    other: int,
    url: Seq<char>,
)
    requires
        ids_differ(state.commits),
        state.stacks.contains(stack),
        0 <= own < state.commits.len(),
        state.commits[own].0 == oid,
        stack.contains(oid),
        0 <= other < state.commits.len(),
        stack.contains(state.commits[other].0),
        state.commits[other].1.pr_url == Some(url),
    ensures
        state.commits[other].1.oid != oid ==> shows(
            pr_body(state, oid, expand_details),
            "<li>"@ + url + "</li>"@,
        ),
        state.commits[other].1.oid == oid ==> shows(
            pr_body(state, oid, expand_details),
            "<li>➡️"@ + url + "</li>"@,
        ),
{
    let change = state.commits[other].1;
    law_change_is_found_by_id(state.commits, oid, own);
    law_change_is_found_by_id(state.commits, state.commits[other].0, other);
    law_body_links_to_stacks(state, oid, expand_details, stack, state.commits[other].0);
    let body = pr_body(state, oid, expand_details);
    let item = list_item(change, oid);
    let p = choose|p: int| occurs_at(body, item, p);
    assert(contains_text(body, item));
    assert(body.subrange(p, p + item.len()) == item);
    reveal_strlit("<li>");
    reveal_strlit("➡️");
    reveal_strlit("<li>➡️");
    if change.oid != oid {
        assert(item =~= "<li>"@ + url + "</li>"@);
    } else {
        assert("<li>➡️"@ =~= "<li>"@ + "➡️"@);
        assert(item =~= "<li>➡️"@ + url + "</li>"@);
    }
}

/// Whether a pattern stands in a text at `i` and nowhere before.
pub open spec fn stands_first(text: Seq<char>, pattern: Seq<char>, i: int) -> bool {
    &&& 0 <= i
    &&& i + pattern.len() <= text.len()
    &&& text.subrange(i, i + pattern.len()) == pattern
    &&& forall|j: int|
        #![trigger text.subrange(j, j + pattern.len())]
        0 <= j < i ==> text.subrange(j, j + pattern.len()) != pattern
}

/// Whether a pattern stands nowhere in a text.
pub open spec fn stands_nowhere(text: Seq<char>, pattern: Seq<char>) -> bool {
    forall|j: int|
        #![trigger text.subrange(j, j + pattern.len())]
        0 <= j && j + pattern.len() <= text.len() ==> text.subrange(j, j + pattern.len())
            != pattern
}

/// The body of a pull request, written out: what stood in front of the first mark that starts a
/// section, or the whole text if there is none; a section with the table of the commit; and what
/// stood behind the first mark that ends a section, or nothing if there is none.
pub proof fn law_body_written_out(
    state: StackStateView,
    oid: NonZeroOid,
    expand_details: bool,
    i: int,
    front: Seq<char>,
    back: Seq<char>,
)
    requires
        ids_differ(state.commits),
        0 <= i < state.commits.len(),
        state.commits[i].0 == oid,
        ({
            let body = state.commits[i].1.body;
            let start = "<!-- %%% BRANCHLESS STACK INFO START %%% -->"@;
            let end = "<!-- %%% BRANCHLESS STACK INFO END %%% -->"@;
            &&& stands_nowhere(body, start) && front == body || exists|s: int| #[trigger]
                stands_first(body, start, s) && front == body.take(s)
            &&& stands_nowhere(body, end) && back == Seq::<char>::empty() || exists|e: int|
                #[trigger] stands_first(body, end, e) && back == body.skip(e + end.len())
        }),
    ensures
        pr_body(state, oid, expand_details) == front
            + "<!-- %%% BRANCHLESS STACK INFO START %%% -->"@ + (if expand_details {
            "\n<details open><summary> Stack info:</summary>\n\n"@
        } else {
            "\n<details><summary> Stack info:</summary>\n\n"@
        }) + stack_table(state, oid) + "\n\n</details>\n"@
            + "<!-- %%% BRANCHLESS STACK INFO END %%% -->"@ + back,
{
    let body = state.commits[i].1.body;
    let start = "<!-- %%% BRANCHLESS STACK INFO START %%% -->"@;
    let end = "<!-- %%% BRANCHLESS STACK INFO END %%% -->"@;
    law_change_is_found_by_id(state.commits, oid, i);
    if stands_nowhere(body, start) && front == body {
        law_pattern_is_found_where_it_stands_first(body, start, 0);
    } else {
        let s = choose|s: int| #[trigger] stands_first(body, start, s) && front == body.take(s);
        law_pattern_is_found_where_it_stands_first(body, start, s);
    }
    if stands_nowhere(body, end) && back == Seq::<char>::empty() {
        law_pattern_is_found_where_it_stands_first(body, end, 0);
    } else {
        let e = choose|e: int| #[trigger]
            stands_first(body, end, e) && back == body.skip(e + end.len());
        law_pattern_is_found_where_it_stands_first(body, end, e);
    }
    reveal_strlit("\n<details open><summary> Stack info:</summary>\n\n");
    reveal_strlit("\n<details><summary> Stack info:</summary>\n\n");
    reveal_strlit("\n<details");
    reveal_strlit(" open");
    reveal_strlit("><summary> Stack info:</summary>\n\n");
    let table = stack_table(state, oid);
    let tail = "\n\n</details>\n"@;
    let head = if expand_details {
        "\n<details open><summary> Stack info:</summary>\n\n"@
    } else {
        "\n<details><summary> Stack info:</summary>\n\n"@
    };
    let attrs = if expand_details {
        " open"@
    } else {
        Seq::<char>::empty()
    };
    assert(head =~= "\n<details"@ + attrs + "><summary> Stack info:</summary>\n\n"@);
    let section = head + table + tail;
    assert(pr_body(state, oid, expand_details) == front + start + section + end + back);
    assert(front + start + section + end + back =~= front + start + head + table + tail + end
        + back);
}

/// A commit that is not tracked has an empty body.
pub proof fn law_untracked_commit_has_no_body(
    state: StackStateView,
    oid: NonZeroOid,
    expand_details: bool,
)
    requires
        ids_differ(state.commits),
        forall|j: int| 0 <= j < state.commits.len() ==> (#[trigger] state.commits[j]).0 != oid,
    ensures
        pr_body(state, oid, expand_details) == Seq::<char>::empty(),
{
    law_change_is_found_by_id(state.commits, oid, 0);
}

} // verus!
