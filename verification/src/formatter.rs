//! Functions for building a GitHub pull request body with a section displaying the stacks that
//! the pull request is part of.

use crate::text::{decimal, find_text, first_occurrence, write_decimal};
use crate::types::{
    find_change, same_oid, stacks_view, tracked_change, CommitsView, NonZeroOid, StackState,
    StackStateView, StackedChange, StackedChangeView,
};
use vstd::prelude::*;

verus! {

/// Magic string marking the beginning of a section of a commit message where stack information is
/// injected. Not visible in GitHub due to it being an HTML comment.
pub const PR_BODY_SECTION_START: &'static str = "<!-- %%% BRANCHLESS STACK INFO START %%% -->";

/// Magic string marking the end of a section of a commit message where stack information is
/// injected. Not visible in GitHub due to it being an HTML comment.
pub const PR_BODY_SECTION_END: &'static str = "<!-- %%% BRANCHLESS STACK INFO END %%% -->";

/// The changes that references point to.
pub open spec fn changes_view(changes: Seq<&StackedChange>) -> Seq<StackedChangeView> {
    Seq::new(changes.len(), |i: int| changes[i]@)
}

/// The list item for one pull request of a stack: its URL, behind an arrow if it is the current
/// one.
pub open spec fn list_item(change: StackedChangeView, current_oid: NonZeroOid) -> Seq<char> {
    let arrow = if change.oid == current_oid {
        "➡️"@
    } else {
        Seq::empty()
    };
    let url = match change.pr_url {
        Some(url) => url,
        None => "<unknown>"@,
    };
    "<li>"@ + arrow + url + "</li>"@
}

/// The list items for the pull requests of a stack, in the order of the stack.
pub open spec fn list_items(stack: Seq<StackedChangeView>, current_oid: NonZeroOid) -> Seq<char>
    decreases stack.len(),
{
    if stack.len() == 0 {
        Seq::empty()
    } else {
        list_items(stack.drop_last(), current_oid) + list_item(stack.last(), current_oid)
    }
}

/// The HTML list for a stack.
pub open spec fn table_cell(stack: Seq<StackedChangeView>, current_oid: NonZeroOid) -> Seq<char> {
    "<ul>"@ + list_items(stack, current_oid) + "</ul>"@
}

/// Build an HTML list with an item for each pull request in this stack. The current one is
/// emphasized with an arrow emoji.
///
/// GitHub renders pull request URLs nicely if they are in lists. This function builds an HTML
/// list so that it can be rendered inside a table cell.
pub fn table_cell_for_stack(stack: &Vec<&StackedChange>, current_oid: NonZeroOid) -> (cell: String)
    ensures
        cell@ == table_cell(changes_view(stack@), current_oid),
{
    let mut cell = "<ul>".to_owned();
    let mut i: usize = 0;
    assert(changes_view(stack@).take(0) =~= Seq::<StackedChangeView>::empty());
    assert(cell@ =~= "<ul>"@ + list_items(changes_view(stack@).take(0), current_oid));
    while i < stack.len()
        invariant
            i <= stack@.len(),
            cell@ == "<ul>"@ + list_items(changes_view(stack@).take(i as int), current_oid),
        decreases stack@.len() - i,
    {
        let change = stack[i];
        let ghost longer = changes_view(stack@).take(i + 1);
        assert(longer.drop_last() =~= changes_view(stack@).take(i as int));
        assert(longer.last() == change@);
        cell.append("<li>");
        if same_oid(change.oid, current_oid) {
            cell.append("➡️");
        }
        match &change.pr_url {
            Some(url) => cell.append(url.as_str()),
            None => cell.append("<unknown>"),
        }
        cell.append("</li>");
        assert(cell@ =~= "<ul>"@ + list_items(longer, current_oid));
        i += 1;
    }
    assert(changes_view(stack@).take(i as int) =~= changes_view(stack@));
    cell.append("</ul>");
    cell
}

/// The stacks that a commit is in.
pub open spec fn stacks_with(stacks: Seq<Seq<NonZeroOid>>, oid: NonZeroOid) -> Seq<
    Seq<NonZeroOid>,
> {
    stacks.filter(|stack: Seq<NonZeroOid>| stack.contains(oid))
}

/// A stack put behind all stacks that are not shorter, from the end on.
pub open spec fn insert_by_length(
    sorted: Seq<Seq<NonZeroOid>>,
    stack: Seq<NonZeroOid>,
) -> Seq<Seq<NonZeroOid>>
    decreases sorted.len(),
{
    if sorted.len() > 0 && sorted.last().len() < stack.len() {
        insert_by_length(sorted.drop_last(), stack).push(sorted.last())
    } else {
        sorted.push(stack)
    }
}

/// Stacks by their length, the longest first. Stacks of the same length keep their order.
pub open spec fn longest_first(stacks: Seq<Seq<NonZeroOid>>) -> Seq<Seq<NonZeroOid>>
    decreases stacks.len(),
{
    if stacks.len() == 0 {
        stacks
    } else {
        insert_by_length(longest_first(stacks.drop_last()), stacks.last())
    }
}

/// The stacks that references point to.
spec fn borrowed_stacks_view(stacks: Seq<&Vec<NonZeroOid>>) -> Seq<Seq<NonZeroOid>> {
    Seq::new(stacks.len(), |i: int| stacks[i]@)
}

/// Whether a commit is in a stack.
pub fn contains_oid(stack: &Vec<NonZeroOid>, oid: NonZeroOid) -> (contains: bool)
    ensures
        contains == stack@.contains(oid),
{
    let mut i: usize = 0;
    while i < stack.len()
        invariant
            i <= stack@.len(),
            forall|j: int| 0 <= j < i ==> stack@[j] != oid,
        decreases stack@.len() - i,
    {
        if same_oid(stack[i], oid) {
            return true;
        }
        i += 1;
    }
    false
}

/// Puts a stack behind all stacks that are not shorter, from the end on.
fn insert_stack<'a>(sorted: &mut Vec<&'a Vec<NonZeroOid>>, stack: &'a Vec<NonZeroOid>)
    ensures
        borrowed_stacks_view(final(sorted)@) == insert_by_length(
            borrowed_stacks_view(old(sorted)@),
            stack@,
        ),
{
    let mut i: usize = sorted.len();
    let ghost before = borrowed_stacks_view(sorted@);
    let ghost target = insert_by_length(before, stack@);
    assert(before.take(i as int) =~= before);
    assert(target =~= insert_by_length(before.take(i as int), stack@) + before.skip(i as int));
    while i > 0 && sorted[i - 1].len() < stack.len()
        invariant
            i <= sorted@.len(),
            before == borrowed_stacks_view(sorted@),
            target == insert_by_length(before.take(i as int), stack@) + before.skip(i as int),
        decreases i,
    {
        let ghost front = before.take(i as int);
        assert(front.drop_last() =~= before.take(i - 1));
        assert(insert_by_length(front, stack@) == insert_by_length(
            before.take(i - 1),
            stack@,
        ).push(before[i - 1]));
        assert(target =~= insert_by_length(before.take(i - 1), stack@) + before.skip(i - 1));
        i -= 1;
    }
    assert(insert_by_length(before.take(i as int), stack@) == before.take(i as int).push(stack@));
    sorted.insert(i, stack);
    assert(borrowed_stacks_view(sorted@) =~= before.take(i as int).push(stack@) + before.skip(
        i as int,
    ));
}

/// The stacks that a commit is in, the longest first.
fn relevant_stacks<'a>(stacks: &'a Vec<Vec<NonZeroOid>>, oid: NonZeroOid) -> (relevant: Vec<
    &'a Vec<NonZeroOid>,
>)
    ensures
        borrowed_stacks_view(relevant@) == longest_first(stacks_with(stacks_view(stacks@), oid)),
{
    let mut relevant: Vec<&'a Vec<NonZeroOid>> = Vec::new();
    let mut i: usize = 0;
    let ghost all = stacks_view(stacks@);
    proof {
        reveal(Seq::filter);
        assert(all.take(0) =~= Seq::<Seq<NonZeroOid>>::empty());
        assert(borrowed_stacks_view(relevant@) =~= longest_first(stacks_with(all.take(0), oid)));
    }
    while i < stacks.len()
        invariant
            i <= stacks@.len(),
            all == stacks_view(stacks@),
            borrowed_stacks_view(relevant@) == longest_first(stacks_with(all.take(i as int), oid)),
        decreases stacks@.len() - i,
    {
        let stack = &stacks[i];
        proof {
            reveal(Seq::filter);
            assert(all.take(i + 1).drop_last() =~= all.take(i as int));
            let found = stacks_with(all.take(i as int), oid);
            assert(found.push(stack@).drop_last() =~= found);
        }
        if contains_oid(stack, oid) {
            insert_stack(&mut relevant, stack);
        }
        i += 1;
    }
    assert(all.take(i as int) =~= all);
    relevant
}

/// What is known of the commits of a stack, in the order of the stack. Commits that are not
/// tracked are left out.
pub open spec fn tracked_changes(commits: CommitsView, stack: Seq<NonZeroOid>) -> Seq<
    StackedChangeView,
>
    decreases stack.len(),
{
    if stack.len() == 0 {
        Seq::empty()
    } else {
        let front = tracked_changes(commits, stack.drop_last());
        match tracked_change(commits, stack.last()) {
            Some(change) => front.push(change),
            None => front,
        }
    }
}

/// Looks up the commits of a stack.
fn changes_of_stack<'a>(state: &'a StackState, stack: &Vec<NonZeroOid>) -> (changes: Vec<
    &'a StackedChange,
>)
    ensures
        changes_view(changes@) == tracked_changes(state@.commits, stack@),
{
    let mut changes: Vec<&'a StackedChange> = Vec::new();
    let mut i: usize = 0;
    assert(stack@.take(0) =~= Seq::<NonZeroOid>::empty());
    assert(changes_view(changes@) =~= Seq::<StackedChangeView>::empty());
    while i < stack.len()
        invariant
            i <= stack@.len(),
            changes_view(changes@) == tracked_changes(state@.commits, stack@.take(i as int)),
        decreases stack@.len() - i,
    {
        let ghost front = changes_view(changes@);
        assert(stack@.take(i + 1).drop_last() =~= stack@.take(i as int));
        match find_change(&state.commits, &stack[i]) {
            Some(change) => {
                changes.push(change);
                assert(changes_view(changes@) =~= front.push(change@));
            },
            None => {},
        }
        i += 1;
    }
    assert(stack@.take(i as int) =~= stack@);
    changes
}

/// The header cells of the first `count` columns.
pub open spec fn header_cells(count: int) -> Seq<char>
    decreases count,
{
    if count <= 0 {
        Seq::empty()
    } else {
        header_cells(count - 1) + " Stack "@ + decimal(count) + " |"@
    }
}

/// The rule below the header cells of the first `count` columns.
pub open spec fn header_rule(count: int) -> Seq<char>
    decreases count,
{
    if count <= 0 {
        Seq::empty()
    } else {
        header_rule(count - 1) + "-|"@
    }
}

/// The data cells, one for each stack.
pub open spec fn data_cells(
    commits: CommitsView,
    stacks: Seq<Seq<NonZeroOid>>,
    oid: NonZeroOid,
) -> Seq<char>
    decreases stacks.len(),
{
    if stacks.len() == 0 {
        Seq::empty()
    } else {
        data_cells(commits, stacks.drop_last(), oid) + table_cell(
            tracked_changes(commits, stacks.last()),
            oid,
        ) + "|"@
    }
}

/// The Markdown table that shows the stacks of a commit side by side. A commit that is in no
/// stack has no table.
pub open spec fn stack_table(state: StackStateView, oid: NonZeroOid) -> Seq<char> {
    let stacks = longest_first(stacks_with(state.stacks, oid));
    if stacks.len() == 0 {
        Seq::empty()
    } else {
        "|"@ + header_cells(stacks.len() as int) + "\n|"@ + header_rule(stacks.len() as int) + "\n"@
            + "|"@ + data_cells(state.commits, stacks, oid)
    }
}

/// Builds a Markdown table displaying all of the stacks that the passed-in commit is in.
///
/// Each stack that the commit is in is rendered side-by-side in a table. Each stack is given a
/// column with a header cell (e.g. "Stack 1") and a data cell wherein the entire stack is
/// rendered. GitHub's comment renderer adjusts the width of each column and wraps text based on
/// the content of each cell so this works reasonably well for a small number of stacks.
pub fn build_stack_markdown_table_for_oid(oid: NonZeroOid, stack_state: &StackState) -> (table:
    String)
    ensures
        table@ == stack_table(stack_state@, oid),
{
    let stacks = relevant_stacks(&stack_state.stacks, oid);
    let ghost all = borrowed_stacks_view(stacks@);
    if stacks.is_empty() {
        return String::new();
    }
    let mut table = "|".to_owned();
    let mut i: usize = 0;
    assert(table@ =~= "|"@ + header_cells(0));
    while i < stacks.len()
        invariant
            i <= stacks@.len(),
            table@ == "|"@ + header_cells(i as int),
        decreases stacks@.len() - i,
    {
        let number = write_decimal(i + 1);
        table.append(" Stack ");
        table.append(number.as_str());
        table.append(" |");
        i += 1;
        assert(table@ =~= "|"@ + header_cells(i as int));
    }
    table.append("\n|");
    let ghost top = table@;
    let mut j: usize = 0;
    assert(table@ =~= top + header_rule(0));
    while j < stacks.len()
        invariant
            j <= stacks@.len(),
            table@ == top + header_rule(j as int),
        decreases stacks@.len() - j,
    {
        table.append("-|");
        j += 1;
        assert(table@ =~= top + header_rule(j as int));
    }
    table.append("\n");
    table.append("|");
    let ghost head = table@;
    let mut k: usize = 0;
    assert(all.take(0) =~= Seq::<Seq<NonZeroOid>>::empty());
    assert(table@ =~= head + data_cells(stack_state@.commits, all.take(0), oid));
    while k < stacks.len()
        invariant
            k <= stacks@.len(),
            all == borrowed_stacks_view(stacks@),
            table@ == head + data_cells(stack_state@.commits, all.take(k as int), oid),
        decreases stacks@.len() - k,
    {
        let changes = changes_of_stack(stack_state, stacks[k]);
        let cell = table_cell_for_stack(&changes, oid);
        table.append(cell.as_str());
        table.append("|");
        assert(all.take(k + 1).drop_last() =~= all.take(k as int));
        k += 1;
        assert(table@ =~= head + data_cells(stack_state@.commits, all.take(k as int), oid));
    }
    assert(all.take(k as int) =~= all);
    assert(table@ =~= stack_table(stack_state@, oid));
    table
}

/// What stands in front of the stack section of a body: all of the body if it has no section.
pub open spec fn before_section(body: Seq<char>) -> Seq<char> {
    match first_occurrence(body, PR_BODY_SECTION_START@) {
        Some(start) => body.take(start),
        None => body,
    }
}

/// What stands behind the stack section of a body: nothing if no section ends in the body.
pub open spec fn after_section(body: Seq<char>) -> Seq<char> {
    match first_occurrence(body, PR_BODY_SECTION_END@) {
        Some(end) => body.skip(end + PR_BODY_SECTION_END@.len()),
        None => Seq::empty(),
    }
}

/// What stands between the marks of a stack section.
pub open spec fn section_text(table: Seq<char>, expand_details: bool) -> Seq<char> {
    let details_attrs = if expand_details {
        " open"@
    } else {
        Seq::empty()
    };
    "\n<details"@ + details_attrs + "><summary> Stack info:</summary>\n\n"@ + table
        + "\n\n</details>\n"@
}

/// A stack section between the text in front of it and the text behind it.
pub open spec fn with_section(front: Seq<char>, section: Seq<char>, back: Seq<char>) -> Seq<char> {
    front + PR_BODY_SECTION_START@ + section + PR_BODY_SECTION_END@ + back
}

/// The body of a pull request: the body of its change, with a new stack section in place of the
/// one it has, or behind it if it has none. A commit that is not tracked has an empty body.
pub open spec fn pr_body(state: StackStateView, oid: NonZeroOid, expand_details: bool) -> Seq<
    char,
> {
    match tracked_change(state.commits, oid) {
        Some(change) => with_section(
            before_section(change.body),
            section_text(stack_table(state, oid), expand_details),
            after_section(change.body),
        ),
        None => Seq::empty(),
    }
}

/// Renders what stands between the marks of a stack section around a table.
fn render_section_text(table: &str, expand_details: bool) -> (text: String)
    ensures
        text@ == section_text(table@, expand_details),
{
    let mut text = "\n<details".to_owned();
    if expand_details {
        text.append(" open");
    }
    assert(expand_details || text@ =~= "\n<details"@ + Seq::<char>::empty());
    text.append("><summary> Stack info:</summary>\n\n");
    text.append(table);
    text.append("\n\n</details>\n");
    text
}

/// The part of a body in front of its stack section.
fn cut_before_section<'a>(body: &'a str) -> (before: &'a str)
    ensures
        before@ == before_section(body@),
{
    match find_text(body, PR_BODY_SECTION_START) {
        Some(start) => {
            assert(body@.take(start as int) =~= body@.subrange(0, start as int));
            body.substring_char(0, start)
        },
        None => body,
    }
}

/// The part of a body behind its stack section.
fn cut_after_section<'a>(body: &'a str) -> (after: &'a str)
    ensures
        after@ == after_section(body@),
{
    let body_length: usize = body.unicode_len();
    match find_text(body, PR_BODY_SECTION_END) {
        Some(end) => {
            let end_length: usize = PR_BODY_SECTION_END.unicode_len();
            let rest: usize = end + end_length;
            assert(body@.skip(rest as int) =~= body@.subrange(rest as int, body_length as int));
            body.substring_char(rest, body_length)
        },
        None => {
            assert(body@.subrange(body_length as int, body_length as int) =~= Seq::empty());
            body.substring_char(body_length, body_length)
        },
    }
}

/// Create the pull request body for a commit by putting a table displaying the stacks that the
/// commit is in into its body.
pub fn create_pr_body_for_oid(
    oid: NonZeroOid,
    stack_state: &StackState,
    expand_details: bool,
) -> (text: String)
    ensures
        text@ == pr_body(stack_state@, oid, expand_details),
{
    let stack_entry = match find_change(&stack_state.commits, &oid) {
        Some(stack_entry) => stack_entry,
        None => {
            return String::new();
        },
    };
    let body = stack_entry.body.as_str();
    let table = build_stack_markdown_table_for_oid(oid, stack_state);
    let section = render_section_text(table.as_str(), expand_details);
    let mut text = cut_before_section(body).to_owned();
    text.append(PR_BODY_SECTION_START);
    text.append(section.as_str());
    text.append(PR_BODY_SECTION_END);
    text.append(cut_after_section(body));
    text
}

} // verus!
