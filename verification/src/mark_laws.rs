//! What keeps the marks of a stack section out of its text.

use crate::body_laws::law_rendering_again_changes_nothing;
use crate::formatter::{
    before_section, data_cells, header_cells, header_rule, list_item, list_items, longest_first,
    pr_body, section_text, stack_table, stacks_with, tracked_changes, PR_BODY_SECTION_END,
};
use crate::text::{contains_text, decimal, is_digit, lemma_decimal_digits, occurs_at};
use crate::types::{
    tracked_at, tracked_change, CommitsView, NonZeroOid, StackStateView, StackedChangeView,
};
use vstd::prelude::*;

verus! {

/// Whether the mark that ends a section does not stand in a text.
pub open spec fn holds_no_end_mark(text: Seq<char>) -> bool {
    !contains_text(text, PR_BODY_SECTION_END@)
}

/// Whether no comment starts in a text, not even one that goes on behind it.
spec fn starts_no_comment(text: Seq<char>) -> bool {
    forall|j: int|
        0 <= j < text.len() && #[trigger] text[j] == '<' ==> j + 1 < text.len() && text[j + 1]
            != '!'
}

proof fn lemma_end_mark_characters()
    ensures
        PR_BODY_SECTION_END@.len() == 42,
        PR_BODY_SECTION_END@[0] == '<',
        PR_BODY_SECTION_END@[1] == '!',
        forall|k: int|
            0 < k < PR_BODY_SECTION_END@.len() ==> #[trigger] PR_BODY_SECTION_END@[k] != '<'
                && PR_BODY_SECTION_END@[k] != '\n',
{
    reveal_strlit("<!-- %%% BRANCHLESS STACK INFO END %%% -->");
}

/// A text in front that starts no comment does not help to make up a mark.
proof fn lemma_harmless_front(front: Seq<char>, back: Seq<char>)
    requires
        starts_no_comment(front),
        holds_no_end_mark(back),
    ensures
        holds_no_end_mark(front + back),
{
    lemma_end_mark_characters();
    let mark = PR_BODY_SECTION_END@;
    let text = front + back;
    assert forall|j: int| !#[trigger] occurs_at(text, mark, j) by {
        if occurs_at(text, mark, j) {
            let found = text.subrange(j, j + mark.len());
            if j < front.len() {
                assert(found[0] == front[j]);
                assert(found[1] == text[j + 1]);
            } else {
                let k = j - front.len();
                assert(back.subrange(k, k + mark.len()) =~= found);
                assert(occurs_at(back, mark, k));
            }
        }
    }
}

/// A text behind does not help to make up a mark if it begins with a character that stands in the
/// mark at most at its start.
proof fn lemma_harmless_back(front: Seq<char>, back: Seq<char>)
    requires
        holds_no_end_mark(front),
        holds_no_end_mark(back),
        back.len() > 0,
        back[0] == '<' || back[0] == '\n',
    ensures
        holds_no_end_mark(front + back),
{
    lemma_end_mark_characters();
    let mark = PR_BODY_SECTION_END@;
    let text = front + back;
    assert forall|j: int| !#[trigger] occurs_at(text, mark, j) by {
        if occurs_at(text, mark, j) {
            let found = text.subrange(j, j + mark.len());
            if j + mark.len() <= front.len() {
                assert(front.subrange(j, j + mark.len()) =~= found);
                assert(occurs_at(front, mark, j));
            } else if j < front.len() {
                let k = front.len() - j;
                assert(found[k] == back[0]);
                assert(mark[k] == back[0]);
            } else {
                let k = j - front.len();
                assert(back.subrange(k, k + mark.len()) =~= found);
                assert(occurs_at(back, mark, k));
            }
        }
    }
}

proof fn lemma_starts_no_comment_holds_none(text: Seq<char>)
    requires
        starts_no_comment(text),
    ensures
        holds_no_end_mark(text),
{
    lemma_end_mark_characters();
    let mark = PR_BODY_SECTION_END@;
    assert forall|j: int| !#[trigger] occurs_at(Seq::<char>::empty(), mark, j) by {}
    lemma_harmless_front(text, Seq::empty());
    assert(text + Seq::<char>::empty() =~= text);
}

proof fn lemma_starts_no_comment_add(front: Seq<char>, back: Seq<char>)
    requires
        starts_no_comment(front),
        starts_no_comment(back),
    ensures
        starts_no_comment(front + back),
{
    let text = front + back;
    assert forall|j: int| 0 <= j < text.len() && #[trigger] text[j] == '<' implies j + 1
        < text.len() && text[j + 1] != '!' by {
        if j < front.len() {
            assert(front[j] == '<');
            assert(text[j + 1] == front[j + 1]);
        } else {
            assert(back[j - front.len()] == '<');
            assert(text[j + 1] == back[j + 1 - front.len()]);
        }
    }
}

/// Whether no URL of a pull request holds the mark that ends a section.
pub open spec fn urls_hold_no_end_mark(commits: CommitsView) -> bool {
    forall|i: int|
        0 <= i < commits.len() ==> ((#[trigger] commits[i]).1.pr_url matches Some(url)
            ==> holds_no_end_mark(url))
}

/// Whether the URL of a pull request does not hold the mark that ends a section.
spec fn url_holds_no_end_mark(change: StackedChangeView) -> bool {
    change.pr_url matches Some(url) ==> holds_no_end_mark(url)
}

proof fn lemma_list_item(change: StackedChangeView, oid: NonZeroOid)
    requires
        url_holds_no_end_mark(change),
    ensures
        holds_no_end_mark(list_item(change, oid)),
        list_item(change, oid).len() > 0,
        list_item(change, oid)[0] == '<',
{
    reveal_strlit("<li>");
    reveal_strlit("</li>");
    reveal_strlit("<unknown>");
    reveal_strlit("➡️");
    let arrow = if change.oid == oid {
        "➡️"@
    } else {
        Seq::empty()
    };
    let url = match change.pr_url {
        Some(url) => url,
        None => "<unknown>"@,
    };
    assert(starts_no_comment("<li>"@));
    assert(starts_no_comment(arrow));
    assert(starts_no_comment("</li>"@));
    assert(starts_no_comment("<unknown>"@));
    lemma_starts_no_comment_holds_none("</li>"@);
    lemma_starts_no_comment_holds_none("<unknown>"@);
    lemma_harmless_back(url, "</li>"@);
    lemma_starts_no_comment_add("<li>"@, arrow);
    lemma_harmless_front("<li>"@ + arrow, url + "</li>"@);
    assert(("<li>"@ + arrow) + (url + "</li>"@) =~= list_item(change, oid));
}

proof fn lemma_list_items(stack: Seq<StackedChangeView>, oid: NonZeroOid)
    requires
        forall|k: int| 0 <= k < stack.len() ==> url_holds_no_end_mark(#[trigger] stack[k]),
    ensures
        holds_no_end_mark(list_items(stack, oid)),
    decreases stack.len(),
{
    if stack.len() > 0 {
        let front = stack.drop_last();
        assert forall|k: int| 0 <= k < front.len() implies url_holds_no_end_mark(
            #[trigger] front[k],
        ) by {
            assert(front[k] == stack[k]);
        }
        lemma_list_items(front, oid);
        assert(stack[stack.len() - 1] == stack.last());
        lemma_list_item(stack.last(), oid);
        lemma_harmless_back(list_items(front, oid), list_item(stack.last(), oid));
    } else {
        lemma_starts_no_comment_holds_none(Seq::empty());
    }
}

proof fn lemma_tracked_changes(commits: CommitsView, stack: Seq<NonZeroOid>)
    requires
        urls_hold_no_end_mark(commits),
    ensures
        forall|k: int|
            0 <= k < tracked_changes(commits, stack).len() ==> url_holds_no_end_mark(
                #[trigger] tracked_changes(commits, stack)[k],
            ),
    decreases stack.len(),
{
    if stack.len() > 0 {
        let front = tracked_changes(commits, stack.drop_last());
        let all = tracked_changes(commits, stack);
        lemma_tracked_changes(commits, stack.drop_last());
        if tracked_change(commits, stack.last()) is Some {
            let i = choose|i: int| tracked_at(commits, stack.last(), i);
            assert(url_holds_no_end_mark(commits[i].1));
        }
        assert forall|k: int| 0 <= k < all.len() implies url_holds_no_end_mark(
            #[trigger] all[k],
        ) by {
            if k < front.len() {
                assert(all[k] == front[k]);
            }
        }
    }
}

proof fn lemma_data_cells(commits: CommitsView, stacks: Seq<Seq<NonZeroOid>>, oid: NonZeroOid)
    requires
        urls_hold_no_end_mark(commits),
    ensures
        holds_no_end_mark(data_cells(commits, stacks, oid)),
    decreases stacks.len(),
{
    if stacks.len() > 0 {
        let front = data_cells(commits, stacks.drop_last(), oid);
        let changes = tracked_changes(commits, stacks.last());
        let items = list_items(changes, oid);
        lemma_data_cells(commits, stacks.drop_last(), oid);
        lemma_tracked_changes(commits, stacks.last());
        lemma_list_items(changes, oid);
        reveal_strlit("<ul>");
        reveal_strlit("</ul>");
        reveal_strlit("|");
        let end = "</ul>"@ + "|"@;
        assert(starts_no_comment("<ul>"@));
        assert(starts_no_comment(end));
        lemma_starts_no_comment_holds_none(end);
        lemma_harmless_back(items, end);
        lemma_harmless_front("<ul>"@, items + end);
        let cell = "<ul>"@ + (items + end);
        lemma_harmless_back(front, cell);
        assert(front + cell =~= data_cells(commits, stacks, oid));
    } else {
        lemma_starts_no_comment_holds_none(Seq::empty());
    }
}

proof fn lemma_header_cells(count: int)
    ensures
        starts_no_comment(header_cells(count)),
        starts_no_comment(header_rule(count)),
    decreases count,
{
    if count > 0 {
        lemma_header_cells(count - 1);
        lemma_decimal_digits(count);
        reveal_strlit(" Stack ");
        reveal_strlit(" |");
        reveal_strlit("-|");
        let number = decimal(count);
        assert(starts_no_comment(number)) by {
            assert forall|j: int| 0 <= j < number.len() implies #[trigger] number[j] != '<' by {
                assert(is_digit(number[j]));
            }
        }
        assert(starts_no_comment(" Stack "@));
        assert(starts_no_comment(" |"@));
        assert(starts_no_comment("-|"@));
        lemma_starts_no_comment_add(header_cells(count - 1), " Stack "@);
        lemma_starts_no_comment_add(header_cells(count - 1) + " Stack "@, number);
        lemma_starts_no_comment_add(header_cells(count - 1) + " Stack "@ + number, " |"@);
        lemma_starts_no_comment_add(header_rule(count - 1), "-|"@);
    }
}

proof fn lemma_stack_table(state: StackStateView, oid: NonZeroOid)
    requires
        urls_hold_no_end_mark(state.commits),
    ensures
        holds_no_end_mark(stack_table(state, oid)),
{
    let stacks = longest_first(stacks_with(state.stacks, oid));
    let count = stacks.len() as int;
    if count > 0 {
        let data = data_cells(state.commits, stacks, oid);
        lemma_data_cells(state.commits, stacks, oid);
        lemma_header_cells(count);
        reveal_strlit("|");
        reveal_strlit("\n|");
        reveal_strlit("\n");
        assert(starts_no_comment("|"@));
        assert(starts_no_comment("\n|"@));
        assert(starts_no_comment("\n"@));
        let one = "|"@ + header_cells(count);
        let two = one + "\n|"@;
        let three = two + header_rule(count);
        let four = three + "\n"@;
        let head = four + "|"@;
        lemma_starts_no_comment_add("|"@, header_cells(count));
        lemma_starts_no_comment_add(one, "\n|"@);
        lemma_starts_no_comment_add(two, header_rule(count));
        lemma_starts_no_comment_add(three, "\n"@);
        lemma_starts_no_comment_add(four, "|"@);
        lemma_harmless_front(head, data);
        assert(head + data =~= stack_table(state, oid));
    } else {
        lemma_starts_no_comment_holds_none(Seq::empty());
    }
}

/// The text of a stack section does not hold the mark that ends it, as long as no URL of a tracked
/// commit does.
pub proof fn law_section_holds_no_end_mark(
    state: StackStateView,
    oid: NonZeroOid,
    expand_details: bool,
)
    requires
        urls_hold_no_end_mark(state.commits),
    ensures
        holds_no_end_mark(section_text(stack_table(state, oid), expand_details)),
{
    let table = stack_table(state, oid);
    lemma_stack_table(state, oid);
    reveal_strlit("\n<details");
    reveal_strlit(" open");
    reveal_strlit("><summary> Stack info:</summary>\n\n");
    reveal_strlit("\n\n</details>\n");
    let attrs = if expand_details {
        " open"@
    } else {
        Seq::empty()
    };
    let summary = "><summary> Stack info:</summary>\n\n"@;
    let end = "\n\n</details>\n"@;
    assert(starts_no_comment("\n<details"@));
    assert(starts_no_comment(attrs));
    assert(starts_no_comment(summary));
    assert(starts_no_comment(end));
    lemma_starts_no_comment_add("\n<details"@, attrs);
    lemma_starts_no_comment_add("\n<details"@ + attrs, summary);
    lemma_starts_no_comment_holds_none(end);
    lemma_harmless_back(table, end);
    lemma_harmless_front("\n<details"@ + attrs + summary, table + end);
    assert(("\n<details"@ + attrs + summary) + (table + end) =~= section_text(
        table,
        expand_details,
    ));
}

/// Rendering a body that was rendered before, with the same table, gives the same body, as long as
/// neither the URL of a tracked commit nor what stands in front of the section holds the mark that
/// ends a section.
pub proof fn law_rendered_body_is_stable(
    state: StackStateView,
    later: StackStateView,
    oid: NonZeroOid,
    expand_details: bool,
)
    requires
        urls_hold_no_end_mark(state.commits),
        tracked_change(state.commits, oid) is Some,
        holds_no_end_mark(before_section(tracked_change(state.commits, oid)->0.body)),
        tracked_change(later.commits, oid) is Some,
        tracked_change(later.commits, oid)->0.body == pr_body(state, oid, expand_details),
        stack_table(later, oid) == stack_table(state, oid),
    ensures
        pr_body(later, oid, expand_details) == pr_body(state, oid, expand_details),
{
    law_section_holds_no_end_mark(state, oid, expand_details);
    law_rendering_again_changes_nothing(state, later, oid, expand_details);
}

} // verus!
