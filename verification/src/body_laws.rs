//! What holds of every pull request body, whatever the stacks are.

use crate::formatter::{
    after_section, before_section, pr_body, section_text, stack_table, with_section,
    PR_BODY_SECTION_END, PR_BODY_SECTION_START,
};
use crate::text::{
    contains_text, lemma_first_occurrence, lemma_first_occurrence_exists, occurs_at,
    occurs_first_at,
};
use crate::types::{tracked_change, NonZeroOid, StackStateView};
use vstd::prelude::*;

verus! {

/// Whether the first character of a mark stands nowhere else in it.
spec fn first_character_once(mark: Seq<char>) -> bool {
    mark.len() > 0 && forall|k: int| 0 < k < mark.len() ==> #[trigger] mark[k] != mark[0]
}

proof fn lemma_start_mark()
    ensures
        first_character_once(PR_BODY_SECTION_START@),
        PR_BODY_SECTION_START@.len() == 44,
        PR_BODY_SECTION_START@[0] == '<',
        PR_BODY_SECTION_START@[31] == 'S',
{
    reveal_strlit("<!-- %%% BRANCHLESS STACK INFO START %%% -->");
}

proof fn lemma_end_mark()
    ensures
        first_character_once(PR_BODY_SECTION_END@),
        PR_BODY_SECTION_END@.len() == 42,
        PR_BODY_SECTION_END@[0] == '<',
        PR_BODY_SECTION_END@[31] == 'E',
{
    reveal_strlit("<!-- %%% BRANCHLESS STACK INFO END %%% -->");
}

/// A mark behind a text that does not contain it is the first one.
proof fn lemma_first_behind(front: Seq<char>, mark: Seq<char>, back: Seq<char>)
    requires
        first_character_once(mark),
        !contains_text(front, mark),
    ensures
        occurs_first_at(front + mark + back, mark, front.len() as int),
{
    let text = front + mark + back;
    assert(text.subrange(front.len() as int, (front.len() + mark.len()) as int) =~= mark);
    assert forall|j: int| #[trigger] occurs_at(text, mark, j) implies front.len() <= j by {
        if j < front.len() {
            if j + mark.len() <= front.len() {
                assert(front.subrange(j, j + mark.len()) =~= text.subrange(j, j + mark.len()));
                assert(occurs_at(front, mark, j));
            } else {
                let k = front.len() - j;
                assert(text.subrange(j, j + mark.len())[k] == text[front.len() as int]);
                assert(mark[k] == mark[0]);
            }
        }
    }
}

/// The end mark is not in a text and a section that start with the start mark between them, if it
/// is in neither.
proof fn lemma_no_end_mark(front: Seq<char>, section: Seq<char>)
    requires
        !contains_text(front, PR_BODY_SECTION_END@),
        !contains_text(section, PR_BODY_SECTION_END@),
    ensures
        !contains_text(front + PR_BODY_SECTION_START@ + section, PR_BODY_SECTION_END@),
{
    lemma_start_mark();
    lemma_end_mark();
    let start = PR_BODY_SECTION_START@;
    let end = PR_BODY_SECTION_END@;
    let text = front + start + section;
    assert forall|j: int| !#[trigger] occurs_at(text, end, j) by {
        if occurs_at(text, end, j) {
            let found = text.subrange(j, j + end.len());
            if j < front.len() {
                if j + end.len() <= front.len() {
                    assert(front.subrange(j, j + end.len()) =~= found);
                    assert(occurs_at(front, end, j));
                } else {
                    let k = front.len() - j;
                    assert(found[k] == text[front.len() as int]);
                    assert(text[front.len() as int] == start[0]);
                    assert(end[k] == end[0]);
                }
            } else if j < front.len() + start.len() {
                let k = j - front.len();
                assert(found[0] == text[j]);
                assert(text[j] == start[k]);
                assert(start[k] == start[0]);
                assert(k == 0);
                assert(found[31] == text[j + 31]);
                assert(text[j + 31] == start[31]);
            } else {
                let k = j - front.len() - start.len();
                assert(section.subrange(k, k + end.len()) =~= found);
                assert(occurs_at(section, end, k));
            }
        }
    }
}

/// What stands in front of a section is told apart from it, as long as it does not hold the mark
/// that starts a section.
proof fn lemma_front_found_again(front: Seq<char>, section: Seq<char>, back: Seq<char>)
    requires
        !contains_text(front, PR_BODY_SECTION_START@),
    ensures
        before_section(with_section(front, section, back)) == front,
{
    lemma_start_mark();
    let start = PR_BODY_SECTION_START@;
    let end = PR_BODY_SECTION_END@;
    let body = with_section(front, section, back);
    lemma_first_behind(front, start, section + end + back);
    assert(front + start + (section + end + back) =~= body);
    lemma_first_occurrence(body, start, front.len() as int);
    assert(body.take(front.len() as int) =~= front);
}

/// A section is found again between the texts that it was put between: what stands in front of
/// it and what stands behind it are told apart from it, as long as neither mark stands in front
/// of it and its own text does not hold the mark that ends it.
pub proof fn law_section_found_again(front: Seq<char>, section: Seq<char>, back: Seq<char>)
    requires
        !contains_text(front, PR_BODY_SECTION_START@),
        !contains_text(front, PR_BODY_SECTION_END@),
        !contains_text(section, PR_BODY_SECTION_END@),
    ensures
        before_section(with_section(front, section, back)) == front,
        after_section(with_section(front, section, back)) == back,
{
    lemma_front_found_again(front, section, back);
    lemma_end_mark();
    let end = PR_BODY_SECTION_END@;
    let body = with_section(front, section, back);
    let head = front + PR_BODY_SECTION_START@ + section;
    lemma_no_end_mark(front, section);
    lemma_first_behind(head, end, back);
    assert(head + end + back =~= body);
    lemma_first_occurrence(body, end, head.len() as int);
    assert(body.skip((head.len() + end.len()) as int) =~= back);
}

/// The text in front of a section does not hold the mark that starts one.
proof fn lemma_no_start_mark_before_section(body: Seq<char>)
    ensures
        !contains_text(before_section(body), PR_BODY_SECTION_START@),
{
    let start = PR_BODY_SECTION_START@;
    let front = before_section(body);
    if contains_text(body, start) {
        let i = choose|i: int| occurs_at(body, start, i);
        lemma_first_occurrence_exists(body, start, i);
        let first = choose|first: int| occurs_first_at(body, start, first);
        lemma_first_occurrence(body, start, first);
        lemma_start_mark();
        assert forall|j: int| !#[trigger] occurs_at(front, start, j) by {
            if occurs_at(front, start, j) {
                assert(front.subrange(j, j + start.len()) =~= body.subrange(j, j + start.len()));
                assert(occurs_at(body, start, j));
            }
        }
    }
}

/// Giving a change its stack section leaves the rest of its body alone: what stood in front of
/// the section, or was the whole body, stands in front of it still. So does what stood behind it,
/// as long as no mark that ends a section stands before its end.
pub proof fn law_body_keeps_surroundings(state: StackStateView, oid: NonZeroOid, expand_details: bool)
    requires
        tracked_change(state.commits, oid) is Some,
    ensures
        before_section(pr_body(state, oid, expand_details)) == before_section(
            tracked_change(state.commits, oid)->0.body,
        ),
        !contains_text(
            before_section(tracked_change(state.commits, oid)->0.body),
            PR_BODY_SECTION_END@,
        ) && !contains_text(
            section_text(stack_table(state, oid), expand_details),
            PR_BODY_SECTION_END@,
        ) ==> after_section(pr_body(state, oid, expand_details)) == after_section(
            tracked_change(state.commits, oid)->0.body,
        ),
{
    let body = tracked_change(state.commits, oid)->0.body;
    let front = before_section(body);
    let section = section_text(stack_table(state, oid), expand_details);
    lemma_no_start_mark_before_section(body);
    lemma_front_found_again(front, section, after_section(body));
    if !contains_text(front, PR_BODY_SECTION_END@) && !contains_text(
        section,
        PR_BODY_SECTION_END@,
    ) {
        law_section_found_again(front, section, after_section(body));
    }
}

/// Rendering a body that was rendered before replaces the section in it: with the same table the
/// body comes out as it went in, and no second section is added.
pub proof fn law_rendering_again_changes_nothing(
    state: StackStateView,
    later: StackStateView,
    oid: NonZeroOid,
    expand_details: bool,
)
    requires
        tracked_change(state.commits, oid) is Some,
        !contains_text(
            before_section(tracked_change(state.commits, oid)->0.body),
            PR_BODY_SECTION_END@,
        ),
        !contains_text(
            section_text(stack_table(state, oid), expand_details),
            PR_BODY_SECTION_END@,
        ),
        tracked_change(later.commits, oid) is Some,
        tracked_change(later.commits, oid)->0.body == pr_body(state, oid, expand_details),
        stack_table(later, oid) == stack_table(state, oid),
    ensures
        pr_body(later, oid, expand_details) == pr_body(state, oid, expand_details),
{
    law_body_keeps_surroundings(state, oid, expand_details);
}

} // verus!
