use git_branchless_submit::formatter::{
    build_stack_markdown_table_for_oid, contains_oid, create_pr_body_for_oid,
    table_cell_for_stack, PR_BODY_SECTION_END, PR_BODY_SECTION_START,
};
use git_branchless_submit::types::{
    same_oid, CommitStatus, NonZeroOid, RefOrOid, StackState, StackedChange, SubmitStatus,
};

fn oid(number: u32) -> NonZeroOid {
    (0, number)
}

fn change(number: u32, pr_url: Option<&str>, body: &str) -> StackedChange {
    StackedChange {
        oid: oid(number),
        commit_status: CommitStatus {
            submit_status: SubmitStatus::UpToDate,
            local_commit_name: None,
            remote_name: None,
            remote_commit_name: None,
        },
        should_push: false,
        should_update_pr: false,
        pr_url: pr_url.map(|url| url.to_string()),
        pr_number: None,
        pr_base: RefOrOid::Branch("main".to_string()),
        title: format!("commit {}", number),
        body: body.to_string(),
    }
}

fn state(changes: Vec<StackedChange>, stacks: Vec<Vec<u32>>) -> StackState {
    let mut state = StackState::default();
    for change in changes {
        state.commits.insert(change.oid, change);
    }
    for stack in stacks {
        state.stacks.push(stack.into_iter().map(oid).collect());
    }
    state
}

#[test]
fn cell_emphasizes_the_current_pull_request() {
    let first = change(1, Some("https://github.com/o/r/pull/1"), "");
    let second = change(2, None, "");
    assert_eq!(
        table_cell_for_stack(&vec![&first, &second], oid(2)),
        "<ul><li>https://github.com/o/r/pull/1</li><li>➡️<unknown></li></ul>"
    );
    assert_eq!(table_cell_for_stack(&vec![], oid(2)), "<ul></ul>");
}

#[test]
fn commit_in_no_stack_has_no_table() {
    let state = state(vec![change(1, Some("u1"), "")], vec![vec![2, 3]]);
    assert_eq!(build_stack_markdown_table_for_oid(oid(1), &state), "");
}

#[test]
fn stacks_are_shown_side_by_side_with_the_longest_first() {
    let state = state(
        vec![
            change(1, Some("u1"), ""),
            change(2, Some("u2"), ""),
            change(3, Some("u3"), ""),
            change(4, Some("u4"), ""),
        ],
        vec![vec![1, 2], vec![1, 2, 3], vec![9], vec![1, 4]],
    );
    assert_eq!(
        build_stack_markdown_table_for_oid(oid(1), &state),
        "| Stack 1 | Stack 2 | Stack 3 |\n\
         |-|-|-|\n\
         |<ul><li>➡️u1</li><li>u2</li><li>u3</li></ul>\
         |<ul><li>➡️u1</li><li>u2</li></ul>\
         |<ul><li>➡️u1</li><li>u4</li></ul>|"
    );
}

#[test]
fn untracked_commits_of_a_stack_are_left_out() {
    let state = state(vec![change(2, Some("u2"), "")], vec![vec![1, 2]]);
    assert_eq!(
        build_stack_markdown_table_for_oid(oid(1), &state),
        "| Stack 1 |\n|-|\n|<ul><li>u2</li></ul>|"
    );
}

#[test]
fn tables_can_have_more_than_nine_columns() {
    let state = state(vec![], (0..11).map(|_| vec![1]).collect());
    let table = build_stack_markdown_table_for_oid(oid(1), &state);
    assert!(table.starts_with("| Stack 1 | Stack 2 |"));
    assert!(table.contains(" Stack 9 | Stack 10 | Stack 11 |\n|-|-|-|-|-|-|-|-|-|-|-|\n|"));
}

#[test]
fn section_is_put_behind_a_body_without_one() {
    let state = state(vec![change(1, Some("u1"), "Body ✓")], vec![vec![1]]);
    assert_eq!(
        create_pr_body_for_oid(oid(1), &state, true),
        "Body ✓<!-- %%% BRANCHLESS STACK INFO START %%% -->\n\
         <details open><summary> Stack info:</summary>\n\n\
         | Stack 1 |\n|-|\n|<ul><li>➡️u1</li></ul>|\n\n\
         </details>\n\
         <!-- %%% BRANCHLESS STACK INFO END %%% -->"
    );
}

#[test]
fn section_of_a_body_is_replaced() {
    let body = format!("é{}old{}tail", PR_BODY_SECTION_START, PR_BODY_SECTION_END);
    let state = state(vec![change(1, None, &body)], vec![]);
    assert_eq!(
        create_pr_body_for_oid(oid(1), &state, false),
        format!(
            "é{}\n<details><summary> Stack info:</summary>\n\n\n\n</details>\n{}tail",
            PR_BODY_SECTION_START, PR_BODY_SECTION_END
        )
    );
}

#[test]
fn rendering_twice_is_rendering_once() {
    let first = state(vec![change(1, Some("u1"), "text")], vec![vec![1]]);
    let rendered = create_pr_body_for_oid(oid(1), &first, true);
    let second = state(vec![change(1, Some("u1"), &rendered)], vec![vec![1]]);
    assert_eq!(create_pr_body_for_oid(oid(1), &second, true), rendered);
}

#[test]
fn text_behind_a_start_mark_without_an_end_mark_is_dropped() {
    let body = format!("a{}b", PR_BODY_SECTION_START);
    let state = state(vec![change(1, None, &body)], vec![]);
    let rendered = create_pr_body_for_oid(oid(1), &state, false);
    assert!(rendered.starts_with(&format!("a{}", PR_BODY_SECTION_START)));
    assert!(rendered.ends_with(PR_BODY_SECTION_END));
}

#[test]
fn end_mark_in_front_of_the_start_mark_is_kept_twice() {
    let body = format!("a{}b{}c", PR_BODY_SECTION_END, PR_BODY_SECTION_START);
    let state = state(vec![change(1, None, &body)], vec![]);
    let rendered = create_pr_body_for_oid(oid(1), &state, false);
    let front = format!("a{}b{}", PR_BODY_SECTION_END, PR_BODY_SECTION_START);
    let back = format!("{}b{}c", PR_BODY_SECTION_END, PR_BODY_SECTION_START);
    assert!(rendered.starts_with(&front));
    assert!(rendered.ends_with(&back));
}

#[test]
fn untracked_commit_has_an_empty_body() {
    let state = state(vec![], vec![vec![1]]);
    assert_eq!(create_pr_body_for_oid(oid(1), &state, true), "");
}

#[test]
fn body_links_to_every_commit_of_the_stacks() {
    let state = state(
        vec![
            change(1, Some("u1"), ""),
            change(2, Some("u2"), ""),
            change(3, Some("u3"), ""),
        ],
        vec![vec![1, 2], vec![1, 3]],
    );
    let body = create_pr_body_for_oid(oid(1), &state, true);
    assert!(body.contains("<li>➡️u1</li>"));
    assert!(body.contains("<li>u2</li>"));
    assert!(body.contains("<li>u3</li>"));
}

#[test]
fn oids_differ_in_either_part() {
    assert!(same_oid((1, 2), (1, 2)));
    assert!(!same_oid((1, 2), (1, 3)));
    assert!(!same_oid((1, 2), (2, 2)));
    assert!(contains_oid(&vec![(1, 2), (3, 4)], (3, 4)));
    assert!(!contains_oid(&vec![(1, 2), (3, 4)], (3, 2)));
}
