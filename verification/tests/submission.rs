use git_branchless_submit::client::{group_pull_requests, PullRequestInfo};
use git_branchless_submit::create::{BranchOutcome, Creation};
use git_branchless_submit::forge::{
    build_branchless_ref_map, get_expand_details_config, get_pr_branch_prefix, GitHubForge,
    DEFAULT_PR_BRANCH_PREFIX, MOCK_REMOTE_REPO_PATH_ENV_KEY,
};
use git_branchless_submit::status::StatusQuery;
use git_branchless_submit::types::{CommitStatus, NonZeroOid, RefOrOid, SubmitStatus};
use git_branchless_submit::update::{SkipReason, UpdateAction};

fn oid(number: u32) -> NonZeroOid {
    (7, number)
}

fn pr(number: usize, head: &str, head_oid: u32, base: &str, title: &str) -> PullRequestInfo {
    PullRequestInfo {
        number,
        url: format!("https://github.com/o/r/pull/{}", number),
        head_ref_name: head.to_string(),
        head_ref_oid: oid(head_oid),
        base_ref_name: base.to_string(),
        closed: false,
        is_draft: false,
        title: title.to_string(),
        body: format!("body of {}", number),
    }
}

fn forge(branches: Vec<(u32, &str)>, create_unsubmitted: bool) -> GitHubForge {
    let references = branches
        .into_iter()
        .map(|(number, name)| (oid(number), vec![name.to_string()]))
        .collect();
    GitHubForge::new(&references, "branchless/", create_unsubmitted)
}

fn query(infos: Vec<PullRequestInfo>, components: Vec<Option<Vec<u32>>>) -> StatusQuery {
    StatusQuery::new(
        "main".to_string(),
        Some("origin".to_string()),
        group_pull_requests(&infos, Some("branchless/")),
        components
            .into_iter()
            .map(|component| component.map(|numbers| numbers.into_iter().map(oid).collect()))
            .collect(),
    )
}

/// Walks one stack, given with its head first. Every commit has the title "commit" and its number.
fn walk(forge: &mut GitHubForge, query: &mut StatusQuery, head_first: Vec<u32>) {
    let mut walk = query.start_walk(&head_first.into_iter().map(oid).collect());
    while let Some(commit) = walk.next_commit() {
        let summary = format!("commit {}", commit.1);
        let message = format!("message {}", commit.1);
        walk.visit_commit(forge, query, &summary.into_bytes(), &message.into_bytes());
    }
    walk.finish(forge);
}

fn status_of(forge: &GitHubForge, number: u32) -> SubmitStatus {
    forge.commit_statuses()[&oid(number)].submit_status
}

fn known(forge: &GitHubForge) -> Vec<u32> {
    forge.stack_state.commits.keys().map(|key| key.1).collect()
}

#[test]
fn configuration_has_defaults() {
    assert_eq!(get_pr_branch_prefix(None), "branchless/");
    assert_eq!(get_pr_branch_prefix(None), DEFAULT_PR_BRANCH_PREFIX);
    assert_eq!(get_pr_branch_prefix(Some("me/".to_string())), "me/");
    assert!(get_expand_details_config(None));
    assert!(get_expand_details_config(Some(true)));
    assert!(!get_expand_details_config(Some(false)));
    assert_eq!(
        MOCK_REMOTE_REPO_PATH_ENV_KEY,
        "BRANCHLESS_SUBMIT_GITHUB_MOCK_REMOTE_REPO_PATH"
    );
}

#[test]
fn one_branch_with_the_prefix_is_picked_for_each_commit() {
    let names = |names: &[&str]| names.iter().map(|name| name.to_string()).collect::<Vec<_>>();
    let references = vec![
        (oid(1), names(&["branchless/a", "main", "branchless/b", "other"])),
        (oid(2), names(&["main"])),
        (oid(3), names(&["branchless/c"])),
    ];
    let refs = build_branchless_ref_map(&references, "branchless/");
    assert_eq!(refs.len(), 2);
    assert_eq!(refs[&oid(1)], "branchless/b");
    assert_eq!(refs[&oid(3)], "branchless/c");
}

#[test]
fn pull_request_of_a_commit_is_the_first_of_its_branch() {
    let forge = forge(vec![(1, "branchless/a"), (2, "branchless/b")], false);
    let pull_requests = group_pull_requests(
        &vec![
            pr(5, "branchless/a", 1, "main", "commit 1"),
            pr(6, "branchless/a", 1, "main", "commit 1"),
        ],
        None,
    );
    assert_eq!(forge.find_pr_for_oid(&oid(1), &pull_requests).unwrap().number, 5);
    assert!(forge.find_pr_for_oid(&oid(2), &pull_requests).is_none());
    assert!(forge.find_pr_for_oid(&oid(3), &pull_requests).is_none());
}

#[test]
fn heads_are_taken_from_one_subgraph_after_the_other() {
    let mut query = query(vec![], vec![Some(vec![1, 2]), None, Some(vec![]), Some(vec![3])]);
    assert_eq!(query.next_head(), Some(oid(2)));
    assert_eq!(query.next_head(), Some(oid(1)));
    assert_eq!(query.next_head(), Some(oid(3)));
    assert_eq!(query.next_head(), None);
    assert_eq!(query.next_head(), None);
}

#[test]
fn walked_commits_are_no_heads_any_more() {
    let mut forge = forge(vec![], false);
    let mut query = query(vec![], vec![Some(vec![1, 2, 3]), Some(vec![4])]);
    assert_eq!(query.next_head(), Some(oid(3)));
    walk(&mut forge, &mut query, vec![3, 1]);
    assert_eq!(query.next_head(), Some(oid(2)));
    walk(&mut forge, &mut query, vec![2, 1]);
    assert_eq!(query.next_head(), Some(oid(4)));
    walk(&mut forge, &mut query, vec![4]);
    assert_eq!(query.next_head(), None);
    assert_eq!(known(&forge), vec![1, 3, 2, 4]);
    assert_eq!(
        forge.stack_state.stacks,
        vec![vec![oid(1), oid(3)], vec![oid(1), oid(2)], vec![oid(4)]]
    );
}

#[test]
fn matching_stack_is_up_to_date() {
    let mut forge = forge(vec![(1, "branchless/pr1"), (2, "branchless/pr2")], true);
    let mut query = query(
        vec![
            pr(1, "branchless/pr1", 1, "main", "commit 1"),
            pr(2, "branchless/pr2", 2, "branchless/pr1", "commit 2"),
        ],
        vec![],
    );
    walk(&mut forge, &mut query, vec![2, 1]);
    assert_eq!(status_of(&forge, 1), SubmitStatus::UpToDate);
    assert_eq!(status_of(&forge, 2), SubmitStatus::UpToDate);
    let change = &forge.stack_state.commits[1];
    assert!(!change.should_push);
    assert!(!change.should_update_pr);
    assert_eq!(change.pr_number, Some(2));
    assert_eq!(change.pr_url.as_deref(), Some("https://github.com/o/r/pull/2"));
    assert_eq!(change.pr_base, RefOrOid::Branch("branchless/pr1".to_string()));
    assert_eq!(change.title, "commit 2");
    assert_eq!(change.body, "body of 2");
    assert_eq!(change.commit_status.local_commit_name.as_deref(), Some("branchless/pr2"));
    assert_eq!(change.commit_status.remote_commit_name.as_deref(), Some("branchless/pr2"));
    assert_eq!(change.commit_status.remote_name.as_deref(), Some("origin"));
    assert_eq!(forge.update(&forge.commit_statuses(), true).len(), 0);
}

#[test]
fn amended_commit_outdates_those_on_top() {
    let mut forge = forge(
        vec![(1, "branchless/pr1"), (2, "branchless/pr2"), (3, "branchless/pr3")],
        false,
    );
    let mut query = query(
        vec![
            pr(1, "branchless/pr1", 1, "main", "commit 1"),
            pr(2, "branchless/pr2", 22, "branchless/pr1", "commit 2"),
            pr(3, "branchless/pr3", 3, "branchless/pr2", "commit 3"),
        ],
        vec![],
    );
    walk(&mut forge, &mut query, vec![3, 2, 1]);
    assert_eq!(status_of(&forge, 1), SubmitStatus::UpToDate);
    assert_eq!(status_of(&forge, 2), SubmitStatus::NeedsUpdate);
    assert_eq!(status_of(&forge, 3), SubmitStatus::NeedsUpdate);
    assert!(forge.stack_state.commits[1].should_push);
    assert!(!forge.stack_state.commits[2].should_push);
}

#[test]
fn new_title_outdates_the_commit_alone() {
    let mut forge = forge(vec![(1, "branchless/pr1"), (2, "branchless/pr2")], false);
    let mut query = query(
        vec![
            pr(1, "branchless/pr1", 1, "main", "an older title"),
            pr(2, "branchless/pr2", 2, "branchless/pr1", "commit 2"),
        ],
        vec![],
    );
    walk(&mut forge, &mut query, vec![2, 1]);
    assert_eq!(status_of(&forge, 1), SubmitStatus::NeedsUpdate);
    assert_eq!(status_of(&forge, 2), SubmitStatus::UpToDate);
    assert!(forge.stack_state.commits[0].should_update_pr);
}

#[test]
fn other_base_outdates_the_whole_stack() {
    let mut forge = forge(vec![(1, "branchless/pr1"), (2, "branchless/pr2")], false);
    let mut query = query(
        vec![
            pr(1, "branchless/pr1", 1, "main", "commit 1"),
            pr(2, "branchless/pr2", 2, "main", "commit 2"),
        ],
        vec![],
    );
    walk(&mut forge, &mut query, vec![2, 1]);
    assert_eq!(status_of(&forge, 1), SubmitStatus::NeedsUpdate);
    assert_eq!(status_of(&forge, 2), SubmitStatus::NeedsUpdate);
    assert!(forge.stack_state.commits[0].should_update_pr);
    assert!(forge.stack_state.commits[1].should_update_pr);
    let actions = forge.update(&forge.commit_statuses(), true);
    assert_eq!(actions.len(), 4);
    match &actions[0] {
        UpdateAction::UpdatePullRequest { oid: updated, pr_number, base_ref_name, title, body } => {
            assert_eq!(*updated, oid(1));
            assert_eq!(*pr_number, 1);
            assert_eq!(base_ref_name, "main");
            assert_eq!(title, "commit 1");
            assert!(body.contains("<li>https://github.com/o/r/pull/2</li>"));
        }
        _ => panic!("the lower pull request should be updated"),
    }
    assert!(matches!(actions[1], UpdateAction::Progress));
    assert!(matches!(
        actions[2],
        UpdateAction::UpdatePullRequest { oid: (7, 2), pr_number: 2, .. }
    ));
    assert!(matches!(actions[3], UpdateAction::Progress));
}

#[test]
fn changed_stack_outdates_commits_that_it_shares() {
    let mut forge = forge(
        vec![(1, "branchless/pr1"), (2, "branchless/pr2"), (3, "branchless/pr3")],
        false,
    );
    let mut query = query(
        vec![
            pr(1, "branchless/pr1", 1, "main", "commit 1"),
            pr(2, "branchless/pr2", 2, "branchless/pr1", "commit 2"),
            pr(3, "branchless/pr3", 3, "main", "commit 3"),
        ],
        vec![],
    );
    walk(&mut forge, &mut query, vec![2, 1]);
    assert_eq!(status_of(&forge, 1), SubmitStatus::UpToDate);
    walk(&mut forge, &mut query, vec![3, 1]);
    assert_eq!(known(&forge), vec![1, 2, 3]);
    assert_eq!(status_of(&forge, 1), SubmitStatus::NeedsUpdate);
    assert!(forge.stack_state.commits[0].should_update_pr);
    assert_eq!(status_of(&forge, 2), SubmitStatus::UpToDate);
    assert!(!forge.stack_state.commits[1].should_update_pr);
    assert_eq!(status_of(&forge, 3), SubmitStatus::NeedsUpdate);
    assert_eq!(
        forge.stack_state.commits[2].pr_base,
        RefOrOid::Branch("branchless/pr1".to_string())
    );
}

#[test]
fn unsubmitted_commit_is_passed_over_unless_it_is_to_be_created() {
    let infos = || vec![pr(2, "branchless/pr2", 2, "main", "commit 2")];
    let mut kept = forge(vec![(2, "branchless/pr2")], false);
    walk(&mut kept, &mut query(infos(), vec![]), vec![2, 1]);
    assert_eq!(status_of(&kept, 1), SubmitStatus::Unsubmitted);
    assert_eq!(status_of(&kept, 2), SubmitStatus::UpToDate);
    assert_eq!(kept.stack_state.commits[1].pr_base, RefOrOid::Branch("main".to_string()));

    let mut created = forge(vec![(2, "branchless/pr2")], true);
    walk(&mut created, &mut query(infos(), vec![]), vec![2, 1]);
    assert_eq!(status_of(&created, 1), SubmitStatus::Unsubmitted);
    assert_eq!(status_of(&created, 2), SubmitStatus::NeedsUpdate);
    assert_eq!(created.stack_state.commits[1].pr_base, RefOrOid::Oid(oid(1)));
    let change = &created.stack_state.commits[0];
    assert!(change.should_push);
    assert!(change.should_update_pr);
    assert_eq!(change.pr_number, None);
    assert_eq!(change.pr_url, None);
    assert_eq!(change.title, "commit 1");
    assert_eq!(change.body, "message 1");
    assert_eq!(change.commit_status.remote_name, None);
}

#[test]
fn tracked_commit_is_not_replaced() {
    let mut forge = forge(vec![], false);
    let mut query = query(vec![], vec![]);
    walk(&mut forge, &mut query, vec![1]);
    let mut again = query.start_walk(&vec![oid(1)]);
    again.visit(&mut forge, &mut query, "another".to_string(), "text".to_string());
    again.finish(&mut forge);
    assert_eq!(known(&forge), vec![1]);
    assert_eq!(forge.stack_state.commits[0].title, "commit 1");
    assert_eq!(forge.stack_state.stacks.len(), 2);
}

#[test]
fn messages_need_not_be_utf8() {
    let mut forge = forge(vec![], false);
    let mut query = query(vec![], vec![]);
    let mut walk = query.start_walk(&vec![oid(1)]);
    walk.visit_commit(&mut forge, &mut query, &b"a\xffb".to_vec(), &"é".as_bytes().to_vec());
    walk.finish(&mut forge);
    assert_eq!(forge.stack_state.commits[0].title, "a\u{fffd}b");
    assert_eq!(forge.stack_state.commits[0].body, "é");
}

#[test]
fn pull_requests_are_created_from_the_bottom_up() {
    let mut forge = forge(vec![], true);
    walk(&mut forge, &mut query(vec![], vec![]), vec![2, 1]);
    let mut creation = Creation::new(forge.commit_statuses(), "branchless/".to_string(), true);

    let issue = creation.next_issue(&forge).unwrap();
    assert_eq!(issue.oid, oid(1));
    assert_eq!(issue.title, "commit 1");
    assert_eq!(issue.body, "message 1");
    let branch = creation.issue_created(&issue, "https://github.com/o/r/issues/41").unwrap();
    assert_eq!(branch.issue_num, 41);
    assert_eq!(branch.branch_name, "branchless/pr41");
    let status = creation.branch_created(&mut forge, &branch, BranchOutcome::Created).unwrap();
    assert_eq!(status.submit_status, SubmitStatus::Unsubmitted);
    assert_eq!(status.local_commit_name.as_deref(), Some("branchless/pr41"));
    assert_eq!(status.remote_commit_name.as_deref(), Some("branchless/pr41"));
    let request = creation.branch_pushed(&forge, &branch).unwrap();
    assert_eq!(request.issue_num, 41);
    assert_eq!(request.head_ref_name, "branchless/pr41");
    assert_eq!(request.base_ref_name, "main");
    assert!(request.draft);
    creation.pull_request_created(&mut forge, &branch, "https://github.com/o/r/pull/41".to_string());
    assert_eq!(forge.stack_state.oids_to_branchless_refs[&oid(1)], "branchless/pr41");

    let issue = creation.next_issue(&forge).unwrap();
    assert_eq!(issue.oid, oid(2));
    let branch = creation.issue_created(&issue, "https://github.com/o/r/issues/42").unwrap();
    creation.branch_created(&mut forge, &branch, BranchOutcome::Created).unwrap();
    let request = creation.branch_pushed(&forge, &branch).unwrap();
    assert_eq!(request.base_ref_name, "branchless/pr41");
    creation.pull_request_created(&mut forge, &branch, "https://github.com/o/r/pull/42".to_string());
    assert!(creation.next_issue(&forge).is_none());

    let change = &forge.stack_state.commits[1];
    assert_eq!(change.pr_number, Some(42));
    assert_eq!(change.pr_url.as_deref(), Some("https://github.com/o/r/pull/42"));
    assert!(!change.should_push);

    let statuses = creation.commits_to_update(&forge);
    assert_eq!(statuses[&oid(1)].submit_status, SubmitStatus::NeedsUpdate);
    let actions = forge.update(&statuses, true);
    assert_eq!(actions.len(), 4);
    match &actions[2] {
        UpdateAction::UpdatePullRequest { oid: updated, pr_number, base_ref_name, title, body } => {
            assert_eq!(*updated, oid(2));
            assert_eq!(*pr_number, 42);
            assert_eq!(base_ref_name, "branchless/pr41");
            assert_eq!(title, "commit 2");
            assert!(body.starts_with("message 2<!-- %%%"));
            assert!(body.contains("<li>https://github.com/o/r/pull/41</li>"));
            assert!(body.contains("<li>➡️https://github.com/o/r/pull/42</li>"));
        }
        _ => panic!("the second pull request should be updated"),
    }
    assert!(matches!(actions[1], UpdateAction::Progress));
    assert!(matches!(actions[3], UpdateAction::Progress));
}

#[test]
fn only_requested_unsubmitted_commits_are_created() {
    let mut forge = forge(vec![(1, "branchless/pr1")], true);
    let infos = vec![pr(1, "branchless/pr1", 1, "main", "commit 1")];
    walk(&mut forge, &mut query(infos, vec![]), vec![3, 2, 1]);
    let mut requested = forge.commit_statuses();
    requested.remove(&oid(2));
    let mut creation = Creation::new(requested, "branchless/".to_string(), false);
    assert_eq!(creation.next_issue(&forge).unwrap().oid, oid(3));
    assert!(creation.next_issue(&forge).is_none());
    assert_eq!(creation.commits_to_update(&forge).len(), 2);
}

#[test]
fn malformed_issue_urls_are_given_up() {
    let mut forge = forge(vec![], true);
    walk(&mut forge, &mut query(vec![], vec![]), vec![1]);
    let mut creation = Creation::new(forge.commit_statuses(), "branchless/".to_string(), false);
    let issue = creation.next_issue(&forge).unwrap();
    assert!(creation.issue_created(&issue, "").is_none());
    assert!(creation.issue_created(&issue, "41").is_none());
    assert!(creation.issue_created(&issue, "https://github.com/o/r/issues/").is_none());
    assert!(creation.issue_created(&issue, "https://github.com/o/r/issues/41/x").is_none());
    assert_eq!(creation.issue_created(&issue, "/7").unwrap().branch_name, "branchless/pr7");
}

#[test]
fn creation_stops_where_a_branch_cannot_be_created() {
    let mut forge = forge(vec![], true);
    walk(&mut forge, &mut query(vec![], vec![]), vec![1]);
    let mut creation = Creation::new(forge.commit_statuses(), "branchless/".to_string(), false);
    let issue = creation.next_issue(&forge).unwrap();
    let branch = creation.issue_created(&issue, "/5").unwrap();
    assert!(creation.branch_created(&mut forge, &branch, BranchOutcome::Failed).is_none());
    assert_eq!(forge.stack_state.commits[0].commit_status.local_commit_name, None);
    let status = creation.branch_created(&mut forge, &branch, BranchOutcome::Exists).unwrap();
    assert_eq!(status.local_commit_name.as_deref(), Some("branchless/pr5"));
}

#[test]
fn unknown_base_is_given_up() {
    let mut forge = forge(vec![], true);
    walk(&mut forge, &mut query(vec![], vec![]), vec![2, 1]);
    let mut requested = forge.commit_statuses();
    requested.remove(&oid(1));
    let mut creation = Creation::new(requested, "branchless/".to_string(), false);
    let issue = creation.next_issue(&forge).unwrap();
    let branch = creation.issue_created(&issue, "/8").unwrap();
    creation.branch_created(&mut forge, &branch, BranchOutcome::Exists).unwrap();
    assert!(creation.branch_pushed(&forge, &branch).is_none());
}

#[test]
fn existing_branch_of_a_commit_is_kept() {
    let mut forge = forge(vec![(1, "branchless/mine")], true);
    walk(&mut forge, &mut query(vec![], vec![]), vec![1]);
    let mut creation = Creation::new(forge.commit_statuses(), "branchless/".to_string(), false);
    let issue = creation.next_issue(&forge).unwrap();
    let branch = creation.issue_created(&issue, "/9").unwrap();
    creation.branch_created(&mut forge, &branch, BranchOutcome::Exists).unwrap();
    creation.pull_request_created(&mut forge, &branch, "url".to_string());
    assert_eq!(forge.stack_state.oids_to_branchless_refs[&oid(1)], "branchless/mine");
    assert_eq!(
        forge.find_base_ref_name(&RefOrOid::Oid(oid(1))).unwrap(),
        "branchless/mine"
    );
    assert!(forge.find_base_ref_name(&RefOrOid::Oid(oid(2))).is_none());
}

#[test]
fn updates_push_and_skip_as_they_must() {
    let mut forge = forge(vec![(1, "branchless/pr1")], true);
    let infos = vec![pr(1, "branchless/pr1", 11, "main", "commit 1")];
    walk(&mut forge, &mut query(infos, vec![]), vec![3, 2, 1]);
    let mut requested = forge.commit_statuses();
    let actions = forge.update(&requested, true);
    assert_eq!(actions.len(), 3);
    match &actions[0] {
        UpdateAction::Push { oid: pushed, commit_status } => {
            assert_eq!(*pushed, oid(1));
            assert_eq!(commit_status.local_commit_name.as_deref(), Some("branchless/pr1"));
        }
        _ => panic!("the amended commit should be pushed"),
    }
    assert!(matches!(actions[1], UpdateAction::UpdatePullRequest { oid: (7, 1), .. }));
    assert!(matches!(actions[2], UpdateAction::Progress));

    requested.get_mut(&oid(2)).unwrap().submit_status = SubmitStatus::NeedsUpdate;
    requested.get_mut(&oid(3)).unwrap().submit_status = SubmitStatus::NeedsUpdate;
    let actions = forge.update(&requested, true);
    assert_eq!(actions.len(), 7);
    assert!(matches!(actions[3], UpdateAction::Push { oid: (7, 2), .. }));
    assert!(matches!(
        actions[4],
        UpdateAction::Skip { oid: (7, 2), reason: SkipReason::MissingNumber }
    ));
    assert!(matches!(actions[5], UpdateAction::Push { oid: (7, 3), .. }));
    assert!(matches!(
        actions[6],
        UpdateAction::Skip { oid: (7, 3), reason: SkipReason::UnknownBase }
    ));
}

#[test]
fn commits_that_were_not_asked_for_are_not_updated() {
    let mut forge = forge(vec![(1, "branchless/pr1"), (2, "branchless/pr2")], false);
    let infos = vec![
        pr(1, "branchless/pr1", 11, "main", "another title"),
        pr(2, "branchless/pr2", 22, "main", "another title"),
    ];
    walk(&mut forge, &mut query(infos, vec![]), vec![2, 1]);
    let mut requested = forge.commit_statuses();
    requested.remove(&oid(1));
    let actions = forge.update(&requested, true);
    assert_eq!(actions.len(), 3);
    assert!(matches!(actions[0], UpdateAction::Push { oid: (7, 2), .. }));
    assert!(matches!(actions[1], UpdateAction::UpdatePullRequest { oid: (7, 2), .. }));
    requested.remove(&oid(2));
    assert_eq!(forge.update(&requested, true).len(), 0);
}

#[test]
fn statuses_can_be_copied() {
    let status = CommitStatus {
        submit_status: SubmitStatus::NeedsUpdate,
        local_commit_name: Some("a".to_string()),
        remote_name: None,
        remote_commit_name: Some("b".to_string()),
    };
    let copy = status.clone();
    assert_eq!(copy.submit_status, SubmitStatus::NeedsUpdate);
    assert_eq!(copy.local_commit_name.as_deref(), Some("a"));
    assert_eq!(copy.remote_name, None);
    assert_eq!(copy.remote_commit_name.as_deref(), Some("b"));
    let base = RefOrOid::Branch("a".to_string());
    assert_eq!(base.clone(), base);
    assert_ne!(base, RefOrOid::Branch("b".to_string()));
    assert_ne!(base, RefOrOid::Oid(oid(1)));
}
