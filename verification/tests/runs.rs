use git_branchless_submit::client::group_pull_requests;
use git_branchless_submit::create::{BranchOutcome, Creation};
use git_branchless_submit::creation_run::{
    CreationAction, CreationEvent, CreationRun, CreationSkip,
};
use git_branchless_submit::forge::GitHubForge;
use git_branchless_submit::status::StatusQuery;
use git_branchless_submit::types::{NonZeroOid, SubmitStatus};
use git_branchless_submit::update::{
    SkipReason, UpdateAction, UpdateEvent, UpdateRun, UpdateStep,
};

/// A forge that found an unsubmitted stack of the given length.
fn unsubmitted_stack(length: u32) -> GitHubForge {
    let mut forge = GitHubForge::new(&vec![], "branchless/", true);
    let pull_requests = group_pull_requests(&vec![], None);
    let mut query = StatusQuery::new("main".to_string(), None, pull_requests, vec![]);
    let head_first: Vec<NonZeroOid> = (1..=length).rev().map(|number| (0, number)).collect();
    let mut walk = query.start_walk(&head_first);
    while let Some(oid) = walk.next_commit() {
        walk.visit(&mut forge, &mut query, format!("commit {}", oid.1), "body".to_string());
    }
    walk.finish(&mut forge);
    forge
}

fn run_for(forge: &GitHubForge) -> CreationRun<&'static str> {
    CreationRun::new(Creation::new(forge.commit_statuses(), "branchless/".to_string(), false))
}

fn issue_url(number: u32) -> CreationEvent<&'static str> {
    CreationEvent::IssueCreated(format!("https://github.com/o/r/issues/{}", number))
}

#[test]
fn creation_goes_from_commit_to_commit() {
    let mut forge = unsubmitted_stack(2);
    let mut run = run_for(&forge);
    let mut event = CreationEvent::Continue;
    for number in [1, 2] {
        match run.step(&mut forge, event) {
            CreationAction::CreateIssue { oid, title, body } => {
                assert_eq!(oid, (0, number));
                assert_eq!(title, format!("commit {}", number));
                assert_eq!(body, "body");
            }
            other => panic!("unexpected {:?}", other),
        }
        match run.step(&mut forge, issue_url(number)) {
            CreationAction::CreateBranch { oid, branch_name } => {
                assert_eq!(oid, (0, number));
                assert_eq!(branch_name, format!("branchless/pr{}", number));
            }
            other => panic!("unexpected {:?}", other),
        }
        let attempted = CreationEvent::BranchAttempted(BranchOutcome::Exists);
        match run.step(&mut forge, attempted) {
            CreationAction::PushBranch { oid, commit_status } => {
                assert_eq!(oid, (0, number));
                assert_eq!(
                    commit_status.local_commit_name,
                    Some(format!("branchless/pr{}", number))
                );
            }
            other => panic!("unexpected {:?}", other),
        }
        let pushed = CreationEvent::BranchPushed(vec![((0, number), "pushed")]);
        match run.step(&mut forge, pushed) {
            CreationAction::CreatePullRequest(request) => {
                assert_eq!(request.issue_num, number as usize);
                assert_eq!(request.head_ref_name, format!("branchless/pr{}", number));
                let base = if number == 1 { "main" } else { "branchless/pr1" };
                assert_eq!(request.base_ref_name, base);
                assert!(!request.draft);
            }
            other => panic!("unexpected {:?}", other),
        }
        let created = CreationEvent::PullRequestCreated(format!("pull/{}", number));
        assert!(matches!(run.step(&mut forge, created), CreationAction::Progress));
        event = CreationEvent::Continue;
    }
    match run.step(&mut forge, event) {
        CreationAction::Update { commits } => {
            assert_eq!(commits.len(), 2);
            assert_eq!(commits[&(0, 2)].submit_status, SubmitStatus::NeedsUpdate);
        }
        other => panic!("unexpected {:?}", other),
    }
    assert!(matches!(run.step(&mut forge, CreationEvent::Updated), CreationAction::Finish));
    let results: Vec<(NonZeroOid, &str)> = run.results.into_iter().collect();
    assert_eq!(results, vec![((0, 1), "pushed"), ((0, 2), "pushed")]);
}

#[test]
fn creation_stops_at_the_first_failure() {
    let mut forge = unsubmitted_stack(2);
    let mut run = run_for(&forge);
    run.step(&mut forge, CreationEvent::Continue);
    assert!(matches!(
        run.step(&mut forge, CreationEvent::Failed(3)),
        CreationAction::Stop(3)
    ));
    run.step(&mut forge, issue_url(1));
    run.step(&mut forge, CreationEvent::BranchAttempted(BranchOutcome::Created));
    run.step(&mut forge, CreationEvent::BranchPushed(vec![((0, 1), "pushed")]));
    run.step(&mut forge, CreationEvent::PullRequestCreated("pull/1".to_string()));
    run.step(&mut forge, CreationEvent::Continue);
    assert!(matches!(
        run.step(&mut forge, CreationEvent::Failed(4)),
        CreationAction::Stop(4)
    ));
    assert_eq!(forge.stack_state.commits[0].pr_url.as_deref(), Some("pull/1"));
    assert_eq!(forge.stack_state.commits[1].pr_url, None);
    assert_eq!(run.results.len(), 1);
}

#[test]
fn creation_aborts_without_a_branch() {
    let mut forge = unsubmitted_stack(1);
    let mut run = run_for(&forge);
    run.step(&mut forge, CreationEvent::Continue);
    run.step(&mut forge, issue_url(1));
    let failed = CreationEvent::BranchAttempted(BranchOutcome::Failed);
    assert!(matches!(run.step(&mut forge, failed), CreationAction::Abort));
    assert_eq!(forge.stack_state.commits[0].commit_status.local_commit_name, None);
}

#[test]
fn creation_gives_commits_up() {
    let mut forge = unsubmitted_stack(2);
    let mut run = run_for(&forge);
    run.step(&mut forge, CreationEvent::Continue);
    assert!(matches!(
        run.step(&mut forge, CreationEvent::IssueCreated("41".to_string())),
        CreationAction::Skip { oid: (0, 1), reason: CreationSkip::MalformedIssueUrl }
    ));
    run.step(&mut forge, CreationEvent::Continue);
    run.step(&mut forge, issue_url(2));
    run.step(&mut forge, CreationEvent::BranchAttempted(BranchOutcome::Created));
    assert!(matches!(
        run.step(&mut forge, CreationEvent::BranchPushed(vec![((0, 2), "pushed")])),
        CreationAction::Skip { oid: (0, 2), reason: CreationSkip::UnknownBase }
    ));
    assert!(matches!(
        run.step(&mut forge, CreationEvent::Continue),
        CreationAction::Update { .. }
    ));
    assert_eq!(run.results[&(0, 2)], "pushed");
}

#[test]
fn creation_ignores_what_it_did_not_ask_for() {
    let mut forge = unsubmitted_stack(1);
    let mut run = run_for(&forge);
    assert!(matches!(run.step(&mut forge, CreationEvent::Updated), CreationAction::Mismatch));
    assert!(matches!(run.step(&mut forge, issue_url(1)), CreationAction::Mismatch));
    assert!(matches!(
        run.step(&mut forge, CreationEvent::Continue),
        CreationAction::CreateIssue { .. }
    ));
    assert!(matches!(run.step(&mut forge, CreationEvent::Continue), CreationAction::Mismatch));
}

fn three_actions() -> Vec<UpdateAction> {
    vec![
        UpdateAction::Skip { oid: (0, 1), reason: SkipReason::MissingNumber },
        UpdateAction::Progress,
        UpdateAction::Skip { oid: (0, 2), reason: SkipReason::UnknownBase },
    ]
}

#[test]
fn update_stops_at_the_first_failure() {
    let mut run = UpdateRun::new(three_actions());
    assert_eq!(run.step(UpdateEvent::Continue), UpdateStep::Perform(0));
    assert_eq!(run.step(UpdateEvent::Continue), UpdateStep::Perform(1));
    assert_eq!(run.step(UpdateEvent::Failed(7)), UpdateStep::Stop(7));
    let outcome = run.outcome(Some(7));
    assert_eq!(outcome.result, Err(7));
    assert_eq!(outcome.done.len(), 1);
    assert!(matches!(outcome.done[0], UpdateAction::Skip { oid: (0, 1), .. }));
}

#[test]
fn update_ends_when_everything_is_done() {
    let mut run = UpdateRun::new(three_actions());
    for index in 0..3 {
        assert_eq!(run.step(UpdateEvent::Continue), UpdateStep::Perform(index));
    }
    assert_eq!(run.step(UpdateEvent::Continue), UpdateStep::Finish);
    let outcome = run.outcome(None);
    assert_eq!(outcome.result, Ok(()));
    assert_eq!(outcome.done.len(), 3);
    let empty = UpdateRun::new(vec![]).outcome(Some(1));
    assert_eq!(empty.done.len(), 0);
    assert_eq!(empty.result, Err(1));
}
