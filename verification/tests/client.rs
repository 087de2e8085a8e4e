use git_branchless_submit::client::{
    group_pull_requests, select_client, MockGitHubClient, PullRequestInfo, RealGitHubClient,
    SelectedClient, GH_EXE,
};

fn info(number: usize, head_ref_name: &str) -> PullRequestInfo {
    PullRequestInfo {
        number,
        url: format!("https://github.com/o/r/pull/{}", number),
        head_ref_name: head_ref_name.to_string(),
        head_ref_oid: (0, 1),
        base_ref_name: "main".to_string(),
        closed: false,
        is_draft: false,
        title: "title".to_string(),
        body: "body".to_string(),
    }
}

#[test]
fn pull_requests_are_grouped_by_their_branches() {
    let infos = vec![info(1, "branchless/a"), info(2, "other"), info(3, "branchless/a")];
    let groups = group_pull_requests(&infos, Some("branchless/"));
    assert_eq!(groups.len(), 1);
    let group = groups.get("branchless/a").unwrap();
    assert_eq!(group.iter().map(|info| info.number).collect::<Vec<_>>(), vec![1, 3]);
    assert_eq!(group[1].url, "https://github.com/o/r/pull/3");
    assert!(groups.get("other").is_none());
}

#[test]
fn every_pull_request_is_grouped_without_a_prefix() {
    let infos = vec![info(1, "branchless/a"), info(2, "other"), info(3, "")];
    let groups = group_pull_requests(&infos, None);
    assert_eq!(groups.len(), 3);
    assert_eq!(groups.get("other").unwrap()[0].number, 2);
    assert_eq!(groups.get("").unwrap()[0].number, 3);
}

#[test]
fn arguments_of_gh() {
    let client = RealGitHubClient {};
    assert_eq!(GH_EXE, "gh");
    assert_eq!(
        client.query_current_repo_slug(),
        vec!["repo", "view", "--json", "owner,name", "--jq", ".owner.login + \"/\" + .name"]
    );
    assert_eq!(
        client.query_repo_pull_requests(),
        vec![
            "pr",
            "list",
            "--author",
            "@me",
            "--json",
            "number,url,headRefName,headRefOid,baseRefName,closed,isDraft,title,body",
        ]
    );
    assert_eq!(
        client.create_issue("A title", "/tmp/body"),
        vec!["issue", "create", "--title", "A title", "--body-file", "/tmp/body"]
    );
    assert_eq!(
        client.create_pull_request_from_issue("o/r", 12, "branchless/pr12", "main", true),
        vec![
            "api",
            "/repos/o/r/pulls",
            "-X",
            "POST",
            "-F",
            "issue=12",
            "-F",
            "head=branchless/pr12",
            "-F",
            "base=main",
            "-F",
            "draft=true",
            "-q",
            ".html_url",
        ]
    );
    assert_eq!(
        client.create_pull_request_from_issue("o/r", 0, "h", "b", false)[11],
        "draft=false"
    );
    assert_eq!(
        client.update_pull_request(120, "main", "A title", "/tmp/body"),
        vec![
            "pr",
            "edit",
            "120",
            "--base",
            "main",
            "--title",
            "A title",
            "--body-file",
            "/tmp/body",
        ]
    );
}

#[test]
fn invocation_as_it_is_shown() {
    let client = RealGitHubClient {};
    let args = vec!["pr".to_string(), "list".to_string()];
    assert_eq!(client.exe_invocation(&args), "gh pr list");
    assert_eq!(client.exe_invocation(&vec![]), "gh ");
}

#[test]
fn failed_call_is_reported() {
    let client = RealGitHubClient {};
    let failure = client
        .run_gh_raw("gh pr list", false, 4, b"out\xff".to_vec(), &b"err".to_vec())
        .unwrap_err();
    assert_eq!(failure.exit_code, 4);
    assert_eq!(
        failure.report,
        vec!["Call to `gh pr list` failed", "Stdout:", "out\u{fffd}", "Stderr:", "err"]
    );
}

#[test]
fn output_of_a_call_that_succeeded() {
    let client = RealGitHubClient {};
    let output = client.run_gh_raw("gh", true, 0, b"\xffout".to_vec(), &b"err".to_vec());
    assert_eq!(output.unwrap(), b"\xffout".to_vec());
}

#[test]
fn text_output_is_trimmed() {
    let client = RealGitHubClient {};
    let text = client.run_gh_utf8(&" https://github.com/é\n".as_bytes().to_vec());
    assert_eq!(text.unwrap(), "https://github.com/é");
    assert_eq!(client.answer(Ok("\ta b ".to_string())).unwrap(), "a b");
}

#[test]
fn output_that_is_not_utf8() {
    let client = RealGitHubClient {};
    let failure = client.run_gh_utf8(&b"ab\xff".to_vec()).unwrap_err();
    assert_eq!(failure.exit_code, 1);
    assert_eq!(
        failure.report,
        vec![
            "Could not parse output from `gh` as UTF-8: \
             invalid utf-8 sequence of 1 bytes from index 2",
        ]
    );
    let failure = client.answer(Err("reason".to_string())).unwrap_err();
    assert_eq!(failure.report, vec!["Could not parse output from `gh` as UTF-8: reason"]);
}

#[test]
fn mock_client_knows_nothing() {
    let client = MockGitHubClient { remote_repo_path: "/remote".to_string() };
    assert_eq!(client.query_repo_pull_requests(Some("branchless/")).len(), 0);
    assert_eq!(client.create_issue("title", "body"), "");
    assert_eq!(client.create_pull_request_from_issue(1, "head", "base", false), "");
}

#[test]
fn mock_client_is_selected_by_its_path() {
    assert!(matches!(select_client(None), SelectedClient::Real(_)));
    match select_client(Some("/remote".to_string())) {
        SelectedClient::Mock(client) => assert_eq!(client.remote_repo_path, "/remote"),
        SelectedClient::Real(_) => panic!("the mock client should be selected"),
    }
}
