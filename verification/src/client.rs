//! What is asked of GitHub's `gh` command line tool, and what its answers mean.

use crate::decode::{decode_lossy, decode_strict, lossy_text, utf8_error_text};
use crate::text::{
    concat, decimal, join, joined, starts_with, texts, trim, trimmed, write_decimal,
};
use crate::types::NonZeroOid;
use vstd::hash_map::StringHashMap;
use vstd::prelude::*;
use vstd::utf8::{decode_utf8, valid_utf8};

verus! {

/// Executable name for the GitHub CLI.
pub const GH_EXE: &'static str = "gh";

/// A pull request as GitHub knows it.
#[derive(Debug)]
pub struct PullRequestInfo {
    pub number: usize,
    pub url: String,
    pub head_ref_name: String,
    pub head_ref_oid: NonZeroOid,
    pub base_ref_name: String,
    pub closed: bool,
    pub is_draft: bool,
    pub title: String,
    pub body: String,
}

/// What a [`PullRequestInfo`] says, with each text as its characters.
pub struct PullRequestInfoView {
    pub number: usize,
    pub url: Seq<char>,
    pub head_ref_name: Seq<char>,
    pub head_ref_oid: NonZeroOid,
    pub base_ref_name: Seq<char>,
    pub closed: bool,
    pub is_draft: bool,
    pub title: Seq<char>,
    pub body: Seq<char>,
}

impl View for PullRequestInfo {
    type V = PullRequestInfoView;

    open spec fn view(&self) -> PullRequestInfoView {
        PullRequestInfoView {
            number: self.number,
            url: self.url@,
            head_ref_name: self.head_ref_name@,
            head_ref_oid: self.head_ref_oid,
            base_ref_name: self.base_ref_name@,
            closed: self.closed,
            is_draft: self.is_draft,
            title: self.title@,
            body: self.body@,
        }
    }
}

impl Clone for PullRequestInfo {
    fn clone(&self) -> (copy: Self)
        ensures
            copy@ == self@,
    {
        PullRequestInfo {
            number: self.number,
            url: self.url.clone(),
            head_ref_name: self.head_ref_name.clone(),
            head_ref_oid: self.head_ref_oid,
            base_ref_name: self.base_ref_name.clone(),
            closed: self.closed,
            is_draft: self.is_draft,
            title: self.title.clone(),
            body: self.body.clone(),
        }
    }
}

/// Pull requests by the names of their head branches.
pub type PullRequests = StringHashMap<Vec<PullRequestInfo>>;

/// What pull requests say, in their order.
pub open spec fn infos_view(infos: Seq<PullRequestInfo>) -> Seq<PullRequestInfoView> {
    Seq::new(infos.len(), |i: int| infos[i]@)
}

/// What pull requests say, by the names of their head branches.
pub open spec fn pull_requests_view(pull_requests: PullRequests) -> Map<
    Seq<char>,
    Seq<PullRequestInfoView>,
> {
    pull_requests@.map_values(|infos: Vec<PullRequestInfo>| infos_view(infos@))
}

/// Whether a branch name matches a prefix. Every name matches where no prefix is asked for.
pub open spec fn matches_prefix(branch: Seq<char>, prefix: Option<Seq<char>>) -> bool {
    match prefix {
        Some(prefix) => prefix.is_prefix_of(branch),
        None => true,
    }
}

/// The pull requests whose head is the given branch, in their order.
pub open spec fn infos_of_branch(infos: Seq<PullRequestInfoView>, branch: Seq<char>) -> Seq<
    PullRequestInfoView,
> {
    infos.filter(|info: PullRequestInfoView| info.head_ref_name == branch)
}

/// The pull requests whose heads match a prefix, by the names of their head branches. No branch
/// is without a pull request.
pub open spec fn grouped(infos: Seq<PullRequestInfoView>, prefix: Option<Seq<char>>) -> Map<
    Seq<char>,
    Seq<PullRequestInfoView>,
> {
    Map::new(
        |branch: Seq<char>|
            matches_prefix(branch, prefix) && infos_of_branch(infos, branch).len() > 0,
        |branch: Seq<char>| infos_of_branch(infos, branch),
    )
}

/// Collects the pull requests whose head is the given branch.
fn collect_branch(infos: &Vec<PullRequestInfo>, branch: &String) -> (found: Vec<PullRequestInfo>)
    ensures
        infos_view(found@) == infos_of_branch(infos_view(infos@), branch@),
{
    let mut found: Vec<PullRequestInfo> = Vec::new();
    let mut i: usize = 0;
    let ghost all = infos_view(infos@);
    proof {
        reveal(Seq::filter);
        assert(all.take(0) =~= Seq::<PullRequestInfoView>::empty());
        assert(infos_view(found@) =~= infos_of_branch(all.take(0), branch@));
    }
    while i < infos.len()
        invariant
            i <= infos@.len(),
            all == infos_view(infos@),
            infos_view(found@) == infos_of_branch(all.take(i as int), branch@),
        decreases infos@.len() - i,
    {
        let info = &infos[i];
        proof {
            reveal(Seq::filter);
            assert(all.take(i + 1).drop_last() =~= all.take(i as int));
        }
        let ghost before = infos_view(found@);
        if info.head_ref_name == *branch {
            found.push(info.clone());
            assert(infos_view(found@) =~= before.push(info@));
        }
        i += 1;
    }
    assert(all.take(i as int) =~= all);
    found
}

/// A branch that is the head of some pull request has pull requests, and the other way round.
proof fn lemma_branch_has_infos(infos: Seq<PullRequestInfoView>, branch: Seq<char>)
    ensures
        infos_of_branch(infos, branch).len() > 0 <==> exists|i: int|
            0 <= i < infos.len() && (#[trigger] infos[i]).head_ref_name == branch,
    decreases infos.len(),
{
    reveal(Seq::filter);
    if infos.len() > 0 {
        let front = infos.drop_last();
        lemma_branch_has_infos(front, branch);
        if infos_of_branch(front, branch).len() > 0 {
            let i = choose|i: int|
                0 <= i < front.len() && (#[trigger] front[i]).head_ref_name == branch;
            assert(infos[i] == front[i]);
        }
        if exists|i: int| 0 <= i < infos.len() && (#[trigger] infos[i]).head_ref_name == branch {
            let i = choose|i: int|
                0 <= i < infos.len() && (#[trigger] infos[i]).head_ref_name == branch;
            if i < front.len() {
                assert(front[i] == infos[i]);
            }
        }
    }
}

/// Every pull request whose head matches the prefix is among those of its branch, and no other
/// pull request is in any group.
pub proof fn law_pull_requests_grouped(infos: Seq<PullRequestInfoView>, prefix: Option<Seq<char>>)
    ensures
        forall|i: int|
            0 <= i < infos.len() && matches_prefix((#[trigger] infos[i]).head_ref_name, prefix)
                ==> grouped(infos, prefix).contains_key(infos[i].head_ref_name) && grouped(
                infos,
                prefix,
            )[infos[i].head_ref_name].contains(infos[i]),
        forall|branch: Seq<char>, k: int| #![trigger grouped(infos, prefix)[branch][k]]
            grouped(infos, prefix).contains_key(branch) && 0 <= k < grouped(infos, prefix)[branch].len()
                ==> infos.contains(grouped(infos, prefix)[branch][k]) && grouped(
                infos,
                prefix,
            )[branch][k].head_ref_name == branch && matches_prefix(branch, prefix),
{
    assert forall|i: int|
        0 <= i < infos.len() && matches_prefix(
            (#[trigger] infos[i]).head_ref_name,
            prefix,
        ) implies grouped(infos, prefix).contains_key(infos[i].head_ref_name) && grouped(
        infos,
        prefix,
    )[infos[i].head_ref_name].contains(infos[i]) by {
        let branch = infos[i].head_ref_name;
        let pred = |info: PullRequestInfoView| info.head_ref_name == branch;
        lemma_branch_has_infos(infos, branch);
        assert(pred(infos[i]));
        infos.lemma_filter_contains(pred, i);
    }
    assert forall|branch: Seq<char>, k: int| #![trigger grouped(infos, prefix)[branch][k]]
        grouped(infos, prefix).contains_key(branch) && 0 <= k < grouped(
            infos,
            prefix,
        )[branch].len() implies infos.contains(grouped(infos, prefix)[branch][k]) && grouped(
        infos,
        prefix,
    )[branch][k].head_ref_name == branch && matches_prefix(branch, prefix) by {
        let pred = |info: PullRequestInfoView| info.head_ref_name == branch;
        infos.lemma_filter_pred(pred, k);
        assert(infos.filter(pred).contains(infos.filter(pred)[k]));
        infos.lemma_filter_contains_rev(pred, infos.filter(pred)[k]);
    }
}

/// Groups the pull requests whose heads match a prefix by the names of their head branches.
pub fn group_pull_requests(infos: &Vec<PullRequestInfo>, head_ref_prefix: Option<&str>) -> (groups:
    PullRequests)
    ensures
        pull_requests_view(groups) == grouped(
            infos_view(infos@),
            match head_ref_prefix {
                Some(prefix) => Some(prefix@),
                None => None,
            },
        ),
{
    let mut groups: PullRequests = StringHashMap::new();
    let mut i: usize = 0;
    let ghost all = infos_view(infos@);
    let ghost prefix = match head_ref_prefix {
        Some(prefix) => Some(prefix@),
        None => None,
    };
    while i < infos.len()
        invariant
            i <= infos@.len(),
            all == infos_view(infos@),
            prefix == (match head_ref_prefix {
                Some(prefix) => Some(prefix@),
                None => None,
            }),
            forall|branch: Seq<char>| #[trigger]
                groups@.contains_key(branch) ==> grouped(all, prefix).contains_key(branch)
                    && infos_view(groups@[branch]@) == grouped(all, prefix)[branch],
            forall|j: int|
                0 <= j < i && matches_prefix((#[trigger] all[j]).head_ref_name, prefix)
                    ==> groups@.contains_key(all[j].head_ref_name),
        decreases infos@.len() - i,
    {
        let branch = &infos[i].head_ref_name;
        let wanted = match head_ref_prefix {
            Some(prefix) => starts_with(branch.as_str(), prefix),
            None => true,
        };
        if wanted && !groups.contains_key(branch.as_str()) {
            proof {
                assert(all[i as int].head_ref_name == branch@);
                lemma_branch_has_infos(all, branch@);
            }
            let found = collect_branch(infos, branch);
            groups.insert(branch.clone(), found);
        }
        assert(matches_prefix(all[i as int].head_ref_name, prefix) ==> groups@.contains_key(
            all[i as int].head_ref_name,
        ));
        i += 1;
    }
    proof {
        assert forall|branch: Seq<char>| #[trigger]
            grouped(all, prefix).contains_key(branch) implies groups@.contains_key(branch) by {
            lemma_branch_has_infos(all, branch);
            let j = choose|j: int|
                0 <= j < all.len() && (#[trigger] all[j]).head_ref_name == branch;
            assert(groups@.contains_key(all[j].head_ref_name));
        }
        assert(pull_requests_view(groups) =~= grouped(all, prefix));
    }
    groups
}

/// Regular client. Wraps the `gh` command line tool: it says which arguments `gh` is to be called
/// with, and what the output means.
#[derive(Debug)]
pub struct RealGitHubClient {}

/// A mock client representing the remote GitHub repository and server.
#[derive(Debug)]
pub struct MockGitHubClient {
    /// The path to the remote repository on disk.
    pub remote_repo_path: String,
}

/// The characters of each part.
spec fn parts_view(parts: Seq<&str>) -> Seq<Seq<char>> {
    Seq::new(parts.len(), |i: int| parts[i]@)
}

/// Copies the parts of a command line.
fn arguments(parts: &[&str]) -> (args: Vec<String>)
    ensures
        texts(args@) == parts_view(parts@),
{
    let mut args: Vec<String> = Vec::new();
    let mut i: usize = 0;
    while i < parts.len()
        invariant
            i <= parts@.len(),
            texts(args@) == parts_view(parts@).take(i as int),
        decreases parts@.len() - i,
    {
        let ghost before = texts(args@);
        args.push(parts[i].to_owned());
        assert(texts(args@) =~= before.push(parts@[i as int]@));
        assert(texts(args@) =~= parts_view(parts@).take(i + 1));
        i += 1;
    }
    assert(texts(args@) =~= parts_view(parts@));
    args
}

/// Why a call of `gh` gave no result: the exit code to end with and the lines to tell the user.
#[derive(Debug)]
pub struct GhFailure {
    pub exit_code: isize,
    pub report: Vec<String>,
}

/// The outcome of a call of `gh` that should give a text, with each text as its characters.
pub enum TextOutcome {
    Text(Seq<char>),
    Failure { exit_code: int, report: Seq<Seq<char>> },
}

/// What the outcome of a call of `gh` says.
pub open spec fn text_outcome(outcome: Result<String, GhFailure>) -> TextOutcome {
    match outcome {
        Ok(text) => TextOutcome::Text(text@),
        Err(failure) => TextOutcome::Failure {
            exit_code: failure.exit_code as int,
            report: texts(failure.report@),
        },
    }
}

/// The lines that tell the user of a call that failed.
pub open spec fn failure_lines(
    exe_invocation: Seq<char>,
    stdout: Seq<char>,
    stderr: Seq<char>,
) -> Seq<Seq<char>> {
    seq!["Call to `"@ + exe_invocation + "` failed"@, "Stdout:"@, stdout, "Stderr:"@, stderr]
}

/// What text output means: without the white space around it, it is the answer. Output that is not
/// UTF-8 is no answer.
pub open spec fn answer(decoded: Result<Seq<char>, Seq<char>>) -> TextOutcome {
    match decoded {
        Ok(text) => TextOutcome::Text(trimmed(text)),
        Err(error) => TextOutcome::Failure {
            exit_code: 1,
            report: seq!["Could not parse output from `gh` as UTF-8: "@ + error],
        },
    }
}

/// The arguments to ask for the owner and the name of the current repository.
pub open spec fn repo_slug_arguments() -> Seq<Seq<char>> {
    seq![
        "repo"@,
        "view"@,
        "--json"@,
        "owner,name"@,
        "--jq"@,
        ".owner.login + \"/\" + .name"@,
    ]
}

/// The arguments to list pull requests.
pub open spec fn pull_request_list_arguments() -> Seq<Seq<char>> {
    seq![
        "pr"@,
        "list"@,
        "--author"@,
        "@me"@,
        "--json"@,
        "number,url,headRefName,headRefOid,baseRefName,closed,isDraft,title,body"@,
    ]
}

/// The arguments to create an issue.
pub open spec fn issue_arguments(title: Seq<char>, body_file: Seq<char>) -> Seq<Seq<char>> {
    seq!["issue"@, "create"@, "--title"@, title, "--body-file"@, body_file]
}

/// The arguments to convert an issue into a pull request.
pub open spec fn pull_request_arguments(
    slug: Seq<char>,
    issue_num: usize,
    head_ref_name: Seq<char>,
    base_ref_name: Seq<char>,
    draft: bool,
) -> Seq<Seq<char>> {
    seq![
        "api"@,
        "/repos/"@ + slug + "/pulls"@,
        "-X"@,
        "POST"@,
        "-F"@,
        "issue="@ + decimal(issue_num as int),
        "-F"@,
        "head="@ + head_ref_name,
        "-F"@,
        "base="@ + base_ref_name,
        "-F"@,
        "draft="@ + (if draft {
            "true"@
        } else {
            "false"@
        }),
        "-q"@,
        ".html_url"@,
    ]
}

/// The arguments to edit a pull request.
pub open spec fn edit_arguments(
    pr_num: usize,
    base_ref_name: Seq<char>,
    title: Seq<char>,
    body_file: Seq<char>,
) -> Seq<Seq<char>> {
    seq![
        "pr"@,
        "edit"@,
        decimal(pr_num as int),
        "--base"@,
        base_ref_name,
        "--title"@,
        title,
        "--body-file"@,
        body_file,
    ]
}

/// What a call is called when the user is told of it.
pub open spec fn invocation_text(args: Seq<Seq<char>>) -> Seq<char> {
    GH_EXE@ + " "@ + joined(args, " "@)
}

/// The outcome of a call of `gh`, with each text as its characters.
pub enum RawOutcome {
    Output(Seq<u8>),
    Failure { exit_code: int, report: Seq<Seq<char>> },
}

/// What the outcome of a call of `gh` says.
pub open spec fn raw_outcome(outcome: Result<Vec<u8>, GhFailure>) -> RawOutcome {
    match outcome {
        Ok(output) => RawOutcome::Output(output@),
        Err(failure) => RawOutcome::Failure {
            exit_code: failure.exit_code as int,
            report: texts(failure.report@),
        },
    }
}

/// What a finished call means: its output is the result if the call succeeded.
pub open spec fn call_outcome(
    exe_invocation: Seq<char>,
    success: bool,
    exit_code: int,
    stdout: Seq<u8>,
    stderr: Seq<u8>,
) -> RawOutcome {
    if success {
        RawOutcome::Output(stdout)
    } else {
        RawOutcome::Failure {
            exit_code,
            report: failure_lines(exe_invocation, lossy_text(stdout), lossy_text(stderr)),
        }
    }
}

/// What the output of a call that succeeded means, where it should be text.
pub open spec fn output_answer(stdout: Seq<u8>) -> TextOutcome {
    answer(
        if valid_utf8(stdout) {
            Ok(decode_utf8(stdout))
        } else {
            Err(utf8_error_text(stdout))
        },
    )
}

impl RealGitHubClient {
    /// The arguments to ask for the owner and the name of the current repository.
    pub fn query_current_repo_slug(&self) -> (args: Vec<String>)
        ensures
            texts(args@) == repo_slug_arguments(),
    {
        let args = arguments(
            &["repo", "view", "--json", "owner,name", "--jq", ".owner.login + \"/\" + .name"],
        );
        args
    }

    /// The arguments to fetch a list of the user's pull requests for the current repository.
    pub fn query_repo_pull_requests(&self) -> (args: Vec<String>)
        ensures
            texts(args@) == pull_request_list_arguments(),
    {
        let args = arguments(
            &[
                "pr",
                "list",
                "--author",
                "@me",
                "--json",
                "number,url,headRefName,headRefOid,baseRefName,closed,isDraft,title,body",
            ],
        );
        args
    }

    /// The arguments to create a GitHub issue with the given title and with a body that is read
    /// from a file. The output is the issue's URL.
    pub fn create_issue(&self, title: &str, body_file: &str) -> (args: Vec<String>)
        ensures
            texts(args@) == issue_arguments(title@, body_file@),
    {
        let args = arguments(&["issue", "create", "--title", title, "--body-file", body_file]);
        args
    }

    /// The arguments to convert the given issue to a GitHub pull request using the given `HEAD`
    /// and base ref, in the repository with the given owner and name. The output is the pull
    /// request's URL.
    pub fn create_pull_request_from_issue(
        &self,
        slug: &str,
        issue_num: usize,
        head_ref_name: &str,
        base_ref_name: &str,
        draft: bool,
    ) -> (args: Vec<String>)
        ensures
            texts(args@) == pull_request_arguments(
                slug@,
                issue_num,
                head_ref_name@,
                base_ref_name@,
                draft,
            ),
    {
        let mut endpoint = concat("/repos/", slug);
        endpoint.append("/pulls");
        let issue_field = concat("issue=", write_decimal(issue_num).as_str());
        let head_field = concat("head=", head_ref_name);
        let base_field = concat("base=", base_ref_name);
        let draft_field = if draft {
            concat("draft=", "true")
        } else {
            concat("draft=", "false")
        };
        let args = arguments(
            &[
                "api",
                endpoint.as_str(),
                "-X",
                "POST",
                "-F",
                issue_field.as_str(),
                "-F",
                head_field.as_str(),
                "-F",
                base_field.as_str(),
                "-F",
                draft_field.as_str(),
                "-q",
                // jq syntax to get the url out of the response
                ".html_url",
            ],
        );
        args
    }

    /// The arguments to update the specified pull request's title, body, and base ref. The body
    /// is read from a file.
    pub fn update_pull_request(
        &self,
        pr_num: usize,
        base_ref_name: &str,
        title: &str,
        body_file: &str,
    ) -> (args: Vec<String>)
        ensures
            texts(args@) == edit_arguments(pr_num, base_ref_name@, title@, body_file@),
    {
        let number = write_decimal(pr_num);
        let args = arguments(
            &[
                "pr",
                "edit",
                number.as_str(),
                "--base",
                base_ref_name,
                "--title",
                title,
                "--body-file",
                body_file,
            ],
        );
        args
    }

    /// What a call of `gh` is called when the user is told of it.
    pub fn exe_invocation(&self, args: &Vec<String>) -> (invocation: String)
        ensures
            invocation@ == invocation_text(texts(args@)),
    {
        let mut invocation = concat(GH_EXE, " ");
        invocation.append(join(args, " ").as_str());
        invocation
    }

    /// Reports a call that failed, given the text of its output.
    pub fn failure(
        &self,
        exe_invocation: &str,
        exit_code: isize,
        stdout: String,
        stderr: String,
    ) -> (failure: GhFailure)
        ensures
            failure.exit_code == exit_code,
            texts(failure.report@) == failure_lines(exe_invocation@, stdout@, stderr@),
    {
        let mut call = concat("Call to `", exe_invocation);
        call.append("` failed");
        let report = arguments(
            &[call.as_str(), "Stdout:", stdout.as_str(), "Stderr:", stderr.as_str()],
        );
        GhFailure { exit_code, report }
    }

    /// What a finished call of `gh` means: its output is the result if the call succeeded.
    pub fn run_gh_raw(
        &self,
        exe_invocation: &str,
        success: bool,
        exit_code: isize,
        stdout: Vec<u8>,
        stderr: &Vec<u8>,
    ) -> (result: Result<Vec<u8>, GhFailure>)
        ensures
            raw_outcome(result) == call_outcome(
                exe_invocation@,
                success,
                exit_code as int,
                stdout@,
                stderr@,
            ),
    {
        if success {
            Ok(stdout)
        } else {
            let stdout_text = decode_lossy(&stdout);
            let stderr_text = decode_lossy(stderr);
            Err(self.failure(exe_invocation, exit_code, stdout_text, stderr_text))
        }
    }

    /// What text output means, given the text or else what is wrong with it.
    pub fn answer(&self, decoded: Result<String, String>) -> (result: Result<String, GhFailure>)
        ensures
            text_outcome(result) == answer(
                match decoded {
                    Ok(text) => Ok(text@),
                    Err(error) => Err(error@),
                },
            ),
    {
        match decoded {
            Ok(text) => Ok(trim(text.as_str()).to_owned()),
            Err(error) => {
                let line = concat("Could not parse output from `gh` as UTF-8: ", error.as_str());
                let report = arguments(&[line.as_str()]);
                assert(texts(report@) =~= seq![line@]);
                Err(GhFailure { exit_code: 1, report })
            },
        }
    }

    /// What the output of a call that succeeded means, where the output should be text.
    pub fn run_gh_utf8(&self, stdout: &Vec<u8>) -> (result: Result<String, GhFailure>)
        ensures
            text_outcome(result) == output_answer(stdout@),
    {
        let decoded = decode_strict(stdout);
        self.answer(decoded)
    }
}

impl MockGitHubClient {
    /// There are no pull requests, whatever prefix is asked for.
    pub fn query_repo_pull_requests(&self, _head_ref_prefix: Option<&str>) -> (pull_requests:
        PullRequests)
        ensures
            pull_requests_view(pull_requests) == Map::<
                Seq<char>,
                Seq<PullRequestInfoView>,
            >::empty(),
    {
        let pull_requests: PullRequests = StringHashMap::new();
        assert(pull_requests_view(pull_requests) =~= Map::<
            Seq<char>,
            Seq<PullRequestInfoView>,
        >::empty());
        pull_requests
    }

    /// The URL of a new issue is empty.
    pub fn create_issue(&self, _title: &str, _body: &str) -> (url: String)
        ensures
            url@ == Seq::<char>::empty(),
    {
        String::new()
    }

    /// The URL of a new pull request is empty.
    pub fn create_pull_request_from_issue(
        &self,
        _issue_num: usize,
        _head_ref_name: &str,
        _base_ref_name: &str,
        _draft: bool,
    ) -> (url: String)
        ensures
            url@ == Seq::<char>::empty(),
    {
        String::new()
    }
}

/// The client that a submission uses.
#[derive(Debug)]
pub enum SelectedClient {
    Real(RealGitHubClient),
    Mock(MockGitHubClient),
}

/// The client that is used: the mock one if there is a path for it.
pub open spec fn selected_client(mock_remote_repo_path: Option<String>) -> SelectedClient {
    match mock_remote_repo_path {
        Some(path) => SelectedClient::Mock(MockGitHubClient { remote_repo_path: path }),
        None => SelectedClient::Real(RealGitHubClient {  }),
    }
}

/// Selects the client: the mock one if the path of a mock remote is set in the environment.
pub fn select_client(mock_remote_repo_path: Option<String>) -> (client: SelectedClient)
    ensures
        client == selected_client(mock_remote_repo_path),
{
    match mock_remote_repo_path {
        Some(path) => SelectedClient::Mock(MockGitHubClient { remote_repo_path: path }),
        None => SelectedClient::Real(RealGitHubClient {  }),
    }
}

} // verus!
