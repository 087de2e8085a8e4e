//! What is asked of `gh` and what is made of its answers, whatever the inputs are.

use crate::client::{
    answer, call_outcome, edit_arguments, invocation_text, issue_arguments, output_answer,
    pull_request_arguments, pull_request_list_arguments, repo_slug_arguments, selected_client,
    RawOutcome, RealGitHubClient, SelectedClient, TextOutcome,
};
use crate::decode::{lossy_text, utf8_error_text};
use crate::text::{decimal, is_white_space, law_decimal_round_trip, parsed_usize};
use crate::text_laws::{all_white, law_white_space_is_taken_off};
use vstd::prelude::*;
use vstd::utf8::{decode_utf8, valid_utf8};

verus! {

/// The repository is asked for its owner and its name, and they are to be given with a slash between
/// them.
pub proof fn law_repository_is_asked_for()
    ensures
        repo_slug_arguments().len() == 6,
        repo_slug_arguments().take(2) == seq!["repo"@, "view"@],
        repo_slug_arguments()[2] == "--json"@,
        repo_slug_arguments()[3] == "owner"@ + ","@ + "name"@,
        repo_slug_arguments()[4] == "--jq"@,
        repo_slug_arguments()[5] == ".owner.login"@ + " + "@ + "\"/\""@ + " + "@ + ".name"@,
{
    reveal_strlit("owner,name");
    reveal_strlit("owner");
    reveal_strlit(",");
    reveal_strlit("name");
    reveal_strlit(".owner.login + \"/\" + .name");
    reveal_strlit(".owner.login");
    reveal_strlit(" + ");
    reveal_strlit("\"/\"");
    reveal_strlit(".name");
    assert(repo_slug_arguments().take(2) =~= seq!["repo"@, "view"@]);
    assert(repo_slug_arguments()[3] =~= "owner"@ + ","@ + "name"@);
    assert(repo_slug_arguments()[5] =~= ".owner.login"@ + " + "@ + "\"/\""@ + " + "@ + ".name"@);
}

/// The pull requests of the user are asked for, each with its number, its URL, its head, the commit
/// of its head, its base, whether it is closed, whether it is a draft, its title and its body.
pub proof fn law_pull_requests_are_asked_for()
    ensures
        pull_request_list_arguments().len() == 6,
        pull_request_list_arguments().take(2) == seq!["pr"@, "list"@],
        pull_request_list_arguments()[2] == "--author"@,
        pull_request_list_arguments()[3] == "@me"@,
        pull_request_list_arguments()[4] == "--json"@,
        pull_request_list_arguments()[5] == "number"@ + ","@ + "url"@ + ","@ + "headRefName"@ + ","@
            + "headRefOid"@ + ","@ + "baseRefName"@ + ","@ + "closed"@ + ","@ + "isDraft"@ + ","@
            + "title"@ + ","@ + "body"@,
{
    reveal_strlit("number,url,headRefName,headRefOid,baseRefName,closed,isDraft,title,body");
    reveal_strlit("number");
    reveal_strlit(",");
    reveal_strlit("url");
    reveal_strlit("headRefName");
    reveal_strlit("headRefOid");
    reveal_strlit("baseRefName");
    reveal_strlit("closed");
    reveal_strlit("isDraft");
    reveal_strlit("title");
    reveal_strlit("body");
    assert(pull_request_list_arguments().take(2) =~= seq!["pr"@, "list"@]);
    assert(pull_request_list_arguments()[5] =~= "number"@ + ","@ + "url"@ + ","@ + "headRefName"@
        + ","@ + "headRefOid"@ + ","@ + "baseRefName"@ + ","@ + "closed"@ + ","@ + "isDraft"@ + ","@
        + "title"@ + ","@ + "body"@);
}

/// An issue is created with the title that is given, as it is, and with the body in the file that is
/// given.
pub proof fn law_issue_arguments(title: Seq<char>, body_file: Seq<char>)
    ensures
        ({
            let args = issue_arguments(title, body_file);
            &&& args.len() == 6
            &&& args[0] == "issue"@
            &&& args[1] == "create"@
            &&& args[2] == "--title"@
            &&& args[3] == title
            &&& args[4] == "--body-file"@
            &&& args[5] == body_file
        }),
{
}

/// A pull request is made in the repository that is given, from the issue whose whole number is
/// given, with the head and the base that are given, each in its own place, and as a draft if and
/// only if that is asked for.
pub proof fn law_pull_request_arguments(
    slug: Seq<char>,
    issue_num: usize,
    head_ref_name: Seq<char>,
    base_ref_name: Seq<char>,
    draft: bool,
)
    ensures
        ({
            let args = pull_request_arguments(
                slug,
                issue_num,
                head_ref_name,
                base_ref_name,
                draft,
            );
            &&& args.len() == 14
            &&& args[0] == "api"@
            &&& args[1] == "/repos/"@ + slug + "/pulls"@
            &&& args[2] == "-X"@
            &&& args[3] == "POST"@
            &&& args[4] == "-F"@
            &&& args[5].take(6) == "issue="@
            &&& parsed_usize(args[5].skip(6)) == Some(issue_num)
            &&& args[5].skip(6) == decimal(issue_num as int)
            &&& args[6] == "-F"@
            &&& args[7] == "head="@ + head_ref_name
            &&& args[8] == "-F"@
            &&& args[9] == "base="@ + base_ref_name
            &&& args[10] == "-F"@
            &&& draft ==> args[11] == "draft=true"@
            &&& !draft ==> args[11] == "draft=false"@
            &&& args[12] == "-q"@
            &&& args[13] == ".html_url"@
        }),
{
    let args = pull_request_arguments(slug, issue_num, head_ref_name, base_ref_name, draft);
    reveal_strlit("issue=");
    reveal_strlit("draft=");
    reveal_strlit("true");
    reveal_strlit("false");
    reveal_strlit("draft=true");
    reveal_strlit("draft=false");
    assert(args[5].take(6) =~= "issue="@);
    assert(args[5].skip(6) =~= decimal(issue_num as int));
    law_decimal_round_trip(issue_num);
    if draft {
        assert(args[11] =~= "draft=true"@);
    } else {
        assert(args[11] =~= "draft=false"@);
    }
}

/// The pull request whose whole number is given is edited: its base and its title are set to those
/// that are given, each in its own place, and its body to what is in the file.
pub proof fn law_edit_arguments(
    pr_num: usize,
    base_ref_name: Seq<char>,
    title: Seq<char>,
    body_file: Seq<char>,
)
    ensures
        ({
            let args = edit_arguments(pr_num, base_ref_name, title, body_file);
            &&& args.len() == 9
            &&& args[0] == "pr"@
            &&& args[1] == "edit"@
            &&& parsed_usize(args[2]) == Some(pr_num)
            &&& args[2] == decimal(pr_num as int)
            &&& args[3] == "--base"@
            &&& args[4] == base_ref_name
            &&& args[5] == "--title"@
            &&& args[6] == title
            &&& args[7] == "--body-file"@
            &&& args[8] == body_file
        }),
{
    law_decimal_round_trip(pr_num);
}

/// A call is called by the program and its arguments, with a blank before each.
pub proof fn law_invocation_names_every_argument(args: Seq<Seq<char>>, arg: Seq<char>)
    ensures
        invocation_text(Seq::empty()) == "gh "@,
        invocation_text(seq![arg]) == "gh "@ + arg,
        args.len() > 0 ==> invocation_text(args.push(arg)) == invocation_text(args) + " "@ + arg,
{
    reveal_strlit("gh ");
    reveal_strlit("gh");
    reveal_strlit(" ");
    assert("gh "@ =~= "gh"@ + " "@);
    assert(args.push(arg).drop_last() =~= args);
    assert(invocation_text(Seq::empty()) =~= "gh "@);
    assert(invocation_text(seq![arg]) =~= "gh "@ + arg);
    if args.len() > 0 {
        assert(invocation_text(args.push(arg)) =~= invocation_text(args) + " "@ + arg);
    }
}

/// The output of a call that succeeded is its result, byte for byte, whatever the exit code and the
/// error output are. A call that failed is reported with its exit code, what was called, and both
/// outputs.
pub proof fn law_call_outcome(
    invocation: Seq<char>,
    exit_code: int,
    stdout: Seq<u8>,
    stderr: Seq<u8>,
)
    ensures
        call_outcome(invocation, true, exit_code, stdout, stderr) == RawOutcome::Output(stdout),
        call_outcome(invocation, false, exit_code, stdout, stderr) == (RawOutcome::Failure {
            exit_code,
            report: seq![
                "Call to `"@ + invocation + "` failed"@,
                "Stdout:"@,
                lossy_text(stdout),
                "Stderr:"@,
                lossy_text(stderr),
            ],
        }),
{
}

/// The answer is the text of the output without the white space around it. White space around it
/// changes nothing. Output that is not UTF-8 is reported.
pub proof fn law_answer_is_text_of_output(
    left: Seq<char>,
    text: Seq<char>,
    right: Seq<char>,
    stdout: Seq<u8>,
)
    requires
        all_white(left),
        all_white(right),
        text.len() > 0 ==> !is_white_space(text[0]) && !is_white_space(text[text.len() - 1]),
    ensures
        answer(Ok(left + text + right)) == TextOutcome::Text(text),
        valid_utf8(stdout) && decode_utf8(stdout) == left + text + right ==> output_answer(stdout)
            == TextOutcome::Text(text),
        !valid_utf8(stdout) ==> output_answer(stdout) == (TextOutcome::Failure {
            exit_code: 1,
            report: seq!["Could not parse output from `gh` as UTF-8: "@ + utf8_error_text(stdout)],
        }),
{
    law_white_space_is_taken_off(left, text, right);
}

/// The mock client is used if and only if there is a path for it, be it empty or not.
pub proof fn law_client_is_selected(path: String)
    ensures
        selected_client(Some(path)) is Mock,
        selected_client(Some(path))->Mock_0.remote_repo_path == path,
        selected_client(None) == SelectedClient::Real(RealGitHubClient {  }),
{
}

} // verus!
