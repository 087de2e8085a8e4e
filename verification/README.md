# git-branchless-submit

Submits stacks of local commits as GitHub pull requests. This crate makes the decisions and proves
them with [Verus](https://github.com/verus-lang/verus); a thin layer of ordinary Rust calls `gh` and
git.

- `src/status.rs`: walks every stack and finds out which commits are out of date.
- `src/create.rs`, `src/creation_run.rs`: creates branches and pull requests, one commit after the
  other, up to the first call that fails.
- `src/update.rs`: decides what is pushed and which pull requests are edited, and where to stop.
- `src/formatter.rs`: renders the stack section of a pull request's body.
- `src/client.rs`: says how `gh` is called and what its output means.
- `src/forge.rs`, `src/types.rs`, `src/oid.rs`, `src/text.rs`: the state of a submission, commit ids
  and text.
- `src/commits.rs`, `src/decode.rs`: the functions of `indexmap` and of the standard library whose
  contracts are trusted.
- `src/*_laws.rs`: what holds of the library as a whole.
- `app/`: performs the decisions, given handles to the repository and to the commit graph.
- `tests/`: runs the library on concrete values.
