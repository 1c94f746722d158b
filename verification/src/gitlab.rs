//! Listing a GitLab owner's repositories via the `glab` CLI.
//!
//! The same shape as [`crate::gh`]: no HTTP client, no token handling of our
//! own, just riding on whatever `glab auth login` already set up. What GitLab
//! adds is one decision GitHub doesn't have: a namespace can be a user or a
//! group, and the two are listed through different flags. So the API is asked
//! which kind the owner is first, then the matching list shape is paged through —
//! guessing would mean an empty result or an API error on half of all owners.

use vstd::prelude::*;

use crate::config::strings;
use crate::number::to_decimal;
use crate::text::{push_text, quoted, same};

verus! {

/// The arguments that look up what kind of namespace an owner is.
pub fn namespace_args(owner: &str) -> (r: Vec<String>)
    ensures
        crate::text::texts(r@) == seq!["api"@, "namespaces/"@ + owner@],
{
    let mut path = "namespaces/".to_owned();
    path.append(owner);
    let args: [&str; 2] = ["api", path.as_str()];
    assert(crate::table::strs(args@) =~= seq!["api"@, "namespaces/"@ + owner@]);
    strings(&args)
}

/// Who is listed: a group, with its subgroups or without, or a user.
pub open spec fn whose(owner: Seq<char>, kind: Seq<char>, subgroups: bool) -> Seq<Seq<char>> {
    if kind == "group"@ {
        if subgroups {
            seq!["--group"@, owner, "--include-subgroups"@]
        } else {
            seq!["--group"@, owner]
        }
    } else {
        seq!["--user"@, owner]
    }
}

/// The arguments that list one page of every project `owner` has.
/// `include_subgroups` only means anything for a group owner; a user's namespace
/// has no subgroups, and the flag is simply not offered there.
pub fn list_args(owner: &str, kind: &str, include_subgroups: bool, page: u32) -> (r: Vec<String>)
    ensures
        crate::text::texts(r@) == seq!["repo"@, "list"@] + whose(owner@, kind@, include_subgroups)
            + seq![
            "--output"@,
            "json"@,
            "--per-page"@,
            crate::number::decimal(crate::paging::PAGE_SIZE as int),
            "--page"@,
            crate::number::decimal(page as int),
        ],
{
    let start: [&str; 2] = ["repo", "list"];
    let mut out = strings(&start);
    if same(kind, "group") {
        push_text(&mut out, "--group");
        push_text(&mut out, owner);
        if include_subgroups {
            push_text(&mut out, "--include-subgroups");
        }
    } else {
        push_text(&mut out, "--user");
        push_text(&mut out, owner);
    }
    push_text(&mut out, "--output");
    push_text(&mut out, "json");
    push_text(&mut out, "--per-page");
    let size = to_decimal(crate::paging::PAGE_SIZE as u64);
    push_text(&mut out, size.as_str());
    push_text(&mut out, "--page");
    let number = to_decimal(page as u64);
    push_text(&mut out, number.as_str());
    assert(crate::text::texts(out@) =~= seq!["repo"@, "list"@] + whose(
        owner@,
        kind@,
        include_subgroups,
    ) + seq![
        "--output"@,
        "json"@,
        "--per-page"@,
        crate::number::decimal(crate::paging::PAGE_SIZE as int),
        "--page"@,
        crate::number::decimal(page as int),
    ]);
    out
}

/// The kind a namespace lookup gave. Both listing shapes depend on it, so an answer
/// without one is an error rather than a guess — the API always sends it, and its
/// absence means something else went wrong.
pub fn namespace_kind(kind: Option<String>) -> (r: Result<String, String>)
    ensures
        (match kind {
            Some(k) => r == Ok::<String, String>(k),
            None => r is Err && r->Err_0@ == "namespace response carries no \"kind\""@,
        }),
{
    match kind {
        Some(k) => Ok(k),
        None => Err("namespace response carries no \"kind\"".to_owned()),
    }
}

/// What to report of a namespace lookup that is not the JSON it should be.
pub fn bad_namespace(body: &str) -> (r: String)
    ensures
        r@ == "parsing glab namespace output: "@ + crate::text::debug_quoted(body@),
{
    let mut out = "parsing glab namespace output: ".to_owned();
    let shown = quoted(body);
    out.append(shown.as_str());
    out
}

/// What to report of a listing that is not the JSON it should be.
pub fn bad_listing(body: &str) -> (r: String)
    ensures
        r@ == "parsing glab repo list output: "@ + crate::text::debug_quoted(body@),
{
    let mut out = "parsing glab repo list output: ".to_owned();
    let shown = quoted(body);
    out.append(shown.as_str());
    out
}

/// A group is listed as one, with what is below it where that is asked for; anyone else is
/// listed as a user.
pub proof fn law_whose_repos_are_listed(owner: Seq<char>, kind: Seq<char>)
    ensures
        whose(owner, "group"@, true) == seq!["--group"@, owner, "--include-subgroups"@],
        whose(owner, "group"@, false) == seq!["--group"@, owner],
        kind != "group"@ ==> whose(owner, kind, true) == seq!["--user"@, owner] && whose(
            owner,
            kind,
            false,
        ) == seq!["--user"@, owner],
{
}

} // verus!
