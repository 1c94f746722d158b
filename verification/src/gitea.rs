//! Listing a Gitea/Forgejo owner's repositories via the `tea` CLI.
//!
//! The same shape as [`crate::gh`]: no HTTP client, no token handling of our
//! own, just riding on whatever `tea login add` already set up. The CLI also
//! keeps its own notion of which instance a login points at, which is why
//! there is no host parameter here — selecting an instance *is* selecting a
//! login, and an empty one means tea's default rather than "all instances".

use vstd::prelude::*;

use crate::config::strings;
use crate::number::to_decimal;
use crate::text::{push_text, quoted, to_chars};

verus! {

/// The arguments that list one page of every repo `owner` has on the instance
/// `login` names. An empty `login` is deliberately not an error: it means tea's own
/// default login, which is how the vast majority of single-instance users run
/// tea — adding `-l` with an empty value would override that default with nothing.
pub fn list_args(owner: &str, login: &str, page: u32) -> (r: Vec<String>)
    ensures
        crate::text::texts(r@) == seq![
            "repos"@,
            "list"@,
            "--owner"@,
            owner@,
            "--output"@,
            "json"@,
            "--limit"@,
            crate::number::decimal(crate::paging::PAGE_SIZE as int),
            "--page"@,
            crate::number::decimal(page as int),
        ] + (if login@.len() > 0 {
            seq!["-l"@, login@]
        } else {
            Seq::empty()
        }),
{
    let size = to_decimal(crate::paging::PAGE_SIZE as u64);
    let number = to_decimal(page as u64);
    let args: [&str; 10] = [
        "repos",
        "list",
        "--owner",
        owner,
        "--output",
        "json",
        "--limit",
        size.as_str(),
        "--page",
        number.as_str(),
    ];
    let ghost start = seq![
        "repos"@,
        "list"@,
        "--owner"@,
        owner@,
        "--output"@,
        "json"@,
        "--limit"@,
        crate::number::decimal(crate::paging::PAGE_SIZE as int),
        "--page"@,
        crate::number::decimal(page as int),
    ];
    assert(crate::table::strs(args@) =~= start);
    let mut out = strings(&args);
    if to_chars(login).len() > 0 {
        push_text(&mut out, "-l");
        push_text(&mut out, login);
    }
    assert(crate::text::texts(out@) =~= start + (if login@.len() > 0 {
        seq!["-l"@, login@]
    } else {
        Seq::empty()
    }));
    out
}

/// What to report of a listing that is not the JSON it should be.
pub fn bad_listing(body: &str) -> (r: String)
    ensures
        r@ == "parsing tea repos list output: "@ + crate::text::debug_quoted(body@),
{
    let mut out = "parsing tea repos list output: ".to_owned();
    let shown = quoted(body);
    out.append(shown.as_str());
    out
}

} // verus!
