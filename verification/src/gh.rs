//! Repository visibility via the `gh` CLI.
//!
//! This is the one probe in the whole tool that isn't `git`. Visibility is a
//! property the host tracks, not something recorded anywhere under `.git`, so
//! there is no way to answer "is this public or private" without asking
//! GitHub. The program shells out to `gh` the same way it shells out to `git`: no
//! HTTP client, no token handling of our own, just riding on
//! whatever `gh auth login` already set up. Only github.com remotes are
//! recognised for now; anything else is skipped rather than guessed at.

use vstd::prelude::*;
use vstd::slice::slice_subrange;

use crate::config::strings;
use crate::model::Visibility;
use crate::text::{
    copy_chars, find_str, first_line_of, from_chars, has_char, past_last, quoted, spells,
    split_once_at, stripped_prefix, stripped_suffix, to_chars, to_lowercase, trimmed, trimmed_char,
    up_to_char,
};

verus! {

/// Whether a host is one that `gh` can answer for.
pub open spec fn github_host(host: Seq<char>) -> bool {
    let low = crate::text::lowercase(host);
    let bare = match crate::text::strip_prefix(low, "www."@) {
        Some(rest) => rest,
        None => low,
    };
    bare == "github.com"@ || bare == "ssh.github.com"@
}

/// Hosts whose repos `gh` can answer for.
///
/// `ssh.github.com` is the port-443 endpoint GitHub documents for networks
/// that block 22 — a different name for exactly the same repositories, and a
/// remote people on locked-down corporate networks really do have. The slug
/// is what `gh` looks up, so which of the two names got it here doesn't
/// matter once it's parsed.
pub fn is_github_host(host: &str) -> (r: bool)
    ensures
        r == github_host(host@),
{
    let v = to_chars(host);
    github_chars(v.as_slice())
}

fn github_chars(host: &[char]) -> (r: bool)
    ensures
        r == github_host(host@),
{
    let low = to_lowercase(host);
    let bare = match stripped_prefix(low.as_slice(), "www.") {
        Some(rest) => rest,
        None => low.as_slice(),
    };
    spells(bare, "github.com") || spells(bare, "ssh.github.com")
}

/// A URL cut at its first `://`: the scheme, and what follows.
pub open spec fn split_scheme(url: Seq<char>) -> Option<(Seq<char>, Seq<char>)> {
    match crate::text::find(url, "://"@) {
        Some(i) => Some((url.take(i), url.skip(i + 3))),
        None => None,
    }
}

pub open spec fn known_scheme(scheme: Seq<char>) -> bool {
    let low = crate::text::lowercase(scheme);
    low == "ssh"@ || low == "https"@ || low == "http"@ || low == "git"@
}

/// The path of a remote on GitHub: behind `scheme://[user@]host[:port]/`, or
/// behind the colon of `[user@]host:path`.
pub open spec fn github_path(url: Seq<char>) -> Option<Seq<char>> {
    match split_scheme(url) {
        Some((scheme, after)) => match crate::text::split_once(after, '/') {
            Some((authority, path)) if known_scheme(scheme) && github_host(
                crate::text::before_char(crate::text::after_last(authority, '@'), ':'),
            ) => Some(path),
            _ => None,
        },
        None => match crate::text::split_once(url, ':') {
            Some((authority, path)) if github_host(
                crate::text::after_last(authority, '@'),
            ) => Some(path),
            _ => None,
        },
    }
}

pub open spec fn without_suffix(s: Seq<char>, suffix: Seq<char>) -> Seq<char> {
    match crate::text::strip_suffix(s, suffix) {
        Some(rest) => rest,
        None => s,
    }
}

/// The owner and the repo a path names: exactly two segments, once slashes around
/// them and the `.git` and `.wiki` endings are gone.
pub open spec fn slug_in(path: Seq<char>) -> Option<Seq<char>> {
    let trimmed = without_suffix(crate::text::trim_char(path, '/'), ".git"@);
    match crate::text::split_once(trimmed, '/') {
        None => None,
        Some((owner, rest)) => {
            let repo = without_suffix(rest, ".wiki"@);
            if owner.len() == 0 || repo.len() == 0 || repo.contains('/') {
                None
            } else {
                Some(owner + "/"@ + repo)
            }
        },
    }
}

/// The `owner/repo` of a remote on GitHub.
pub open spec fn slug_of(remote: Seq<char>) -> Option<Seq<char>> {
    match github_path(crate::text::trim(remote)) {
        Some(path) => slug_in(path),
        None => None,
    }
}

fn find_path(url: &[char]) -> (r: Option<Vec<char>>)
    ensures
        (match r {
            Some(p) => github_path(url@) == Some(p@),
            None => github_path(url@) is None,
        }),
{
    match find_str(url, "://") {
        // A real URL: everything after the scheme is [user@]host[:port]/path.
        Some(i) => {
            proof {
                reveal_strlit("://");
            }
            assert(url@.subrange(0, i as int) =~= url@.take(i as int));
            assert(url@.subrange(i + 3, url@.len() as int) =~= url@.skip(i + 3));
            let total: usize = url.len();
            let scheme = to_lowercase(slice_subrange(url, 0, i));
            let after = slice_subrange(url, i + 3, total);
            let known = spells(scheme.as_slice(), "ssh") || spells(scheme.as_slice(), "https")
                || spells(scheme.as_slice(), "http") || spells(scheme.as_slice(), "git");
            if !known {
                return None;
            }
            match split_once_at(after, '/') {
                None => None,
                Some((authority, path)) => {
                    // Drop any `user@` and any `:port` before checking the host.
                    let named = past_last(authority, '@');
                    if github_chars(up_to_char(named.as_slice(), ':')) {
                        Some(copy_chars(path))
                    } else {
                        None
                    }
                },
            }
        },
        // scp-style `[user@]host:owner/repo`, which has no scheme and can't
        // carry a port — that ambiguity is the reason `ssh://` URLs exist.
        None => match split_once_at(url, ':') {
            None => None,
            Some((authority, path)) => {
                let host = past_last(authority, '@');
                if github_chars(host.as_slice()) {
                    Some(copy_chars(path))
                } else {
                    None
                }
            },
        },
    }
}

fn drop_suffix<'a>(v: &'a [char], suffix: &str) -> (r: &'a [char])
    ensures
        r@ == without_suffix(v@, suffix@),
{
    match stripped_suffix(v, suffix) {
        Some(rest) => rest,
        None => v,
    }
}

/// Pull `owner/repo` out of a remote URL, if it points at github.com.
/// `None` for anything else, including other hosts and GitHub Enterprise
/// instances on their own domain — supporting those would mean threading a
/// `--hostname` through, which isn't worth it until someone needs it.
///
/// Parsed rather than prefix-matched, because the shapes people actually have
/// configured are more varied than a list of prefixes catches: an explicit
/// port (`ssh://git@github.com:22/…`), the port-443 host, `git://`, a
/// `user@` in an https URL, a trailing slash. Every one of those is a normal
/// remote, and each would have been reported as `unsupported` — honest, but
/// wrong.
///
/// A wiki's clone URL is `<repo>.wiki.git`, which isn't a repository the API
/// can look up on its own — a wiki's visibility is just its parent repo's.
/// So the `.wiki` suffix is stripped here, meaning every caller gets the
/// queryable slug for free rather than needing to know about this case.
pub fn github_slug(remote_url: &str) -> (r: Option<String>)
    ensures
        crate::pathname::opt_text(r) == slug_of(remote_url@),
{
    let v = to_chars(remote_url);
    let path = match find_path(trimmed(v.as_slice())) {
        Some(path) => path,
        None => {
            return None;
        },
    };
    let path = drop_suffix(trimmed_char(path.as_slice(), '/'), ".git");
    match split_once_at(path, '/') {
        None => None,
        Some((owner, rest)) => {
            let repo = drop_suffix(rest, ".wiki");
            // Anything deeper than `owner/repo` is a web URL, not a clone URL, and
            // guessing which two segments were meant is worse than saying nothing.
            if owner.len() == 0 || repo.len() == 0 || has_char(repo, '/') {
                return None;
            }
            let mut out = from_chars(owner);
            out.append("/");
            let name = from_chars(repo);
            out.append(name.as_str());
            Some(out)
        },
    }
}

/// The arguments that ask for one repo's visibility.
pub fn visibility_args(slug: &str) -> (r: Vec<String>)
    ensures
        crate::text::texts(r@) == seq![
            "repo"@,
            "view"@,
            slug@,
            "--json"@,
            "visibility"@,
            "--jq"@,
            ".visibility"@,
        ],
{
    let args: [&str; 7] = ["repo", "view", slug, "--json", "visibility", "--jq", ".visibility"];
    assert(crate::table::strs(args@) =~= seq![
        "repo"@,
        "view"@,
        slug@,
        "--json"@,
        "visibility"@,
        "--jq"@,
        ".visibility"@,
    ]);
    strings(&args)
}

/// What `gh` answered about one repo's visibility. An answer that is none of the
/// known ones is an error: this never guesses at a value.
pub fn visibility(raw: &str) -> (r: Result<Visibility, String>)
    ensures
        (match r {
            Ok(v) => Visibility::meaning(crate::text::trim(raw@)) == Some(v),
            Err(e) => Visibility::meaning(crate::text::trim(raw@)) is None && e@
                == "unrecognised visibility "@ + crate::text::debug_quoted(
                crate::text::trim(raw@),
            ),
        }),
{
    let v = to_chars(raw);
    let said = from_chars(trimmed(v.as_slice()));
    match Visibility::parse(said.as_str()) {
        Ok(found) => Ok(found),
        Err(_) => {
            let mut out = "unrecognised visibility ".to_owned();
            let shown = quoted(said.as_str());
            out.append(shown.as_str());
            Err(out)
        },
    }
}

/// The arguments that list every repo `owner` has that the authenticated account
/// can see — private ones included, since filtering on visibility is the planner's
/// business, not the listing's. `owner` may be a user or an organization:
/// GitHub's API takes the same invocation for both, so no kind lookup is
/// needed the way GitLab's needs one.
pub fn list_args(owner: &str) -> (r: Vec<String>)
    ensures
        crate::text::texts(r@) == seq![
            "repo"@,
            "list"@,
            owner@,
            "--limit"@,
            "1000"@,
            "--json"@,
            "name,sshUrl,url,isArchived,isFork"@,
        ],
{
    let args: [&str; 7] = [
        "repo",
        "list",
        owner,
        "--limit",
        "1000",
        "--json",
        "name,sshUrl,url,isArchived,isFork",
    ];
    assert(crate::table::strs(args@) =~= seq![
        "repo"@,
        "list"@,
        owner@,
        "--limit"@,
        "1000"@,
        "--json"@,
        "name,sshUrl,url,isArchived,isFork"@,
    ]);
    strings(&args)
}

/// The first characters of a text.
pub open spec fn at_most(s: Seq<char>, n: int) -> Seq<char> {
    if s.len() <= n {
        s
    } else {
        s.take(n)
    }
}

/// First line of a body, capped, for error messages. Error context has to
/// survive a glance: enough to recognise what came back, never the whole
/// response.
pub fn preview(body: &str) -> (r: String)
    ensures
        r@ == crate::text::first_line(at_most(crate::text::trim(body@), 120)),
{
    let v = to_chars(body);
    let t = trimmed(v.as_slice());
    if t.len() <= 120 {
        first_line_of(t)
    } else {
        assert(t@.subrange(0, 120) =~= t@.take(120));
        first_line_of(slice_subrange(t, 0, 120))
    }
}

/// What to report of a listing that is not the JSON it should be.
pub fn bad_listing(body: &str) -> (r: String)
    ensures
        r@ == "parsing gh repo list output: "@ + crate::text::first_line(
            at_most(crate::text::trim(body@), 120),
        ),
{
    let mut out = "parsing gh repo list output: ".to_owned();
    let shown = preview(body);
    out.append(shown.as_str());
    out
}

/// A slug names an owner and a repo: its first slash is not at either end, and it
/// has no other.
pub proof fn law_slug_has_two_segments(remote: Seq<char>)
    ensures
        slug_of(remote) matches Some(slug) ==> {
            let i = crate::text::pos(slug, '/');
            &&& 0 < i < slug.len() - 1
            &&& !slug.skip(i + 1).contains('/')
        },
{
    if let Some(path) = github_path(crate::text::trim(remote)) {
        let trimmed = without_suffix(crate::text::trim_char(path, '/'), ".git"@);
        if let Some((owner, rest)) = crate::text::split_once(trimmed, '/') {
            let repo = without_suffix(rest, ".wiki"@);
            if owner.len() > 0 && repo.len() > 0 && !repo.contains('/') {
                let slug = owner + "/"@ + repo;
                reveal_strlit("/");
                crate::text::lemma_pos(trimmed, '/');
                crate::text::lemma_pos(slug, '/');
                assert(slug[owner.len() as int] == '/');
                assert(forall|k: int| 0 <= k < owner.len() ==> owner[k] == trimmed[k]);
                assert(crate::text::pos(slug, '/') == owner.len());
                assert(slug.skip(owner.len() as int + 1) =~= repo);
            }
        }
    }
}

/// The hosts that are GitHub, in whatever case, and no other.
pub proof fn law_which_hosts_are_github(host: Seq<char>)
    ensures
        ({
            let low = crate::text::lowercase(host);
            github_host(host) <==> low == "github.com"@ || low == "www.github.com"@ || low
                == "ssh.github.com"@ || low == "www.ssh.github.com"@
        }),
{
    reveal_strlit("www.");
    reveal_strlit("github.com");
    reveal_strlit("www.github.com");
    reveal_strlit("ssh.github.com");
    reveal_strlit("www.ssh.github.com");
    let low = crate::text::lowercase(host);
    assert("www."@ + "github.com"@ =~= "www.github.com"@);
    assert("www."@ + "ssh.github.com"@ =~= "www.ssh.github.com"@);
    crate::text::law_what_was_put_around_comes_off("www."@, "github.com"@);
    crate::text::law_what_was_put_around_comes_off("www."@, "ssh.github.com"@);
    crate::text::law_what_was_put_around_comes_off("www."@, low);
    if crate::text::starts_with(low, "www."@) {
        assert(low.take(4)[0] == low[0]);
        assert(low[0] == 'w');
    }
}

/// A scheme is known in whatever case: the three that git speaks, and its own.
pub proof fn law_which_schemes_are_known(scheme: Seq<char>)
    ensures
        known_scheme(scheme) <==> crate::text::lowercase(scheme) == "https"@
            || crate::text::lowercase(scheme) == "http"@ || crate::text::lowercase(scheme) == "ssh"@
            || crate::text::lowercase(scheme) == "git"@,
{
}

/// An address with a scheme leads to its path where scheme and host are known: the host is
/// what follows the user and stands in front of the port.
pub proof fn law_an_address_leads_to_its_path(
    scheme: Seq<char>,
    user: Seq<char>,
    host: Seq<char>,
    port: Seq<char>,
    path: Seq<char>,
)
    requires
        !scheme.contains(':'),
        !user.contains('/'),
        !host.contains('/') && !host.contains('@') && !host.contains(':'),
        !port.contains('/') && !port.contains('@'),
    ensures
        ({
            let good = known_scheme(scheme) && github_host(host);
            let plain = github_path(scheme + "://"@ + host + seq!['/'] + path);
            let full = github_path(
                scheme + "://"@ + user + seq!['@'] + host + seq![':'] + port + seq!['/'] + path,
            );
            &&& good ==> plain == Some(path) && full == Some(path)
            &&& !good ==> plain is None && full is None
        }),
{
    let none = Seq::<char>::empty();
    lemma_address(scheme, host, path);
    assert(scheme + "://"@ + host + seq!['/'] + path =~= scheme + "://"@ + (host + seq!['/'] + path));
    crate::text::law_the_last_piece_follows_the_last_separator(none, host, '@');
    crate::text::law_split_once_goes_by_the_first(host, none, ':');
    let tail = host + seq![':'] + port;
    let authority = user + seq!['@'] + tail;
    lemma_none_in(host, seq![':'], port, '@');
    lemma_none_in(host, seq![':'], port, '/');
    lemma_none_in(user, seq!['@'], tail, '/');
    lemma_address(scheme, authority, path);
    assert(scheme + "://"@ + user + seq!['@'] + host + seq![':'] + port + seq!['/'] + path
        =~= scheme + "://"@ + (authority + seq!['/'] + path));
    crate::text::law_the_last_piece_follows_the_last_separator(user, tail, '@');
    crate::text::law_split_once_goes_by_the_first(host, port, ':');
}

proof fn lemma_none_in(a: Seq<char>, b: Seq<char>, c: Seq<char>, x: char)
    requires
        !a.contains(x),
        b.len() == 1,
        b[0] != x,
        !c.contains(x),
    ensures
        !(a + b + c).contains(x),
{
    let s = a + b + c;
    if s.contains(x) {
        let i = choose|i: int| 0 <= i < s.len() && s[i] == x;
        if i < a.len() {
            assert(a[i] == x);
        } else if i > a.len() {
            assert(c[i - a.len() - 1] == x);
        }
    }
}

proof fn lemma_address(scheme: Seq<char>, authority: Seq<char>, path: Seq<char>)
    requires
        !scheme.contains(':'),
        !authority.contains('/'),
    ensures
        ({
            let url = scheme + "://"@ + (authority + seq!['/'] + path);
            let host = crate::text::before_char(crate::text::after_last(authority, '@'), ':');
            &&& known_scheme(scheme) && github_host(host) ==> github_path(url) == Some(path)
            &&& !(known_scheme(scheme) && github_host(host)) ==> github_path(url) is None
        }),
{
    reveal_strlit("://");
    let after = authority + seq!['/'] + path;
    let url = scheme + "://"@ + after;
    crate::text::law_a_text_is_split_at_a_text(scheme, "://"@, after);
    lemma_scheme_found(scheme, after);
    assert(url.take(scheme.len() as int) =~= scheme);
    assert(url.skip(scheme.len() as int + 3) =~= after);
    crate::text::law_split_once_goes_by_the_first(authority, path, '/');
}

proof fn lemma_scheme_found(scheme: Seq<char>, after: Seq<char>)
    requires
        !scheme.contains(':'),
    ensures
        crate::text::find(scheme + "://"@ + after, "://"@) == Some(scheme.len() as int),
{
    reveal_strlit("://");
    crate::text::lemma_found_behind(scheme, "://"@, after);
}

/// An address without a scheme leads to its path where its host is known: the host stands
/// between the user and the colon.
pub proof fn law_a_short_address_leads_to_its_path(
    user: Seq<char>,
    host: Seq<char>,
    path: Seq<char>,
)
    requires
        !user.contains(':'),
        !host.contains(':') && !host.contains('@'),
        !path.contains(':'),
        path.len() == 0 || path[0] != '/',
    ensures
        ({
            let url = user + seq!['@'] + host + seq![':'] + path;
            &&& github_host(host) ==> github_path(url) == Some(path)
            &&& !github_host(host) ==> github_path(url) is None
        }),
{
    let authority = user + seq!['@'] + host;
    lemma_none_in(user, seq!['@'], host, ':');
    let url = authority + seq![':'] + path;
    lemma_no_scheme(authority, path);
    crate::text::law_split_once_goes_by_the_first(authority, path, ':');
    crate::text::law_the_last_piece_follows_the_last_separator(user, host, '@');
}

proof fn lemma_no_scheme(authority: Seq<char>, path: Seq<char>)
    requires
        !authority.contains(':'),
        !path.contains(':'),
        path.len() == 0 || path[0] != '/',
    ensures
        crate::text::find(authority + seq![':'] + path, "://"@) is None,
{
    reveal_strlit("://");
    let url = authority + seq![':'] + path;
    let n = authority.len() as int;
    if let Some(k) = crate::text::find(url, "://"@) {
        crate::text::lemma_find_from(url, "://"@, 0);
        let found = url.subrange(k, k + 3);
        assert(found == "://"@);
        assert(found[0] == url[k] && found[1] == url[k + 1]);
        if k < n {
            assert(authority[k] == ':');
            assert(authority.contains(':'));
        } else if k > n {
            assert(path[k - n - 1] == ':');
            assert(path.contains(':'));
        } else {
            assert(path[0] == '/');
        }
    }
}

proof fn lemma_slug_parts(raw: Seq<char>, owner: Seq<char>, name: Seq<char>, repo: Seq<char>)
    requires
        without_suffix(crate::text::trim_char(raw, '/'), ".git"@) == owner + seq!['/'] + name,
        without_suffix(name, ".wiki"@) == repo,
        owner.len() > 0 && !owner.contains('/'),
    ensures
        repo.len() > 0 && !repo.contains('/') ==> slug_in(raw) == Some(owner + seq!['/'] + repo),
        repo.len() == 0 || repo.contains('/') ==> slug_in(raw) is None,
{
    reveal_strlit("/");
    assert("/"@ =~= seq!['/']);
    crate::text::law_split_once_goes_by_the_first(owner, name, '/');
}

proof fn lemma_outer(owner: Seq<char>, last: Seq<char>)
    requires
        owner.len() > 0 && !owner.contains('/'),
        last.len() > 0,
        last[last.len() - 1] != '/',
    ensures
        ({
            let path = owner + seq!['/'] + last;
            &&& crate::text::trim_char(path, '/') == path
            &&& crate::text::trim_char(seq!['/'] + path + seq!['/'], '/') == path
        }),
{
    let path = owner + seq!['/'] + last;
    assert(owner[0] != '/') by {
        assert(owner.contains(owner[0]));
    }
    assert(path[0] == owner[0] && path[path.len() - 1] == last[last.len() - 1]);
    crate::text::law_a_character_is_trimmed(path, '/');
    assert(seq!['/'] + path + seq!['/'] =~= seq!['/'] + path.push('/'));
    assert(path.push('/')[0] == owner[0]);
    crate::text::law_a_character_is_trimmed(path.push('/'), '/');
}

/// A path names a repo by its owner and its name; slashes around it do not count, and a
/// third part makes it none.
pub proof fn law_a_path_names_owner_and_repo(owner: Seq<char>, repo: Seq<char>, more: Seq<char>)
    requires
        owner.len() > 0 && !owner.contains('/'),
        repo.len() > 0 && !repo.contains('/'),
        !crate::text::ends_with(owner + seq!['/'] + repo, ".git"@),
        !crate::text::ends_with(repo, ".wiki"@),
        more.len() > 0 && more[more.len() - 1] != '/',
        !crate::text::ends_with(owner + seq!['/'] + (repo + seq!['/'] + more), ".git"@),
        !crate::text::ends_with(repo + seq!['/'] + more, ".wiki"@),
    ensures
        ({
            let path = owner + seq!['/'] + repo;
            &&& slug_in(path) == Some(path)
            &&& slug_in(seq!['/'] + path + seq!['/']) == Some(path)
            &&& slug_in(path + seq!['/'] + more) is None
        }),
{
    let path = owner + seq!['/'] + repo;
    assert(repo[repo.len() - 1] != '/') by {
        assert(repo.contains(repo[repo.len() - 1]));
    }
    lemma_outer(owner, repo);
    lemma_slug_parts(path, owner, repo, repo);
    lemma_slug_parts(seq!['/'] + path + seq!['/'], owner, repo, repo);
    let long = repo + seq!['/'] + more;
    assert(long[repo.len() as int] == '/');
    assert(long[long.len() - 1] == more[more.len() - 1]);
    lemma_outer(owner, long);
    assert(path + seq!['/'] + more =~= owner + seq!['/'] + long);
    lemma_slug_parts(owner + seq!['/'] + long, owner, long, long);
    assert(long.contains('/'));
}

/// What git puts behind a name, and what it calls a wiki by, are no part of the name.
pub proof fn law_a_suffix_is_no_part_of_the_name(owner: Seq<char>, repo: Seq<char>)
    requires
        owner.len() > 0 && !owner.contains('/'),
        repo.len() > 0 && !repo.contains('/'),
        !crate::text::ends_with(repo, ".wiki"@),
    ensures
        ({
            let path = owner + seq!['/'] + repo;
            &&& slug_in(path + ".git"@) == Some(path)
            &&& slug_in(path + ".wiki.git"@) == Some(path)
        }),
{
    reveal_strlit(".git");
    reveal_strlit(".wiki");
    reveal_strlit(".wiki.git");
    let path = owner + seq!['/'] + repo;
    lemma_outer(owner, repo + ".git"@);
    assert(path + ".git"@ =~= owner + seq!['/'] + (repo + ".git"@));
    crate::text::law_what_was_put_around_comes_off(".git"@, path);
    lemma_slug_parts(path + ".git"@, owner, repo, repo);
    let wiki = repo + ".wiki"@;
    lemma_outer(owner, repo + ".wiki.git"@);
    assert(path + ".wiki.git"@ =~= owner + seq!['/'] + (repo + ".wiki.git"@));
    assert(path + ".wiki.git"@ =~= (owner + seq!['/'] + wiki) + ".git"@);
    crate::text::law_what_was_put_around_comes_off(".git"@, owner + seq!['/'] + wiki);
    crate::text::law_what_was_put_around_comes_off(".wiki"@, repo);
    lemma_slug_parts(path + ".wiki.git"@, owner, wiki, repo);
}

/// A path of one part names no repo.
pub proof fn law_one_part_names_no_repo(part: Seq<char>)
    requires
        !part.contains('/'),
    ensures
        slug_in(part) is None,
{
    if part.len() > 0 {
        assert(part.contains(part[0]));
        assert(part.contains(part[part.len() - 1]));
    }
    crate::text::law_a_character_is_trimmed(part, '/');
    let bare = without_suffix(part, ".git"@);
    assert(!bare.contains('/')) by {
        if bare.contains('/') {
            let i = choose|i: int| 0 <= i < bare.len() && bare[i] == '/';
            assert(part[i] == '/');
            assert(part.contains('/'));
        }
    }
    crate::text::law_split_once_goes_by_the_first(bare, part, '/');
}

/// A text is shown up to so many characters.
pub proof fn law_a_preview_keeps_the_start(s: Seq<char>, n: int)
    requires
        0 <= n,
    ensures
        at_most(s, n).len() <= n,
        s.len() <= n ==> at_most(s, n) == s,
        s.len() > n ==> at_most(s, n) == s.take(n),
{
}

} // verus!
