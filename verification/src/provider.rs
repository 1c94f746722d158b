//! Hosting-provider detection and dispatch.
//!
//! Visibility is a property the *host* tracks, not `git`, so checking it
//! means first figuring out which host a remote points at and then asking
//! that host's own tool. Right now the only host this recognises is GitHub,
//! via `gh` (see [`crate::gh`]). A remote on any other host — GitLab,
//! Bitbucket, self-hosted, anything — makes [`detect`] return `None`, which
//! the caller reports as `VisibilityStatus::Unsupported` rather than
//! guessing at a value nothing actually confirmed.

use vstd::prelude::*;

use crate::config::OrgProvider;
use crate::gh::github_slug;
use crate::text::{push_text, same, to_chars};

verus! {

/// A hosting provider this tool knows how to ask about visibility.
#[derive(Clone, Copy, Debug, PartialEq, Eq, Structural)]
pub enum Provider {
    GitHub,
}

/// Figure out which provider a remote URL belongs to, and the slug to ask
/// that provider's tool about. `None` means no known provider recognises the
/// URL — a different host, or something unparseable.
pub fn detect(remote_url: &str) -> (r: Option<(Provider, String)>)
    ensures
        (match r {
            Some((provider, slug)) => provider == Provider::GitHub && crate::gh::slug_of(remote_url@)
                == Some(slug@),
            None => crate::gh::slug_of(remote_url@) is None,
        }),
{
    match github_slug(remote_url) {
        Some(slug) => Some((Provider::GitHub, slug)),
        None => None,
    }
}

/// The one shape every provider's listing maps into, so the org-sync engine
/// never sees provider-specific JSON. Each CLI names these
/// fields differently (`sshUrl` vs `ssh_url_to_repo` vs `ssh_url`), and the
/// engine has no business caring.
#[derive(Debug)]
pub struct OrgRepo {
    pub name: String,
    pub ssh_url: String,
    pub https_url: String,
    pub archived: bool,
    pub fork: bool,
}

impl Clone for OrgRepo {
    fn clone(&self) -> (r: Self)
        ensures
            r == *self,
    {
        OrgRepo {
            name: self.name.clone(),
            ssh_url: self.ssh_url.clone(),
            https_url: self.https_url.clone(),
            archived: self.archived,
            fork: self.fork,
        }
    }
}

/// What the add-flow can offer, discovered from the tools themselves: one
/// probe per CLI (`gh`, `glab`, `tea`), each asked which hosts it is logged
/// in to. Probing *tool* auth rather than tokens is deliberate:
/// drydock never reads, stores, or sends credentials, so what a tool can do
/// is exactly what drydock can do — an org on a host nothing is
/// authenticated to could be registered but never listed. A missing binary
/// or a not-logged-in tool therefore contributes no hosts rather than an
/// error; "no auth" is an honest answer the form enforces, not a failure.
#[derive(Clone, Debug, PartialEq, Eq)]
pub struct AuthedHost {
    pub provider: OrgProvider,
    pub host: String,
    /// Account name on that host, when the tool reports it. Gitea's comes
    /// from the login's user; GitLab's degraded no-user entry is `None`.
    pub login: Option<String>,
    /// Gitea only: the `tea login` name, which is what [`crate::config::OrgConfig::login`]
    /// stores to select the instance later.
    pub name: Option<String>,
}

/// A `tea` login.
#[derive(Debug)]
pub struct TeaLogin {
    pub host: String,
    pub user: Option<String>,
    pub name: String,
}

/// What a host and an account `gh` is logged in with offer.
pub open spec fn github_entry(pair: (String, String)) -> AuthedHost {
    AuthedHost { provider: OrgProvider::GitHub, host: pair.0, login: Some(pair.1), name: None }
}

/// What a host and an account `glab` is logged in with offer; an account it does
/// not name is none.
pub open spec fn gitlab_entry(pair: (String, String)) -> AuthedHost {
    AuthedHost {
        provider: OrgProvider::GitLab,
        host: pair.0,
        login: if pair.1@.len() == 0 {
            None
        } else {
            Some(pair.1)
        },
        name: None,
    }
}

pub open spec fn gitea_entry(login: TeaLogin) -> AuthedHost {
    AuthedHost {
        provider: OrgProvider::Gitea,
        host: login.host,
        login: login.user,
        name: Some(login.name),
    }
}

fn copy_text(s: &Option<String>) -> (r: Option<String>)
    ensures
        r == *s,
{
    match s {
        Some(t) => Some(t.clone()),
        None => None,
    }
}

/// The hosts the tools are logged in to, from what each of them said: GitHub's
/// first, then GitLab's, then Gitea's.
pub fn authenticated_hosts(
    github: &Vec<(String, String)>,
    gitlab: &Vec<(String, String)>,
    gitea: &Vec<TeaLogin>,
) -> (r: Vec<AuthedHost>)
    ensures
        r@ == github@.map_values(|p: (String, String)| github_entry(p)) + gitlab@.map_values(
            |p: (String, String)| gitlab_entry(p),
        ) + gitea@.map_values(|l: TeaLogin| gitea_entry(l)),
{
    let ghost first = github@.map_values(|p: (String, String)| github_entry(p));
    let ghost second = gitlab@.map_values(|p: (String, String)| gitlab_entry(p));
    let ghost third = gitea@.map_values(|l: TeaLogin| gitea_entry(l));
    let mut hosts: Vec<AuthedHost> = Vec::new();
    let mut i: usize = 0;
    while i < github.len()
        invariant
            i <= github@.len(),
            first == github@.map_values(|p: (String, String)| github_entry(p)),
            hosts@ == first.take(i as int),
        decreases github@.len() - i,
    {
        let pair = &github[i];
        hosts.push(
            AuthedHost {
                provider: OrgProvider::GitHub,
                host: pair.0.clone(),
                login: Some(pair.1.clone()),
                name: None,
            },
        );
        i = i + 1;
        assert(hosts@ =~= first.take(i as int));
    }
    assert(first.take(i as int) =~= first);
    let mut j: usize = 0;
    assert(hosts@ =~= first + second.take(0));
    while j < gitlab.len()
        invariant
            j <= gitlab@.len(),
            second == gitlab@.map_values(|p: (String, String)| gitlab_entry(p)),
            hosts@ == first + second.take(j as int),
        decreases gitlab@.len() - j,
    {
        let pair = &gitlab[j];
        let login = if to_chars(pair.1.as_str()).len() == 0 {
            None
        } else {
            Some(pair.1.clone())
        };
        hosts.push(
            AuthedHost { provider: OrgProvider::GitLab, host: pair.0.clone(), login, name: None },
        );
        j = j + 1;
        assert(hosts@ =~= first + second.take(j as int));
    }
    assert(second.take(j as int) =~= second);
    let mut k: usize = 0;
    assert(hosts@ =~= first + second + third.take(0));
    while k < gitea.len()
        invariant
            k <= gitea@.len(),
            third == gitea@.map_values(|l: TeaLogin| gitea_entry(l)),
            hosts@ == first + second + third.take(k as int),
        decreases gitea@.len() - k,
    {
        let login = &gitea[k];
        hosts.push(
            AuthedHost {
                provider: OrgProvider::Gitea,
                host: login.host.clone(),
                login: copy_text(&login.user),
                name: Some(login.name.clone()),
            },
        );
        k = k + 1;
        assert(hosts@ =~= first + second + third.take(k as int));
    }
    assert(third.take(k as int) =~= third);
    hosts
}

/// The first of each of the first `n` names.
pub open spec fn distinct_upto(names: Seq<Seq<char>>, n: int) -> Seq<Seq<char>>
    decreases n,
{
    if n <= 0 {
        Seq::empty()
    } else {
        let before = distinct_upto(names, n - 1);
        if before.contains(names[n - 1]) {
            before
        } else {
            before.push(names[n - 1])
        }
    }
}

/// Each name once, where it first came.
pub open spec fn distinct(names: Seq<Seq<char>>) -> Seq<Seq<char>> {
    distinct_upto(names, names.len() as int)
}

fn listed(list: &Vec<String>, name: &str) -> (r: bool)
    ensures
        r == crate::text::texts(list@).contains(name@),
{
    let ghost all = crate::text::texts(list@);
    let mut i: usize = 0;
    while i < list.len()
        invariant
            i <= list@.len(),
            all == crate::text::texts(list@),
            forall|k: int| 0 <= k < i ==> #[trigger] all[k] != name@,
        decreases list@.len() - i,
    {
        if same(list[i].as_str(), name) {
            assert(all[i as int] == name@);
            return true;
        }
        i = i + 1;
    }
    false
}

/// The owners an authenticated account can register on a host: its personal
/// namespace first, then the orgs/groups it belongs to, deduped.
pub fn list_owners(personal: &str, orgs: &Vec<String>) -> (r: Vec<String>)
    ensures
        crate::text::texts(r@) == distinct(seq![personal@] + crate::text::texts(orgs@)),
{
    let ghost names = seq![personal@] + crate::text::texts(orgs@);
    let mut out: Vec<String> = Vec::new();
    push_text(&mut out, personal);
    assert(crate::text::texts(out@) =~= distinct_upto(names, 1)) by {
        reveal_with_fuel(distinct_upto, 2);
    }
    let mut i: usize = 0;
    while i < orgs.len()
        invariant
            i <= orgs@.len(),
            names == seq![personal@] + crate::text::texts(orgs@),
            crate::text::texts(out@) == distinct_upto(names, i + 1),
        decreases orgs@.len() - i,
    {
        assert(names[i + 1] == orgs@[i as int]@);
        if !listed(&out, orgs[i].as_str()) {
            push_text(&mut out, orgs[i].as_str());
        }
        i = i + 1;
    }
    out
}

/// What is signed in is told by the tool that knows it: GitHub with its login, GitLab with
/// one where it has one, and Gitea under the name it is saved by.
pub proof fn law_a_login_belongs_to_its_tool(pair: (String, String), login: TeaLogin)
    ensures
        github_entry(pair).provider == OrgProvider::GitHub,
        github_entry(pair).host == pair.0,
        github_entry(pair).login == Some(pair.1),
        github_entry(pair).name is None,
        gitlab_entry(pair).provider == OrgProvider::GitLab,
        gitlab_entry(pair).host == pair.0,
        gitlab_entry(pair).login is None <==> pair.1@.len() == 0,
        gitlab_entry(pair).login matches Some(l) ==> l == pair.1,
        gitea_entry(login).provider == OrgProvider::Gitea,
        gitea_entry(login).host == login.host,
        gitea_entry(login).login == login.user,
        gitea_entry(login).name == Some(login.name),
{
}

/// Each name is listed once, where it first stood.
pub proof fn law_each_name_is_listed_once(names: Seq<Seq<char>>, name: Seq<char>, i: int, j: int)
    ensures
        names.contains(name) ==> distinct(names.push(name)) == distinct(names),
        !names.contains(name) ==> distinct(names.push(name)) == distinct(names).push(name),
        distinct(names).contains(name) <==> names.contains(name),
        0 <= i < j < distinct(names).len() ==> distinct(names)[i] != distinct(names)[j],
{
    let n = names.len() as int;
    lemma_distinct_front(names, name, n);
    lemma_distinct(names, name, n, i, j);
    assert(names.take(n) =~= names);
}

proof fn lemma_distinct_front(names: Seq<Seq<char>>, name: Seq<char>, n: int)
    requires
        0 <= n <= names.len(),
    ensures
        distinct_upto(names.push(name), n) == distinct_upto(names, n),
    decreases n,
{
    if n > 0 {
        lemma_distinct_front(names, name, n - 1);
        assert(names.push(name)[n - 1] == names[n - 1]);
    }
}

proof fn lemma_distinct(names: Seq<Seq<char>>, name: Seq<char>, n: int, i: int, j: int)
    requires
        0 <= n <= names.len(),
    ensures
        distinct_upto(names, n).contains(name) <==> names.take(n).contains(name),
        0 <= i < j < distinct_upto(names, n).len() ==> distinct_upto(names, n)[i] != distinct_upto(
            names,
            n,
        )[j],
    decreases n,
{
    if n > 0 {
        let before = distinct_upto(names, n - 1);
        lemma_distinct(names, name, n - 1, i, j);
        assert(names.take(n) =~= names.take(n - 1).push(names[n - 1]));
        crate::lists::lemma_push_contains(names.take(n - 1), names[n - 1], name);
        crate::lists::lemma_push_contains(before, names[n - 1], name);
        if 0 <= i < j < distinct_upto(names, n).len() && j == before.len() {
            assert(before.contains(before[i]));
        }
    } else {
        assert(names.take(0) =~= Seq::empty());
    }
}

} // verus!
