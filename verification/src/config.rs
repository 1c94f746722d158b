//! Configuration, with defaults tuned for a `~/Projects/<org>/<repo>` layout.

use vstd::prelude::*;

use crate::column::{sanitise, Column};
use crate::duration::Duration;
use crate::number::push_decimal;
use crate::pathname::{is_under, join_path};
use crate::paths::expand;
use crate::text::{from_chars, same, same_ignoring_case, to_chars, to_lowercase, trimmed};

pub use crate::duration::parse_duration;

verus! {

/// Directory names never worth descending into. These hold vendored code with
/// its own `.git` dirs, or build output that generates enormous numbers of
/// filesystem events.
pub const DEFAULT_PRUNE: [&'static str; 18] = [
    "node_modules",
    "vendor",
    "target",
    "bower_components",
    "Pods",
    "Carthage",
    ".build",
    ".venv",
    "venv",
    "__pycache__",
    ".terraform",
    "dist",
    "build",
    ".next",
    ".nuxt",
    ".cache",
    ".tox",
    "DerivedData",
];

/// Owned copies of these texts.
pub fn strings(items: &[&str]) -> (r: Vec<String>)
    ensures
        crate::text::texts(r@) == crate::table::strs(items@),
{
    let mut out: Vec<String> = Vec::new();
    let mut i: usize = 0;
    assert(crate::text::texts(out@) =~= crate::table::strs(items@).take(0));
    while i < items.len()
        invariant
            i <= items@.len(),
            crate::text::texts(out@) == crate::table::strs(items@).take(i as int),
        decreases items@.len() - i,
    {
        let ghost before = out@;
        let item: String = items[i].to_owned();
        out.push(item);
        proof {
            assert(crate::table::strs(items@)[i as int] == item@);
            assert(crate::text::texts(out@) =~= crate::text::texts(before).push(item@));
            assert(crate::table::strs(items@).take(i + 1) =~= crate::table::strs(items@).take(
                i as int,
            ).push(item@));
        }
        i = i + 1;
    }
    assert(crate::table::strs(items@).take(i as int) =~= crate::table::strs(items@));
    out
}

/// Copies of these texts.
pub fn copy_strings(items: &Vec<String>) -> (r: Vec<String>)
    ensures
        r@ == items@,
{
    let mut out: Vec<String> = Vec::new();
    let mut i: usize = 0;
    while i < items.len()
        invariant
            i <= items@.len(),
            out@ == items@.take(i as int),
        decreases items@.len() - i,
    {
        out.push(items[i].clone());
        i = i + 1;
    }
    out
}

#[derive(Clone, Debug)]
pub struct Config {
    /// Directories to scan. Each immediate subdirectory becomes a "group".
    pub roots: Vec<String>,
    /// How deep below a root to look for repos.
    pub max_depth: usize,
    /// Descend into a repo looking for more repos. Off by default, which keeps
    /// submodules and vendored checkouts out of the list.
    pub follow_nested_repos: bool,
    /// Follow symlinked directories while scanning. Off by default, so a
    /// symlink into another tree doesn't produce duplicate rows.
    pub follow_symlinks: bool,
    /// Glob patterns matched against the path relative to the root. Anything
    /// matching is skipped entirely.
    pub exclude: Vec<String>,
    /// Extra directory names to prune on top of [`DEFAULT_PRUNE`].
    pub prune: Vec<String>,
    pub refresh: RefreshConfig,
    pub status: StatusConfig,
    pub remote: RemoteConfig,
    pub visibility: VisibilityConfig,
    pub release: ReleaseConfig,
    pub ui: UiConfig,
    /// Registered owners to clone and update on demand. The whole section is
    /// optional: existing configs load unchanged, and an empty list just means
    /// nothing to sync.
    pub orgs: Vec<OrgConfig>,
}

impl Config {
    /// What a config that says nothing stands for.
    pub open spec fn is_default(&self) -> bool {
        &&& crate::text::texts(self.roots@) == seq!["~/Projects"@]
        &&& self.max_depth == 4
        &&& !self.follow_nested_repos
        &&& !self.follow_symlinks
        &&& crate::text::texts(self.exclude@) == seq![
            "riffle-testbed/**"@,
            "riffle-pr-testbed/**"@,
            "riffle-merge-test/**"@,
        ]
        &&& self.prune@.len() == 0
        &&& self.refresh.is_default()
        &&& self.status.is_default()
        &&& self.remote.is_default()
        &&& self.visibility.is_default()
        &&& self.release.is_default()
        &&& self.ui.is_default()
        &&& self.orgs@.len() == 0
    }
}

impl Default for Config {
    fn default() -> (r: Self)
        ensures
            r.is_default(),
    {
        let roots: [&str; 1] = ["~/Projects"];
        // Throwaway fixture repos: dozens of tiny checkouts that would
        // otherwise swamp the list.
        let exclude: [&str; 3] = [
            "riffle-testbed/**",
            "riffle-pr-testbed/**",
            "riffle-merge-test/**",
        ];
        assert(crate::table::strs(roots@) =~= seq!["~/Projects"@]);
        assert(crate::table::strs(exclude@) =~= seq![
            "riffle-testbed/**"@,
            "riffle-pr-testbed/**"@,
            "riffle-merge-test/**"@,
        ]);
        Config {
            roots: strings(&roots),
            max_depth: 4,
            follow_nested_repos: false,
            follow_symlinks: false,
            exclude: strings(&exclude),
            prune: Vec::new(),
            refresh: RefreshConfig::default(),
            status: StatusConfig::default(),
            remote: RemoteConfig::default(),
            visibility: VisibilityConfig::default(),
            release: ReleaseConfig::default(),
            ui: UiConfig::default(),
            orgs: Vec::new(),
        }
    }
}

#[derive(Clone, Debug)]
pub struct RefreshConfig {
    /// How often to re-walk the roots and re-probe everything, as a backstop
    /// for anything the watcher misses. Every sweep re-discovers, so newly
    /// cloned repos appear on this interval too.
    pub interval: String,
    /// Watch the filesystem and re-probe individual repos as they change.
    pub watch: bool,
    /// How long to coalesce filesystem events before acting on them.
    pub debounce: String,
}

impl RefreshConfig {
    pub open spec fn is_default(&self) -> bool {
        self.interval@ == "5m"@ && self.watch && self.debounce@ == "1s"@
    }
}

impl Default for RefreshConfig {
    fn default() -> (r: Self)
        ensures
            r.is_default(),
    {
        RefreshConfig { interval: "5m".to_owned(), watch: true, debounce: "1s".to_owned() }
    }
}

#[derive(Clone, Debug)]
pub struct StatusConfig {
    /// `normal` counts an untracked directory once, `all` counts every file in
    /// it, `no` skips untracked files (and is much faster).
    pub untracked: UntrackedMode,
    /// Concurrent working-tree scans. This work is syscall-bound, so past about
    /// one per core it stops helping.
    pub concurrency: Option<usize>,
    /// How many changed file paths to keep per repo for the detail pane.
    pub max_files: usize,
    /// How long cached working-tree counts stay trusted. The cache key is HEAD
    /// plus the index, and editing a tracked file touches neither, so without
    /// an expiry a repo you edited but never staged reads as clean forever.
    /// `0` rescans on every sweep; empty trusts the key indefinitely.
    pub max_age: String,
}

impl StatusConfig {
    pub open spec fn is_default(&self) -> bool {
        &&& self.untracked == UntrackedMode::Normal
        &&& self.concurrency is None
        &&& self.max_files == 200
        &&& self.max_age@ == "1h"@
    }
}

impl Default for StatusConfig {
    fn default() -> (r: Self)
        ensures
            r.is_default(),
    {
        StatusConfig {
            untracked: UntrackedMode::Normal,
            concurrency: None,
            max_files: 200,
            max_age: "1h".to_owned(),
        }
    }
}

#[derive(Clone, Copy, Debug, PartialEq, Eq, Structural)]
pub enum UntrackedMode {
    No,
    Normal,
    All,
}

impl UntrackedMode {
    pub open spec fn git_arg(&self) -> Seq<char> {
        match self {
            UntrackedMode::No => "--untracked-files=no"@,
            UntrackedMode::Normal => "--untracked-files=normal"@,
            UntrackedMode::All => "--untracked-files=all"@,
        }
    }

    pub fn as_git_arg(&self) -> (r: &'static str)
        ensures
            r@ == self.git_arg(),
    {
        match self {
            UntrackedMode::No => "--untracked-files=no",
            UntrackedMode::Normal => "--untracked-files=normal",
            UntrackedMode::All => "--untracked-files=all",
        }
    }
}

#[derive(Clone, Debug)]
pub struct RemoteConfig {
    /// Periodically fetch, so "behind" counts mean something. Off by default:
    /// it is real network traffic against every remote you own, and a remote
    /// that wants credentials can hang.
    pub fetch: bool,
    pub interval: String,
    pub concurrency: usize,
    pub timeout: String,
}

impl RemoteConfig {
    pub open spec fn is_default(&self) -> bool {
        &&& !self.fetch
        &&& self.interval@ == "1h"@
        &&& self.concurrency == 4
        &&& self.timeout@ == "20s"@
    }
}

impl Default for RemoteConfig {
    fn default() -> (r: Self)
        ensures
            r.is_default(),
    {
        RemoteConfig {
            fetch: false,
            interval: "1h".to_owned(),
            concurrency: 4,
            timeout: "20s".to_owned(),
        }
    }
}

#[derive(Clone, Debug)]
pub struct VisibilityConfig {
    /// Check each repo's public/private status via `gh repo view`. Off by
    /// default, for the same reason `remote.fetch` is: real network traffic
    /// against every remote you own, and it depends on `gh` being installed
    /// and authenticated rather than anything `drydock` controls itself.
    pub enabled: bool,
    /// How long a checked visibility is trusted before it's worth asking
    /// again. Visibility changes rarely if ever, so this can be generous —
    /// unlike `remote.interval`, there's no "behind" count quietly going
    /// stale in the meantime.
    pub interval: String,
    pub concurrency: usize,
    pub timeout: String,
}

impl VisibilityConfig {
    pub open spec fn is_default(&self) -> bool {
        &&& !self.enabled
        &&& self.interval@ == "24h"@
        &&& self.concurrency == 4
        &&& self.timeout@ == "10s"@
    }
}

impl Default for VisibilityConfig {
    fn default() -> (r: Self)
        ensures
            r.is_default(),
    {
        VisibilityConfig {
            enabled: false,
            interval: "24h".to_owned(),
            concurrency: 4,
            timeout: "10s".to_owned(),
        }
    }
}

#[derive(Clone, Debug)]
pub struct ReleaseConfig {
    /// Glob deciding which tags count as releases. The default requires a
    /// digit, which keeps marker tags like `latest` or `polar-live` from being
    /// mistaken for the last release. Set to `*` to count every tag.
    pub tag_pattern: String,
    /// How many commit subjects since the last tag to keep for the detail pane.
    pub max_subjects: usize,
    /// Look at `CHANGELOG.md` and compare its top version against the newest
    /// tag.
    pub read_changelog: bool,
    /// Filename candidates for the changelog check.
    pub changelog_files: Vec<String>,
}

impl ReleaseConfig {
    pub open spec fn is_default(&self) -> bool {
        &&& self.tag_pattern@ == "*[0-9]*"@
        &&& self.max_subjects == 30
        &&& self.read_changelog
        &&& crate::text::texts(self.changelog_files@) == seq![
            "CHANGELOG.md"@,
            "CHANGELOG"@,
            "changelog.md"@,
        ]
    }
}

impl Default for ReleaseConfig {
    fn default() -> (r: Self)
        ensures
            r.is_default(),
    {
        let files: [&str; 3] = ["CHANGELOG.md", "CHANGELOG", "changelog.md"];
        assert(crate::table::strs(files@) =~= seq![
            "CHANGELOG.md"@,
            "CHANGELOG"@,
            "changelog.md"@,
        ]);
        ReleaseConfig {
            tag_pattern: "*[0-9]*".to_owned(),
            max_subjects: 30,
            read_changelog: true,
            changelog_files: strings(&files),
        }
    }
}

#[derive(Clone, Debug)]
pub struct UiConfig {
    /// Filters active when the dashboard opens. Empty means show everything.
    pub default_filters: Vec<String>,
    /// Initial sort key.
    pub default_sort: String,
    /// Initial "modified since" window, e.g. `1h`, `1d`, `1w`. Empty for all.
    pub default_since: String,
    /// Command used by the `O` key. `{path}` is replaced with the repo root.
    pub editor_command: Vec<String>,
    /// Command used by the `t` key.
    pub git_client_command: Vec<String>,
    /// Command used by the `T` and `ctrl-o` keys.
    pub terminal_command: Vec<String>,
    /// Command used by the `o` key. `open {path}` shows the repo's folder in
    /// Finder; `open -R {path}` would reveal it in its parent instead.
    pub file_manager_command: Vec<String>,
    /// Columns to show, left to right. Unset means the defaults, which
    /// show VISIBILITY only when `visibility.enabled` is on. Set it and
    /// you get exactly what you list, in that order — the `c` key in the
    /// dashboard writes this.
    pub columns: Option<Vec<Column>>,
}

impl UiConfig {
    pub open spec fn is_default(&self) -> bool {
        &&& self.default_filters@.len() == 0
        &&& self.default_sort@ == "activity"@
        &&& self.default_since@.len() == 0
        &&& crate::text::texts(self.editor_command@) == seq!["zed"@, "{path}"@]
        &&& crate::text::texts(self.git_client_command@) == seq![
            "open"@,
            "-a"@,
            "Tower"@,
            "{path}"@,
        ]
        &&& crate::text::texts(self.terminal_command@) == seq![
            "open"@,
            "-a"@,
            "Terminal"@,
            "{path}"@,
        ]
        &&& crate::text::texts(self.file_manager_command@) == seq!["open"@, "{path}"@]
        &&& self.columns is None
    }
}

impl Default for UiConfig {
    fn default() -> (r: Self)
        ensures
            r.is_default(),
    {
        let editor: [&str; 2] = ["zed", "{path}"];
        let client: [&str; 4] = ["open", "-a", "Tower", "{path}"];
        let terminal: [&str; 4] = ["open", "-a", "Terminal", "{path}"];
        let manager: [&str; 2] = ["open", "{path}"];
        assert(crate::table::strs(editor@) =~= seq!["zed"@, "{path}"@]);
        assert(crate::table::strs(client@) =~= seq!["open"@, "-a"@, "Tower"@, "{path}"@]);
        assert(crate::table::strs(terminal@) =~= seq!["open"@, "-a"@, "Terminal"@, "{path}"@]);
        assert(crate::table::strs(manager@) =~= seq!["open"@, "{path}"@]);
        UiConfig {
            default_filters: Vec::new(),
            default_sort: "activity".to_owned(),
            default_since: String::new(),
            editor_command: strings(&editor),
            git_client_command: strings(&client),
            terminal_command: strings(&terminal),
            file_manager_command: strings(&manager),
            columns: None,
        }
    }
}

/// Which CLI an org's listing goes through. Everything downstream — URLs,
/// filters, invocation shape — differs per provider, so the one thing config
/// owes the rest of the feature is a definite answer to "who are we asking".
#[derive(Clone, Copy, Debug, PartialEq, Eq, Structural)]
pub enum OrgProvider {
    GitHub,
    GitLab,
    Gitea,
}

impl OrgProvider {
    pub open spec fn name_text(&self) -> Seq<char> {
        match self {
            OrgProvider::GitHub => "github"@,
            OrgProvider::GitLab => "gitlab"@,
            OrgProvider::Gitea => "gitea"@,
        }
    }

    /// The provider of a hosted instance everyone shares.
    pub open spec fn hosted(host: Seq<char>) -> Option<OrgProvider> {
        let key = crate::text::lowercase(crate::text::trim(host));
        if key == "github.com"@ {
            Some(OrgProvider::GitHub)
        } else if key == "gitlab.com"@ {
            Some(OrgProvider::GitLab)
        } else if key == "gitea.com"@ {
            Some(OrgProvider::Gitea)
        } else {
            None
        }
    }

    pub fn as_str(&self) -> (r: &'static str)
        ensures
            r@ == self.name_text(),
    {
        match self {
            OrgProvider::GitHub => "github",
            OrgProvider::GitLab => "gitlab",
            OrgProvider::Gitea => "gitea",
        }
    }

    /// The hosted instances everyone shares. Anything else is self-hosted and
    /// has to name its provider explicitly: guessing wrong there would send
    /// the wrong CLI — with the wrong auth — at somebody's instance.
    pub fn from_host(host: &str) -> (r: Option<OrgProvider>)
        ensures
            r == OrgProvider::hosted(host@),
    {
        let v = to_chars(host);
        let key = from_chars(to_lowercase(trimmed(v.as_slice())).as_slice());
        if same(key.as_str(), "github.com") {
            Some(OrgProvider::GitHub)
        } else if same(key.as_str(), "gitlab.com") {
            Some(OrgProvider::GitLab)
        } else if same(key.as_str(), "gitea.com") {
            Some(OrgProvider::Gitea)
        } else {
            None
        }
    }
}

/// How to build clone URLs. SSH is the default because it is what the
/// provider APIs hand back and what a fleet of working checkouts wants; HTTPS
/// is there for the places where credentials are cert-based or keys are a
/// hassle.
#[derive(Clone, Copy, Debug, PartialEq, Eq, Structural)]
pub enum CloneProtocol {
    Ssh,
    Https,
}

impl Default for CloneProtocol {
    fn default() -> (r: Self)
        ensures
            r == CloneProtocol::Ssh,
    {
        CloneProtocol::Ssh
    }
}

/// One registered owner: an instance, who to list there, and where the
/// checkouts live. Defaults exist so a hand-written `[[orgs]]` table can stay
/// minimal — three lines is the common case, and every field beyond
/// `host`/`owner` has a sensible answer.
#[derive(Clone, Debug)]
pub struct OrgConfig {
    /// Unset means infer from the host; see [`OrgProvider::from_host`].
    pub provider: Option<OrgProvider>,
    /// Instance hostname: `github.com`, `gitlab.com`, or a self-hosted host.
    pub host: String,
    /// An organization or a single user — both list the same way.
    pub owner: String,
    /// Where checkouts live. Unset means `<first configured root>/<owner>`,
    /// which is what drops the owner into the dashboard as a group for free.
    pub path: Option<String>,
    /// Gitea only: which `tea` login entry to use. Empty means tea's default.
    pub login: String,
    pub protocol: CloneProtocol,
    pub include_forks: bool,
    pub include_archived: bool,
    /// GitLab groups only: whether to descend into subgroups when listing.
    pub include_subgroups: bool,
    /// Repo-name globs to skip.
    pub exclude: Vec<String>,
    /// Sync skips a disabled org without forgetting it, so parking one for a
    /// while is a one-word edit instead of a delete-plus-retyping.
    pub enabled: bool,
}

impl Default for OrgConfig {
    fn default() -> (r: Self)
        ensures
            r.provider is None,
            r.host@.len() == 0,
            r.owner@.len() == 0,
            r.path is None,
            r.login@.len() == 0,
            r.protocol == CloneProtocol::Ssh,
            !r.include_forks,
            !r.include_archived,
            !r.include_subgroups,
            r.exclude@.len() == 0,
            r.enabled,
    {
        OrgConfig {
            provider: None,
            host: String::new(),
            owner: String::new(),
            path: None,
            login: String::new(),
            protocol: CloneProtocol::Ssh,
            include_forks: false,
            include_archived: false,
            include_subgroups: false,
            exclude: Vec::new(),
            enabled: true,
        }
    }
}

impl OrgConfig {
    pub open spec fn the_provider(&self) -> OrgProvider {
        match self.provider {
            Some(p) => p,
            None => match OrgProvider::hosted(self.host@) {
                Some(p) => p,
                None => OrgProvider::GitHub,
            },
        }
    }

    /// An unset provider falls back through host inference; a host nothing
    /// knows reads as GitHub rather than panicking — [`Config::org_problems`]
    /// is what reports the ambiguity to a human.
    pub fn resolved_provider(&self) -> (r: OrgProvider)
        ensures
            r == self.the_provider(),
    {
        match self.provider {
            Some(p) => p,
            None => match OrgProvider::from_host(self.host.as_str()) {
                Some(p) => p,
                None => OrgProvider::GitHub,
            },
        }
    }
}

/// `num_cpus::get`: how many processors there are to use, which the machine
/// decides.
#[verifier::external_body]
fn cpu_count() -> (r: usize) {
    num_cpus::get()
}

pub open spec fn clamped(n: int, low: int, high: int) -> int {
    if n < low {
        low
    } else if n > high {
        high
    } else {
        n
    }
}

/// How many working-tree scans to run at once on a machine with this many
/// processors.
pub fn default_concurrency(cpus: usize) -> (r: usize)
    ensures
        r == clamped(cpus as int, 2, 12),
{
    if cpus < 2 {
        2
    } else if cpus > 12 {
        12
    } else {
        cpus
    }
}

/// Tier 1 concurrency for a given tier 2 concurrency.
pub fn doubled_concurrency(work: usize) -> (r: usize)
    ensures
        r == clamped((work * 2) % (usize::MAX + 1), 4, 32),
{
    let n: usize = work.wrapping_mul(2);
    if n < 4 {
        4
    } else if n > 32 {
        32
    } else {
        n
    }
}

/// A duration setting, or its default where it cannot be read.
pub open spec fn duration_or(s: Seq<char>, secs: int) -> Duration {
    match crate::duration::duration_meaning(s) {
        Some(d) => d,
        None => Duration { secs: secs as u64, millis: 0 },
    }
}

fn read_duration(s: &str, secs: u64) -> (r: Duration)
    ensures
        r == duration_or(s@, secs as int),
{
    match parse_duration(s) {
        Some(d) => d,
        None => Duration::from_secs(secs),
    }
}

impl Config {
    /// The scan roots, expanded.
    pub fn root_paths(&self) -> (r: Vec<String>)
        ensures
            r@.len() == self.roots@.len(),
            forall|i: int|
                0 <= i < r@.len() ==> crate::paths::expands(self.roots@[i]@, (#[trigger] r@[i])@),
    {
        let mut out: Vec<String> = Vec::new();
        let mut i: usize = 0;
        while i < self.roots.len()
            invariant
                i <= self.roots@.len(),
                out@.len() == i,
                forall|k: int| 0 <= k < i ==> crate::paths::expands(self.roots@[k]@, (#[trigger] out@[k])@),
            decreases self.roots@.len() - i,
        {
            out.push(expand(self.roots[i].as_str()));
            i = i + 1;
        }
        out
    }

    /// The built-in names, then the configured ones.
    pub fn prune_names(&self) -> (r: Vec<String>)
        ensures
            crate::text::texts(r@) == crate::table::strs(DEFAULT_PRUNE@) + crate::text::texts(
                self.prune@,
            ),
    {
        let built_in = DEFAULT_PRUNE;
        let mut names = strings(&built_in);
        let ghost first = names@;
        let mut extra = copy_strings(&self.prune);
        names.append(&mut extra);
        assert(crate::text::texts(names@) =~= crate::text::texts(first) + crate::text::texts(
            self.prune@,
        ));
        names
    }

    /// Concurrent working-tree scans: as configured, or by the number of
    /// processors.
    pub fn work_concurrency(&self) -> (r: usize)
        ensures
            (match self.status.concurrency {
                Some(n) => r == n,
                None => 2 <= r <= 12,
            }),
    {
        match self.status.concurrency {
            Some(n) => n,
            None => default_concurrency(cpu_count()),
        }
    }

    /// Tier 1 is cheap enough to oversubscribe: it reads a few small files per
    /// repo and spends most of its time waiting on process startup.
    pub fn refs_concurrency(&self) -> (r: usize)
        ensures
            (match self.status.concurrency {
                Some(n) => r == clamped((n * 2) % (usize::MAX + 1), 4, 32),
                None => 4 <= r <= 24,
            }),
    {
        let work: usize = self.work_concurrency();
        let r: usize = doubled_concurrency(work);
        proof {
            if self.status.concurrency is None {
                assert((work * 2) % (usize::MAX + 1) == work * 2) by (nonlinear_arith)
                    requires
                        2 <= work <= 12,
                        usize::MAX >= 0xffff_ffff,
                ;
            }
        }
        r
    }

    /// `None` means cached working-tree counts never expire on their own, which
    /// is what an empty `max_age` asks for.
    pub fn work_max_age(&self) -> (r: Option<Duration>)
        ensures
            r == self.max_age(),
    {
        let v = to_chars(self.status.max_age.as_str());
        let raw = trimmed(v.as_slice());
        if raw.len() == 0 {
            return None;
        }
        let text = from_chars(raw);
        Some(read_duration(text.as_str(), 3600))
    }

    pub open spec fn max_age(&self) -> Option<Duration> {
        let raw = crate::text::trim(self.status.max_age@);
        if raw.len() == 0 {
            None
        } else {
            Some(duration_or(raw, 3600))
        }
    }

    pub fn refresh_interval(&self) -> (r: Duration)
        ensures
            r == duration_or(self.refresh.interval@, 300),
    {
        read_duration(self.refresh.interval.as_str(), 300)
    }

    pub fn debounce(&self) -> (r: Duration)
        ensures
            r == duration_or(self.refresh.debounce@, 1),
    {
        read_duration(self.refresh.debounce.as_str(), 1)
    }

    pub fn remote_interval(&self) -> (r: Duration)
        ensures
            r == duration_or(self.remote.interval@, 3600),
    {
        read_duration(self.remote.interval.as_str(), 3600)
    }

    pub fn remote_timeout(&self) -> (r: Duration)
        ensures
            r == duration_or(self.remote.timeout@, 20),
    {
        read_duration(self.remote.timeout.as_str(), 20)
    }

    pub fn visibility_interval(&self) -> (r: Duration)
        ensures
            r == duration_or(self.visibility.interval@, 86_400),
    {
        read_duration(self.visibility.interval.as_str(), 86_400)
    }

    pub fn visibility_timeout(&self) -> (r: Duration)
        ensures
            r == duration_or(self.visibility.timeout@, 10),
    {
        read_duration(self.visibility.timeout.as_str(), 10)
    }

    /// The columns to render, resolved from `[ui] columns` or the defaults.
    /// A configured list is honoured as written — order included — beyond
    /// dropping repeats and putting REPO back if it was left out.
    pub fn columns(&self) -> (r: Vec<Column>)
        ensures
            r@ == (match self.ui.columns {
                Some(list) => crate::column::sanitised(list@),
                None => crate::column::default_upto(self.visibility.enabled, 15),
            }),
    {
        match &self.ui.columns {
            Some(list) => {
                let mut copy: Vec<Column> = Vec::new();
                let mut i: usize = 0;
                while i < list.len()
                    invariant
                        i <= list@.len(),
                        copy@ == list@.take(i as int),
                    decreases list@.len() - i,
                {
                    copy.push(list[i]);
                    i = i + 1;
                }
                assert(copy@ =~= list@);
                sanitise(copy)
            },
            None => Column::defaults(self.visibility.enabled),
        }
    }
}

// ---------------------------------------------------------------------------
// Checking the `[[orgs]]` section
// ---------------------------------------------------------------------------

/// Where an org's checkouts belong: its own path, or a directory named for its
/// owner under the first root. With neither there is nothing to resolve against.
pub open spec fn org_path(
    own: Option<Seq<char>>,
    first_root: Option<Seq<char>>,
    owner: Seq<char>,
) -> Option<Seq<char>> {
    match own {
        Some(p) => Some(p),
        None => match first_root {
            Some(root) => Some(crate::pathname::joined(root, owner)),
            None => None,
        },
    }
}

/// Whether this is where an org's checkouts belong, once its path and the roots
/// have been expanded.
pub open spec fn resolves(cfg: &Config, org: &OrgConfig, path: Option<Seq<char>>) -> bool {
    exists|own: Option<Seq<char>>, first: Option<Seq<char>>|
        {
            &&& (own is Some <==> org.path is Some)
            &&& (org.path matches Some(p) ==> crate::paths::expands(p@, own->0))
            &&& (first is Some <==> cfg.roots@.len() > 0)
            &&& (cfg.roots@.len() > 0 ==> crate::paths::expands(cfg.roots@[0]@, first->0))
            &&& path == #[trigger] org_path(own, first, org.owner@)
        }
}

/// [`Config::resolved_org_path`] for paths that have been expanded.
pub fn org_path_from(own: Option<String>, first_root: Option<String>, owner: &str) -> (r: Option<
    String,
>)
    ensures
        crate::pathname::opt_text(r) == org_path(
            crate::pathname::opt_text(own),
            crate::pathname::opt_text(first_root),
            owner@,
        ),
{
    match own {
        Some(p) => Some(p),
        None => match first_root {
            Some(root) => Some(join_path(root.as_str(), owner)),
            None => None,
        },
    }
}

pub open spec fn org_tag(i: int) -> Seq<char> {
    "orgs["@ + crate::number::decimal(i + 1) + "]"@
}

pub open spec fn owner_problem(org: &OrgConfig, i: int) -> Seq<Seq<char>> {
    if crate::text::trim(org.owner@).len() == 0 {
        seq![org_tag(i) + ": owner is empty"@]
    } else {
        Seq::empty()
    }
}

pub open spec fn host_problem(org: &OrgConfig, i: int) -> Seq<Seq<char>> {
    if crate::text::trim(org.host@).len() == 0 {
        seq![org_tag(i) + ": host is empty"@]
    } else if org.provider is None && OrgProvider::hosted(org.host@) is None {
        seq![
            org_tag(i) + ": host \""@ + org.host@
                + "\" is not a known instance; set provider = \"github\" | \"gitlab\" | \"gitea\" explicitly"@,
        ]
    } else {
        Seq::empty()
    }
}

/// What is wrong with each of the first `n` orgs by itself.
pub open spec fn own_problems(orgs: Seq<OrgConfig>, n: int) -> Seq<Seq<char>>
    decreases n,
{
    if n <= 0 {
        Seq::empty()
    } else {
        own_problems(orgs, n - 1) + owner_problem(&orgs[n - 1], n - 1) + host_problem(
            &orgs[n - 1],
            n - 1,
        )
    }
}

/// Whether two orgs list the same owner.
pub open spec fn duplicates(a: &OrgConfig, b: &OrgConfig) -> bool {
    &&& a.the_provider() == b.the_provider()
    &&& crate::text::lowercase(a.host@) == crate::text::lowercase(b.host@)
    &&& a.owner@ == b.owner@
}

pub open spec fn duplicate_problem(orgs: Seq<OrgConfig>, i: int, j: int) -> Seq<Seq<char>> {
    let a = &orgs[i];
    if duplicates(a, &orgs[j]) {
        seq![
            org_tag(i) + " and "@ + org_tag(j) + ": duplicate org "@ + a.the_provider().name_text()
                + " on "@ + a.host@ + " for owner \""@ + a.owner@ + "\""@,
        ]
    } else {
        Seq::empty()
    }
}

pub open spec fn overlap_problem(paths: Seq<Option<Seq<char>>>, i: int, j: int) -> Seq<Seq<char>> {
    match (paths[i], paths[j]) {
        (Some(a), Some(b)) => if crate::pathname::under(a, b) || crate::pathname::under(b, a) {
            seq![org_tag(i) + " path "@ + a + " overlaps "@ + org_tag(j) + " path "@ + b]
        } else {
            Seq::empty()
        },
        _ => Seq::empty(),
    }
}

/// The duplicates of org `i` among those after it, up to `j`.
pub open spec fn duplicates_of(orgs: Seq<OrgConfig>, i: int, j: int) -> Seq<Seq<char>>
    decreases j - i,
{
    if j <= i + 1 {
        Seq::empty()
    } else {
        duplicates_of(orgs, i, j - 1) + duplicate_problem(orgs, i, j - 1)
    }
}

pub open spec fn all_duplicates(orgs: Seq<OrgConfig>, n: int) -> Seq<Seq<char>>
    decreases n,
{
    if n <= 0 {
        Seq::empty()
    } else {
        all_duplicates(orgs, n - 1) + duplicates_of(orgs, n - 1, orgs.len() as int)
    }
}

pub open spec fn overlaps_of(paths: Seq<Option<Seq<char>>>, i: int, j: int) -> Seq<Seq<char>>
    decreases j - i,
{
    if j <= i + 1 {
        Seq::empty()
    } else {
        overlaps_of(paths, i, j - 1) + overlap_problem(paths, i, j - 1)
    }
}

pub open spec fn all_overlaps(paths: Seq<Option<Seq<char>>>, n: int) -> Seq<Seq<char>>
    decreases n,
{
    if n <= 0 {
        Seq::empty()
    } else {
        all_overlaps(paths, n - 1) + overlaps_of(paths, n - 1, paths.len() as int)
    }
}

/// Everything wrong with these orgs, checked out at these places: what is wrong
/// with each, then which are registered twice, then which lie inside another.
pub open spec fn problems_text(orgs: Seq<OrgConfig>, paths: Seq<Option<Seq<char>>>) -> Seq<
    Seq<char>,
> {
    own_problems(orgs, orgs.len() as int) + all_duplicates(orgs, orgs.len() as int) + all_overlaps(
        paths,
        paths.len() as int,
    )
}

pub open spec fn opt_texts(v: Seq<Option<String>>) -> Seq<Option<Seq<char>>> {
    v.map_values(|p: Option<String>| crate::pathname::opt_text(p))
}

fn push_tag(out: &mut String, i: usize)
    requires
        i < usize::MAX,
    ensures
        final(out)@ == old(out)@ + org_tag(i as int),
{
    out.append("orgs[");
    push_decimal(out, i as u64 + 1);
    out.append("]");
    assert(out@ =~= old(out)@ + org_tag(i as int));
}

fn push_own(problems: &mut Vec<String>, org: &OrgConfig, i: usize)
    requires
        i < usize::MAX,
    ensures
        crate::text::texts(final(problems)@) == crate::text::texts(old(problems)@) + owner_problem(
            org,
            i as int,
        ) + host_problem(org, i as int),
{
    let owner = to_chars(org.owner.as_str());
    if trimmed(owner.as_slice()).len() == 0 {
        let mut s = String::new();
        push_tag(&mut s, i);
        s.append(": owner is empty");
        assert(s@ =~= org_tag(i as int) + ": owner is empty"@);
        problems.push(s);
    }
    assert(crate::text::texts(problems@) =~= crate::text::texts(old(problems)@) + owner_problem(
        org,
        i as int,
    ));
    let ghost mid = problems@;
    let host = to_chars(org.host.as_str());
    if trimmed(host.as_slice()).len() == 0 {
        let mut s = String::new();
        push_tag(&mut s, i);
        s.append(": host is empty");
        assert(s@ =~= org_tag(i as int) + ": host is empty"@);
        problems.push(s);
    } else if org.provider.is_none() && OrgProvider::from_host(org.host.as_str()).is_none() {
        let mut s = String::new();
        push_tag(&mut s, i);
        s.append(": host \"");
        s.append(org.host.as_str());
        s.append(
            "\" is not a known instance; set provider = \"github\" | \"gitlab\" | \"gitea\" explicitly",
        );
        assert(s@ =~= host_problem(org, i as int)[0]);
        problems.push(s);
    }
    assert(crate::text::texts(problems@) =~= crate::text::texts(mid) + host_problem(
        org,
        i as int,
    ));
}

fn push_duplicate(problems: &mut Vec<String>, orgs: &Vec<OrgConfig>, i: usize, j: usize)
    requires
        i < j < orgs@.len(),
    ensures
        crate::text::texts(final(problems)@) == crate::text::texts(old(problems)@)
            + duplicate_problem(orgs@, i as int, j as int),
{
    let _count: usize = orgs.len();
    let a = &orgs[i];
    let b = &orgs[j];
    if a.resolved_provider() == b.resolved_provider() && same_ignoring_case(
        a.host.as_str(),
        b.host.as_str(),
    ) && same(a.owner.as_str(), b.owner.as_str()) {
        let mut s = String::new();
        push_tag(&mut s, i);
        s.append(" and ");
        push_tag(&mut s, j);
        s.append(": duplicate org ");
        s.append(a.resolved_provider().as_str());
        s.append(" on ");
        s.append(a.host.as_str());
        s.append(" for owner \"");
        s.append(a.owner.as_str());
        s.append("\"");
        assert(s@ =~= duplicate_problem(orgs@, i as int, j as int)[0]);
        problems.push(s);
    }
    assert(crate::text::texts(problems@) =~= crate::text::texts(old(problems)@)
        + duplicate_problem(orgs@, i as int, j as int));
}

fn push_overlap(problems: &mut Vec<String>, paths: &Vec<Option<String>>, i: usize, j: usize)
    requires
        i < j < paths@.len(),
    ensures
        crate::text::texts(final(problems)@) == crate::text::texts(old(problems)@)
            + overlap_problem(opt_texts(paths@), i as int, j as int),
{
    let ghost ps = opt_texts(paths@);
    let _count: usize = paths.len();
    match (&paths[i], &paths[j]) {
        (Some(a), Some(b)) => {
            assert(ps[i as int] == Some(a@));
            assert(ps[j as int] == Some(b@));
            if is_under(a.as_str(), b.as_str()) || is_under(b.as_str(), a.as_str()) {
                let mut s = String::new();
                push_tag(&mut s, i);
                s.append(" path ");
                s.append(a.as_str());
                s.append(" overlaps ");
                push_tag(&mut s, j);
                s.append(" path ");
                s.append(b.as_str());
                assert(s@ =~= overlap_problem(ps, i as int, j as int)[0]);
                problems.push(s);
            }
        },
        _ => {
            assert(ps[i as int] is None || ps[j as int] is None);
        },
    }
    assert(crate::text::texts(problems@) =~= crate::text::texts(old(problems)@) + overlap_problem(
        ps,
        i as int,
        j as int,
    ));
}

impl Config {
    fn push_own_problems(&self, problems: &mut Vec<String>)
        requires
            old(problems)@.len() == 0,
        ensures
            crate::text::texts(final(problems)@) == own_problems(
                self.orgs@,
                self.orgs@.len() as int,
            ),
    {
        let n: usize = self.orgs.len();
        let mut i: usize = 0;
        assert(crate::text::texts(problems@) =~= own_problems(self.orgs@, 0));
        while i < n
            invariant
                i <= n == self.orgs@.len(),
                crate::text::texts(problems@) == own_problems(self.orgs@, i as int),
            decreases n - i,
        {
            push_own(problems, &self.orgs[i], i);
            i = i + 1;
        }
    }

    // Two orgs listing the same owner would fight over the same checkouts, so
    // the second registration is a mistake however you slice it. Lists this
    // short don't justify a map.
    fn push_duplicates(&self, problems: &mut Vec<String>)
        ensures
            crate::text::texts(final(problems)@) == crate::text::texts(old(problems)@)
                + all_duplicates(self.orgs@, self.orgs@.len() as int),
    {
        let n: usize = self.orgs.len();
        let ghost start = crate::text::texts(problems@);
        let mut i: usize = 0;
        assert(start =~= start + all_duplicates(self.orgs@, 0));
        while i < n
            invariant
                i <= n == self.orgs@.len(),
                crate::text::texts(problems@) == start + all_duplicates(self.orgs@, i as int),
            decreases n - i,
        {
            let ghost row = crate::text::texts(problems@);
            let mut j: usize = i + 1;
            assert(row =~= row + duplicates_of(self.orgs@, i as int, j as int));
            while j < n
                invariant
                    i < j <= n == self.orgs@.len(),
                    crate::text::texts(problems@) == row + duplicates_of(
                        self.orgs@,
                        i as int,
                        j as int,
                    ),
                decreases n - j,
            {
                push_duplicate(problems, &self.orgs, i, j);
                assert(crate::text::texts(problems@) =~= row + duplicates_of(
                    self.orgs@,
                    i as int,
                    j + 1,
                ));
                j = j + 1;
            }
            assert(crate::text::texts(problems@) =~= start + all_duplicates(self.orgs@, i + 1));
            i = i + 1;
        }
    }

    /// [`Config::org_problems`] for orgs checked out at these places.
    pub fn org_problems_at(&self, paths: &Vec<Option<String>>) -> (r: Vec<String>)
        ensures
            crate::text::texts(r@) == problems_text(self.orgs@, opt_texts(paths@)),
    {
        let mut problems: Vec<String> = Vec::new();
        self.push_own_problems(&mut problems);
        self.push_duplicates(&mut problems);
        // Nested paths mean one sync would fast-forward repos inside another
        // org's directory — or report them as orphans. Either way it's a
        // config bug worth catching before anything runs.
        let ghost start = crate::text::texts(problems@);
        let ghost ps = opt_texts(paths@);
        let n: usize = paths.len();
        let mut i: usize = 0;
        assert(start =~= start + all_overlaps(ps, 0));
        while i < n
            invariant
                i <= n == paths@.len(),
                ps == opt_texts(paths@),
                crate::text::texts(problems@) == start + all_overlaps(ps, i as int),
            decreases n - i,
        {
            let ghost row = crate::text::texts(problems@);
            let mut j: usize = i + 1;
            assert(row =~= row + overlaps_of(ps, i as int, j as int));
            while j < n
                invariant
                    i < j <= n == paths@.len(),
                    ps == opt_texts(paths@),
                    crate::text::texts(problems@) == row + overlaps_of(ps, i as int, j as int),
                decreases n - j,
            {
                push_overlap(&mut problems, paths, i, j);
                assert(crate::text::texts(problems@) =~= row + overlaps_of(ps, i as int, j + 1));
                j = j + 1;
            }
            assert(crate::text::texts(problems@) =~= start + all_overlaps(ps, i + 1));
            i = i + 1;
        }
        problems
    }

    /// Where this org's checkouts belong, expanded to an absolute path. An
    /// unset `path` lands under the first root so the owner shows up in the
    /// dashboard as a group; with no roots at all there is nothing to resolve
    /// against, and `None` says "don't check this one for overlap".
    pub(crate) fn resolved_org_path(&self, org: &OrgConfig) -> (r: Option<String>)
        ensures
            resolves(self, org, crate::pathname::opt_text(r)),
    {
        let own: Option<String> = match &org.path {
            Some(p) => Some(expand(p.as_str())),
            None => None,
        };
        let first: Option<String> = if self.roots.len() > 0 {
            Some(expand(self.roots[0].as_str()))
        } else {
            None
        };
        let ghost own_text = crate::pathname::opt_text(own);
        let ghost first_text = crate::pathname::opt_text(first);
        let r = org_path_from(own, first, org.owner.as_str());
        assert(crate::pathname::opt_text(r) == org_path(own_text, first_text, org.owner@));
        r
    }

    /// Everything wrong with the `[[orgs]]` section, one human-readable line
    /// per problem; an empty vec means safe to sync against. This runs before
    /// any sync so a typo'd config fails loudly instead of cloning a fleet
    /// into the wrong tree — which is also why the checks are conservative:
    /// overlapping paths and duplicate owners are refused even though sync
    /// itself could probably cope.
    pub fn org_problems(&self) -> (r: Vec<String>)
        ensures
            exists|paths: Seq<Option<Seq<char>>>|
                {
                    &&& paths.len() == self.orgs@.len()
                    &&& forall|i: int|
                        0 <= i < paths.len() ==> resolves(
                            self,
                            &self.orgs@[i],
                            #[trigger] paths[i],
                        )
                    &&& crate::text::texts(r@) == #[trigger] problems_text(self.orgs@, paths)
                },
    {
        let mut paths: Vec<Option<String>> = Vec::new();
        let mut i: usize = 0;
        while i < self.orgs.len()
            invariant
                i <= self.orgs@.len(),
                paths@.len() == i,
                forall|k: int|
                    0 <= k < i ==> resolves(
                        self,
                        &self.orgs@[k],
                        crate::pathname::opt_text(#[trigger] paths@[k]),
                    ),
            decreases self.orgs@.len() - i,
        {
            paths.push(self.resolved_org_path(&self.orgs[i]));
            i = i + 1;
        }
        let ghost ps = opt_texts(paths@);
        assert forall|k: int| 0 <= k < ps.len() implies resolves(
            self,
            &self.orgs@[k],
            #[trigger] ps[k],
        ) by {
            assert(ps[k] == crate::pathname::opt_text(paths@[k]));
        }
        self.org_problems_at(&paths)
    }
}

// ---------------------------------------------------------------------------
// Laws
// ---------------------------------------------------------------------------

proof fn lemma_no_own_problem(orgs: Seq<OrgConfig>, n: int, i: int)
    requires
        0 <= i < n <= orgs.len(),
        own_problems(orgs, n).len() == 0,
    ensures
        crate::text::trim(orgs[i].owner@).len() > 0,
        crate::text::trim(orgs[i].host@).len() > 0,
        orgs[i].provider is Some || OrgProvider::hosted(orgs[i].host@) is Some,
    decreases n,
{
    if i < n - 1 {
        lemma_no_own_problem(orgs, n - 1, i);
    }
}

proof fn lemma_no_duplicate(orgs: Seq<OrgConfig>, i: int, j: int, m: int)
    requires
        0 <= i < m < j <= orgs.len(),
        duplicates_of(orgs, i, j).len() == 0,
    ensures
        !duplicates(&orgs[i], &orgs[m]),
    decreases j - i,
{
    if m < j - 1 {
        lemma_no_duplicate(orgs, i, j - 1, m);
    }
}

proof fn lemma_no_duplicates(orgs: Seq<OrgConfig>, n: int, i: int, j: int)
    requires
        0 <= i < n <= orgs.len(),
        i < j < orgs.len(),
        all_duplicates(orgs, n).len() == 0,
    ensures
        !duplicates(&orgs[i], &orgs[j]),
    decreases n,
{
    if i < n - 1 {
        lemma_no_duplicates(orgs, n - 1, i, j);
    } else {
        lemma_no_duplicate(orgs, i, orgs.len() as int, j);
    }
}

proof fn lemma_no_overlap(paths: Seq<Option<Seq<char>>>, i: int, j: int, m: int)
    requires
        0 <= i < m < j <= paths.len(),
        overlaps_of(paths, i, j).len() == 0,
        paths[i] is Some,
        paths[m] is Some,
    ensures
        !crate::pathname::under(paths[i]->0, paths[m]->0),
        !crate::pathname::under(paths[m]->0, paths[i]->0),
    decreases j - i,
{
    if m < j - 1 {
        lemma_no_overlap(paths, i, j - 1, m);
    }
}

proof fn lemma_no_overlaps(paths: Seq<Option<Seq<char>>>, n: int, i: int, j: int)
    requires
        0 <= i < n <= paths.len(),
        i < j < paths.len(),
        all_overlaps(paths, n).len() == 0,
        paths[i] is Some,
        paths[j] is Some,
    ensures
        !crate::pathname::under(paths[i]->0, paths[j]->0),
        !crate::pathname::under(paths[j]->0, paths[i]->0),
    decreases n,
{
    if i < n - 1 {
        lemma_no_overlaps(paths, n - 1, i, j);
    } else {
        lemma_no_overlap(paths, i, paths.len() as int, j);
    }
}

/// No problems means every org, be it the only one, names an owner and a host with
/// a known provider.
pub proof fn law_no_problems_is_complete(
    orgs: Seq<OrgConfig>,
    paths: Seq<Option<Seq<char>>>,
    i: int,
)
    requires
        problems_text(orgs, paths).len() == 0,
        paths.len() == orgs.len(),
        0 <= i < orgs.len(),
    ensures
        crate::text::trim(orgs[i].owner@).len() > 0,
        crate::text::trim(orgs[i].host@).len() > 0,
        orgs[i].provider is Some || OrgProvider::hosted(orgs[i].host@) is Some,
{
    assert(own_problems(orgs, orgs.len() as int).len() == 0);
    lemma_no_own_problem(orgs, orgs.len() as int, i);
}

/// No problems means safe to sync against: every org names an owner and a host
/// with a known provider, no owner is registered twice, and no two orgs' checkouts
/// lie inside one another.
pub proof fn law_no_problems_is_safe(
    orgs: Seq<OrgConfig>,
    paths: Seq<Option<Seq<char>>>,
    i: int,
    j: int,
)
    requires
        problems_text(orgs, paths).len() == 0,
        paths.len() == orgs.len(),
        0 <= i < j < orgs.len(),
    ensures
        crate::text::trim(orgs[i].owner@).len() > 0,
        crate::text::trim(orgs[i].host@).len() > 0,
        orgs[i].provider is Some || OrgProvider::hosted(orgs[i].host@) is Some,
        crate::text::trim(orgs[j].owner@).len() > 0,
        crate::text::trim(orgs[j].host@).len() > 0,
        orgs[j].provider is Some || OrgProvider::hosted(orgs[j].host@) is Some,
        !duplicates(&orgs[i], &orgs[j]),
        paths[i] is Some && paths[j] is Some ==> !crate::pathname::under(paths[i]->0, paths[j]->0)
            && !crate::pathname::under(paths[j]->0, paths[i]->0),
{
    let n = orgs.len() as int;
    assert(all_duplicates(orgs, n).len() == 0);
    assert(all_overlaps(paths, n).len() == 0);
    law_no_problems_is_complete(orgs, paths, i);
    law_no_problems_is_complete(orgs, paths, j);
    lemma_no_duplicates(orgs, n, i, j);
    if paths[i] is Some && paths[j] is Some {
        lemma_no_overlaps(paths, n, i, j);
    }
}

/// Whether nothing is wrong with an org by itself: it names an owner and a host with
/// a known provider.
pub open spec fn is_complete(org: &OrgConfig) -> bool {
    &&& crate::text::trim(org.owner@).len() > 0
    &&& crate::text::trim(org.host@).len() > 0
    &&& org.provider is Some || OrgProvider::hosted(org.host@) is Some
}

/// Whether two orgs, checked out at these places, get in each other's way.
pub open spec fn collide(
    a: &OrgConfig,
    b: &OrgConfig,
    at: Option<Seq<char>>,
    other: Option<Seq<char>>,
) -> bool {
    ||| duplicates(a, b)
    ||| at is Some && other is Some && (crate::pathname::under(at->0, other->0)
        || crate::pathname::under(other->0, at->0))
}

proof fn lemma_own_problems(orgs: Seq<OrgConfig>, n: int)
    requires
        0 <= n <= orgs.len(),
        forall|i: int| 0 <= i < orgs.len() ==> is_complete(&#[trigger] orgs[i]),
    ensures
        own_problems(orgs, n).len() == 0,
    decreases n,
{
    if n > 0 {
        lemma_own_problems(orgs, n - 1);
        assert(is_complete(&orgs[n - 1]));
    }
}

proof fn lemma_pair_problems(
    orgs: Seq<OrgConfig>,
    paths: Seq<Option<Seq<char>>>,
    i: int,
    j: int,
)
    requires
        0 <= i,
        j <= orgs.len() == paths.len(),
        forall|k: int|
            i < k < orgs.len() ==> !collide(&orgs[i], &#[trigger] orgs[k], paths[i], paths[k]),
    ensures
        duplicates_of(orgs, i, j).len() == 0,
        overlaps_of(paths, i, j).len() == 0,
    decreases j - i,
{
    if j > i + 1 {
        lemma_pair_problems(orgs, paths, i, j - 1);
        assert(!collide(&orgs[i], &orgs[j - 1], paths[i], paths[j - 1]));
    }
}

proof fn lemma_all_pair_problems(orgs: Seq<OrgConfig>, paths: Seq<Option<Seq<char>>>, n: int)
    requires
        0 <= n <= orgs.len() == paths.len(),
        forall|i: int, j: int|
            0 <= i < j < orgs.len() ==> !collide(
                &#[trigger] orgs[i],
                &#[trigger] orgs[j],
                paths[i],
                paths[j],
            ),
    ensures
        all_duplicates(orgs, n).len() == 0,
        all_overlaps(paths, n).len() == 0,
    decreases n,
{
    if n > 0 {
        lemma_all_pair_problems(orgs, paths, n - 1);
        lemma_pair_problems(orgs, paths, n - 1, orgs.len() as int);
    }
}

/// Orgs that are complete and keep out of each other's way give no problems.
pub proof fn law_orgs_without_a_fault_give_no_problems(
    orgs: Seq<OrgConfig>,
    paths: Seq<Option<Seq<char>>>,
)
    requires
        paths.len() == orgs.len(),
        forall|i: int| 0 <= i < orgs.len() ==> is_complete(&#[trigger] orgs[i]),
        forall|i: int, j: int|
            0 <= i < j < orgs.len() ==> !collide(
                &#[trigger] orgs[i],
                &#[trigger] orgs[j],
                paths[i],
                paths[j],
            ),
    ensures
        problems_text(orgs, paths).len() == 0,
{
    lemma_own_problems(orgs, orgs.len() as int);
    lemma_all_pair_problems(orgs, paths, orgs.len() as int);
}

/// A configuration that was read, falling back to defaults with a warning rather
/// than failing. A dashboard that refuses to open because of one bad key is worse
/// than one that opens with defaults and says so.
pub fn load_or_default(loaded: Result<Config, String>) -> (r: (Config, Option<String>))
    ensures
        (match loaded {
            Ok(cfg) => r.0 == cfg && r.1 is None,
            Err(e) => r.0.is_default() && r.1 == Some(e),
        }),
{
    match loaded {
        Ok(cfg) => (cfg, None),
        Err(e) => (Config::default(), Some(e)),
    }
}

/// A provider is known by the name of its site, in whatever case and with blanks around it.
pub proof fn law_a_site_has_its_provider(host: Seq<char>)
    ensures
        ({
            let key = crate::text::lowercase(crate::text::trim(host));
            &&& OrgProvider::hosted(host) == Some(OrgProvider::GitHub) <==> key == "github.com"@
            &&& OrgProvider::hosted(host) == Some(OrgProvider::GitLab) <==> key == "gitlab.com"@
            &&& OrgProvider::hosted(host) == Some(OrgProvider::Gitea) <==> key == "gitea.com"@
            &&& OrgProvider::hosted(host) is None <==> key != "github.com"@ && key != "gitlab.com"@
                && key != "gitea.com"@
        }),
{
    reveal_strlit("github.com");
    reveal_strlit("gitlab.com");
    reveal_strlit("gitea.com");
    assert("github.com"@[3] == 'h' && "gitlab.com"@[3] == 'l' && "gitea.com"@.len() == 9);
}

/// The provider that is set counts, then that of the site, and without either it is GitHub.
pub proof fn law_the_provider_that_is_set_counts(org: &OrgConfig)
    ensures
        org.provider matches Some(p) ==> org.the_provider() == p,
        org.provider is None ==> (OrgProvider::hosted(org.host@) matches Some(p)
            ==> org.the_provider() == p),
        org.provider is None && OrgProvider::hosted(org.host@) is None ==> org.the_provider()
            == OrgProvider::GitHub,
{
}

/// Providers, and the ways to look for untracked files, are told apart by their words.
pub proof fn law_settings_are_told_apart(
    a: OrgProvider,
    b: OrgProvider,
    x: UntrackedMode,
    y: UntrackedMode,
)
    ensures
        a.name_text() == b.name_text() <==> a == b,
        x.git_arg() == y.git_arg() <==> x == y,
        OrgProvider::GitHub.name_text() == "github"@,
        OrgProvider::GitLab.name_text() == "gitlab"@,
        OrgProvider::Gitea.name_text() == "gitea"@,
        UntrackedMode::No.git_arg() == "--untracked-files=no"@,
        UntrackedMode::Normal.git_arg() == "--untracked-files=normal"@,
        UntrackedMode::All.git_arg() == "--untracked-files=all"@,
{
    reveal_strlit("github");
    reveal_strlit("gitlab");
    reveal_strlit("gitea");
    reveal_strlit("--untracked-files=no");
    reveal_strlit("--untracked-files=normal");
    reveal_strlit("--untracked-files=all");
    let (p, q) = (a.name_text(), b.name_text());
    if a != b {
        assert(p.len() != q.len() || p[3] != q[3]);
    }
    assert(x != y ==> x.git_arg().len() != y.git_arg().len());
}

/// A clamped number lies between its bounds, is itself where it did before, and is the
/// nearer bound where it did not.
pub proof fn law_a_clamped_number_stays_within(n: int, low: int, high: int)
    requires
        low <= high,
    ensures
        low <= clamped(n, low, high) <= high,
        low <= n <= high ==> clamped(n, low, high) == n,
        n < low ==> clamped(n, low, high) == low,
        n > high ==> clamped(n, low, high) == high,
{
}

/// A duration that cannot be read is what stands for it; one that can is itself. An empty
/// age is no age.
pub proof fn law_a_duration_has_something_to_fall_back_on(s: Seq<char>, secs: int, cfg: &Config)
    requires
        0 <= secs <= u64::MAX,
    ensures
        crate::duration::duration_meaning(s) matches Some(d) ==> duration_or(s, secs) == d,
        crate::duration::duration_meaning(s) is None ==> duration_or(s, secs).secs == secs
            && duration_or(s, secs).millis == 0,
        crate::text::trim(cfg.status.max_age@).len() == 0 <==> cfg.max_age() is None,
        cfg.max_age() matches Some(d) ==> d == duration_or(
            crate::text::trim(cfg.status.max_age@),
            3600,
        ),
{
}

/// An org lies where it says, and else in the first root under the name of its owner;
/// without either it lies nowhere.
pub proof fn law_an_org_lies_where_it_says(own: Seq<char>, root: Seq<char>, owner: Seq<char>)
    ensures
        org_path(Some(own), Some(root), owner) == Some(own),
        org_path(Some(own), None, owner) == Some(own),
        org_path(None, Some(root), owner) == Some(crate::pathname::joined(root, owner)),
        org_path(None, None, owner) is None,
{
}

/// Two orgs are the same where provider, site and owner agree, the site in whatever case.
pub proof fn law_the_same_org_twice(a: &OrgConfig, b: &OrgConfig)
    ensures
        duplicates(a, b) <==> a.the_provider() == b.the_provider() && crate::text::lowercase(
            a.host@,
        ) == crate::text::lowercase(b.host@) && a.owner@ == b.owner@,
        duplicates(a, b) <==> duplicates(b, a),
        duplicates(a, a),
{
}

/// An org is complained of by its place, counted from one: for an owner or a site that is
/// blank, and for a site that is not known where no provider is set.
pub proof fn law_an_org_is_complained_of_by_its_place(org: &OrgConfig, i: int)
    requires
        0 <= i,
    ensures
        crate::text::trim(org.owner@).len() == 0 <==> owner_problem(org, i).len() == 1,
        crate::text::trim(org.owner@).len() > 0 <==> owner_problem(org, i).len() == 0,
        crate::text::trim(org.owner@).len() == 0 ==> owner_problem(org, i)[0] == "orgs["@
            + crate::number::decimal(i + 1) + "]"@ + ": owner is empty"@,
        host_problem(org, i).len() == 0 <==> crate::text::trim(org.host@).len() > 0 && (
        org.provider is Some || OrgProvider::hosted(org.host@) is Some),
        crate::text::trim(org.host@).len() == 0 ==> host_problem(org, i) == seq![
            "orgs["@ + crate::number::decimal(i + 1) + "]"@ + ": host is empty"@,
        ],
        host_problem(org, i).len() <= 1,
{
}

/// Orgs overlap where one lies below the other, whichever comes first.
pub proof fn law_orgs_overlap_both_ways(paths: Seq<Option<Seq<char>>>, i: int, j: int)
    requires
        0 <= i < paths.len(),
        0 <= j < paths.len(),
    ensures
        overlap_problem(paths, i, j).len() == 1 <==> paths[i] is Some && paths[j] is Some && (
        crate::pathname::under(paths[i]->0, paths[j]->0) || crate::pathname::under(
            paths[j]->0,
            paths[i]->0,
        )),
        overlap_problem(paths, i, j).len() == overlap_problem(paths, j, i).len(),
{
}

/// What is set where nothing was set.
pub proof fn law_what_is_set_without_a_setting(cfg: &Config)
    requires
        cfg.is_default(),
    ensures
        crate::text::texts(cfg.roots@) == seq!["~/Projects"@],
        cfg.max_depth == 4,
        !cfg.follow_nested_repos && !cfg.follow_symlinks,
        cfg.refresh.interval@ == "5m"@ && cfg.refresh.debounce@ == "1s"@ && cfg.refresh.watch,
        cfg.status.max_files == 200 && cfg.status.max_age@ == "1h"@ && cfg.status.untracked
            == UntrackedMode::Normal && cfg.status.concurrency is None,
        !cfg.remote.fetch && cfg.remote.interval@ == "1h"@ && cfg.remote.concurrency == 4
            && cfg.remote.timeout@ == "20s"@,
        !cfg.visibility.enabled && cfg.visibility.interval@ == "24h"@ && cfg.visibility.concurrency
            == 4 && cfg.visibility.timeout@ == "10s"@,
        cfg.release.tag_pattern@ == "*[0-9]*"@ && cfg.release.max_subjects == 30
            && cfg.release.read_changelog,
        cfg.ui.default_sort@ == "activity"@ && cfg.ui.default_filters@.len() == 0
            && cfg.ui.columns is None,
        cfg.orgs@.len() == 0,
        crate::text::texts(cfg.exclude@).len() == 3,
        cfg.prune@.len() == 0,
{
}

/// Complaints about orgs come in their order, and each org adds its own.
pub proof fn law_complaints_come_in_order(orgs: Seq<OrgConfig>, org: OrgConfig)
    ensures
        own_problems(orgs.push(org), orgs.len() as int + 1) == own_problems(
            orgs,
            orgs.len() as int,
        ) + owner_problem(&org, orgs.len() as int) + host_problem(&org, orgs.len() as int),
        own_problems(Seq::empty(), 0).len() == 0,
{
    lemma_own_front(orgs, org, orgs.len() as int);
}

proof fn lemma_own_front(orgs: Seq<OrgConfig>, org: OrgConfig, n: int)
    requires
        0 <= n <= orgs.len(),
    ensures
        own_problems(orgs.push(org), n) == own_problems(orgs, n),
    decreases n,
{
    if n > 0 {
        lemma_own_front(orgs, org, n - 1);
        assert(orgs.push(org)[n - 1] == orgs[n - 1]);
    }
}

/// Two orgs that are the same, or that overlap, are told by both their places.
pub proof fn law_two_orgs_are_told_by_their_places(
    orgs: Seq<OrgConfig>,
    paths: Seq<Option<Seq<char>>>,
    i: int,
    j: int,
)
    requires
        0 <= i < j < orgs.len(),
        paths.len() == orgs.len(),
    ensures
        duplicate_problem(orgs, i, j).len() == 1 <==> duplicates(&orgs[i], &orgs[j]),
        duplicate_problem(orgs, i, j).len() == 0 <==> !duplicates(&orgs[i], &orgs[j]),
        duplicates(&orgs[i], &orgs[j]) ==> duplicate_problem(orgs, i, j)[0] == "orgs["@
            + crate::number::decimal(i + 1) + "]"@ + " and "@ + ("orgs["@ + crate::number::decimal(
            j + 1,
        ) + "]"@) + ": duplicate org "@ + orgs[i].the_provider().name_text() + " on "@
            + orgs[i].host@ + " for owner \""@ + orgs[i].owner@ + "\""@,
        overlap_problem(paths, i, j).len() == 1 ==> overlap_problem(paths, i, j)[0] == "orgs["@
            + crate::number::decimal(i + 1) + "]"@ + " path "@ + paths[i]->0 + " overlaps "@ + (
        "orgs["@ + crate::number::decimal(j + 1) + "]"@) + " path "@ + paths[j]->0,
{
}

} // verus!
