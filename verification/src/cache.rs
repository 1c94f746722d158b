//! The probe cache.
//!
//! Nothing in here is authoritative; it exists so that opening the dashboard
//! paints a full table immediately instead of an empty one, and so a restart
//! can skip working-tree scans for repos that haven't changed. A missing or
//! unreadable cache is a non-event.
//!
//! Two independent writers share the one file: the repo sweep (`save`) and
//! the org-sync engine (`save_org_states`). Each writes only its own half and
//! *carries the other half through* — `save` preserves the org states already
//! in the file, `save_org_states` preserves the repos. Neither can be the
//! sole owner, because neither knows when the other last ran, and dropping
//! the other's half would quietly reset the dashboard's last-sync column
//! (or the whole probe cache) every time the other feature ran.

use vstd::prelude::*;

use crate::model::RepoStatus;
use crate::pathname::paths_equal;
use crate::text::same;

verus! {

/// Bump when the stored structs change shape in a way that makes old entries
/// misleading rather than merely incomplete.
pub const CACHE_VERSION: u32 = 1;

#[derive(Debug)]
pub struct Cache {
    pub version: u32,
    pub saved_at: i64,
    pub repos: Vec<RepoStatus>,
    /// Org-sync outcomes, last run per registered owner. Additive with a
    /// default, so cache files written before org sync existed still load —
    /// which is why `CACHE_VERSION` did not move.
    pub orgs: Vec<OrgSyncState>,
}

impl Default for Cache {
    fn default() -> (r: Self)
        ensures
            r.version == CACHE_VERSION,
            r.saved_at == 0,
            r.repos@.len() == 0,
            r.orgs@.len() == 0,
    {
        Cache { version: CACHE_VERSION, saved_at: 0, repos: Vec::new(), orgs: Vec::new() }
    }
}

/// What one registered org's most recent sync looked like: when it ran and
/// how each bucket came out. This is display data for the org manager, not a
/// queue or a lock — nothing here gates a future sync.
#[derive(Debug, Clone)]
pub struct OrgSyncState {
    pub provider: String,
    pub host: String,
    pub owner: String,
    pub last_sync_at: i64,
    pub cloned: usize,
    pub updated: usize,
    pub current: usize,
    pub skipped: usize,
    pub orphans: usize,
    pub errors: usize,
    pub last_error: Option<String>,
}

/// A registration: provider, host and owner.
pub type OrgKey = (Seq<char>, Seq<char>, Seq<char>);

impl OrgSyncState {
    pub open spec fn key(&self) -> OrgKey {
        (self.provider@, self.host@, self.owner@)
    }
}

/// The identity of an org state: provider, host, owner — the same triple the
/// config uses to name a registration.
pub fn org_key(state: &OrgSyncState) -> (r: (String, String, String))
    ensures
        (r.0@, r.1@, r.2@) == state.key(),
{
    (state.provider.clone(), state.host.clone(), state.owner.clone())
}

// ---------------------------------------------------------------------------
// Reading
// ---------------------------------------------------------------------------

/// The halves of a cache that was read; nothing where there was none, or where
/// another version wrote it.
pub open spec fn repo_half(cache: Option<Cache>) -> Seq<RepoStatus> {
    match cache {
        Some(c) if c.version == CACHE_VERSION => c.repos@,
        _ => Seq::empty(),
    }
}

pub open spec fn org_half(cache: Option<Cache>) -> Seq<OrgSyncState> {
    match cache {
        Some(c) if c.version == CACHE_VERSION => c.orgs@,
        _ => Seq::empty(),
    }
}

/// A cache that was read, if it was written by this version. A missing, unreadable,
/// or foreign-version cache is a non-event rather than an error — the cache is
/// disposable by design.
pub fn accept(cache: Option<Cache>) -> (r: Option<Cache>)
    ensures
        r == (match cache {
            Some(c) if c.version == CACHE_VERSION => Some(c),
            _ => None,
        }),
{
    match cache {
        Some(c) => {
            if c.version == CACHE_VERSION {
                Some(c)
            } else {
                None
            }
        },
        None => None,
    }
}

fn accept_or_default(cache: Option<Cache>) -> (r: Cache)
    ensures
        r.version == CACHE_VERSION,
        r.repos@ == repo_half(cache),
        r.orgs@ == org_half(cache),
{
    match accept(cache) {
        Some(c) => c,
        None => {
            let none = Cache::default();
            assert(none.repos@ =~= Seq::empty());
            assert(none.orgs@ =~= Seq::empty());
            none
        },
    }
}

/// Index of the repo with that root, from `i` on.
pub open spec fn repo_from(repos: Seq<RepoStatus>, root: Seq<char>, i: int) -> Option<int>
    decreases repos.len() - i,
{
    if i < 0 || i >= repos.len() {
        None
    } else if crate::pathname::same_path(repos[i].root@, root) {
        Some(i)
    } else {
        repo_from(repos, root, i + 1)
    }
}

/// The repo with that root.
pub open spec fn repo_at(repos: Seq<RepoStatus>, root: Seq<char>) -> Option<RepoStatus> {
    match repo_from(repos, root, 0) {
        Some(i) => Some(repos[i]),
        None => None,
    }
}

/// The repos from the `i`th on, the last first, each root once.
pub open spec fn latest_repos(repos: Seq<RepoStatus>, i: int) -> Seq<RepoStatus>
    decreases repos.len() - i,
{
    if i < 0 || i >= repos.len() {
        Seq::empty()
    } else {
        let later = latest_repos(repos, i + 1);
        if repo_at(later, repos[i].root@) is Some {
            later
        } else {
            later.push(repos[i])
        }
    }
}

/// The cached status of a repo.
pub fn cached<'a>(repos: &'a Vec<RepoStatus>, root: &str) -> (r: Option<&'a RepoStatus>)
    ensures
        (match r {
            Some(repo) => repo_at(repos@, root@) == Some(*repo),
            None => repo_at(repos@, root@) is None,
        }),
{
    let mut i: usize = 0;
    while i < repos.len()
        invariant
            i <= repos@.len(),
            repo_from(repos@, root@, 0) == repo_from(repos@, root@, i as int),
        decreases repos@.len() - i,
    {
        if paths_equal(repos[i].root.as_str(), root) {
            return Some(&repos[i]);
        }
        i = i + 1;
    }
    None
}

/// The repos in the cache, one for each root, for lookup during a sweep (see
/// [`cached`]). Of two with one root the later one counts.
pub fn load(cache: Option<Cache>) -> (r: Vec<RepoStatus>)
    ensures
        r@ == latest_repos(repo_half(cache), 0),
{
    let ghost all = repo_half(cache);
    let read = accept_or_default(cache);
    let mut repos = read.repos;
    let mut out: Vec<RepoStatus> = Vec::new();
    assert(all.take(repos@.len() as int) =~= repos@);
    assert(out@ =~= latest_repos(all, all.len() as int));
    while repos.len() > 0
        invariant
            repos@.len() <= all.len(),
            repos@ == all.take(repos@.len() as int),
            out@ == latest_repos(all, repos@.len() as int),
        decreases repos@.len(),
    {
        let ghost n = repos@.len() as int;
        assert(repos@[n - 1] == all[n - 1]);
        if let Some(repo) = repos.pop() {
            assert(repos@ =~= all.take(n - 1));
            if cached(&out, repo.root.as_str()).is_none() {
                out.push(repo);
            }
        }
    }
    out
}

/// Index of the state with that key, from `i` on.
pub open spec fn state_from(orgs: Seq<OrgSyncState>, key: OrgKey, i: int) -> Option<int>
    decreases orgs.len() - i,
{
    if i < 0 || i >= orgs.len() {
        None
    } else if orgs[i].key() == key {
        Some(i)
    } else {
        state_from(orgs, key, i + 1)
    }
}

/// The state with that key.
pub open spec fn state_of(orgs: Seq<OrgSyncState>, key: OrgKey) -> Option<OrgSyncState> {
    match state_from(orgs, key, 0) {
        Some(i) => Some(orgs[i]),
        None => None,
    }
}

/// The states from the `i`th on, the last first, each key once.
pub open spec fn latest_states(orgs: Seq<OrgSyncState>, i: int) -> Seq<OrgSyncState>
    decreases orgs.len() - i,
{
    if i < 0 || i >= orgs.len() {
        Seq::empty()
    } else {
        let later = latest_states(orgs, i + 1);
        if state_of(later, orgs[i].key()) is Some {
            later
        } else {
            later.push(orgs[i])
        }
    }
}

fn same_org(a: &OrgSyncState, b: &OrgSyncState) -> (r: bool)
    ensures
        r == (a.key() == b.key()),
{
    same(a.provider.as_str(), b.provider.as_str()) && same(a.host.as_str(), b.host.as_str())
        && same(a.owner.as_str(), b.owner.as_str())
}

fn find_org(orgs: &Vec<OrgSyncState>, state: &OrgSyncState) -> (r: Option<usize>)
    ensures
        crate::text::opt_int(r) == state_from(orgs@, state.key(), 0),
        r matches Some(i) ==> i < orgs@.len(),
{
    let mut i: usize = 0;
    while i < orgs.len()
        invariant
            i <= orgs@.len(),
            state_from(orgs@, state.key(), 0) == state_from(orgs@, state.key(), i as int),
        decreases orgs@.len() - i,
    {
        if same_org(&orgs[i], state) {
            return Some(i);
        }
        i = i + 1;
    }
    None
}

/// The org-sync states in the cache, one for each registration. Of two with one
/// key the later one counts.
pub fn load_org_states(cache: Option<Cache>) -> (r: Vec<OrgSyncState>)
    ensures
        r@ == latest_states(org_half(cache), 0),
{
    let ghost all = org_half(cache);
    let read = accept_or_default(cache);
    let mut orgs = read.orgs;
    let mut out: Vec<OrgSyncState> = Vec::new();
    assert(all.take(orgs@.len() as int) =~= orgs@);
    assert(out@ =~= latest_states(all, all.len() as int));
    while orgs.len() > 0
        invariant
            orgs@.len() <= all.len(),
            orgs@ == all.take(orgs@.len() as int),
            out@ == latest_states(all, orgs@.len() as int),
        decreases orgs@.len(),
    {
        let ghost n = orgs@.len() as int;
        assert(orgs@[n - 1] == all[n - 1]);
        if let Some(state) = orgs.pop() {
            assert(orgs@ =~= all.take(n - 1));
            if find_org(&out, &state).is_none() {
                out.push(state);
            }
        }
    }
    out
}

// ---------------------------------------------------------------------------
// Writing
// ---------------------------------------------------------------------------

/// Replace the repo half of the cache, carrying any org states through
/// untouched. The read-modify-write is what keeps the two writers from
/// erasing each other; see the module doc. The version and timestamp are stamped
/// here so every writer produces the same shape of file.
pub fn save(existing: Option<Cache>, repos: Vec<RepoStatus>, now: i64) -> (r: Cache)
    ensures
        r.version == CACHE_VERSION,
        r.saved_at == now,
        r.repos == repos,
        r.orgs@ == org_half(existing),
{
    let mut cache = accept_or_default(existing);
    cache.repos = repos;
    cache.saved_at = now;
    cache
}

/// A state put in place of the one with its key, or at the end.
pub open spec fn upserted(orgs: Seq<OrgSyncState>, upsert: OrgSyncState) -> Seq<OrgSyncState> {
    match state_from(orgs, upsert.key(), 0) {
        Some(i) => orgs.update(i, upsert),
        None => orgs.push(upsert),
    }
}

/// The first `n` states put in.
pub open spec fn upserted_upto(
    orgs: Seq<OrgSyncState>,
    upserts: Seq<OrgSyncState>,
    n: int,
) -> Seq<OrgSyncState>
    decreases n,
{
    if n <= 0 {
        orgs
    } else {
        upserted(upserted_upto(orgs, upserts, n - 1), upserts[n - 1])
    }
}

/// Record the latest sync outcome per org. States merge by
/// (provider, host, owner): an upsert replaces its own key and leaves the
/// rest alone, and the repo half of the cache rides through untouched — the
/// sweep's data is not this writer's to drop.
pub fn save_org_states(existing: Option<Cache>, upserts: Vec<OrgSyncState>, now: i64) -> (r: Cache)
    ensures
        r.version == CACHE_VERSION,
        r.saved_at == now,
        r.repos@ == repo_half(existing),
        r.orgs@ == upserted_upto(org_half(existing), upserts@, upserts@.len() as int),
{
    let ghost first = org_half(existing);
    let cache = accept_or_default(existing);
    let repos = cache.repos;
    let mut orgs = cache.orgs;
    let ghost all = upserts@;
    let mut i: usize = 0;
    while i < upserts.len()
        invariant
            i <= upserts@.len(),
            all == upserts@,
            orgs@ == upserted_upto(first, all, i as int),
        decreases upserts@.len() - i,
    {
        let upsert = copy_state(&upserts[i]);
        match find_org(&orgs, &upsert) {
            Some(k) => {
                orgs.set(k, upsert);
            },
            None => {
                orgs.push(upsert);
            },
        }
        i = i + 1;
    }
    Cache { version: CACHE_VERSION, saved_at: now, repos, orgs }
}

fn copy_state(s: &OrgSyncState) -> (r: OrgSyncState)
    ensures
        r == *s,
{
    OrgSyncState {
        provider: s.provider.clone(),
        host: s.host.clone(),
        owner: s.owner.clone(),
        last_sync_at: s.last_sync_at,
        cloned: s.cloned,
        updated: s.updated,
        current: s.current,
        skipped: s.skipped,
        orphans: s.orphans,
        errors: s.errors,
        last_error: crate::model::copy_opt(&s.last_error),
    }
}

// ---------------------------------------------------------------------------
// Laws
// ---------------------------------------------------------------------------

/// No two states have one key.
pub open spec fn distinct_keys(orgs: Seq<OrgSyncState>) -> bool {
    forall|i: int, j: int|
        #![trigger orgs[i], orgs[j]]
        0 <= i < j < orgs.len() ==> orgs[i].key() != orgs[j].key()
}

proof fn lemma_state_from(orgs: Seq<OrgSyncState>, key: OrgKey, i: int)
    requires
        0 <= i,
    ensures
        (match state_from(orgs, key, i) {
            Some(k) => i <= k < orgs.len() && orgs[k].key() == key && forall|j: int|
                i <= j < k ==> (#[trigger] orgs[j]).key() != key,
            None => forall|j: int| i <= j < orgs.len() ==> (#[trigger] orgs[j]).key() != key,
        }),
    decreases orgs.len() - i,
{
    if i < orgs.len() && orgs[i].key() != key {
        lemma_state_from(orgs, key, i + 1);
    }
}

/// After an upsert its own key has its state, every other key has what it had, and
/// keys stay distinct.
pub proof fn law_upsert_replaces_its_own_key(
    orgs: Seq<OrgSyncState>,
    upsert: OrgSyncState,
    key: OrgKey,
)
    ensures
        state_of(upserted(orgs, upsert), upsert.key()) == Some(upsert),
        key != upsert.key() ==> state_of(upserted(orgs, upsert), key) == state_of(orgs, key),
        distinct_keys(orgs) ==> distinct_keys(upserted(orgs, upsert)),
{
    let out = upserted(orgs, upsert);
    lemma_state_from(orgs, upsert.key(), 0);
    lemma_state_from(out, upsert.key(), 0);
    lemma_state_from(orgs, key, 0);
    lemma_state_from(out, key, 0);
    match state_from(orgs, upsert.key(), 0) {
        Some(i) => {
            assert(out[i] == upsert);
            assert forall|j: int| 0 <= j < orgs.len() && j != i implies #[trigger] out[j]
                == orgs[j] by {}
            if key != upsert.key() {
                assert forall|j: int| 0 <= j < orgs.len() implies ((#[trigger] out[j]).key() == key
                    <==> orgs[j].key() == key) by {}
                lemma_same_place(orgs, out, key, 0);
            }
        },
        None => {
            assert(out[orgs.len() as int] == upsert);
            assert forall|j: int| 0 <= j < orgs.len() implies #[trigger] out[j] == orgs[j] by {}
            if key != upsert.key() {
                lemma_same_place(orgs, out, key, 0);
            }
        },
    }
    if distinct_keys(orgs) {
        assert forall|i: int, j: int|
            #![trigger out[i], out[j]]
            0 <= i < j < out.len() implies out[i].key() != out[j].key() by {
            if j < orgs.len() {
                assert(orgs[i].key() != orgs[j].key());
            }
        }
    }
}

proof fn lemma_same_place(a: Seq<OrgSyncState>, b: Seq<OrgSyncState>, key: OrgKey, i: int)
    requires
        0 <= i,
        a.len() <= b.len() <= a.len() + 1,
        forall|j: int|
            0 <= j < a.len() ==> ((#[trigger] b[j]).key() == key <==> a[j].key() == key),
        b.len() > a.len() ==> b[a.len() as int].key() != key,
    ensures
        state_from(a, key, i) == state_from(b, key, i),
    decreases b.len() - i,
{
    if i < b.len() {
        if i < a.len() {
            assert(b[i].key() == key <==> a[i].key() == key);
        }
        lemma_same_place(a, b, key, i + 1);
    }
}

proof fn lemma_push_state(orgs: Seq<OrgSyncState>, more: OrgSyncState, key: OrgKey)
    ensures
        state_of(orgs.push(more), key) == (if state_of(orgs, key) is Some {
            state_of(orgs, key)
        } else if more.key() == key {
            Some(more)
        } else {
            None
        }),
{
    let out = orgs.push(more);
    lemma_state_from(orgs, key, 0);
    lemma_state_from(out, key, 0);
    assert forall|j: int| 0 <= j < orgs.len() implies #[trigger] out[j] == orgs[j] by {}
    assert(out[orgs.len() as int] == more);
    match state_from(orgs, key, 0) {
        Some(i) => {
            assert(out[i].key() == key);
            let k = state_from(out, key, 0)->0;
            if k < i {
                assert(orgs[k].key() != key);
            }
        },
        None => {
            if let Some(k) = state_from(out, key, 0) {
                if k < orgs.len() {
                    assert(orgs[k].key() != key);
                }
            }
        },
    }
}

proof fn lemma_latest_states(orgs: Seq<OrgSyncState>, i: int, key: OrgKey)
    requires
        distinct_keys(orgs),
        0 <= i <= orgs.len(),
    ensures
        state_of(latest_states(orgs, i), key) == (match state_from(orgs, key, i) {
            Some(k) => Some(orgs[k]),
            None => None,
        }),
    decreases orgs.len() - i,
{
    if i < orgs.len() {
        let later = latest_states(orgs, i + 1);
        lemma_latest_states(orgs, i + 1, key);
        lemma_latest_states(orgs, i + 1, orgs[i].key());
        lemma_state_from(orgs, orgs[i].key(), i + 1);
        if state_from(orgs, orgs[i].key(), i + 1) is Some {
            let k = state_from(orgs, orgs[i].key(), i + 1)->0;
            assert(orgs[i].key() != orgs[k].key());
        }
        lemma_push_state(later, orgs[i], key);
    }
}

/// What a sync wrote is what loading gives back: the state of the org that was
/// recorded, and of every other org what it was.
pub proof fn law_states_read_back(
    orgs: Seq<OrgSyncState>,
    upsert: OrgSyncState,
    key: OrgKey,
)
    requires
        distinct_keys(orgs),
    ensures
        state_of(latest_states(upserted(orgs, upsert), 0), key) == (if key == upsert.key() {
            Some(upsert)
        } else {
            state_of(latest_states(orgs, 0), key)
        }),
{
    law_upsert_replaces_its_own_key(orgs, upsert, key);
    lemma_latest_states(upserted(orgs, upsert), 0, key);
    lemma_latest_states(orgs, 0, key);
}

/// The last repo with that root, from the `i`th on.
pub open spec fn last_repo(repos: Seq<RepoStatus>, root: Seq<char>, i: int) -> Option<RepoStatus>
    decreases repos.len() - i,
{
    if i < 0 || i >= repos.len() {
        None
    } else if last_repo(repos, root, i + 1) is Some {
        last_repo(repos, root, i + 1)
    } else if crate::pathname::same_path(repos[i].root@, root) {
        Some(repos[i])
    } else {
        None
    }
}

proof fn lemma_repo_by_path(repos: Seq<RepoStatus>, a: Seq<char>, b: Seq<char>, i: int)
    requires
        crate::pathname::same_path(a, b),
        0 <= i,
    ensures
        repo_from(repos, a, i) == repo_from(repos, b, i),
    decreases repos.len() - i,
{
    if i < repos.len() {
        lemma_repo_by_path(repos, a, b, i + 1);
    }
}

proof fn lemma_push_repo(repos: Seq<RepoStatus>, more: RepoStatus, root: Seq<char>, i: int)
    requires
        0 <= i <= repos.len(),
    ensures
        repo_from(repos.push(more), root, i) == (if repo_from(repos, root, i) is Some {
            repo_from(repos, root, i)
        } else if crate::pathname::same_path(more.root@, root) {
            Some(repos.len() as int)
        } else {
            None
        }),
        repo_from(repos, root, i) matches Some(k) ==> i <= k < repos.len(),
    decreases repos.len() - i,
{
    let out = repos.push(more);
    if i < repos.len() {
        assert(out[i] == repos[i]);
        lemma_push_repo(repos, more, root, i + 1);
    } else {
        assert(out[i] == more);
        assert(repo_from(out, root, i + 1) is None);
    }
}

proof fn lemma_latest_repos(repos: Seq<RepoStatus>, root: Seq<char>, i: int)
    requires
        0 <= i <= repos.len(),
    ensures
        repo_at(latest_repos(repos, i), root) == last_repo(repos, root, i),
    decreases repos.len() - i,
{
    if i < repos.len() {
        let later = latest_repos(repos, i + 1);
        lemma_latest_repos(repos, root, i + 1);
        if crate::pathname::same_path(repos[i].root@, root) {
            lemma_repo_by_path(later, repos[i].root@, root, 0);
        }
        lemma_push_repo(later, repos[i], root, 0);
    }
}

/// What a sweep saved is what the next one finds: for every root the status that was
/// listed for it, the last where it was listed twice.
pub proof fn law_repos_read_back(repos: Seq<RepoStatus>, root: Seq<char>)
    ensures
        repo_at(latest_repos(repos, 0), root) == last_repo(repos, root, 0),
{
    lemma_latest_repos(repos, root, 0);
}

/// A cache of another version is as good as none, and one of this version gives what is in
/// it.
pub proof fn law_another_version_is_no_cache(cache: Option<Cache>)
    ensures
        cache is None ==> repo_half(cache).len() == 0 && org_half(cache).len() == 0,
        cache matches Some(c) ==> (c.version != CACHE_VERSION ==> repo_half(cache).len() == 0
            && org_half(cache).len() == 0),
        cache matches Some(c) ==> (c.version == CACHE_VERSION ==> repo_half(cache) == c.repos@
            && org_half(cache) == c.orgs@),
{
}

/// The status of a root is the last that was listed for its path.
pub proof fn law_the_last_status_counts(repos: Seq<RepoStatus>, root: Seq<char>, i: int)
    requires
        0 <= i < repos.len(),
        crate::pathname::same_path(repos[i].root@, root),
        forall|k: int|
            i < k < repos.len() ==> !crate::pathname::same_path((#[trigger] repos[k]).root@, root),
    ensures
        repo_at(latest_repos(repos, 0), root) == Some(repos[i]),
{
    law_repos_read_back(repos, root);
    lemma_last_repo(repos, root, i, 0);
}

proof fn lemma_last_repo(repos: Seq<RepoStatus>, root: Seq<char>, i: int, from: int)
    requires
        0 <= from,
        0 <= i < repos.len(),
        crate::pathname::same_path(repos[i].root@, root),
        forall|k: int|
            i < k < repos.len() ==> !crate::pathname::same_path((#[trigger] repos[k]).root@, root),
    ensures
        from <= i ==> last_repo(repos, root, from) == Some(repos[i]),
        from > i ==> last_repo(repos, root, from) is None,
    decreases repos.len() - from,
{
    if from < repos.len() {
        lemma_last_repo(repos, root, i, from + 1);
        if from > i {
            assert(!crate::pathname::same_path(repos[from].root@, root));
        }
    }
}

/// A root that is not listed has no status, and one that is has its own.
pub proof fn law_a_status_is_its_roots_own(repos: Seq<RepoStatus>, root: Seq<char>)
    ensures
        repo_at(repos, root) matches Some(r) ==> crate::pathname::same_path(r.root@, root)
            && repos.contains(r),
        (forall|k: int|
            0 <= k < repos.len() ==> !crate::pathname::same_path((#[trigger] repos[k]).root@, root))
            ==> repo_at(repos, root) is None,
{
    lemma_repo_place(repos, root, 0);
}

proof fn lemma_repo_place(repos: Seq<RepoStatus>, root: Seq<char>, i: int)
    requires
        0 <= i,
    ensures
        repo_from(repos, root, i) matches Some(k) ==> i <= k < repos.len()
            && crate::pathname::same_path(repos[k].root@, root),
    decreases repos.len() - i,
{
    if i < repos.len() && !crate::pathname::same_path(repos[i].root@, root) {
        lemma_repo_place(repos, root, i + 1);
    }
}

} // verus!
