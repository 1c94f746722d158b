//! Config and cache locations.
//!
//! Config goes in the platform's config directory: on macOS
//! `~/Library/Application Support/drydock`, on Linux `~/.config/drydock`. The
//! probe cache is disposable, so it goes in the cache directory instead.
//!
//! With one exception, and it only ever bites on macOS. Plenty of people keep
//! every tool's config under `~/.config` and sync that one directory between
//! machines, and macOS is the only platform whose default ignores the XDG
//! variables. So an explicit `$XDG_CONFIG_HOME`, or a `~/.config/drydock`
//! that already exists, wins over the platform default. Neither costs anyone
//! a migration: on Linux the default already resolves to the same place, and on
//! macOS a directory nobody created is never chosen.

use vstd::prelude::*;

use crate::names::sort_names;
use crate::pathname::{absolute, join_path, relative_to};
use crate::text::join_texts;

verus! {

// ---------------------------------------------------------------------------
// The environment
// ---------------------------------------------------------------------------

/// Whether a text starts with a `~` that stands for the home directory.
pub open spec fn has_tilde(s: Seq<char>) -> bool {
    s.len() > 0 && s[0] == '~' && (s.len() == 1 || s[1] == '/')
}

/// What tilde expansion leaves alone: everything behind the tilde, and the whole
/// text where there is none to expand.
pub open spec fn tilde_keeps(s: Seq<char>, expanded: Seq<char>) -> bool {
    if has_tilde(s) {
        crate::text::ends_with(expanded, s.skip(1))
    } else {
        expanded == s
    }
}

/// How an expanded text starts: with all that stands before the first `$`. A `~`
/// for the home directory comes out as some text, and what stands behind it
/// follows. Nothing is said where a `$` directly follows a leading `~`: what the
/// variable holds decides whether that `~` is the home directory.
pub open spec fn keeps_start(s: Seq<char>, expanded: Seq<char>) -> bool {
    if has_tilde(s) {
        exists|home: Seq<char>| #[trigger] starts_behind(s, expanded, home)
    } else {
        s.len() > 1 && s[0] == '~' && s[1] == '$' || starts_alike(s, expanded)
    }
}

/// Whether a text starts with all that stands before the first `$` of another.
pub open spec fn starts_alike(s: Seq<char>, expanded: Seq<char>) -> bool {
    forall|k: int|
        0 <= k <= s.len() && !(#[trigger] s.take(k)).contains('$') ==> crate::text::starts_with(
            expanded,
            s.take(k),
        )
}

/// Whether a text starts with `home` and then all that stands between the `~` and
/// the first `$` of another.
pub open spec fn starts_behind(s: Seq<char>, expanded: Seq<char>, home: Seq<char>) -> bool {
    forall|k: int|
        1 <= k <= s.len() && !(#[trigger] s.take(k)).contains('$') ==> crate::text::starts_with(
            expanded,
            home + s.subrange(1, k),
        )
}

/// How an expanded text ends: with all that follows a `/` behind the last variable.
pub open spec fn keeps_end(s: Seq<char>, expanded: Seq<char>) -> bool {
    forall|k: int|
        0 <= k < s.len() && s[k] == '/' && !(#[trigger] s.skip(k)).contains('$') && !s.skip(
            k,
        ).contains('}') ==> crate::text::ends_with(expanded, s.skip(k))
}

/// What is known of an expanded text: only a leading `~` and variables are
/// replaced, whatever the environment holds.
pub open spec fn expands(s: Seq<char>, expanded: Seq<char>) -> bool {
    &&& (!s.contains('$') ==> tilde_keeps(s, expanded))
    &&& keeps_start(s, expanded)
    &&& keeps_end(s, expanded)
}

/// A text of which only the tilde is replaced is an expansion.
proof fn lemma_tilde_expands(s: Seq<char>, expanded: Seq<char>)
    requires
        tilde_keeps(s, expanded),
    ensures
        expands(s, expanded),
{
    if has_tilde(s) {
        let rest = s.skip(1);
        let home = expanded.take(expanded.len() - rest.len());
        assert(expanded =~= home + rest);
        assert forall|k: int| 1 <= k <= s.len() && !(#[trigger] s.take(k)).contains(
            '$',
        ) implies crate::text::starts_with(expanded, home + s.subrange(1, k)) by {
            let start = home + s.subrange(1, k);
            assert(expanded.take(start.len() as int) =~= start);
        }
        assert(starts_behind(s, expanded, home));
    } else {
        assert forall|k: int| 0 <= k <= s.len() && !(#[trigger] s.take(k)).contains(
            '$',
        ) implies crate::text::starts_with(expanded, s.take(k)) by {
            assert(expanded.take(k) =~= s.take(k));
        }
        assert(starts_alike(s, expanded));
    }
    assert forall|k: int|
        0 <= k < s.len() && s[k] == '/' && !(#[trigger] s.skip(k)).contains('$') && !s.skip(
            k,
        ).contains('}') implies crate::text::ends_with(expanded, s.skip(k)) by {
        let end = s.skip(k);
        assert(expanded.skip(expanded.len() - end.len()) =~= end) by {
            if has_tilde(s) {
                assert(k >= 1);
                assert(expanded.skip(expanded.len() - s.skip(1).len()) == s.skip(1));
                assert forall|j: int| 0 <= j < end.len() implies expanded[expanded.len()
                    - end.len() + j] == end[j] by {
                    assert(s.skip(1)[k - 1 + j] == s[k + j]);
                    assert(expanded.skip(expanded.len() - s.skip(1).len())[k - 1 + j]
                        == expanded[expanded.len() - s.skip(1).len() + (k - 1 + j)]);
                }
            }
        }
    }
}

/// `shellexpand::full`: the text with a leading `~` and every `$VAR` replaced, or
/// none where a variable is not set. What a variable or the `~` comes out as depends
/// on the environment and is not stated. Whatever that is, a text without `$` is
/// never refused and only ever has its tilde replaced, and any other keeps what
/// stands before its first variable and behind a `/` after its last.
#[verifier::external_body]
fn shell_full(input: &str) -> (r: Option<String>)
    ensures
        !input@.contains('$') ==> r is Some,
        r matches Some(expanded) ==> expands(input@, expanded@),
{
    match shellexpand::full(input) {
        Ok(expanded) => Some(expanded.into_owned()),
        Err(_) => None,
    }
}

/// `shellexpand::tilde`: the text with a leading `~` replaced by the home
/// directory, which the environment decides. Nothing else changes. As everywhere
/// here, `/` is the only path separator.
#[verifier::external_body]
fn shell_tilde(input: &str) -> (r: String)
    ensures
        tilde_keeps(input@, r@),
{
    shellexpand::tilde(input).into_owned()
}

/// `dirs::home_dir`: the user's home directory, which the environment decides.
#[verifier::external_body]
pub(crate) fn home_dir() -> (r: Option<String>) {
    match dirs::home_dir() {
        Some(home) => Some(home.to_string_lossy().into_owned()),
        None => None,
    }
}

/// The better of the two expansions: all of it, or the tilde alone where a
/// variable is missing.
pub fn expansion(full: Option<String>, tilde: String) -> (r: String)
    ensures
        r@ == (match full {
            Some(f) => f@,
            None => tilde@,
        }),
{
    match full {
        Some(f) => f,
        None => tilde,
    }
}

/// Expand a leading `~` and any `$VAR` references.
///
/// Environment variables matter here because the roots are the one setting
/// people want to state indirectly: `$GHQ_ROOT` in a config file is the same
/// config on every machine, whereas the path it resolves to isn't. An
/// undefined variable falls back to tilde-only expansion, which leaves the
/// text alone rather than silently turning `~/$NOPE` into `~/`.
pub fn expand(input: &str) -> (r: String)
    ensures
        expands(input@, r@),
{
    match shell_full(input) {
        Some(full) => expansion(Some(full), String::new()),
        None => {
            let tilde = shell_tilde(input);
            proof {
                lemma_tilde_expands(input@, tilde@);
            }
            expansion(None, tilde)
        },
    }
}

/// A path below the home directory starts with `~` instead.
pub open spec fn contracted(path: Seq<char>, home: Option<Seq<char>>) -> Seq<char> {
    match home {
        Some(h) => match crate::pathname::relative(path, h) {
            Some(rest) => "~/"@ + rest,
            None => path,
        },
        None => path,
    }
}

/// [`contract`] for a given home directory.
pub fn contract_from(path: &str, home: Option<&str>) -> (r: String)
    ensures
        r@ == contracted(path@, crate::hold::opt_str(home)),
{
    match home {
        Some(h) => match relative_to(path, h) {
            Some(rest) => {
                let mut out = "~/".to_owned();
                out.append(rest.as_str());
                out
            },
            None => path.to_owned(),
        },
        None => path.to_owned(),
    }
}

/// A borrowed view of an optional string.
pub fn as_opt_str(s: &Option<String>) -> (r: Option<&str>)
    ensures
        crate::hold::opt_str(r) == crate::pathname::opt_text(*s),
{
    match s {
        Some(t) => Some(t.as_str()),
        None => None,
    }
}

/// Render a path with the home directory collapsed back to `~`, for display.
pub fn contract(path: &str) -> (r: String)
    ensures
        exists|home: Option<Seq<char>>| r@ == #[trigger] contracted(path@, home),
{
    let home = home_dir();
    contract_from(path, as_opt_str(&home))
}

/// A text without variables, expanded where this is the home directory.
pub open spec fn expanded_at(s: Seq<char>, home: Option<Seq<char>>) -> Seq<char> {
    match home {
        Some(h) if has_tilde(s) => h + s.skip(1),
        _ => s,
    }
}

/// A text of which only the tilde is replaced is expanded for some home directory.
pub proof fn law_a_tilde_stands_for_a_home(s: Seq<char>, expanded: Seq<char>)
    requires
        tilde_keeps(s, expanded),
    ensures
        exists|home: Option<Seq<char>>| expanded == #[trigger] expanded_at(s, home),
{
    let home = expanded.take(expanded.len() - (s.len() - 1));
    if has_tilde(s) {
        assert(expanded =~= home + s.skip(1));
    }
    assert(expanded == expanded_at(s, Some(home)));
}

/// A leading `~` is the first piece of a path.
pub proof fn lemma_tilde_is_a_piece(s: Seq<char>)
    ensures
        has_tilde(s) <==> crate::pathname::pieces(s)[0] == seq!['~'],
{
    crate::text::lemma_pos(s, '/');
    let n = crate::text::pos(s, '/');
    let first = crate::pathname::pieces(s)[0];
    assert(first =~= s.take(n));
    if has_tilde(s) {
        crate::text::lemma_pos_is(s, '/', 1);
        assert(first =~= seq!['~']);
    }
    if first == seq!['~'] {
        assert(first.len() == 1 && first[0] == '~');
        assert(n == 1 && s[0] == first[0]);
    }
}

/// A contracted path expands back to the same path, the home directory being the
/// same. What does not come back is a path that starts with a `~` of its own and
/// lies outside the home directory.
pub proof fn law_a_contracted_path_expands_back(path: Seq<char>, home: Option<Seq<char>>)
    requires
        home matches Some(h) ==> h.len() > 0 && (has_tilde(path) ==> crate::pathname::under(
            path,
            h,
        )),
    ensures
        crate::pathname::same_path(expanded_at(contracted(path, home), home), path),
{
    if let Some(h) = home {
        if crate::pathname::under(path, h) {
            crate::pathname::law_what_is_left_leads_back(path, h);
            let rest = crate::pathname::relative(path, h)->0;
            reveal_strlit("~/");
            assert(("~/"@ + rest).skip(1) =~= seq!['/'] + rest);
            assert(h + (seq!['/'] + rest) =~= h + seq!['/'] + rest);
        }
    }
}

// ---------------------------------------------------------------------------
// Locations
// ---------------------------------------------------------------------------

/// Where the existing `~/.config/drydock` or `~/.cache/drydock` would be.
pub open spec fn dot_dir(home: Seq<char>, home_subdir: Seq<char>) -> Seq<char> {
    crate::pathname::joined(crate::pathname::joined(home, home_subdir), "drydock"@)
}

/// The directory [`resolve_dir`] asks about.
pub fn dot_dir_of(home: &str, home_subdir: &str) -> (r: String)
    ensures
        r@ == dot_dir(home@, home_subdir@),
{
    let sub = join_path(home, home_subdir);
    join_path(sub.as_str(), "drydock")
}

pub open spec fn resolved_dir(
    xdg: Option<Seq<char>>,
    home: Option<Seq<char>>,
    home_subdir: Seq<char>,
    dot_dir_exists: bool,
    platform_default: Option<Seq<char>>,
) -> Option<Seq<char>> {
    if xdg is Some && crate::pathname::is_absolute(xdg->0) {
        Some(crate::pathname::joined(xdg->0, "drydock"@))
    } else if home is Some && dot_dir_exists {
        Some(dot_dir(home->0, home_subdir))
    } else {
        match platform_default {
            Some(dir) => Some(crate::pathname::joined(dir, "drydock"@)),
            None => None,
        }
    }
}

/// Pick between an XDG-style location and the platform default.
///
/// An absolute `$XDG_CONFIG_HOME` / `$XDG_CACHE_HOME` wins outright — that is
/// someone stating where they want their files. A relative or empty one is
/// ignored rather than resolved against the working directory, which is what
/// the XDG rules ask for. Failing that, an *existing* `~/.config/drydock` (or
/// `~/.cache/drydock`) wins: creating that directory is the other way of
/// saying the same thing, and only checking for it means this never moves
/// anyone's files out from under them. `dot_dir_exists` says whether
/// [`dot_dir_of`] is a directory.
pub fn resolve_dir(
    xdg: Option<String>,
    home: Option<&str>,
    home_subdir: &str,
    dot_dir_exists: bool,
    platform_default: Option<String>,
) -> (r: Option<String>)
    ensures
        crate::pathname::opt_text(r) == resolved_dir(
            crate::pathname::opt_text(xdg),
            crate::hold::opt_str(home),
            home_subdir@,
            dot_dir_exists,
            crate::pathname::opt_text(platform_default),
        ),
{
    if let Some(dir) = &xdg {
        if absolute(dir.as_str()) {
            return Some(join_path(dir.as_str(), "drydock"));
        }
    }
    if let Some(home) = home {
        if dot_dir_exists {
            return Some(dot_dir_of(home, home_subdir));
        }
    }
    match &platform_default {
        Some(dir) => Some(join_path(dir.as_str(), "drydock")),
        None => None,
    }
}

pub open spec fn cache_name(suffix: Option<Seq<char>>) -> Seq<char> {
    match suffix {
        Some(s) => "state-"@ + s + ".json"@,
        None => "state.json"@,
    }
}

pub fn cache_file_name(suffix: Option<&str>) -> (r: String)
    ensures
        r@ == cache_name(crate::hold::opt_str(suffix)),
{
    match suffix {
        Some(s) => {
            let mut out = "state-".to_owned();
            out.append(s);
            out.append(".json");
            out
        },
        None => "state.json".to_owned(),
    }
}

/// The cache file in a cache directory.
pub fn cache_file(cache_dir: &str, suffix: Option<&str>) -> (r: String)
    ensures
        r@ == crate::pathname::joined(cache_dir@, cache_name(crate::hold::opt_str(suffix))),
{
    let name = cache_file_name(suffix);
    join_path(cache_dir, name.as_str())
}

pub fn config_file(config_dir: &str) -> (r: String)
    ensures
        r@ == crate::pathname::joined(config_dir@, "config.toml"@),
{
    join_path(config_dir, "config.toml")
}

/// Where manual release holds are kept. Config rather than cache: a hold is
/// something a person decided, not something a probe observed, and `drydock
/// scan --no-cache` must not throw it away.
pub fn holds_file(config_dir: &str) -> (r: String)
    ensures
        r@ == crate::pathname::joined(config_dir@, "holds.toml"@),
{
    join_path(config_dir, "holds.toml")
}

pub fn log_file(cache_dir: &str) -> (r: String)
    ensures
        r@ == crate::pathname::joined(cache_dir@, "drydock.log"@),
{
    join_path(cache_dir, "drydock.log")
}

// ---------------------------------------------------------------------------
// Naming a cache
// ---------------------------------------------------------------------------

/// FNV-1a over 64 bits.
pub open spec fn fnv(bytes: Seq<u8>) -> u64
    decreases bytes.len(),
{
    if bytes.len() == 0 {
        0xcbf2_9ce4_8422_2325
    } else {
        vstd::wrapping::u64_specs::wrapping_mul(
            fnv(bytes.take(bytes.len() - 1)) ^ (bytes[bytes.len() - 1] as u64),
            0x0000_0100_0000_01b3,
        )
    }
}

pub open spec fn hex_digit(d: int) -> char {
    if d < 10 {
        (48 + d) as char
    } else {
        (87 + d) as char
    }
}

/// The last `width` hexadecimal digits of a number.
pub open spec fn hex(n: int, width: int) -> Seq<char>
    decreases width,
{
    if width <= 0 {
        Seq::empty()
    } else {
        hex(n / 16, width - 1).push(hex_digit(n % 16))
    }
}

fn hex_char(d: u64) -> (r: char)
    requires
        d < 16,
    ensures
        r == hex_digit(d as int),
{
    if d < 10 {
        (48 + d as u8) as char
    } else {
        (87 + d as u8) as char
    }
}

fn push_hex(out: &mut String, n: u64, width: usize)
    ensures
        final(out)@ == old(out)@ + hex(n as int, width as int),
    decreases width,
{
    if width > 0 {
        push_hex(out, n / 16, width - 1);
        out.push(hex_char(n % 16));
    }
    assert(out@ =~= old(out)@ + hex(n as int, width as int));
}

/// FNV-1a. Not cryptographic and not meant to be — it only has to name a
/// disposable file, and being written out by hand means the name can't shift
/// under a toolchain upgrade and orphan everyone's cache.
pub fn short_hash(input: &str) -> (r: String)
    ensures
        r@ == hex(fnv(vstd::utf8::encode_utf8(input@)) as int, 16),
{
    let bytes = input.as_bytes();
    let mut hash: u64 = 0xcbf2_9ce4_8422_2325;
    let mut i: usize = 0;
    while i < bytes.len()
        invariant
            i <= bytes@.len(),
            hash == fnv(bytes@.take(i as int)),
        decreases bytes@.len() - i,
    {
        assert(bytes@.take(i + 1).take(i as int) =~= bytes@.take(i as int));
        hash = (hash ^ (bytes[i] as u64)).wrapping_mul(0x0000_0100_0000_01b3);
        i = i + 1;
    }
    assert(bytes@.take(i as int) =~= bytes@);
    let mut out = String::new();
    push_hex(&mut out, hash, 16);
    out
}

/// The name for a set of roots: the hash of the set, whatever order it is given
/// in.
pub open spec fn namespace(roots: Seq<Seq<char>>) -> Option<Seq<char>> {
    if roots.len() == 0 {
        None
    } else {
        Some(
            hex(
                fnv(
                    vstd::utf8::encode_utf8(
                        crate::text::join(crate::names::sorted_set(roots), "\u{0}"@),
                    ),
                ) as int,
                16,
            ),
        )
    }
}

/// The cache suffix for roots that have been expanded.
pub fn cache_namespace(expanded: &Vec<String>) -> (r: Option<String>)
    ensures
        crate::pathname::opt_text(r) == namespace(crate::text::texts(expanded@)),
{
    assert(crate::text::texts(expanded@).len() == expanded@.len());
    if expanded.len() == 0 {
        return None;
    }
    let set = sort_names(expanded);
    let joined = join_texts(set.as_slice(), "\u{0}");
    Some(short_hash(joined.as_str()))
}

/// Give a run over `--root` trees its own cache file.
///
/// The cache is keyed by repo path and written wholesale at the end of a
/// sweep, so one `drydock --root ~/scratch list` would otherwise replace the
/// fleet's cache with those few repos and leave the next dashboard start
/// painting an empty table. A file per set of roots keeps both warm, and each
/// set gets the same file every time so a repeated `--root` run is still
/// instant.
pub fn set_cache_namespace(roots: &Vec<String>) -> (r: Option<String>)
    ensures
        r is Some <==> roots@.len() > 0,
        exists|expanded: Seq<Seq<char>>|
            {
                &&& #[trigger] expanded.len() == roots@.len()
                &&& forall|i: int|
                    0 <= i < roots@.len() ==> expands(roots@[i]@, #[trigger] expanded[i])
                &&& crate::pathname::opt_text(r) == namespace(expanded)
            },
{
    let mut expanded: Vec<String> = Vec::new();
    let mut i: usize = 0;
    while i < roots.len()
        invariant
            i <= roots@.len(),
            expanded@.len() == i,
            forall|k: int| 0 <= k < i ==> expands(roots@[k]@, #[trigger] expanded@[k]@),
        decreases roots@.len() - i,
    {
        expanded.push(expand(roots[i].as_str()));
        i = i + 1;
    }
    let ghost all = crate::text::texts(expanded@);
    assert(all.len() == roots@.len());
    assert forall|k: int| 0 <= k < roots@.len() implies expands(
        roots@[k]@,
        #[trigger] all[k],
    ) by {
        assert(all[k] == expanded@[k]@);
    }
    cache_namespace(&expanded)
}

/// The same set of roots names the same cache, in whatever order and however
/// often they are given.
pub proof fn law_namespace_ignores_order(a: Seq<Seq<char>>, b: Seq<Seq<char>>)
    requires
        forall|x: Seq<char>| #[trigger] a.contains(x) <==> b.contains(x),
    ensures
        namespace(a) == namespace(b),
{
    crate::names::law_sorted_set_ignores_order(a, b);
    if a.len() > 0 {
        assert(a.contains(a[0]));
    }
    if b.len() > 0 {
        assert(b.contains(b[0]));
    }
}

/// A tilde stands for home alone or in front of a slash, and in no other name.
pub proof fn law_a_tilde_is_alone_or_before_a_slash(rest: Seq<char>)
    ensures
        has_tilde(seq!['~']),
        has_tilde(seq!['~', '/'] + rest),
        rest.len() > 0 && rest[0] != '/' ==> !has_tilde(seq!['~'] + rest),
        rest.len() == 0 || rest[0] != '~' ==> !has_tilde(rest),
{
}

/// A path below home is shown from the tilde on; any other as it is.
pub proof fn law_a_path_below_home_is_contracted(path: Seq<char>, home: Seq<char>)
    ensures
        contracted(path, None) == path,
        !crate::pathname::under(path, home) ==> contracted(path, Some(home)) == path,
        crate::pathname::under(path, home) ==> contracted(path, Some(home)) == "~/"@
            + crate::pathname::relative(path, home)->0,
        expanded_at(path, None) == path,
        !has_tilde(path) ==> expanded_at(path, Some(home)) == path,
        has_tilde(path) ==> expanded_at(path, Some(home)) == home + path.skip(1),
{
    crate::pathname::law_below_goes_on(path, home, home);
}

/// A directory is the one that is set, where it is a full path; else the one under home
/// where it is there; else that of the platform.
pub proof fn law_the_directory_that_is_set_counts(
    xdg: Option<Seq<char>>,
    home: Option<Seq<char>>,
    subdir: Seq<char>,
    there: bool,
    platform: Option<Seq<char>>,
)
    ensures
        ({
            let dir = resolved_dir(xdg, home, subdir, there, platform);
            let set = xdg is Some && xdg->0.len() > 0 && xdg->0[0] == '/';
            &&& set ==> dir == Some(crate::pathname::joined(xdg->0, "drydock"@))
            &&& !set && home is Some && there ==> dir == Some(
                crate::pathname::joined(crate::pathname::joined(home->0, subdir), "drydock"@),
            )
            &&& !set && (home is None || !there) ==> (dir is Some <==> platform is Some)
            &&& !set && (home is None || !there) && platform is Some ==> dir == Some(
                crate::pathname::joined(platform->0, "drydock"@),
            )
        }),
{
}

/// A cache has a name of its own for each set of roots.
pub proof fn law_a_cache_has_its_own_name(a: Seq<char>, b: Seq<char>)
    ensures
        cache_name(Some(a)) == cache_name(Some(b)) <==> a == b,
        cache_name(Some(a)) == "state-"@ + a + ".json"@,
        cache_name(None) == "state.json"@,
{
    let (x, y) = (cache_name(Some(a)), cache_name(Some(b)));
    if x == y {
        assert(x.len() == y.len());
        assert(x.subrange("state-"@.len() as int, x.len() - ".json"@.len()) =~= a);
        assert(y.subrange("state-"@.len() as int, y.len() - ".json"@.len()) =~= b);
    }
}

/// What a number in sixteens is worth.
pub open spec fn hex_value(s: Seq<char>) -> int
    decreases s.len(),
{
    if s.len() == 0 {
        0
    } else {
        let c = s[s.len() - 1];
        hex_value(s.take(s.len() - 1)) * 16 + (if '0' <= c <= '9' {
            c as int - '0' as int
        } else {
            c as int - 'a' as int + 10
        })
    }
}

/// A number in sixteens is as wide as it is asked to be, is written with digits and the
/// letters up to `f`, and reads back as itself where it fits.
pub proof fn law_a_number_in_sixteens_reads_back(n: int, width: nat, i: int)
    requires
        0 <= n < vstd::arithmetic::power::pow(16, width),
    ensures
        hex(n, width as int).len() == width,
        0 <= i < width ==> ('0' <= hex(n, width as int)[i] <= '9' || 'a' <= hex(n, width as int)[i]
            <= 'f'),
        hex_value(hex(n, width as int)) == n,
    decreases width,
{
    vstd::arithmetic::power::lemma_pow0(16);
    if width > 0 {
        let less = (width - 1) as nat;
        assert(vstd::arithmetic::power::pow(16, width) == 16 * vstd::arithmetic::power::pow(
            16,
            less,
        )) by {
            reveal(vstd::arithmetic::power::pow);
        }
        law_a_number_in_sixteens_reads_back(n / 16, less, i);
        let s = hex(n, width as int);
        assert(s.take(s.len() - 1) =~= hex(n / 16, less as int));
    }
}

/// A hash goes byte by byte, and starts where it starts.
pub proof fn law_a_hash_goes_byte_by_byte(bytes: Seq<u8>, b: u8)
    ensures
        fnv(Seq::empty()) == 0xcbf2_9ce4_8422_2325u64,
        fnv(bytes.push(b)) == vstd::wrapping::u64_specs::wrapping_mul(
            fnv(bytes) ^ (b as u64),
            0x0000_0100_0000_01b3,
        ),
{
    assert(bytes.push(b).take(bytes.len() as int) =~= bytes);
}

/// Every set of roots has a namespace of sixteen characters, and no roots have none.
pub proof fn law_roots_have_a_namespace(roots: Seq<Seq<char>>)
    ensures
        namespace(roots) is Some <==> roots.len() > 0,
        namespace(roots) matches Some(s) ==> s.len() == 16,
{
    if roots.len() > 0 {
        lemma_hex_len(
            fnv(
                vstd::utf8::encode_utf8(
                    crate::text::join(crate::names::sorted_set(roots), "\u{0}"@),
                ),
            ) as int,
            16,
        );
    }
}

proof fn lemma_hex_len(n: int, width: int)
    requires
        0 <= width,
    ensures
        hex(n, width).len() == width,
    decreases width,
{
    if width > 0 {
        lemma_hex_len(n / 16, width - 1);
    }
}

} // verus!
