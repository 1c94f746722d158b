//! What `drydock list` was asked for.

use vstd::prelude::*;

use crate::filter::{Filter, MatchMode, Query, Sort};
use crate::model::copy_opt;
use crate::probe::Fetch;

verus! {

/// The options of `drydock list`.
#[derive(Debug, Clone)]
pub struct ListArgs {
    /// Repos with uncommitted changes.
    pub dirty: bool,
    /// Repos with commits their upstream doesn't have.
    pub unpushed: bool,
    /// Repos that were never released.
    pub unreleased: bool,
    /// Repos with commits since their last tag.
    pub needs_release: bool,
    /// Repos with nothing past their last tag.
    pub released: bool,
    /// Repos whose release is on hold.
    pub held: bool,
    /// Repos whose upstream is ahead. Only as fresh as your last fetch.
    pub behind: bool,
    /// Repos with merge conflicts.
    pub conflicted: bool,
    /// Repos with a merge, rebase or cherry-pick in progress.
    pub in_progress: bool,
    /// Repos on a detached HEAD.
    pub detached: bool,
    /// Repos with no remote configured.
    pub no_remote: bool,
    /// Repos whose current branch has no upstream.
    pub no_upstream: bool,
    /// Repos with stash entries.
    pub stashed: bool,
    /// Repos with nothing outstanding.
    pub clean: bool,
    /// Repos that could not be probed.
    pub errored: bool,
    /// Repos known to be public.
    pub public: bool,
    /// Repos known to be private.
    pub private: bool,
    /// Filters by name.
    pub filters: Vec<String>,
    /// Whether several filters widen (`any`) or narrow (`all`) the result.
    pub match_mode: String,
    /// Only repos touched within this window, e.g. 1h, 1d, 1w, 1mo.
    pub since: Option<String>,
    /// Only repos in this group (the folder directly under the scan root).
    pub group: Option<String>,
    /// Fuzzy match against group, name and branch.
    pub search: Option<String>,
    /// Sort key: activity, name, group, changes, unpushed, behind, since-tag,
    /// state.
    pub sort: String,
    /// Reverse the sort.
    pub reverse: bool,
    /// Show at most this many rows.
    pub limit: Option<usize>,
    /// Machine-readable output.
    pub json: bool,
    /// Skip working-tree scans. Much faster, but no change counts.
    pub fast: bool,
    /// Ignore the existing cache and re-probe everything.
    pub no_cache: bool,
    /// Print the last known state without probing anything. Instant, and as
    /// stale as your last scan.
    pub cached: bool,
    /// Fetch before probing, so "behind" counts are checked.
    pub fetch: bool,
    /// Print full paths instead of group/name.
    pub paths: bool,
}

/// A filter, where its option is set.
pub open spec fn picked(on: bool, filter: Filter) -> Seq<Filter> {
    if on {
        seq![filter]
    } else {
        Seq::empty()
    }
}

/// The filters that have options of their own.
pub open spec fn option_filters(args: &ListArgs) -> Seq<Filter> {
    first_options(args) + second_options(args)
}

pub open spec fn first_options(args: &ListArgs) -> Seq<Filter> {
    picked(args.dirty, Filter::Dirty) + picked(args.unpushed, Filter::Unpushed) + picked(
        args.unreleased,
        Filter::Unreleased,
    ) + picked(args.needs_release, Filter::NeedsRelease) + picked(args.released, Filter::Released)
        + picked(args.held, Filter::Held) + picked(args.behind, Filter::Behind) + picked(
        args.conflicted,
        Filter::Conflicted,
    )
}

pub open spec fn second_options(args: &ListArgs) -> Seq<Filter> {
    picked(args.in_progress, Filter::InProgress) + picked(args.detached, Filter::Detached) + picked(
        args.no_remote,
        Filter::NoRemote,
    ) + picked(args.no_upstream, Filter::NoUpstream) + picked(args.stashed, Filter::Stashed)
        + picked(args.clean, Filter::Clean) + picked(args.errored, Filter::Error) + picked(
        args.public,
        Filter::Public,
    ) + picked(args.private, Filter::Private)
}

/// The filters that the first `n` names mean.
pub open spec fn named_filters(names: Seq<Seq<char>>, n: int) -> Seq<Filter>
    decreases n,
{
    if n <= 0 {
        Seq::empty()
    } else {
        named_filters(names, n - 1).push(Filter::meaning(names[n - 1])->0)
    }
}

/// The first name, from the `i`th on, that means no filter.
pub open spec fn unknown_name(names: Seq<Seq<char>>, i: int) -> Option<Seq<char>>
    decreases names.len() - i,
{
    if i < 0 || i >= names.len() {
        None
    } else if Filter::meaning(names[i]) is None {
        Some(names[i])
    } else {
        unknown_name(names, i + 1)
    }
}

/// What is wrong with the options, the first thing first.
pub open spec fn query_error(args: &ListArgs) -> Option<Seq<char>> {
    let names = crate::text::texts(args.filters@);
    if MatchMode::meaning(args.match_mode@) is None {
        Some(
            "unknown match mode: "@ + crate::text::lowercase(
                crate::text::trim(args.match_mode@),
            ),
        )
    } else if Sort::meaning(args.sort@) is None {
        Some("unknown sort key: "@ + args.sort@)
    } else if unknown_name(names, 0) is Some {
        Some("unknown filter: "@ + unknown_name(names, 0)->0)
    } else {
        match args.since {
            Some(s) => if crate::text::trim(s@).len() > 0 && crate::duration::duration_meaning(s@)
                is None {
                Some("could not read a duration from "@ + crate::text::debug_quoted(s@))
            } else {
                None
            },
            None => None,
        }
    }
}

/// Whether a query is the one the options ask for.
pub open spec fn asks(args: &ListArgs, query: &Query) -> bool {
    let names = crate::text::texts(args.filters@);
    &&& MatchMode::meaning(args.match_mode@) == Some(query.match_mode)
    &&& Sort::meaning(args.sort@) == Some(query.sort)
    &&& query.reverse == args.reverse
    &&& query.group == args.group
    &&& query.search@ == (match args.search {
        Some(s) => s@,
        None => Seq::empty(),
    })
    &&& query.filters@ == option_filters(args) + named_filters(names, names.len() as int)
    &&& query.since == (match args.since {
        Some(s) => if crate::text::trim(s@).len() == 0 {
            None
        } else {
            crate::duration::duration_meaning(s@)
        },
        None => None,
    })
}

fn pick(list: &mut Vec<Filter>, on: bool, filter: Filter)
    ensures
        final(list)@ == old(list)@ + picked(on, filter),
{
    let ghost before = list@;
    if on {
        list.push(filter);
    }
    assert(list@ =~= before + picked(on, filter));
}

fn first_picks(args: &ListArgs) -> (r: Vec<Filter>)
    ensures
        r@ == first_options(args),
{
    let mut list: Vec<Filter> = Vec::new();
    pick(&mut list, args.dirty, Filter::Dirty);
    assert(list@ =~= picked(args.dirty, Filter::Dirty));
    pick(&mut list, args.unpushed, Filter::Unpushed);
    pick(&mut list, args.unreleased, Filter::Unreleased);
    pick(&mut list, args.needs_release, Filter::NeedsRelease);
    pick(&mut list, args.released, Filter::Released);
    pick(&mut list, args.held, Filter::Held);
    pick(&mut list, args.behind, Filter::Behind);
    pick(&mut list, args.conflicted, Filter::Conflicted);
    list
}

fn second_picks(args: &ListArgs) -> (r: Vec<Filter>)
    ensures
        r@ == second_options(args),
{
    let mut list: Vec<Filter> = Vec::new();
    pick(&mut list, args.in_progress, Filter::InProgress);
    assert(list@ =~= picked(args.in_progress, Filter::InProgress));
    pick(&mut list, args.detached, Filter::Detached);
    pick(&mut list, args.no_remote, Filter::NoRemote);
    pick(&mut list, args.no_upstream, Filter::NoUpstream);
    pick(&mut list, args.stashed, Filter::Stashed);
    pick(&mut list, args.clean, Filter::Clean);
    pick(&mut list, args.errored, Filter::Error);
    pick(&mut list, args.public, Filter::Public);
    pick(&mut list, args.private, Filter::Private);
    list
}

/// The query the options ask for.
pub fn build_query(args: &ListArgs) -> (r: Result<Query, String>)
    ensures
        (match r {
            Ok(query) => query_error(args) is None && asks(args, &query),
            Err(e) => query_error(args) == Some(e@),
        }),
{
    let match_mode = match MatchMode::parse(args.match_mode.as_str()) {
        Ok(mode) => mode,
        Err(e) => {
            return Err(e);
        },
    };
    let sort = match Sort::parse(args.sort.as_str()) {
        Ok(sort) => sort,
        Err(e) => {
            return Err(e);
        },
    };
    let ghost names = crate::text::texts(args.filters@);
    let mut filters = first_picks(args);
    let mut more = second_picks(args);
    filters.append(&mut more);
    assert(filters@ =~= option_filters(args) + named_filters(names, 0));
    let mut i: usize = 0;
    while i < args.filters.len()
        invariant
            i <= args.filters@.len(),
            names == crate::text::texts(args.filters@),
            MatchMode::meaning(args.match_mode@) is Some,
            Sort::meaning(args.sort@) is Some,
            unknown_name(names, 0) == unknown_name(names, i as int),
            filters@ == option_filters(args) + named_filters(names, i as int),
        decreases args.filters@.len() - i,
    {
        match Filter::parse(args.filters[i].as_str()) {
            Ok(filter) => {
                let ghost before = filters@;
                filters.push(filter);
                assert(filters@ =~= option_filters(args) + named_filters(names, i + 1));
            },
            Err(e) => {
                return Err(e);
            },
        }
        i = i + 1;
    }
    let search = match &args.search {
        Some(s) => s.clone(),
        None => {
            let none = String::new();
            assert(none@ =~= Seq::empty());
            none
        },
    };
    let mut query = Query {
        filters,
        match_mode,
        since: None,
        group: copy_opt(&args.group),
        search,
        sort,
        reverse: args.reverse,
    };
    if let Some(since) = &args.since {
        if let Err(e) = query.set_since(since.as_str()) {
            return Err(e);
        }
    }
    Ok(query)
}

/// What `--fetch` means for one `list` invocation. Narrowed to `--group` when
/// there is one: the rows outside it aren't going to be printed, so fetching
/// them is a few hundred network round trips spent on output nobody asked
/// for.
pub fn list_fetch(args: &ListArgs) -> (r: Fetch)
    ensures
        r == (match (args.fetch, args.group) {
            (false, _) => Fetch::Skip,
            (true, Some(group)) => Fetch::Group(group),
            (true, None) => Fetch::All,
        }),
{
    if !args.fetch {
        return Fetch::Skip;
    }
    match &args.group {
        Some(group) => Fetch::Group(group.clone()),
        None => Fetch::All,
    }
}

proof fn lemma_pick_adds(list: Seq<Filter>, on: bool, f: Filter, x: Filter)
    ensures
        (list + picked(on, f)).contains(x) <==> list.contains(x) || (on && f == x),
{
    let all = list + picked(on, f);
    if list.contains(x) {
        let i = choose|i: int| 0 <= i < list.len() && list[i] == x;
        assert(all[i] == x);
    }
    if on && f == x {
        assert(all[list.len() as int] == x);
    }
    if all.contains(x) {
        let i = choose|i: int| 0 <= i < all.len() && all[i] == x;
        if i < list.len() {
            assert(list[i] == x);
        }
    }
}

proof fn lemma_first_options(args: &ListArgs, x: Filter)
    ensures
        first_options(args).contains(x) <==> {
            ||| args.dirty && x == Filter::Dirty
            ||| args.unpushed && x == Filter::Unpushed
            ||| args.unreleased && x == Filter::Unreleased
            ||| args.needs_release && x == Filter::NeedsRelease
            ||| args.released && x == Filter::Released
            ||| args.held && x == Filter::Held
            ||| args.behind && x == Filter::Behind
            ||| args.conflicted && x == Filter::Conflicted
        },
{
    let a = picked(args.dirty, Filter::Dirty);
    lemma_pick_adds(Seq::empty(), args.dirty, Filter::Dirty, x);
    assert(Seq::<Filter>::empty() + a =~= a);
    let b = a + picked(args.unpushed, Filter::Unpushed);
    lemma_pick_adds(a, args.unpushed, Filter::Unpushed, x);
    let c = b + picked(args.unreleased, Filter::Unreleased);
    lemma_pick_adds(b, args.unreleased, Filter::Unreleased, x);
    let d = c + picked(args.needs_release, Filter::NeedsRelease);
    lemma_pick_adds(c, args.needs_release, Filter::NeedsRelease, x);
    let e = d + picked(args.released, Filter::Released);
    lemma_pick_adds(d, args.released, Filter::Released, x);
    let f = e + picked(args.held, Filter::Held);
    lemma_pick_adds(e, args.held, Filter::Held, x);
    let g = f + picked(args.behind, Filter::Behind);
    lemma_pick_adds(f, args.behind, Filter::Behind, x);
    lemma_pick_adds(g, args.conflicted, Filter::Conflicted, x);
}

proof fn lemma_second_options(args: &ListArgs, x: Filter)
    ensures
        second_options(args).contains(x) <==> {
            ||| args.in_progress && x == Filter::InProgress
            ||| args.detached && x == Filter::Detached
            ||| args.no_remote && x == Filter::NoRemote
            ||| args.no_upstream && x == Filter::NoUpstream
            ||| args.stashed && x == Filter::Stashed
            ||| args.clean && x == Filter::Clean
            ||| args.errored && x == Filter::Error
            ||| args.public && x == Filter::Public
            ||| args.private && x == Filter::Private
        },
{
    let a = picked(args.in_progress, Filter::InProgress);
    lemma_pick_adds(Seq::empty(), args.in_progress, Filter::InProgress, x);
    assert(Seq::<Filter>::empty() + a =~= a);
    let b = a + picked(args.detached, Filter::Detached);
    lemma_pick_adds(a, args.detached, Filter::Detached, x);
    let c = b + picked(args.no_remote, Filter::NoRemote);
    lemma_pick_adds(b, args.no_remote, Filter::NoRemote, x);
    let d = c + picked(args.no_upstream, Filter::NoUpstream);
    lemma_pick_adds(c, args.no_upstream, Filter::NoUpstream, x);
    let e = d + picked(args.stashed, Filter::Stashed);
    lemma_pick_adds(d, args.stashed, Filter::Stashed, x);
    let f = e + picked(args.clean, Filter::Clean);
    lemma_pick_adds(e, args.clean, Filter::Clean, x);
    let g = f + picked(args.errored, Filter::Error);
    lemma_pick_adds(f, args.errored, Filter::Error, x);
    let h = g + picked(args.public, Filter::Public);
    lemma_pick_adds(g, args.public, Filter::Public, x);
    lemma_pick_adds(h, args.private, Filter::Private, x);
}

/// An option asks for the filter of its name, and no filter is asked for without its
/// option.
pub proof fn law_an_option_asks_for_its_filter(args: &ListArgs)
    ensures
        option_filters(args).contains(Filter::Dirty) <==> args.dirty,
        option_filters(args).contains(Filter::Unpushed) <==> args.unpushed,
        option_filters(args).contains(Filter::Unreleased) <==> args.unreleased,
        option_filters(args).contains(Filter::NeedsRelease) <==> args.needs_release,
        option_filters(args).contains(Filter::Released) <==> args.released,
        option_filters(args).contains(Filter::Held) <==> args.held,
        option_filters(args).contains(Filter::Behind) <==> args.behind,
        option_filters(args).contains(Filter::Conflicted) <==> args.conflicted,
        option_filters(args).contains(Filter::InProgress) <==> args.in_progress,
        option_filters(args).contains(Filter::Detached) <==> args.detached,
        option_filters(args).contains(Filter::NoRemote) <==> args.no_remote,
        option_filters(args).contains(Filter::NoUpstream) <==> args.no_upstream,
        option_filters(args).contains(Filter::Stashed) <==> args.stashed,
        option_filters(args).contains(Filter::Clean) <==> args.clean,
        option_filters(args).contains(Filter::Error) <==> args.errored,
        option_filters(args).contains(Filter::Public) <==> args.public,
        option_filters(args).contains(Filter::Private) <==> args.private,
{
    lemma_an_option(args, Filter::Dirty);
    lemma_an_option(args, Filter::Unpushed);
    lemma_an_option(args, Filter::Unreleased);
    lemma_an_option(args, Filter::NeedsRelease);
    lemma_an_option(args, Filter::Released);
    lemma_an_option(args, Filter::Held);
    lemma_an_option(args, Filter::Behind);
    lemma_an_option(args, Filter::Conflicted);
    lemma_an_option(args, Filter::InProgress);
    lemma_an_option(args, Filter::Detached);
    lemma_an_option(args, Filter::NoRemote);
    lemma_an_option(args, Filter::NoUpstream);
    lemma_an_option(args, Filter::Stashed);
    lemma_an_option(args, Filter::Clean);
    lemma_an_option(args, Filter::Error);
    lemma_an_option(args, Filter::Public);
    lemma_an_option(args, Filter::Private);
}

/// Whether the option of a filter is set.
pub open spec fn is_opted(args: &ListArgs, x: Filter) -> bool {
    ||| args.dirty && x == Filter::Dirty
    ||| args.unpushed && x == Filter::Unpushed
    ||| args.unreleased && x == Filter::Unreleased
    ||| args.needs_release && x == Filter::NeedsRelease
    ||| args.released && x == Filter::Released
    ||| args.held && x == Filter::Held
    ||| args.behind && x == Filter::Behind
    ||| args.conflicted && x == Filter::Conflicted
    ||| args.in_progress && x == Filter::InProgress
    ||| args.detached && x == Filter::Detached
    ||| args.no_remote && x == Filter::NoRemote
    ||| args.no_upstream && x == Filter::NoUpstream
    ||| args.stashed && x == Filter::Stashed
    ||| args.clean && x == Filter::Clean
    ||| args.errored && x == Filter::Error
    ||| args.public && x == Filter::Public
    ||| args.private && x == Filter::Private
}

proof fn lemma_an_option(args: &ListArgs, x: Filter)
    ensures
        option_filters(args).contains(x) <==> is_opted(args, x),
{
    lemma_both(first_options(args), second_options(args), x);
    lemma_first_options(args, x);
    lemma_second_options(args, x);
}

proof fn lemma_both(a: Seq<Filter>, b: Seq<Filter>, x: Filter)
    ensures
        (a + b).contains(x) <==> a.contains(x) || b.contains(x),
{
    let all = a + b;
    if a.contains(x) {
        let i = choose|i: int| 0 <= i < a.len() && a[i] == x;
        assert(all[i] == x);
    }
    if b.contains(x) {
        let i = choose|i: int| 0 <= i < b.len() && b[i] == x;
        assert(all[i + a.len()] == x);
    }
    if all.contains(x) {
        let i = choose|i: int| 0 <= i < all.len() && all[i] == x;
        if i < a.len() {
            assert(a[i] == x);
        } else {
            assert(b[i - a.len()] == x);
        }
    }
}

/// Filters that are named are asked for one by one, in their order.
pub proof fn law_named_filters_keep_their_order(names: Seq<Seq<char>>, n: int, i: int)
    requires
        0 <= i < n <= names.len(),
    ensures
        named_filters(names, n).len() == n,
        Filter::meaning(names[i]) matches Some(f) ==> named_filters(names, n)[i] == f,
    decreases n,
{
    if n > 1 {
        law_named_filters_keep_their_order(names, n - 1, if i < n - 1 { i } else { 0 });
    }
    reveal_with_fuel(named_filters, 2);
}

/// The name that is complained of is the first that is no filter.
pub proof fn law_the_first_unknown_name_is_told(names: Seq<Seq<char>>, from: int, i: int)
    requires
        0 <= from <= i,
        forall|k: int|
            from <= k < i && k < names.len() ==> Filter::meaning(#[trigger] names[k]) is Some,
    ensures
        i < names.len() && Filter::meaning(names[i]) is None ==> unknown_name(names, from) == Some(
            names[i],
        ),
        i >= names.len() ==> unknown_name(names, from) is None,
    decreases i - from,
{
    if from < i && from < names.len() {
        assert(Filter::meaning(names[from]) is Some);
        law_the_first_unknown_name_is_told(names, from + 1, i);
    }
}

/// What is asked for is refused where the mode, the key, a filter or the time cannot be
/// read, the first of them being told; a blank time is no time.
pub proof fn law_what_cannot_be_read_is_refused(args: &ListArgs)
    ensures
        ({
            let names = crate::text::texts(args.filters@);
            let mode = MatchMode::meaning(args.match_mode@) is None;
            let key = Sort::meaning(args.sort@) is None;
            let name = unknown_name(names, 0) is Some;
            let time = args.since matches Some(s) && crate::text::trim(s@).len() > 0
                && crate::duration::duration_meaning(s@) is None;
            let e = query_error(args);
            &&& e is Some <==> mode || key || name || time
            &&& mode ==> e == Some(
                "unknown match mode: "@ + crate::text::lowercase(
                    crate::text::trim(args.match_mode@),
                ),
            )
            &&& key && !mode ==> e == Some("unknown sort key: "@ + args.sort@)
            &&& name && !mode && !key ==> e == Some(
                "unknown filter: "@ + unknown_name(names, 0)->0,
            )
        }),
{
}

/// A query asks for what the arguments say, and nothing else.
pub proof fn law_a_query_asks_for_what_was_said(args: &ListArgs, query: &Query)
    requires
        asks(args, query),
    ensures
        query.reverse <==> args.reverse,
        query.group == args.group,
        MatchMode::meaning(args.match_mode@) == Some(query.match_mode),
        Sort::meaning(args.sort@) == Some(query.sort),
        args.search matches Some(s) ==> query.search@ == s@,
        args.search is None ==> query.search@.len() == 0,
        args.since is None ==> query.since is None,
        args.since matches Some(s) ==> (crate::text::trim(s@).len() > 0 ==> query.since
            == crate::duration::duration_meaning(s@)),
        query.filters@.len() == option_filters(args).len() + args.filters@.len(),
{
    let names = crate::text::texts(args.filters@);
    if names.len() > 0 {
        law_named_filters_keep_their_order(names, names.len() as int, 0);
    }
}

} // verus!
