//! Running a sync plan, strictly serially.
//!
//! One repo at a time, one sorted pass: clones and updates interleaved by
//! name. A [`SyncRun`] says what to do next and takes in how it went; the program
//! runs git in between.
//!
//! A pull that fails — diverged, dirty, detached, no upstream — is a skip
//! with a reason, never an error and never lost work; that is the whole
//! safety story of `--ff-only`. Only a failed *clone* is an Error.
//!
//! Orphans and config-level skips are reported without progress ticks: they
//! are not work, and the report explains them outright.

use vstd::prelude::*;

use crate::cache::OrgSyncState;
use crate::config::{CloneProtocol, OrgConfig};
use crate::number::add_size;
use crate::order::{code_row, sort_indices, Key};
use crate::org::{plan, SyncPlan};
use crate::pathname::{file_name_of, join_path};
use crate::provider::OrgRepo;
use crate::text::{first_line_of, from_chars, has, split_lines, to_chars, trimmed};

verus! {

/// What happened to one repo.
#[derive(Debug, Clone, Copy, PartialEq, Eq, Structural)]
pub enum Action {
    Cloned,
    Updated,
    Current,
    Skipped,
    Orphaned,
    Error,
}

impl Action {
    pub open spec fn label_text(&self) -> Seq<char> {
        match self {
            Action::Cloned => "cloned"@,
            Action::Updated => "updated"@,
            Action::Current => "current"@,
            Action::Skipped => "skipped"@,
            Action::Orphaned => "orphaned"@,
            Action::Error => "error"@,
        }
    }

    pub fn label(&self) -> (r: &'static str)
        ensures
            r@ == self.label_text(),
    {
        match self {
            Action::Cloned => "cloned",
            Action::Updated => "updated",
            Action::Current => "current",
            Action::Skipped => "skipped",
            Action::Orphaned => "orphaned",
            Action::Error => "error",
        }
    }
}

/// One row of the report.
#[derive(Debug)]
pub struct SyncOutcome {
    pub action: Action,
    pub name: String,
    pub detail: String,
}

impl Clone for SyncOutcome {
    fn clone(&self) -> (r: Self)
        ensures
            r == *self,
    {
        SyncOutcome {
            action: self.action,
            name: self.name.clone(),
            detail: self.detail.clone(),
        }
    }
}

/// A row of the report, by its contents.
pub struct OutcomeText {
    pub action: Action,
    pub name: Seq<char>,
    pub detail: Seq<char>,
}

impl View for SyncOutcome {
    type V = OutcomeText;

    open spec fn view(&self) -> OutcomeText {
        OutcomeText { action: self.action, name: self.name@, detail: self.detail@ }
    }
}

pub open spec fn outcome_texts(outcomes: Seq<SyncOutcome>) -> Seq<OutcomeText> {
    outcomes.map_values(|o: SyncOutcome| o@)
}

/// What a running sync tells the dashboard: a progress tick before each unit
/// of work, then one outcome per repo — the same streaming shape the probe
/// channel uses, so the status line can show `cloning 7/31`.
#[derive(Debug)]
pub enum SyncEvent {
    Progress { done: usize, total: usize, label: String },
    Repo(SyncOutcome),
}

/// What a running sync tells, by its contents.
pub enum EventText {
    Progress { done: int, total: int, label: Seq<char> },
    Repo(OutcomeText),
}

impl View for SyncEvent {
    type V = EventText;

    open spec fn view(&self) -> EventText {
        match self {
            SyncEvent::Progress { done, total, label } => EventText::Progress {
                done: *done as int,
                total: *total as int,
                label: label@,
            },
            SyncEvent::Repo(o) => EventText::Repo(o@),
        }
    }
}

pub open spec fn event_texts(events: Seq<SyncEvent>) -> Seq<EventText> {
    events.map_values(|e: SyncEvent| e@)
}

/// Where a repo is cloned to: a directory of its name in the org's path.
pub fn clone_dir(root: &str, repo: &OrgRepo) -> (r: String)
    ensures
        r@ == crate::pathname::joined(root@, repo.name@),
{
    join_path(root, repo.name.as_str())
}

/// Which URL to clone from, per the org's protocol.
pub fn clone_url<'a>(org: &OrgConfig, repo: &'a OrgRepo) -> (r: &'a str)
    ensures
        r@ == url_of(org, *repo),
{
    match org.protocol {
        CloneProtocol::Ssh => repo.ssh_url.as_str(),
        CloneProtocol::Https => repo.https_url.as_str(),
    }
}

pub open spec fn url_of(org: &OrgConfig, repo: OrgRepo) -> Seq<char> {
    match org.protocol {
        CloneProtocol::Ssh => repo.ssh_url@,
        CloneProtocol::Https => repo.https_url@,
    }
}

/// The last of the first `n` lines that says something, trimmed.
pub open spec fn last_filled(lines: Seq<Seq<char>>, n: int) -> Seq<char>
    decreases n,
{
    if n <= 0 {
        Seq::empty()
    } else if crate::text::trim(lines[n - 1]).len() > 0 {
        crate::text::trim(lines[n - 1])
    } else {
        last_filled(lines, n - 1)
    }
}

/// The meaningful last line of a pull's output.
pub open spec fn verdict_line(stdout: Seq<char>) -> Seq<char> {
    last_filled(crate::text::lines(stdout), crate::text::lines(stdout).len() as int)
}

/// The meaningful last line of a pull's stdout: git prints the verdict
/// (`Fast-forward`, `Already up to date.`) last, after any fetch noise.
pub fn last_line(stdout: &str) -> (r: String)
    ensures
        r@ == verdict_line(stdout@),
{
    let v = to_chars(stdout);
    let ls = split_lines(v.as_slice());
    let ghost all = crate::text::lines(stdout@);
    assert(all.len() == ls@.len());
    let mut n: usize = ls.len();
    while n > 0
        invariant
            n <= ls@.len(),
            all == crate::text::views(ls@),
            all == crate::text::lines(stdout@),
            verdict_line(stdout@) == last_filled(all, n as int),
        decreases n,
    {
        assert(all[n - 1] == ls@[n - 1]@);
        let line = trimmed(ls[n - 1].as_slice());
        if line.len() > 0 {
            return from_chars(line);
        }
        n = n - 1;
    }
    let none = String::new();
    assert(none@ =~= Seq::empty());
    none
}

// ---------------------------------------------------------------------------
// The work
// ---------------------------------------------------------------------------

/// What to do about one repo.
#[derive(Debug)]
pub enum Task {
    Clone(OrgRepo),
    Update(String),
}

/// One unit of work.
#[derive(Debug)]
pub struct WorkItem {
    pub name: String,
    pub task: Task,
}

impl Clone for WorkItem {
    fn clone(&self) -> (r: Self)
        ensures
            r == *self,
    {
        WorkItem {
            name: self.name.clone(),
            task: match &self.task {
                Task::Clone(repo) => Task::Clone(repo.clone()),
                Task::Update(path) => Task::Update(path.clone()),
            },
        }
    }
}

/// One unit of work, by its contents.
pub struct ItemText {
    pub name: Seq<char>,
    pub task: TaskText,
}

pub enum TaskText {
    Clone(OrgRepo),
    Update(Seq<char>),
}

impl View for WorkItem {
    type V = ItemText;

    open spec fn view(&self) -> ItemText {
        ItemText {
            name: self.name@,
            task: match self.task {
                Task::Clone(repo) => TaskText::Clone(repo),
                Task::Update(path) => TaskText::Update(path@),
            },
        }
    }
}

pub open spec fn item_texts(items: Seq<WorkItem>) -> Seq<ItemText> {
    items.map_values(|w: WorkItem| w@)
}

/// The name a checkout goes by.
pub open spec fn checkout_name(path: Seq<char>) -> Seq<char> {
    match crate::pathname::file_name(path) {
        Some(name) => name,
        None => Seq::empty(),
    }
}

pub open spec fn clone_item(repo: OrgRepo) -> ItemText {
    ItemText { name: repo.name@, task: TaskText::Clone(repo) }
}

pub open spec fn update_item(path: Seq<char>) -> ItemText {
    ItemText { name: checkout_name(path), task: TaskText::Update(path) }
}

/// The work of a plan, clones first.
pub open spec fn unsorted_work(plan: &SyncPlan) -> Seq<ItemText> {
    plan.to_clone@.map_values(|r: OrgRepo| clone_item(r)) + crate::text::texts(
        plan.to_update@,
    ).map_values(|p: Seq<char>| update_item(p))
}

pub open spec fn item_keys(items: Seq<ItemText>) -> Seq<Seq<Seq<i64>>> {
    items.map_values(|w: ItemText| seq![crate::order::codes(w.name)])
}

/// The work of a plan, by name.
pub open spec fn work_of(plan: &SyncPlan) -> Seq<ItemText> {
    let items = unsorted_work(plan);
    crate::order::permute(items, crate::order::stable_order(item_keys(items), false))
}

fn list_work(plan: &SyncPlan) -> (r: Vec<WorkItem>)
    ensures
        item_texts(r@) == unsorted_work(plan),
{
    let ghost first = plan.to_clone@.map_values(|r: OrgRepo| clone_item(r));
    let ghost second = crate::text::texts(plan.to_update@).map_values(
        |p: Seq<char>| update_item(p),
    );
    let mut out: Vec<WorkItem> = Vec::new();
    let mut i: usize = 0;
    assert(item_texts(out@) =~= first.take(0));
    while i < plan.to_clone.len()
        invariant
            i <= plan.to_clone@.len(),
            first == plan.to_clone@.map_values(|r: OrgRepo| clone_item(r)),
            item_texts(out@) == first.take(i as int),
        decreases plan.to_clone@.len() - i,
    {
        let repo = &plan.to_clone[i];
        let ghost before = out@;
        out.push(WorkItem { name: repo.name.clone(), task: Task::Clone(repo.clone()) });
        assert(item_texts(out@) =~= item_texts(before).push(first[i as int]));
        i = i + 1;
        assert(item_texts(out@) =~= first.take(i as int));
    }
    assert(first.take(i as int) =~= first);
    let mut j: usize = 0;
    assert(item_texts(out@) =~= first + second.take(0));
    while j < plan.to_update.len()
        invariant
            j <= plan.to_update@.len(),
            second == crate::text::texts(plan.to_update@).map_values(
                |p: Seq<char>| update_item(p),
            ),
            item_texts(out@) == first + second.take(j as int),
        decreases plan.to_update@.len() - j,
    {
        let path = plan.to_update[j].as_str();
        let name = match file_name_of(path) {
            Some(name) => name,
            None => {
                let none = String::new();
                assert(none@ =~= Seq::empty());
                none
            },
        };
        let ghost before = out@;
        out.push(WorkItem { name, task: Task::Update(path.to_owned()) });
        assert(item_texts(out@) =~= item_texts(before).push(second[j as int]));
        j = j + 1;
        assert(item_texts(out@) =~= first + second.take(j as int));
    }
    assert(second.take(j as int) =~= second);
    out
}

/// The work of a plan, sorted by name.
pub fn work_list(plan: &SyncPlan) -> (r: Vec<WorkItem>)
    ensures
        item_texts(r@) == work_of(plan),
        r@.len() == plan.to_clone@.len() + plan.to_update@.len(),
{
    let items = list_work(plan);
    let ghost all = item_texts(items@);
    assert(all.len() == items@.len());
    let mut keys: Vec<Key> = Vec::new();
    let mut i: usize = 0;
    while i < items.len()
        invariant
            i <= items@.len(),
            keys@.len() == i,
            all == item_texts(items@),
            forall|k: int|
                0 <= k < i ==> crate::order::rows(#[trigger] keys@[k]@) == seq![
                    crate::order::codes(all[k].name),
                ],
        decreases items@.len() - i,
    {
        let v = to_chars(items[i].name.as_str());
        let mut key: Key = Vec::new();
        key.push(code_row(v.as_slice()));
        assert(crate::order::rows(key@) =~= seq![crate::order::codes(all[i as int].name)]);
        keys.push(key);
        i = i + 1;
    }
    assert(crate::order::key_rows(keys@) =~= item_keys(all));
    let order = sort_indices(&keys, false);
    let ghost sorted = work_of(plan);
    assert(sorted.len() == order@.len()) by {
        assert(crate::order::indices(order@).len() == order@.len());
    }
    let mut out: Vec<WorkItem> = Vec::new();
    let mut j: usize = 0;
    assert(item_texts(out@) =~= sorted.take(0));
    while j < order.len()
        invariant
            j <= order@.len(),
            out@.len() == j,
            order@.len() == items@.len(),
            all == item_texts(items@),
            sorted == crate::order::permute(all, crate::order::indices(order@)),
            forall|a: int| 0 <= a < order@.len() ==> #[trigger] order@[a] < items@.len(),
            item_texts(out@) == sorted.take(j as int),
        decreases order@.len() - j,
    {
        let at: usize = order[j];
        assert(crate::order::indices(order@)[j as int] == at as int);
        let ghost before = out@;
        out.push(items[at].clone());
        assert(item_texts(out@) =~= item_texts(before).push(sorted[j as int]));
        j = j + 1;
        assert(item_texts(out@) =~= sorted.take(j as int));
    }
    assert(sorted.take(j as int) =~= sorted);
    out
}

/// How one unit of work went: what git printed, or why it failed.
#[derive(Debug)]
pub enum Answer {
    Done(String),
    Failed(String),
}

/// The row of the report for one unit of work.
pub open spec fn outcome_of(org: &OrgConfig, item: ItemText, answer: Answer) -> OutcomeText {
    match (item.task, answer) {
        (TaskText::Clone(repo), Answer::Done(_)) => OutcomeText {
            action: Action::Cloned,
            name: repo.name@,
            detail: "cloned from "@ + url_of(org, repo),
        },
        (TaskText::Clone(repo), Answer::Failed(e)) => OutcomeText {
            action: Action::Error,
            name: repo.name@,
            detail: crate::text::first_line(e@),
        },
        (TaskText::Update(_), Answer::Done(stdout)) => OutcomeText {
            action: if crate::text::contains(verdict_line(stdout@), "Already up to date"@) {
                Action::Current
            } else {
                Action::Updated
            },
            name: item.name,
            detail: verdict_line(stdout@),
        },
        (TaskText::Update(_), Answer::Failed(e)) => OutcomeText {
            action: Action::Skipped,
            name: item.name,
            detail: crate::text::first_line(e@),
        },
    }
}

fn first_line(text: &str) -> (r: String)
    ensures
        r@ == crate::text::first_line(text@),
{
    let v = to_chars(text);
    first_line_of(v.as_slice())
}

/// The row of the report for one unit of work.
pub fn outcome(org: &OrgConfig, item: &WorkItem, answer: &Answer) -> (r: SyncOutcome)
    ensures
        r@ == outcome_of(org, item@, *answer),
{
    match (&item.task, answer) {
        (Task::Clone(repo), Answer::Done(_)) => {
            let mut detail = "cloned from ".to_owned();
            detail.append(clone_url(org, repo));
            SyncOutcome { action: Action::Cloned, name: repo.name.clone(), detail }
        },
        (Task::Clone(repo), Answer::Failed(e)) => SyncOutcome {
            action: Action::Error,
            name: repo.name.clone(),
            detail: first_line(e.as_str()),
        },
        (Task::Update(_), Answer::Done(stdout)) => {
            let detail = last_line(stdout.as_str());
            let v = to_chars(detail.as_str());
            let action = if has(v.as_slice(), "Already up to date") {
                Action::Current
            } else {
                Action::Updated
            };
            SyncOutcome { action, name: item.name.clone(), detail }
        },
        (Task::Update(_), Answer::Failed(e)) => SyncOutcome {
            action: Action::Skipped,
            name: item.name.clone(),
            detail: first_line(e.as_str()),
        },
    }
}

/// The row that says an org has nowhere to go.
pub open spec fn unresolved(org: &OrgConfig, error: Seq<char>) -> OutcomeText {
    OutcomeText {
        action: Action::Error,
        name: org.owner@,
        detail: "org path could not be resolved: "@ + crate::text::first_line(error),
    }
}

pub fn path_outcome(org: &OrgConfig, error: &str) -> (r: SyncOutcome)
    ensures
        r@ == unresolved(org, error@),
{
    let mut detail = "org path could not be resolved: ".to_owned();
    let line = first_line(error);
    detail.append(line.as_str());
    SyncOutcome { action: Action::Error, name: org.owner.clone(), detail }
}

/// What is known to the report of an orphan: it is reported, never touched.
pub open spec fn orphan_row(org: &OrgConfig, path: Seq<char>) -> OutcomeText {
    OutcomeText {
        action: Action::Orphaned,
        name: match crate::pathname::file_name(path) {
            Some(name) => name,
            None => path,
        },
        detail: "on disk, not in "@ + org.owner@ + "'s repo list"@,
    }
}

/// Why the config passed a repo over.
pub open spec fn skip_row(skip: crate::org::SkipText) -> OutcomeText {
    OutcomeText { action: Action::Skipped, name: skip.name, detail: skip.reason }
}

/// The rows that need no work.
pub open spec fn closing_rows(org: &OrgConfig, plan: &SyncPlan) -> Seq<OutcomeText> {
    crate::text::texts(plan.orphans@).map_values(|p: Seq<char>| orphan_row(org, p))
        + crate::org::skip_texts(plan.skipped@).map_values(
        |s: crate::org::SkipText| skip_row(s),
    )
}

fn closing_outcomes(org: &OrgConfig, plan: &SyncPlan) -> (r: Vec<SyncOutcome>)
    ensures
        outcome_texts(r@) == closing_rows(org, plan),
{
    let ghost first = crate::text::texts(plan.orphans@).map_values(
        |p: Seq<char>| orphan_row(org, p),
    );
    let ghost skips = crate::org::skip_texts(plan.skipped@);
    let ghost second = skips.map_values(|s: crate::org::SkipText| skip_row(s));
    let mut out: Vec<SyncOutcome> = Vec::new();
    let mut i: usize = 0;
    assert(outcome_texts(out@) =~= first.take(0));
    // Orphans: reported, never touched.
    while i < plan.orphans.len()
        invariant
            i <= plan.orphans@.len(),
            first == crate::text::texts(plan.orphans@).map_values(
                |p: Seq<char>| orphan_row(org, p),
            ),
            outcome_texts(out@) == first.take(i as int),
        decreases plan.orphans@.len() - i,
    {
        let path = plan.orphans[i].as_str();
        let name = match file_name_of(path) {
            Some(name) => name,
            None => path.to_owned(),
        };
        let mut detail = "on disk, not in ".to_owned();
        detail.append(org.owner.as_str());
        detail.append("'s repo list");
        let ghost before = out@;
        out.push(SyncOutcome { action: Action::Orphaned, name, detail });
        assert(outcome_texts(out@) =~= outcome_texts(before).push(first[i as int]));
        i = i + 1;
        assert(outcome_texts(out@) =~= first.take(i as int));
    }
    assert(first.take(i as int) =~= first);
    // Config-level skips: the report explains why each was passed over.
    let mut j: usize = 0;
    assert(outcome_texts(out@) =~= first + second.take(0));
    while j < plan.skipped.len()
        invariant
            j <= plan.skipped@.len(),
            skips == crate::org::skip_texts(plan.skipped@),
            second == skips.map_values(|s: crate::org::SkipText| skip_row(s)),
            outcome_texts(out@) == first + second.take(j as int),
        decreases plan.skipped@.len() - j,
    {
        let skip = &plan.skipped[j];
        let ghost before = out@;
        out.push(
            SyncOutcome {
                action: Action::Skipped,
                name: skip.name.clone(),
                detail: skip.reason.clone(),
            },
        );
        assert(outcome_texts(out@) =~= outcome_texts(before).push(second[j as int]));
        j = j + 1;
        assert(outcome_texts(out@) =~= first + second.take(j as int));
    }
    assert(second.take(j as int) =~= second);
    out
}

// ---------------------------------------------------------------------------
// The run
// ---------------------------------------------------------------------------

/// A plan being run: what is left to do, and what was reported so far.
#[derive(Debug)]
pub struct SyncRun {
    pub items: Vec<WorkItem>,
    /// How many units are done.
    pub done: usize,
    pub total: usize,
    pub outcomes: Vec<SyncOutcome>,
    pub events: Vec<SyncEvent>,
}

/// A plan being run, by its contents.
pub struct RunText {
    pub items: Seq<ItemText>,
    pub done: int,
    pub total: int,
    pub outcomes: Seq<OutcomeText>,
    pub events: Seq<EventText>,
}

impl View for SyncRun {
    type V = RunText;

    open spec fn view(&self) -> RunText {
        RunText {
            items: item_texts(self.items@),
            done: self.done as int,
            total: self.total as int,
            outcomes: outcome_texts(self.outcomes@),
            events: event_texts(self.events@),
        }
    }
}

/// How many rows the report of a plan comes to, beside a lead.
pub open spec fn total_of(plan: &SyncPlan) -> int {
    crate::number::wrap_size(
        crate::number::wrap_size(
            plan.to_clone@.len() + plan.to_update@.len() + plan.orphans@.len() as int,
        ) + plan.skipped@.len(),
    )
}

/// A run before any work. Where the path could not be resolved there is none: one
/// config-level error, not one per repo — the path resolves the
/// same way for every repo, and stamping the same complaint onto
/// each row helps nobody.
pub open spec fn begun(org: &OrgConfig, plan: &SyncPlan, path_error: Option<Seq<char>>) -> RunText {
    match path_error {
        Some(e) => RunText {
            items: Seq::empty(),
            done: 0,
            total: 0,
            outcomes: seq![unresolved(org, e)],
            events: seq![EventText::Repo(unresolved(org, e))],
        },
        None => RunText {
            items: work_of(plan),
            done: 0,
            total: total_of(plan),
            outcomes: Seq::empty(),
            events: Seq::empty(),
        },
    }
}

/// What the status line says of a unit of work.
pub open spec fn task_label(item: ItemText) -> Seq<char> {
    match item.task {
        TaskText::Clone(_) => "cloning"@ + " "@ + item.name,
        TaskText::Update(_) => "updating"@ + " "@ + item.name,
    }
}

/// A run that announced its next unit.
pub open spec fn ticked(run: RunText) -> RunText {
    RunText {
        events: run.events.push(
            EventText::Progress {
                done: run.done,
                total: run.total,
                label: task_label(run.items[run.done]),
            },
        ),
        ..run
    }
}

/// A run that took in a row.
pub open spec fn reported(run: RunText, row: OutcomeText) -> RunText {
    RunText {
        outcomes: run.outcomes.push(row),
        events: run.events.push(EventText::Repo(row)),
        ..run
    }
}

/// A run whose next unit is done.
pub open spec fn answered(run: RunText, org: &OrgConfig, answer: Answer) -> RunText {
    let next = reported(run, outcome_of(org, run.items[run.done], answer));
    RunText { done: run.done + 1, ..next }
}

/// A run that took in the first `n` of these rows.
pub open spec fn reported_upto(run: RunText, rows: Seq<OutcomeText>, n: int) -> RunText
    decreases n,
{
    if n <= 0 {
        run
    } else {
        reported(reported_upto(run, rows, n - 1), rows[n - 1])
    }
}

/// A run with the rows that need no work.
pub open spec fn closed(run: RunText, org: &OrgConfig, plan: &SyncPlan) -> RunText {
    let rows = closing_rows(org, plan);
    reported_upto(run, rows, rows.len() as int)
}

impl SyncRun {
    fn report(&mut self, row: SyncOutcome)
        ensures
            final(self)@ == reported(old(self)@, row@),
            final(self).items == old(self).items,
            final(self).done == old(self).done,
    {
        let ghost outcomes = self.outcomes@;
        let ghost events = self.events@;
        let ghost text = row@;
        self.events.push(SyncEvent::Repo(row.clone()));
        self.outcomes.push(row);
        assert(outcome_texts(self.outcomes@) =~= outcome_texts(outcomes).push(text));
        assert(event_texts(self.events@) =~= event_texts(events).push(EventText::Repo(text)));
    }

    /// Start on a plan; `path_error` says why the org's path could not be resolved.
    pub fn begin(org: &OrgConfig, plan: &SyncPlan, path_error: Option<&str>) -> (r: Self)
        ensures
            r@ == begun(org, plan, crate::hold::opt_str(path_error)),
    {
        match path_error {
            Some(e) => {
                let mut run = SyncRun {
                    items: Vec::new(),
                    done: 0,
                    total: 0,
                    outcomes: Vec::new(),
                    events: Vec::new(),
                };
                assert(item_texts(run.items@) =~= Seq::empty());
                assert(outcome_texts(run.outcomes@) =~= Seq::empty());
                assert(event_texts(run.events@) =~= Seq::empty());
                run.report(path_outcome(org, e));
                assert(run@.outcomes =~= seq![unresolved(org, e@)]);
                assert(run@.events =~= seq![EventText::Repo(unresolved(org, e@))]);
                run
            },
            None => {
                let items = work_list(plan);
                let total: usize = add_size(
                    add_size(items.len(), plan.orphans.len()),
                    plan.skipped.len(),
                );
                let run = SyncRun {
                    items,
                    done: 0,
                    total,
                    outcomes: Vec::new(),
                    events: Vec::new(),
                };
                assert(outcome_texts(run.outcomes@) =~= Seq::empty());
                assert(event_texts(run.events@) =~= Seq::empty());
                run
            },
        }
    }

    /// The unit of work to do next; none when all of it is done.
    pub fn next(&self) -> (r: Option<&WorkItem>)
        ensures
            (match r {
                Some(item) => self@.done < self@.items.len() && item@ == self@.items[self@.done],
                None => self@.done >= self@.items.len(),
            }),
    {
        if self.done < self.items.len() {
            assert(self@.items[self@.done] == self.items@[self.done as int]@);
            Some(&self.items[self.done])
        } else {
            None
        }
    }

    /// Announce the next unit of work.
    pub fn tick(&mut self)
        requires
            old(self)@.done < old(self)@.items.len(),
        ensures
            final(self)@ == ticked(old(self)@),
    {
        let ghost before = self@;
        let item = &self.items[self.done];
        assert(before.items[before.done] == item@);
        let mut label = match item.task {
            Task::Clone(_) => "cloning".to_owned(),
            Task::Update(_) => "updating".to_owned(),
        };
        label.append(" ");
        label.append(item.name.as_str());
        let ghost events = self.events@;
        let event = SyncEvent::Progress { done: self.done, total: self.total, label };
        let ghost text = event@;
        self.events.push(event);
        assert(event_texts(self.events@) =~= event_texts(events).push(text));
    }

    /// Take in how the next unit of work went.
    pub fn answer(&mut self, org: &OrgConfig, answer: &Answer)
        requires
            old(self)@.done < old(self)@.items.len(),
        ensures
            final(self)@ == answered(old(self)@, org, *answer),
    {
        let ghost before = self@;
        assert(before.items[before.done] == self.items@[self.done as int]@);
        let count: usize = self.items.len();
        assert(self.done < count);
        let row = outcome(org, &self.items[self.done], answer);
        self.report(row);
        self.done = self.done + 1;
    }

    /// Report what needs no work, once the work is done.
    pub fn finish(&mut self, org: &OrgConfig, plan: &SyncPlan)
        ensures
            final(self)@ == closed(old(self)@, org, plan),
    {
        let ghost start = self@;
        let rows = closing_outcomes(org, plan);
        let ghost all = closing_rows(org, plan);
        assert(all.len() == rows@.len());
        let mut i: usize = 0;
        while i < rows.len()
            invariant
                i <= rows@.len(),
                all == outcome_texts(rows@),
                self@ == reported_upto(start, all, i as int),
            decreases rows@.len() - i,
        {
            assert(all[i as int] == rows@[i as int]@);
            self.report(rows[i].clone());
            i = i + 1;
        }
    }
}

/// A run after its first `n` units, each announced and then done.
pub open spec fn worked_upto(
    org: &OrgConfig,
    plan: &SyncPlan,
    path_error: Option<Seq<char>>,
    answers: Seq<Answer>,
    n: int,
) -> RunText
    decreases n,
{
    if n <= 0 {
        begun(org, plan, path_error)
    } else {
        answered(
            ticked(worked_upto(org, plan, path_error, answers, n - 1)),
            org,
            answers[n - 1],
        )
    }
}

/// A whole run: every unit, and then what needs no work.
pub open spec fn executed(
    org: &OrgConfig,
    plan: &SyncPlan,
    path_error: Option<Seq<char>>,
    answers: Seq<Answer>,
) -> RunText {
    let n = if path_error is Some {
        0
    } else {
        work_of(plan).len() as int
    };
    closed(worked_upto(org, plan, path_error, answers, n), org, plan)
}

proof fn lemma_worked(
    org: &OrgConfig,
    plan: &SyncPlan,
    path_error: Option<Seq<char>>,
    answers: Seq<Answer>,
    n: int,
)
    requires
        0 <= n,
    ensures
        ({
            let run = worked_upto(org, plan, path_error, answers, n);
            &&& run.items == begun(org, plan, path_error).items
            &&& run.done == n
            &&& run.total == begun(org, plan, path_error).total
        }),
    decreases n,
{
    if n > 0 {
        lemma_worked(org, plan, path_error, answers, n - 1);
    }
}

/// Run a plan for which git's answers are known, one for each unit of work in the
/// order of [`work_list`].
pub fn execute(
    org: &OrgConfig,
    plan: &SyncPlan,
    path_error: Option<&str>,
    answers: &Vec<Answer>,
) -> (r: SyncRun)
    requires
        path_error is None ==> answers@.len() == plan.to_clone@.len() + plan.to_update@.len(),
    ensures
        r@ == executed(org, plan, crate::hold::opt_str(path_error), answers@),
{
    let ghost error = crate::hold::opt_str(path_error);
    proof {
        lemma_work_len(plan);
    }
    let mut run = SyncRun::begin(org, plan, path_error);
    let total: usize = run.items.len();
    assert(run@.items.len() == run.items@.len());
    let mut i: usize = 0;
    while i < total
        invariant
            i <= total,
            error == crate::hold::opt_str(path_error),
            total == begun(org, plan, error).items.len(),
            total == 0 || total == answers@.len(),
            run@ == worked_upto(org, plan, error, answers@, i as int),
            run@.done == i,
            run@.items.len() == total,
        decreases total - i,
    {
        run.tick();
        run.answer(org, &answers[i]);
        i = i + 1;
        proof {
            lemma_worked(org, plan, error, answers@, i as int);
        }
    }
    run.finish(org, plan);
    run
}

proof fn lemma_work_len(plan: &SyncPlan)
    ensures
        work_of(plan).len() == plan.to_clone@.len() + plan.to_update@.len(),
{
    let items = unsorted_work(plan);
    crate::order::law_stable_order(item_keys(items), false);
}

// ---------------------------------------------------------------------------
// The whole of a sync
// ---------------------------------------------------------------------------

/// The row that says the listing failed.
pub open spec fn listing_row(org: &OrgConfig, error: Seq<char>) -> OutcomeText {
    OutcomeText {
        action: Action::Error,
        name: org.owner@,
        detail: "listing failed: "@ + crate::text::first_line(error),
    }
}

/// What to run for a listing result and what is on disk, and the rows that lead the
/// report.
///
/// The guard rail: a *failed* listing degrades to update-only over whatever
/// is already on disk, with one Error row leading the report. An empty
/// remote must never read as "the whole org is orphans". A listing that
/// succeeds empty is trusted as real — an owner with zero repos is not an
/// error, and the orphans it implies are honest.
pub fn sync_plan(
    org: &OrgConfig,
    remote: &Result<Vec<OrgRepo>, String>,
    disk: &Vec<String>,
) -> (r: (Vec<SyncOutcome>, SyncPlan))
    ensures
        (match remote {
            Ok(list) => r.0@.len() == 0 && crate::org::plan_is(
                &r.1,
                list@,
                crate::text::texts(disk@),
                org,
                crate::org::exclude_verdicts(list@, org),
            ),
            Err(e) => {
                &&& outcome_texts(r.0@) == seq![listing_row(org, e@)]
                &&& r.1.to_update@ == disk@
                &&& r.1.to_clone@.len() == 0
                &&& r.1.orphans@.len() == 0
                &&& r.1.skipped@.len() == 0
            },
        }),
{
    match remote {
        Ok(list) => (Vec::new(), plan(list, disk, org)),
        Err(e) => {
            // Degraded: the remote truth is unknown, so nothing on disk may
            // be accused of being an orphan. Update what is there and lead
            // the report with the failure.
            let mut detail = "listing failed: ".to_owned();
            let line = first_line(e.as_str());
            detail.append(line.as_str());
            let mut lead: Vec<SyncOutcome> = Vec::new();
            lead.push(SyncOutcome { action: Action::Error, name: org.owner.clone(), detail });
            assert(outcome_texts(lead@) =~= seq![listing_row(org, e@)]);
            (
                lead,
                SyncPlan {
                    to_clone: Vec::new(),
                    to_update: crate::config::copy_strings(disk),
                    orphans: Vec::new(),
                    skipped: Vec::new(),
                },
            )
        },
    }
}

/// The report of a sync: the rows that lead it, then those of the run. An org whose
/// path could not be resolved has one row and no work.
pub fn finish_sync(
    org: &OrgConfig,
    path_error: Option<&str>,
    lead: Vec<SyncOutcome>,
    run: SyncRun,
) -> (r: Vec<SyncOutcome>)
    ensures
        outcome_texts(r@) == (match path_error {
            Some(e) => seq![unresolved(org, e@)],
            None => outcome_texts(lead@) + outcome_texts(run.outcomes@),
        }),
{
    match path_error {
        Some(e) => {
            let mut out: Vec<SyncOutcome> = Vec::new();
            out.push(path_outcome(org, e));
            assert(outcome_texts(out@) =~= seq![unresolved(org, e@)]);
            out
        },
        None => {
            let mut out = lead;
            let mut rest = run.outcomes;
            out.append(&mut rest);
            assert(outcome_texts(out@) =~= outcome_texts(lead@) + outcome_texts(run.outcomes@));
            out
        },
    }
}

/// How many of the first `n` rows report this.
pub open spec fn count_of(outcomes: Seq<SyncOutcome>, action: Action, n: int) -> int
    decreases n,
{
    if n <= 0 {
        0
    } else if outcomes[n - 1].action == action {
        count_of(outcomes, action, n - 1) + 1
    } else {
        count_of(outcomes, action, n - 1)
    }
}

/// The detail of the first error, from the `i`th row on.
pub open spec fn first_error(outcomes: Seq<SyncOutcome>, i: int) -> Option<Seq<char>>
    decreases outcomes.len() - i,
{
    if i < 0 || i >= outcomes.len() {
        None
    } else if outcomes[i].action == Action::Error {
        Some(outcomes[i].detail@)
    } else {
        first_error(outcomes, i + 1)
    }
}

fn count(outcomes: &Vec<SyncOutcome>, action: Action) -> (r: usize)
    ensures
        r == count_of(outcomes@, action, outcomes@.len() as int),
{
    let mut n: usize = 0;
    let mut i: usize = 0;
    let total: usize = outcomes.len();
    while i < total
        invariant
            i <= total,
            total == outcomes@.len(),
            n <= i,
            n == count_of(outcomes@, action, i as int),
        decreases total - i,
    {
        if outcomes[i].action == action {
            n = n + 1;
        }
        i = i + 1;
    }
    n
}

fn find_error(outcomes: &Vec<SyncOutcome>) -> (r: Option<String>)
    ensures
        crate::pathname::opt_text(r) == first_error(outcomes@, 0),
{
    let mut i: usize = 0;
    while i < outcomes.len()
        invariant
            i <= outcomes@.len(),
            first_error(outcomes@, 0) == first_error(outcomes@, i as int),
        decreases outcomes@.len() - i,
    {
        if outcomes[i].action == Action::Error {
            return Some(outcomes[i].detail.clone());
        }
        i = i + 1;
    }
    None
}

/// How a sync went, for the dashboard's LAST SYNC column.
pub fn record_state(org: &OrgConfig, outcomes: &Vec<SyncOutcome>, now: i64) -> (r: OrgSyncState)
    ensures
        r.provider@ == org.the_provider().name_text(),
        r.host@ == org.host@,
        r.owner@ == org.owner@,
        r.last_sync_at == now,
        r.cloned == count_of(outcomes@, Action::Cloned, outcomes@.len() as int),
        r.updated == count_of(outcomes@, Action::Updated, outcomes@.len() as int),
        r.current == count_of(outcomes@, Action::Current, outcomes@.len() as int),
        r.skipped == count_of(outcomes@, Action::Skipped, outcomes@.len() as int),
        r.orphans == count_of(outcomes@, Action::Orphaned, outcomes@.len() as int),
        r.errors == count_of(outcomes@, Action::Error, outcomes@.len() as int),
        crate::pathname::opt_text(r.last_error) == first_error(outcomes@, 0),
{
    OrgSyncState {
        provider: org.resolved_provider().as_str().to_owned(),
        host: org.host.clone(),
        owner: org.owner.clone(),
        last_sync_at: now,
        cloned: count(outcomes, Action::Cloned),
        updated: count(outcomes, Action::Updated),
        current: count(outcomes, Action::Current),
        skipped: count(outcomes, Action::Skipped),
        orphans: count(outcomes, Action::Orphaned),
        errors: count(outcomes, Action::Error),
        last_error: find_error(outcomes),
    }
}

// ---------------------------------------------------------------------------
// Laws
// ---------------------------------------------------------------------------

/// Events never interleave: each progress tick is followed at once by the outcome of
/// the repo it announced, and `done` climbs one at a time from nought.
pub proof fn law_events_alternate(
    org: &OrgConfig,
    plan: &SyncPlan,
    answers: Seq<Answer>,
    n: int,
    i: int,
)
    requires
        0 <= i < n <= work_of(plan).len(),
    ensures
        ({
            let run = worked_upto(org, plan, None, answers, n);
            let item = work_of(plan)[i];
            &&& run.events.len() == 2 * n
            &&& run.events[2 * i] == (EventText::Progress {
                done: i,
                total: total_of(plan),
                label: task_label(item),
            })
            &&& run.events[2 * i + 1] == EventText::Repo(outcome_of(org, item, answers[i]))
            &&& run.outcomes.len() == n
            &&& run.outcomes[i] == outcome_of(org, item, answers[i])
        }),
    decreases n,
{
    lemma_event_count(org, plan, answers, n - 1);
    lemma_worked(org, plan, None, answers, n - 1);
    if i < n - 1 {
        law_events_alternate(org, plan, answers, n - 1, i);
    }
}

proof fn lemma_event_count(org: &OrgConfig, plan: &SyncPlan, answers: Seq<Answer>, n: int)
    requires
        0 <= n,
    ensures
        worked_upto(org, plan, None, answers, n).events.len() == 2 * n,
        worked_upto(org, plan, None, answers, n).outcomes.len() == n,
    decreases n,
{
    if n > 0 {
        lemma_event_count(org, plan, answers, n - 1);
    }
}

proof fn lemma_reported_rows(run: RunText, rows: Seq<OutcomeText>, n: int)
    requires
        0 <= n <= rows.len(),
    ensures
        reported_upto(run, rows, n).outcomes == run.outcomes + rows.take(n),
    decreases n,
{
    if n > 0 {
        lemma_reported_rows(run, rows, n - 1);
        assert(run.outcomes + rows.take(n - 1).push(rows[n - 1]) =~= (run.outcomes + rows.take(
            n - 1,
        )).push(rows[n - 1]));
        assert(rows.take(n) =~= rows.take(n - 1).push(rows[n - 1]));
    } else {
        assert(run.outcomes + rows.take(0) =~= run.outcomes);
    }
}

proof fn lemma_reported_events(run: RunText, rows: Seq<OutcomeText>, n: int)
    requires
        0 <= n <= rows.len(),
    ensures
        reported_upto(run, rows, n).events.len() == run.events.len() + n,
        forall|i: int|
            0 <= i < run.events.len() ==> #[trigger] reported_upto(run, rows, n).events[i]
                == run.events[i],
        forall|i: int|
            0 <= i < n ==> #[trigger] reported_upto(run, rows, n).events[run.events.len() + i]
                == EventText::Repo(rows[i]),
    decreases n,
{
    if n > 0 {
        lemma_reported_events(run, rows, n - 1);
        let before = reported_upto(run, rows, n - 1).events;
        let after = reported_upto(run, rows, n).events;
        assert(after =~= before.push(EventText::Repo(rows[n - 1])));
        assert forall|i: int| 0 <= i < n implies #[trigger] after[run.events.len() + i]
            == EventText::Repo(rows[i]) by {
            if i < n - 1 {
                assert(after[run.events.len() + i] == before[run.events.len() + i]);
            }
        }
    }
}

/// What needs no work is sent as a row alone, without a tick: behind the ticks and
/// rows of the work come the orphans and the skips, one row each and nothing else.
pub proof fn law_rows_without_work_come_without_a_tick(
    org: &OrgConfig,
    plan: &SyncPlan,
    answers: Seq<Answer>,
    i: int,
)
    requires
        0 <= i < closing_rows(org, plan).len(),
    ensures
        ({
            let events = executed(org, plan, None, answers).events;
            let n = work_of(plan).len();
            &&& events.len() == 2 * n + closing_rows(org, plan).len()
            &&& events.take(2 * n as int) == worked_upto(org, plan, None, answers, n as int).events
            &&& events[2 * n + i] == EventText::Repo(closing_rows(org, plan)[i])
        }),
{
    let rows = closing_rows(org, plan);
    let n = work_of(plan).len() as int;
    let run = worked_upto(org, plan, None, answers, n);
    lemma_event_count(org, plan, answers, n);
    lemma_reported_events(run, rows, rows.len() as int);
    let events = executed(org, plan, None, answers).events;
    assert(events.take(2 * n) =~= run.events) by {
        assert forall|k: int| 0 <= k < 2 * n implies events[k] == run.events[k] by {
            assert(reported_upto(run, rows, rows.len() as int).events[k] == run.events[k]);
        }
    }
    assert(reported_upto(run, rows, rows.len() as int).events[run.events.len() + i]
        == EventText::Repo(rows[i]));
}

/// The report of a plan has a row for every clone, every update, every orphan and
/// every skip, in that order: the work first, then what needs none.
pub proof fn law_report_covers_the_plan(org: &OrgConfig, plan: &SyncPlan, answers: Seq<Answer>)
    ensures
        executed(org, plan, None, answers).outcomes == worked_upto(
            org,
            plan,
            None,
            answers,
            work_of(plan).len() as int,
        ).outcomes + closing_rows(org, plan),
        executed(org, plan, None, answers).outcomes.len() == plan.to_clone@.len()
            + plan.to_update@.len() + plan.orphans@.len() + plan.skipped@.len(),
{
    let rows = closing_rows(org, plan);
    let n = work_of(plan).len() as int;
    lemma_work_len(plan);
    lemma_event_count(org, plan, answers, n);
    lemma_reported_rows(worked_upto(org, plan, None, answers, n), rows, rows.len() as int);
    assert(rows.take(rows.len() as int) =~= rows);
}

/// The work is the plan's clones and updates, and nothing else: no orphan is touched
/// and nothing that was skipped is.
pub proof fn law_the_work_is_what_was_planned(plan: &SyncPlan, item: ItemText)
    ensures
        work_of(plan).contains(item) <==> ({
            ||| item.task matches TaskText::Clone(r) && plan.to_clone@.contains(r) && item
                == clone_item(r)
            ||| item.task matches TaskText::Update(p) && crate::text::texts(
                plan.to_update@,
            ).contains(p) && item == update_item(p)
        }),
{
    let items = unsorted_work(plan);
    let clones = plan.to_clone@;
    let updates = crate::text::texts(plan.to_update@);
    let keys = item_keys(items);
    let order = crate::order::stable_order(keys, false);
    let work = work_of(plan);
    crate::order::law_stable_order(keys, false);
    assert(items.len() == clones.len() + updates.len());
    if work.contains(item) {
        let i = choose|i: int| 0 <= i < work.len() && work[i] == item;
        let k = order[i];
        assert(work[i] == items[k]);
        if k < clones.len() {
            assert(items[k] == clone_item(clones[k]));
        } else {
            assert(items[k] == update_item(updates[k - clones.len()]));
        }
    }
    let k: int = match item.task {
        TaskText::Clone(r) => if clones.contains(r) && item == clone_item(r) {
            let c = choose|c: int| 0 <= c < clones.len() && clones[c] == r;
            assert(items[c] == clone_item(clones[c]));
            c
        } else {
            -1
        },
        TaskText::Update(p) => if updates.contains(p) && item == update_item(p) {
            let u = choose|u: int| 0 <= u < updates.len() && updates[u] == p;
            assert(items[clones.len() + u] == update_item(updates[u]));
            clones.len() + u
        } else {
            -1
        },
    };
    if k >= 0 {
        assert(items[k] == item);
        assert(order.contains(k));
        let at = choose|at: int| 0 <= at < order.len() && order[at] == k;
        assert(work[at] == item);
    }
}

/// A pull that fails is a skip, never an error: only a failed clone is one.
pub proof fn law_only_a_failed_clone_is_an_error(
    org: &OrgConfig,
    item: ItemText,
    answer: Answer,
)
    ensures
        outcome_of(org, item, answer).action == Action::Error <==> item.task is Clone && answer
            is Failed,
        item.task is Update && answer is Failed ==> outcome_of(org, item, answer).action
            == Action::Skipped,
        outcome_of(org, item, answer).action != Action::Orphaned,
{
}

/// A failed listing never reads as an empty org: nothing of what a degraded plan
/// reports is an orphan.
pub proof fn law_a_failed_listing_orphans_nothing(
    org: &OrgConfig,
    plan: &SyncPlan,
    answers: Seq<Answer>,
    i: int,
)
    requires
        plan.to_clone@.len() == 0,
        plan.orphans@.len() == 0,
        plan.skipped@.len() == 0,
        0 <= i < executed(org, plan, None, answers).outcomes.len(),
    ensures
        executed(org, plan, None, answers).outcomes[i].action != Action::Orphaned,
{
    let n = work_of(plan).len() as int;
    law_report_covers_the_plan(org, plan, answers);
    lemma_work_len(plan);
    assert(closing_rows(org, plan).len() == 0);
    law_events_alternate(org, plan, answers, n, i);
    law_only_a_failed_clone_is_an_error(org, work_of(plan)[i], answers[i]);
}

/// Actions are told apart by their words.
pub proof fn law_actions_are_told_apart(a: Action, b: Action)
    ensures
        a.label_text() == b.label_text() <==> a == b,
        Action::Cloned.label_text() == "cloned"@,
        Action::Updated.label_text() == "updated"@,
        Action::Current.label_text() == "current"@,
        Action::Skipped.label_text() == "skipped"@,
        Action::Orphaned.label_text() == "orphaned"@,
        Action::Error.label_text() == "error"@,
{
    reveal_strlit("cloned");
    reveal_strlit("updated");
    reveal_strlit("current");
    reveal_strlit("skipped");
    reveal_strlit("orphaned");
    reveal_strlit("error");
    let (x, y) = (a.label_text(), b.label_text());
    if a != b {
        assert(x.len() != y.len() || x[0] != y[0] || x[1] != y[1]);
    }
}

/// A repo is cloned from the address of the protocol that is set.
pub proof fn law_a_clone_goes_by_its_protocol(org: &OrgConfig, repo: OrgRepo)
    ensures
        org.protocol is Ssh ==> url_of(org, repo) == repo.ssh_url@,
        org.protocol is Https ==> url_of(org, repo) == repo.https_url@,
{
}

/// What a command comes to is its last line that is not blank.
pub proof fn law_the_last_word_counts(lines: Seq<Seq<char>>, line: Seq<char>)
    ensures
        ({
            let n = lines.len() as int;
            &&& crate::text::trim(line).len() > 0 ==> last_filled(lines.push(line), n + 1)
                == crate::text::trim(line)
            &&& crate::text::trim(line).len() == 0 ==> last_filled(lines.push(line), n + 1)
                == last_filled(lines, n)
            &&& last_filled(Seq::empty(), 0).len() == 0
        }),
{
    lemma_filled_front(lines, line, lines.len() as int);
}

proof fn lemma_filled_front(lines: Seq<Seq<char>>, line: Seq<char>, n: int)
    requires
        0 <= n <= lines.len(),
    ensures
        last_filled(lines.push(line), n) == last_filled(lines, n),
    decreases n,
{
    if n > 0 {
        lemma_filled_front(lines, line, n - 1);
        assert(lines.push(line)[n - 1] == lines[n - 1]);
    }
}

/// What became of a repo: a clone that worked is told with its address, a pull that worked
/// is current where it says so and updated where it does not, and what failed is told with
/// the first line of its complaint.
pub proof fn law_an_outcome_tells_what_happened(org: &OrgConfig, item: ItemText, answer: Answer)
    ensures
        ({
            let o = outcome_of(org, item, answer);
            &&& item.task matches TaskText::Clone(r) ==> o.name == r.name@
            &&& item.task is Update ==> o.name == item.name
            &&& o.action == Action::Cloned <==> item.task is Clone && answer is Done
            &&& o.action == Action::Current <==> item.task is Update && (answer matches Answer::Done(
                s,
            ) && crate::text::contains(verdict_line(s@), "Already up to date"@))
            &&& o.action == Action::Updated <==> item.task is Update && (answer matches Answer::Done(
                s,
            ) && !crate::text::contains(verdict_line(s@), "Already up to date"@))
            &&& answer matches Answer::Failed(e) ==> o.detail == crate::text::first_line(e@)
            &&& item.task matches TaskText::Clone(r) ==> (answer is Done ==> o.detail
                == "cloned from "@ + url_of(org, r))
            &&& item.task is Update ==> (answer matches Answer::Done(s) ==> o.detail
                == verdict_line(s@))
        }),
{
}

/// A checkout goes by its name; a repo to clone goes by its own.
pub proof fn law_work_goes_by_name(repo: OrgRepo, base: Seq<char>, name: Seq<char>)
    requires
        crate::pathname::plain_name(name),
    ensures
        clone_item(repo).name == repo.name@,
        clone_item(repo).task == TaskText::Clone(repo),
        update_item(crate::pathname::joined(base, name)).name == name,
        update_item(crate::pathname::joined(base, name)).task == TaskText::Update(
            crate::pathname::joined(base, name),
        ),
{
    crate::pathname::law_a_joined_name_is_one_component_more(base, name);
}

/// Work is done in the order of its names.
pub proof fn law_work_is_done_in_order(plan: &SyncPlan, i: int, j: int)
    requires
        0 <= i < j < work_of(plan).len(),
    ensures
        !crate::order::row_less(
            crate::order::codes(work_of(plan)[j].name),
            crate::order::codes(work_of(plan)[i].name),
        ),
        work_of(plan).len() == plan.to_clone@.len() + plan.to_update@.len(),
{
    let items = unsorted_work(plan);
    let key = |w: ItemText| seq![crate::order::codes(w.name)];
    assert(item_keys(items) =~= items.map_values(key));
    crate::order::lemma_stably_sorted(items, key, false);
    let out = work_of(plan);
    let (x, y) = (key(out[i]), key(out[j]));
    assert(crate::order::before(x, y, false) || x == y);
    crate::order::lemma_key_total(x, y);
    crate::order::lemma_row_total(x[0], y[0]);
    reveal_with_fuel(crate::order::key_less, 2);
    assert(x[0] == crate::order::codes(out[i].name) && y[0] == crate::order::codes(out[j].name));
    lemma_work_len(plan);
}

/// What there is to report is all that was planned.
pub proof fn law_the_total_is_all_that_was_planned(plan: &SyncPlan)
    requires
        plan.to_clone@.len() + plan.to_update@.len() + plan.orphans@.len() + plan.skipped@.len()
            <= usize::MAX,
    ensures
        total_of(plan) == plan.to_clone@.len() + plan.to_update@.len() + plan.orphans@.len()
            + plan.skipped@.len(),
{
}

/// Rows without work say what they are for: an orphan goes by its name and its owner, and
/// a skipped repo by its name and the reason.
pub proof fn law_rows_say_what_they_are_for(
    org: &OrgConfig,
    base: Seq<char>,
    name: Seq<char>,
    skip: crate::org::SkipText,
    error: Seq<char>,
)
    requires
        crate::pathname::plain_name(name),
    ensures
        ({
            let o = orphan_row(org, crate::pathname::joined(base, name));
            &&& o.action == Action::Orphaned
            &&& o.name == name
            &&& o.detail == "on disk, not in "@ + org.owner@ + "'s repo list"@
        }),
        skip_row(skip).action == Action::Skipped,
        skip_row(skip).name == skip.name,
        skip_row(skip).detail == skip.reason,
        unresolved(org, error).action == Action::Error,
        unresolved(org, error).name == org.owner@,
        unresolved(org, error).detail == "org path could not be resolved: "@
            + crate::text::first_line(error),
        listing_row(org, error).action == Action::Error,
        listing_row(org, error).name == org.owner@,
        listing_row(org, error).detail == "listing failed: "@ + crate::text::first_line(error),
{
    crate::pathname::law_a_joined_name_is_one_component_more(base, name);
}

/// A tick says which item is begun, how many are done and how many there are; an answer
/// reports the item and counts it.
pub proof fn law_a_run_ticks_and_reports(run: RunText, org: &OrgConfig, answer: Answer)
    requires
        0 <= run.done < run.items.len(),
    ensures
        ({
            let item = run.items[run.done];
            let t = ticked(run);
            let a = answered(run, org, answer);
            &&& t.events == run.events.push(
                EventText::Progress {
                    done: run.done,
                    total: run.total,
                    label: (if item.task is Clone {
                        "cloning"@
                    } else {
                        "updating"@
                    }) + " "@ + item.name,
                },
            )
            &&& t.outcomes == run.outcomes
            &&& t.done == run.done
            &&& a.done == run.done + 1
            &&& a.total == run.total
            &&& a.items == run.items
            &&& a.outcomes == run.outcomes.push(outcome_of(org, item, answer))
            &&& a.events == run.events.push(EventText::Repo(outcome_of(org, item, answer)))
        }),
{
}

/// Outcomes are counted by their action, each once.
pub proof fn law_outcomes_add_up(outcomes: Seq<SyncOutcome>, o: SyncOutcome, action: Action)
    ensures
        count_of(outcomes.push(o), action, outcomes.len() as int + 1) == count_of(
            outcomes,
            action,
            outcomes.len() as int,
        ) + (if o.action == action {
            1int
        } else {
            0
        }),
        count_of(Seq::empty(), action, 0) == 0,
{
    lemma_count_front(outcomes, o, action, outcomes.len() as int);
}

proof fn lemma_count_front(outcomes: Seq<SyncOutcome>, o: SyncOutcome, action: Action, n: int)
    requires
        0 <= n <= outcomes.len(),
    ensures
        count_of(outcomes.push(o), action, n) == count_of(outcomes, action, n),
    decreases n,
{
    if n > 0 {
        lemma_count_front(outcomes, o, action, n - 1);
        assert(outcomes.push(o)[n - 1] == outcomes[n - 1]);
    }
}

/// The error that is told is the first one, and there is none where nothing failed.
pub proof fn law_the_first_error_is_told(outcomes: Seq<SyncOutcome>, from: int, i: int)
    requires
        0 <= from <= i,
        forall|k: int|
            from <= k < i && k < outcomes.len() ==> (#[trigger] outcomes[k]).action
                != Action::Error,
    ensures
        i < outcomes.len() && outcomes[i].action == Action::Error ==> first_error(outcomes, from)
            == Some(outcomes[i].detail@),
        i >= outcomes.len() ==> first_error(outcomes, from) is None,
    decreases i - from,
{
    if from < i && from < outcomes.len() {
        assert(outcomes[from].action != Action::Error);
        law_the_first_error_is_told(outcomes, from + 1, i);
    }
}

/// What is read of a run is what it holds, field by field.
pub proof fn law_a_run_text_is_its_value(
    outcomes: Seq<SyncOutcome>,
    events: Seq<SyncEvent>,
    items: Seq<WorkItem>,
    i: int,
)
    ensures
        outcome_texts(outcomes).len() == outcomes.len(),
        event_texts(events).len() == events.len(),
        item_texts(items).len() == items.len(),
        0 <= i < outcomes.len() ==> {
            let (t, o) = (outcome_texts(outcomes)[i], outcomes[i]);
            t.action == o.action && t.name == o.name@ && t.detail == o.detail@
        },
        0 <= i < events.len() ==> {
            &&& events[i] matches SyncEvent::Repo(o) ==> event_texts(events)[i] == EventText::Repo(
                o@,
            )
            &&& events[i] matches SyncEvent::Progress { done, total, label } ==> event_texts(
                events,
            )[i] == (EventText::Progress { done: done as int, total: total as int, label: label@ })
        },
        0 <= i < items.len() ==> {
            &&& item_texts(items)[i].name == items[i].name@
            &&& items[i].task matches Task::Clone(r) ==> item_texts(items)[i].task
                == TaskText::Clone(r)
            &&& items[i].task matches Task::Update(p) ==> item_texts(items)[i].task
                == TaskText::Update(p@)
        },
{
}

/// A run begins with all its work and nothing done, or, where the org lies nowhere, with
/// that alone to report; and it closes by reporting what needs no work, in order.
pub proof fn law_a_run_begins_and_closes(
    run: RunText,
    org: &OrgConfig,
    plan: &SyncPlan,
    error: Seq<char>,
)
    ensures
        ({
            let b = begun(org, plan, None);
            &&& b.items == work_of(plan)
            &&& b.done == 0 && b.total == total_of(plan)
            &&& b.outcomes.len() == 0 && b.events.len() == 0
        }),
        ({
            let b = begun(org, plan, Some(error));
            &&& b.items.len() == 0
            &&& b.outcomes == seq![unresolved(org, error)]
            &&& b.events == seq![EventText::Repo(unresolved(org, error))]
        }),
        closed(run, org, plan).outcomes == run.outcomes + closing_rows(org, plan),
        closed(run, org, plan).done == run.done && closed(run, org, plan).total == run.total,
        closing_rows(org, plan).len() == plan.orphans@.len() + plan.skipped@.len(),
{
    let rows = closing_rows(org, plan);
    lemma_reported(run, rows, rows.len() as int);
    assert(rows.take(rows.len() as int) =~= rows);
}

proof fn lemma_reported(run: RunText, rows: Seq<OutcomeText>, n: int)
    requires
        0 <= n <= rows.len(),
    ensures
        reported_upto(run, rows, n).outcomes == run.outcomes + rows.take(n),
        reported_upto(run, rows, n).done == run.done,
        reported_upto(run, rows, n).total == run.total,
    decreases n,
{
    if n > 0 {
        lemma_reported(run, rows, n - 1);
        assert(run.outcomes + rows.take(n) =~= (run.outcomes + rows.take(n - 1)).push(rows[n - 1]));
    } else {
        assert(run.outcomes + rows.take(0) =~= run.outcomes);
    }
}

} // verus!
