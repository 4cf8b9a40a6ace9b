//! The queue: what the runner will do, in the order in which it will do it.
use vstd::prelude::*;
use crate::ledger;
use crate::ledger::PostRow;
use crate::rank;
use crate::rank::{sort_ranked, Ranked};
use crate::records::{PostHistoryEntry, PostTarget, ScheduledPost, SocialAccount};
use crate::status::{HistoryStatus, PostStatus, TargetStatus};
use crate::text;
use crate::text::text_eq;

verus! {

/// A target that waits, with its post's schedule and when it runs.
#[derive(Debug, PartialEq, Eq)]
pub struct QueueEntry {
    pub target: PostTarget,
    pub scheduled_for: i64,
    pub post_status: PostStatus,
    pub draft_id: Option<String>,
    pub next_attempt_at: i64,
}

/// When a target runs: at its next attempt, or with its post.
pub open spec fn run_time(target: PostTarget, scheduled_for: i64) -> i64 {
    match target.next_attempt_at {
        Some(t) => t,
        None => scheduled_for,
    }
}

/// The entry of a target, where the runner still owes it and its post work.
pub open spec fn entry_of(post: PostRow, target: PostTarget) -> Option<QueueEntry> {
    if post.status.terminal() || target.status.terminal() {
        None
    } else {
        Some(
            QueueEntry {
                target,
                scheduled_for: post.scheduled_for,
                post_status: post.status,
                draft_id: post.draft_id,
                next_attempt_at: run_time(target, post.scheduled_for),
            },
        )
    }
}

pub fn queue_entry(post: &ScheduledPost, target: PostTarget) -> (r: Option<QueueEntry>)
    ensures
        r == entry_of(ledger::row_of(*post), target),
{
    if !post.status.is_active() || target.status.is_terminal() {
        return None;
    }
    let next_attempt_at: i64 = match target.next_attempt_at {
        Some(t) => t,
        None => post.scheduled_for,
    };
    Some(
        QueueEntry {
            target,
            scheduled_for: post.scheduled_for,
            post_status: post.status,
            draft_id: post.draft_id.clone(),
            next_attempt_at,
        },
    )
}

/// Entries come in the order in which they run.
impl Ranked for QueueEntry {
    open spec fn le(self, other: Self) -> bool {
        self.next_attempt_at <= other.next_attempt_at
    }

    proof fn le_total(a: Self, b: Self) {
    }

    proof fn le_transitive(a: Self, b: Self, c: Self) {
    }

    fn is_le(&self, other: &Self) -> (r: bool) {
        self.next_attempt_at <= other.next_attempt_at
    }
}

/// The entries of some targets of a post.
pub open spec fn open_legs(post: PostRow, targets: Seq<PostTarget>) -> Seq<QueueEntry>
    decreases targets.len(),
{
    if targets.len() == 0 {
        Seq::empty()
    } else {
        let init = open_legs(post, targets.drop_last());
        match entry_of(post, targets.last()) {
            Some(e) => init.push(e),
            None => init,
        }
    }
}

/// The entries of a workspace's posts, in the ledger's order.
pub open spec fn waiting(rows: Seq<PostRow>, workspace: Seq<char>) -> Seq<QueueEntry>
    decreases rows.len(),
{
    if rows.len() == 0 {
        Seq::empty()
    } else {
        let init = waiting(rows.drop_last(), workspace);
        if rows.last().workspace_id@ == workspace {
            init + open_legs(rows.last(), rows.last().targets)
        } else {
            init
        }
    }
}

/// What a workspace waits for, in the order in which it runs; at most so many entries.
pub open spec fn queue_of(rows: Seq<PostRow>, workspace: Seq<char>, limit: nat) -> Seq<QueueEntry> {
    let all = rank::ranked(waiting(rows, workspace));
    if limit < all.len() {
        all.take(limit as int)
    } else {
        all
    }
}

/// The entries of one post, behind those there are.
fn add_post(post: ScheduledPost, entries: &mut Vec<QueueEntry>)
    ensures
        final(entries)@ == old(entries)@ + open_legs(
            ledger::row_of(post),
            ledger::row_of(post).targets,
        ),
{
    let ghost row = ledger::row_of(post);
    let ghost had = entries@;
    let mut targets: Vec<PostTarget> = Vec::new();
    let mut post = post;
    std::mem::swap(&mut targets, &mut post.targets);
    let ghost all = row.targets;
    let ghost mut k: int = 0;
    assert(all.take(0) =~= Seq::<PostTarget>::empty());
    assert(all.skip(0) =~= all);
    assert(had + Seq::<QueueEntry>::empty() =~= had);
    while targets.len() > 0
        invariant
            0 <= k <= all.len(),
            targets@ == all.skip(k),
            entries@ == had + open_legs(row, all.take(k)),
            row == (PostRow { targets: all, ..ledger::row_of(post) }),
        decreases targets.len(),
    {
        let target = targets.remove(0);
        proof {
            assert(targets@ =~= all.skip(k + 1));
            assert(target == all[k]);
            assert(all.take(k + 1).drop_last() =~= all.take(k));
            assert(all.take(k + 1).last() == target);
            k = k + 1;
        }
        if let Some(e) = queue_entry(&post, target) {
            entries.push(e);
        }
        assert(entries@ =~= had + open_legs(row, all.take(k)));
    }
    assert(all.take(k) =~= all);
}

/// A workspace's queue, out of the posts of the ledger.
pub fn list_queue(posts: Vec<ScheduledPost>, workspace_id: &str, limit: usize) -> (r: Vec<
    QueueEntry,
>)
    ensures
        r@ == queue_of(ledger::rows_of(posts@), workspace_id@, limit as nat),
{
    let ghost rows = ledger::rows_of(posts@);
    let ghost all = posts@;
    let mut posts = posts;
    let mut entries: Vec<QueueEntry> = Vec::new();
    let ghost mut k: int = 0;
    assert(rows.take(0) =~= Seq::<PostRow>::empty());
    assert(all.skip(0) =~= all);
    while posts.len() > 0
        invariant
            0 <= k <= all.len(),
            rows == ledger::rows_of(all),
            posts@ == all.skip(k),
            entries@ == waiting(rows.take(k), workspace_id@),
        decreases posts.len(),
    {
        let post = posts.remove(0);
        proof {
            assert(posts@ =~= all.skip(k + 1));
            assert(rows.take(k + 1).drop_last() =~= rows.take(k));
            assert(rows.take(k + 1).last() == ledger::row_of(post));
            k = k + 1;
        }
        if text_eq(post.workspace_id.as_str(), workspace_id) {
            add_post(post, &mut entries);
        }
    }
    assert(rows.take(k) =~= rows);
    let mut sorted = sort_ranked(entries);
    if limit < sorted.len() {
        sorted.truncate(limit);
    }
    sorted
}

/// The queue is in the order in which it runs, so what comes first is what runs next,
/// and what the limit leaves out runs no sooner than what is shown.
pub proof fn the_queue_is_in_running_order(
    rows: Seq<PostRow>,
    workspace: Seq<char>,
    limit: nat,
    i: int,
    j: int,
)
    requires
        0 <= i <= j < waiting(rows, workspace).len(),
        i < limit,
    ensures
        ({
            let shown = queue_of(rows, workspace, limit);
            let all = rank::ranked(waiting(rows, workspace));
            &&& all.to_multiset() == waiting(rows, workspace).to_multiset()
            &&& i < shown.len()
            &&& shown[i].next_attempt_at <= all[j].next_attempt_at
            &&& j < limit ==> shown[j] == all[j]
        }),
{
    let all = rank::ranked(waiting(rows, workspace));
    rank::lemma_ranked(waiting(rows, workspace));
    assert(all[i].le(all[j]));
}

proof fn lemma_open_legs(post: PostRow, targets: Seq<PostTarget>, e: QueueEntry)
    requires
        open_legs(post, targets).contains(e),
    ensures
        exists|j: int|
            0 <= j < targets.len() && entry_of(post, #[trigger] targets[j]) == Some(e),
    decreases targets.len(),
{
    let all = open_legs(post, targets);
    let i = choose|i: int| 0 <= i < all.len() && all[i] == e;
    let rest = targets.drop_last();
    let init = open_legs(post, rest);
    if i < init.len() {
        assert(init[i] == e);
        lemma_open_legs(post, rest, e);
        let j = choose|j: int| 0 <= j < rest.len() && entry_of(post, #[trigger] rest[j]) == Some(e);
        assert(targets[j] == rest[j]);
    } else {
        assert(targets[targets.len() - 1] == targets.last());
    }
}

/// Nothing that is over waits in the queue: every entry is a leg of one of the
/// workspace's posts, and neither the post nor the leg is settled.
pub proof fn what_is_over_is_not_queued(rows: Seq<PostRow>, workspace: Seq<char>, e: QueueEntry)
    requires
        waiting(rows, workspace).contains(e),
    ensures
        !e.post_status.terminal(),
        !e.target.status.terminal(),
        exists|k: int, j: int|
            0 <= k < rows.len() && 0 <= j < rows[k].targets.len() && rows[k].workspace_id@
                == workspace && entry_of(rows[k], #[trigger] rows[k].targets[j]) == Some(e),
    decreases rows.len(),
{
    let all = waiting(rows, workspace);
    let i = choose|i: int| 0 <= i < all.len() && all[i] == e;
    let rest = rows.drop_last();
    let init = waiting(rest, workspace);
    if i < init.len() {
        assert(init[i] == e);
        what_is_over_is_not_queued(rest, workspace, e);
        let (k, j) = choose|k: int, j: int|
            0 <= k < rest.len() && 0 <= j < rest[k].targets.len() && rest[k].workspace_id@
                == workspace && entry_of(rest[k], #[trigger] rest[k].targets[j]) == Some(e);
        assert(rows[k] == rest[k]);
        assert(entry_of(rows[k], rows[k].targets[j]) == Some(e));
    } else {
        let last = rows[rows.len() - 1];
        let legs = open_legs(last, last.targets);
        assert(legs[i - init.len()] == e);
        lemma_open_legs(last, last.targets, e);
        let j = choose|j: int|
            0 <= j < last.targets.len() && entry_of(last, #[trigger] last.targets[j]) == Some(e);
        assert(entry_of(rows[rows.len() - 1], rows[rows.len() - 1].targets[j]) == Some(e));
    }
}

/// One row of the queue.
#[derive(Debug, PartialEq, Eq)]
pub struct QueueItem {
    pub entry: QueueEntry,
    /// The account's handle; none when the account is gone.
    pub account_label: Option<String>,
    pub platform_label: String,
    /// Why the last run failed, if it did.
    pub last_error: Option<String>,
    /// When the last run was recorded.
    pub last_attempt_at: Option<i64>,
    /// Provider calls left before the target is failed for good.
    pub attempts_remaining: u32,
    /// Milliseconds until the target runs; negative when it is overdue.
    pub runs_in_ms: i64,
    /// Whether a runner holds the target.
    pub in_flight: bool,
}

/// The whole queue.
#[derive(Debug, PartialEq, Eq)]
pub struct QueueView {
    pub items: Vec<QueueItem>,
    /// When the runner next acts.
    pub next_run_at: Option<i64>,
    /// How many targets a runner holds.
    pub in_flight: usize,
    /// The reading of the clock that the rows are relative to.
    pub generated_at: i64,
}

/// The last recorded run of a target: why it failed, if it did, and when it was.
#[derive(Debug, PartialEq, Eq)]
pub struct LastRun {
    pub error: Option<String>,
    pub at: Option<i64>,
}

/// What the newest history row says; a failure before a success is no current problem.
pub open spec fn last_error_of(history: Seq<PostHistoryEntry>) -> Option<Seq<char>> {
    if history.len() > 0 && history[0].status == HistoryStatus::Failed {
        text::opt_text(history[0].error)
    } else {
        None
    }
}

pub open spec fn last_at_of(history: Seq<PostHistoryEntry>) -> Option<i64> {
    if history.len() > 0 {
        history[0].published_at
    } else {
        None
    }
}

/// The last run, from a target's history with the newest row first.
pub fn last_failure(history: &[PostHistoryEntry]) -> (r: Option<LastRun>)
    ensures
        r is Some <==> history@.len() > 0,
        r is Some ==> text::opt_text(r->0.error) == last_error_of(history@) && r->0.at
            == last_at_of(history@),
{
    if history.len() == 0 {
        return None;
    }
    let entry = &history[0];
    let error = if entry.status == HistoryStatus::Failed {
        entry.error.clone()
    } else {
        None
    };
    Some(LastRun { error, at: entry.published_at })
}

/// Whether a target's history is worth reading: only one that has run has any.
pub fn has_run(entry: &QueueEntry) -> (r: bool)
    ensures
        r == (entry.target.attempts > 0),
{
    entry.target.attempts > 0
}

/// The label of the account with an id; of several, the last.
pub open spec fn label_of(accounts: Seq<SocialAccount>, id: Seq<char>) -> Option<Seq<char>>
    decreases accounts.len(),
{
    if accounts.len() == 0 {
        None
    } else if accounts.last().id@ == id {
        Some(accounts.last().account_label@)
    } else {
        label_of(accounts.drop_last(), id)
    }
}

fn find_label(accounts: &Vec<SocialAccount>, id: &str) -> (r: Option<String>)
    ensures
        text::opt_text(r) == label_of(accounts@, id@),
{
    let mut n: usize = accounts.len();
    assert(accounts@.take(n as int) =~= accounts@);
    while n > 0
        invariant
            n <= accounts.len(),
            label_of(accounts@, id@) == label_of(accounts@.take(n as int), id@),
        decreases n,
    {
        let account = &accounts[n - 1];
        assert(accounts@.take(n as int).drop_last() =~= accounts@.take(n as int - 1));
        if text_eq(account.id.as_str(), id) {
            return Some(account.account_label.clone());
        }
        n = n - 1;
    }
    None
}

/// A difference of times, within 64 bits.
pub open spec fn until(at: i64, now: i64) -> int {
    if at - now > i64::MAX {
        i64::MAX as int
    } else if at - now < i64::MIN {
        i64::MIN as int
    } else {
        at - now
    }
}

fn time_until(at: i64, now: i64) -> (r: i64)
    ensures
        r == until(at, now),
{
    let d: i128 = at as i128 - now as i128;
    if d > i64::MAX as i128 {
        i64::MAX
    } else if d < i64::MIN as i128 {
        i64::MIN
    } else {
        d as i64
    }
}

pub open spec fn remaining(max_attempts: u32, attempts: u32) -> int {
    if max_attempts >= attempts {
        max_attempts - attempts
    } else {
        0
    }
}

/// What a row shows.
pub open spec fn row_shows(
    item: QueueItem,
    entry: QueueEntry,
    accounts: Seq<SocialAccount>,
    history: Seq<PostHistoryEntry>,
    max_attempts: u32,
    now: i64,
) -> bool {
    let ran = entry.target.attempts > 0;
    &&& item.entry == entry
    &&& text::opt_text(item.account_label) == label_of(accounts, entry.target.social_account_id@)
    &&& item.platform_label@ == entry.target.platform.label_text()
    &&& text::opt_text(item.last_error) == if ran {
        last_error_of(history)
    } else {
        None
    }
    &&& item.last_attempt_at == if ran {
        last_at_of(history)
    } else {
        None
    }
    &&& item.attempts_remaining == remaining(max_attempts, entry.target.attempts)
    &&& item.runs_in_ms == until(entry.next_attempt_at, now)
    &&& item.in_flight == (entry.target.status == TargetStatus::Publishing)
}

/// How many targets a runner holds.
pub open spec fn held(entries: Seq<QueueEntry>) -> nat
    decreases entries.len(),
{
    if entries.len() == 0 {
        0
    } else if entries.last().target.status == TargetStatus::Publishing {
        held(entries.drop_last()) + 1
    } else {
        held(entries.drop_last())
    }
}

fn queue_item(
    entry: QueueEntry,
    accounts: &Vec<SocialAccount>,
    history: &Vec<PostHistoryEntry>,
    max_attempts: u32,
    now: i64,
) -> (r: QueueItem)
    ensures
        row_shows(r, entry, accounts@, history@, max_attempts, now),
{
    let last = if has_run(&entry) {
        last_failure(history.as_slice())
    } else {
        None
    };
    let (last_error, last_attempt_at) = match last {
        Some(run) => (run.error, run.at),
        None => (None, None),
    };
    QueueItem {
        account_label: find_label(accounts, entry.target.social_account_id.as_str()),
        platform_label: entry.target.platform.label().to_owned(),
        last_error,
        last_attempt_at,
        attempts_remaining: if max_attempts >= entry.target.attempts {
            max_attempts - entry.target.attempts
        } else {
            0
        },
        runs_in_ms: time_until(entry.next_attempt_at, now),
        in_flight: entry.target.status == TargetStatus::Publishing,
        entry,
    }
}

/// The queue of some waiting targets, in the order in which they come. Each target's
/// history stands at its place among the histories, the newest row first.
pub fn build(
    entries: Vec<QueueEntry>,
    accounts: &Vec<SocialAccount>,
    histories: &Vec<Vec<PostHistoryEntry>>,
    max_attempts: u32,
    now: i64,
) -> (r: QueueView)
    requires
        histories@.len() == entries@.len(),
    ensures
        r.items@.len() == entries@.len(),
        forall|i: int|
            0 <= i < entries@.len() ==> row_shows(
                #[trigger] r.items@[i],
                entries@[i],
                accounts@,
                histories@[i]@,
                max_attempts,
                now,
            ),
        r.next_run_at == (if entries@.len() > 0 {
            Some(entries@[0].next_attempt_at)
        } else {
            None
        }),
        r.in_flight == held(entries@),
        r.generated_at == now,
{
    let ghost all = entries@;
    let next_run_at = if entries.len() > 0 {
        Some(entries[0].next_attempt_at)
    } else {
        None
    };
    let mut rest = entries;
    let mut items: Vec<QueueItem> = Vec::new();
    let mut in_flight: usize = 0;
    let mut n: usize = 0;
    assert(all.take(0) =~= Seq::<QueueEntry>::empty());
    assert(all.skip(0) =~= all);
    while rest.len() > 0
        invariant
            n <= all.len(),
            histories.len() == all.len(),
            rest@ == all.skip(n as int),
            items@.len() == n,
            forall|i: int|
                0 <= i < n ==> row_shows(
                    #[trigger] items@[i],
                    all[i],
                    accounts@,
                    histories@[i]@,
                    max_attempts,
                    now,
                ),
            in_flight == held(all.take(n as int)),
            in_flight <= n,
        decreases rest.len(),
    {
        let entry = rest.remove(0);
        proof {
            assert(rest@ =~= all.skip(n as int + 1));
            assert(entry == all[n as int]);
            assert(all.take(n as int + 1).drop_last() =~= all.take(n as int));
            assert(all.take(n as int + 1).last() == entry);
        }
        if entry.target.status == TargetStatus::Publishing {
            in_flight = in_flight + 1;
        }
        items.push(queue_item(entry, accounts, &histories[n], max_attempts, now));
        n = n + 1;
    }
    assert(all.take(n as int) =~= all);
    QueueView { items, next_run_at, in_flight, generated_at: now }
}

// ── The queue in plain terms ───────────────────────────────────────────────────

/// A target waits exactly while neither it nor its post is over. Its entry tells its
/// post's schedule, status and draft; it runs at its next attempt where one is planned,
/// else with its post.
pub proof fn an_open_target_waits(post: PostRow, target: PostTarget)
    ensures
        entry_of(post, target) is Some <==> (post.status == PostStatus::Scheduled || post.status
            == PostStatus::Due || post.status == PostStatus::Publishing) && (target.status
            == TargetStatus::Pending || target.status == TargetStatus::Publishing),
        entry_of(post, target) matches Some(e) ==> {
            &&& e.target == target
            &&& e.scheduled_for == post.scheduled_for
            &&& e.post_status == post.status
            &&& e.draft_id == post.draft_id
            &&& target.next_attempt_at is Some ==> Some(e.next_attempt_at) == target.next_attempt_at
            &&& target.next_attempt_at is None ==> e.next_attempt_at == post.scheduled_for
        },
{
}

/// Every open target of a workspace's posts waits in its queue.
pub proof fn every_open_target_is_queued(
    rows: Seq<PostRow>,
    workspace: Seq<char>,
    k: int,
    j: int,
)
    requires
        0 <= k < rows.len(),
        0 <= j < rows[k].targets.len(),
        rows[k].workspace_id@ == workspace,
        entry_of(rows[k], rows[k].targets[j]) is Some,
    ensures
        waiting(rows, workspace).contains(entry_of(rows[k], rows[k].targets[j])->0),
    decreases rows.len(),
{
    let e = entry_of(rows[k], rows[k].targets[j])->0;
    let rest = rows.drop_last();
    let init = waiting(rest, workspace);
    let all = waiting(rows, workspace);
    if k < rest.len() {
        assert(rest[k] == rows[k]);
        every_open_target_is_queued(rest, workspace, k, j);
        let i = choose|i: int| 0 <= i < init.len() && init[i] == e;
        assert(all[i] == e);
    } else {
        let legs = open_legs(rows[k], rows[k].targets);
        lemma_leg_listed(rows[k], rows[k].targets, j);
        let i = choose|i: int| 0 <= i < legs.len() && legs[i] == e;
        assert(all[init.len() + i] == e);
    }
}

proof fn lemma_leg_listed(post: PostRow, targets: Seq<PostTarget>, j: int)
    requires
        0 <= j < targets.len(),
        entry_of(post, targets[j]) is Some,
    ensures
        open_legs(post, targets).contains(entry_of(post, targets[j])->0),
    decreases targets.len(),
{
    let rest = targets.drop_last();
    let init = open_legs(post, rest);
    let all = open_legs(post, targets);
    if j < rest.len() {
        assert(rest[j] == targets[j]);
        lemma_leg_listed(post, rest, j);
        let i = choose|i: int| 0 <= i < init.len() && init[i] == entry_of(post, targets[j])->0;
        assert(all[i] == init[i]);
    } else {
        assert(all[init.len() as int] == entry_of(post, targets[j])->0);
    }
}

/// A queue shows what waits, what runs first first, up to its limit; with room for all,
/// all of it.
pub proof fn a_queue_shows_what_runs_first(
    rows: Seq<PostRow>,
    workspace: Seq<char>,
    limit: nat,
    e: QueueEntry,
)
    ensures
        ({
            let shown = queue_of(rows, workspace, limit);
            let all = waiting(rows, workspace);
            &&& shown.len() == (if limit < all.len() {
                limit
            } else {
                all.len()
            })
            &&& shown.contains(e) ==> all.contains(e)
            &&& all.contains(e) ==> shown.contains(e) || (shown.len() == limit && forall|i: int|
                0 <= i < shown.len() ==> (#[trigger] shown[i]).next_attempt_at <= e.next_attempt_at)
            &&& forall|i: int, j: int|
                0 <= i < j < shown.len() ==> (#[trigger] shown[i]).next_attempt_at <= (
                #[trigger] shown[j]).next_attempt_at
        }),
{
    broadcast use vstd::seq_lib::group_to_multiset_ensures;

    let all = waiting(rows, workspace);
    let sorted = rank::ranked(all);
    let shown = queue_of(rows, workspace, limit);
    rank::lemma_ranked(all);
    assert forall|i: int| 0 <= i < shown.len() implies #[trigger] shown[i] == sorted[i] by {}
    assert forall|i: int, j: int| 0 <= i < j < shown.len() implies (
    #[trigger] shown[i]).next_attempt_at <= (#[trigger] shown[j]).next_attempt_at by {
        assert(sorted[i].le(sorted[j]));
    }
    if shown.contains(e) {
        let i = choose|i: int| 0 <= i < shown.len() && shown[i] == e;
        assert(sorted[i] == e);
        assert(sorted.contains(e));
        assert(sorted.to_multiset().contains(e));
    }
    if all.contains(e) {
        assert(all.to_multiset().contains(e));
        assert(sorted.contains(e));
        let k = choose|k: int| 0 <= k < sorted.len() && sorted[k] == e;
        if k < shown.len() {
            assert(shown[k] == e);
        } else {
            assert forall|i: int| 0 <= i < shown.len() implies (
            #[trigger] shown[i]).next_attempt_at <= e.next_attempt_at by {
                assert(sorted[i].le(sorted[k]));
            }
        }
    }
}

/// A row tells the handle of its account, why and when the target last failed where it
/// has run (the newest record alone decides: a success since then is no failure), how
/// many attempts are left of the budget, and how long until it runs.
pub proof fn a_row_tells_how_its_target_stands(
    item: QueueItem,
    entry: QueueEntry,
    accounts: Seq<SocialAccount>,
    history: Seq<PostHistoryEntry>,
    max_attempts: u32,
    now: i64,
    k: int,
)
    requires
        row_shows(item, entry, accounts, history, max_attempts, now),
    ensures
        item.entry == entry,
        0 <= k < accounts.len() && accounts[k].id@ == entry.target.social_account_id@ && (
        forall|j: int|
            k < j < accounts.len() ==> (#[trigger] accounts[j]).id@
                != entry.target.social_account_id@) ==> item.account_label is Some
            && item.account_label->0@ == accounts[k].account_label@,
        (forall|j: int|
            0 <= j < accounts.len() ==> (#[trigger] accounts[j]).id@
                != entry.target.social_account_id@) ==> item.account_label is None,
        entry.target.attempts == 0 || history.len() == 0 ==> item.last_error is None
            && item.last_attempt_at is None,
        entry.target.attempts > 0 && history.len() > 0 ==> {
            &&& item.last_attempt_at == history[0].published_at
            &&& history[0].status == HistoryStatus::Failed ==> text::opt_text(item.last_error)
                == text::opt_text(history[0].error)
            &&& history[0].status == HistoryStatus::Published ==> item.last_error is None
        },
        entry.target.attempts <= max_attempts ==> item.attempts_remaining + entry.target.attempts
            == max_attempts,
        entry.target.attempts > max_attempts ==> item.attempts_remaining == 0,
        i64::MIN <= entry.next_attempt_at - now <= i64::MAX ==> now + item.runs_in_ms
            == entry.next_attempt_at,
        item.in_flight <==> entry.target.status == TargetStatus::Publishing,
        item.platform_label@ == entry.target.platform.label_text(),
{
    lemma_label(accounts, entry.target.social_account_id@, k);
}

proof fn lemma_label(accounts: Seq<SocialAccount>, id: Seq<char>, k: int)
    ensures
        0 <= k < accounts.len() && accounts[k].id@ == id && (forall|j: int|
            k < j < accounts.len() ==> (#[trigger] accounts[j]).id@ != id) ==> label_of(
            accounts,
            id,
        ) == Some(accounts[k].account_label@),
        (forall|j: int| 0 <= j < accounts.len() ==> (#[trigger] accounts[j]).id@ != id)
            ==> label_of(accounts, id) is None,
    decreases accounts.len(),
{
    if accounts.len() > 0 {
        let init = accounts.drop_last();
        assert forall|j: int| 0 <= j < init.len() implies #[trigger] init[j] == accounts[j] by {}
        assert(accounts[accounts.len() - 1] == accounts.last());
        lemma_label(init, id, k);
    }
}

/// The targets that a runner holds are those being published.
pub proof fn what_is_being_published_is_in_flight(entries: Seq<QueueEntry>)
    ensures
        held(entries) == entries.filter(
            |e: QueueEntry| e.target.status == TargetStatus::Publishing,
        ).len(),
    decreases entries.len(),
{
    reveal(Seq::filter);
    if entries.len() > 0 {
        what_is_being_published_is_in_flight(entries.drop_last());
    }
}

} // verus!
