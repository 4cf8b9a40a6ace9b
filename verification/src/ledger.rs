//! The ledger of scheduled posts: which rows a sweep, a runner, the reaper and a retry
//! may take, and what each of them leaves behind. Every guard is on the row itself, so
//! whoever comes second finds nothing to take.
use vstd::prelude::*;
use crate::publish;
use crate::publish::{Settlement, SettlementView};
use crate::rank;
use crate::rank::{sort_ranked, Ranked};
use crate::records::{PostTarget, ScheduledPost};
use crate::scheduler;
use crate::scheduler::{
    plan_tick, recover_post, recovery_cutoff, split_due, DuePost, PolicyView, Recovery,
    RecoveryReport, TickPolicy,
};
use crate::status::{PostStatus, TargetStatus};
use crate::text::text_eq;

verus! {

/// A post as the ledger holds it.
#[verifier::ext_equal]
pub struct PostRow {
    pub id: String,
    pub workspace_id: String,
    pub draft_id: Option<String>,
    pub scheduled_for: i64,
    pub status: PostStatus,
    pub created_at: i64,
    pub targets: Seq<PostTarget>,
}

impl PostRow {
    pub open spec fn with_status(self, status: PostStatus) -> PostRow {
        PostRow { status, ..self }
    }
}

pub open spec fn row_of(p: ScheduledPost) -> PostRow {
    PostRow {
        id: p.id,
        workspace_id: p.workspace_id,
        draft_id: p.draft_id,
        scheduled_for: p.scheduled_for,
        status: p.status,
        created_at: p.created_at,
        targets: p.targets@,
    }
}

pub open spec fn rows_of(s: Seq<ScheduledPost>) -> Seq<PostRow> {
    s.map_values(|p: ScheduledPost| row_of(p))
}

/// The posts, in the order in which they were made.
#[derive(Debug, PartialEq, Eq)]
pub struct Ledger {
    pub posts: Vec<ScheduledPost>,
}

impl View for Ledger {
    type V = Seq<PostRow>;

    open spec fn view(&self) -> Seq<PostRow> {
        rows_of(self.posts@)
    }
}

// ── Finding a row ──────────────────────────────────────────────────────────────

/// The first post with an id.
pub open spec fn post_at(rows: Seq<PostRow>, id: Seq<char>) -> Option<int>
    decreases rows.len(),
{
    if rows.len() == 0 {
        None
    } else {
        match post_at(rows.drop_last(), id) {
            Some(k) => Some(k),
            None => if rows.last().id@ == id {
                Some(rows.len() - 1)
            } else {
                None
            },
        }
    }
}

proof fn lemma_post_at(rows: Seq<PostRow>, id: Seq<char>)
    ensures
        post_at(rows, id) matches Some(k) ==> {
            &&& 0 <= k < rows.len()
            &&& rows[k].id@ == id
            &&& forall|j: int| 0 <= j < k ==> (#[trigger] rows[j]).id@ != id
        },
        post_at(rows, id) is None ==> forall|j: int|
            0 <= j < rows.len() ==> (#[trigger] rows[j]).id@ != id,
    decreases rows.len(),
{
    if rows.len() > 0 {
        let rest = rows.drop_last();
        lemma_post_at(rest, id);
        assert forall|j: int| 0 <= j < rest.len() implies #[trigger] rows[j] == rest[j] by {}
    }
}

proof fn lemma_found(rows: Seq<PostRow>, id: Seq<char>, k: int)
    requires
        0 <= k < rows.len(),
        rows[k].id@ == id,
        forall|j: int| 0 <= j < k ==> (#[trigger] rows[j]).id@ != id,
    ensures
        post_at(rows, id) == Some(k),
{
    lemma_post_at(rows, id);
}

impl Ledger {
    fn find(&self, id: &str) -> (r: Option<usize>)
        ensures
            match r {
                Some(k) => post_at(self@, id@) == Some(k as int) && k < self.posts@.len(),
                None => post_at(self@, id@) is None,
            },
    {
        let mut i: usize = 0;
        while i < self.posts.len()
            invariant
                i <= self.posts.len(),
                forall|j: int| 0 <= j < i ==> (#[trigger] self@[j]).id@ != id@,
            decreases self.posts.len() - i,
        {
            assert(self@[i as int].id == self.posts@[i as int].id);
            if text_eq(self.posts[i].id.as_str(), id) {
                proof {
                    lemma_found(self@, id@, i as int);
                }
                return Some(i);
            }
            i = i + 1;
        }
        proof {
            lemma_post_at(self@, id@);
        }
        None
    }

    fn set_status(&mut self, k: usize, status: PostStatus)
        requires
            k < old(self).posts@.len(),
        ensures
            final(self)@ == old(self)@.update(k as int, old(self)@[k as int].with_status(status)),
    {
        self.posts[k].status = status;
        assert(self@ =~= old(self)@.update(k as int, old(self)@[k as int].with_status(status)));
    }
}

// ── Moving one post ────────────────────────────────────────────────────────────

/// A move of one post.
#[derive(Debug, Clone, Copy, PartialEq, Eq, Structural)]
pub enum Move {
    /// A runner takes a due post.
    Take,
    /// A runner gives its verdict.
    Settle(PostStatus),
    /// A post without a runner goes back to the queue, at this time.
    Requeue(i64),
    /// A user asks for the failed legs again, at this time.
    Retry(i64),
    /// A user asks for a scheduled post now.
    DueNow(i64),
    /// A user puts a scheduled post at another time.
    Reschedule(i64),
    /// A user calls a post off.
    Cancel,
}

/// Whether a runner holds one of the targets.
pub open spec fn held(targets: Seq<PostTarget>) -> bool {
    exists|i: int|
        0 <= i < targets.len() && (#[trigger] targets[i]).status == TargetStatus::Publishing
}

impl Move {
    /// The guard: which posts the move may take.
    pub open spec fn admits(self, r: PostRow) -> bool {
        match self {
            Move::Take => r.status == PostStatus::Due,
            Move::Settle(_) => r.status == PostStatus::Publishing,
            Move::Requeue(_) => r.status == PostStatus::Publishing && !held(r.targets),
            Move::Retry(_) => r.status == PostStatus::Partial || r.status == PostStatus::Failed,
            Move::DueNow(_) => r.status == PostStatus::Scheduled,
            Move::Reschedule(_) => r.status == PostStatus::Scheduled,
            Move::Cancel => r.status == PostStatus::Scheduled || r.status == PostStatus::Due,
        }
    }

    pub open spec fn status_after(self) -> PostStatus {
        match self {
            Move::Take => PostStatus::Publishing,
            Move::Settle(s) => s,
            Move::Requeue(_) => PostStatus::Due,
            Move::Retry(_) => PostStatus::Due,
            Move::DueNow(_) => PostStatus::Due,
            Move::Reschedule(_) => PostStatus::Scheduled,
            Move::Cancel => PostStatus::Cancelled,
        }
    }

    pub open spec fn time_after(self, r: PostRow) -> i64 {
        match self {
            Move::DueNow(now) => now,
            Move::Reschedule(at) => at,
            _ => r.scheduled_for,
        }
    }

    /// What the move makes of a leg. A retry takes the failed ones and forgets their
    /// attempts; nothing touches one that was published.
    pub open spec fn target_after(self, t: PostTarget) -> PostTarget {
        match self {
            Move::Requeue(now) => if t.status == TargetStatus::Pending {
                PostTarget { next_attempt_at: Some(now), ..t }
            } else {
                t
            },
            Move::Retry(now) => if t.status == TargetStatus::Failed {
                PostTarget {
                    status: TargetStatus::Pending,
                    attempts: 0,
                    next_attempt_at: Some(now),
                    claimed_at: None,
                    ..t
                }
            } else {
                t
            },
            Move::Cancel => if t.status == TargetStatus::Pending {
                PostTarget { status: TargetStatus::Cancelled, ..t }
            } else {
                t
            },
            _ => t,
        }
    }

    pub open spec fn targets_after(self, targets: Seq<PostTarget>) -> Seq<PostTarget> {
        targets.map_values(|t: PostTarget| self.target_after(t))
    }

    pub open spec fn row_after(self, r: PostRow) -> PostRow {
        PostRow {
            status: self.status_after(),
            scheduled_for: self.time_after(r),
            targets: self.targets_after(r.targets),
            ..r
        }
    }

    /// The ledger after the move of the post with an id, if its guard admits it.
    pub open spec fn after(self, rows: Seq<PostRow>, id: Seq<char>) -> Seq<PostRow> {
        match post_at(rows, id) {
            Some(k) => if self.admits(rows[k]) {
                rows.update(k, self.row_after(rows[k]))
            } else {
                rows
            },
            None => rows,
        }
    }

    pub open spec fn happens(self, rows: Seq<PostRow>, id: Seq<char>) -> bool {
        post_at(rows, id) matches Some(k) && self.admits(rows[k])
    }

    fn may_take(self, post: &ScheduledPost) -> (r: bool)
        ensures
            r == self.admits(row_of(*post)),
    {
        match self {
            Move::Take => post.status == PostStatus::Due,
            Move::Settle(_) => post.status == PostStatus::Publishing,
            Move::Requeue(_) => post.status == PostStatus::Publishing && !any_held(&post.targets),
            Move::Retry(_) => post.status == PostStatus::Partial || post.status
                == PostStatus::Failed,
            Move::DueNow(_) => post.status == PostStatus::Scheduled,
            Move::Reschedule(_) => post.status == PostStatus::Scheduled,
            Move::Cancel => post.status == PostStatus::Scheduled || post.status == PostStatus::Due,
        }
    }

    fn change_target(self, t: &mut PostTarget)
        ensures
            *final(t) == self.target_after(*old(t)),
    {
        match self {
            Move::Requeue(now) => {
                if t.status == TargetStatus::Pending {
                    t.next_attempt_at = Some(now);
                }
            },
            Move::Retry(now) => {
                if t.status == TargetStatus::Failed {
                    t.status = TargetStatus::Pending;
                    t.attempts = 0;
                    t.next_attempt_at = Some(now);
                    t.claimed_at = None;
                }
            },
            Move::Cancel => {
                if t.status == TargetStatus::Pending {
                    t.status = TargetStatus::Cancelled;
                }
            },
            _ => {},
        }
    }

    fn change(self, post: &mut ScheduledPost)
        ensures
            row_of(*final(post)) == self.row_after(row_of(*old(post))),
    {
        let ghost before = post.targets@;
        let ghost start = row_of(*post);
        let n: usize = post.targets.len();
        let mut i: usize = 0;
        while i < n
            invariant
                i <= n == before.len(),
                post.targets@.len() == n,
                row_of(*post) == (PostRow { targets: post.targets@, ..start }),
                forall|j: int|
                    0 <= j < i ==> #[trigger] post.targets@[j] == self.target_after(before[j]),
                forall|j: int| i <= j < n ==> #[trigger] post.targets@[j] == before[j],
            decreases n - i,
        {
            self.change_target(&mut post.targets[i]);
            i = i + 1;
        }
        assert(post.targets@ =~= self.targets_after(before));
        match self {
            Move::Take => {
                post.status = PostStatus::Publishing;
            },
            Move::Settle(s) => {
                post.status = s;
            },
            Move::Requeue(_) => {
                post.status = PostStatus::Due;
            },
            Move::Retry(_) => {
                post.status = PostStatus::Due;
            },
            Move::DueNow(now) => {
                post.status = PostStatus::Due;
                post.scheduled_for = now;
            },
            Move::Reschedule(at) => {
                post.status = PostStatus::Scheduled;
                post.scheduled_for = at;
            },
            Move::Cancel => {
                post.status = PostStatus::Cancelled;
            },
        }
    }
}

fn any_held(targets: &Vec<PostTarget>) -> (r: bool)
    ensures
        r == held(targets@),
{
    let mut i: usize = 0;
    while i < targets.len()
        invariant
            i <= targets.len(),
            forall|j: int|
                0 <= j < i ==> (#[trigger] targets@[j]).status != TargetStatus::Publishing,
        decreases targets.len() - i,
    {
        if targets[i].status == TargetStatus::Publishing {
            return true;
        }
        i = i + 1;
    }
    false
}

impl Ledger {
    /// Move the post with an id, if the guard admits it; whether it did.
    pub fn apply(&mut self, id: &str, what: Move) -> (r: bool)
        ensures
            r == what.happens(old(self)@, id@),
            final(self)@ == what.after(old(self)@, id@),
    {
        match self.find(id) {
            Some(k) => {
                assert(self@[k as int] == row_of(self.posts@[k as int]));
                if what.may_take(&self.posts[k]) {
                    what.change(&mut self.posts[k]);
                    assert(self@ =~= old(self)@.update(
                        k as int,
                        what.row_after(old(self)@[k as int]),
                    ));
                    true
                } else {
                    false
                }
            },
            None => false,
        }
    }
}

/// What no move does: change a post's identity, drop or add a leg, step outside the
/// machine, or touch a leg that was published.
pub open spec fn lawful(r: PostRow, s: PostRow) -> bool {
    &&& s.id == r.id
    &&& s.workspace_id == r.workspace_id
    &&& s.draft_id == r.draft_id
    &&& s.created_at == r.created_at
    &&& r.status == s.status || r.status.may_become(s.status)
    &&& s.targets.len() == r.targets.len()
    &&& forall|i: int|
        0 <= i < r.targets.len() ==> {
            &&& (#[trigger] s.targets[i]).id == r.targets[i].id
            &&& s.targets[i].social_account_id == r.targets[i].social_account_id
            &&& r.targets[i].status == TargetStatus::Published ==> s.targets[i] == r.targets[i]
        }
}

/// Every admitted move is lawful, given a verdict that a run can come to.
pub proof fn every_move_is_lawful(what: Move, r: PostRow)
    requires
        what.admits(r),
        what matches Move::Settle(s) ==> PostStatus::Publishing.may_become(s),
    ensures
        lawful(r, what.row_after(r)),
{
}

/// A retry is of a post that ended without every leg published. It takes the failed legs,
/// with their attempts forgotten, and no other: least of all one that was published.
pub proof fn a_retry_takes_only_the_failed_legs(r: PostRow, now: i64, i: int)
    requires
        Move::Retry(now).admits(r),
        0 <= i < r.targets.len(),
    ensures
        ({
            let after = Move::Retry(now).row_after(r);
            let leg = after.targets[i];
            &&& r.status == PostStatus::Partial || r.status == PostStatus::Failed
            &&& after.status == PostStatus::Due
            &&& r.targets[i].status == TargetStatus::Failed ==> leg.status == TargetStatus::Pending
                && leg.attempts == 0 && leg.next_attempt_at == Some(now)
            &&& r.targets[i].status != TargetStatus::Failed ==> leg == r.targets[i]
        }),
{
}

/// A post is taken once: the runner that comes second is refused, until the post is
/// due again.
pub proof fn a_post_is_taken_once(rows: Seq<PostRow>, id: Seq<char>)
    ensures
        !Move::Take.happens(Move::Take.after(rows, id), id),
{
    lemma_post_at(rows, id);
    match post_at(rows, id) {
        Some(k) => {
            if Move::Take.admits(rows[k]) {
                let after = Move::Take.after(rows, id);
                assert(after[k].id == rows[k].id);
                assert forall|j: int| 0 <= j < k implies (#[trigger] after[j]).id@ != id by {
                    assert(after[j] == rows[j]);
                }
                lemma_found(after, id, k);
            }
        },
        None => {},
    }
}

// ── The sweep ──────────────────────────────────────────────────────────────────

/// A scheduled post whose time has come.
pub open spec fn ready(r: PostRow, now: i64) -> bool {
    r.status == PostStatus::Scheduled && r.scheduled_for <= now
}

/// The ready post with the earliest time; of several, the first.
pub open spec fn earliest(rows: Seq<PostRow>, now: i64) -> Option<int>
    decreases rows.len(),
{
    if rows.len() == 0 {
        None
    } else {
        match earliest(rows.drop_last(), now) {
            None => if ready(rows.last(), now) {
                Some(rows.len() - 1)
            } else {
                None
            },
            Some(k) => if ready(rows.last(), now) && rows.last().scheduled_for
                < rows[k].scheduled_for {
                Some(rows.len() - 1)
            } else {
                Some(k)
            },
        }
    }
}

proof fn lemma_earliest(rows: Seq<PostRow>, now: i64)
    ensures
        earliest(rows, now) matches Some(k) ==> {
            &&& 0 <= k < rows.len()
            &&& ready(rows[k], now)
            &&& forall|j: int|
                0 <= j < rows.len() && ready(#[trigger] rows[j], now) ==> rows[k].scheduled_for
                    <= rows[j].scheduled_for
        },
        earliest(rows, now) is None ==> forall|j: int|
            0 <= j < rows.len() ==> !ready(#[trigger] rows[j], now),
    decreases rows.len(),
{
    if rows.len() > 0 {
        let rest = rows.drop_last();
        lemma_earliest(rest, now);
        assert forall|j: int| 0 <= j < rest.len() implies #[trigger] rows[j] == rest[j] by {}
    }
}

/// The ledger after a sweep, and the ids of what it claimed, in that order: at most
/// so many ready posts, the earliest first, which are then due.
pub open spec fn sweep(rows: Seq<PostRow>, now: i64, limit: nat) -> (Seq<PostRow>, Seq<Seq<char>>)
    decreases limit,
{
    if limit == 0 {
        (rows, Seq::empty())
    } else {
        match earliest(rows, now) {
            None => (rows, Seq::empty()),
            Some(k) => {
                let rest = sweep(
                    rows.update(k, rows[k].with_status(PostStatus::Due)),
                    now,
                    (limit - 1) as nat,
                );
                (rest.0, seq![rows[k].id@] + rest.1)
            },
        }
    }
}

pub open spec fn texts_of(s: Seq<String>) -> Seq<Seq<char>> {
    s.map_values(|x: String| x@)
}

impl Ledger {
    fn next_ready(&self, now: i64) -> (r: Option<usize>)
        ensures
            match r {
                Some(k) => earliest(self@, now) == Some(k as int) && k < self.posts@.len(),
                None => earliest(self@, now) is None,
            },
    {
        let mut best: Option<usize> = None;
        let mut i: usize = 0;
        assert(self@.take(0) =~= Seq::<PostRow>::empty());
        while i < self.posts.len()
            invariant
                i <= self.posts.len(),
                match best {
                    Some(k) => earliest(self@.take(i as int), now) == Some(k as int) && k < i,
                    None => earliest(self@.take(i as int), now) is None,
                },
            decreases self.posts.len() - i,
        {
            let p = &self.posts[i];
            proof {
                assert(self@.take(i as int + 1).drop_last() =~= self@.take(i as int));
                assert(self@.take(i as int + 1).last() == row_of(self.posts@[i as int]));
            }
            if p.status == PostStatus::Scheduled && p.scheduled_for <= now {
                match best {
                    None => {
                        best = Some(i);
                    },
                    Some(k) => {
                        assert(self@.take(i as int)[k as int] == row_of(self.posts@[k as int]));
                        if p.scheduled_for < self.posts[k].scheduled_for {
                            best = Some(i);
                        }
                    },
                }
            }
            i = i + 1;
        }
        assert(self@.take(self@.len() as int) =~= self@);
        best
    }

    /// Claim what has come due: at most so many posts, the earliest first. The ids of
    /// those claimed.
    pub fn claim_due_posts(&mut self, now: i64, limit: usize) -> (r: Vec<String>)
        ensures
            final(self)@ == sweep(old(self)@, now, limit as nat).0,
            texts_of(r@) == sweep(old(self)@, now, limit as nat).1,
    {
        let mut claimed: Vec<String> = Vec::new();
        let mut left: usize = limit;
        assert(texts_of(claimed@) =~= Seq::<Seq<char>>::empty());
        assert(Seq::<Seq<char>>::empty() + sweep(self@, now, left as nat).1 =~= sweep(
            self@,
            now,
            left as nat,
        ).1);
        while left > 0
            invariant
                sweep(self@, now, left as nat).0 == sweep(old(self)@, now, limit as nat).0,
                texts_of(claimed@) + sweep(self@, now, left as nat).1 == sweep(
                    old(self)@,
                    now,
                    limit as nat,
                ).1,
            ensures
                self@ == sweep(old(self)@, now, limit as nat).0,
                texts_of(claimed@) == sweep(old(self)@, now, limit as nat).1,
            decreases left,
        {
            let ghost rows = self@;
            let ghost done = claimed@;
            match self.next_ready(now) {
                None => {
                    assert(texts_of(claimed@) + Seq::<Seq<char>>::empty() =~= texts_of(claimed@));
                    break;
                },
                Some(k) => {
                    assert(rows[k as int].id == self.posts@[k as int].id);
                    let id: String = self.posts[k].id.clone();
                    claimed.push(id);
                    self.set_status(k, PostStatus::Due);
                    left = left - 1;
                    proof {
                        let rest = sweep(self@, now, left as nat).1;
                        assert(texts_of(claimed@) =~= texts_of(done).push(id@));
                        assert(texts_of(claimed@) + rest =~= texts_of(done) + (seq![id@] + rest));
                    }
                },
            }
            proof {
                if left == 0 {
                    assert(texts_of(claimed@) + Seq::<Seq<char>>::empty() =~= texts_of(claimed@));
                }
            }
        }
        claimed
    }
}

/// A post becomes due once, however many sweeps overlap: what one sweep leaves is what
/// the next one starts from, so two sweeps together claim what one of their joint
/// size would.
pub proof fn sweeps_share_the_work(rows: Seq<PostRow>, now: i64, a: nat, b: nat)
    ensures
        sweep(sweep(rows, now, a).0, now, b).0 == sweep(rows, now, a + b).0,
        sweep(rows, now, a).1 + sweep(sweep(rows, now, a).0, now, b).1 == sweep(
            rows,
            now,
            a + b,
        ).1,
    decreases a,
{
    if a == 0 {
        assert(sweep(rows, now, 0).1 + sweep(rows, now, b).1 =~= sweep(rows, now, b).1);
    } else {
        match earliest(rows, now) {
            None => {
                assert(sweep(rows, now, a).1 + sweep(rows, now, b).1 =~= Seq::empty());
            },
            Some(k) => {
                let next = rows.update(k, rows[k].with_status(PostStatus::Due));
                sweeps_share_the_work(next, now, (a - 1) as nat, b);
                let first = sweep(next, now, (a - 1) as nat);
                assert(first.1 + sweep(first.0, now, b).1 == sweep(next, now, (a - 1 + b) as nat).1);
                assert(((a - 1) as nat) + b == (a + b - 1) as nat);
                assert((seq![rows[k].id@] + first.1) + sweep(first.0, now, b).1 =~= seq![rows[k].id@]
                    + (first.1 + sweep(first.0, now, b).1));
            },
        }
    }
}

/// A sweep only ever makes ready posts due; every other row stays as it is.
pub proof fn a_sweep_takes_only_what_is_ready(rows: Seq<PostRow>, now: i64, limit: nat, i: int)
    requires
        0 <= i < rows.len(),
    ensures
        ({
            let after = sweep(rows, now, limit).0;
            &&& after.len() == rows.len()
            &&& after[i] == rows[i] || (ready(rows[i], now) && after[i] == rows[i].with_status(
                PostStatus::Due,
            ))
            &&& lawful(rows[i], after[i])
        }),
    decreases limit,
{
    if limit > 0 {
        lemma_earliest(rows, now);
        match earliest(rows, now) {
            None => {},
            Some(k) => {
                let next = rows.update(k, rows[k].with_status(PostStatus::Due));
                a_sweep_takes_only_what_is_ready(next, now, (limit - 1) as nat, i);
            },
        }
    }
}

/// The ready posts.
pub open spec fn ready_count(rows: Seq<PostRow>, now: i64) -> nat
    decreases rows.len(),
{
    if rows.len() == 0 {
        0
    } else {
        ready_count(rows.drop_last(), now) + (if ready(rows.last(), now) {
            1nat
        } else {
            0nat
        })
    }
}

proof fn lemma_ready_update(rows: Seq<PostRow>, now: i64, k: int, r: PostRow)
    requires
        0 <= k < rows.len(),
        ready(rows[k], now),
        !ready(r, now),
    ensures
        ready_count(rows, now) >= 1,
        ready_count(rows.update(k, r), now) == ready_count(rows, now) - 1,
    decreases rows.len(),
{
    let rest = rows.drop_last();
    let w = rows.update(k, r);
    if k == rows.len() - 1 {
        assert(w.drop_last() =~= rest);
    } else {
        assert(rest[k] == rows[k]);
        assert(w.drop_last() =~= rest.update(k, r));
        assert(w.last() == rows.last());
        lemma_ready_update(rest, now, k, r);
    }
}

proof fn lemma_none_ready(rows: Seq<PostRow>, now: i64)
    requires
        forall|j: int| 0 <= j < rows.len() ==> !ready(#[trigger] rows[j], now),
    ensures
        ready_count(rows, now) == 0,
    decreases rows.len(),
{
    if rows.len() > 0 {
        let rest = rows.drop_last();
        assert forall|j: int| 0 <= j < rest.len() implies !ready(#[trigger] rest[j], now) by {
            assert(rest[j] == rows[j]);
        }
        assert(!ready(rows[rows.len() - 1], now));
        lemma_none_ready(rest, now);
    }
}

/// A sweep claims as many posts as are ready, up to its limit; the others stay ready.
pub proof fn a_sweep_claims_all_it_may(rows: Seq<PostRow>, now: i64, limit: nat)
    ensures
        sweep(rows, now, limit).1.len() == (if limit < ready_count(rows, now) {
            limit
        } else {
            ready_count(rows, now)
        }),
        ready_count(sweep(rows, now, limit).0, now) == ready_count(rows, now) - sweep(
            rows,
            now,
            limit,
        ).1.len(),
    decreases limit,
{
    lemma_earliest(rows, now);
    match earliest(rows, now) {
        None => {
            lemma_none_ready(rows, now);
        },
        Some(k) => {
            let next = rows.update(k, rows[k].with_status(PostStatus::Due));
            lemma_ready_update(rows, now, k, rows[k].with_status(PostStatus::Due));
            if limit > 0 {
                a_sweep_claims_all_it_may(next, now, (limit - 1) as nat);
            }
        },
    }
}

// ── Legs ───────────────────────────────────────────────────────────────────────

/// The first target with an id.
pub open spec fn leg_at(targets: Seq<PostTarget>, id: Seq<char>) -> Option<int>
    decreases targets.len(),
{
    if targets.len() == 0 {
        None
    } else {
        match leg_at(targets.drop_last(), id) {
            Some(j) => Some(j),
            None => if targets.last().id@ == id {
                Some(targets.len() - 1)
            } else {
                None
            },
        }
    }
}

/// The first post that has a target with an id, and where in it.
pub open spec fn leg_in(rows: Seq<PostRow>, id: Seq<char>) -> Option<(int, int)>
    decreases rows.len(),
{
    if rows.len() == 0 {
        None
    } else {
        match leg_in(rows.drop_last(), id) {
            Some(at) => Some(at),
            None => match leg_at(rows.last().targets, id) {
                Some(j) => Some((rows.len() - 1, j)),
                None => None,
            },
        }
    }
}

proof fn lemma_leg_at(targets: Seq<PostTarget>, id: Seq<char>, n: int)
    requires
        0 <= n <= targets.len(),
        leg_at(targets.take(n), id) is Some,
    ensures
        leg_at(targets, id) == leg_at(targets.take(n), id),
    decreases targets.len(),
{
    if n == targets.len() {
        assert(targets.take(n) =~= targets);
    } else {
        assert(targets.drop_last().take(n) =~= targets.take(n));
        lemma_leg_at(targets.drop_last(), id, n);
    }
}

proof fn lemma_leg_in(rows: Seq<PostRow>, id: Seq<char>, n: int)
    requires
        0 <= n <= rows.len(),
        leg_in(rows.take(n), id) is Some,
    ensures
        leg_in(rows, id) == leg_in(rows.take(n), id),
    decreases rows.len(),
{
    if n == rows.len() {
        assert(rows.take(n) =~= rows);
    } else {
        assert(rows.drop_last().take(n) =~= rows.take(n));
        lemma_leg_in(rows.drop_last(), id, n);
    }
}

proof fn lemma_leg_there(rows: Seq<PostRow>, id: Seq<char>)
    ensures
        leg_in(rows, id) matches Some((k, j)) ==> 0 <= k < rows.len() && 0 <= j
            < rows[k].targets.len() && rows[k].targets[j].id@ == id,
    decreases rows.len(),
{
    if rows.len() > 0 {
        lemma_leg_there(rows.drop_last(), id);
        lemma_leg_within(rows.last().targets, id);
    }
}

proof fn lemma_leg_within(targets: Seq<PostTarget>, id: Seq<char>)
    ensures
        leg_at(targets, id) matches Some(j) ==> 0 <= j < targets.len() && targets[j].id@ == id,
    decreases targets.len(),
{
    if targets.len() > 0 {
        lemma_leg_within(targets.drop_last(), id);
    }
}

fn find_leg(targets: &Vec<PostTarget>, id: &str) -> (r: Option<usize>)
    ensures
        match r {
            Some(j) => leg_at(targets@, id@) == Some(j as int) && j < targets@.len(),
            None => leg_at(targets@, id@) is None,
        },
{
    let mut i: usize = 0;
    assert(targets@.take(0) =~= Seq::<PostTarget>::empty());
    while i < targets.len()
        invariant
            i <= targets.len(),
            leg_at(targets@.take(i as int), id@) is None,
        decreases targets.len() - i,
    {
        proof {
            assert(targets@.take(i as int + 1).drop_last() =~= targets@.take(i as int));
            assert(targets@.take(i as int + 1).last() == targets@[i as int]);
        }
        if text_eq(targets[i].id.as_str(), id) {
            proof {
                lemma_leg_at(targets@, id@, i as int + 1);
            }
            return Some(i);
        }
        i = i + 1;
    }
    assert(targets@.take(targets@.len() as int) =~= targets@);
    None
}

/// The ledger with one leg changed.
pub open spec fn with_leg(rows: Seq<PostRow>, k: int, j: int, t: PostTarget) -> Seq<PostRow> {
    rows.update(k, PostRow { targets: rows[k].targets.update(j, t), ..rows[k] })
}

/// The ledger after a runner asked for a leg: one that waits is then its, from now on.
pub open spec fn leg_claimed(rows: Seq<PostRow>, id: Seq<char>, now: i64) -> Seq<PostRow> {
    match leg_in(rows, id) {
        Some((k, j)) => if rows[k].targets[j].status == TargetStatus::Pending {
            with_leg(
                rows,
                k,
                j,
                PostTarget {
                    status: TargetStatus::Publishing,
                    claimed_at: Some(now),
                    ..rows[k].targets[j]
                },
            )
        } else {
            rows
        },
        None => rows,
    }
}

/// The ledger after a leg's run: nobody holds it any more.
pub open spec fn leg_settled(
    rows: Seq<PostRow>,
    id: Seq<char>,
    status: TargetStatus,
    attempts: u32,
    next_attempt_at: Option<i64>,
) -> Seq<PostRow> {
    match leg_in(rows, id) {
        Some((k, j)) => with_leg(
            rows,
            k,
            j,
            PostTarget {
                status,
                attempts,
                next_attempt_at,
                claimed_at: None,
                ..rows[k].targets[j]
            },
        ),
        None => rows,
    }
}

/// The ledger after a leg's run came to an end: no further attempt is planned.
pub open spec fn leg_ended(rows: Seq<PostRow>, id: Seq<char>, end: SettlementView) -> Seq<PostRow> {
    leg_settled(rows, id, end.status, end.attempts, None)
}

impl Ledger {
    fn find_target(&self, id: &str) -> (r: Option<(usize, usize)>)
        ensures
            match r {
                Some((k, j)) => {
                    &&& leg_in(self@, id@) == Some((k as int, j as int))
                    &&& k < self.posts@.len()
                    &&& j < self.posts@[k as int].targets@.len()
                },
                None => leg_in(self@, id@) is None,
            },
    {
        let mut i: usize = 0;
        assert(self@.take(0) =~= Seq::<PostRow>::empty());
        while i < self.posts.len()
            invariant
                i <= self.posts.len(),
                leg_in(self@.take(i as int), id@) is None,
            decreases self.posts.len() - i,
        {
            proof {
                assert(self@.take(i as int + 1).drop_last() =~= self@.take(i as int));
                assert(self@.take(i as int + 1).last() == row_of(self.posts@[i as int]));
            }
            match find_leg(&self.posts[i].targets, id) {
                Some(j) => {
                    proof {
                        lemma_leg_in(self@, id@, i as int + 1);
                    }
                    return Some((i, j));
                },
                None => {},
            }
            i = i + 1;
        }
        assert(self@.take(self@.len() as int) =~= self@);
        None
    }

    /// Claim a leg for a runner, and note since when; whether it was there to claim.
    pub fn claim_target(&mut self, id: &str, now: i64) -> (r: bool)
        ensures
            r == (leg_in(old(self)@, id@) matches Some((k, j)) && old(self)@[k].targets[j].status
                == TargetStatus::Pending),
            final(self)@ == leg_claimed(old(self)@, id@, now),
    {
        match self.find_target(id) {
            Some((k, j)) => {
                assert(self@[k as int] == row_of(self.posts@[k as int]));
                if self.posts[k].targets[j].status == TargetStatus::Pending {
                    self.posts[k].targets[j].status = TargetStatus::Publishing;
                    self.posts[k].targets[j].claimed_at = Some(now);
                    assert(self@[k as int].targets =~= leg_claimed(old(self)@, id@, now)[k as int].targets);
                    assert(self@ =~= leg_claimed(old(self)@, id@, now));
                    true
                } else {
                    false
                }
            },
            None => false,
        }
    }

    /// Write down the end of a leg's run.
    pub fn settle_target(
        &mut self,
        id: &str,
        status: TargetStatus,
        attempts: u32,
        next_attempt_at: Option<i64>,
    )
        ensures
            final(self)@ == leg_settled(old(self)@, id@, status, attempts, next_attempt_at),
    {
        match self.find_target(id) {
            Some((k, j)) => {
                assert(self@[k as int] == row_of(self.posts@[k as int]));
                self.posts[k].targets[j].status = status;
                self.posts[k].targets[j].attempts = attempts;
                self.posts[k].targets[j].next_attempt_at = next_attempt_at;
                self.posts[k].targets[j].claimed_at = None;
                let ghost want = leg_settled(old(self)@, id@, status, attempts, next_attempt_at);
                assert(self@[k as int].targets =~= want[k as int].targets);
                assert(self@ =~= want);
            },
            None => {},
        }
    }
}

impl Ledger {
    /// Write down what the run of a leg came to. Nothing is left to wait for.
    pub fn end_target(&mut self, id: &str, end: &Settlement)
        ensures
            final(self)@ == leg_ended(old(self)@, id@, end@),
            final(self)@ == leg_settled(old(self)@, id@, end.status, end.attempts, None),
    {
        self.settle_target(id, end.status, end.attempts, None);
    }
}

/// A leg that fails without its provider being called is failed, with the attempts it
/// had; nobody holds it, and no further attempt is planned. No other leg is touched.
pub proof fn a_local_failure_ends_its_leg(
    rows: Seq<PostRow>,
    id: Seq<char>,
    k: int,
    j: int,
    reason: Seq<char>,
)
    requires
        leg_in(rows, id) == Some((k, j)),
    ensures
        ({
            let leg = rows[k].targets[j];
            let after = leg_ended(rows, id, publish::local_failure(leg, reason));
            after == with_leg(
                rows,
                k,
                j,
                PostTarget {
                    status: TargetStatus::Failed,
                    next_attempt_at: None,
                    claimed_at: None,
                    ..leg
                },
            )
        }),
{
}

proof fn lemma_leg_kept(rows: Seq<PostRow>, id: Seq<char>, k: int, j: int, t: PostTarget)
    requires
        leg_in(rows, id) == Some((k, j)),
        t.id == rows[k].targets[j].id,
    ensures
        leg_in(with_leg(rows, k, j, t), id) == Some((k, j)),
    decreases rows.len(),
{
    lemma_leg_there(rows, id);
    let w = with_leg(rows, k, j, t);
    if k == rows.len() - 1 && leg_in(rows.drop_last(), id) is None {
        assert(w.drop_last() =~= rows.drop_last());
        lemma_leg_at_kept(rows[k].targets, id, j, t);
    } else {
        lemma_leg_there(rows.drop_last(), id);
        assert(w.drop_last() =~= with_leg(rows.drop_last(), k, j, t));
        lemma_leg_kept(rows.drop_last(), id, k, j, t);
    }
}

proof fn lemma_leg_at_kept(targets: Seq<PostTarget>, id: Seq<char>, j: int, t: PostTarget)
    requires
        leg_at(targets, id) == Some(j),
        0 <= j < targets.len(),
        t.id == targets[j].id,
    ensures
        leg_at(targets.update(j, t), id) == Some(j),
    decreases targets.len(),
{
    lemma_leg_within(targets, id);
    let w = targets.update(j, t);
    if j == targets.len() - 1 && leg_at(targets.drop_last(), id) is None {
        assert(w.drop_last() =~= targets.drop_last());
    } else {
        lemma_leg_within(targets.drop_last(), id);
        assert(w.drop_last() =~= targets.drop_last().update(j, t));
        lemma_leg_at_kept(targets.drop_last(), id, j, t);
    }
}

/// A leg is claimed once: until its run is settled or its claim expires, nobody else
/// gets it.
pub proof fn a_leg_is_claimed_once(rows: Seq<PostRow>, id: Seq<char>, now: i64, later: i64)
    ensures
        leg_claimed(leg_claimed(rows, id, now), id, later) == leg_claimed(rows, id, now),
{
    lemma_leg_there(rows, id);
    match leg_in(rows, id) {
        Some((k, j)) => {
            if rows[k].targets[j].status == TargetStatus::Pending {
                let t = PostTarget {
                    status: TargetStatus::Publishing,
                    claimed_at: Some(now),
                    ..rows[k].targets[j]
                };
                lemma_leg_kept(rows, id, k, j, t);
            }
        },
        None => {},
    }
}

// ── The reaper ─────────────────────────────────────────────────────────────────

/// A leg whose runner has been at it since before the cutoff.
pub open spec fn expired(t: PostTarget, cutoff: i64) -> bool {
    t.status == TargetStatus::Publishing && (t.claimed_at matches Some(c) && c < cutoff)
}

pub open spec fn some_expired(targets: Seq<PostTarget>, cutoff: i64) -> bool {
    exists|i: int| 0 <= i < targets.len() && expired(#[trigger] targets[i], cutoff)
}

/// An expired leg waits again, from now on; any other stays as it is.
pub open spec fn reaped_leg(t: PostTarget, cutoff: i64, now: i64) -> PostTarget {
    if expired(t, cutoff) {
        PostTarget {
            status: TargetStatus::Pending,
            next_attempt_at: Some(now),
            claimed_at: None,
            ..t
        }
    } else {
        t
    }
}

pub open spec fn reaped_legs(targets: Seq<PostTarget>, cutoff: i64, now: i64) -> Seq<PostTarget> {
    targets.map_values(|t: PostTarget| reaped_leg(t, cutoff, now))
}

/// A post that lost a runner goes back to the queue, once no other runner holds a leg
/// of it.
pub open spec fn reaped_row(r: PostRow, cutoff: i64, now: i64) -> PostRow {
    let targets = reaped_legs(r.targets, cutoff, now);
    PostRow {
        targets,
        status: if r.status == PostStatus::Publishing && some_expired(r.targets, cutoff) && !held(
            targets,
        ) {
            PostStatus::Due
        } else {
            r.status
        },
        ..r
    }
}

pub open spec fn reaped(rows: Seq<PostRow>, cutoff: i64, now: i64) -> Seq<PostRow> {
    rows.map_values(|r: PostRow| reaped_row(r, cutoff, now))
}

/// The ids of the expired legs of one post.
pub open spec fn expired_ids(targets: Seq<PostTarget>, cutoff: i64) -> Seq<Seq<char>>
    decreases targets.len(),
{
    if targets.len() == 0 {
        Seq::empty()
    } else {
        let rest = expired_ids(targets.drop_last(), cutoff);
        if expired(targets.last(), cutoff) {
            rest.push(targets.last().id@)
        } else {
            rest
        }
    }
}

/// The ids of the expired legs, in the ledger's order.
pub open spec fn reaped_ids(rows: Seq<PostRow>, cutoff: i64) -> Seq<Seq<char>>
    decreases rows.len(),
{
    if rows.len() == 0 {
        Seq::empty()
    } else {
        reaped_ids(rows.drop_last(), cutoff) + expired_ids(rows.last().targets, cutoff)
    }
}

fn has_expired(t: &PostTarget, cutoff: i64) -> (r: bool)
    ensures
        r == expired(*t, cutoff),
{
    t.status == TargetStatus::Publishing && match t.claimed_at {
        Some(c) => c < cutoff,
        None => false,
    }
}

/// Take the expired legs of one post from their runners.
fn reap_post(post: &mut ScheduledPost, cutoff: i64, now: i64, ids: &mut Vec<String>)
    ensures
        row_of(*final(post)) == reaped_row(row_of(*old(post)), cutoff, now),
        texts_of(final(ids)@) == texts_of(old(ids)@) + expired_ids(old(post).targets@, cutoff),
{
    let ghost before = post.targets@;
    let ghost start = row_of(*post);
    let ghost had = texts_of(ids@);
    let n: usize = post.targets.len();
    let mut i: usize = 0;
    let mut any: bool = false;
    assert(before.take(0) =~= Seq::<PostTarget>::empty());
    assert(had + Seq::<Seq<char>>::empty() =~= had);
    while i < n
        invariant
            i <= n == before.len(),
            post.targets@.len() == n,
            row_of(*post) == (PostRow { targets: post.targets@, ..start }),
            texts_of(ids@) == had + expired_ids(before.take(i as int), cutoff),
            any == some_expired(before.take(i as int), cutoff),
            forall|j: int|
                0 <= j < i ==> #[trigger] post.targets@[j] == reaped_leg(before[j], cutoff, now),
            forall|j: int| i <= j < n ==> #[trigger] post.targets@[j] == before[j],
        decreases n - i,
    {
        let ghost pre = before.take(i as int);
        let ghost next = before.take(i as int + 1);
        let ghost so_far = texts_of(ids@);
        proof {
            assert(next.drop_last() =~= pre);
            assert(next.last() == before[i as int]);
            assert forall|j: int| 0 <= j < i implies #[trigger] next[j] == pre[j] by {}
            if some_expired(pre, cutoff) {
                let j = choose|j: int| 0 <= j < pre.len() && expired(#[trigger] pre[j], cutoff);
                assert(expired(next[j], cutoff));
            }
            if some_expired(next, cutoff) && !expired(before[i as int], cutoff) {
                let j = choose|j: int| 0 <= j < next.len() && expired(#[trigger] next[j], cutoff);
                assert(expired(pre[j], cutoff));
            }
        }
        if has_expired(&post.targets[i], cutoff) {
            let id: String = post.targets[i].id.clone();
            ids.push(id);
            post.targets[i].status = TargetStatus::Pending;
            post.targets[i].next_attempt_at = Some(now);
            post.targets[i].claimed_at = None;
            any = true;
            proof {
                assert(expired(next[i as int], cutoff));
                assert(texts_of(ids@) =~= so_far.push(id@));
                assert(texts_of(ids@) =~= had + expired_ids(next, cutoff));
            }
        }
        i = i + 1;
    }
    assert(before.take(n as int) =~= before);
    assert(post.targets@ =~= reaped_legs(before, cutoff, now));
    if any && post.status == PostStatus::Publishing && !any_held(&post.targets) {
        post.status = PostStatus::Due;
    }
}

impl Ledger {
    /// Return the legs whose claim is older than the cutoff, and their posts, to the
    /// queue. The ids of those legs.
    pub fn reap_expired_claims(&mut self, cutoff: i64, now: i64) -> (r: Vec<String>)
        ensures
            final(self)@ == reaped(old(self)@, cutoff, now),
            texts_of(r@) == reaped_ids(old(self)@, cutoff),
    {
        let ghost before = self@;
        let mut ids: Vec<String> = Vec::new();
        let n: usize = self.posts.len();
        let mut i: usize = 0;
        assert(before.take(0) =~= Seq::<PostRow>::empty());
        assert(texts_of(ids@) =~= Seq::<Seq<char>>::empty());
        while i < n
            invariant
                i <= n == before.len(),
                self.posts@.len() == n,
                texts_of(ids@) == reaped_ids(before.take(i as int), cutoff),
                forall|j: int|
                    0 <= j < i ==> row_of(#[trigger] self.posts@[j]) == reaped_row(
                        before[j],
                        cutoff,
                        now,
                    ),
                forall|j: int| i <= j < n ==> row_of(#[trigger] self.posts@[j]) == before[j],
            decreases n - i,
        {
            proof {
                assert(before.take(i as int + 1).drop_last() =~= before.take(i as int));
                assert(before.take(i as int + 1).last() == before[i as int]);
            }
            reap_post(&mut self.posts[i], cutoff, now, &mut ids);
            i = i + 1;
        }
        assert(before.take(n as int) =~= before);
        assert(self@ =~= reaped(before, cutoff, now));
        ids
    }
}

/// A claim that is not older than the cutoff survives the reaper, and so does a leg
/// that is over; reaping moves posts lawfully.
pub proof fn a_live_claim_survives(r: PostRow, cutoff: i64, now: i64, i: int)
    requires
        0 <= i < r.targets.len(),
    ensures
        !expired(r.targets[i], cutoff) ==> reaped_row(r, cutoff, now).targets[i] == r.targets[i],
        lawful(r, reaped_row(r, cutoff, now)),
        held(reaped_row(r, cutoff, now).targets) ==> reaped_row(r, cutoff, now).status
            == r.status,
{
}

proof fn lemma_nothing_expired(targets: Seq<PostTarget>, cutoff: i64)
    requires
        forall|i: int| 0 <= i < targets.len() ==> !expired(#[trigger] targets[i], cutoff),
    ensures
        expired_ids(targets, cutoff) =~= Seq::<Seq<char>>::empty(),
        forall|now: i64| #[trigger]
            reaped_legs(targets, cutoff, now) =~= targets,
        !some_expired(targets, cutoff),
    decreases targets.len(),
{
    if targets.len() > 0 {
        let rest = targets.drop_last();
        assert forall|i: int| 0 <= i < rest.len() implies !expired(#[trigger] rest[i], cutoff) by {
            assert(rest[i] == targets[i]);
        }
        assert(!expired(targets[targets.len() - 1], cutoff));
        lemma_nothing_expired(rest, cutoff);
    }
}

proof fn lemma_reaped_rows(rows: Seq<PostRow>, cutoff: i64)
    requires
        forall|k: int, i: int|
            0 <= k < rows.len() && 0 <= i < (#[trigger] rows[k]).targets.len() ==> !expired(
                #[trigger] rows[k].targets[i],
                cutoff,
            ),
    ensures
        reaped_ids(rows, cutoff) =~= Seq::<Seq<char>>::empty(),
    decreases rows.len(),
{
    if rows.len() > 0 {
        let rest = rows.drop_last();
        assert forall|k: int, i: int|
            0 <= k < rest.len() && 0 <= i < (#[trigger] rest[k]).targets.len() implies !expired(
            #[trigger] rest[k].targets[i],
            cutoff,
        ) by {
            assert(rest[k] == rows[k]);
        }
        lemma_reaped_rows(rest, cutoff);
        let last = rows[rows.len() - 1];
        assert forall|i: int| 0 <= i < last.targets.len() implies !expired(
            #[trigger] last.targets[i],
            cutoff,
        ) by {
            assert(!expired(rows[rows.len() - 1].targets[i], cutoff));
        }
        lemma_nothing_expired(last.targets, cutoff);
    }
}

/// What has been reaped is not reaped again.
pub proof fn reaping_again_finds_nothing(rows: Seq<PostRow>, cutoff: i64, now: i64, later: i64)
    ensures
        reaped_ids(reaped(rows, cutoff, now), cutoff) == Seq::<Seq<char>>::empty(),
        reaped(reaped(rows, cutoff, now), cutoff, later) == reaped(rows, cutoff, now),
{
    let w = reaped(rows, cutoff, now);
    lemma_reaped_rows(w, cutoff);
    assert forall|k: int| 0 <= k < w.len() implies #[trigger] reaped_row(w[k], cutoff, later)
        == w[k] by {
        assert forall|i: int| 0 <= i < w[k].targets.len() implies !expired(
            #[trigger] w[k].targets[i],
            cutoff,
        ) by {}
        lemma_nothing_expired(w[k].targets, cutoff);
        assert(reaped_legs(w[k].targets, cutoff, later) =~= w[k].targets);
    }
    assert(reaped(w, cutoff, later) =~= w);
}

// ── One sweep, whole ───────────────────────────────────────────────────────────

/// The due posts, in the ledger's order: those just claimed, those sent back, and those
/// that nobody has run yet.
pub open spec fn due_of(rows: Seq<PostRow>) -> Seq<DuePost>
    decreases rows.len(),
{
    if rows.len() == 0 {
        Seq::empty()
    } else {
        let init = due_of(rows.drop_last());
        let r = rows.last();
        if r.status == PostStatus::Due {
            init.push(
                DuePost {
                    id: r.id,
                    workspace_id: r.workspace_id,
                    scheduled_for: r.scheduled_for,
                },
            )
        } else {
            init
        }
    }
}

/// The due posts in line, the earliest first; at most so many.
pub open spec fn line_of(rows: Seq<PostRow>, limit: nat) -> Seq<DuePost> {
    let all = rank::ranked(due_of(rows));
    if limit < all.len() {
        all.take(limit as int)
    } else {
        all
    }
}

/// What a sweep found: the legs taken from dead runners, the posts that came due, and
/// of the due posts those to run and those that are held.
#[derive(Debug, PartialEq, Eq)]
pub struct TickWork {
    pub reaped: Vec<String>,
    pub claimed: Vec<String>,
    pub runnable: Vec<DuePost>,
    pub held: Vec<DuePost>,
}

pub open spec fn tick_cutoff(now: i64, policy: PolicyView) -> i64 {
    scheduler::cutoff_of(now, policy.lease_ms) as i64
}

/// How much a sweep may claim: nothing while every scheduler is off.
pub open spec fn tick_claim(policy: PolicyView, batch: nat) -> nat {
    if policy.enabled.len() > 0 {
        batch
    } else {
        0
    }
}

/// The ledger after a sweep, and what it claimed. Dead claims are returned first, so
/// that their posts are in line in the same sweep.
pub open spec fn ticked(rows: Seq<PostRow>, now: i64, policy: PolicyView, batch: nat) -> (
    Seq<PostRow>,
    Seq<Seq<char>>,
) {
    sweep(reaped(rows, tick_cutoff(now, policy), now), now, tick_claim(policy, batch))
}

impl Ledger {
    /// The due posts in line.
    pub fn list_due_posts(&self, limit: usize) -> (r: Vec<DuePost>)
        ensures
            r@ == line_of(self@, limit as nat),
    {
        let mut due: Vec<DuePost> = Vec::new();
        let mut i: usize = 0;
        assert(self@.take(0) =~= Seq::<PostRow>::empty());
        while i < self.posts.len()
            invariant
                i <= self.posts.len(),
                due@ == due_of(self@.take(i as int)),
            decreases self.posts.len() - i,
        {
            proof {
                assert(self@.take(i as int + 1).drop_last() =~= self@.take(i as int));
                assert(self@.take(i as int + 1).last() == row_of(self.posts@[i as int]));
            }
            let p = &self.posts[i];
            if p.status == PostStatus::Due {
                due.push(
                    DuePost {
                        id: p.id.clone(),
                        workspace_id: p.workspace_id.clone(),
                        scheduled_for: p.scheduled_for,
                    },
                );
            }
            i = i + 1;
        }
        assert(self@.take(self@.len() as int) =~= self@);
        let mut sorted = sort_ranked(due);
        if limit < sorted.len() {
            sorted.truncate(limit);
        }
        sorted
    }

    /// One sweep, up to the runs: return dead claims, claim what has come due, and line
    /// up what is to run. One reading of the clock decides for all of it.
    pub fn tick(&mut self, now: i64, policy: &TickPolicy, batch: usize) -> (r: TickWork)
        ensures
            final(self)@ == ticked(old(self)@, now, policy@, batch as nat).0,
            texts_of(r.reaped@) == reaped_ids(old(self)@, tick_cutoff(now, policy@)),
            texts_of(r.claimed@) == ticked(old(self)@, now, policy@, batch as nat).1,
            r.runnable@ == scheduler::sorted_out(
                line_of(final(self)@, batch as nat),
                policy@,
                true,
            ),
            r.held@ == scheduler::sorted_out(line_of(final(self)@, batch as nat), policy@, false),
    {
        let plan = plan_tick(now, policy);
        let reaped = self.reap_expired_claims(plan.cutoff, now);
        let claim: usize = if plan.claims {
            batch
        } else {
            0
        };
        let claimed = self.claim_due_posts(now, claim);
        let (runnable, held) = split_due(self.list_due_posts(batch), policy);
        TickWork { reaped, claimed, runnable, held }
    }
}

/// A sweep moves every post lawfully. While every scheduler is off it leaves each
/// scheduled post scheduled, so that switching one on again resumes it.
pub proof fn a_sweep_is_lawful(
    rows: Seq<PostRow>,
    now: i64,
    policy: PolicyView,
    batch: nat,
    i: int,
)
    requires
        0 <= i < rows.len(),
    ensures
        ({
            let after = ticked(rows, now, policy, batch).0;
            &&& after.len() == rows.len()
            &&& lawful(rows[i], after[i])
            &&& after[i].status == PostStatus::Due || after[i].status == rows[i].status
            &&& policy.enabled.len() == 0 && rows[i].status == PostStatus::Scheduled
                ==> after[i].status == PostStatus::Scheduled
        }),
{
    let cutoff = tick_cutoff(now, policy);
    let alive = reaped(rows, cutoff, now);
    assert(alive[i] == reaped_row(rows[i], cutoff, now));
    a_sweep_takes_only_what_is_ready(alive, now, tick_claim(policy, batch), i);
}

proof fn lemma_due(rows: Seq<PostRow>, i: int)
    requires
        0 <= i < rows.len(),
        rows[i].status == PostStatus::Due,
    ensures
        due_of(rows).contains(
            DuePost {
                id: rows[i].id,
                workspace_id: rows[i].workspace_id,
                scheduled_for: rows[i].scheduled_for,
            },
        ),
    decreases rows.len(),
{
    let all = due_of(rows);
    let entry = DuePost {
        id: rows[i].id,
        workspace_id: rows[i].workspace_id,
        scheduled_for: rows[i].scheduled_for,
    };
    if i == rows.len() - 1 {
        assert(all[all.len() - 1] == entry);
    } else {
        let rest = rows.drop_last();
        lemma_due(rest, i);
        let init = due_of(rest);
        let k = choose|k: int| 0 <= k < init.len() && init[k] == entry;
        assert(all[k] == entry);
    }
}

proof fn lemma_due_is_due(rows: Seq<PostRow>, e: DuePost)
    requires
        due_of(rows).contains(e),
    ensures
        exists|i: int|
            0 <= i < rows.len() && (#[trigger] rows[i]).status == PostStatus::Due && rows[i].id
                == e.id && rows[i].workspace_id == e.workspace_id,
    decreases rows.len(),
{
    let all = due_of(rows);
    let k = choose|k: int| 0 <= k < all.len() && all[k] == e;
    let rest = rows.drop_last();
    let init = due_of(rest);
    if k < init.len() {
        assert(init[k] == e);
        lemma_due_is_due(rest, e);
        let i = choose|i: int|
            0 <= i < rest.len() && (#[trigger] rest[i]).status == PostStatus::Due && rest[i].id
                == e.id && rest[i].workspace_id == e.workspace_id;
        assert(rows[i] == rest[i]);
    } else {
        assert(rows[rows.len() - 1] == rows.last());
    }
}

/// What a sweep runs is due and of a workspace whose scheduler is on.
pub proof fn what_is_run_is_due(rows: Seq<PostRow>, policy: PolicyView, batch: nat, e: DuePost)
    requires
        scheduler::sorted_out(line_of(rows, batch), policy, true).contains(e),
    ensures
        policy.runs(e.workspace_id@),
        exists|i: int|
            0 <= i < rows.len() && (#[trigger] rows[i]).status == PostStatus::Due && rows[i].id
                == e.id && rows[i].workspace_id == e.workspace_id,
{
    broadcast use vstd::seq_lib::group_to_multiset_ensures;

    let line = line_of(rows, batch);
    let due = due_of(rows);
    let all = rank::ranked(due);
    scheduler::held_posts_are_kept(line, policy, e);
    rank::lemma_ranked(due);
    scheduler::sorted_out_is_from(line, policy, true, e);
    let k = choose|k: int| 0 <= k < line.len() && line[k] == e;
    assert(all[k] == e);
    assert(all.contains(e));
    assert(all.to_multiset().contains(e));
    assert(due.contains(e));
    lemma_due_is_due(rows, e);
}

/// Every due post is run or held, where the batch has room for all of them.
pub proof fn every_due_post_is_in_line(
    rows: Seq<PostRow>,
    policy: PolicyView,
    batch: nat,
    i: int,
)
    requires
        0 <= i < rows.len(),
        rows[i].status == PostStatus::Due,
        due_of(rows).len() <= batch,
    ensures
        ({
            let line = line_of(rows, batch);
            let e = DuePost {
                id: rows[i].id,
                workspace_id: rows[i].workspace_id,
                scheduled_for: rows[i].scheduled_for,
            };
            scheduler::sorted_out(line, policy, policy.runs(e.workspace_id@)).contains(e)
        }),
{
    broadcast use vstd::seq_lib::group_to_multiset_ensures;

    let line = line_of(rows, batch);
    let due = due_of(rows);
    let e = DuePost {
        id: rows[i].id,
        workspace_id: rows[i].workspace_id,
        scheduled_for: rows[i].scheduled_for,
    };
    lemma_due(rows, i);
    rank::lemma_ranked(due);
    assert(due.to_multiset().contains(e));
    assert(line.contains(e));
    scheduler::held_posts_are_kept(line, policy, e);
}

// ── An account that goes ───────────────────────────────────────────────────────

/// A leg that waits for an account that goes is called off; one that a runner holds,
/// or that is over, stays as it is.
pub open spec fn abandoned_leg(t: PostTarget, account: Seq<char>) -> PostTarget {
    if t.social_account_id@ == account && t.status == TargetStatus::Pending {
        PostTarget { status: TargetStatus::Cancelled, ..t }
    } else {
        t
    }
}

pub open spec fn abandoned_row(r: PostRow, account: Seq<char>) -> PostRow {
    PostRow { targets: r.targets.map_values(|t: PostTarget| abandoned_leg(t, account)), ..r }
}

/// The ledger without an account.
pub open spec fn abandoned(rows: Seq<PostRow>, account: Seq<char>) -> Seq<PostRow> {
    rows.map_values(|r: PostRow| abandoned_row(r, account))
}

fn abandon_post(post: &mut ScheduledPost, account: &str)
    ensures
        row_of(*final(post)) == abandoned_row(row_of(*old(post)), account@),
{
    let ghost before = post.targets@;
    let ghost start = row_of(*post);
    let n: usize = post.targets.len();
    let mut i: usize = 0;
    while i < n
        invariant
            i <= n == before.len(),
            post.targets@.len() == n,
            row_of(*post) == (PostRow { targets: post.targets@, ..start }),
            forall|j: int|
                0 <= j < i ==> #[trigger] post.targets@[j] == abandoned_leg(before[j], account@),
            forall|j: int| i <= j < n ==> #[trigger] post.targets@[j] == before[j],
        decreases n - i,
    {
        if post.targets[i].status == TargetStatus::Pending && text_eq(
            post.targets[i].social_account_id.as_str(),
            account,
        ) {
            post.targets[i].status = TargetStatus::Cancelled;
        }
        i = i + 1;
    }
    assert(post.targets@ =~= abandoned_row(start, account@).targets);
}

impl Ledger {
    /// Call off every leg that still waits for an account.
    pub fn abandon_account(&mut self, account_id: &str)
        ensures
            final(self)@ == abandoned(old(self)@, account_id@),
    {
        let ghost before = self@;
        let n: usize = self.posts.len();
        let mut i: usize = 0;
        while i < n
            invariant
                i <= n == before.len(),
                self.posts@.len() == n,
                forall|j: int|
                    0 <= j < i ==> row_of(#[trigger] self.posts@[j]) == abandoned_row(
                        before[j],
                        account_id@,
                    ),
                forall|j: int| i <= j < n ==> row_of(#[trigger] self.posts@[j]) == before[j],
            decreases n - i,
        {
            abandon_post(&mut self.posts[i], account_id);
            i = i + 1;
        }
        assert(self@ =~= abandoned(before, account_id@));
    }
}

/// No leg waits for an account that is gone, the legs of every other account are left
/// alone, and so is what a runner holds or has published.
pub proof fn a_gone_account_is_sent_nothing_more(r: PostRow, account: Seq<char>, i: int)
    requires
        0 <= i < r.targets.len(),
    ensures
        ({
            let after = abandoned_row(r, account);
            &&& lawful(r, after)
            &&& after.status == r.status
            &&& after.targets[i].social_account_id@ == account ==> after.targets[i].status
                != TargetStatus::Pending
            &&& r.targets[i].social_account_id@ != account ==> after.targets[i] == r.targets[i]
            &&& r.targets[i].status != TargetStatus::Pending ==> after.targets[i] == r.targets[i]
        }),
{
}

// ── Recovery at start-up ───────────────────────────────────────────────────────

/// What becomes of a post that a dead process left publishing.
pub open spec fn recovered_row(r: PostRow, now: i64) -> PostRow {
    if r.status != PostStatus::Publishing {
        r
    } else {
        match scheduler::recovery_of(r.targets) {
            Recovery::Requeue => if Move::Requeue(now).admits(r) {
                Move::Requeue(now).row_after(r)
            } else {
                r
            },
            Recovery::Settle(s) => Move::Settle(s).row_after(r),
        }
    }
}

/// How far a pass over the stranded posts has come: the rows, how many of them were
/// stranded, and how many were sent back and settled.
#[verifier::ext_equal]
pub struct Progress {
    pub rows: Seq<PostRow>,
    pub seen: nat,
    pub requeued: nat,
    pub settled: nat,
}

/// The pass over the first rows, as far as its limit on stranded posts goes.
pub open spec fn progress(rows: Seq<PostRow>, now: i64, limit: nat, n: int) -> Progress
    decreases n,
{
    if n <= 0 {
        Progress { rows, seen: 0, requeued: 0, settled: 0 }
    } else {
        let p = progress(rows, now, limit, n - 1);
        let r = rows[n - 1];
        if r.status != PostStatus::Publishing || p.seen >= limit {
            p
        } else {
            Progress {
                rows: p.rows.update(n - 1, recovered_row(r, now)),
                seen: p.seen + 1,
                requeued: p.requeued + (if recovered_row(r, now).status == PostStatus::Due {
                    1nat
                } else {
                    0nat
                }),
                settled: p.settled + (if scheduler::recovery_of(r.targets) is Settle {
                    1nat
                } else {
                    0nat
                }),
            }
        }
    }
}

proof fn lemma_progress_frame(rows: Seq<PostRow>, now: i64, limit: nat, n: int)
    requires
        0 <= n <= rows.len(),
    ensures
        progress(rows, now, limit, n).rows.len() == rows.len(),
        progress(rows, now, limit, n).seen <= n,
        progress(rows, now, limit, n).requeued <= n,
        progress(rows, now, limit, n).settled <= n,
        forall|j: int|
            n <= j < rows.len() ==> #[trigger] progress(rows, now, limit, n).rows[j] == rows[j],
        forall|j: int|
            0 <= j < n ==> #[trigger] progress(rows, now, limit, n).rows[j] == rows[j] || progress(
                rows,
                now,
                limit,
                n,
            ).rows[j] == recovered_row(rows[j], now),
    decreases n,
{
    if n > 0 {
        lemma_progress_frame(rows, now, limit, n - 1);
    }
}

/// The whole pass: the claims made so far are dead, and so are the posts left behind.
pub open spec fn recovery(rows: Seq<PostRow>, now: i64, limit: nat) -> Progress {
    let alive = reaped(rows, cutoff_of(now), now);
    progress(alive, now, limit, alive.len() as int)
}

/// Later than any claim made so far.
pub open spec fn cutoff_of(now: i64) -> i64 {
    if now == i64::MAX {
        now
    } else {
        (now + 1) as i64
    }
}

impl Ledger {
    /// Recover what a dead process left behind: return its claims, then send the posts
    /// it left publishing back to the queue, or settle those with nothing left to do.
    /// At most so many of them are looked at.
    pub fn recover_orphaned_work(&mut self, now: i64, limit: usize) -> (r: RecoveryReport)
        ensures
            final(self)@ == recovery(old(self)@, now, limit as nat).rows,
            r.reaped_targets == reaped_ids(old(self)@, cutoff_of(now)).len(),
            r.requeued_posts == recovery(old(self)@, now, limit as nat).requeued,
            r.settled_posts == recovery(old(self)@, now, limit as nat).settled,
    {
        let dead = self.reap_expired_claims(recovery_cutoff(now), now);
        assert(texts_of(dead@).len() == dead@.len());
        let ghost alive = self@;
        let mut report = RecoveryReport {
            reaped_targets: dead.len(),
            requeued_posts: 0,
            settled_posts: 0,
        };
        let n: usize = self.posts.len();
        let mut seen: usize = 0;
        let mut i: usize = 0;
        while i < n
            invariant
                i <= n == alive.len(),
                self.posts@.len() == n,
                self@ == progress(alive, now, limit as nat, i as int).rows,
                seen == progress(alive, now, limit as nat, i as int).seen,
                report.requeued_posts == progress(alive, now, limit as nat, i as int).requeued,
                report.settled_posts == progress(alive, now, limit as nat, i as int).settled,
                report.reaped_targets == dead@.len(),
            decreases n - i,
        {
            proof {
                lemma_progress_frame(alive, now, limit as nat, i as int);
                assert(self@[i as int] == row_of(self.posts@[i as int]));
                assert(self@[i as int] == alive[i as int]);
            }
            if self.posts[i].status == PostStatus::Publishing && seen < limit {
                let ghost r = row_of(self.posts@[i as int]);
                let what = recover_post(&self.posts[i]);
                let step: Move = match what {
                    Recovery::Requeue => Move::Requeue(now),
                    Recovery::Settle(s) => Move::Settle(s),
                };
                let done: bool = step.may_take(&self.posts[i]);
                if done {
                    step.change(&mut self.posts[i]);
                }
                report.record(what, done);
                seen = seen + 1;
                assert(row_of(self.posts@[i as int]) == recovered_row(r, now));
                assert(self@ =~= progress(alive, now, limit as nat, i as int + 1).rows);
            }
            i = i + 1;
        }
        report
    }
}

/// A pass moves every post lawfully: a leg that was published stays as it is.
pub proof fn recovery_is_lawful(r: PostRow, now: i64)
    ensures
        lawful(r, recovered_row(r, now)),
{
    publish::published_means_every_target(publish::target_statuses(r.targets));
}

/// How many posts are publishing.
pub open spec fn publishing_count(rows: Seq<PostRow>) -> nat
    decreases rows.len(),
{
    if rows.len() == 0 {
        0
    } else {
        publishing_count(rows.drop_last()) + (if rows.last().status == PostStatus::Publishing {
            1nat
        } else {
            0nat
        })
    }
}

proof fn lemma_publishing_prefix(rows: Seq<PostRow>, n: int)
    requires
        0 <= n <= rows.len(),
    ensures
        publishing_count(rows.take(n)) <= publishing_count(rows),
    decreases rows.len(),
{
    if n < rows.len() {
        assert(rows.drop_last().take(n) =~= rows.take(n));
        lemma_publishing_prefix(rows.drop_last(), n);
    } else {
        assert(rows.take(n) =~= rows);
    }
}

proof fn lemma_full_pass(rows: Seq<PostRow>, now: i64, limit: nat, n: int)
    requires
        0 <= n <= rows.len(),
        publishing_count(rows) <= limit,
    ensures
        progress(rows, now, limit, n).seen == publishing_count(rows.take(n)),
        forall|j: int|
            0 <= j < n ==> #[trigger] progress(rows, now, limit, n).rows[j] == recovered_row(
                rows[j],
                now,
            ),
    decreases n,
{
    if n > 0 {
        lemma_full_pass(rows, now, limit, n - 1);
        lemma_progress_frame(rows, now, limit, n - 1);
        lemma_publishing_prefix(rows, n);
        assert(rows.take(n).drop_last() =~= rows.take(n - 1));
        assert(rows.take(n).last() == rows[n - 1]);
    } else {
        assert(rows.take(0) =~= Seq::<PostRow>::empty());
    }
}

proof fn lemma_quiet_pass(rows: Seq<PostRow>, now: i64, limit: nat, n: int)
    requires
        0 <= n <= rows.len(),
        forall|j: int|
            0 <= j < rows.len() ==> (#[trigger] rows[j]).status == PostStatus::Publishing ==> (
            scheduler::recovery_of(rows[j].targets) is Requeue && held(rows[j].targets)),
    ensures
        progress(rows, now, limit, n).rows =~= rows,
        progress(rows, now, limit, n).requeued == 0,
        progress(rows, now, limit, n).settled == 0,
    decreases n,
{
    if n > 0 {
        lemma_quiet_pass(rows, now, limit, n - 1);
        assert(rows[n - 1].status == PostStatus::Publishing ==> scheduler::recovery_of(
            rows[n - 1].targets,
        ) is Requeue);
    }
}

proof fn lemma_recovered_row_rests(r: PostRow, now: i64)
    ensures
        ({
            let w = recovered_row(r, now);
            &&& w.status == PostStatus::Publishing ==> scheduler::recovery_of(w.targets) is Requeue
                && held(w.targets)
            &&& forall|i: int|
                0 <= i < r.targets.len() ==> (#[trigger] w.targets[i]).claimed_at
                    == r.targets[i].claimed_at && w.targets[i].status == r.targets[i].status
        }),
{
    publish::published_means_every_target(publish::target_statuses(r.targets));
}

/// Recovery is done in one pass: a second one finds nothing to do, where the first
/// had room for every stranded post.
pub proof fn recovering_again_finds_nothing(rows: Seq<PostRow>, now: i64, limit: nat)
    requires
        publishing_count(reaped(rows, cutoff_of(now), now)) <= limit,
    ensures
        ({
            let once = recovery(rows, now, limit).rows;
            &&& reaped_ids(once, cutoff_of(now)).len() == 0
            &&& recovery(once, now, limit).requeued == 0
            &&& recovery(once, now, limit).settled == 0
            &&& recovery(once, now, limit).rows == once
        }),
{
    let cutoff = cutoff_of(now);
    let alive = reaped(rows, cutoff, now);
    let n = alive.len() as int;
    let once = recovery(rows, now, limit).rows;
    lemma_full_pass(alive, now, limit, n);
    lemma_progress_frame(alive, now, limit, n);
    assert forall|k: int, i: int|
        0 <= k < once.len() && 0 <= i < (#[trigger] once[k]).targets.len() implies !expired(
        #[trigger] once[k].targets[i],
        cutoff,
    ) by {
        lemma_recovered_row_rests(alive[k], now);
        assert(once[k] == recovered_row(alive[k], now));
        assert(once[k].targets.len() == alive[k].targets.len());
        assert(alive[k].targets[i] == reaped_leg(rows[k].targets[i], cutoff, now));
    }
    lemma_reaped_rows(once, cutoff);
    assert forall|k: int| 0 <= k < once.len() implies #[trigger] reaped_row(once[k], cutoff, now)
        == once[k] by {
        assert forall|i: int| 0 <= i < once[k].targets.len() implies !expired(
            #[trigger] once[k].targets[i],
            cutoff,
        ) by {
            assert(0 <= k < once.len());
            assert(!expired(once[k].targets[i], cutoff));
        }
        lemma_nothing_expired(once[k].targets, cutoff);
        assert(reaped_legs(once[k].targets, cutoff, now) =~= once[k].targets);
    }
    let again = reaped(once, cutoff, now);
    assert(again =~= once);
    assert forall|j: int| 0 <= j < once.len() implies (#[trigger] once[j]).status
        != PostStatus::Publishing || (scheduler::recovery_of(once[j].targets) is Requeue && held(
        once[j].targets,
    )) by {
        lemma_recovered_row_rests(alive[j], now);
        assert(once[j] == recovered_row(alive[j], now));
    }
    lemma_quiet_pass(once, now, limit, n);
}

// ── The ledger row by row ──────────────────────────────────────────────────────

/// A move takes the first post with its id and no other; without one, or where its
/// guard does not admit that post, it changes nothing.
pub proof fn a_move_is_of_one_post(what: Move, rows: Seq<PostRow>, id: Seq<char>, k: int)
    ensures
        what.after(rows, id).len() == rows.len(),
        (forall|j: int| 0 <= j < rows.len() ==> (#[trigger] rows[j]).id@ != id) ==> !what.happens(
            rows,
            id,
        ) && what.after(rows, id) == rows,
        0 <= k < rows.len() && rows[k].id@ == id && (forall|j: int|
            0 <= j < k ==> (#[trigger] rows[j]).id@ != id) ==> {
            &&& what.happens(rows, id) <==> what.admits(rows[k])
            &&& what.admits(rows[k]) ==> what.after(rows, id)[k] == what.row_after(rows[k])
            &&& !what.admits(rows[k]) ==> what.after(rows, id)[k] == rows[k]
            &&& forall|j: int|
                0 <= j < rows.len() && j != k ==> #[trigger] what.after(rows, id)[j] == rows[j]
        },
{
    lemma_post_at(rows, id);
    if 0 <= k < rows.len() && rows[k].id@ == id && (forall|j: int|
        0 <= j < k ==> (#[trigger] rows[j]).id@ != id) {
        lemma_found(rows, id, k);
    }
}

/// Which posts a move admits, and where it leaves them: a runner takes a due post and
/// settles a publishing one; a publishing post goes back only when no runner holds a
/// leg of it; a retry is of what ended partial or failed; a user moves or hastens what
/// is scheduled, and calls off what is scheduled or due.
pub proof fn a_move_goes_by_the_status(r: PostRow, at: i64, s: PostStatus)
    ensures
        Move::Take.admits(r) <==> r.status == PostStatus::Due,
        Move::Settle(s).admits(r) <==> r.status == PostStatus::Publishing,
        Move::Requeue(at).admits(r) <==> r.status == PostStatus::Publishing && forall|i: int|
            0 <= i < r.targets.len() ==> (#[trigger] r.targets[i]).status
                != TargetStatus::Publishing,
        Move::Retry(at).admits(r) <==> r.status == PostStatus::Partial || r.status
            == PostStatus::Failed,
        Move::DueNow(at).admits(r) <==> r.status == PostStatus::Scheduled,
        Move::Reschedule(at).admits(r) <==> r.status == PostStatus::Scheduled,
        Move::Cancel.admits(r) <==> r.status == PostStatus::Scheduled || r.status
            == PostStatus::Due,
        Move::Take.row_after(r).status == PostStatus::Publishing,
        Move::Settle(s).row_after(r).status == s,
        Move::Requeue(at).row_after(r).status == PostStatus::Due,
        Move::Retry(at).row_after(r).status == PostStatus::Due,
        Move::DueNow(at).row_after(r).status == PostStatus::Due,
        Move::Reschedule(at).row_after(r).status == PostStatus::Scheduled,
        Move::Cancel.row_after(r).status == PostStatus::Cancelled,
{
}

/// Only a user's choice of another time changes a post's time; and no move changes what
/// post it is.
pub proof fn a_time_is_changed_only_on_request(what: Move, r: PostRow, at: i64)
    ensures
        Move::DueNow(at).row_after(r).scheduled_for == at,
        Move::Reschedule(at).row_after(r).scheduled_for == at,
        !(what is DueNow) && !(what is Reschedule) ==> what.row_after(r).scheduled_for
            == r.scheduled_for,
        what.row_after(r).id == r.id,
        what.row_after(r).workspace_id == r.workspace_id,
        what.row_after(r).draft_id == r.draft_id,
        what.row_after(r).created_at == r.created_at,
        what.row_after(r).targets.len() == r.targets.len(),
{
}

/// What a move makes of a leg: going back plans the pending ones for now, calling off
/// cancels the pending ones, and nothing but a retry touches any other. Whatever it
/// does, the leg's account, platform and own body stay.
pub proof fn a_move_touches_only_its_legs(what: Move, r: PostRow, at: i64, i: int)
    requires
        0 <= i < r.targets.len(),
    ensures
        ({
            let t = r.targets[i];
            let gone_back = Move::Requeue(at).row_after(r).targets[i];
            let called_off = Move::Cancel.row_after(r).targets[i];
            let moved = what.row_after(r).targets[i];
            &&& t.status == TargetStatus::Pending ==> {
                &&& gone_back.status == TargetStatus::Pending
                &&& gone_back.next_attempt_at == Some(at)
                &&& gone_back.attempts == t.attempts
                &&& gone_back.claimed_at == t.claimed_at
                &&& called_off.status == TargetStatus::Cancelled
                &&& called_off.attempts == t.attempts
            }
            &&& t.status != TargetStatus::Pending ==> gone_back == t && called_off == t
            &&& what is Take || what is Settle || what is DueNow || what is Reschedule ==> moved == t
            &&& moved.id == t.id && moved.scheduled_post_id == t.scheduled_post_id
                && moved.social_account_id == t.social_account_id && moved.platform == t.platform
                && moved.variant_body == t.variant_body
        }),
{
}

/// A sweep claims the scheduled post whose time came first, and of several the first
/// in the ledger; it is then due, and every other row stays as it is. With nothing
/// scheduled whose time has come it claims nothing.
pub proof fn a_sweep_claims_the_earliest_first(rows: Seq<PostRow>, now: i64, k: int)
    requires
        0 <= k < rows.len(),
        rows[k].status == PostStatus::Scheduled,
        rows[k].scheduled_for <= now,
        forall|j: int|
            0 <= j < rows.len() && (#[trigger] rows[j]).status == PostStatus::Scheduled
                && rows[j].scheduled_for <= now ==> rows[k].scheduled_for < rows[j].scheduled_for
                || (rows[k].scheduled_for == rows[j].scheduled_for && k <= j),
    ensures
        sweep(rows, now, 1).1 == seq![rows[k].id@],
        sweep(rows, now, 1).0 == rows.update(
            k,
            PostRow { status: PostStatus::Due, ..rows[k] },
        ),
{
    lemma_earliest_first(rows, now);
    lemma_earliest(rows, now);
    let e = earliest(rows, now)->0;
    assert(ready(rows[k], now));
    assert(rows[e].status == PostStatus::Scheduled);
    assert(e == k);
    let next = rows.update(k, rows[k].with_status(PostStatus::Due));
    assert(sweep(next, now, 0).1 =~= Seq::<Seq<char>>::empty());
    assert(sweep(rows, now, 1).1 =~= seq![rows[k].id@]);
}

proof fn lemma_earliest_first(rows: Seq<PostRow>, now: i64)
    ensures
        earliest(rows, now) matches Some(k) ==> forall|j: int|
            0 <= j < k && ready(#[trigger] rows[j], now) ==> rows[k].scheduled_for
                < rows[j].scheduled_for,
    decreases rows.len(),
{
    if rows.len() > 0 {
        let rest = rows.drop_last();
        lemma_earliest_first(rest, now);
        lemma_earliest(rest, now);
        assert forall|j: int| 0 <= j < rest.len() implies #[trigger] rows[j] == rest[j] by {}
    }
}

/// A sweep that finds no scheduled post whose time has come changes nothing.
pub proof fn a_sweep_waits_for_the_time(rows: Seq<PostRow>, now: i64, limit: nat)
    requires
        forall|j: int|
            0 <= j < rows.len() ==> (#[trigger] rows[j]).status != PostStatus::Scheduled
                || rows[j].scheduled_for > now,
    ensures
        sweep(rows, now, limit).0 == rows,
        sweep(rows, now, limit).1.len() == 0,
{
    lemma_earliest(rows, now);
}

/// A leg is found as the first in the ledger with its id.
pub proof fn the_first_leg_is_found(rows: Seq<PostRow>, id: Seq<char>, k: int, j: int)
    requires
        0 <= k < rows.len(),
        0 <= j < rows[k].targets.len(),
        rows[k].targets[j].id@ == id,
        forall|b: int| 0 <= b < j ==> (#[trigger] rows[k].targets[b]).id@ != id,
        forall|a: int, b: int|
            0 <= a < k && 0 <= b < rows[a].targets.len() ==> (
            #[trigger] rows[a].targets[b]).id@ != id,
    ensures
        leg_in(rows, id) == Some((k, j)),
{
    let upto = rows.take(k + 1);
    assert(upto.drop_last() =~= rows.take(k));
    assert(upto.last() == rows[k]);
    lemma_no_leg(rows.take(k), id);
    let legs = rows[k].targets;
    let head = legs.take(j + 1);
    assert(head.drop_last() =~= legs.take(j));
    assert(head.last() == legs[j]);
    assert forall|b: int| 0 <= b < legs.take(j).len() implies (#[trigger] legs.take(j)[b]).id@
        != id by {
        assert(legs.take(j)[b] == rows[k].targets[b]);
    }
    lemma_no_leg_at(legs.take(j), id);
    lemma_leg_at(legs, id, j + 1);
    lemma_leg_in(rows, id, k + 1);
}

proof fn lemma_no_leg_at(targets: Seq<PostTarget>, id: Seq<char>)
    requires
        forall|b: int| 0 <= b < targets.len() ==> (#[trigger] targets[b]).id@ != id,
    ensures
        leg_at(targets, id) is None,
    decreases targets.len(),
{
    lemma_leg_within(targets, id);
}

proof fn lemma_no_leg(rows: Seq<PostRow>, id: Seq<char>)
    requires
        forall|a: int, b: int|
            0 <= a < rows.len() && 0 <= b < rows[a].targets.len() ==> (
            #[trigger] rows[a].targets[b]).id@ != id,
    ensures
        leg_in(rows, id) is None,
{
    lemma_leg_there(rows, id);
}

/// A claim makes a pending leg its runner's, from now on; no other field of it, and no
/// other leg, is touched. A leg that is not pending is not claimed.
pub proof fn a_claim_takes_one_pending_leg(
    rows: Seq<PostRow>,
    id: Seq<char>,
    now: i64,
    k: int,
    j: int,
    a: int,
    b: int,
)
    requires
        leg_in(rows, id) == Some((k, j)),
        0 <= a < rows.len(),
        0 <= b < rows[a].targets.len(),
    ensures
        ({
            let after = leg_claimed(rows, id, now);
            let t = rows[k].targets[j];
            let u = after[k].targets[j];
            &&& after.len() == rows.len()
            &&& after[a].status == rows[a].status && after[a].id == rows[a].id
                && after[a].scheduled_for == rows[a].scheduled_for
            &&& after[a].targets.len() == rows[a].targets.len()
            &&& (a, b) != (k, j) ==> after[a].targets[b] == rows[a].targets[b]
            &&& t.status != TargetStatus::Pending ==> u == t
            &&& t.status == TargetStatus::Pending ==> {
                &&& u.status == TargetStatus::Publishing
                &&& u.claimed_at == Some(now)
                &&& u.attempts == t.attempts
                &&& u.next_attempt_at == t.next_attempt_at
                &&& u.id == t.id && u.social_account_id == t.social_account_id && u.platform
                    == t.platform && u.variant_body == t.variant_body
            }
        }),
{
    lemma_leg_there(rows, id);
}

/// What a run came to is written into its leg: the status, the attempts and the next
/// try as given; nobody holds the leg any more. No other leg is touched.
pub proof fn an_end_is_written_into_one_leg(
    rows: Seq<PostRow>,
    id: Seq<char>,
    status: TargetStatus,
    attempts: u32,
    next: Option<i64>,
    k: int,
    j: int,
    a: int,
    b: int,
)
    requires
        leg_in(rows, id) == Some((k, j)),
        0 <= a < rows.len(),
        0 <= b < rows[a].targets.len(),
    ensures
        ({
            let after = leg_settled(rows, id, status, attempts, next);
            let t = rows[k].targets[j];
            let u = after[k].targets[j];
            &&& after.len() == rows.len()
            &&& after[a].status == rows[a].status && after[a].id == rows[a].id
                && after[a].scheduled_for == rows[a].scheduled_for
            &&& after[a].targets.len() == rows[a].targets.len()
            &&& (a, b) != (k, j) ==> after[a].targets[b] == rows[a].targets[b]
            &&& u.status == status
            &&& u.attempts == attempts
            &&& u.next_attempt_at == next
            &&& u.claimed_at is None
            &&& u.id == t.id && u.social_account_id == t.social_account_id && u.platform
                == t.platform && u.variant_body == t.variant_body
        }),
{
    lemma_leg_there(rows, id);
}

/// The end of a run is written down as the run reports it, and leaves nothing to wait
/// for.
pub proof fn an_end_leaves_nothing_to_wait_for(
    rows: Seq<PostRow>,
    id: Seq<char>,
    end: SettlementView,
    k: int,
    j: int,
)
    requires
        leg_in(rows, id) == Some((k, j)),
    ensures
        leg_ended(rows, id, end)[k].targets[j].status == end.status,
        leg_ended(rows, id, end)[k].targets[j].attempts == end.attempts,
        leg_ended(rows, id, end)[k].targets[j].next_attempt_at is None,
        leg_ended(rows, id, end)[k].targets[j].claimed_at is None,
{
    lemma_leg_there(rows, id);
}

/// The reaper takes exactly the legs that a runner has held since before the cutoff:
/// each waits again, from now on, with the attempts it had. Every other leg stays as it
/// is. Their post goes back to the queue exactly when it was publishing, one of its
/// legs was taken, and no runner holds another.
pub proof fn a_dead_claim_is_taken_back(r: PostRow, cutoff: i64, now: i64, i: int)
    requires
        0 <= i < r.targets.len(),
    ensures
        ({
            let after = reaped_row(r, cutoff, now);
            let t = r.targets[i];
            let u = after.targets[i];
            let dead = t.status == TargetStatus::Publishing && t.claimed_at is Some
                && t.claimed_at->0 < cutoff;
            &&& after.targets.len() == r.targets.len()
            &&& !dead ==> u == t
            &&& dead ==> {
                &&& u.status == TargetStatus::Pending
                &&& u.next_attempt_at == Some(now)
                &&& u.claimed_at is None
                &&& u.attempts == t.attempts
                &&& u.id == t.id && u.social_account_id == t.social_account_id && u.platform
                    == t.platform && u.variant_body == t.variant_body
            }
            &&& dead && r.status == PostStatus::Publishing && (forall|j: int|
                0 <= j < r.targets.len() && (#[trigger] r.targets[j]).status
                    == TargetStatus::Publishing ==> r.targets[j].claimed_at is Some
                    && r.targets[j].claimed_at->0 < cutoff) ==> after.status == PostStatus::Due
            &&& after.status != r.status ==> {
                &&& r.status == PostStatus::Publishing
                &&& after.status == PostStatus::Due
                &&& forall|j: int|
                    0 <= j < after.targets.len() ==> (#[trigger] after.targets[j]).status
                        != TargetStatus::Publishing
                &&& exists|j: int|
                    0 <= j < r.targets.len() && (#[trigger] r.targets[j]).status
                        == TargetStatus::Publishing && r.targets[j].claimed_at is Some
                        && r.targets[j].claimed_at->0 < cutoff
            }
            &&& after.id == r.id && after.scheduled_for == r.scheduled_for
        }),
{
    let after = reaped_row(r, cutoff, now);
    let t = r.targets[i];
    if t.status == TargetStatus::Publishing && t.claimed_at is Some && t.claimed_at->0 < cutoff {
        assert(expired(r.targets[i], cutoff));
    }
    if r.status == PostStatus::Publishing && (forall|j: int|
        0 <= j < r.targets.len() && (#[trigger] r.targets[j]).status == TargetStatus::Publishing
            ==> r.targets[j].claimed_at is Some && r.targets[j].claimed_at->0 < cutoff) {
        assert forall|j: int| 0 <= j < after.targets.len() implies (#[trigger] after.targets[j]).status
            != TargetStatus::Publishing by {
            assert(after.targets[j] == reaped_leg(r.targets[j], cutoff, now));
            assert(r.targets[j].status == TargetStatus::Publishing ==> expired(
                r.targets[j],
                cutoff,
            ));
        }
    }
    if after.status != r.status {
        let j = choose|j: int| 0 <= j < r.targets.len() && expired(#[trigger] r.targets[j], cutoff);
        assert(r.targets[j].status == TargetStatus::Publishing);
    }
}

/// The reaper tells the ids of the legs it took, and of no others.
pub proof fn the_reaper_names_what_it_took(rows: Seq<PostRow>, cutoff: i64, id: Seq<char>)
    ensures
        reaped_ids(rows, cutoff).contains(id) <==> exists|k: int, j: int|
            0 <= k < rows.len() && 0 <= j < rows[k].targets.len() && (
            #[trigger] rows[k].targets[j]).id@ == id && rows[k].targets[j].status
                == TargetStatus::Publishing && rows[k].targets[j].claimed_at is Some
                && rows[k].targets[j].claimed_at->0 < cutoff,
    decreases rows.len(),
{
    if rows.len() > 0 {
        let rest = rows.drop_last();
        let last = rows.last();
        let a = reaped_ids(rest, cutoff);
        let b = expired_ids(last.targets, cutoff);
        let all = reaped_ids(rows, cutoff);
        the_reaper_names_what_it_took(rest, cutoff, id);
        lemma_expired_named(last.targets, cutoff, id);
        assert(rows[rows.len() - 1] == last);
        if all.contains(id) {
            let i = choose|i: int| 0 <= i < all.len() && all[i] == id;
            if i < a.len() {
                assert(a[i] == id);
                let (k, j) = choose|k: int, j: int|
                    0 <= k < rest.len() && 0 <= j < rest[k].targets.len() && (
                    #[trigger] rest[k].targets[j]).id@ == id && rest[k].targets[j].status
                        == TargetStatus::Publishing && rest[k].targets[j].claimed_at is Some
                        && rest[k].targets[j].claimed_at->0 < cutoff;
                assert(rows[k].targets[j] == rest[k].targets[j]);
            } else {
                assert(b[i - a.len()] == id);
                let j = choose|j: int|
                    0 <= j < last.targets.len() && (#[trigger] last.targets[j]).id@ == id
                        && expired(last.targets[j], cutoff);
                assert(rows[rows.len() - 1].targets[j].id@ == id);
            }
        }
        if exists|k: int, j: int|
            0 <= k < rows.len() && 0 <= j < rows[k].targets.len() && (
            #[trigger] rows[k].targets[j]).id@ == id && rows[k].targets[j].status
                == TargetStatus::Publishing && rows[k].targets[j].claimed_at is Some
                && rows[k].targets[j].claimed_at->0 < cutoff {
            let (k, j) = choose|k: int, j: int|
                0 <= k < rows.len() && 0 <= j < rows[k].targets.len() && (
                #[trigger] rows[k].targets[j]).id@ == id && rows[k].targets[j].status
                    == TargetStatus::Publishing && rows[k].targets[j].claimed_at is Some
                    && rows[k].targets[j].claimed_at->0 < cutoff;
            if k < rest.len() {
                assert(rest[k].targets[j] == rows[k].targets[j]);
                let i = choose|i: int| 0 <= i < a.len() && a[i] == id;
                assert(all[i] == id);
            } else {
                assert(last.targets[j].id@ == id && expired(last.targets[j], cutoff));
                let i = choose|i: int| 0 <= i < b.len() && b[i] == id;
                assert(all[a.len() + i] == id);
            }
        }
    }
}

proof fn lemma_expired_named(targets: Seq<PostTarget>, cutoff: i64, id: Seq<char>)
    ensures
        expired_ids(targets, cutoff).contains(id) <==> exists|j: int|
            0 <= j < targets.len() && (#[trigger] targets[j]).id@ == id && expired(
                targets[j],
                cutoff,
            ),
    decreases targets.len(),
{
    if targets.len() > 0 {
        let init = targets.drop_last();
        let a = expired_ids(init, cutoff);
        let all = expired_ids(targets, cutoff);
        lemma_expired_named(init, cutoff, id);
        assert(targets[targets.len() - 1] == targets.last());
        if all.contains(id) {
            let i = choose|i: int| 0 <= i < all.len() && all[i] == id;
            if i < a.len() {
                assert(a[i] == id);
                let j = choose|j: int|
                    0 <= j < init.len() && (#[trigger] init[j]).id@ == id && expired(
                        init[j],
                        cutoff,
                    );
                assert(targets[j] == init[j]);
            }
        }
        if exists|j: int|
            0 <= j < targets.len() && (#[trigger] targets[j]).id@ == id && expired(
                targets[j],
                cutoff,
            ) {
            let j = choose|j: int|
                0 <= j < targets.len() && (#[trigger] targets[j]).id@ == id && expired(
                    targets[j],
                    cutoff,
                );
            if j < init.len() {
                assert(init[j] == targets[j]);
                let i = choose|i: int| 0 <= i < a.len() && a[i] == id;
                assert(all[i] == id);
            } else {
                assert(all[a.len() as int] == id);
            }
        }
    }
}

/// The due posts stand in line by their time, the earliest first; there are as many as
/// are due, up to the limit, and what is left out is no earlier than what is in.
pub proof fn the_line_goes_by_the_time(rows: Seq<PostRow>, limit: nat)
    ensures
        ({
            let line = line_of(rows, limit);
            let due = rows.filter(|r: PostRow| r.status == PostStatus::Due);
            &&& line.len() == (if limit < due.len() {
                limit
            } else {
                due.len()
            })
            &&& forall|i: int, j: int|
                0 <= i < j < line.len() ==> (#[trigger] line[i]).scheduled_for <= (
                #[trigger] line[j]).scheduled_for
            &&& forall|i: int|
                0 <= i < rows.len() && (#[trigger] rows[i]).status == PostStatus::Due ==> {
                    ||| exists|j: int|
                        0 <= j < line.len() && (#[trigger] line[j]).id == rows[i].id
                            && line[j].workspace_id == rows[i].workspace_id && line[j].scheduled_for
                            == rows[i].scheduled_for
                    ||| line.len() == limit && forall|j: int|
                        0 <= j < line.len() ==> (#[trigger] line[j]).scheduled_for
                            <= rows[i].scheduled_for
                }
        }),
{
    broadcast use vstd::seq_lib::group_to_multiset_ensures;

    let due = due_of(rows);
    let all = rank::ranked(due);
    let line = line_of(rows, limit);
    rank::lemma_ranked(due);
    lemma_due_count(rows);
    assert forall|j: int| 0 <= j < line.len() implies #[trigger] line[j] == all[j] by {}
    assert forall|i: int, j: int| 0 <= i < j < line.len() implies (
    #[trigger] line[i]).scheduled_for <= (#[trigger] line[j]).scheduled_for by {
        assert(all[i].le(all[j]));
    }
    assert forall|i: int| 0 <= i < rows.len() && (#[trigger] rows[i]).status == PostStatus::Due implies {
        ||| exists|j: int|
            0 <= j < line.len() && (#[trigger] line[j]).id == rows[i].id && line[j].workspace_id
                == rows[i].workspace_id && line[j].scheduled_for == rows[i].scheduled_for
        ||| line.len() == limit && forall|j: int|
            0 <= j < line.len() ==> (#[trigger] line[j]).scheduled_for <= rows[i].scheduled_for
    } by {
        lemma_due(rows, i);
        let e = DuePost {
            id: rows[i].id,
            workspace_id: rows[i].workspace_id,
            scheduled_for: rows[i].scheduled_for,
        };
        assert(due.to_multiset().contains(e));
        assert(all.contains(e));
        let k = choose|k: int| 0 <= k < all.len() && all[k] == e;
        if k < line.len() {
            assert(line[k].id == rows[i].id);
        } else {
            assert forall|j: int| 0 <= j < line.len() implies (#[trigger] line[j]).scheduled_for
                <= rows[i].scheduled_for by {
                assert(all[j].le(all[k]));
            }
        }
    }
}

proof fn lemma_due_count(rows: Seq<PostRow>)
    ensures
        due_of(rows).len() == rows.filter(|r: PostRow| r.status == PostStatus::Due).len(),
    decreases rows.len(),
{
    reveal(Seq::filter);
    if rows.len() > 0 {
        lemma_due_count(rows.drop_last());
    }
}

/// A sweep first takes back what has been held for longer than the lease, and then
/// claims what has come due, as much as its batch; nothing while every scheduler is
/// off.
pub proof fn a_tick_reaps_and_then_claims(
    rows: Seq<PostRow>,
    now: i64,
    policy: PolicyView,
    batch: nat,
)
    requires
        now - policy.lease_ms >= i64::MIN,
    ensures
        policy.enabled.len() == 0 ==> ticked(rows, now, policy, batch) == (
            reaped(rows, (now - policy.lease_ms) as i64, now),
            Seq::<Seq<char>>::empty(),
        ),
        policy.enabled.len() > 0 ==> ticked(rows, now, policy, batch) == sweep(
            reaped(rows, (now - policy.lease_ms) as i64, now),
            now,
            batch,
        ),
        reaped(rows, (now - policy.lease_ms) as i64, now).len() == rows.len(),
        forall|k: int|
            0 <= k < rows.len() ==> #[trigger] reaped(
                rows,
                (now - policy.lease_ms) as i64,
                now,
            )[k] == reaped_row(rows[k], (now - policy.lease_ms) as i64, now),
{
}

/// At start-up a post left publishing goes back to the queue where one of its targets is
/// pending and none is held, with the pending ones planned for now; where none is
/// pending it is settled as its targets ended; any other post stays as it is.
pub proof fn a_stranded_post_is_sent_back_or_settled(r: PostRow, now: i64)
    ensures
        ({
            let w = recovered_row(r, now);
            let pending = exists|i: int|
                0 <= i < r.targets.len() && (#[trigger] r.targets[i]).status
                    == TargetStatus::Pending;
            let held_one = exists|i: int|
                0 <= i < r.targets.len() && (#[trigger] r.targets[i]).status
                    == TargetStatus::Publishing;
            &&& r.status != PostStatus::Publishing ==> w == r
            &&& r.status == PostStatus::Publishing && pending && !held_one ==> w.status
                == PostStatus::Due && forall|i: int|
                0 <= i < r.targets.len() ==> (#[trigger] w.targets[i]).status
                    == r.targets[i].status && (r.targets[i].status == TargetStatus::Pending
                    ==> w.targets[i].next_attempt_at == Some(now)) && (r.targets[i].status
                    != TargetStatus::Pending ==> w.targets[i] == r.targets[i])
            &&& r.status == PostStatus::Publishing && pending && held_one ==> w == r
            &&& r.status == PostStatus::Publishing && !pending ==> w.targets == r.targets
                && w.status == publish::aggregate(publish::target_statuses(r.targets))
        }),
{
    let w = recovered_row(r, now);
    scheduler::a_stranded_post_goes_on_where_it_may(r.targets);
    if r.status == PostStatus::Publishing && scheduler::recovery_of(r.targets) is Settle {
        assert(w.targets =~= r.targets);
    }
}

/// At start-up every claim made up to now is dead, and each post left publishing is
/// looked at, where the limit has room for all of them; the report counts those sent
/// back and those settled.
pub proof fn a_recovery_looks_at_every_stranded_post(rows: Seq<PostRow>, now: i64, limit: nat, k: int)
    requires
        now < i64::MAX,
        0 <= k < rows.len(),
        rows.len() <= limit,
    ensures
        recovery(rows, now, limit).rows.len() == rows.len(),
        recovery(rows, now, limit).rows[k] == recovered_row(
            reaped_row(rows[k], (now + 1) as i64, now),
            now,
        ),
{
    let alive = reaped(rows, cutoff_of(now), now);
    lemma_publishing_bound(alive);
    lemma_full_pass(alive, now, limit, alive.len() as int);
    lemma_progress_frame(alive, now, limit, alive.len() as int);
    assert(alive[k] == reaped_row(rows[k], cutoff_of(now), now));
}

proof fn lemma_publishing_bound(rows: Seq<PostRow>)
    ensures
        publishing_count(rows) <= rows.len(),
    decreases rows.len(),
{
    if rows.len() > 0 {
        lemma_publishing_bound(rows.drop_last());
    }
}

/// A leg that waits for an account that goes is cancelled, and nothing else of it, or of
/// any other leg, changes.
pub proof fn only_waiting_legs_are_abandoned(r: PostRow, account: Seq<char>, i: int)
    requires
        0 <= i < r.targets.len(),
    ensures
        ({
            let t = r.targets[i];
            let u = abandoned_row(r, account).targets[i];
            &&& t.social_account_id@ == account && t.status == TargetStatus::Pending ==> u.status
                == TargetStatus::Cancelled && u.attempts == t.attempts && u.id == t.id
                && u.social_account_id == t.social_account_id
            &&& t.social_account_id@ != account || t.status != TargetStatus::Pending ==> u == t
        }),
{
}

} // verus!
