//! Reading a published post's counts back: what is asked, what is stored, and which
//! posts one pass over a workspace asks about.
use vstd::prelude::*;
use crate::analytics;
use crate::analytics::or_zero;
use crate::error::{ApiError, ApiResult, ErrorView};
use crate::ids;
use crate::ids::{new_id, ID_ACTIVITY};
use crate::lists::has_string;
use crate::platform::{Platform, PlatformCapabilities};
use crate::providers::types::RemotePostRef;
use crate::records::{
    ActivityItem, Draft, EngagementCounts, PostHistoryEntry, PostTarget, ScheduledPost,
};
use crate::status::HistoryStatus;
use crate::text;
use crate::text::solid_text;

verus! {

/// A reading younger than this is not repeated: half an hour.
pub const MIN_REFRESH_AGE_MS: i64 = 1_800_000;

/// The pause between two calls of one pass.
pub const BATCH_PACE_MS: u64 = 250;

/// How many history rows one pass looks through.
pub const HISTORY_WINDOW: usize = 500;

// ── One post ───────────────────────────────────────────────────────────────────

/// The platform's id of what a history row published, if it reached the platform.
pub fn remote_id_of(entry: &PostHistoryEntry) -> (r: Option<String>)
    ensures
        text::opt_text(r) == text::solid(text::opt_text(entry.remote_id)),
{
    match &entry.remote_id {
        Some(id) => solid_text(id.as_str()),
        None => None,
    }
}

/// Why counts cannot be asked for, if so.
pub open spec fn refresh_fault(
    remote: Option<Seq<char>>,
    target: Option<Platform>,
    post_found: bool,
    caps: PlatformCapabilities,
) -> Option<ErrorView> {
    if text::solid(remote) is None {
        Some(
            ErrorView::Conflict(
                "this publish never reached the platform, so it has no metrics"@,
            ),
        )
    } else if target is None {
        Some(ErrorView::NotFound("post target"@))
    } else if !post_found {
        Some(ErrorView::NotFound("scheduled post"@))
    } else if !caps.read_engagement {
        Some(
            ErrorView::Conflict(
                "reading engagement on "@ + target->0.label_text()
                    + " is not supported by the configured provider"@,
            ),
        )
    } else {
        None
    }
}

/// What a provider is asked about: the published post, unless it never reached the
/// platform, its rows are gone, or the provider cannot read counts.
pub fn engagement_ref(
    entry: &PostHistoryEntry,
    target: Option<&PostTarget>,
    post: Option<&ScheduledPost>,
    caps: &PlatformCapabilities,
) -> (r: ApiResult<RemotePostRef>)
    ensures
        ({
            let platform = match target {
                Some(t) => Some(t.platform),
                None => None,
            };
            match refresh_fault(text::opt_text(entry.remote_id), platform, post is Some, *caps) {
                Some(e) => r is Err && r->Err_0@ == e,
                None => {
                    &&& r is Ok
                    &&& r->Ok_0.platform == platform->0
                    &&& Some(r->Ok_0.remote_id@) == text::solid(text::opt_text(entry.remote_id))
                    &&& text::opt_text(r->Ok_0.remote_url) == text::opt_text(entry.remote_url)
                },
            }
        }),
{
    let remote_id = match remote_id_of(entry) {
        Some(id) => id,
        None => {
            return Err(
                ApiError::conflict("this publish never reached the platform, so it has no metrics"),
            );
        },
    };
    let target = match target {
        Some(t) => t,
        None => {
            return Err(ApiError::not_found("post target"));
        },
    };
    if post.is_none() {
        return Err(ApiError::not_found("scheduled post"));
    }
    if !caps.read_engagement {
        let mut m: String = "reading engagement on ".to_owned();
        m.append(target.platform.label());
        m.append(" is not supported by the configured provider");
        return Err(ApiError::Conflict(m));
    }
    Ok(
        RemotePostRef {
            platform: target.platform,
            remote_id,
            remote_url: entry.remote_url.clone(),
        },
    )
}

/// The text that was published: that of the target's own body where it has one, else the
/// draft's; none where that body has none. A target's own body stands in for the whole
/// draft, so one without text published none.
pub open spec fn published_text_of(variant: Option<Seq<char>>, draft: Option<Seq<char>>) -> Option<
    Seq<char>,
> {
    if variant is Some {
        text::solid(variant)
    } else {
        text::solid(draft)
    }
}

pub open spec fn variant_text(target: PostTarget) -> Option<Seq<char>> {
    match target.variant_body {
        Some(b) => Some(b.text@),
        None => None,
    }
}

pub open spec fn draft_text(draft: Option<&Draft>) -> Option<Seq<char>> {
    match draft {
        Some(d) => Some(d.body.text@),
        None => None,
    }
}

pub fn published_text(target: &PostTarget, draft: Option<&Draft>) -> (r: Option<String>)
    ensures
        text::opt_text(r) == published_text_of(variant_text(*target), draft_text(draft)),
{
    if let Some(body) = &target.variant_body {
        return solid_text(body.text.as_str());
    }
    match draft {
        Some(d) => solid_text(d.body.text.as_str()),
        None => None,
    }
}

/// What a reading of counts is stored as.
pub open spec fn snapshot_shows(
    item: ActivityItem,
    asked: RemotePostRef,
    entry: PostHistoryEntry,
    target: PostTarget,
    post: ScheduledPost,
    draft: Option<&Draft>,
    counts: EngagementCounts,
) -> bool {
    &&& item.workspace_id@ == post.workspace_id@
    &&& item.social_account_id@ == target.social_account_id@
    &&& item.platform == target.platform
    &&& item.post_remote_id@ == asked.remote_id@
    &&& text::opt_text(item.permalink) == text::opt_text(entry.remote_url)
    &&& text::opt_text(item.text) == published_text_of(variant_text(target), draft_text(draft))
    &&& item.likes == analytics::reported(counts.likes)
    &&& item.comments == analytics::reported(counts.comments)
    &&& item.shares == analytics::reported(counts.shares)
    &&& item.views == analytics::reported(counts.views)
    &&& item.engagement_fetched_at == Some(counts.fetched_at)
    &&& item.published_at == entry.published_at
}

/// The row to store after the provider's answer. Its id is fresh, and used only where
/// no row of the same remote post is stored yet.
pub fn snapshot(
    asked: &RemotePostRef,
    entry: &PostHistoryEntry,
    target: &PostTarget,
    post: &ScheduledPost,
    draft: Option<&Draft>,
    answer: Result<EngagementCounts, String>,
) -> (r: ApiResult<ActivityItem>)
    ensures
        match answer {
            Ok(counts) => {
                &&& r is Ok
                &&& snapshot_shows(r->Ok_0, *asked, *entry, *target, *post, draft, counts)
                &&& ids::made_id(r->Ok_0.id@, ID_ACTIVITY@)
            },
            Err(e) => r is Err && r->Err_0@ == ErrorView::Upstream(e@),
        },
{
    let counts = match answer {
        Ok(c) => c,
        Err(e) => {
            return Err(ApiError::Upstream(e));
        },
    };
    Ok(
        ActivityItem {
            id: new_id(ID_ACTIVITY),
            workspace_id: post.workspace_id.clone(),
            social_account_id: target.social_account_id.clone(),
            platform: target.platform,
            post_remote_id: asked.remote_id.clone(),
            permalink: entry.remote_url.clone(),
            text: published_text(target, draft),
            likes: or_zero(counts.likes),
            comments: or_zero(counts.comments),
            shares: or_zero(counts.shares),
            views: or_zero(counts.views),
            engagement_fetched_at: Some(counts.fetched_at),
            published_at: entry.published_at,
        },
    )
}

// ── One pass over a workspace ──────────────────────────────────────────────────

/// What one pass did.
#[derive(Debug, PartialEq, Eq)]
pub struct EngagementRefreshSummary {
    /// Published posts considered.
    pub considered: usize,
    /// Calls made to providers, whatever came of them.
    pub refreshed: usize,
    /// Left alone: read a short while ago, or seen already in this pass.
    pub skipped: usize,
    pub errors: Vec<String>,
}

impl Default for EngagementRefreshSummary {
    fn default() -> (r: Self)
        ensures
            r.considered == 0,
            r.refreshed == 0,
            r.skipped == 0,
            r.errors@.len() == 0,
    {
        EngagementRefreshSummary { considered: 0, refreshed: 0, skipped: 0, errors: Vec::new() }
    }
}

/// A pass under way.
#[derive(Debug)]
pub struct RefreshPass {
    pub limit: usize,
    /// The remote posts met so far.
    pub seen: Vec<String>,
    pub summary: EngagementRefreshSummary,
}

#[verifier::ext_equal]
pub struct PassView {
    pub limit: nat,
    pub seen: Seq<Seq<char>>,
    pub considered: nat,
    pub refreshed: nat,
    pub skipped: nat,
    pub errors: Seq<Seq<char>>,
}

/// What to do with the next history row.
#[derive(Debug, PartialEq, Eq)]
pub enum PassStep {
    /// The limit is reached: the pass is over.
    Stop,
    /// Go on to the row after.
    Next,
    /// Look at the stored reading of this remote post, and read it anew if it is old.
    Look(String),
}

#[verifier::ext_equal]
pub enum StepView {
    Stop,
    Next,
    Look(Seq<char>),
}

impl View for PassStep {
    type V = StepView;

    open spec fn view(&self) -> StepView {
        match self {
            PassStep::Stop => StepView::Stop,
            PassStep::Next => StepView::Next,
            PassStep::Look(id) => StepView::Look(id@),
        }
    }
}

impl View for RefreshPass {
    type V = PassView;

    open spec fn view(&self) -> PassView {
        PassView {
            limit: self.limit as nat,
            seen: text::texts(self.seen@),
            considered: self.summary.considered as nat,
            refreshed: self.summary.refreshed as nat,
            skipped: self.summary.skipped as nat,
            errors: text::texts(self.summary.errors@),
        }
    }
}

impl PassView {
    pub open spec fn begun(limit: nat) -> Self {
        PassView {
            limit,
            seen: Seq::empty(),
            considered: 0,
            refreshed: 0,
            skipped: 0,
            errors: Seq::empty(),
        }
    }

    /// The step for a row, and the pass after it.
    pub open spec fn considering(self, status: HistoryStatus, remote: Option<Seq<char>>) -> (
        PassView,
        StepView,
    ) {
        if self.refreshed >= self.limit {
            (self, StepView::Stop)
        } else if status != HistoryStatus::Published || text::solid(remote) is None {
            (self, StepView::Next)
        } else if self.seen.contains(text::solid(remote)->0) {
            (
                PassView {
                    considered: self.considered + 1,
                    skipped: self.skipped + 1,
                    ..self
                },
                StepView::Next,
            )
        } else {
            (
                PassView {
                    considered: self.considered + 1,
                    seen: self.seen.push(text::solid(remote)->0),
                    ..self
                },
                StepView::Look(text::solid(remote)->0),
            )
        }
    }

    pub open spec fn skipping(self) -> PassView {
        PassView { skipped: self.skipped + 1, ..self }
    }

    /// After an attempt at a remote post: with or without a call to its provider, stored
    /// or failed with this text.
    pub open spec fn reading(
        self,
        remote: Seq<char>,
        called: bool,
        failure: Option<Seq<char>>,
    ) -> PassView {
        PassView {
            refreshed: self.refreshed + (if called {
                1nat
            } else {
                0
            }),
            errors: match failure {
                None => self.errors,
                Some(e) => self.errors.push(remote + ": "@ + e),
            },
            ..self
        }
    }

    /// Every row considered was skipped, asked about, or failed; a row is at most asked
    /// about once and fails at most once. Nothing was met twice, and no more calls were
    /// made than the limit.
    pub open spec fn settled(self) -> bool {
        &&& self.considered <= self.skipped + self.refreshed + self.errors.len()
        &&& self.skipped + self.refreshed <= self.considered
        &&& self.skipped + self.errors.len() <= self.considered
        &&& self.seen.no_duplicates()
        &&& self.refreshed <= self.limit
    }
}

impl RefreshPass {
    pub fn start(limit: usize) -> (r: Self)
        ensures
            r@ == PassView::begun(limit as nat),
    {
        let r = RefreshPass {
            limit,
            seen: Vec::new(),
            summary: EngagementRefreshSummary::default(),
        };
        assert(r@ =~= PassView::begun(limit as nat));
        r
    }

    pub fn consider(&mut self, entry: &PostHistoryEntry) -> (r: PassStep)
        requires
            old(self)@.considered < usize::MAX,
            old(self)@.skipped < usize::MAX,
        ensures
            (final(self)@, r@) == old(self)@.considering(
                entry.status,
                text::opt_text(entry.remote_id),
            ),
    {
        if self.summary.refreshed >= self.limit {
            return PassStep::Stop;
        }
        if entry.status != HistoryStatus::Published {
            return PassStep::Next;
        }
        let id = match remote_id_of(entry) {
            Some(id) => id,
            None => {
                return PassStep::Next;
            },
        };
        self.summary.considered = self.summary.considered + 1;
        if has_string(&self.seen, id.as_str()) {
            self.summary.skipped = self.summary.skipped + 1;
            return PassStep::Next;
        }
        self.seen.push(id.clone());
        assert(text::texts(self.seen@) =~= text::texts(old(self).seen@).push(id@));
        PassStep::Look(id)
    }

    /// The stored reading is young enough.
    pub fn skip(&mut self)
        requires
            old(self)@.skipped < usize::MAX,
        ensures
            final(self)@ == old(self)@.skipping(),
    {
        self.summary.skipped = self.summary.skipped + 1;
    }

    /// A reading was stored, or came to nothing. Whether its provider was called counts
    /// either way: every call is billed.
    pub fn record(&mut self, remote_id: &str, called: bool, result: &ApiResult<ActivityItem>)
        requires
            old(self)@.refreshed < usize::MAX,
        ensures
            final(self)@ == old(self)@.reading(
                remote_id@,
                called,
                match *result {
                    Ok(_) => None,
                    Err(e) => Some(e@.full_text()),
                },
            ),
    {
        if called {
            self.summary.refreshed = self.summary.refreshed + 1;
        }
        match result {
            Ok(_) => {},
            Err(e) => {
                let mut m: String = remote_id.to_owned();
                m.append(": ");
                m.append(e.message().as_str());
                self.summary.errors.push(m);
                assert(text::texts(self.summary.errors@) =~= text::texts(
                    old(self).summary.errors@,
                ).push(remote_id@ + ": "@ + e@.full_text()));
            },
        }
    }
}

/// Whether a reading made at some time is young enough now, if one was made.
pub open spec fn fresh(fetched_at: Option<i64>, now: int) -> bool {
    match fetched_at {
        Some(at) => now - at < MIN_REFRESH_AGE_MS,
        None => false,
    }
}

pub fn is_fresh(fetched_at: Option<i64>, now: i64) -> (r: bool)
    ensures
        r == fresh(fetched_at, now as int),
{
    match fetched_at {
        Some(at) => (now as i128) - (at as i128) < MIN_REFRESH_AGE_MS as i128,
        None => false,
    }
}

/// A pass accounts for every row it considers, never asks about a post twice, and
/// never makes more calls than its limit, whether they succeed or fail.
pub proof fn a_pass_accounts_for_every_row(
    pass: PassView,
    status: HistoryStatus,
    remote: Option<Seq<char>>,
    called: bool,
    failure: Option<Seq<char>>,
)
    requires
        pass.settled(),
        failure is None ==> called,
    ensures
        PassView::begun(pass.limit).settled(),
        ({
            let (after, step) = pass.considering(status, remote);
            match step {
                StepView::Stop => after == pass && pass.refreshed == pass.limit,
                StepView::Next => after.settled(),
                StepView::Look(id) => {
                    &&& !pass.seen.contains(id)
                    &&& after.skipping().settled()
                    &&& after.reading(id, called, failure).settled()
                },
            }
        }),
{
}

/// A post that never reached its platform is never asked about.
pub proof fn an_unpublished_post_is_never_asked_about(
    remote: Option<Seq<char>>,
    target: Option<Platform>,
    post_found: bool,
    caps: PlatformCapabilities,
)
    requires
        text::solid(remote) is None,
    ensures
        refresh_fault(remote, target, post_found, caps) matches Some(e) && e is Conflict,
{
}

/// Counts can be asked for exactly when the publish reached its platform, its target and
/// its post are still there, and the provider reads counts. Of several faults the first
/// in that order is told.
pub proof fn counts_are_asked_for_where_they_can_be(
    remote: Option<Seq<char>>,
    target: Option<Platform>,
    post_found: bool,
    caps: PlatformCapabilities,
)
    ensures
        ({
            let reached = remote is Some && !text::blank(remote->0);
            let fault = refresh_fault(remote, target, post_found, caps);
            &&& fault is None <==> reached && target is Some && post_found && caps.read_engagement
            &&& !reached ==> fault->0 is Conflict
            &&& reached && target is None ==> fault == Some(ErrorView::NotFound("post target"@))
            &&& reached && target is Some && !post_found ==> fault == Some(
                ErrorView::NotFound("scheduled post"@),
            )
            &&& reached && target is Some && post_found && !caps.read_engagement
                ==> fault->0 is Conflict
        }),
{
    if remote is Some {
        text::trim_empties_only_blank_text(remote->0);
    }
}

/// What was published is the target's own text, trimmed, where it has one of its own,
/// even a blank one, and otherwise the draft's; blank text is none.
pub proof fn a_target_speaks_for_itself(variant: Option<Seq<char>>, draft: Option<Seq<char>>)
    ensures
        variant is Some && !text::blank(variant->0) ==> published_text_of(variant, draft) == Some(
            text::trim_of(variant->0),
        ),
        variant is Some && text::blank(variant->0) ==> published_text_of(variant, draft) is None,
        variant is None && draft is Some && !text::blank(draft->0) ==> published_text_of(
            variant,
            draft,
        ) == Some(text::trim_of(draft->0)),
        variant is None && (draft is None || text::blank(draft->0)) ==> published_text_of(
            variant,
            draft,
        ) is None,
{
    if variant is Some {
        text::trim_empties_only_blank_text(variant->0);
    }
    if draft is Some {
        text::trim_empties_only_blank_text(draft->0);
    }
}

/// A reading is stored with the counts as they came, a missing one as none at all, and
/// with the time they were read and published.
pub proof fn a_reading_is_stored_as_it_came(
    item: ActivityItem,
    asked: RemotePostRef,
    entry: PostHistoryEntry,
    target: PostTarget,
    post: ScheduledPost,
    draft: Option<&Draft>,
    counts: EngagementCounts,
)
    requires
        snapshot_shows(item, asked, entry, target, post, draft, counts),
    ensures
        counts.likes is Some ==> item.likes == counts.likes->0,
        counts.likes is None ==> item.likes == 0,
        counts.comments is Some ==> item.comments == counts.comments->0,
        counts.comments is None ==> item.comments == 0,
        counts.shares is Some ==> item.shares == counts.shares->0,
        counts.shares is None ==> item.shares == 0,
        counts.views is Some ==> item.views == counts.views->0,
        counts.views is None ==> item.views == 0,
        item.engagement_fetched_at == Some(counts.fetched_at),
        item.published_at == entry.published_at,
        item.platform == target.platform,
        item.workspace_id@ == post.workspace_id@,
        item.social_account_id@ == target.social_account_id@,
        item.post_remote_id@ == asked.remote_id@,
        text::opt_text(item.permalink) == text::opt_text(entry.remote_url),
{
}

/// A pass stops when it has made as many calls as it may. Before that it looks at every
/// published post that reached its platform, once: the same post again is skipped, and a
/// row of no such post is not even counted.
pub proof fn a_pass_looks_at_every_post_once(
    pass: PassView,
    status: HistoryStatus,
    remote: Option<Seq<char>>,
)
    ensures
        ({
            let (after, step) = pass.considering(status, remote);
            let over = pass.refreshed >= pass.limit;
            let reached = status == HistoryStatus::Published && remote is Some && !text::blank(
                remote->0,
            );
            let id = text::trim_of(remote->0);
            &&& step is Stop <==> over
            &&& !reached || over ==> after == pass
            &&& !reached && !over ==> step is Next
            &&& reached && !over ==> {
                &&& after.considered == pass.considered + 1
                &&& after.refreshed == pass.refreshed
                &&& after.errors == pass.errors
                &&& after.limit == pass.limit
                &&& pass.seen.contains(id) ==> step is Next && after.skipped == pass.skipped + 1
                    && after.seen == pass.seen
                &&& !pass.seen.contains(id) ==> step == StepView::Look(id) && after.skipped
                    == pass.skipped && after.seen == pass.seen.push(id)
            }
        }),
{
    if remote is Some {
        text::trim_empties_only_blank_text(remote->0);
    }
}

/// An attempt counts as a call where a provider was called, and leaves a complaint that
/// names the post where it failed; a skipped row is counted as one.
pub proof fn an_attempt_is_counted(
    pass: PassView,
    remote: Seq<char>,
    called: bool,
    failure: Option<Seq<char>>,
)
    ensures
        ({
            let after = pass.reading(remote, called, failure);
            &&& called ==> after.refreshed == pass.refreshed + 1
            &&& !called ==> after.refreshed == pass.refreshed
            &&& failure is None ==> after.errors == pass.errors
            &&& failure is Some ==> after.errors == pass.errors.push(remote + ": "@ + failure->0)
            &&& after.considered == pass.considered
            &&& after.skipped == pass.skipped
            &&& after.seen == pass.seen
            &&& after.limit == pass.limit
        }),
        pass.skipping().skipped == pass.skipped + 1,
        pass.skipping().refreshed == pass.refreshed,
        pass.skipping().considered == pass.considered,
        pass.skipping().errors == pass.errors,
        pass.skipping().seen == pass.seen,
{
}

/// A reading is repeated once it is half an hour old; without one there is nothing young.
pub proof fn a_reading_is_young_for_half_an_hour(at: i64, now: int)
    ensures
        fresh(Some(at), now) <==> now < at + 30 * 60 * 1000,
        !fresh(None, now),
{
}

} // verus!
