//! Publishing: what a due post's targets are sent, when an attempt is repeated, and
//! what is written down at the end. The calls to providers and the store are made
//! elsewhere; here is what they are handed and what follows from their answers.
use vstd::prelude::*;
use crate::draft;
use crate::draft::{
    mime_of_media, validate_segments_for_platform, DraftBody, MediaRef, PostSegment,
};
use crate::error::{ApiError, ApiResult, ErrorView};
use crate::ids;
use crate::platform;
use crate::platform::{limits_for, Platform, SegmentStyle};
use crate::providers::types;
use crate::providers::types::{
    ProviderAccount, PublishMedia, PublishRequest, PublishResult, PublishSegment, ResultView,
};
use crate::records::{PostHistoryEntry, PostTarget, ScheduledPost, SocialAccount, SocialSettings};
use crate::status::{HistoryStatus, PostStatus, TargetStatus};
use crate::text;
use crate::text::decimal;

verus! {

/// The most attempts a run makes, whatever the settings say.
pub const MAX_ATTEMPTS_CEILING: u32 = 10;

/// The longest one provider call may take.
pub const PROVIDER_CALL_TIMEOUT_MS: u64 = 30_000;

pub const EVENT_POST_PUBLISHED: &'static str = "@ryu/social#post.published";
pub const EVENT_POST_FAILED: &'static str = "@ryu/social#post.failed";

/// What happened to one target.
#[derive(Debug, PartialEq, Eq)]
pub struct TargetOutcome {
    pub target_id: String,
    pub platform: Platform,
    pub status: TargetStatus,
    pub remote_id: Option<String>,
    pub remote_url: Option<String>,
    pub error: Option<String>,
    /// Provider calls made in this run; zero means that none was.
    pub attempts: u32,
}

#[verifier::ext_equal]
pub struct OutcomeView {
    pub target_id: Seq<char>,
    pub platform: Platform,
    pub status: TargetStatus,
    pub remote_id: Option<Seq<char>>,
    pub remote_url: Option<Seq<char>>,
    pub error: Option<Seq<char>>,
    pub attempts: u32,
}

impl View for TargetOutcome {
    type V = OutcomeView;

    open spec fn view(&self) -> OutcomeView {
        OutcomeView {
            target_id: self.target_id@,
            platform: self.platform,
            status: self.status,
            remote_id: text::opt_text(self.remote_id),
            remote_url: text::opt_text(self.remote_url),
            error: text::opt_text(self.error),
            attempts: self.attempts,
        }
    }
}

/// What happened to a whole post.
#[derive(Debug, PartialEq, Eq)]
pub struct PostOutcome {
    pub post_id: String,
    pub status: PostStatus,
    pub targets: Vec<TargetOutcome>,
}

/// The history row that ends a run.
#[derive(Debug, PartialEq, Eq)]
pub struct NewHistory {
    pub status: HistoryStatus,
    pub remote_id: Option<String>,
    pub remote_url: Option<String>,
    pub error: Option<String>,
}

#[verifier::ext_equal]
pub struct HistoryView {
    pub status: HistoryStatus,
    pub remote_id: Option<Seq<char>>,
    pub remote_url: Option<Seq<char>>,
    pub error: Option<Seq<char>>,
}

impl View for NewHistory {
    type V = HistoryView;

    open spec fn view(&self) -> HistoryView {
        HistoryView {
            status: self.status,
            remote_id: text::opt_text(self.remote_id),
            remote_url: text::opt_text(self.remote_url),
            error: text::opt_text(self.error),
        }
    }
}

/// What is written down when a target's run is over: at most one history row, the
/// target's new status and its attempts over its whole life, and what is reported.
#[derive(Debug, PartialEq, Eq)]
pub struct Settlement {
    pub history: Option<NewHistory>,
    pub status: TargetStatus,
    pub attempts: u32,
    pub outcome: TargetOutcome,
}

#[verifier::ext_equal]
pub struct SettlementView {
    pub history: Option<HistoryView>,
    pub status: TargetStatus,
    pub attempts: u32,
    pub outcome: OutcomeView,
}

impl View for Settlement {
    type V = SettlementView;

    open spec fn view(&self) -> SettlementView {
        SettlementView {
            history: match self.history {
                Some(h) => Some(h@),
                None => None,
            },
            status: self.status,
            attempts: self.attempts,
            outcome: self.outcome@,
        }
    }
}

// ── Backoff ────────────────────────────────────────────────────────────────────

pub open spec fn two_to(k: nat) -> nat
    decreases k,
{
    if k == 0 {
        1
    } else {
        2 * two_to((k - 1) as nat)
    }
}

/// The wait after an attempt: the base, doubled for each attempt before it, within 64
/// bits. Nothing is waited for before the first.
pub open spec fn backoff(attempt: nat, base: nat) -> nat {
    if attempt == 0 {
        0
    } else {
        let d = base * two_to((attempt - 1) as nat);
        if d > u64::MAX {
            u64::MAX as nat
        } else {
            d
        }
    }
}

pub fn backoff_delay_ms(attempt: u32, base_ms: u64) -> (r: u64)
    ensures
        r == backoff(attempt as nat, base_ms as nat),
{
    if attempt == 0 || base_ms == 0 {
        proof {
            if attempt > 0 {
                assert(0 * two_to((attempt - 1) as nat) == 0) by (nonlinear_arith);
            }
        }
        return 0;
    }
    let mut delay: u64 = base_ms;
    let mut i: u32 = 1;
    assert(base_ms * two_to(0) == base_ms) by (nonlinear_arith)
        requires
            two_to(0) == 1,
    ;
    while i < attempt
        invariant
            1 <= i <= attempt,
            delay == base_ms * two_to((i - 1) as nat),
        decreases attempt - i,
    {
        proof {
            lemma_doubled(base_ms as nat, (i - 1) as nat);
        }
        if delay > u64::MAX / 2 {
            proof {
                lemma_two_to_grows(i as nat, (attempt - 1) as nat);
                lemma_scaled(base_ms as nat, two_to(i as nat), two_to((attempt - 1) as nat));
            }
            return u64::MAX;
        }
        delay = delay * 2;
        i = i + 1;
    }
    delay
}

proof fn lemma_doubled(base: nat, k: nat)
    ensures
        base * two_to(k + 1) == 2 * (base * two_to(k)),
{
    assert(two_to(k + 1) == 2 * two_to(k));
    assert(base * two_to(k + 1) == 2 * (base * two_to(k))) by (nonlinear_arith)
        requires
            two_to(k + 1) == 2 * two_to(k),
    ;
}

proof fn lemma_two_to_grows(i: nat, j: nat)
    requires
        i <= j,
    ensures
        two_to(i) <= two_to(j),
    decreases j,
{
    if i < j {
        lemma_two_to_grows(i, (j - 1) as nat);
    }
}

proof fn lemma_scaled(base: nat, a: nat, b: nat)
    by (nonlinear_arith)
    requires
        a <= b,
    ensures
        base * a <= base * b,
{
}

/// From one attempt to the next the wait doubles, within 64 bits.
pub proof fn backoff_doubles(attempt: nat, base: nat)
    requires
        attempt >= 1,
    ensures
        backoff(attempt + 1, base) == (if 2 * backoff(attempt, base) > u64::MAX {
            u64::MAX as nat
        } else {
            2 * backoff(attempt, base)
        }),
        backoff(attempt, base) <= backoff(attempt + 1, base),
        backoff(1, base) == (if base > u64::MAX {
            u64::MAX as nat
        } else {
            base
        }),
{
    assert(base * two_to(0) == base) by (nonlinear_arith)
        requires
            two_to(0) == 1,
    ;
    lemma_doubled(base, (attempt - 1) as nat);
}

// ── Aggregation ────────────────────────────────────────────────────────────────

pub open spec fn all_published(s: Seq<TargetStatus>) -> bool {
    forall|i: int| 0 <= i < s.len() ==> #[trigger] s[i] == TargetStatus::Published
}

pub open spec fn some_published(s: Seq<TargetStatus>) -> bool {
    exists|i: int| 0 <= i < s.len() && #[trigger] s[i] == TargetStatus::Published
}

/// A post's settled status, from its targets': published when all are, partial when
/// some are, else failed. A post without targets failed.
pub open spec fn aggregate(s: Seq<TargetStatus>) -> PostStatus {
    if s.len() == 0 || !some_published(s) {
        PostStatus::Failed
    } else if all_published(s) {
        PostStatus::Published
    } else {
        PostStatus::Partial
    }
}

pub open spec fn outcome_statuses(s: Seq<TargetOutcome>) -> Seq<TargetStatus> {
    s.map_values(|o: TargetOutcome| o.status)
}

pub open spec fn target_statuses(s: Seq<PostTarget>) -> Seq<TargetStatus> {
    s.map_values(|t: PostTarget| t.status)
}

pub fn aggregate_status(outcomes: &[TargetOutcome]) -> (r: PostStatus)
    ensures
        r == aggregate(outcome_statuses(outcomes@)),
{
    let mut statuses: Vec<TargetStatus> = Vec::new();
    let mut i: usize = 0;
    while i < outcomes.len()
        invariant
            i <= outcomes.len(),
            statuses@ == outcome_statuses(outcomes@).take(i as int),
        decreases outcomes.len() - i,
    {
        statuses.push(outcomes[i].status);
        i = i + 1;
        assert(statuses@ =~= outcome_statuses(outcomes@).take(i as int));
    }
    assert(statuses@ =~= outcome_statuses(outcomes@));
    aggregate_target_statuses(statuses.as_slice())
}

/// The status a post settles in, from its targets'.
pub fn aggregate_target_statuses(statuses: &[TargetStatus]) -> (r: PostStatus)
    ensures
        r == aggregate(statuses@),
{
    if statuses.len() == 0 {
        return PostStatus::Failed;
    }
    let mut published: usize = 0;
    let mut i: usize = 0;
    while i < statuses.len()
        invariant
            published <= i <= statuses.len(),
            published == i <==> all_published(statuses@.take(i as int)),
            published > 0 <==> some_published(statuses@.take(i as int)),
        decreases statuses.len() - i,
    {
        let ghost before = statuses@.take(i as int);
        let ghost after = statuses@.take(i as int + 1);
        assert(after =~= before.push(statuses@[i as int]));
        proof {
            lemma_published_push(before, statuses@[i as int]);
        }
        if statuses[i] == TargetStatus::Published {
            published = published + 1;
        }
        i = i + 1;
    }
    assert(statuses@.take(statuses@.len() as int) =~= statuses@);
    if published == statuses.len() {
        assert(statuses@[0] == TargetStatus::Published);
        PostStatus::Published
    } else if published == 0 {
        PostStatus::Failed
    } else {
        PostStatus::Partial
    }
}

proof fn lemma_published_push(s: Seq<TargetStatus>, t: TargetStatus)
    ensures
        all_published(s.push(t)) <==> all_published(s) && t == TargetStatus::Published,
        some_published(s.push(t)) <==> some_published(s) || t == TargetStatus::Published,
{
    let w = s.push(t);
    assert(w[s.len() as int] == t);
    assert forall|i: int| 0 <= i < s.len() implies w[i] == s[i] by {}
    if all_published(w) {
        assert forall|i: int| 0 <= i < s.len() implies #[trigger] s[i] == TargetStatus::Published by {
            assert(w[i] == s[i]);
        }
    }
    if some_published(s) {
        let i = choose|i: int| 0 <= i < s.len() && #[trigger] s[i] == TargetStatus::Published;
        assert(w[i] == TargetStatus::Published);
    }
    if some_published(w) && t != TargetStatus::Published {
        let i = choose|i: int| 0 <= i < w.len() && #[trigger] w[i] == TargetStatus::Published;
        assert(s[i] == TargetStatus::Published);
    }
}

/// A post reads as published only when it has targets and all of them published.
pub proof fn published_means_every_target(s: Seq<TargetStatus>)
    ensures
        aggregate(s) == PostStatus::Published <==> s.len() > 0 && all_published(s),
        aggregate(s) == PostStatus::Partial <==> some_published(s) && !all_published(s),
        aggregate(s) == PostStatus::Failed <==> !some_published(s),
        PostStatus::Publishing.may_become(aggregate(s)),
{
    if s.len() > 0 && all_published(s) {
        assert(s[0] == TargetStatus::Published);
    }
}

// ── Idempotency ────────────────────────────────────────────────────────────────

pub open spec fn idempotency_key_of(post_id: Seq<char>, account_id: Seq<char>) -> Seq<char> {
    post_id + ":"@ + account_id
}

/// The key of one leg: the same for every attempt, in every run.
pub fn idempotency_key_for(post_id: &str, social_account_id: &str) -> (r: String)
    ensures
        r@ == idempotency_key_of(post_id@, social_account_id@),
{
    let mut r: String = post_id.to_owned();
    r.append(":");
    r.append(social_account_id);
    r
}

/// Different legs of posts that this library named have different keys.
pub proof fn legs_of_posts_have_keys_of_their_own(
    p: Seq<char>,
    a: Seq<char>,
    q: Seq<char>,
    b: Seq<char>,
)
    requires
        ids::made_id(p, ids::ID_POST@),
        ids::made_id(q, ids::ID_POST@),
        idempotency_key_of(p, a) == idempotency_key_of(q, b),
    ensures
        p == q,
        a == b,
{
    reveal_strlit("sp_");
    ids::ids_hold_no_colon(p, ids::ID_POST@);
    ids::ids_hold_no_colon(q, ids::ID_POST@);
    idempotency_keys_tell_legs_apart(p, a, q, b);
}

/// Different legs have different keys, where post ids hold no colon.
pub proof fn idempotency_keys_tell_legs_apart(
    p: Seq<char>,
    a: Seq<char>,
    q: Seq<char>,
    b: Seq<char>,
)
    requires
        !p.contains(':'),
        !q.contains(':'),
        idempotency_key_of(p, a) == idempotency_key_of(q, b),
    ensures
        p == q,
        a == b,
{
    reveal_strlit(":");
    let k = idempotency_key_of(p, a);
    let l = idempotency_key_of(q, b);
    assert(k[p.len() as int] == ':');
    assert(l[q.len() as int] == ':');
    if p.len() < q.len() {
        assert(l[p.len() as int] == q[p.len() as int]);
        assert(q.contains(':'));
    }
    if q.len() < p.len() {
        assert(k[q.len() as int] == p[q.len() as int]);
        assert(p.contains(':'));
    }
    assert(p =~= k.take(p.len() as int));
    assert(q =~= l.take(q.len() as int));
    assert(a =~= k.skip(p.len() as int + 1));
    assert(b =~= l.skip(q.len() as int + 1));
}

// ── What a target is sent ──────────────────────────────────────────────────────

/// An attachment as it is handed to a provider: the type is its own, or read off
/// its name, or off its path. A file name is never passed off as a description.
pub open spec fn publish_media_of(m: draft::MediaView) -> types::PublishMediaView {
    types::PublishMediaView {
        url: m.path,
        mime_type: if m.mime_type.len() > 0 {
            m.mime_type
        } else if platform::mime_of_name(m.name).len() > 0 {
            platform::mime_of_name(m.name)
        } else {
            platform::mime_of_name(m.path)
        },
        alt_text: None,
    }
}

pub fn to_publish_media(media: &MediaRef) -> (r: PublishMedia)
    ensures
        r@ == publish_media_of(media@),
{
    PublishMedia {
        url: media.path.clone(),
        mime_type: mime_of_media(media).to_owned(),
        alt_text: None,
    }
}

/// A provider is told the type that the limits were checked against.
pub proof fn the_checked_type_is_the_sent_type(m: draft::MediaView)
    ensures
        publish_media_of(m).mime_type == draft::media_mime(m),
{
}

pub open spec fn publish_segment_of(s: draft::SegmentView) -> types::PublishSegmentView {
    types::PublishSegmentView {
        text: s.text,
        media: s.media.map_values(|m: draft::MediaView| publish_media_of(m)),
    }
}

pub open spec fn publish_segments_of(s: Seq<draft::SegmentView>) -> Seq<
    types::PublishSegmentView,
> {
    s.map_values(|x: draft::SegmentView| publish_segment_of(x))
}

fn to_publish_segment(segment: &PostSegment) -> (r: PublishSegment)
    ensures
        r@ == publish_segment_of(segment@),
{
    let mut media: Vec<PublishMedia> = Vec::new();
    let ghost want = publish_segment_of(segment@).media;
    let mut i: usize = 0;
    assert(types::publish_media_views(media@) =~= want.take(0));
    while i < segment.media.len()
        invariant
            i <= segment.media.len(),
            want == publish_segment_of(segment@).media,
            want.len() == segment.media.len(),
            types::publish_media_views(media@) == want.take(i as int),
        decreases segment.media.len() - i,
    {
        let m = to_publish_media(&segment.media[i]);
        let ghost before = media@;
        media.push(m);
        proof {
            assert(types::publish_media_views(media@) =~= types::publish_media_views(before).push(
                m@,
            ));
            assert(want.take(i as int + 1) =~= want.take(i as int).push(want[i as int]));
        }
        i = i + 1;
    }
    assert(want.take(want.len() as int) =~= want);
    PublishSegment { text: segment.text.clone(), media }
}

/// The body a target publishes: its own, else the draft's.
pub open spec fn chosen_body(
    variant: Option<draft::DraftBodyView>,
    draft: Option<draft::DraftBodyView>,
) -> Option<draft::DraftBodyView> {
    match variant {
        Some(b) => Some(b),
        None => draft,
    }
}

/// The segments that go out: none where nothing is said; one where the platform
/// takes single posts.
pub open spec fn outgoing_segments(
    p: Platform,
    body: Option<draft::DraftBodyView>,
) -> Option<Seq<draft::SegmentView>> {
    match body {
        Some(b) => if b.says_nothing() {
            None
        } else if platform::limits_view(p).style == SegmentStyle::Single {
            Some(b.segments.take(1))
        } else {
            Some(b.segments)
        },
        None => None,
    }
}

pub open spec fn opt_body(b: Option<DraftBody>) -> Option<draft::DraftBodyView> {
    match b {
        Some(x) => Some(x@),
        None => None,
    }
}

pub open spec fn opt_body_ref(b: Option<&DraftBody>) -> Option<draft::DraftBodyView> {
    match b {
        Some(x) => Some(x@),
        None => None,
    }
}

fn copy_segments(s: &Vec<PostSegment>, n: usize) -> (r: Vec<PostSegment>)
    requires
        n <= s@.len(),
    ensures
        draft::segment_views(r@) == draft::segment_views(s@).take(n as int),
{
    let mut r: Vec<PostSegment> = Vec::new();
    let mut i: usize = 0;
    assert(draft::segment_views(r@) =~= draft::segment_views(s@).take(0));
    while i < n
        invariant
            i <= n <= s@.len(),
            draft::segment_views(r@) == draft::segment_views(s@).take(i as int),
        decreases n - i,
    {
        let x = s[i].clone();
        let ghost before = r@;
        r.push(x);
        proof {
            assert(draft::segment_views(r@) =~= draft::segment_views(before).push(x@));
            assert(draft::segment_views(s@).take(i as int + 1) =~= draft::segment_views(s@).take(
                i as int,
            ).push(s@[i as int]@));
        }
        i = i + 1;
    }
    r
}

/// What one target publishes, if anything.
pub fn resolve_segments(target: &PostTarget, draft_body: Option<&DraftBody>) -> (r: Option<
    Vec<PostSegment>,
>)
    ensures
        match r {
            Some(s) => outgoing_segments(
                target.platform,
                chosen_body(opt_body(target.variant_body), opt_body_ref(draft_body)),
            ) == Some(draft::segment_views(s@)) && s@.len() >= 1,
            None => outgoing_segments(
                target.platform,
                chosen_body(opt_body(target.variant_body), opt_body_ref(draft_body)),
            ) is None,
        },
{
    let body: &DraftBody = match &target.variant_body {
        Some(variant) => variant,
        None => match draft_body {
            Some(d) => d,
            None => return None,
        },
    };
    if body.is_empty() {
        return None;
    }
    assert(body@.segments.len() >= 1);
    let n: usize = if limits_for(target.platform).segment_style == SegmentStyle::Single {
        1
    } else {
        body.segments.len()
    };
    assert(body@.segments.take(body@.segments.len() as int) =~= body@.segments);
    let r = copy_segments(&body.segments, n);
    assert(draft::segment_views(r@).len() == n);
    Some(r)
}

/// The account as the provider is told of it; a deleted account has no label.
pub open spec fn account_of(target: PostTarget, row: Option<SocialAccount>) -> types::AccountView {
    types::AccountView {
        id: target.social_account_id@,
        platform: target.platform,
        label: match row {
            Some(a) => Some(a.account_label@),
            None => None,
        },
        external_id: match row {
            Some(a) => text::opt_text(a.external_id),
            None => None,
        },
    }
}

/// The account a target's call acts on.
pub fn resolve_account(target: &PostTarget, row: Option<&SocialAccount>) -> (r: ProviderAccount)
    ensures
        r@ == account_of(
            *target,
            match row {
                Some(a) => Some(*a),
                None => None,
            },
        ),
{
    ProviderAccount {
        id: target.social_account_id.clone(),
        platform: target.platform,
        label: match row {
            Some(a) => Some(a.account_label.clone()),
            None => None,
        },
        external_id: match row {
            Some(a) => a.external_id.clone(),
            None => None,
        },
    }
}

/// The call for a target: the segments, the first mirrored at the top; the list
/// itself only where it has more than one.
pub open spec fn request_of(
    post_id: Seq<char>,
    account: types::AccountView,
    segments: Seq<draft::SegmentView>,
) -> types::RequestView {
    let out = publish_segments_of(segments);
    types::RequestView {
        account,
        text: if out.len() > 0 {
            out[0].text
        } else {
            Seq::empty()
        },
        media: if out.len() > 0 {
            out[0].media
        } else {
            Seq::empty()
        },
        segments: if out.len() > 1 {
            Some(out)
        } else {
            None
        },
        idempotency_key: Some(idempotency_key_of(post_id, account.id)),
    }
}

pub fn build_request(post_id: &str, account: &ProviderAccount, segments: &Vec<PostSegment>) -> (r:
    PublishRequest)
    ensures
        r@ == request_of(post_id@, account@, draft::segment_views(segments@)),
{
    let ghost want = publish_segments_of(draft::segment_views(segments@));
    let mut out: Vec<PublishSegment> = Vec::new();
    let mut i: usize = 0;
    assert(types::publish_segment_views(out@) =~= want.take(0));
    while i < segments.len()
        invariant
            i <= segments.len(),
            want == publish_segments_of(draft::segment_views(segments@)),
            want.len() == segments.len(),
            types::publish_segment_views(out@) == want.take(i as int),
            out@.len() == i,
        decreases segments.len() - i,
    {
        let s = to_publish_segment(&segments[i]);
        let ghost before = out@;
        out.push(s);
        proof {
            assert(types::publish_segment_views(out@) =~= types::publish_segment_views(before).push(
                s@,
            ));
            assert(want.take(i as int + 1) =~= want.take(i as int).push(want[i as int]));
        }
        i = i + 1;
    }
    assert(want.take(want.len() as int) =~= want);
    let (text, media): (String, Vec<PublishMedia>) = if out.len() > 0 {
        let first = out[0].clone();
        assert(types::publish_segment_views(out@)[0] == out@[0]@);
        (first.text, first.media)
    } else {
        (String::new(), Vec::new())
    };
    let key = idempotency_key_for(post_id, account.id.as_str());
    let r = PublishRequest {
        account: account.clone(),
        text,
        media,
        segments: if out.len() > 1 {
            Some(out)
        } else {
            None
        },
        idempotency_key: Some(key),
    };
    assert(r@ =~= request_of(post_id@, account@, draft::segment_views(segments@)));
    r
}

/// Whatever is sent for a leg, its key is that of the post and the account alone.
pub proof fn every_request_for_a_leg_carries_its_key(
    post_id: Seq<char>,
    account: types::AccountView,
    segments: Seq<draft::SegmentView>,
)
    ensures
        request_of(post_id, account, segments).idempotency_key == Some(
            idempotency_key_of(post_id, account.id),
        ),
        segments.len() >= 1 ==> request_of(post_id, account, segments).effective()
            == publish_segments_of(segments),
{
    if segments.len() == 1 {
        assert(request_of(post_id, account, segments).effective() =~= publish_segments_of(
            segments,
        ));
    }
}

// ── Planning one target ────────────────────────────────────────────────────────

/// The first history row that proves the leg is live: published, with a remote id.
pub open spec fn live_record(h: Seq<PostHistoryEntry>) -> Option<PostHistoryEntry>
    decreases h.len(),
{
    if h.len() == 0 {
        None
    } else {
        match live_record(h.drop_last()) {
            Some(e) => Some(e),
            None => if h.last().status == HistoryStatus::Published && h.last().remote_id is Some {
                Some(h.last())
            } else {
                None
            },
        }
    }
}

proof fn lemma_live_record_stands(h: Seq<PostHistoryEntry>, k: int)
    requires
        0 <= k <= h.len(),
        live_record(h.take(k)) is Some,
    ensures
        live_record(h) == live_record(h.take(k)),
    decreases h.len(),
{
    if k == h.len() {
        assert(h.take(k) =~= h);
    } else {
        assert(h.drop_last().take(k) =~= h.take(k));
        lemma_live_record_stands(h.drop_last(), k);
    }
}

/// What the run of one target does first.
#[derive(Debug, PartialEq, Eq)]
pub enum TargetPlan {
    /// It is over already: write this down, call nobody.
    Settle(Settlement),
    /// Call the provider.
    Attempt(PublishRequest),
}

pub enum PlanView {
    Settle(SettlementView),
    Attempt(types::RequestView),
}

impl View for TargetPlan {
    type V = PlanView;

    open spec fn view(&self) -> PlanView {
        match self {
            TargetPlan::Settle(s) => PlanView::Settle(s@),
            TargetPlan::Attempt(r) => PlanView::Attempt(r@),
        }
    }
}

/// The end of a target whose record shows that it is live.
pub open spec fn already_live(target: PostTarget, record: PostHistoryEntry) -> SettlementView {
    SettlementView {
        history: None,
        status: TargetStatus::Published,
        attempts: target.attempts,
        outcome: OutcomeView {
            target_id: target.id@,
            platform: target.platform,
            status: TargetStatus::Published,
            remote_id: text::opt_text(record.remote_id),
            remote_url: text::opt_text(record.remote_url),
            error: None,
            attempts: 0,
        },
    }
}

/// The end of a target that fails here, without a call.
pub open spec fn local_failure(target: PostTarget, reason: Seq<char>) -> SettlementView {
    SettlementView {
        history: Some(
            HistoryView {
                status: HistoryStatus::Failed,
                remote_id: None,
                remote_url: None,
                error: Some(reason),
            },
        ),
        status: TargetStatus::Failed,
        attempts: target.attempts,
        outcome: OutcomeView {
            target_id: target.id@,
            platform: target.platform,
            status: TargetStatus::Failed,
            remote_id: None,
            remote_url: None,
            error: Some(reason),
            attempts: 0,
        },
    }
}

/// What the run of a target does first, in this order: a live leg is settled as it
/// is; a leg with nothing to say, and one that the platform would refuse, fails
/// here; any other is sent.
pub open spec fn plan_of(
    post_id: Seq<char>,
    target: PostTarget,
    history: Seq<PostHistoryEntry>,
    account: types::AccountView,
    draft: Option<draft::DraftBodyView>,
) -> PlanView {
    match live_record(history) {
        Some(record) => PlanView::Settle(already_live(target, record)),
        None => match outgoing_segments(
            target.platform,
            chosen_body(opt_body(target.variant_body), draft),
        ) {
            None => PlanView::Settle(
                local_failure(
                    target,
                    "No post body to publish (no variant override and no draft)"@,
                ),
            ),
            Some(segments) => match draft::segments_violation(
                platform::limits_view_named(target.platform.name()),
                segments,
            ) {
                Some(reason) => PlanView::Settle(
                    local_failure(target, target.platform.label_text() + ": "@ + reason),
                ),
                None => PlanView::Attempt(request_of(post_id, account, segments)),
            },
        },
    }
}

/// Fail a target without contacting a provider.
pub fn fail_locally(target: &PostTarget, reason: String) -> (r: Settlement)
    ensures
        r@ == local_failure(*target, reason@),
{
    let again = reason.clone();
    Settlement {
        history: Some(
            NewHistory {
                status: HistoryStatus::Failed,
                remote_id: None,
                remote_url: None,
                error: Some(again),
            },
        ),
        status: TargetStatus::Failed,
        attempts: target.attempts,
        outcome: TargetOutcome {
            target_id: target.id.clone(),
            platform: target.platform,
            status: TargetStatus::Failed,
            remote_id: None,
            remote_url: None,
            error: Some(reason),
            attempts: 0,
        },
    }
}

/// Plan the run of one claimed target, from its history, its account row and the
/// post's draft.
pub fn plan_target(
    post_id: &str,
    target: &PostTarget,
    history: &[PostHistoryEntry],
    account: Option<&SocialAccount>,
    draft_body: Option<&DraftBody>,
) -> (r: TargetPlan)
    ensures
        r@ == plan_of(
            post_id@,
            *target,
            history@,
            account_of(
                *target,
                match account {
                    Some(a) => Some(*a),
                    None => None,
                },
            ),
            opt_body_ref(draft_body),
        ),
{
    let mut i: usize = 0;
    while i < history.len()
        invariant
            i <= history.len(),
            live_record(history@.take(i as int)) is None,
        decreases history.len() - i,
    {
        proof {
            assert(history@.take(i as int + 1).drop_last() =~= history@.take(i as int));
            assert(history@.take(i as int + 1).last() == history@[i as int]);
        }
        let h = &history[i];
        if h.status == HistoryStatus::Published && h.remote_id.is_some() {
            proof {
                lemma_live_record_stands(history@, i as int + 1);
            }
            return TargetPlan::Settle(
                Settlement {
                    history: None,
                    status: TargetStatus::Published,
                    attempts: target.attempts,
                    outcome: TargetOutcome {
                        target_id: target.id.clone(),
                        platform: target.platform,
                        status: TargetStatus::Published,
                        remote_id: h.remote_id.clone(),
                        remote_url: h.remote_url.clone(),
                        error: None,
                        attempts: 0,
                    },
                },
            );
        }
        i = i + 1;
    }
    assert(history@.take(history@.len() as int) =~= history@);
    let segments: Vec<PostSegment> = match resolve_segments(target, draft_body) {
        Some(s) => s,
        None => {
            return TargetPlan::Settle(
                fail_locally(
                    target,
                    "No post body to publish (no variant override and no draft)".to_owned(),
                ),
            );
        },
    };
    match validate_segments_for_platform(target.platform.as_str(), segments.as_slice()) {
        Some(reason) => {
            let mut m: String = target.platform.label().to_owned();
            m.append(": ");
            m.append(reason.as_str());
            TargetPlan::Settle(fail_locally(target, m))
        },
        None => {
            let who = resolve_account(target, account);
            TargetPlan::Attempt(build_request(post_id, &who, &segments))
        },
    }
}

/// A leg with a record of being live is never sent again.
pub proof fn a_live_leg_is_never_sent_again(
    post_id: Seq<char>,
    target: PostTarget,
    history: Seq<PostHistoryEntry>,
    account: types::AccountView,
    draft: Option<draft::DraftBodyView>,
    i: int,
)
    requires
        0 <= i < history.len(),
        history[i].status == HistoryStatus::Published,
        history[i].remote_id is Some,
    ensures
        plan_of(post_id, target, history, account, draft) matches PlanView::Settle(s) && s.status
            == TargetStatus::Published && s.history is None && s.outcome.attempts == 0,
{
    lemma_live_somewhere(history, i);
}

proof fn lemma_live_somewhere(h: Seq<PostHistoryEntry>, i: int)
    requires
        0 <= i < h.len(),
        h[i].status == HistoryStatus::Published,
        h[i].remote_id is Some,
    ensures
        live_record(h) is Some,
    decreases h.len(),
{
    if i < h.len() - 1 {
        assert(h.drop_last()[i] == h[i]);
        lemma_live_somewhere(h.drop_last(), i);
    }
}

/// Whatever is sent fits the platform's limits.
pub proof fn what_is_sent_fits(
    post_id: Seq<char>,
    target: PostTarget,
    history: Seq<PostHistoryEntry>,
    account: types::AccountView,
    draft: Option<draft::DraftBodyView>,
)
    requires
        plan_of(post_id, target, history, account, draft) is Attempt,
    ensures
        outgoing_segments(
            target.platform,
            chosen_body(opt_body(target.variant_body), draft),
        ) matches Some(s) && draft::segments_violation(
            platform::limits_view_named(target.platform.name()),
            s,
        ) is None,
{
}

// ── The attempts of one run ────────────────────────────────────────────────────

/// How far a run has come: calls made so far, the budget, the base of the backoff,
/// and the calls that earlier runs made.
#[derive(Debug, Clone, Copy, PartialEq, Eq, Structural)]
pub struct AttemptRun {
    pub made: u32,
    pub max_attempts: u32,
    pub base_backoff_ms: u64,
    pub before: u32,
}

#[derive(Debug, PartialEq, Eq)]
pub enum AttemptStep {
    /// Wait, then call again with the same request.
    Again { run: AttemptRun, wait_ms: u64 },
    /// Write this down.
    Done(Settlement),
}

pub enum StepView {
    Again { run: AttemptRun, wait_ms: nat },
    Done(SettlementView),
}

impl View for AttemptStep {
    type V = StepView;

    open spec fn view(&self) -> StepView {
        match self {
            AttemptStep::Again { run, wait_ms } => StepView::Again {
                run: *run,
                wait_ms: *wait_ms as nat,
            },
            AttemptStep::Done(s) => StepView::Done(s@),
        }
    }
}

/// The end of a run whose last call, the `made`-th, succeeded.
pub open spec fn run_published(
    run: AttemptRun,
    target_id: Seq<char>,
    platform: Platform,
    remote_id: Seq<char>,
    remote_url: Option<Seq<char>>,
) -> SettlementView {
    SettlementView {
        history: Some(
            HistoryView {
                status: HistoryStatus::Published,
                remote_id: Some(remote_id),
                remote_url,
                error: None,
            },
        ),
        status: TargetStatus::Published,
        attempts: (run.before + run.made) as u32,
        outcome: OutcomeView {
            target_id,
            platform,
            status: TargetStatus::Published,
            remote_id: Some(remote_id),
            remote_url,
            error: None,
            attempts: run.made,
        },
    }
}

/// The end of a run whose calls all failed, the last with this error.
pub open spec fn run_failed(
    run: AttemptRun,
    target_id: Seq<char>,
    platform: Platform,
    error: Seq<char>,
) -> SettlementView {
    SettlementView {
        history: Some(
            HistoryView {
                status: HistoryStatus::Failed,
                remote_id: None,
                remote_url: None,
                error: Some(error),
            },
        ),
        status: TargetStatus::Failed,
        attempts: (run.before + run.made) as u32,
        outcome: OutcomeView {
            target_id,
            platform,
            status: TargetStatus::Failed,
            remote_id: None,
            remote_url: None,
            error: Some(error),
            attempts: run.made,
        },
    }
}

impl AttemptRun {
    /// A call is still to be made, and the counts stay within 32 bits.
    pub open spec fn wf(self) -> bool {
        self.made < self.max_attempts && self.before + self.max_attempts <= u32::MAX
    }

    pub open spec fn called(self) -> AttemptRun {
        AttemptRun { made: (self.made + 1) as u32, ..self }
    }

    /// What follows from the answer to the next call.
    pub open spec fn after(
        self,
        target_id: Seq<char>,
        platform: Platform,
        result: ResultView,
    ) -> StepView {
        let run = self.called();
        match result {
            ResultView::Published { remote_id, remote_url } => StepView::Done(
                run_published(run, target_id, platform, remote_id, remote_url),
            ),
            ResultView::Refused { error } => if run.made < run.max_attempts {
                StepView::Again {
                    run,
                    wait_ms: backoff(run.made as nat, run.base_backoff_ms as nat),
                }
            } else {
                StepView::Done(run_failed(run, target_id, platform, error))
            },
        }
    }

    /// The run of a target that has been called `before` times in its life.
    pub fn start(before: u32, max_attempts: u32, base_backoff_ms: u64) -> (r: Self)
        requires
            max_attempts >= 1,
            before + max_attempts <= u32::MAX,
        ensures
            r == (AttemptRun { made: 0, max_attempts, base_backoff_ms, before }),
            r.wf(),
    {
        AttemptRun { made: 0, max_attempts, base_backoff_ms, before }
    }

    /// Take in the answer to the next call.
    pub fn observe(self, target: &PostTarget, result: PublishResult) -> (r: AttemptStep)
        requires
            self.wf(),
        ensures
            r@ == self.after(target.id@, target.platform, result@),
            match r {
                AttemptStep::Again { run, .. } => run.wf() && run.made == self.made + 1,
                AttemptStep::Done(_) => true,
            },
    {
        let made: u32 = self.made + 1;
        let run = AttemptRun { made, ..self };
        match result {
            PublishResult::Published { remote_id, remote_url } => {
                AttemptStep::Done(
                    Settlement {
                        history: Some(
                            NewHistory {
                                status: HistoryStatus::Published,
                                remote_id: Some(remote_id.clone()),
                                remote_url: remote_url.clone(),
                                error: None,
                            },
                        ),
                        status: TargetStatus::Published,
                        attempts: self.before + made,
                        outcome: TargetOutcome {
                            target_id: target.id.clone(),
                            platform: target.platform,
                            status: TargetStatus::Published,
                            remote_id: Some(remote_id),
                            remote_url,
                            error: None,
                            attempts: made,
                        },
                    },
                )
            },
            PublishResult::Refused { error } => {
                if made < self.max_attempts {
                    AttemptStep::Again {
                        run,
                        wait_ms: backoff_delay_ms(made, self.base_backoff_ms),
                    }
                } else {
                    let again = error.clone();
                    AttemptStep::Done(
                        Settlement {
                            history: Some(
                                NewHistory {
                                    status: HistoryStatus::Failed,
                                    remote_id: None,
                                    remote_url: None,
                                    error: Some(again),
                                },
                            ),
                            status: TargetStatus::Failed,
                            attempts: self.before + made,
                            outcome: TargetOutcome {
                                target_id: target.id.clone(),
                                platform: target.platform,
                                status: TargetStatus::Failed,
                                remote_id: None,
                                remote_url: None,
                                error: Some(error),
                                attempts: made,
                            },
                        },
                    )
                }
            },
        }
    }
}

/// A run fed with a row of answers: what it ends with, if they suffice.
pub open spec fn drive(
    run: AttemptRun,
    target_id: Seq<char>,
    platform: Platform,
    results: Seq<ResultView>,
) -> Option<SettlementView>
    decreases results.len(),
{
    if results.len() == 0 {
        None
    } else {
        match run.after(target_id, platform, results[0]) {
            StepView::Done(s) => Some(s),
            StepView::Again { run: next, .. } => drive(
                next,
                target_id,
                platform,
                results.drop_first(),
            ),
        }
    }
}

/// A run ends with its first success: it reports that call as its last one, and
/// writes one history row.
pub proof fn a_run_ends_with_its_first_success(
    run: AttemptRun,
    target_id: Seq<char>,
    platform: Platform,
    results: Seq<ResultView>,
    k: int,
)
    requires
        run.wf(),
        0 <= k < results.len(),
        run.made + k < run.max_attempts,
        results[k] is Published,
        forall|i: int| 0 <= i < k ==> #[trigger] results[i] is Refused,
    ensures
        drive(run, target_id, platform, results) == Some(
            run_published(
                AttemptRun { made: (run.made + k + 1) as u32, ..run },
                target_id,
                platform,
                results[k]->remote_id,
                results[k]->remote_url,
            ),
        ),
    decreases k,
{
    if k > 0 {
        assert(results[0] is Refused);
        let rest = results.drop_first();
        assert(rest[k - 1] == results[k]);
        assert forall|i: int| 0 <= i < k - 1 implies #[trigger] rest[i] is Refused by {
            assert(rest[i] == results[i + 1]);
        }
        a_run_ends_with_its_first_success(run.called(), target_id, platform, rest, k - 1);
    }
}

/// A run whose calls all fail makes exactly as many as its budget, and reports the
/// last error.
pub proof fn a_failing_run_spends_its_budget(
    run: AttemptRun,
    target_id: Seq<char>,
    platform: Platform,
    results: Seq<ResultView>,
)
    requires
        run.wf(),
        results.len() == run.max_attempts - run.made,
        forall|i: int| 0 <= i < results.len() ==> #[trigger] results[i] is Refused,
    ensures
        drive(run, target_id, platform, results) == Some(
            run_failed(
                AttemptRun { made: run.max_attempts, ..run },
                target_id,
                platform,
                results.last()->error,
            ),
        ),
    decreases results.len(),
{
    assert(results[0] is Refused);
    if results.len() > 1 {
        let rest = results.drop_first();
        assert forall|i: int| 0 <= i < rest.len() implies #[trigger] rest[i] is Refused by {
            assert(rest[i] == results[i + 1]);
        }
        a_failing_run_spends_its_budget(run.called(), target_id, platform, rest);
        assert(rest.last() == results.last());
    } else {
        assert(results.last() == results[0]);
    }
}

pub open spec fn timeout_text(platform: Platform) -> Seq<char> {
    "the "@ + platform.name() + " provider did not answer within "@ + text::decimal_of(
        (PROVIDER_CALL_TIMEOUT_MS / 1000) as nat,
    ) + "s"@
}

/// The answer that a call gets which did not come back in time.
pub fn timed_out(platform: Platform) -> (r: PublishResult)
    ensures
        r@ == (ResultView::Refused { error: timeout_text(platform) }),
{
    let mut m: String = "the ".to_owned();
    m.append(platform.as_str());
    m.append(" provider did not answer within ");
    m.append(decimal((PROVIDER_CALL_TIMEOUT_MS / 1000) as u128).as_str());
    m.append("s");
    PublishResult::Refused { error: m }
}

// ── The run of a whole post ────────────────────────────────────────────────────

/// The first target at or after an index that is not over yet.
pub open spec fn first_open(s: Seq<TargetStatus>, from: int) -> Option<int>
    decreases s.len() - from,
{
    if from >= s.len() {
        None
    } else if s[from].terminal() {
        first_open(s, from + 1)
    } else {
        Some(from)
    }
}

/// Which target the runner turns to next. One that is over is never run again.
pub fn next_target(targets: &Vec<PostTarget>, from: usize) -> (r: Option<usize>)
    ensures
        match r {
            Some(i) => {
                &&& first_open(target_statuses(targets@), from as int) == Some(i as int)
                &&& from <= i < targets@.len()
                &&& !targets@[i as int].status.terminal()
            },
            None => first_open(target_statuses(targets@), from as int) is None,
        },
{
    let mut i: usize = from;
    while i < targets.len()
        invariant
            from <= i,
            first_open(target_statuses(targets@), from as int) == first_open(
                target_statuses(targets@),
                i as int,
            ),
        decreases targets.len() - i,
    {
        assert(target_statuses(targets@)[i as int] == targets@[i as int].status);
        if !targets[i].status.is_terminal() {
            return Some(i);
        }
        i = i + 1;
    }
    None
}

/// The verdict over a post's stored targets: none while one is still open.
pub open spec fn verdict(s: Seq<TargetStatus>) -> Option<PostStatus> {
    if exists|i: int| 0 <= i < s.len() && !(#[trigger] s[i]).terminal() {
        None
    } else {
        Some(aggregate(s))
    }
}

/// The status a post settles in, from its stored targets; `None` leaves it
/// publishing, because someone still owes it work.
pub fn settle_post(persisted: &Vec<PostTarget>) -> (r: Option<PostStatus>)
    ensures
        r == verdict(target_statuses(persisted@)),
{
    let ghost all = target_statuses(persisted@);
    let mut statuses: Vec<TargetStatus> = Vec::new();
    let mut i: usize = 0;
    while i < persisted.len()
        invariant
            i <= persisted.len(),
            all == target_statuses(persisted@),
            statuses@ == all.take(i as int),
            forall|j: int| 0 <= j < i ==> (#[trigger] all[j]).terminal(),
        decreases persisted.len() - i,
    {
        assert(all[i as int] == persisted@[i as int].status);
        if !persisted[i].status.is_terminal() {
            return None;
        }
        statuses.push(persisted[i].status);
        i = i + 1;
        assert(statuses@ =~= all.take(i as int));
    }
    assert(statuses@ =~= all);
    Some(aggregate_target_statuses(statuses.as_slice()))
}

/// A post with an open target is not settled; a settled one is over.
pub proof fn a_verdict_waits_for_every_target(s: Seq<TargetStatus>, i: int)
    requires
        0 <= i < s.len(),
    ensures
        !s[i].terminal() ==> verdict(s) is None,
        verdict(s) matches Some(v) ==> v.terminal() && s[i].terminal(),
{
}

pub open spec fn event_of(status: PostStatus) -> Option<Seq<char>> {
    match status {
        PostStatus::Published => Some(EVENT_POST_PUBLISHED@),
        PostStatus::Partial => Some(EVENT_POST_FAILED@),
        PostStatus::Failed => Some(EVENT_POST_FAILED@),
        _ => None,
    }
}

/// The event that a settled post raises.
pub fn settled_event(status: PostStatus) -> (r: Option<&'static str>)
    ensures
        match r {
            Some(e) => event_of(status) == Some(e@),
            None => event_of(status) is None,
        },
{
    match status {
        PostStatus::Published => Some(EVENT_POST_PUBLISHED),
        PostStatus::Partial => Some(EVENT_POST_FAILED),
        PostStatus::Failed => Some(EVENT_POST_FAILED),
        _ => None,
    }
}

/// A post that is over raises one event: published where it has legs and every one of
/// them was published, failed where one was not. One with an open leg raises none.
pub proof fn the_event_tells_the_outcome(s: Seq<TargetStatus>)
    ensures
        EVENT_POST_PUBLISHED@ != EVENT_POST_FAILED@,
        match verdict(s) {
            Some(v) => event_of(v) == Some(
                if s.len() > 0 && all_published(s) {
                    EVENT_POST_PUBLISHED@
                } else {
                    EVENT_POST_FAILED@
                },
            ),
            None => event_of(PostStatus::Publishing) is None,
        },
{
    reveal_strlit("@ryu/social#post.published");
    reveal_strlit("@ryu/social#post.failed");
    assert(EVENT_POST_PUBLISHED@.len() != EVENT_POST_FAILED@.len());
    published_means_every_target(s);
}

/// The refusal of a run whose post another worker owns.
pub fn lost_claim(post_id: &str) -> (r: ApiError)
    ensures
        r@ == ErrorView::Conflict(
            "post "@ + post_id@ + " is not due (another worker may already own it)"@,
        ),
{
    let mut m: String = "post ".to_owned();
    m.append(post_id);
    m.append(" is not due (another worker may already own it)");
    ApiError::Conflict(m)
}

pub open spec fn effective_attempts(max_attempts: u32) -> u32 {
    if max_attempts < 1 {
        1
    } else if max_attempts > MAX_ATTEMPTS_CEILING {
        MAX_ATTEMPTS_CEILING
    } else {
        max_attempts
    }
}

/// How many attempts a run makes under these settings.
pub fn effective_max_attempts(settings: &SocialSettings) -> (r: u32)
    ensures
        r == effective_attempts(settings.max_attempts),
        1 <= r <= MAX_ATTEMPTS_CEILING,
{
    if settings.max_attempts < 1 {
        1
    } else if settings.max_attempts > MAX_ATTEMPTS_CEILING {
        MAX_ATTEMPTS_CEILING
    } else {
        settings.max_attempts
    }
}

/// "Publish now", from what the store found, whether it could move the post, and
/// the post as it is afterwards.
pub fn queue_now(found: Option<PostStatus>, moved: bool, after: Option<ScheduledPost>) -> (r:
    ApiResult<ScheduledPost>)
    ensures
        match r {
            Ok(p) => found is Some && moved && after == Some(p),
            Err(e) => {
                &&& e@ == (match found {
                    None => ErrorView::NotFound("post"@),
                    Some(s) => if !moved {
                        ErrorView::Conflict(
                            "post is "@ + s.name() + " and can no longer be published now"@,
                        )
                    } else {
                        ErrorView::NotFound("post"@)
                    },
                })
                &&& !(found is Some && moved && after is Some)
            },
        },
{
    let status: PostStatus = match found {
        Some(s) => s,
        None => return Err(ApiError::not_found("post")),
    };
    if !moved {
        let mut m: String = "post is ".to_owned();
        m.append(status.as_str());
        m.append(" and can no longer be published now");
        return Err(ApiError::Conflict(m));
    }
    match after {
        Some(p) => Ok(p),
        None => Err(ApiError::not_found("post")),
    }
}

/// A retry, from what the store found, whether it could requeue the post, and the
/// post as it is afterwards.
pub fn queue_retry(found: Option<PostStatus>, requeued: bool, after: Option<ScheduledPost>) -> (r:
    ApiResult<ScheduledPost>)
    ensures
        match r {
            Ok(p) => found is Some && requeued && after == Some(p),
            Err(e) => {
                &&& e@ == (match found {
                    None => ErrorView::NotFound("post"@),
                    Some(s) => if !requeued {
                        ErrorView::Conflict(
                            "only a partial or failed post can be retried; this one is "@
                                + s.name(),
                        )
                    } else {
                        ErrorView::NotFound("post"@)
                    },
                })
                &&& !(found is Some && requeued && after is Some)
            },
        },
{
    let status: PostStatus = match found {
        Some(s) => s,
        None => return Err(ApiError::not_found("post")),
    };
    if !requeued {
        let mut m: String = "only a partial or failed post can be retried; this one is ".to_owned();
        m.append(status.as_str());
        return Err(ApiError::Conflict(m));
    }
    match after {
        Some(p) => Ok(p),
        None => Err(ApiError::not_found("post")),
    }
}

// ── What a run promises ────────────────────────────────────────────────────────

/// A target with a body of its own is sent that body, whatever the draft says: the
/// same segments, text by text and attachment by attachment, the first alone where
/// the platform takes single posts. The draft changes nothing of the plan.
pub proof fn a_variant_is_sent_in_place_of_the_draft(
    post_id: Seq<char>,
    target: PostTarget,
    history: Seq<PostHistoryEntry>,
    account: types::AccountView,
    draft: Option<draft::DraftBodyView>,
    other: Option<draft::DraftBodyView>,
)
    requires
        target.variant_body is Some,
    ensures
        plan_of(post_id, target, history, account, draft) == plan_of(
            post_id,
            target,
            history,
            account,
            other,
        ),
        plan_of(post_id, target, history, account, draft) matches PlanView::Attempt(q) ==> {
            let said = target.variant_body->0.segments@;
            let sent = q.effective();
            &&& sent.len() == (if platform::limits_view(target.platform).style
                == SegmentStyle::Single {
                1
            } else {
                said.len()
            })
            &&& sent.len() <= said.len()
            &&& forall|i: int|
                0 <= i < sent.len() ==> {
                    &&& (#[trigger] sent[i]).text == said[i].text@
                    &&& sent[i].media.len() == said[i].media@.len()
                    &&& forall|j: int|
                        0 <= j < sent[i].media.len() ==> (#[trigger] sent[i].media[j]).url
                            == said[i].media@[j].path@
                }
        },
{
    let b = target.variant_body->0;
    lemma_sent_is_said(post_id, target, history, account, draft, b@);
    if plan_of(post_id, target, history, account, draft) is Attempt {
        let q = plan_of(post_id, target, history, account, draft)->Attempt_0;
        assert forall|i: int| 0 <= i < q.effective().len() implies {
            &&& (#[trigger] q.effective()[i]).text == b.segments@[i].text@
            &&& q.effective()[i].media.len() == b.segments@[i].media@.len()
            &&& forall|j: int|
                0 <= j < q.effective()[i].media.len() ==> (
                #[trigger] q.effective()[i].media[j]).url == b.segments@[i].media@[j].path@
        } by {
            assert(b@.segments[i] == b.segments@[i]@);
        }
    }
}

/// A target without a body of its own is sent the draft's.
pub proof fn the_draft_is_sent_where_there_is_no_variant(
    post_id: Seq<char>,
    target: PostTarget,
    history: Seq<PostHistoryEntry>,
    account: types::AccountView,
    draft: Option<draft::DraftBodyView>,
)
    requires
        target.variant_body is None,
    ensures
        plan_of(post_id, target, history, account, draft) matches PlanView::Attempt(q) ==> {
            let sent = q.effective();
            &&& draft is Some
            &&& sent.len() == (if platform::limits_view(target.platform).style
                == SegmentStyle::Single {
                1
            } else {
                draft->0.segments.len()
            })
            &&& sent.len() <= draft->0.segments.len()
            &&& forall|i: int|
                0 <= i < sent.len() ==> {
                    &&& (#[trigger] sent[i]).text == draft->0.segments[i].text
                    &&& sent[i].media.len() == draft->0.segments[i].media.len()
                    &&& forall|j: int|
                        0 <= j < sent[i].media.len() ==> (#[trigger] sent[i].media[j]).url
                            == draft->0.segments[i].media[j].path
                }
        },
{
    if plan_of(post_id, target, history, account, draft) is Attempt {
        lemma_sent_is_said(post_id, target, history, account, draft, draft->0);
    }
}

proof fn lemma_sent_is_said(
    post_id: Seq<char>,
    target: PostTarget,
    history: Seq<PostHistoryEntry>,
    account: types::AccountView,
    draft: Option<draft::DraftBodyView>,
    b: draft::DraftBodyView,
)
    requires
        chosen_body(opt_body(target.variant_body), draft) == Some(b),
    ensures
        plan_of(post_id, target, history, account, draft) matches PlanView::Attempt(q) ==> {
            &&& q.effective().len() == (if platform::limits_view(target.platform).style
                == SegmentStyle::Single {
                1
            } else {
                b.segments.len()
            })
            &&& q.effective().len() <= b.segments.len()
            &&& forall|i: int|
                0 <= i < q.effective().len() ==> #[trigger] q.effective()[i] == publish_segment_of(
                    b.segments[i],
                )
        },
{
    if plan_of(post_id, target, history, account, draft) is Attempt {
        let s = outgoing_segments(target.platform, Some(b))->0;
        assert(b.segments.len() >= 1);
        assert(s.len() >= 1);
        every_request_for_a_leg_carries_its_key(post_id, account, s);
    }
}

/// A leg is sent exactly when nothing shows that it is live already, there is a body,
/// its own or else the draft's, and that body passes the platform's limits.
pub proof fn a_leg_is_sent_exactly_when_it_may_be(
    post_id: Seq<char>,
    target: PostTarget,
    history: Seq<PostHistoryEntry>,
    account: types::AccountView,
    draft: Option<draft::DraftBodyView>,
)
    ensures
        plan_of(post_id, target, history, account, draft) is Attempt <==> {
            &&& forall|i: int|
                0 <= i < history.len() ==> (#[trigger] history[i]).status
                    != HistoryStatus::Published || history[i].remote_id is None
            &&& target.variant_body is Some || draft is Some
            &&& draft::segments_violation(
                platform::limits_view(target.platform),
                if target.variant_body is Some {
                    target.variant_body->0@.segments
                } else {
                    draft->0.segments
                },
            ) is None
        },
{
    platform::limits_are_found_by_name(target.platform, Seq::empty(), Seq::empty());
    lemma_live_exactly(history);
    let limits = platform::limits_view(target.platform);
    if target.variant_body is Some || draft is Some {
        let b = if target.variant_body is Some {
            target.variant_body->0@
        } else {
            draft->0
        };
        draft::a_post_passes_exactly_within_the_limits(limits, b.segments);
        draft::a_post_passes_exactly_within_the_limits(limits, b.segments.take(1));
        draft::a_body_speaks_through_any_segment(b);
        if b.segments.len() > 0 {
            assert(b.segments.take(1)[0] == b.segments[0]);
            assert(draft::segments_violation(limits, b.segments) is None ==> {
                &&& b.segments[0].media.len() > 0 || exists|c: int|
                    0 <= c < b.segments[0].text.len() && !text::white(
                        #[trigger] b.segments[0].text[c],
                    )
            });
            if limits.style == SegmentStyle::Single {
                assert(draft::segments_violation(limits, b.segments)
                    == draft::segments_violation(limits, b.segments.take(1)));
            }
        }
    }
}

proof fn lemma_live_exactly(h: Seq<PostHistoryEntry>)
    ensures
        live_record(h) is None <==> forall|i: int|
            0 <= i < h.len() ==> (#[trigger] h[i]).status != HistoryStatus::Published
                || h[i].remote_id is None,
    decreases h.len(),
{
    if h.len() > 0 {
        let init = h.drop_last();
        lemma_live_exactly(init);
        assert forall|i: int| 0 <= i < init.len() implies init[i] == h[i] by {}
        if live_record(init) is Some {
            let i = choose|i: int|
                0 <= i < init.len() && !((#[trigger] init[i]).status != HistoryStatus::Published
                    || init[i].remote_id is None);
            assert(h[i] == init[i]);
        } else {
            assert forall|i: int| 0 <= i < init.len() implies (#[trigger] h[i]).status
                != HistoryStatus::Published || h[i].remote_id is None by {
                assert(init[i] == h[i]);
            }
        }
    }
}

/// Whatever is sent keeps to the platform's figures: no more segments, no more
/// characters and no more attachments in any of them than it takes, and no attachment
/// of another kind.
pub proof fn what_is_sent_keeps_to_the_figures(
    post_id: Seq<char>,
    target: PostTarget,
    history: Seq<PostHistoryEntry>,
    account: types::AccountView,
    draft: Option<draft::DraftBodyView>,
)
    ensures
        plan_of(post_id, target, history, account, draft) matches PlanView::Attempt(q) ==> {
            let limits = platform::limits_view(target.platform);
            &&& 1 <= q.effective().len() <= limits.max_segments
            &&& forall|i: int|
                0 <= i < q.effective().len() ==> {
                    &&& (#[trigger] q.effective()[i]).text.len() <= limits.max_chars
                    &&& q.effective()[i].media.len() <= limits.max_media
                    &&& forall|m: int|
                        0 <= m < q.effective()[i].media.len() ==> exists|j: int|
                            0 <= j < limits.prefixes.len() && (
                            #[trigger] limits.prefixes[j]).is_prefix_of(
                                (#[trigger] q.effective()[i].media[m]).mime_type,
                            )
                }
        },
{
    if plan_of(post_id, target, history, account, draft) is Attempt {
        let limits = platform::limits_view(target.platform);
        let q = plan_of(post_id, target, history, account, draft)->Attempt_0;
        let b = chosen_body(opt_body(target.variant_body), draft)->0;
        platform::limits_are_found_by_name(target.platform, Seq::empty(), Seq::empty());
        platform::every_platform_takes_something(target.platform);
        lemma_sent_is_said(post_id, target, history, account, draft, b);
        let s = outgoing_segments(target.platform, Some(b))->0;
        draft::a_post_passes_exactly_within_the_limits(limits, s);
        assert forall|i: int| 0 <= i < q.effective().len() implies {
            &&& (#[trigger] q.effective()[i]).text.len() <= limits.max_chars
            &&& q.effective()[i].media.len() <= limits.max_media
            &&& forall|m: int|
                0 <= m < q.effective()[i].media.len() ==> exists|j: int|
                    0 <= j < limits.prefixes.len() && (#[trigger] limits.prefixes[j]).is_prefix_of(
                        (#[trigger] q.effective()[i].media[m]).mime_type,
                    )
        } by {
            assert(s[i] == b.segments[i]);
            assert forall|m: int| 0 <= m < q.effective()[i].media.len() implies exists|j: int|
                0 <= j < limits.prefixes.len() && (#[trigger] limits.prefixes[j]).is_prefix_of(
                    (#[trigger] q.effective()[i].media[m]).mime_type,
                ) by {
                the_checked_type_is_the_sent_type(s[i].media[m]);
                assert(q.effective()[i].media[m] == publish_media_of(s[i].media[m]));
            }
        }
    }
}

/// A request tells the provider the account of its target, the key of its leg, the
/// first segment at the top, and the list of segments only where there is more than
/// one. No file name is passed off as a description, and a stated type stays.
pub proof fn a_request_is_of_its_leg(
    post_id: Seq<char>,
    target: PostTarget,
    history: Seq<PostHistoryEntry>,
    account: types::AccountView,
    draft: Option<draft::DraftBodyView>,
)
    ensures
        plan_of(post_id, target, history, account, draft) matches PlanView::Attempt(q) ==> {
            &&& q.account == account
            &&& q.idempotency_key == Some(post_id + ":"@ + account.id)
            &&& q.text == q.effective()[0].text
            &&& q.media == q.effective()[0].media
            &&& q.segments matches Some(s) ==> s.len() > 1 && s == q.effective()
            &&& forall|i: int, m: int|
                0 <= i < q.effective().len() && 0 <= m < q.effective()[i].media.len() ==> (
                #[trigger] q.effective()[i].media[m]).alt_text is None
        },
{
    if plan_of(post_id, target, history, account, draft) is Attempt {
        let b = chosen_body(opt_body(target.variant_body), draft)->0;
        lemma_sent_is_said(post_id, target, history, account, draft, b);
    }
}

/// The account that a call acts on is the target's, on the target's platform; its
/// label and the platform's own id of it are those of the account row, where there is
/// one.
pub proof fn a_call_acts_on_its_account(target: PostTarget, row: Option<SocialAccount>)
    ensures
        account_of(target, row).id == target.social_account_id@,
        account_of(target, row).platform == target.platform,
        row is None ==> account_of(target, row).label is None && account_of(
            target,
            row,
        ).external_id is None,
        row is Some ==> account_of(target, row).label == Some(row->0.account_label@) && account_of(
            target,
            row,
        ).external_id == text::opt_text(row->0.external_id),
{
}

/// A leg that is live is settled with the ids of the first record that shows it, no
/// call is made for it and no record is added.
pub proof fn a_live_leg_is_settled_by_its_record(
    post_id: Seq<char>,
    target: PostTarget,
    history: Seq<PostHistoryEntry>,
    account: types::AccountView,
    draft: Option<draft::DraftBodyView>,
    k: int,
)
    requires
        0 <= k < history.len(),
        history[k].status == HistoryStatus::Published,
        history[k].remote_id is Some,
        forall|i: int|
            0 <= i < k ==> (#[trigger] history[i]).status != HistoryStatus::Published
                || history[i].remote_id is None,
    ensures
        plan_of(post_id, target, history, account, draft) matches PlanView::Settle(s) && {
            &&& s.history is None
            &&& s.status == TargetStatus::Published
            &&& s.attempts == target.attempts
            &&& s.outcome.target_id == target.id@
            &&& s.outcome.platform == target.platform
            &&& s.outcome.status == TargetStatus::Published
            &&& s.outcome.remote_id == Some(history[k].remote_id->0@)
            &&& s.outcome.remote_url == text::opt_text(history[k].remote_url)
            &&& s.outcome.error is None
            &&& s.outcome.attempts == 0
        },
{
    let before = history.take(k);
    assert forall|i: int| 0 <= i < before.len() implies (#[trigger] before[i]).status
        != HistoryStatus::Published || before[i].remote_id is None by {
        assert(before[i] == history[i]);
    }
    lemma_live_exactly(before);
    let upto = history.take(k + 1);
    assert(upto.drop_last() =~= before);
    assert(upto.last() == history[k]);
    lemma_live_record_stands(history, k + 1);
}

/// A leg that is neither live nor sent fails here: one failed record, with the reason
/// that is reported, no remote id, and no attempt counted.
pub proof fn a_leg_that_is_not_sent_says_why(
    post_id: Seq<char>,
    target: PostTarget,
    history: Seq<PostHistoryEntry>,
    account: types::AccountView,
    draft: Option<draft::DraftBodyView>,
)
    requires
        forall|i: int|
            0 <= i < history.len() ==> (#[trigger] history[i]).status != HistoryStatus::Published
                || history[i].remote_id is None,
    ensures
        plan_of(post_id, target, history, account, draft) matches PlanView::Settle(s) ==> {
            &&& s.status == TargetStatus::Failed
            &&& s.attempts == target.attempts
            &&& s.outcome.target_id == target.id@
            &&& s.outcome.platform == target.platform
            &&& s.outcome.status == TargetStatus::Failed
            &&& s.outcome.remote_id is None
            &&& s.outcome.remote_url is None
            &&& s.outcome.attempts == 0
            &&& s.outcome.error is Some
            &&& s.history matches Some(h) && h.status == HistoryStatus::Failed && h.error
                == s.outcome.error && h.remote_id is None && h.remote_url is None
            &&& target.variant_body is None && draft is None ==> s.outcome.error == Some(
                "No post body to publish (no variant override and no draft)"@,
            )
            &&& (target.variant_body matches Some(b) && !b@.says_nothing()) ==> (
            exists|reason: Seq<char>|
                s.outcome.error == Some(
                    #[trigger] (target.platform.label_text() + ": "@ + reason),
                ))
        },
{
    lemma_live_exactly(history);
    if plan_of(post_id, target, history, account, draft) is Settle && target.variant_body is Some
        && !target.variant_body->0@.says_nothing() {
        let b = target.variant_body->0@;
        let segments = outgoing_segments(target.platform, Some(b))->0;
        let reason = draft::segments_violation(
            platform::limits_view_named(target.platform.name()),
            segments,
        )->0;
        assert(plan_of(post_id, target, history, account, draft)->Settle_0.outcome.error == Some(
            target.platform.label_text() + ": "@ + reason,
        ));
    }
}

/// An answer that tells of a post ends the run as published, with the ids that came
/// back. One that refuses ends it as failed, with the last error, exactly when the
/// budget is spent; else the same run goes on with one call more on its count, after
/// the wait for that call. The attempts of a target's life grow by those of the run.
pub proof fn an_answer_ends_a_run_or_repeats_it(
    run: AttemptRun,
    target_id: Seq<char>,
    platform: Platform,
    result: ResultView,
)
    requires
        run.wf(),
    ensures
        run.after(target_id, platform, result) is Done <==> result is Published || run.made + 1
            == run.max_attempts,
        run.after(target_id, platform, result) matches StepView::Done(s) ==> {
            &&& s.attempts == run.before + run.made + 1
            &&& s.outcome.attempts == run.made + 1
            &&& s.outcome.target_id == target_id
            &&& s.outcome.platform == platform
            &&& s.outcome.status == s.status
            &&& s.history is Some
            &&& s.history->0.remote_id == s.outcome.remote_id
            &&& s.history->0.remote_url == s.outcome.remote_url
            &&& s.history->0.error == s.outcome.error
            &&& match result {
                ResultView::Published { remote_id, remote_url } => {
                    &&& s.status == TargetStatus::Published
                    &&& s.history->0.status == HistoryStatus::Published
                    &&& s.outcome.remote_id == Some(remote_id)
                    &&& s.outcome.remote_url == remote_url
                    &&& s.outcome.error is None
                },
                ResultView::Refused { error } => {
                    &&& s.status == TargetStatus::Failed
                    &&& s.history->0.status == HistoryStatus::Failed
                    &&& s.outcome.remote_id is None
                    &&& s.outcome.remote_url is None
                    &&& s.outcome.error == Some(error)
                },
            }
        },
        run.after(target_id, platform, result) matches StepView::Again { run: next, wait_ms } ==> {
            &&& next.made == run.made + 1
            &&& next.max_attempts == run.max_attempts
            &&& next.base_backoff_ms == run.base_backoff_ms
            &&& next.before == run.before
            &&& wait_ms == backoff(next.made as nat, run.base_backoff_ms as nat)
        },
{
}

/// Nothing is waited for before the first attempt; after the first it is the base, and
/// after each further one twice as long as before, never less and never beyond 64
/// bits.
pub proof fn waits_start_at_the_base(attempt: nat, base: nat)
    requires
        base <= u64::MAX,
    ensures
        backoff(0, base) == 0,
        backoff(1, base) == base,
        backoff(2, base) == (if base + base > u64::MAX {
            u64::MAX as nat
        } else {
            base + base
        }),
        backoff(attempt, base) <= u64::MAX,
        attempt >= 1 ==> backoff(attempt, base) >= base,
    decreases attempt,
{
    backoff_doubles(1, base);
    if attempt >= 2 {
        waits_start_at_the_base((attempt - 1) as nat, base);
        backoff_doubles((attempt - 1) as nat, base);
    }
}

/// A post is published when it has targets and each of them is; it failed when none of
/// them is, and is partial in every other case.
pub proof fn a_post_is_what_its_targets_are(s: Seq<TargetStatus>)
    ensures
        aggregate(s) == PostStatus::Published <==> s.len() > 0 && forall|i: int|
            0 <= i < s.len() ==> #[trigger] s[i] == TargetStatus::Published,
        aggregate(s) == PostStatus::Failed <==> forall|i: int|
            0 <= i < s.len() ==> #[trigger] s[i] != TargetStatus::Published,
        aggregate(s) == PostStatus::Partial <==> (exists|i: int|
            0 <= i < s.len() && #[trigger] s[i] == TargetStatus::Published) && (exists|i: int|
            0 <= i < s.len() && #[trigger] s[i] != TargetStatus::Published),
{
    published_means_every_target(s);
    if some_published(s) {
        let i = choose|i: int| 0 <= i < s.len() && #[trigger] s[i] == TargetStatus::Published;
        assert(s[i] == TargetStatus::Published);
    }
    if !all_published(s) {
        let i = choose|i: int| 0 <= i < s.len() && #[trigger] s[i] != TargetStatus::Published;
        assert(s[i] != TargetStatus::Published);
    }
}

/// A post is judged exactly when no target is pending or being published. A published
/// one raises the one event, a failed or partial one the other, and nothing else
/// raises any.
pub proof fn a_post_is_judged_when_no_target_is_open(s: Seq<TargetStatus>, p: PostStatus)
    ensures
        verdict(s) is None <==> exists|i: int|
            0 <= i < s.len() && (#[trigger] s[i] == TargetStatus::Pending || s[i]
                == TargetStatus::Publishing),
        verdict(s) is Some ==> verdict(s)->0 == aggregate(s),
        event_of(p) == Some(EVENT_POST_PUBLISHED@) <==> p == PostStatus::Published,
        event_of(p) == Some(EVENT_POST_FAILED@) <==> p == PostStatus::Failed || p
            == PostStatus::Partial,
        event_of(p) is None <==> p != PostStatus::Published && p != PostStatus::Failed && p
            != PostStatus::Partial,
{
    the_event_tells_the_outcome(s);
    if exists|i: int| 0 <= i < s.len() && !(#[trigger] s[i]).terminal() {
        let i = choose|i: int| 0 <= i < s.len() && !(#[trigger] s[i]).terminal();
        assert(s[i] == TargetStatus::Pending || s[i] == TargetStatus::Publishing);
    }
    if exists|i: int|
        0 <= i < s.len() && (#[trigger] s[i] == TargetStatus::Pending || s[i]
            == TargetStatus::Publishing) {
        let i = choose|i: int|
            0 <= i < s.len() && (#[trigger] s[i] == TargetStatus::Pending || s[i]
                == TargetStatus::Publishing);
        assert(!s[i].terminal());
    }
}

/// The runner turns to the next target that is pending or being published, and skips
/// none.
pub proof fn no_open_target_is_skipped(s: Seq<TargetStatus>, from: int)
    requires
        0 <= from,
    ensures
        first_open(s, from) matches Some(k) ==> {
            &&& from <= k < s.len()
            &&& s[k] == TargetStatus::Pending || s[k] == TargetStatus::Publishing
            &&& forall|i: int|
                from <= i < k ==> #[trigger] s[i] != TargetStatus::Pending && s[i]
                    != TargetStatus::Publishing
        },
        first_open(s, from) is None ==> forall|i: int|
            from <= i < s.len() ==> #[trigger] s[i] != TargetStatus::Pending && s[i]
                != TargetStatus::Publishing,
    decreases s.len() - from,
{
    if from < s.len() && s[from].terminal() {
        no_open_target_is_skipped(s, from + 1);
    }
}

/// A run makes at least one attempt, at most ten, and otherwise as many as the
/// settings say.
pub proof fn attempts_are_as_set_within_bounds(max_attempts: u32)
    ensures
        1 <= effective_attempts(max_attempts) <= 10,
        1 <= max_attempts <= 10 ==> effective_attempts(max_attempts) == max_attempts,
        max_attempts > 10 ==> effective_attempts(max_attempts) == 10,
{
}

} // verus!
