//! A deterministic provider that publishes into memory. It can be told to fail, it
//! honours idempotency keys, and it records what it was handed.
use vstd::prelude::*;
use crate::platform::{Platform, PlatformCapabilities};
use crate::providers::types;
use crate::providers::types::{
    PlatformProvider, ProviderAccount, ProviderId, PublishRequest, PublishResult, PublishSegment,
    RemotePostRef, RequestView, ResultView,
};
use crate::records::EngagementCounts;
use crate::text;
use crate::text::{decimal, text_eq};

verus! {

/// One recorded publish call.
#[derive(Debug, PartialEq, Eq)]
pub struct FakeCall {
    pub account_id: String,
    pub platform: Platform,
    pub idempotency_key: Option<String>,
    pub text: String,
    pub segment_texts: Vec<String>,
    pub media_count: usize,
    /// Whether an earlier post under the same key answered this call.
    pub deduped: bool,
}

#[verifier::ext_equal]
pub struct CallView {
    pub account_id: Seq<char>,
    pub platform: Platform,
    pub idempotency_key: Option<Seq<char>>,
    pub text: Seq<char>,
    pub segment_texts: Seq<Seq<char>>,
    pub media_count: nat,
    pub deduped: bool,
}

impl View for FakeCall {
    type V = CallView;

    open spec fn view(&self) -> CallView {
        CallView {
            account_id: self.account_id@,
            platform: self.platform,
            idempotency_key: text::opt_text(self.idempotency_key),
            text: self.text@,
            segment_texts: text::texts(self.segment_texts@),
            media_count: self.media_count as nat,
            deduped: self.deduped,
        }
    }
}

impl Clone for FakeCall {
    fn clone(&self) -> (r: Self)
        ensures
            r@ == self@,
    {
        let segment_texts = self.segment_texts.clone();
        assert(segment_texts@ =~= self.segment_texts@);
        FakeCall {
            account_id: self.account_id.clone(),
            platform: self.platform,
            idempotency_key: self.idempotency_key.clone(),
            text: self.text.clone(),
            segment_texts,
            media_count: self.media_count,
            deduped: self.deduped,
        }
    }
}

pub open spec fn call_views(s: Seq<FakeCall>) -> Seq<CallView> {
    s.map_values(|c: FakeCall| c@)
}

/// A scriptable provider.
#[derive(Debug)]
pub struct FakeProvider {
    /// Idempotency key and remote id of the post made under it.
    by_key: Vec<(String, String)>,
    /// The remote ids of all posts.
    posts: Vec<String>,
    calls: Vec<FakeCall>,
    /// Publish attempts that will still fail.
    failures_left: u32,
    /// Platforms on which publishing always fails.
    fail_platforms: Vec<Platform>,
    /// Platforms that this provider cannot publish to.
    unpublishable: Vec<Platform>,
}

/// The provider as plain mathematical values.
#[verifier::ext_equal]
pub struct FakeView {
    pub by_key: Map<Seq<char>, Seq<char>>,
    pub posts: Seq<Seq<char>>,
    pub calls: Seq<CallView>,
    pub failures_left: nat,
    pub fail_platforms: Set<Platform>,
    pub unpublishable: Set<Platform>,
}

/// The pairs as a map; of two entries with the same key the earlier one counts.
pub open spec fn pairs_map(s: Seq<(String, String)>) -> Map<Seq<char>, Seq<char>>
    decreases s.len(),
{
    if s.len() == 0 {
        Map::empty()
    } else {
        let m = pairs_map(s.drop_last());
        if m.dom().contains(s.last().0@) {
            m
        } else {
            m.insert(s.last().0@, s.last().1@)
        }
    }
}

impl View for FakeProvider {
    type V = FakeView;

    closed spec fn view(&self) -> FakeView {
        FakeView {
            by_key: pairs_map(self.by_key@),
            posts: text::texts(self.posts@),
            calls: call_views(self.calls@),
            failures_left: self.failures_left as nat,
            fail_platforms: self.fail_platforms@.to_set(),
            unpublishable: self.unpublishable@.to_set(),
        }
    }
}

/// How many files the segments carry together.
pub open spec fn media_total(s: Seq<types::PublishSegmentView>) -> nat
    decreases s.len(),
{
    if s.len() == 0 {
        0
    } else {
        media_total(s.drop_last()) + s.last().media.len()
    }
}

pub open spec fn segment_texts_of(s: Seq<types::PublishSegmentView>) -> Seq<Seq<char>> {
    s.map_values(|x: types::PublishSegmentView| x.text)
}

pub open spec fn fake_url(platform: Platform, remote_id: Seq<char>) -> Seq<char> {
    "https://fake.local/"@ + platform.name() + "/"@ + remote_id
}

/// The call that a request is recorded as. Its media count stays within `usize`.
pub open spec fn call_of(request: RequestView, deduped: bool) -> CallView {
    let total = media_total(request.effective());
    CallView {
        account_id: request.account.id,
        platform: request.account.platform,
        idempotency_key: request.idempotency_key,
        text: request.text,
        segment_texts: segment_texts_of(request.effective()),
        media_count: if total > usize::MAX {
            usize::MAX as nat
        } else {
            total
        },
        deduped,
    }
}

impl FakeView {
    pub open spec fn fresh() -> FakeView {
        FakeView {
            by_key: Map::empty(),
            posts: Seq::empty(),
            calls: Seq::empty(),
            failures_left: 0,
            fail_platforms: Set::empty(),
            unpublishable: Set::empty(),
        }
    }

    pub open spec fn caps(self, platform: Platform) -> PlatformCapabilities {
        let dms = platform == Platform::X || platform == Platform::Instagram;
        PlatformCapabilities {
            publish: !self.unpublishable.contains(platform),
            read_comments: true,
            read_dms: dms,
            send_dm: dms,
            read_engagement: true,
            schedule: false,
        }
    }

    /// The post made under the request's key, if any.
    pub open spec fn live(self, request: RequestView) -> Option<Seq<char>> {
        match request.idempotency_key {
            Some(k) => if self.by_key.dom().contains(k) {
                Some(self.by_key[k])
            } else {
                None
            },
            None => None,
        }
    }

    pub open spec fn remote_id_for(self, request: RequestView) -> Seq<char> {
        match request.idempotency_key {
            Some(k) => "fake_"@ + k,
            None => "fake_"@ + request.account.platform.name() + "_"@ + text::decimal_of(
                self.posts.len() + 1,
            ),
        }
    }

    /// What a publish leaves behind and what it answers. A platform without the
    /// capability is refused before anything is recorded; a key that made a post
    /// answers with that post before any failure that was asked for.
    pub open spec fn step(self, request: RequestView) -> (FakeView, ResultView) {
        let platform = request.account.platform;
        if self.unpublishable.contains(platform) {
            (
                self,
                ResultView::Refused {
                    error: "Publishing is not supported for "@ + platform.name(),
                },
            )
        } else if self.live(request) is Some {
            let id = self.live(request)->0;
            (
                FakeView { calls: self.calls.push(call_of(request, true)), ..self },
                ResultView::Published { remote_id: id, remote_url: Some(fake_url(platform, id)) },
            )
        } else {
            let scripted = self.failures_left > 0;
            let after = FakeView {
                calls: self.calls.push(call_of(request, false)),
                failures_left: if scripted {
                    (self.failures_left - 1) as nat
                } else {
                    0
                },
                ..self
            };
            if scripted || self.fail_platforms.contains(platform) {
                (
                    after,
                    ResultView::Refused {
                        error: "fake: publish to "@ + platform.name() + " failed"@,
                    },
                )
            } else {
                let id = self.remote_id_for(request);
                (
                    FakeView {
                        posts: self.posts.push(id),
                        by_key: match request.idempotency_key {
                            Some(k) => self.by_key.insert(k, id),
                            None => self.by_key,
                        },
                        ..after
                    },
                    ResultView::Published {
                        remote_id: id,
                        remote_url: Some(fake_url(platform, id)),
                    },
                )
            }
        }
    }
}

proof fn lemma_pairs_found(s: Seq<(String, String)>, i: int)
    requires
        0 <= i < s.len(),
        forall|j: int| 0 <= j < i ==> (#[trigger] s[j]).0@ != s[i].0@,
    ensures
        pairs_map(s).dom().contains(s[i].0@),
        pairs_map(s)[s[i].0@] == s[i].1@,
    decreases s.len(),
{
    let init = s.drop_last();
    if i == s.len() - 1 {
        lemma_pairs_absent(init, s[i].0@);
    } else {
        assert forall|j: int| 0 <= j < i implies (#[trigger] init[j]).0@ != init[i].0@ by {
            assert(init[j] == s[j]);
        }
        lemma_pairs_found(init, i);
    }
}

proof fn lemma_pairs_absent(s: Seq<(String, String)>, k: Seq<char>)
    requires
        forall|j: int| 0 <= j < s.len() ==> (#[trigger] s[j]).0@ != k,
    ensures
        !pairs_map(s).dom().contains(k),
    decreases s.len(),
{
    if s.len() > 0 {
        let init = s.drop_last();
        assert forall|j: int| 0 <= j < init.len() implies (#[trigger] init[j]).0@ != k by {
            assert(init[j] == s[j]);
        }
        lemma_pairs_absent(init, k);
        assert(s[s.len() - 1].0@ != k);
    }
}

fn has_platform(v: &Vec<Platform>, p: Platform) -> (r: bool)
    ensures
        r == v@.to_set().contains(p),
{
    let mut i: usize = 0;
    while i < v.len()
        invariant
            i <= v.len(),
            forall|j: int| 0 <= j < i ==> v@[j] != p,
        decreases v.len() - i,
    {
        if v[i] == p {
            assert(v@.contains(p));
            return true;
        }
        i = i + 1;
    }
    false
}

/// The polynomial hash of `platform:id` from which the made-up counts come.
pub open spec fn poly_hash(bytes: Seq<u8>) -> nat
    decreases bytes.len(),
{
    if bytes.len() == 0 {
        0
    } else {
        (poly_hash(bytes.drop_last()) * 31 + bytes.last() as nat) % 2147483647
    }
}

pub open spec fn engagement_hash_of(platform: Platform, remote_id: Seq<char>) -> nat {
    poly_hash(vstd::utf8::encode_utf8(platform.name() + ":"@ + remote_id))
}

pub fn engagement_hash(platform: Platform, remote_id: &str) -> (r: u64)
    ensures
        r == engagement_hash_of(platform, remote_id@),
        r < 2147483647,
{
    let mut input: String = platform.as_str().to_owned();
    input.append(":");
    input.append(remote_id);
    let bytes = input.as_str().as_bytes();
    let mut hash: u64 = 0;
    let mut i: usize = 0;
    assert(bytes@.take(0) =~= Seq::<u8>::empty());
    while i < bytes.len()
        invariant
            i <= bytes.len(),
            hash == poly_hash(bytes@.take(i as int)),
            hash < 2147483647,
        decreases bytes.len() - i,
    {
        proof {
            assert(bytes@.take(i as int + 1).drop_last() =~= bytes@.take(i as int));
            assert(bytes@.take(i as int + 1).last() == bytes@[i as int]);
        }
        hash = (hash * 31 + bytes[i] as u64) % 2_147_483_647;
        i = i + 1;
    }
    assert(bytes@.take(bytes@.len() as int) =~= bytes@);
    hash
}

impl Default for FakeProvider {
    fn default() -> (r: Self)
        ensures
            r@ == FakeView::fresh(),
    {
        Self::new()
    }
}

impl FakeProvider {
    pub fn new() -> (r: Self)
        ensures
            r@ == FakeView::fresh(),
    {
        let r = Self {
            by_key: Vec::new(),
            posts: Vec::new(),
            calls: Vec::new(),
            failures_left: 0,
            fail_platforms: Vec::new(),
            unpublishable: Vec::new(),
        };
        assert(r@ =~= FakeView::fresh());
        r
    }

    /// Every publish to `platform` fails.
    pub fn failing_on(self, platform: Platform) -> (r: Self)
        ensures
            r@ == (FakeView { fail_platforms: self@.fail_platforms.insert(platform), ..self@ }),
    {
        let mut r = self;
        r.fail_platforms.push(platform);
        proof {
            lemma_push_set(self.fail_platforms@, platform);
        }
        r
    }

    /// `platform` cannot be published to.
    pub fn without_publish_for(self, platform: Platform) -> (r: Self)
        ensures
            r@ == (FakeView { unpublishable: self@.unpublishable.insert(platform), ..self@ }),
    {
        let mut r = self;
        r.unpublishable.push(platform);
        proof {
            lemma_push_set(self.unpublishable@, platform);
        }
        r
    }

    /// The first `n` publish attempts fail.
    pub fn failing_first(self, n: u32) -> (r: Self)
        ensures
            r@ == (FakeView { failures_left: n as nat, ..self@ }),
    {
        let mut r = self;
        r.failures_left = n;
        r
    }

    /// Every recorded publish call, in order.
    pub fn calls(&self) -> (r: Vec<FakeCall>)
        ensures
            call_views(r@) == self@.calls,
    {
        let r = self.calls.clone();
        assert(call_views(r@) =~= self@.calls);
        r
    }

    /// How many posts exist.
    pub fn published_count(&self) -> (r: usize)
        ensures
            r == self@.posts.len(),
    {
        self.posts.len()
    }

    pub fn capabilities_for(&self, platform: Platform) -> (r: PlatformCapabilities)
        ensures
            r == self@.caps(platform),
    {
        let dms = matches!(platform, Platform::X | Platform::Instagram);
        PlatformCapabilities {
            publish: !has_platform(&self.unpublishable, platform),
            read_comments: true,
            read_dms: dms,
            send_dm: dms,
            read_engagement: true,
            schedule: false,
        }
    }

    fn find_key(&self, key: &str) -> (r: Option<String>)
        ensures
            match r {
                Some(id) => self@.by_key.dom().contains(key@) && self@.by_key[key@] == id@,
                None => !self@.by_key.dom().contains(key@),
            },
    {
        let mut i: usize = 0;
        while i < self.by_key.len()
            invariant
                i <= self.by_key.len(),
                forall|j: int| 0 <= j < i ==> (#[trigger] self.by_key@[j]).0@ != key@,
            decreases self.by_key.len() - i,
        {
            if text_eq(self.by_key[i].0.as_str(), key) {
                proof {
                    lemma_pairs_found(self.by_key@, i as int);
                }
                return Some(self.by_key[i].1.clone());
            }
            i = i + 1;
        }
        proof {
            lemma_pairs_absent(self.by_key@, key@);
        }
        None
    }

    fn record(&mut self, request: &PublishRequest, deduped: bool)
        ensures
            final(self)@ == (FakeView {
                calls: old(self)@.calls.push(call_of(request@, deduped)),
                ..old(self)@
            }),
    {
        let segments = request.effective_segments();
        let (segment_texts, media_count) = summary_of(&segments);
        let call = FakeCall {
            account_id: request.account.id.clone(),
            platform: request.account.platform,
            idempotency_key: request.idempotency_key.clone(),
            text: request.text.clone(),
            segment_texts,
            media_count,
            deduped,
        };
        assert(call@ =~= call_of(request@, deduped));
        let ghost before = self.calls@;
        self.calls.push(call);
        assert(call_views(self.calls@) =~= call_views(before).push(call@));
    }
}

proof fn lemma_push_set(s: Seq<Platform>, p: Platform)
    ensures
        s.push(p).to_set() == s.to_set().insert(p),
{
    let t = s.push(p);
    assert forall|x: Platform| t.to_set().contains(x) == s.to_set().insert(p).contains(x) by {
        if s.contains(x) {
            let i = choose|i: int| 0 <= i < s.len() && s[i] == x;
            assert(t[i] == x);
        }
        if x == p {
            assert(t[s.len() as int] == x);
        }
        if t.contains(x) {
            let i = choose|i: int| 0 <= i < t.len() && t[i] == x;
            if i < s.len() {
                assert(s[i] == x);
            }
        }
    }
    assert(t.to_set() =~= s.to_set().insert(p));
}

/// The texts of the segments and how many files they carry.
fn summary_of(segments: &Vec<PublishSegment>) -> (r: (Vec<String>, usize))
    ensures
        text::texts(r.0@) == segment_texts_of(types::publish_segment_views(segments@)),
        r.1 == (if media_total(types::publish_segment_views(segments@)) > usize::MAX {
            usize::MAX as nat
        } else {
            media_total(types::publish_segment_views(segments@))
        }),
{
    let ghost views = types::publish_segment_views(segments@);
    let mut texts: Vec<String> = Vec::new();
    let mut count: usize = 0;
    let mut i: usize = 0;
    assert(views.take(0) =~= Seq::<types::PublishSegmentView>::empty());
    assert(text::texts(texts@) =~= segment_texts_of(views.take(0)));
    while i < segments.len()
        invariant
            i <= segments.len(),
            views == types::publish_segment_views(segments@),
            text::texts(texts@) == segment_texts_of(views.take(i as int)),
            count == (if media_total(views.take(i as int)) > usize::MAX {
                usize::MAX as nat
            } else {
                media_total(views.take(i as int))
            }),
        decreases segments.len() - i,
    {
        proof {
            assert(views.take(i as int + 1).drop_last() =~= views.take(i as int));
            assert(views.take(i as int + 1).last() == segments@[i as int]@);
        }
        let ghost before = texts@;
        texts.push(segments[i].text.clone());
        proof {
            assert(text::texts(texts@) =~= text::texts(before).push(segments@[i as int].text@));
            assert(segment_texts_of(views.take(i as int + 1)) =~= segment_texts_of(
                views.take(i as int),
            ).push(segments@[i as int].text@));
        }
        count = count.saturating_add(segments[i].media.len());
        i = i + 1;
    }
    assert(views.take(views.len() as int) =~= views);
    (texts, count)
}

fn url_for(platform: Platform, remote_id: &str) -> (r: String)
    ensures
        r@ == fake_url(platform, remote_id@),
{
    let mut url: String = "https://fake.local/".to_owned();
    url.append(platform.as_str());
    url.append("/");
    url.append(remote_id);
    url
}

impl PlatformProvider for FakeProvider {
    fn id(&self) -> (r: ProviderId)
        ensures
            r == ProviderId::Fake,
    {
        ProviderId::Fake
    }

    fn connect(&self, account: &ProviderAccount) -> (r: Result<Option<String>, String>)
        ensures
            match r {
                Ok(Some(id)) => id@ == "fake_account_"@ + account.id@,
                _ => false,
            },
    {
        let mut id: String = "fake_account_".to_owned();
        id.append(account.id.as_str());
        Ok(Some(id))
    }

    fn disconnect(&mut self, _account: &ProviderAccount) -> (r: Result<(), String>)
        ensures
            r is Ok,
            final(self)@ == old(self)@,
    {
        Ok(())
    }

    fn publish(&mut self, request: &PublishRequest) -> (r: PublishResult)
        ensures
            (final(self)@, r@) == old(self)@.step(request@),
    {
        let platform = request.account.platform;
        if has_platform(&self.unpublishable, platform) {
            let mut e: String = "Publishing is not supported for ".to_owned();
            e.append(platform.as_str());
            return PublishResult::Refused { error: e };
        }
        let existing: Option<String> = match &request.idempotency_key {
            Some(key) => self.find_key(key.as_str()),
            None => None,
        };
        match existing {
            Some(remote_id) => {
                self.record(request, true);
                let url = url_for(platform, remote_id.as_str());
                return PublishResult::Published { remote_id, remote_url: Some(url) };
            },
            None => {},
        }
        let scripted = self.failures_left > 0;
        if scripted {
            self.failures_left = self.failures_left - 1;
        }
        self.record(request, false);
        if scripted || has_platform(&self.fail_platforms, platform) {
            let mut e: String = "fake: publish to ".to_owned();
            e.append(platform.as_str());
            e.append(" failed");
            return PublishResult::Refused { error: e };
        }
        let mut remote_id: String = "fake_".to_owned();
        match &request.idempotency_key {
            Some(key) => {
                remote_id.append(key.as_str());
                let ghost before = self.by_key@;
                self.by_key.push((key.clone(), remote_id.clone()));
                assert(self.by_key@.drop_last() =~= before);
            },
            None => {
                remote_id.append(platform.as_str());
                remote_id.append("_");
                remote_id.append(decimal(self.posts.len() as u128 + 1).as_str());
            },
        }
        let ghost posts = self.posts@;
        self.posts.push(remote_id.clone());
        assert(text::texts(self.posts@) =~= text::texts(posts).push(remote_id@));
        assert(self@ =~= old(self)@.step(request@).0);
        let url = url_for(platform, remote_id.as_str());
        PublishResult::Published { remote_id, remote_url: Some(url) }
    }

    fn read_engagement(&self, post: &RemotePostRef, now: i64) -> (r: Result<
        EngagementCounts,
        String,
    >)
        ensures
            ({
                let h = engagement_hash_of(post.platform, post.remote_id@);
                match r {
                    Ok(c) => {
                        &&& c.likes == Some((h % 1000) as u64)
                        &&& c.comments == Some((h % 137) as u64)
                        &&& c.shares == Some((h % 53) as u64)
                        &&& c.views == Some((h % 1000 * 10) as u64)
                        &&& c.fetched_at == now
                    },
                    Err(_) => false,
                }
            }),
    {
        let hash = engagement_hash(post.platform, post.remote_id.as_str());
        Ok(
            EngagementCounts {
                likes: Some(hash % 1_000),
                comments: Some(hash % 137),
                shares: Some(hash % 53),
                views: Some((hash % 1_000) * 10),
                fetched_at: now,
            },
        )
    }

    fn capabilities(&self, platform: Platform) -> (r: PlatformCapabilities)
        ensures
            r == self@.caps(platform),
    {
        self.capabilities_for(platform)
    }
}

/// A second publish under a key that made a post answers with that post, and makes
/// no other, whatever else it says.
pub proof fn a_repeat_under_a_key_makes_no_second_post(
    v: FakeView,
    request: RequestView,
    again: RequestView,
)
    requires
        request.idempotency_key is Some,
        again.idempotency_key == request.idempotency_key,
        !v.unpublishable.contains(again.account.platform),
        v.step(request).1 is Published,
    ensures
        ({
            let (w, first) = v.step(request);
            let (u, second) = w.step(again);
            &&& second is Published
            &&& second->remote_id == first->remote_id
            &&& again == request ==> second == first
            &&& u.posts == w.posts
            &&& u.by_key == w.by_key
        }),
{
}

/// A post that was made under a key stays the post of that key, whatever is
/// published next.
pub proof fn a_made_post_stays(v: FakeView, request: RequestView, key: Seq<char>)
    requires
        v.by_key.dom().contains(key),
    ensures
        v.step(request).0.by_key.dom().contains(key),
        v.step(request).0.by_key[key] == v.by_key[key],
        v.posts.is_prefix_of(v.step(request).0.posts),
{
    assert(v.posts.is_prefix_of(v.step(request).0.posts));
}

/// A refused publish makes no post.
pub proof fn a_refused_publish_makes_no_post(v: FakeView, request: RequestView)
    requires
        v.step(request).1 is Refused,
    ensures
        v.step(request).0.posts == v.posts,
        v.step(request).0.by_key == v.by_key,
{
}

/// A publish is refused where the platform cannot be published to, and, unless its key
/// made a post before, while failures are left or where the platform always fails.
/// Every other publish is answered with a post.
pub proof fn a_publish_fails_as_it_was_told_to(v: FakeView, request: RequestView)
    ensures
        ({
            let platform = request.account.platform;
            let key = request.idempotency_key;
            let repeated = key is Some && v.by_key.dom().contains(key->0);
            v.step(request).1 is Refused <==> v.unpublishable.contains(platform) || (!repeated && (
            v.failures_left > 0 || v.fail_platforms.contains(platform)))
        }),
        v.step(request).1 is Refused || v.step(request).1 is Published,
{
}

/// A failure that was asked for is used up by the publish it makes fail, and by no
/// other; what the provider was told of platforms stays.
pub proof fn a_failure_is_used_up_once(v: FakeView, request: RequestView)
    ensures
        ({
            let platform = request.account.platform;
            let key = request.idempotency_key;
            let repeated = key is Some && v.by_key.dom().contains(key->0);
            let used = v.failures_left > 0 && !v.unpublishable.contains(platform) && !repeated;
            let after = v.step(request).0;
            &&& used ==> after.failures_left + 1 == v.failures_left
            &&& !used ==> after.failures_left == v.failures_left
            &&& after.fail_platforms == v.fail_platforms
            &&& after.unpublishable == v.unpublishable
        }),
{
}

/// A call to a platform that can be published to is recorded, behind those before it,
/// with what it said and whether an earlier post answered it; any other is not.
pub proof fn every_call_is_recorded(v: FakeView, request: RequestView)
    ensures
        ({
            let platform = request.account.platform;
            let key = request.idempotency_key;
            let after = v.step(request).0;
            let call = after.calls.last();
            &&& v.unpublishable.contains(platform) ==> after.calls == v.calls
            &&& !v.unpublishable.contains(platform) ==> {
                &&& after.calls.len() == v.calls.len() + 1
                &&& after.calls.drop_last() == v.calls
                &&& call.account_id == request.account.id
                &&& call.platform == platform
                &&& call.idempotency_key == key
                &&& call.text == request.text
                &&& call.deduped == (key is Some && v.by_key.dom().contains(key->0))
                &&& call.segment_texts.len() == request.effective().len()
                &&& forall|i: int|
                    0 <= i < request.effective().len() ==> #[trigger] call.segment_texts[i]
                        == request.effective()[i].text
                &&& media_total(request.effective()) <= usize::MAX ==> call.media_count
                    == media_total(request.effective())
            }
        }),
{
    let after = v.step(request).0;
    if !v.unpublishable.contains(request.account.platform) {
        assert(after.calls.drop_last() =~= v.calls);
    }
}

/// A post that is made is added behind those before it and answered with its id and a
/// page under its platform and id; under a key it becomes that key's post, and the posts
/// of other keys stay.
pub proof fn a_made_post_is_answered(v: FakeView, request: RequestView, other: Seq<char>)
    requires
        v.step(request).1 is Published,
    ensures
        ({
            let key = request.idempotency_key;
            let (after, answer) = v.step(request);
            let id = answer->remote_id;
            let repeated = key is Some && v.by_key.dom().contains(key->0);
            &&& answer->remote_url == Some(
                "https://fake.local/"@ + request.account.platform.name() + "/"@ + id,
            )
            &&& repeated ==> id == v.by_key[key->0] && after.posts == v.posts
            &&& !repeated ==> after.posts == v.posts.push(id)
            &&& key is Some ==> after.by_key.dom().contains(key->0) && after.by_key[key->0] == id
            &&& key is Some && !repeated ==> id == "fake_"@ + key->0
            &&& key is None ==> after.by_key == v.by_key && id == "fake_"@
                + request.account.platform.name() + "_"@ + text::decimal_of(v.posts.len() + 1)
            &&& (key is None || other != key->0) ==> after.by_key.dom().contains(other)
                == v.by_key.dom().contains(other) && (v.by_key.dom().contains(other)
                ==> after.by_key[other] == v.by_key[other])
        }),
{
}

/// Comments and counts can be read everywhere, messages on X and Instagram alone, and
/// everything is published unless it was ruled out.
pub proof fn the_fake_can_almost_everything(v: FakeView, platform: Platform)
    ensures
        v.caps(platform).publish <==> !v.unpublishable.contains(platform),
        v.caps(platform).read_comments,
        v.caps(platform).read_engagement,
        v.caps(platform).read_dms <==> platform == Platform::X || platform == Platform::Instagram,
        v.caps(platform).send_dm <==> platform == Platform::X || platform == Platform::Instagram,
        !v.caps(platform).schedule,
{
}

/// Files are counted segment by segment.
pub proof fn files_are_counted_together(
    a: Seq<types::PublishSegmentView>,
    b: Seq<types::PublishSegmentView>,
)
    ensures
        media_total(a + b) == media_total(a) + media_total(b),
        a.len() == 1 ==> media_total(a) == a[0].media.len(),
        a.len() == 0 ==> media_total(a) == 0,
    decreases b.len(),
{
    if b.len() == 0 {
        assert(a + b =~= a);
    } else {
        assert((a + b).drop_last() =~= a + b.drop_last());
        files_are_counted_together(a, b.drop_last());
    }
    if a.len() == 1 {
        assert(media_total(a.drop_last()) == 0);
    }
}

/// The bytes as the digits of a number to the base 31.
pub open spec fn base_31(bytes: Seq<u8>) -> nat
    decreases bytes.len(),
{
    if bytes.len() == 0 {
        0
    } else {
        base_31(bytes.drop_last()) * 31 + bytes.last() as nat
    }
}

/// The hash is what a number to the base 31 leaves when it is divided by the largest
/// prime below two to the thirty-first.
pub proof fn the_hash_is_a_remainder(bytes: Seq<u8>)
    ensures
        poly_hash(bytes) == base_31(bytes) % 2147483647,
    decreases bytes.len(),
{
    if bytes.len() > 0 {
        let init = bytes.drop_last();
        the_hash_is_a_remainder(init);
        let n = base_31(init) as int;
        let b = bytes.last() as int;
        let m = 2147483647int;
        let q = n / m;
        let r = n % m;
        assert(n == q * m + r);
        assert(n * 31 + b == (31 * q) * m + (r * 31 + b)) by (nonlinear_arith)
            requires
                n == q * m + r,
        ;
        vstd::arithmetic::div_mod::lemma_mod_multiples_vanish(31 * q, r * 31 + b, m);
        assert(m * (31 * q) + (r * 31 + b) == n * 31 + b) by (nonlinear_arith)
            requires
                n * 31 + b == (31 * q) * m + (r * 31 + b),
        ;
    }
}

} // verus!
