//! The terms every platform integration speaks.
use vstd::prelude::*;
use crate::platform::{Platform, PlatformCapabilities};
use crate::providers::encoding;
use crate::providers::encoding::stable_key;
use crate::records::EngagementCounts;
use crate::status::InboxKind;
use crate::text;
use crate::text::{decimal, starts_with, text_eq, to_lower, trim};

verus! {

/// Which integration is behind a provider.
#[derive(Debug, Clone, Copy, PartialEq, Eq, Structural, Hash)]
pub enum ProviderId {
    Fake,
    Composio,
    Treg,
    Bluesky,
    Threads,
    /// Nothing is configured.
    Unconfigured,
}

impl ProviderId {
    pub open spec fn name(self) -> Seq<char> {
        match self {
            Self::Fake => "fake"@,
            Self::Composio => "composio"@,
            Self::Treg => "treg"@,
            Self::Bluesky => "bluesky"@,
            Self::Threads => "threads"@,
            Self::Unconfigured => "unconfigured"@,
        }
    }

    pub open spec fn named(s: Seq<char>) -> Option<Self> {
        let t = text::lower_of(text::trim_of(s));
        if t == "fake"@ {
            Some(Self::Fake)
        } else if t == "composio"@ {
            Some(Self::Composio)
        } else if t == "treg"@ {
            Some(Self::Treg)
        } else if t == "bluesky"@ {
            Some(Self::Bluesky)
        } else if t == "threads"@ {
            Some(Self::Threads)
        } else if t == "unconfigured"@ || t == "none"@ {
            Some(Self::Unconfigured)
        } else {
            None
        }
    }

    pub fn as_str(self) -> (r: &'static str)
        ensures
            r@ == self.name(),
    {
        match self {
            Self::Fake => "fake",
            Self::Composio => "composio",
            Self::Treg => "treg",
            Self::Bluesky => "bluesky",
            Self::Threads => "threads",
            Self::Unconfigured => "unconfigured",
        }
    }

    /// Parse a pin written by an operator: white space round it and its case do not
    /// matter, and `none` is another word for unconfigured.
    pub fn parse(s: &str) -> (r: Option<Self>)
        ensures
            r == Self::named(s@),
    {
        let lower = to_lower(trim(s));
        let t: &str = lower.as_str();
        if text_eq(t, "fake") {
            Some(Self::Fake)
        } else if text_eq(t, "composio") {
            Some(Self::Composio)
        } else if text_eq(t, "treg") {
            Some(Self::Treg)
        } else if text_eq(t, "bluesky") {
            Some(Self::Bluesky)
        } else if text_eq(t, "threads") {
            Some(Self::Threads)
        } else if text_eq(t, "unconfigured") || text_eq(t, "none") {
            Some(Self::Unconfigured)
        } else {
            None
        }
    }
}

proof fn lemma_plain_name(s: Seq<char>)
    requires
        forall|i: int| 0 <= i < s.len() ==> 'a' <= #[trigger] s[i] && s[i] <= 'z',
    ensures
        text::lower_of(text::trim_of(s)) == s,
{
    assert(text::trim_start_of(s) == s);
    assert(text::trim_end_of(s) == s);
    assert(text::lower_of(s) =~= s);
}

/// A provider's name parses back to it.
pub proof fn provider_id_round_trip(p: ProviderId)
    ensures
        ProviderId::named(p.name()) == Some(p),
{
    reveal_strlit("fake");
    reveal_strlit("composio");
    reveal_strlit("treg");
    reveal_strlit("bluesky");
    reveal_strlit("threads");
    reveal_strlit("unconfigured");
    reveal_strlit("none");
    lemma_plain_name(p.name());
    assert("fake"@[0] == 'f' && "composio"@[0] == 'c' && "treg"@[0] == 't' && "bluesky"@[0] == 'b'
        && "threads"@[0] == 't' && "unconfigured"@[0] == 'u' && "none"@[0] == 'n');
    assert("treg"@.len() == 4 && "threads"@.len() == 7);
}

/// What a provider is asked for.
#[derive(Debug, Clone, Copy, PartialEq, Eq, Structural)]
pub enum ProviderOperation {
    Publish,
    Connect,
}

impl ProviderOperation {
    /// Publishing needs the publish capability; connecting, any capability.
    pub open spec fn supported(self, caps: PlatformCapabilities) -> bool {
        match self {
            Self::Publish => caps.publish,
            Self::Connect => caps.publish || caps.read_comments || caps.read_dms || caps.send_dm
                || caps.read_engagement,
        }
    }

    pub fn is_supported(self, caps: PlatformCapabilities) -> (r: bool)
        ensures
            r == self.supported(caps),
    {
        match self {
            Self::Publish => caps.publish,
            Self::Connect => caps.publish || caps.read_comments || caps.read_dms || caps.send_dm
                || caps.read_engagement,
        }
    }
}

/// The account a provider call acts on.
#[derive(Debug, PartialEq, Eq)]
pub struct ProviderAccount {
    pub id: String,
    pub platform: Platform,
    /// Absent when the account row is gone but its targets survive.
    pub label: Option<String>,
    pub external_id: Option<String>,
}

#[verifier::ext_equal]
pub struct AccountView {
    pub id: Seq<char>,
    pub platform: Platform,
    pub label: Option<Seq<char>>,
    pub external_id: Option<Seq<char>>,
}

impl View for ProviderAccount {
    type V = AccountView;

    open spec fn view(&self) -> AccountView {
        AccountView {
            id: self.id@,
            platform: self.platform,
            label: text::opt_text(self.label),
            external_id: text::opt_text(self.external_id),
        }
    }
}

impl Clone for ProviderAccount {
    fn clone(&self) -> (r: Self)
        ensures
            r == *self,
    {
        ProviderAccount {
            id: self.id.clone(),
            platform: self.platform,
            label: self.label.clone(),
            external_id: self.external_id.clone(),
        }
    }
}

/// One attachment: a URL, or a local absolute path.
#[derive(Debug, PartialEq, Eq)]
pub struct PublishMedia {
    pub url: String,
    pub mime_type: String,
    pub alt_text: Option<String>,
}

#[verifier::ext_equal]
pub struct PublishMediaView {
    pub url: Seq<char>,
    pub mime_type: Seq<char>,
    pub alt_text: Option<Seq<char>>,
}

impl View for PublishMedia {
    type V = PublishMediaView;

    open spec fn view(&self) -> PublishMediaView {
        PublishMediaView {
            url: self.url@,
            mime_type: self.mime_type@,
            alt_text: text::opt_text(self.alt_text),
        }
    }
}

impl Clone for PublishMedia {
    fn clone(&self) -> (r: Self)
        ensures
            r == *self,
    {
        PublishMedia {
            url: self.url.clone(),
            mime_type: self.mime_type.clone(),
            alt_text: self.alt_text.clone(),
        }
    }
}

impl PublishMediaView {
    /// An `http` or `https` URL, in any case.
    pub open spec fn remote(self) -> bool {
        "http://"@.is_prefix_of(text::lower_of(self.url)) || "https://"@.is_prefix_of(
            text::lower_of(self.url),
        )
    }
}

impl PublishMedia {
    /// Whether a hosted broker could fetch this itself.
    pub fn is_remote(&self) -> (r: bool)
        ensures
            r == self@.remote(),
    {
        let lower = to_lower(self.url.as_str());
        starts_with(lower.as_str(), "http://") || starts_with(lower.as_str(), "https://")
    }
}

pub open spec fn publish_media_views(m: Seq<PublishMedia>) -> Seq<PublishMediaView> {
    m.map_values(|x: PublishMedia| x@)
}

/// The first attachment that is a local file.
pub open spec fn first_local(m: Seq<PublishMediaView>) -> Option<PublishMediaView>
    decreases m.len(),
{
    if m.len() == 0 {
        None
    } else {
        match first_local(m.drop_last()) {
            Some(x) => Some(x),
            None => if m.last().remote() {
                None
            } else {
                Some(m.last())
            },
        }
    }
}

proof fn lemma_first_local_stands(m: Seq<PublishMediaView>, k: int)
    requires
        0 <= k <= m.len(),
        first_local(m.take(k)) is Some,
    ensures
        first_local(m) == first_local(m.take(k)),
    decreases m.len(),
{
    if k == m.len() {
        assert(m.take(k) =~= m);
    } else {
        assert(m.drop_last().take(k) =~= m.take(k));
        lemma_first_local_stands(m.drop_last(), k);
    }
}

/// The URL of the first attachment that is a local file.
pub fn find_local(media: &Vec<PublishMedia>) -> (r: Option<String>)
    ensures
        match (r, first_local(publish_media_views(media@))) {
            (Some(url), Some(m)) => url@ == m.url,
            (None, None) => true,
            _ => false,
        },
{
    let ghost views = publish_media_views(media@);
    let mut i: usize = 0;
    while i < media.len()
        invariant
            i <= media.len(),
            views == publish_media_views(media@),
            first_local(views.take(i as int)) is None,
        decreases media.len() - i,
    {
        proof {
            assert(views.take(i as int + 1).drop_last() =~= views.take(i as int));
            assert(views.take(i as int + 1).last() == media@[i as int]@);
        }
        if !media[i].is_remote() {
            proof {
                lemma_first_local_stands(views, i as int + 1);
            }
            return Some(media[i].url.clone());
        }
        i = i + 1;
    }
    assert(views.take(views.len() as int) =~= views);
    None
}

#[derive(Debug, PartialEq, Eq)]
pub struct PublishSegment {
    pub text: String,
    pub media: Vec<PublishMedia>,
}

#[verifier::ext_equal]
pub struct PublishSegmentView {
    pub text: Seq<char>,
    pub media: Seq<PublishMediaView>,
}

impl View for PublishSegment {
    type V = PublishSegmentView;

    open spec fn view(&self) -> PublishSegmentView {
        PublishSegmentView { text: self.text@, media: publish_media_views(self.media@) }
    }
}

impl Clone for PublishSegment {
    fn clone(&self) -> (r: Self)
        ensures
            r@ == self@,
    {
        let media = self.media.clone();
        assert(media@ =~= self.media@);
        PublishSegment { text: self.text.clone(), media }
    }
}

pub open spec fn publish_segment_views(s: Seq<PublishSegment>) -> Seq<PublishSegmentView> {
    s.map_values(|x: PublishSegment| x@)
}

/// A copy of a list of segments.
pub fn clone_segments(s: &Vec<PublishSegment>) -> (r: Vec<PublishSegment>)
    ensures
        publish_segment_views(r@) == publish_segment_views(s@),
        r@.len() == s@.len(),
{
    let r = s.clone();
    assert(publish_segment_views(r@) =~= publish_segment_views(s@));
    r
}

/// Everything one publish call needs.
#[derive(Debug, PartialEq, Eq)]
pub struct PublishRequest {
    pub account: ProviderAccount,
    /// Mirrors the first segment.
    pub text: String,
    pub media: Vec<PublishMedia>,
    /// Present only where there is more than one segment.
    pub segments: Option<Vec<PublishSegment>>,
    /// The same over every attempt of a run and over every run.
    pub idempotency_key: Option<String>,
}

#[verifier::ext_equal]
pub struct RequestView {
    pub account: AccountView,
    pub text: Seq<char>,
    pub media: Seq<PublishMediaView>,
    pub segments: Option<Seq<PublishSegmentView>>,
    pub idempotency_key: Option<Seq<char>>,
}

impl View for PublishRequest {
    type V = RequestView;

    open spec fn view(&self) -> RequestView {
        RequestView {
            account: self.account@,
            text: self.text@,
            media: publish_media_views(self.media@),
            segments: match self.segments {
                Some(s) => Some(publish_segment_views(s@)),
                None => None,
            },
            idempotency_key: text::opt_text(self.idempotency_key),
        }
    }
}

impl RequestView {
    /// The key of one segment: the request's key, a colon and the index, hashed.
    pub open spec fn segment_key_of(self, index: nat) -> Option<Seq<char>> {
        match self.idempotency_key {
            Some(k) => Some(encoding::stable_key_of(k + ":"@ + text::decimal_of(index))),
            None => None,
        }
    }

    /// The explicit segments where there are any, else one made of the top level.
    pub open spec fn effective(self) -> Seq<PublishSegmentView> {
        match self.segments {
            Some(s) if s.len() > 0 => s,
            _ => seq![PublishSegmentView { text: self.text, media: self.media }],
        }
    }
}

impl Clone for PublishRequest {
    fn clone(&self) -> (r: Self)
        ensures
            r@ == self@,
    {
        let media = self.media.clone();
        assert(media@ =~= self.media@);
        let segments: Option<Vec<PublishSegment>> = match &self.segments {
            Some(s) => Some(clone_segments(s)),
            None => None,
        };
        PublishRequest {
            account: self.account.clone(),
            text: self.text.clone(),
            media,
            segments,
            idempotency_key: self.idempotency_key.clone(),
        }
    }
}

impl PublishRequest {
    /// A stable, plain key for one segment; `None` when the request has no key.
    pub fn segment_key(&self, index: usize) -> (r: Option<String>)
        ensures
            text::opt_text(r) == self@.segment_key_of(index as nat),
    {
        match &self.idempotency_key {
            Some(key) => {
                let mut s: String = key.clone();
                s.append(":");
                s.append(decimal(index as u128).as_str());
                Some(stable_key(s.as_str()))
            },
            None => None,
        }
    }

    /// The segments to publish. There is always at least one.
    pub fn effective_segments(&self) -> (r: Vec<PublishSegment>)
        ensures
            publish_segment_views(r@) == self@.effective(),
            r@.len() == self@.effective().len(),
            r@.len() >= 1,
    {
        match &self.segments {
            Some(segments) if segments.len() > 0 => clone_segments(segments),
            _ => {
                let media = self.media.clone();
                assert(media@ =~= self.media@);
                let mut r: Vec<PublishSegment> = Vec::new();
                r.push(PublishSegment { text: self.text.clone(), media });
                assert(publish_segment_views(r@) =~= self@.effective());
                r
            },
        }
    }
}

/// The outcome of a publish: a failure is a value, too.
#[derive(Debug, PartialEq, Eq)]
pub enum PublishResult {
    Published { remote_id: String, remote_url: Option<String> },
    Refused { error: String },
}

pub enum ResultView {
    Published { remote_id: Seq<char>, remote_url: Option<Seq<char>> },
    Refused { error: Seq<char> },
}

impl View for PublishResult {
    type V = ResultView;

    open spec fn view(&self) -> ResultView {
        match self {
            PublishResult::Published { remote_id, remote_url } => ResultView::Published {
                remote_id: remote_id@,
                remote_url: text::opt_text(*remote_url),
            },
            PublishResult::Refused { error } => ResultView::Refused { error: error@ },
        }
    }
}

impl PublishResult {
    pub fn err(msg: &str) -> (r: Self)
        ensures
            r@ == (ResultView::Refused { error: msg@ }),
    {
        Self::Refused { error: msg.to_owned() }
    }

    pub fn is_ok(&self) -> (r: bool)
        ensures
            r == (self@ is Published),
    {
        matches!(self, Self::Published { .. })
    }

    /// The error text, when this is a failure.
    pub fn error(&self) -> (r: Option<&str>)
        ensures
            match r {
                Some(e) => self@ == (ResultView::Refused { error: e@ }),
                None => self@ is Published,
            },
    {
        match self {
            Self::Refused { error } => Some(error.as_str()),
            Self::Published { .. } => None,
        }
    }
}

/// A published post, addressed for reading its counts.
#[derive(Debug, PartialEq, Eq, Clone)]
pub struct RemotePostRef {
    pub platform: Platform,
    pub remote_id: String,
    pub remote_url: Option<String>,
}

/// An inbound item as a provider reports it.
#[derive(Debug, PartialEq, Eq, Clone)]
pub struct ProviderInboxItem {
    pub external_id: String,
    pub platform: Platform,
    pub kind: InboxKind,
    pub author: String,
    pub text: String,
    pub permalink: Option<String>,
    pub received_at: i64,
}

#[verifier::ext_equal]
pub struct IncomingView {
    pub external_id: Seq<char>,
    pub platform: Platform,
    pub kind: InboxKind,
    pub author: Seq<char>,
    pub text: Seq<char>,
    pub permalink: Option<Seq<char>>,
    pub received_at: i64,
}

impl View for ProviderInboxItem {
    type V = IncomingView;

    open spec fn view(&self) -> IncomingView {
        IncomingView {
            external_id: self.external_id@,
            platform: self.platform,
            kind: self.kind,
            author: self.author@,
            text: self.text@,
            permalink: text::opt_text(self.permalink),
            received_at: self.received_at,
        }
    }
}

pub open spec fn incoming_views(s: Seq<ProviderInboxItem>) -> Seq<IncomingView> {
    s.map_values(|x: ProviderInboxItem| x@)
}

/// A creator's post with its counts.
#[derive(Debug, PartialEq, Eq, Clone)]
pub struct ProviderCreatorPost {
    pub external_id: String,
    pub platform: Platform,
    pub text: String,
    pub permalink: Option<String>,
    pub engagement: EngagementCounts,
    pub published_at: Option<i64>,
}

/// What an integration that needs no network provides. Reading an inbox or a
/// creator's posts is optional, and "nothing" where it is not offered.
pub trait PlatformProvider {
    fn id(&self) -> ProviderId;

    /// Begin or verify the account link: the platform's id of the account.
    fn connect(&self, account: &ProviderAccount) -> Result<Option<String>, String>;

    /// Drop the account link. Dropping it twice is no error.
    fn disconnect(&mut self, account: &ProviderAccount) -> Result<(), String>;

    fn publish(&mut self, request: &PublishRequest) -> PublishResult;

    fn read_engagement(&self, post: &RemotePostRef, now: i64) -> Result<EngagementCounts, String>;

    /// Never an error: an unreachable provider can do nothing. Scheduling is not for
    /// providers.
    fn capabilities(&self, platform: Platform) -> (r: PlatformCapabilities)
        ensures
            !r.schedule,
    ;

    fn read_inbox(&self, _account: &ProviderAccount) -> (r: Vec<ProviderInboxItem>)
        default_ensures
            r@.len() == 0,
    {
        Vec::new()
    }

    fn reply_to_inbox_item(&mut self, _item: &ProviderInboxItem, _text: &str) -> (r: PublishResult)
        default_ensures
            r@ == (ResultView::Refused { error: "replying is not supported by this provider"@ }),
    {
        PublishResult::err("replying is not supported by this provider")
    }

    fn read_creator_top_posts(&self, _platform: Platform, _handle: &str) -> (r: Vec<
        ProviderCreatorPost,
    >)
        default_ensures
            r@.len() == 0,
    {
        Vec::new()
    }
}

/// The provider of a platform for which nothing is configured: it can do nothing,
/// and says so.
pub struct UnconfiguredProvider;

pub open spec fn unconfigured_text(p: Platform) -> Seq<char> {
    "no provider is configured for "@ + p.name()
}

fn unconfigured_message(p: Platform) -> (r: String)
    ensures
        r@ == unconfigured_text(p),
{
    let mut m: String = "no provider is configured for ".to_owned();
    m.append(p.as_str());
    m
}

impl PlatformProvider for UnconfiguredProvider {
    fn id(&self) -> (r: ProviderId)
        ensures
            r == ProviderId::Unconfigured,
    {
        ProviderId::Unconfigured
    }

    fn connect(&self, account: &ProviderAccount) -> (r: Result<Option<String>, String>)
        ensures
            match r {
                Ok(_) => false,
                Err(e) => e@ == unconfigured_text(account.platform)
                    + " — connect a Composio key or platform credentials first"@,
            },
    {
        let mut m = unconfigured_message(account.platform);
        m.append(" — connect a Composio key or platform credentials first");
        Err(m)
    }

    fn disconnect(&mut self, _account: &ProviderAccount) -> (r: Result<(), String>)
        ensures
            r is Ok,
            *final(self) == *old(self),
    {
        Ok(())
    }

    fn publish(&mut self, request: &PublishRequest) -> (r: PublishResult)
        ensures
            r@ == (ResultView::Refused { error: unconfigured_text(request.account.platform) }),
            *final(self) == *old(self),
    {
        PublishResult::Refused { error: unconfigured_message(request.account.platform) }
    }

    fn read_engagement(&self, post: &RemotePostRef, _now: i64) -> (r: Result<
        EngagementCounts,
        String,
    >)
        ensures
            match r {
                Ok(_) => false,
                Err(e) => e@ == unconfigured_text(post.platform),
            },
    {
        Err(unconfigured_message(post.platform))
    }

    fn capabilities(&self, _platform: Platform) -> (r: PlatformCapabilities)
        ensures
            r == PlatformCapabilities::none(),
    {
        PlatformCapabilities::empty()
    }
}

// ── What requests promise ──────────────────────────────────────────────────────

/// A request's segments are its list, where that has any; else the one at its top. A
/// list of one segment is that segment.
pub proof fn a_request_says_what_its_segments_say(r: RequestView)
    ensures
        r.effective().len() >= 1,
        r.segments is Some && r.segments->0.len() > 0 ==> r.effective() == r.segments->0,
        r.segments is None || r.segments->0.len() == 0 ==> r.effective().len() == 1
            && r.effective()[0].text == r.text && r.effective()[0].media == r.media,
{
}

/// The key of a segment is made from the request's key and the segment's position, so
/// that no two segments are given the same text to hash; a request without a key has
/// none for its segments.
pub proof fn a_segment_key_tells_its_position(r: RequestView, i: nat, j: nat)
    ensures
        r.idempotency_key is None ==> r.segment_key_of(i) is None,
        r.idempotency_key is Some ==> {
            let hashed = |n: nat| r.idempotency_key->0 + ":"@ + text::decimal_of(n);
            &&& r.segment_key_of(i) == Some(encoding::stable_key_of(hashed(i)))
            &&& hashed(i) == hashed(j) ==> i == j
        },
{
    if r.idempotency_key is Some {
        let k = r.idempotency_key->0 + ":"@;
        if k + text::decimal_of(i) == k + text::decimal_of(j) {
            assert((k + text::decimal_of(i)).skip(k.len() as int) =~= text::decimal_of(i));
            assert((k + text::decimal_of(j)).skip(k.len() as int) =~= text::decimal_of(j));
            text::decimal_is_injective(i, j);
        }
    }
}

/// A file is remote exactly when its address starts with `http://` or `https://`, in
/// capitals or not. A path is not.
pub proof fn only_the_web_is_remote(m: PublishMediaView, rest: Seq<char>)
    ensures
        m.url == "http://"@ + rest || m.url == "https://"@ + rest || m.url == "HTTP://"@ + rest
            || m.url == "HTTPS://"@ + rest ==> m.remote(),
        m.url.len() == 0 || (m.url[0] != 'h' && m.url[0] != 'H') ==> !m.remote(),
        m.remote() ==> m.url.len() >= 7 && text::lower_of(m.url).take(4) == "http"@ && exists|
            i: int,
        |
            4 <= i <= 5 && #[trigger] m.url[i] == ':' && m.url[i + 1] == '/' && m.url[i + 2] == '/',
{
    reveal_strlit("http://");
    reveal_strlit("https://");
    reveal_strlit("HTTP://");
    reveal_strlit("HTTPS://");
    reveal_strlit("http");
    let low = text::lower_of(m.url);
    assert forall|i: int| 0 <= i < low.len() implies low[i] == text::lower_char(m.url[i]) by {}
    if m.url == "http://"@ + rest || m.url == "HTTP://"@ + rest {
        assert(low.subrange(0, 7) =~= "http://"@);
    }
    if m.url == "https://"@ + rest || m.url == "HTTPS://"@ + rest {
        assert(low.subrange(0, 8) =~= "https://"@);
    }
    if m.remote() {
        if "http://"@.is_prefix_of(low) {
            let p = low.subrange(0, 7);
            assert(p == "http://"@);
            assert(p[0] == low[0] && p[4] == low[4] && p[5] == low[5] && p[6] == low[6]);
            assert(low.take(4) =~= p.take(4));
            assert(p.take(4) =~= "http"@);
            assert(m.url[4] == ':');
        } else {
            let p = low.subrange(0, 8);
            assert(p == "https://"@);
            assert(p[0] == low[0] && p[5] == low[5] && p[6] == low[6] && p[7] == low[7]);
            assert(low.take(4) =~= p.take(4));
            assert(p.take(4) =~= "http"@);
            assert(m.url[5] == ':');
        }
    }
}

/// The local file that is complained of is the first attachment that is not remote;
/// there is none exactly when all are.
pub proof fn the_first_local_file_is_found(m: Seq<PublishMediaView>, k: int)
    requires
        0 <= k < m.len(),
        forall|i: int| 0 <= i < k ==> (#[trigger] m[i]).remote(),
    ensures
        !m[k].remote() ==> first_local(m) == Some(m[k]),
        (forall|i: int| 0 <= i < m.len() ==> (#[trigger] m[i]).remote()) ==> first_local(
            m,
        ) is None,
{
    lemma_all_remote(m.take(k));
    lemma_all_remote(m);
    if !m[k].remote() {
        assert(m.take(k + 1).drop_last() =~= m.take(k));
        assert(m.take(k + 1).last() == m[k]);
        lemma_first_local_stands(m, k + 1);
    }
}

proof fn lemma_all_remote(m: Seq<PublishMediaView>)
    ensures
        (forall|i: int| 0 <= i < m.len() ==> (#[trigger] m[i]).remote()) ==> first_local(m) is None,
    decreases m.len(),
{
    if m.len() > 0 && (forall|i: int| 0 <= i < m.len() ==> (#[trigger] m[i]).remote()) {
        assert forall|i: int| 0 <= i < m.drop_last().len() implies (
        #[trigger] m.drop_last()[i]).remote() by {
            assert(m.drop_last()[i] == m[i]);
        }
        lemma_all_remote(m.drop_last());
        assert(m[m.len() - 1].remote());
    }
}

/// Publishing asks for the one capability; connecting, for any of the five that a
/// provider can have. Scheduling counts for neither.
pub proof fn an_operation_needs_its_capability(c: PlatformCapabilities)
    ensures
        ProviderOperation::Publish.supported(c) <==> c.publish,
        !ProviderOperation::Connect.supported(c) <==> !c.publish && !c.read_comments && !c.read_dms
            && !c.send_dm && !c.read_engagement,
        ProviderOperation::Publish.supported(c) ==> ProviderOperation::Connect.supported(c),
{
}

/// A pin is read whatever its case and the white space round it.
pub proof fn a_pin_is_read_in_any_case(p: ProviderId, s: Seq<char>)
    ensures
        text::lower_of(text::trim_of(s)) == p.name() ==> ProviderId::named(s) == Some(p),
        text::lower_of(text::trim_of(s)) == "none"@ ==> ProviderId::named(s) == Some(
            ProviderId::Unconfigured,
        ),
        ProviderId::named(s) == Some(p) ==> text::lower_of(text::trim_of(s)) == p.name() || (p
            == ProviderId::Unconfigured && text::lower_of(text::trim_of(s)) == "none"@),
{
    provider_id_round_trip(p);
    reveal_strlit("fake");
    reveal_strlit("composio");
    reveal_strlit("treg");
    reveal_strlit("bluesky");
    reveal_strlit("threads");
    reveal_strlit("unconfigured");
    reveal_strlit("none");
    assert("fake"@[0] == 'f' && "composio"@[0] == 'c' && "treg"@[0] == 't' && "bluesky"@[0] == 'b'
        && "threads"@[0] == 't' && "unconfigured"@[0] == 'u' && "none"@[0] == 'n');
    assert("treg"@.len() == 4 && "threads"@.len() == 7);
}

} // verus!
