//! Bluesky over the AT Protocol: sessions, permalinks, and the chain of records
//! that a thread becomes. Requests go out elsewhere; here is what they hold and
//! what their answers mean.
use vstd::prelude::*;
use crate::json;
use crate::platform::{Platform, PlatformCapabilities};
use crate::providers::encoding;
use crate::providers::encoding::{b64url_decode, urlencode};
use crate::providers::types;
use crate::providers::types::{PublishMedia, PublishRequest, PublishResult, ResultView};
use crate::records::EngagementCounts;
use crate::text;
use crate::text::{chars_of, find_char, is_blank, split_once, starts_with, string_of, trim};

verus! {

pub const DEFAULT_PDS: &'static str = "https://bsky.social";
pub const DEFAULT_APPVIEW: &'static str = "https://public.api.bsky.app";
pub const WEB_BASE: &'static str = "https://bsky.app";
pub const COLLECTION: &'static str = "app.bsky.feed.post";

/// A session is refreshed this long before it expires.
pub const EXPIRY_SKEW_MS: i64 = 60_000;
/// The lifetime assumed of a token whose own expiry cannot be read.
pub const ASSUMED_TTL_MS: i64 = 5_400_000;

// ── Credentials and sessions ───────────────────────────────────────────────────

pub open spec fn without_leading(s: Seq<char>, c: char) -> Seq<char>
    decreases s.len(),
{
    if s.len() > 0 && s[0] == c {
        without_leading(s.drop_first(), c)
    } else {
        s
    }
}

/// The text without the `c`s it starts with.
pub fn trim_leading(s: &str, c: char) -> (r: String)
    ensures
        r@ == without_leading(s@, c),
{
    let v = chars_of(s);
    let mut k: usize = 0;
    assert(v@.skip(0) =~= v@);
    while k < v.len() && v[k] == c
        invariant
            k <= v.len(),
            v@ == s@,
            without_leading(s@, c) == without_leading(v@.skip(k as int), c),
        decreases v.len() - k,
    {
        assert(v@.skip(k as int).drop_first() =~= v@.skip(k as int + 1));
        k = k + 1;
    }
    let mut w: Vec<char> = Vec::new();
    let mut i: usize = k;
    while i < v.len()
        invariant
            k <= i <= v.len(),
            w@ == v@.subrange(k as int, i as int),
        decreases v.len() - i,
    {
        w.push(v[i]);
        i = i + 1;
        assert(w@ =~= v@.subrange(k as int, i as int));
    }
    assert(w@ =~= v@.skip(k as int));
    string_of(&w)
}

/// A handle and an app password.
pub struct BlueskyCredentials {
    pub handle: String,
    pub app_password: String,
}

/// The credentials as a log shows them.
#[derive(Debug, PartialEq, Eq)]
pub struct LoggedCredentials {
    pub handle: String,
    pub app_password: &'static str,
}

pub open spec fn handle_of(raw: Seq<char>) -> Seq<char> {
    without_leading(text::trim_of(raw), '@')
}

impl BlueskyCredentials {
    /// The handle is trimmed and loses its leading `@`s.
    pub fn new(handle: &str, app_password: &str) -> (r: Self)
        ensures
            r.handle@ == handle_of(handle@),
            r.app_password@ == app_password@,
    {
        Self { handle: trim_leading(trim(handle), '@'), app_password: app_password.to_owned() }
    }

    /// How the credentials print: without the password.
    pub fn redacted(&self) -> (r: LoggedCredentials)
        ensures
            r.handle@ == self.handle@,
            r.app_password@ == "***"@,
    {
        LoggedCredentials { handle: self.handle.clone(), app_password: "***" }
    }
}

/// A live session.
#[derive(Debug, PartialEq, Eq, Clone)]
pub struct Session {
    pub access_jwt: String,
    pub refresh_jwt: String,
    pub did: String,
    pub handle: String,
    pub expires_at: i64,
}

impl Session {
    /// Good for use: the skew away from its expiry, at least.
    pub open spec fn fresh(self, now: i64) -> bool {
        now < self.expires_at - EXPIRY_SKEW_MS
    }

    pub fn is_fresh(&self, now: i64) -> (r: bool)
        ensures
            r == self.fresh(now),
    {
        (now as i128) < (self.expires_at as i128) - (EXPIRY_SKEW_MS as i128)
    }
}

/// What stands between the first and the second dot, if there is a dot.
pub open spec fn second_part(s: Seq<char>) -> Option<Seq<char>> {
    if s.contains('.') {
        let rest = s.skip(s.index_of_first('.')->0 + 1);
        Some(
            if rest.contains('.') {
                rest.take(rest.index_of_first('.')->0)
            } else {
                rest
            },
        )
    } else {
        None
    }
}

/// The middle part of a token.
pub fn jwt_payload(jwt: &str) -> (r: Option<String>)
    ensures
        text::opt_text(r) == second_part(jwt@),
{
    let v = chars_of(jwt);
    let a: usize = match find_char(&v, 0, '.') {
        Some(i) => i,
        None => return None,
    };
    proof {
        text::lemma_first_index(v@, '.', a as int);
    }
    let ghost rest = v@.skip(a as int + 1);
    let b: usize = match find_char(&v, a + 1, '.') {
        Some(i) => {
            proof {
                assert(rest[i - a - 1] == '.');
                text::lemma_first_index(rest, '.', i - a - 1);
                assert(rest.take(i - a - 1) =~= v@.subrange(a as int + 1, i as int));
            }
            i
        },
        None => {
            proof {
                assert(!rest.contains('.'));
                assert(rest =~= v@.subrange(a as int + 1, v@.len() as int));
            }
            v.len()
        },
    };
    let s = jwt.substring_char(a + 1, b);
    Some(s.to_owned())
}

/// The expiry in a token's payload, given what reading the payload's `exp` as a
/// whole number of seconds gave. One too large for milliseconds is none.
pub open spec fn expiry_of(seconds: Option<i64>) -> Option<i64> {
    match seconds {
        Some(s) => if i64::MIN <= s * 1000 <= i64::MAX {
            Some((s * 1000) as i64)
        } else {
            None
        },
        None => None,
    }
}

pub open spec fn jwt_expiry_of(jwt: Seq<char>) -> Option<i64> {
    match second_part(jwt) {
        Some(p) => match encoding::b64url_of(p) {
            Some(bytes) => expiry_of(json::json_bytes_i64(bytes, "/exp"@)),
            None => None,
        },
        None => None,
    }
}

/// Seconds as milliseconds, where they fit.
pub fn expiry_ms(seconds: Option<i64>) -> (r: Option<i64>)
    ensures
        r == expiry_of(seconds),
{
    match seconds {
        Some(s) => s.checked_mul(1_000),
        None => None,
    }
}

/// The expiry that a token states, in epoch milliseconds; `None` when anything at
/// all is off.
pub fn jwt_expiry_ms(jwt: &str) -> (r: Option<i64>)
    ensures
        r == jwt_expiry_of(jwt@),
{
    match jwt_payload(jwt) {
        Some(payload) => match b64url_decode(payload.as_str()) {
            Some(bytes) => expiry_ms(json::bytes_i64_at(&bytes, "/exp")),
            None => None,
        },
        None => None,
    }
}

pub open spec fn missing_field(name: Seq<char>) -> Seq<char> {
    "bluesky session response missing \""@ + name + "\""@
}

fn missing(name: &str) -> (r: String)
    ensures
        r@ == missing_field(name@),
{
    let mut m: String = "bluesky session response missing \"".to_owned();
    m.append(name);
    m.append("\"");
    m
}

/// A session from its fields: the first that is missing is complained of, in this
/// order; a missing handle is none.
pub fn session_of(
    access_jwt: Option<String>,
    refresh_jwt: Option<String>,
    did: Option<String>,
    handle: Option<String>,
    expiry: Option<i64>,
    now: i64,
) -> (r: Result<Session, String>)
    requires
        now + ASSUMED_TTL_MS <= i64::MAX,
    ensures
        match r {
            Ok(s) => {
                &&& access_jwt == Some(s.access_jwt)
                &&& refresh_jwt == Some(s.refresh_jwt)
                &&& did == Some(s.did)
                &&& s.handle@ == (match handle {
                    Some(h) => h@,
                    None => Seq::empty(),
                })
                &&& s.expires_at == (match expiry {
                    Some(e) => e as int,
                    None => now + ASSUMED_TTL_MS,
                })
            },
            Err(e) => {
                ||| access_jwt is None && e@ == missing_field("accessJwt"@)
                ||| access_jwt is Some && refresh_jwt is None && e@ == missing_field("refreshJwt"@)
                ||| access_jwt is Some && refresh_jwt is Some && did is None && e@
                    == missing_field("did"@)
            },
        },
{
    let access_jwt: String = match access_jwt {
        Some(s) => s,
        None => return Err(missing("accessJwt")),
    };
    let refresh_jwt: String = match refresh_jwt {
        Some(s) => s,
        None => return Err(missing("refreshJwt")),
    };
    let did: String = match did {
        Some(s) => s,
        None => return Err(missing("did")),
    };
    let handle: String = match handle {
        Some(s) => s,
        None => String::new(),
    };
    let expires_at: i64 = match expiry {
        Some(e) => e,
        None => now + ASSUMED_TTL_MS,
    };
    Ok(Session { access_jwt, refresh_jwt, did, handle, expires_at })
}

/// The session in a reply to a login or a refresh.
pub fn session_from(reply: &str, now: i64) -> (r: Result<Session, String>)
    requires
        now + ASSUMED_TTL_MS <= i64::MAX,
    ensures
        ({
            let access = json::json_string(reply@, "/accessJwt"@);
            let refresh = json::json_string(reply@, "/refreshJwt"@);
            let did = json::json_string(reply@, "/did"@);
            match r {
                Ok(s) => {
                    &&& access == Some(s.access_jwt@)
                    &&& refresh == Some(s.refresh_jwt@)
                    &&& did == Some(s.did@)
                    &&& s.handle@ == (match json::json_string(reply@, "/handle"@) {
                        Some(h) => h,
                        None => Seq::empty(),
                    })
                    &&& s.expires_at == (match jwt_expiry_of(s.access_jwt@) {
                        Some(e) => e as int,
                        None => now + ASSUMED_TTL_MS,
                    })
                },
                Err(e) => {
                    ||| access is None && e@ == missing_field("accessJwt"@)
                    ||| access is Some && refresh is None && e@ == missing_field("refreshJwt"@)
                    ||| access is Some && refresh is Some && did is None && e@ == missing_field(
                        "did"@,
                    )
                },
            }
        }),
{
    let access = json::string_at(reply, "/accessJwt");
    let expiry: Option<i64> = match &access {
        Some(jwt) => jwt_expiry_ms(jwt.as_str()),
        None => None,
    };
    session_of(
        access,
        json::string_at(reply, "/refreshJwt"),
        json::string_at(reply, "/did"),
        json::string_at(reply, "/handle"),
        expiry,
        now,
    )
}

/// What to do for a session, given the one at hand.
#[derive(Debug, Clone, Copy, PartialEq, Eq, Structural)]
pub enum SessionPlan {
    /// Use the one at hand.
    Reuse,
    /// Refresh it; if that fails, log in.
    Refresh,
    /// Log in.
    Login,
}

pub fn session_plan(at_hand: Option<&Session>, now: i64) -> (r: SessionPlan)
    ensures
        r == (match at_hand {
            Some(s) => if s.fresh(now) {
                SessionPlan::Reuse
            } else {
                SessionPlan::Refresh
            },
            None => SessionPlan::Login,
        }),
{
    match at_hand {
        Some(s) => {
            if s.is_fresh(now) {
                SessionPlan::Reuse
            } else {
                SessionPlan::Refresh
            }
        },
        None => SessionPlan::Login,
    }
}

/// A session made now from a token without a readable expiry is fresh, and is not
/// any more once the assumed lifetime has passed.
pub proof fn an_assumed_session_expires(s: Session, now: i64)
    requires
        s.expires_at == now + ASSUMED_TTL_MS,
    ensures
        s.fresh(now),
        forall|later: i64| later >= s.expires_at ==> !s.fresh(later),
{
}

// ── Permalinks ─────────────────────────────────────────────────────────────────

/// The record key of a URI `at://{did}/{collection}/{rkey}`; `None` where a part is
/// missing or empty, or there are more.
pub open spec fn rkey(uri: Seq<char>) -> Option<Seq<char>> {
    if !"at://"@.is_prefix_of(uri) {
        None
    } else {
        match text::split_once_of(uri.skip("at://"@.len() as int), '/') {
            Some((did, path)) if did.len() > 0 => match text::split_once_of(path, '/') {
                Some((collection, key)) if collection.len() > 0 && key.len() > 0
                    && !key.contains('/') => Some(key),
                _ => None,
            },
            _ => None,
        }
    }
}

pub fn rkey_of(uri: &str) -> (r: Option<&str>)
    ensures
        match r {
            Some(k) => rkey(uri@) == Some(k@),
            None => rkey(uri@) is None,
        },
{
    if !starts_with(uri, "at://") {
        return None;
    }
    proof {
        reveal_strlit("at://");
    }
    let n: usize = uri.unicode_len();
    let rest = uri.substring_char(5, n);
    assert(rest@ =~= uri@.skip(5));
    let (did, path) = match split_once(rest, '/') {
        Some(parts) => parts,
        None => return None,
    };
    let (collection, key) = match split_once(path, '/') {
        Some(parts) => parts,
        None => return None,
    };
    if did.is_empty() || collection.is_empty() || key.is_empty() {
        return None;
    }
    match split_once(key, '/') {
        Some(_) => None,
        None => Some(key),
    }
}

/// The key of a whole URI is found again in it.
pub proof fn a_whole_uri_gives_its_key(did: Seq<char>, collection: Seq<char>, key: Seq<char>)
    requires
        did.len() > 0 && !did.contains('/'),
        collection.len() > 0 && !collection.contains('/'),
        key.len() > 0 && !key.contains('/'),
    ensures
        rkey("at://"@ + did + "/"@ + collection + "/"@ + key) == Some(key),
{
    reveal_strlit("at://");
    reveal_strlit("/");
    let path = collection + "/"@ + key;
    let rest = did + "/"@ + path;
    let uri = "at://"@ + did + "/"@ + collection + "/"@ + key;
    assert(uri =~= "at://"@ + rest);
    assert(uri.skip(5) =~= rest);
    assert(rest[did.len() as int] == '/');
    text::lemma_first_index(rest, '/', did.len() as int);
    assert(rest.take(did.len() as int) =~= did);
    assert(rest.skip(did.len() as int + 1) =~= path);
    assert(path[collection.len() as int] == '/');
    text::lemma_first_index(path, '/', collection.len() as int);
    assert(path.take(collection.len() as int) =~= collection);
    assert(path.skip(collection.len() as int + 1) =~= key);
}

pub open spec fn post_url_of(handle: Seq<char>, uri: Seq<char>) -> Option<Seq<char>> {
    match rkey(uri) {
        Some(k) if handle.len() > 0 => Some(WEB_BASE@ + "/profile/"@ + handle + "/post/"@ + k),
        _ => None,
    }
}

/// The page of a post; `None` where the handle or the URI does not make one.
pub fn post_url(handle: &str, uri: &str) -> (r: Option<String>)
    ensures
        text::opt_text(r) == post_url_of(handle@, uri@),
{
    if handle.is_empty() {
        return None;
    }
    match rkey_of(uri) {
        Some(k) => {
            let mut url: String = WEB_BASE.to_owned();
            url.append("/profile/");
            url.append(handle);
            url.append("/post/");
            url.append(k);
            Some(url)
        },
        None => None,
    }
}

// ── Records ────────────────────────────────────────────────────────────────────

/// A reference to a record, as replies carry it.
#[derive(Debug, PartialEq, Eq)]
pub struct StrongRef {
    pub uri: String,
    pub cid: String,
}

#[verifier::ext_equal]
pub struct RefView {
    pub uri: Seq<char>,
    pub cid: Seq<char>,
}

impl View for StrongRef {
    type V = RefView;

    open spec fn view(&self) -> RefView {
        RefView { uri: self.uri@, cid: self.cid@ }
    }
}

impl Clone for StrongRef {
    fn clone(&self) -> (r: Self)
        ensures
            r == *self,
    {
        StrongRef { uri: self.uri.clone(), cid: self.cid.clone() }
    }
}

/// A reference from its fields; without a URI it is none, without a `cid` it has an
/// empty one.
pub fn strong_ref_of(uri: Option<String>, cid: Option<String>) -> (r: Result<StrongRef, String>)
    ensures
        match r {
            Ok(s) => uri == Some(s.uri) && s.cid@ == (match cid {
                Some(c) => c@,
                None => Seq::empty(),
            }),
            Err(e) => uri is None && e@ == "bluesky createRecord returned no uri"@,
        },
{
    let uri: String = match uri {
        Some(u) => u,
        None => return Err("bluesky createRecord returned no uri".to_owned()),
    };
    let cid: String = match cid {
        Some(c) => c,
        None => String::new(),
    };
    Ok(StrongRef { uri, cid })
}

/// The reference in a reply to creating or reading a record.
pub fn strong_ref_from(reply: &str) -> (r: Result<StrongRef, String>)
    ensures
        match r {
            Ok(s) => json::json_string(reply@, "/uri"@) == Some(s.uri@) && s.cid@ == (
            match json::json_string(reply@, "/cid"@) {
                Some(c) => c,
                None => Seq::empty(),
            }),
            Err(e) => json::json_string(reply@, "/uri"@) is None && e@
                == "bluesky createRecord returned no uri"@,
        },
{
    strong_ref_of(json::string_at(reply, "/uri"), json::string_at(reply, "/cid"))
}

pub open spec fn record_query_of(did: Seq<char>, key: Seq<char>) -> Seq<char> {
    "repo="@ + encoding::urlencode_of(did) + "&collection="@ + COLLECTION@ + "&rkey="@ + key
}

/// The query that asks whether a record exists under a key.
pub fn record_query(did: &str, key: &str) -> (r: String)
    ensures
        r@ == record_query_of(did@, key@),
{
    let mut q: String = "repo=".to_owned();
    q.append(urlencode(did).as_str());
    q.append("&collection=");
    q.append(COLLECTION);
    q.append("&rkey=");
    q.append(key);
    q
}

/// What a reply comes to, once it is known whether its body is JSON: the text of a
/// document (`null` for a blank body), or why there is none.
pub open spec fn reply_text(
    method: Seq<char>,
    status: u16,
    body: Seq<char>,
    fault: Option<Seq<char>>,
) -> Result<Seq<char>, Seq<char>> {
    if !(200 <= status < 300) {
        Err("bluesky "@ + method + " failed: "@ + text::decimal_of(status as nat) + " "@ + body)
    } else if text::blank(body) {
        Ok("null"@)
    } else {
        match fault {
            None => Ok(body),
            Some(f) => Err(f),
        }
    }
}

/// Judge a reply whose body was read as JSON with this fault, if any.
pub fn judge_reply(method: &str, status: u16, body: &str, fault: Option<String>) -> (r: Result<
    String,
    String,
>)
    ensures
        text::outcome_text(r) == reply_text(method@, status, body@, text::opt_text(fault)),
{
    if status < 200 || status >= 300 {
        let mut m: String = "bluesky ".to_owned();
        m.append(method);
        m.append(" failed: ");
        m.append(crate::text::decimal(status as u128).as_str());
        m.append(" ");
        m.append(body);
        return Err(m);
    }
    if is_blank(body) {
        return Ok("null".to_owned());
    }
    match fault {
        None => Ok(body.to_owned()),
        Some(e) => Err(e),
    }
}

/// Read the body of a reply.
pub fn read_json(method: &str, status: u16, body: &str) -> (r: Result<String, String>)
    ensures
        text::outcome_text(r) == reply_text(method@, status, body@, json::json_fault(body@)),
{
    judge_reply(method, status, body, json::fault(body))
}

/// The pictures among the attachments, in their order: others are dropped.
pub open spec fn images_of(m: Seq<types::PublishMediaView>) -> Seq<types::PublishMediaView>
    decreases m.len(),
{
    if m.len() == 0 {
        m
    } else if "image/"@.is_prefix_of(m.last().mime_type) {
        images_of(m.drop_last()).push(m.last())
    } else {
        images_of(m.drop_last())
    }
}

pub fn images(media: &Vec<PublishMedia>) -> (r: Vec<PublishMedia>)
    ensures
        types::publish_media_views(r@) == images_of(types::publish_media_views(media@)),
{
    let ghost views = types::publish_media_views(media@);
    let mut r: Vec<PublishMedia> = Vec::new();
    let mut i: usize = 0;
    assert(types::publish_media_views(r@) =~= images_of(views.take(0)));
    while i < media.len()
        invariant
            i <= media.len(),
            views == types::publish_media_views(media@),
            types::publish_media_views(r@) == images_of(views.take(i as int)),
        decreases media.len() - i,
    {
        proof {
            assert(views.take(i as int + 1).drop_last() =~= views.take(i as int));
            assert(views.take(i as int + 1).last() == media@[i as int]@);
        }
        if starts_with(media[i].mime_type.as_str(), "image/") {
            let m = media[i].clone();
            let ghost before = r@;
            r.push(m);
            assert(types::publish_media_views(r@) =~= types::publish_media_views(before).push(m@));
        }
        i = i + 1;
    }
    assert(views.take(views.len() as int) =~= views);
    r
}

/// Whether the bytes of an attachment can be had: a remote file is fetched, a local
/// one needs an absolute path.
#[derive(Debug, PartialEq, Eq)]
pub enum MediaSource {
    Fetch,
    Read,
    Refused(String),
}

/// Where the bytes of an attachment come from.
pub fn media_source(media: &PublishMedia, absolute: bool) -> (r: MediaSource)
    ensures
        match r {
            MediaSource::Fetch => media@.remote(),
            MediaSource::Read => !media@.remote() && absolute,
            MediaSource::Refused(e) => !media@.remote() && !absolute && e@
                == "media path must be absolute, got \""@ + media.url@ + "\""@,
        },
{
    if media.is_remote() {
        MediaSource::Fetch
    } else if absolute {
        MediaSource::Read
    } else {
        let mut m: String = "media path must be absolute, got \"".to_owned();
        m.append(media.url.as_str());
        m.append("\"");
        MediaSource::Refused(m)
    }
}

// ── Publishing a thread ────────────────────────────────────────────────────────

/// How far a thread has come: the first record and the last one, and how many
/// segments have theirs.
#[derive(Debug, PartialEq, Eq)]
pub struct ThreadRun {
    pub root: Option<StrongRef>,
    pub parent: Option<StrongRef>,
    pub done: usize,
}

#[verifier::ext_equal]
pub struct ThreadView {
    pub root: Option<RefView>,
    pub parent: Option<RefView>,
    pub done: nat,
}

pub open spec fn opt_ref(r: Option<StrongRef>) -> Option<RefView> {
    match r {
        Some(x) => Some(x@),
        None => None,
    }
}

impl View for ThreadRun {
    type V = ThreadView;

    open spec fn view(&self) -> ThreadView {
        ThreadView {
            root: opt_ref(self.root),
            parent: opt_ref(self.parent),
            done: self.done as nat,
        }
    }
}

/// One record to create.
#[derive(Debug, PartialEq, Eq)]
pub struct RecordPlan {
    /// The record key, by which a repeat is recognised.
    pub rkey: Option<String>,
    pub text: String,
    pub images: Vec<PublishMedia>,
    /// The thread's first record and the one this replies to.
    pub reply: Option<(StrongRef, StrongRef)>,
}

#[verifier::ext_equal]
pub struct RecordView {
    pub rkey: Option<Seq<char>>,
    pub text: Seq<char>,
    pub images: Seq<types::PublishMediaView>,
    pub reply: Option<(RefView, RefView)>,
}

impl View for RecordPlan {
    type V = RecordView;

    open spec fn view(&self) -> RecordView {
        RecordView {
            rkey: text::opt_text(self.rkey),
            text: self.text@,
            images: types::publish_media_views(self.images@),
            reply: match self.reply {
                Some((a, b)) => Some((a@, b@)),
                None => None,
            },
        }
    }
}

impl ThreadView {
    pub open spec fn start() -> ThreadView {
        ThreadView { root: None, parent: None, done: 0 }
    }

    /// The next record, if a segment is left. Each replies to the one before it.
    pub open spec fn next(self, request: types::RequestView) -> Option<RecordView> {
        let segments = request.effective();
        if self.done < segments.len() {
            let s = segments[self.done as int];
            Some(
                RecordView {
                    rkey: request.segment_key_of(self.done),
                    text: s.text,
                    images: images_of(s.media),
                    reply: match (self.root, self.parent) {
                        (Some(a), Some(b)) => Some((a, b)),
                        _ => None,
                    },
                },
            )
        } else {
            None
        }
    }

    pub open spec fn created(self, r: RefView) -> ThreadView {
        ThreadView {
            root: match self.root {
                Some(a) => Some(a),
                None => Some(r),
            },
            parent: Some(r),
            done: self.done + 1,
        }
    }

    /// The answer once no segment is left: the first record stands for the thread.
    pub open spec fn result(self, handle: Seq<char>) -> ResultView {
        match self.root {
            Some(a) => ResultView::Published {
                remote_id: a.uri,
                remote_url: post_url_of(handle, a.uri),
            },
            None => ResultView::Refused { error: "nothing to publish"@ },
        }
    }
}

impl ThreadRun {
    pub fn start() -> (r: Self)
        ensures
            r@ == ThreadView::start(),
    {
        ThreadRun { root: None, parent: None, done: 0 }
    }

    /// The next record to create, if a segment is left.
    pub fn next_record(&self, request: &PublishRequest) -> (r: Option<RecordPlan>)
        ensures
            match r {
                Some(p) => self@.next(request@) == Some(p@),
                None => self@.next(request@) is None,
            },
    {
        let segments = request.effective_segments();
        if self.done >= segments.len() {
            return None;
        }
        assert(types::publish_segment_views(segments@)[self.done as int]
            == segments@[self.done as int]@);
        let s = &segments[self.done];
        let reply: Option<(StrongRef, StrongRef)> = match (&self.root, &self.parent) {
            (Some(a), Some(b)) => Some((a.clone(), b.clone())),
            _ => None,
        };
        Some(
            RecordPlan {
                rkey: request.segment_key(self.done),
                text: s.text.clone(),
                images: images(&s.media),
                reply,
            },
        )
    }

    /// Take in the record that now exists for the next segment.
    pub fn record_created(self, created: StrongRef) -> (r: Self)
        requires
            self.done < usize::MAX,
        ensures
            r@ == self@.created(created@),
    {
        let root: StrongRef = match self.root {
            Some(a) => a,
            None => created.clone(),
        };
        ThreadRun { root: Some(root), parent: Some(created), done: self.done + 1 }
    }

    /// The answer once no segment is left.
    pub fn finish(self, handle: &str) -> (r: PublishResult)
        ensures
            r@ == self@.result(handle@),
    {
        match self.root {
            Some(root) => {
                let remote_url = post_url(handle, root.uri.as_str());
                PublishResult::Published { remote_id: root.uri, remote_url }
            },
            None => PublishResult::err("nothing to publish"),
        }
    }
}

/// What a failed creation comes to: where the record was to have a key and one
/// exists under it, that record; else the failure.
pub fn after_failed_create(keyed: bool, existing: Option<StrongRef>, error: String) -> (r: Result<
    StrongRef,
    String,
>)
    ensures
        match r {
            Ok(s) => keyed && existing == Some(s),
            Err(e) => e@ == error@ && !(keyed && existing is Some),
        },
{
    if keyed {
        match existing {
            Some(s) => Ok(s),
            None => Err(error),
        }
    } else {
        Err(error)
    }
}

/// A thread fed with a row of records.
pub open spec fn thread_after(v: ThreadView, records: Seq<RefView>) -> ThreadView
    decreases records.len(),
{
    if records.len() == 0 {
        v
    } else {
        thread_after(v, records.drop_last()).created(records.last())
    }
}

/// After a row of records the thread's first record is the first of them, and the
/// next segment replies to the last.
pub proof fn a_thread_chains_its_records(records: Seq<RefView>, request: types::RequestView)
    requires
        records.len() > 0,
    ensures
        thread_after(ThreadView::start(), records).root == Some(records[0]),
        thread_after(ThreadView::start(), records).parent == Some(records.last()),
        thread_after(ThreadView::start(), records).done == records.len(),
        records.len() < request.effective().len() ==> thread_after(
            ThreadView::start(),
            records,
        ).next(request)->0.reply == Some((records[0], records.last())),
        records.len() >= request.effective().len() ==> thread_after(
            ThreadView::start(),
            records,
        ).next(request) is None,
    decreases records.len(),
{
    if records.len() == 1 {
        assert(records.drop_last() =~= Seq::<RefView>::empty());
        assert(thread_after(ThreadView::start(), records.drop_last()) == ThreadView::start());
    } else {
        a_thread_chains_its_records(records.drop_last(), request);
        assert(records.drop_last()[0] == records[0]);
    }
}

/// A later run under the same key addresses the same records, whatever became of the
/// earlier one: a segment that went out collides with itself.
pub proof fn a_retry_addresses_the_same_records(
    earlier: ThreadView,
    later: ThreadView,
    request: types::RequestView,
    again: types::RequestView,
)
    requires
        earlier.done == later.done,
        again.idempotency_key == request.idempotency_key,
        earlier.next(request) is Some,
        later.next(again) is Some,
    ensures
        earlier.next(request)->0.rkey == later.next(again)->0.rkey,
        request.idempotency_key is Some ==> earlier.next(request)->0.rkey is Some,
{
}

/// Why this adapter does not publish a request at all.
pub fn publish_refusal(platform: Platform) -> (r: Option<PublishResult>)
    ensures
        match r {
            Some(e) => platform != Platform::Bluesky && e@ == (ResultView::Refused {
                error: "the Bluesky adapter cannot publish to "@ + platform.name(),
            }),
            None => platform == Platform::Bluesky,
        },
{
    if platform == Platform::Bluesky {
        return None;
    }
    let mut m: String = "the Bluesky adapter cannot publish to ".to_owned();
    m.append(platform.as_str());
    Some(PublishResult::Refused { error: m })
}

pub open spec fn caps_of(platform: Platform) -> PlatformCapabilities {
    if platform == Platform::Bluesky {
        PlatformCapabilities { publish: true, read_engagement: true, ..PlatformCapabilities::none() }
    } else {
        PlatformCapabilities::none()
    }
}

/// What this adapter can do.
pub fn capabilities(platform: Platform) -> (r: PlatformCapabilities)
    ensures
        r == caps_of(platform),
        !r.schedule,
{
    if platform != Platform::Bluesky {
        return PlatformCapabilities::empty();
    }
    PlatformCapabilities {
        publish: true,
        read_comments: false,
        read_dms: false,
        send_dm: false,
        read_engagement: true,
        schedule: false,
    }
}

/// The query for a post's counts.
pub fn engagement_query(remote_id: &str) -> (r: String)
    ensures
        r@ == "uris="@ + encoding::urlencode_of(remote_id@),
{
    let mut q: String = "uris=".to_owned();
    q.append(urlencode(remote_id).as_str());
    q
}

/// A count of the first post in a reply, where the reply has a row of posts.
pub open spec fn first_post_count(reply: Seq<char>, pointer: Seq<char>) -> Option<u64> {
    match json::json_array_len(reply, "/posts"@) {
        Some(_) => json::json_u64(reply, pointer),
        None => None,
    }
}

/// The counts in a reply: those of its first post. Views are never reported.
pub fn engagement_from(reply: &str, now: i64) -> (r: EngagementCounts)
    ensures
        r.likes == first_post_count(reply@, "/posts/0/likeCount"@),
        r.comments == first_post_count(reply@, "/posts/0/replyCount"@),
        r.shares == first_post_count(reply@, "/posts/0/repostCount"@),
        r.views is None,
        r.fetched_at == now,
{
    if json::array_len_at(reply, "/posts").is_none() {
        return EngagementCounts {
            likes: None,
            comments: None,
            shares: None,
            views: None,
            fetched_at: now,
        };
    }
    EngagementCounts {
        likes: json::u64_at(reply, "/posts/0/likeCount"),
        comments: json::u64_at(reply, "/posts/0/replyCount"),
        shares: json::u64_at(reply, "/posts/0/repostCount"),
        views: None,
        fetched_at: now,
    }
}

// ── What the adapter promises ──────────────────────────────────────────────────

/// The pictures that go out are the attachments whose type is a picture's, in their
/// order.
proof fn lemma_images_are_filtered(m: Seq<types::PublishMediaView>)
    ensures
        images_of(m) == m.filter(|x: types::PublishMediaView| "image/"@.is_prefix_of(x.mime_type)),
    decreases m.len(),
{
    reveal(Seq::filter);
    if m.len() > 0 {
        lemma_images_are_filtered(m.drop_last());
    }
}

/// Every segment of a thread has its own record, in their order: the record that is
/// planned after `k` of them were created has the text and the pictures of segment
/// `k`, under the key of segment `k`; the first replies to nothing.
pub proof fn every_segment_has_its_record(records: Seq<RefView>, request: types::RequestView)
    ensures
        records.len() < request.effective().len() ==> {
            let planned = thread_after(ThreadView::start(), records).next(request);
            let segment = request.effective()[records.len() as int];
            &&& planned is Some
            &&& planned->0.text == segment.text
            &&& planned->0.images == segment.media.filter(
                |x: types::PublishMediaView| "image/"@.is_prefix_of(x.mime_type),
            )
            &&& planned->0.rkey == request.segment_key_of(records.len())
            &&& planned->0.reply is None <==> records.len() == 0
        },
        records.len() >= request.effective().len() ==> thread_after(
            ThreadView::start(),
            records,
        ).next(request) is None,
{
    if records.len() > 0 {
        a_thread_chains_its_records(records, request);
    } else {
        assert(thread_after(ThreadView::start(), records) == ThreadView::start());
    }
    if records.len() < request.effective().len() {
        lemma_images_are_filtered(request.effective()[records.len() as int].media);
    }
}

/// A thread is known by its first record: its URI is the post's id, and its page is
/// the post's page. Without a record nothing was published.
pub proof fn a_thread_is_known_by_its_first_record(records: Seq<RefView>, handle: Seq<char>)
    ensures
        records.len() > 0 ==> thread_after(ThreadView::start(), records).result(handle) == (
        ResultView::Published {
            remote_id: records[0].uri,
            remote_url: post_url_of(handle, records[0].uri),
        }),
        records.len() == 0 ==> thread_after(
            ThreadView::start(),
            records,
        ).result(handle) is Refused,
{
    if records.len() > 0 {
        let request = types::RequestView {
            account: types::AccountView {
                id: Seq::empty(),
                platform: Platform::Bluesky,
                label: None,
                external_id: None,
            },
            text: Seq::empty(),
            media: Seq::empty(),
            segments: None,
            idempotency_key: None,
        };
        a_thread_chains_its_records(records, request);
    }
}

/// A record key is found only in a URI made of an authority, a collection and that
/// key.
pub proof fn a_key_is_the_end_of_its_uri(uri: Seq<char>) -> (parts: (Seq<char>, Seq<char>))
    requires
        rkey(uri) is Some,
    ensures
        uri == "at://"@ + parts.0 + "/"@ + parts.1 + "/"@ + rkey(uri)->0,
        parts.0.len() > 0 && !parts.0.contains('/'),
        parts.1.len() > 0 && !parts.1.contains('/'),
        rkey(uri)->0.len() > 0 && !rkey(uri)->0.contains('/'),
{
    reveal_strlit("at://");
    reveal_strlit("/");
    let rest = uri.skip(5);
    let (did, path) = text::split_once_of(rest, '/')->0;
    let (collection, key) = text::split_once_of(path, '/')->0;
    rest.index_of_first_ensures('/');
    path.index_of_first_ensures('/');
    assert(uri =~= "at://"@ + rest);
    assert(rest =~= did + "/"@ + path);
    assert(path =~= collection + "/"@ + key);
    assert(uri =~= "at://"@ + did + "/"@ + collection + "/"@ + key);
    (did, collection)
}

/// The page of a post names the handle and the record key, and there is one exactly
/// where there are both.
pub proof fn a_page_names_its_handle_and_key(handle: Seq<char>, uri: Seq<char>)
    ensures
        post_url_of(handle, uri) is Some <==> handle.len() > 0 && rkey(uri) is Some,
        post_url_of(handle, uri) is Some ==> post_url_of(handle, uri)->0
            == "https://bsky.app/profile/"@ + handle + "/post/"@ + rkey(uri)->0,
{
    reveal_strlit("https://bsky.app/profile/");
    reveal_strlit("https://bsky.app");
    reveal_strlit("/profile/");
    assert(WEB_BASE@ + "/profile/"@ =~= "https://bsky.app/profile/"@);
}

/// A handle is the trimmed text without the `@`s before it, and starts with none.
pub proof fn a_handle_starts_with_no_at_sign(raw: Seq<char>, k: nat, name: Seq<char>)
    ensures
        handle_of(raw).len() > 0 ==> handle_of(raw)[0] != '@',
        text::trim_of(raw) == Seq::new(k, |i: int| '@') + name && (name.len() > 0 ==> name[0]
            != '@') ==> handle_of(raw) == name,
{
    lemma_leading_gone(text::trim_of(raw), '@');
    if text::trim_of(raw) == Seq::new(k, |i: int| '@') + name && (name.len() > 0 ==> name[0] != '@') {
        lemma_leading_dropped(k, name, '@');
    }
}

proof fn lemma_leading_gone(s: Seq<char>, c: char)
    ensures
        without_leading(s, c).len() > 0 ==> without_leading(s, c)[0] != c,
    decreases s.len(),
{
    if s.len() > 0 && s[0] == c {
        lemma_leading_gone(s.drop_first(), c);
    }
}

proof fn lemma_leading_dropped(k: nat, name: Seq<char>, c: char)
    requires
        name.len() > 0 ==> name[0] != c,
    ensures
        without_leading(Seq::new(k, |i: int| c) + name, c) == name,
    decreases k,
{
    let s = Seq::new(k, |i: int| c) + name;
    if k == 0 {
        assert(s =~= name);
    } else {
        assert(s[0] == c);
        assert(s.drop_first() =~= Seq::new((k - 1) as nat, |i: int| c) + name);
        lemma_leading_dropped((k - 1) as nat, name, c);
    }
}

/// A token's payload is what stands between its first two dots.
pub proof fn the_payload_is_the_middle_part(head: Seq<char>, payload: Seq<char>, rest: Seq<char>)
    requires
        !head.contains('.'),
        !payload.contains('.'),
    ensures
        second_part(head + seq!['.'] + payload + seq!['.'] + rest) == Some(payload),
        second_part(head + seq!['.'] + payload) == Some(payload),
        second_part(head) is None,
{
    let long = head + seq!['.'] + payload + seq!['.'] + rest;
    let n = head.len() as int;
    assert(long[n] == '.');
    assert forall|j: int| 0 <= j < n implies long[j] != '.' by {
        assert(long[j] == head[j]);
    }
    text::lemma_first_index(long, '.', n);
    let tail = long.skip(n + 1);
    assert(tail =~= payload + seq!['.'] + rest);
    assert(tail[payload.len() as int] == '.');
    assert forall|j: int| 0 <= j < payload.len() implies tail[j] != '.' by {
        assert(tail[j] == payload[j]);
    }
    text::lemma_first_index(tail, '.', payload.len() as int);
    assert(tail.take(payload.len() as int) =~= payload);
    let short = head + seq!['.'] + payload;
    assert(short[n] == '.');
    assert forall|j: int| 0 <= j < n implies short[j] != '.' by {
        assert(short[j] == head[j]);
    }
    text::lemma_first_index(short, '.', n);
    assert(short.skip(n + 1) =~= payload);
}

/// A token states its expiry in seconds, a session keeps it in milliseconds, and is
/// used only while more than a minute of it is left.
pub proof fn a_session_is_left_a_minute_early(s: Session, now: i64, seconds: i64)
    ensures
        s.fresh(now) <==> now + 60_000 < s.expires_at,
        i64::MIN <= seconds * 1_000 <= i64::MAX ==> expiry_of(Some(seconds)) is Some && expiry_of(
            Some(seconds),
        )->0 == seconds * 1_000,
        seconds * 1_000 > i64::MAX ==> expiry_of(Some(seconds)) is None,
        expiry_of(None) is None,
{
}

/// The adapter publishes to Bluesky and reads counts there, and does nothing else.
pub proof fn the_adapter_serves_bluesky_alone(p: Platform)
    ensures
        caps_of(p).publish <==> p == Platform::Bluesky,
        caps_of(p).read_engagement <==> p == Platform::Bluesky,
        !caps_of(p).read_comments && !caps_of(p).read_dms && !caps_of(p).send_dm && !caps_of(
            p,
        ).schedule,
{
}

/// A reply is read only where its status tells of success; a blank body is then no
/// fault, and any other is handed on as it is, or complained of with its fault.
pub proof fn only_a_successful_reply_is_read(
    method: Seq<char>,
    status: u16,
    body: Seq<char>,
    fault: Option<Seq<char>>,
)
    ensures
        reply_text(method, status, body, fault) is Ok <==> 200 <= status <= 299 && (text::blank(
            body,
        ) || fault is None),
        reply_text(method, status, body, fault) matches Ok(t) ==> t == (if text::blank(body) {
            "null"@
        } else {
            body
        }),
        200 <= status <= 299 ==> (reply_text(method, status, body, fault) matches Err(e)
            ==> fault == Some(e)),
        !(200 <= status <= 299) ==> reply_text(method, status, body, fault) == Err::<
            Seq<char>,
            Seq<char>,
        >("bluesky "@ + method + " failed: "@ + text::decimal_of(status as nat) + " "@ + body),
{
}

} // verus!
