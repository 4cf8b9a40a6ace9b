//! Composio, the broker: the tool calls it is sent and what its replies mean.
//! Requests go out elsewhere.
use vstd::prelude::*;
use crate::json;
use crate::platform::{Platform, PlatformCapabilities};
use crate::providers::encoding;
use crate::providers::encoding::urlencode;
use crate::providers::types;
use crate::providers::types::{
    find_local, ProviderInboxItem, PublishRequest, PublishResult, ResultView,
};
use crate::records::EngagementCounts;
use crate::status::InboxKind;
use crate::text;
use crate::text::{contains_text, decimal, is_blank, replace_all, to_lower, to_upper};

verus! {

pub const DEFAULT_BASE_URL: &'static str = "https://backend.composio.dev/api/v3";

// ── The key ────────────────────────────────────────────────────────────────────

/// A key that is not printed.
pub struct ApiKey(String);

impl View for ApiKey {
    type V = Seq<char>;

    closed spec fn view(&self) -> Seq<char> {
        self.0@
    }
}

/// The text with the key blotted out; an empty key blots out nothing.
pub open spec fn redacted(key: Seq<char>, text: Seq<char>) -> Seq<char> {
    if key.len() == 0 {
        text
    } else {
        text::replaced(text, key, "***"@)
    }
}

impl ApiKey {
    pub fn new(raw: &str) -> (r: Self)
        ensures
            r@ == raw@,
    {
        Self(raw.to_owned())
    }

    pub fn expose(&self) -> (r: &str)
        ensures
            r@ == self@,
    {
        self.0.as_str()
    }

    /// How a key prints: the same for every key.
    pub fn printed(&self) -> (r: &'static str)
        ensures
            r@ == "ApiKey(***)"@,
    {
        "ApiKey(***)"
    }

    /// Blot the key out of a text on its way to a caller.
    pub fn redact(&self, text: &str) -> (r: String)
        ensures
            r@ == redacted(self@, text@),
    {
        if self.0.as_str().is_empty() {
            return text.to_owned();
        }
        replace_all(text, self.0.as_str(), "***")
    }
}

/// After redaction the key is not in the text any more, where it has a character
/// and no asterisk.
pub proof fn redaction_leaves_no_key(key: Seq<char>, text: Seq<char>)
    requires
        key.len() > 0,
        !key.contains('*'),
    ensures
        !text::has_text(redacted(key, text), key),
{
    reveal_strlit("***");
    let r = "***"@;
    assert forall|i: int| 0 <= i < key.len() implies !r.contains(#[trigger] key[i]) by {
        if r.contains(key[i]) {
            assert(key.contains('*'));
        }
    }
    text::nothing_replaced_is_left(text, key, r);
}

// ── Replies ────────────────────────────────────────────────────────────────────

pub open spec fn status_fault(path: Seq<char>, status: u16, body: Seq<char>) -> Seq<char> {
    "Composio "@ + path + " failed: "@ + text::decimal_of(status as nat) + " "@ + body
}

pub open spec fn json_complaint(path: Seq<char>, fault: Seq<char>) -> Seq<char> {
    "Composio "@ + path + " returned unreadable JSON: "@ + fault
}

/// What a reply comes to, once it is known whether its body is JSON: the text of a
/// document (`null` for a blank body), or why there is none, redacted.
pub open spec fn reply_text(
    key: Seq<char>,
    path: Seq<char>,
    status: u16,
    body: Seq<char>,
    fault: Option<Seq<char>>,
) -> Result<Seq<char>, Seq<char>> {
    if !(200 <= status < 300) {
        Err(redacted(key, status_fault(path, status, body)))
    } else if text::blank(body) {
        Ok("null"@)
    } else {
        match fault {
            None => Ok(body),
            Some(f) => Err(redacted(key, json_complaint(path, f))),
        }
    }
}

/// Judge a reply whose body was read as JSON with this fault, if any.
pub fn judge_reply(key: &ApiKey, path: &str, status: u16, body: &str, fault: Option<String>) -> (r:
    Result<String, String>)
    ensures
        text::outcome_text(r) == reply_text(key@, path@, status, body@, text::opt_text(fault)),
{
    if status < 200 || status >= 300 {
        let mut m: String = "Composio ".to_owned();
        m.append(path);
        m.append(" failed: ");
        m.append(decimal(status as u128).as_str());
        m.append(" ");
        m.append(body);
        return Err(key.redact(m.as_str()));
    }
    if is_blank(body) {
        return Ok("null".to_owned());
    }
    match fault {
        None => Ok(body.to_owned()),
        Some(f) => {
            let mut m: String = "Composio ".to_owned();
            m.append(path);
            m.append(" returned unreadable JSON: ");
            m.append(f.as_str());
            Err(key.redact(m.as_str()))
        },
    }
}

/// Read the body of a reply.
pub fn read_reply(key: &ApiKey, path: &str, status: u16, body: &str) -> (r: Result<String, String>)
    ensures
        text::outcome_text(r) == reply_text(key@, path@, status, body@, json::json_fault(body@)),
{
    judge_reply(key, path, status, body, json::fault(body))
}

/// Why a tool call failed, from the two fields of its envelope that say so: it is
/// marked unsuccessful, or it holds an error that is not blank.
pub open spec fn tool_fault(successful: Option<bool>, error: Option<Seq<char>>) -> Option<
    Seq<char>,
> {
    if successful == Some(false) {
        Some(
            match error {
                Some(e) => e,
                None => "Composio tool call failed"@,
            },
        )
    } else {
        match error {
            Some(e) => if text::blank(e) {
                None
            } else {
                Some(e)
            },
            None => None,
        }
    }
}

/// Judge the envelope of a tool call by its two fields.
pub fn envelope_fault(successful: Option<bool>, error: Option<String>) -> (r: Option<String>)
    ensures
        text::opt_text(r) == tool_fault(successful, text::opt_text(error)),
{
    match successful {
        Some(false) => {
            match error {
                Some(e) => Some(e),
                None => Some("Composio tool call failed".to_owned()),
            }
        },
        _ => {
            match error {
                Some(e) => {
                    if is_blank(e.as_str()) {
                        None
                    } else {
                        Some(e)
                    }
                },
                None => None,
            }
        },
    }
}

pub open spec fn reply_fault(reply: Seq<char>) -> Option<Seq<char>> {
    tool_fault(json::json_bool(reply, "/successful"@), json::json_string(reply, "/error"@))
}

/// Whether a tool call succeeded: a reply with status 200 can still tell of a
/// failure.
pub fn tool_outcome(key: &ApiKey, reply: &str) -> (r: Result<(), String>)
    ensures
        match r {
            Ok(()) => reply_fault(reply@) is None,
            Err(e) => reply_fault(reply@) matches Some(f) && e@ == redacted(key@, f),
        },
{
    match envelope_fault(json::bool_at(reply, "/successful"), json::string_at(reply, "/error")) {
        None => Ok(()),
        Some(f) => Err(key.redact(f.as_str())),
    }
}

// ── Tool calls ─────────────────────────────────────────────────────────────────

pub open spec fn tool_slug_of(platform: Platform, verb: Seq<char>) -> Seq<char> {
    text::upper_of(platform.toolkit()) + "_"@ + verb
}

/// The name of a tool: the toolkit in capitals and a verb.
pub fn tool_slug(platform: Platform, verb: &str) -> (r: String)
    ensures
        r@ == tool_slug_of(platform, verb@),
{
    let mut r: String = to_upper(platform.composio_toolkit());
    r.append("_");
    r.append(verb);
    r
}

/// A publish call to the broker.
#[derive(Debug, PartialEq, Eq)]
pub struct PublishCall {
    pub slug: String,
    pub connected_account_id: String,
    pub text: String,
    pub media_urls: Vec<String>,
    pub idempotency_key: Option<String>,
}

pub open spec fn local_refusal(url: Seq<char>) -> Seq<char> {
    "Composio cannot publish the local file \""@ + url
        + "\" — media must be uploaded to a URL the broker can fetch"@
}

pub open spec fn urls_of(m: Seq<types::PublishMediaView>) -> Seq<Seq<char>> {
    m.map_values(|x: types::PublishMediaView| x.url)
}

fn collect_urls(media: &Vec<types::PublishMedia>) -> (r: Vec<String>)
    ensures
        text::texts(r@) == urls_of(types::publish_media_views(media@)),
{
    let ghost want = urls_of(types::publish_media_views(media@));
    let mut r: Vec<String> = Vec::new();
    let mut i: usize = 0;
    assert(text::texts(r@) =~= want.take(0));
    while i < media.len()
        invariant
            i <= media.len(),
            want == urls_of(types::publish_media_views(media@)),
            text::texts(r@) == want.take(i as int),
        decreases media.len() - i,
    {
        let ghost before = r@;
        r.push(media[i].url.clone());
        proof {
            assert(text::texts(r@) =~= text::texts(before).push(media@[i as int].url@));
            assert(want.take(i as int + 1) =~= want.take(i as int).push(media@[i as int].url@));
        }
        i = i + 1;
    }
    assert(want.take(want.len() as int) =~= want);
    r
}

/// The call that a publish request becomes, or why it is refused before any call:
/// a local file, which the broker cannot read, or an account that is not connected.
pub fn plan_publish(key: &ApiKey, request: &PublishRequest) -> (r: Result<
    PublishCall,
    PublishResult,
>)
    ensures
        match r {
            Ok(call) => {
                &&& types::first_local(request@.media) is None
                &&& request@.account.external_id == Some(call.connected_account_id@)
                &&& call.slug@ == tool_slug_of(request@.account.platform, "CREATE_POST"@)
                &&& call.text@ == request@.text
                &&& text::texts(call.media_urls@) == urls_of(request@.media)
                &&& text::opt_text(call.idempotency_key) == request@.idempotency_key
            },
            Err(e) => match types::first_local(request@.media) {
                Some(m) => e@ == (ResultView::Refused {
                    error: redacted(key@, local_refusal(m.url)),
                }),
                None => request@.account.external_id is None && e@ == (ResultView::Refused {
                    error: redacted(
                        key@,
                        request@.account.platform.name()
                            + " account is not connected to Composio yet"@,
                    ),
                }),
            },
        },
{
    match find_local(&request.media) {
        Some(url) => {
            let mut m: String = "Composio cannot publish the local file \"".to_owned();
            m.append(url.as_str());
            m.append("\" — media must be uploaded to a URL the broker can fetch");
            return Err(failed(key, m.as_str()));
        },
        None => {},
    }
    match &request.account.external_id {
        None => {
            let mut m: String = request.account.platform.as_str().to_owned();
            m.append(" account is not connected to Composio yet");
            Err(failed(key, m.as_str()))
        },
        Some(id) => {
            Ok(
                PublishCall {
                    slug: tool_slug(request.account.platform, "CREATE_POST"),
                    connected_account_id: id.clone(),
                    text: request.text.clone(),
                    media_urls: collect_urls(&request.media),
                    idempotency_key: request.idempotency_key.clone(),
                },
            )
        },
    }
}

/// The string under the first of two keys that is there.
pub open spec fn either_string(doc: Seq<char>, a: Seq<char>, b: Seq<char>) -> Option<Seq<char>> {
    if json::json_has(doc, a) {
        json::json_string(doc, a)
    } else {
        json::json_string(doc, b)
    }
}

fn either_at(doc: &str, a: &str, b: &str) -> (r: Option<String>)
    ensures
        text::opt_text(r) == either_string(doc@, a@, b@),
{
    if json::has(doc, a) {
        json::string_at(doc, a)
    } else {
        json::string_at(doc, b)
    }
}

/// The answer to a publish, from the fields of a successful reply.
pub fn published_as(key: &ApiKey, id: Option<String>, url: Option<String>) -> (r: PublishResult)
    ensures
        r@ == (match id {
            Some(i) => ResultView::Published { remote_id: i@, remote_url: text::opt_text(url) },
            None => ResultView::Refused {
                error: redacted(key@, "Composio publish returned no post id"@),
            },
        }),
{
    match id {
        Some(remote_id) => PublishResult::Published { remote_id, remote_url: url },
        None => failed(key, "Composio publish returned no post id"),
    }
}

/// The answer to a publish, from the reply to its tool call.
pub fn publish_result(key: &ApiKey, reply: &str) -> (r: PublishResult)
    ensures
        r@ == (match reply_fault(reply@) {
            Some(f) => ResultView::Refused { error: redacted(key@, redacted(key@, f)) },
            None => match json::json_string(reply@, "/data/id"@) {
                Some(i) => ResultView::Published {
                    remote_id: i,
                    remote_url: either_string(reply@, "/data/url"@, "/data/permalink"@),
                },
                None => ResultView::Refused {
                    error: redacted(key@, "Composio publish returned no post id"@),
                },
            },
        }),
{
    match tool_outcome(key, reply) {
        Err(e) => failed(key, e.as_str()),
        Ok(()) => published_as(
            key,
            json::string_at(reply, "/data/id"),
            either_at(reply, "/data/url", "/data/permalink"),
        ),
    }
}

/// The answer to a publish or a reply whose call failed.
pub fn failed(key: &ApiKey, error: &str) -> (r: PublishResult)
    ensures
        r@ == (ResultView::Refused { error: redacted(key@, error@) }),
{
    PublishResult::Refused { error: key.redact(error) }
}

/// The tool by which an inbox item is replied to.
pub fn reply_slug(platform: Platform, kind: InboxKind) -> (r: String)
    ensures
        r@ == tool_slug_of(
            platform,
            if kind == InboxKind::Dm {
                "SEND_MESSAGE"@
            } else {
                "REPLY_TO_COMMENT"@
            },
        ),
{
    match kind {
        InboxKind::Dm => tool_slug(platform, "SEND_MESSAGE"),
        _ => tool_slug(platform, "REPLY_TO_COMMENT"),
    }
}

/// The answer to a reply, from the fields of a successful one. A missing id is empty.
pub fn replied_as(id: Option<String>, url: Option<String>) -> (r: PublishResult)
    ensures
        r@ == (ResultView::Published {
            remote_id: match id {
                Some(i) => i@,
                None => Seq::empty(),
            },
            remote_url: text::opt_text(url),
        }),
{
    let remote_id: String = match id {
        Some(i) => i,
        None => String::new(),
    };
    PublishResult::Published { remote_id, remote_url: url }
}

/// The answer to a reply, from the reply to its tool call.
pub fn reply_result(key: &ApiKey, reply: &str) -> (r: PublishResult)
    ensures
        r@ == (match reply_fault(reply@) {
            Some(f) => ResultView::Refused { error: redacted(key@, redacted(key@, f)) },
            None => ResultView::Published {
                remote_id: match json::json_string(reply@, "/data/id"@) {
                    Some(i) => i,
                    None => Seq::empty(),
                },
                remote_url: either_string(reply@, "/data/url"@, "/data/permalink"@),
            },
        }),
{
    match tool_outcome(key, reply) {
        Err(e) => failed(key, e.as_str()),
        Ok(()) => replied_as(
            json::string_at(reply, "/data/id"),
            either_at(reply, "/data/url", "/data/permalink"),
        ),
    }
}

/// The id under which the broker links an account, from its reply.
pub fn connected_id(reply: &str) -> (r: Option<String>)
    ensures
        text::opt_text(r) == json::json_string(reply@, "/id"@),
{
    json::string_at(reply, "/id")
}

// ── Counts ─────────────────────────────────────────────────────────────────────

/// The count under the first of two keys that holds one.
pub open spec fn first_count(doc: Seq<char>, a: Seq<char>, b: Seq<char>) -> Option<u64> {
    match json::json_u64(doc, a) {
        Some(n) => Some(n),
        None => json::json_u64(doc, b),
    }
}

pub fn count_alias(doc: &str, a: &str, b: &str) -> (r: Option<u64>)
    ensures
        r == first_count(doc@, a@, b@),
{
    match json::u64_at(doc, a) {
        Some(n) => Some(n),
        None => json::u64_at(doc, b),
    }
}

/// The counts in a successful reply about a post.
pub fn engagement_from(reply: &str, now: i64) -> (r: EngagementCounts)
    ensures
        r.likes == first_count(reply@, "/data/like_count"@, "/data/likes"@),
        r.comments == first_count(reply@, "/data/comment_count"@, "/data/reply_count"@),
        r.shares == first_count(reply@, "/data/share_count"@, "/data/retweet_count"@),
        r.views == first_count(reply@, "/data/view_count"@, "/data/impression_count"@),
        r.fetched_at == now,
{
    EngagementCounts {
        likes: count_alias(reply, "/data/like_count", "/data/likes"),
        comments: count_alias(reply, "/data/comment_count", "/data/reply_count"),
        shares: count_alias(reply, "/data/share_count", "/data/retweet_count"),
        views: count_alias(reply, "/data/view_count", "/data/impression_count"),
        fetched_at: now,
    }
}

// ── Times ──────────────────────────────────────────────────────────────────────

/// The epoch milliseconds that an RFC 3339 text stands for.
pub uninterp spec fn rfc3339_millis(s: Seq<char>) -> Option<i64>;

/// Calls `chrono::DateTime::parse_from_rfc3339` and `DateTime::timestamp_millis` on
/// what it gives; `None` where the text does not parse. It depends on the text
/// alone.
#[verifier::external_body]
pub(crate) fn parse_rfc3339(s: &str) -> (r: Option<i64>)
    ensures
        r == rfc3339_millis(s@),
{
    chrono::DateTime::parse_from_rfc3339(s).ok().map(|d| d.timestamp_millis())
}

/// A remote time: a number is milliseconds, or seconds where it is small; a text is
/// what it parses to; anything else is now.
pub open spec fn remote_time(number: Option<i64>, parsed: Option<i64>, now: i64) -> i64 {
    match number {
        Some(v) => if v >= 100_000_000_000 {
            v
        } else if v * 1000 >= i64::MIN {
            (v * 1000) as i64
        } else {
            now
        },
        None => match parsed {
            Some(t) => t,
            None => now,
        },
    }
}

/// [`parse_remote_time`] once the text has been parsed.
pub fn coerce_time(number: Option<i64>, parsed: Option<i64>, now: i64) -> (r: i64)
    ensures
        r == remote_time(number, parsed, now),
{
    match number {
        Some(v) => {
            if v >= 100_000_000_000 {
                v
            } else {
                match v.checked_mul(1_000) {
                    Some(ms) => ms,
                    None => now,
                }
            }
        },
        None => match parsed {
            Some(t) => t,
            None => now,
        },
    }
}

/// Coerce a remote time, given as the number or the text it is.
pub fn parse_remote_time(number: Option<i64>, text: Option<&str>, now: i64) -> (r: i64)
    ensures
        r == remote_time(
            number,
            match text {
                Some(s) => rfc3339_millis(s@),
                None => None,
            },
            now,
        ),
{
    let parsed: Option<i64> = match text {
        Some(s) => parse_rfc3339(s),
        None => None,
    };
    coerce_time(number, parsed, now)
}

// ── Capabilities ───────────────────────────────────────────────────────────────

pub open spec fn has_any(s: Seq<char>, needles: Seq<Seq<char>>) -> bool {
    exists|j: int| 0 <= j < needles.len() && text::has_text(s, #[trigger] needles[j])
}

/// Some slug holds one of the needles.
pub open spec fn any_slug(slugs: Seq<Seq<char>>, needles: Seq<Seq<char>>) -> bool {
    exists|i: int| 0 <= i < slugs.len() && has_any(#[trigger] slugs[i], needles)
}

/// Some one slug holds a needle of each row.
pub open spec fn any_slug_with_both(
    slugs: Seq<Seq<char>>,
    a: Seq<Seq<char>>,
    b: Seq<Seq<char>>,
) -> bool {
    exists|i: int|
        0 <= i < slugs.len() && has_any(#[trigger] slugs[i], a) && has_any(slugs[i], b)
}

/// What a toolkit can do, by the names of its tools.
pub open spec fn caps_of_slugs(slugs: Seq<Seq<char>>) -> PlatformCapabilities {
    PlatformCapabilities {
        publish: any_slug(slugs, seq!["post"@, "create"@, "tweet"@]),
        read_comments: any_slug(slugs, seq!["comment"@, "repl"@]),
        read_dms: any_slug_with_both(
            slugs,
            seq!["message"@, "dm"@],
            seq!["get"@, "list"@, "fetch"@],
        ),
        send_dm: any_slug_with_both(slugs, seq!["message"@, "dm"@], seq!["send"@, "create"@]),
        read_engagement: any_slug(slugs, seq!["metric"@, "analytic"@, "insight"@]),
        schedule: false,
    }
}

pub open spec fn str_views(s: Seq<&'static str>) -> Seq<Seq<char>> {
    s.map_values(|x: &'static str| x@)
}

fn holds_any(s: &str, needles: &[&'static str]) -> (r: bool)
    ensures
        r == has_any(s@, str_views(needles@)),
{
    let ghost want = str_views(needles@);
    let mut i: usize = 0;
    while i < needles.len()
        invariant
            i <= needles.len(),
            want == str_views(needles@),
            forall|j: int| 0 <= j < i ==> !text::has_text(s@, #[trigger] want[j]),
        decreases needles.len() - i,
    {
        assert(want[i as int] == needles@[i as int]@);
        if contains_text(s, needles[i]) {
            return true;
        }
        i = i + 1;
    }
    false
}

fn some_slug(slugs: &Vec<String>, needles: &[&'static str]) -> (r: bool)
    ensures
        r == any_slug(text::texts(slugs@), str_views(needles@)),
{
    let ghost all = text::texts(slugs@);
    let mut i: usize = 0;
    while i < slugs.len()
        invariant
            i <= slugs.len(),
            all == text::texts(slugs@),
            forall|j: int| 0 <= j < i ==> !has_any(#[trigger] all[j], str_views(needles@)),
        decreases slugs.len() - i,
    {
        assert(all[i as int] == slugs@[i as int]@);
        if holds_any(slugs[i].as_str(), needles) {
            return true;
        }
        i = i + 1;
    }
    false
}

fn some_slug_with_both(slugs: &Vec<String>, a: &[&'static str], b: &[&'static str]) -> (r: bool)
    ensures
        r == any_slug_with_both(text::texts(slugs@), str_views(a@), str_views(b@)),
{
    let ghost all = text::texts(slugs@);
    let mut i: usize = 0;
    while i < slugs.len()
        invariant
            i <= slugs.len(),
            all == text::texts(slugs@),
            forall|j: int|
                0 <= j < i ==> !(has_any(#[trigger] all[j], str_views(a@)) && has_any(
                    all[j],
                    str_views(b@),
                )),
        decreases slugs.len() - i,
    {
        assert(all[i as int] == slugs@[i as int]@);
        if holds_any(slugs[i].as_str(), a) && holds_any(slugs[i].as_str(), b) {
            return true;
        }
        i = i + 1;
    }
    false
}

/// What a toolkit can do, by the names of its tools in small letters.
pub fn capabilities_of(slugs: &Vec<String>) -> (r: PlatformCapabilities)
    ensures
        r == caps_of_slugs(text::texts(slugs@)),
        !r.schedule,
{
    let publish: [&'static str; 3] = ["post", "create", "tweet"];
    let comments: [&'static str; 2] = ["comment", "repl"];
    let dms: [&'static str; 2] = ["message", "dm"];
    let reading: [&'static str; 3] = ["get", "list", "fetch"];
    let sending: [&'static str; 2] = ["send", "create"];
    let metrics: [&'static str; 3] = ["metric", "analytic", "insight"];
    proof {
        assert(str_views(publish@) =~= seq!["post"@, "create"@, "tweet"@]);
        assert(str_views(comments@) =~= seq!["comment"@, "repl"@]);
        assert(str_views(dms@) =~= seq!["message"@, "dm"@]);
        assert(str_views(reading@) =~= seq!["get"@, "list"@, "fetch"@]);
        assert(str_views(sending@) =~= seq!["send"@, "create"@]);
        assert(str_views(metrics@) =~= seq!["metric"@, "analytic"@, "insight"@]);
    }
    PlatformCapabilities {
        publish: some_slug(slugs, &publish),
        read_comments: some_slug(slugs, &comments),
        read_dms: some_slug_with_both(slugs, &dms, &reading),
        send_dm: some_slug_with_both(slugs, &dms, &sending),
        read_engagement: some_slug(slugs, &metrics),
        schedule: false,
    }
}

pub open spec fn slug_pointer_of(i: nat) -> Seq<char> {
    "/items/"@ + text::decimal_of(i) + "/slug"@
}

/// The first `n` slugs of a tool catalog, in small letters; entries without one are
/// skipped.
pub open spec fn catalog_slugs(doc: Seq<char>, n: nat) -> Seq<Seq<char>>
    decreases n,
{
    if n == 0 {
        Seq::empty()
    } else {
        let before = catalog_slugs(doc, (n - 1) as nat);
        match json::json_string(doc, slug_pointer_of((n - 1) as nat)) {
            Some(s) => before.push(text::lower_of(s)),
            None => before,
        }
    }
}

fn slug_pointer(i: usize) -> (r: String)
    ensures
        r@ == slug_pointer_of(i as nat),
{
    let mut p: String = "/items/".to_owned();
    p.append(decimal(i as u128).as_str());
    p.append("/slug");
    p
}

/// What a toolkit can do, from the reply to a catalog query.
pub fn capabilities_from(reply: &str) -> (r: PlatformCapabilities)
    ensures
        r == caps_of_slugs(
            catalog_slugs(
                reply@,
                match json::json_array_len(reply@, "/items"@) {
                    Some(n) => n as nat,
                    None => 0,
                },
            ),
        ),
{
    let n: usize = match json::array_len_at(reply, "/items") {
        Some(n) => n,
        None => 0,
    };
    let mut slugs: Vec<String> = Vec::new();
    let mut i: usize = 0;
    assert(text::texts(slugs@) =~= catalog_slugs(reply@, 0));
    while i < n
        invariant
            i <= n,
            text::texts(slugs@) == catalog_slugs(reply@, i as nat),
        decreases n - i,
    {
        match json::string_at(reply, slug_pointer(i).as_str()) {
            Some(s) => {
                let low = to_lower(s.as_str());
                let ghost before = slugs@;
                slugs.push(low);
                assert(text::texts(slugs@) =~= text::texts(before).push(low@));
            },
            None => {},
        }
        i = i + 1;
    }
    capabilities_of(&slugs)
}

pub open spec fn catalog_path_of(platform: Platform) -> Seq<char> {
    "/tools?toolkit_slug="@ + encoding::urlencode_of(platform.toolkit()) + "&limit=200"@
}

/// Where a toolkit's catalog is asked for.
pub fn catalog_path(platform: Platform) -> (r: String)
    ensures
        r@ == catalog_path_of(platform),
{
    let mut p: String = "/tools?toolkit_slug=".to_owned();
    p.append(urlencode(platform.composio_toolkit()).as_str());
    p.append("&limit=200");
    p
}

/// Where a link is deleted, if there ever was one.
pub fn disconnect_path(external_id: Option<&str>) -> (r: Option<String>)
    ensures
        match (r, external_id) {
            (Some(p), Some(id)) => id@.len() > 0 && p@ == "/connected_accounts/"@
                + encoding::urlencode_of(id@),
            (None, Some(id)) => id@.len() == 0,
            (None, None) => true,
            (Some(_), None) => false,
        },
{
    match external_id {
        Some(id) => {
            if id.is_empty() {
                None
            } else {
                let mut p: String = "/connected_accounts/".to_owned();
                p.append(urlencode(id).as_str());
                Some(p)
            }
        },
        None => None,
    }
}

// ── Inbox ──────────────────────────────────────────────────────────────────────

pub open spec fn wanted_of(platform: Platform, caps: PlatformCapabilities) -> Seq<
    (Seq<char>, InboxKind),
> {
    let public = if caps.read_comments {
        seq![
            (tool_slug_of(platform, "LIST_COMMENTS"@), InboxKind::Comment),
            (tool_slug_of(platform, "LIST_MENTIONS"@), InboxKind::Mention),
        ]
    } else {
        Seq::empty()
    };
    if caps.read_dms {
        public.push((tool_slug_of(platform, "LIST_MESSAGES"@), InboxKind::Dm))
    } else {
        public
    }
}

pub open spec fn wanted_views(s: Seq<(String, InboxKind)>) -> Seq<(Seq<char>, InboxKind)> {
    s.map_values(|x: (String, InboxKind)| (x.0@, x.1))
}

/// The tools by which an inbox is read, as far as the toolkit has them.
pub fn wanted_tools(platform: Platform, caps: PlatformCapabilities) -> (r: Vec<
    (String, InboxKind),
>)
    ensures
        wanted_views(r@) == wanted_of(platform, caps),
{
    let mut r: Vec<(String, InboxKind)> = Vec::new();
    if caps.read_comments {
        r.push((tool_slug(platform, "LIST_COMMENTS"), InboxKind::Comment));
        r.push((tool_slug(platform, "LIST_MENTIONS"), InboxKind::Mention));
    }
    if caps.read_dms {
        r.push((tool_slug(platform, "LIST_MESSAGES"), InboxKind::Dm));
    }
    assert(wanted_views(r@) =~= wanted_of(platform, caps));
    r
}

pub open spec fn entry_pointer_of(i: nat, field: Seq<char>) -> Seq<char> {
    "/data/items/"@ + text::decimal_of(i) + "/"@ + field
}

fn entry_pointer(i: usize, field: &str) -> (r: String)
    ensures
        r@ == entry_pointer_of(i as nat, field@),
{
    let mut p: String = "/data/items/".to_owned();
    p.append(decimal(i as u128).as_str());
    p.append("/");
    p.append(field);
    p
}

/// An entry as an inbox item; without an id it is none.
pub open spec fn item_of(
    fields: EntryView,
    platform: Platform,
    kind: InboxKind,
    now: i64,
) -> Option<types::IncomingView> {
    match fields.id {
        None => None,
        Some(id) => Some(
            types::IncomingView {
                external_id: id,
                platform,
                kind,
                author: match fields.author {
                    Some(a) => a,
                    None => "unknown"@,
                },
                text: match fields.text {
                    Some(t) => t,
                    None => Seq::empty(),
                },
                permalink: fields.permalink,
                received_at: remote_time(fields.created_number, fields.created_text, now),
            },
        ),
    }
}

/// The fields of one entry: the time as the number it is, or as what its text stands
/// for.
#[derive(Debug, PartialEq, Eq)]
pub struct EntryFields {
    pub id: Option<String>,
    pub author: Option<String>,
    pub text: Option<String>,
    pub permalink: Option<String>,
    pub created_number: Option<i64>,
    pub created_text: Option<i64>,
}

#[verifier::ext_equal]
pub struct EntryView {
    pub id: Option<Seq<char>>,
    pub author: Option<Seq<char>>,
    pub text: Option<Seq<char>>,
    pub permalink: Option<Seq<char>>,
    pub created_number: Option<i64>,
    pub created_text: Option<i64>,
}

impl View for EntryFields {
    type V = EntryView;

    open spec fn view(&self) -> EntryView {
        EntryView {
            id: text::opt_text(self.id),
            author: text::opt_text(self.author),
            text: text::opt_text(self.text),
            permalink: text::opt_text(self.permalink),
            created_number: self.created_number,
            created_text: self.created_text,
        }
    }
}

/// The inbox item that an entry's fields make.
pub fn item_from(fields: EntryFields, platform: Platform, kind: InboxKind, now: i64) -> (r: Option<
    ProviderInboxItem,
>)
    ensures
        match r {
            Some(e) => item_of(fields@, platform, kind, now) == Some(e@),
            None => item_of(fields@, platform, kind, now) is None,
        },
{
    let external_id: String = match fields.id {
        Some(id) => id,
        None => return None,
    };
    let author: String = match fields.author {
        Some(a) => a,
        None => "unknown".to_owned(),
    };
    let text: String = match fields.text {
        Some(t) => t,
        None => String::new(),
    };
    let received_at: i64 = coerce_time(fields.created_number, fields.created_text, now);
    Some(
        ProviderInboxItem {
            external_id,
            platform,
            kind,
            author,
            text,
            permalink: fields.permalink,
            received_at,
        },
    )
}

/// The fields of the i-th entry of a reply.
pub open spec fn fields_of(doc: Seq<char>, i: nat) -> EntryView {
    EntryView {
        id: json::json_string(doc, entry_pointer_of(i, "id"@)),
        author: either_string(
            doc,
            entry_pointer_of(i, "author"@),
            entry_pointer_of(i, "username"@),
        ),
        text: either_string(doc, entry_pointer_of(i, "text"@), entry_pointer_of(i, "body"@)),
        permalink: either_string(
            doc,
            entry_pointer_of(i, "url"@),
            entry_pointer_of(i, "permalink"@),
        ),
        created_number: json::json_i64(doc, entry_pointer_of(i, "created_at"@)),
        created_text: match json::json_string(doc, entry_pointer_of(i, "created_at"@)) {
            Some(s) => rfc3339_millis(s),
            None => None,
        },
    }
}

/// The i-th entry of a reply as an inbox item.
pub open spec fn entry_of(
    doc: Seq<char>,
    i: nat,
    platform: Platform,
    kind: InboxKind,
    now: i64,
) -> Option<types::IncomingView> {
    item_of(fields_of(doc, i), platform, kind, now)
}

pub open spec fn entries_of(
    doc: Seq<char>,
    n: nat,
    platform: Platform,
    kind: InboxKind,
    now: i64,
) -> Seq<types::IncomingView>
    decreases n,
{
    if n == 0 {
        Seq::empty()
    } else {
        let before = entries_of(doc, (n - 1) as nat, platform, kind, now);
        match entry_of(doc, (n - 1) as nat, platform, kind, now) {
            Some(e) => before.push(e),
            None => before,
        }
    }
}

fn fields_at(reply: &str, i: usize) -> (r: EntryFields)
    ensures
        r@ == fields_of(reply@, i as nat),
{
    let at = entry_pointer(i, "created_at");
    let created_text: Option<i64> = match json::string_at(reply, at.as_str()) {
        Some(s) => parse_rfc3339(s.as_str()),
        None => None,
    };
    EntryFields {
        id: json::string_at(reply, entry_pointer(i, "id").as_str()),
        author: either_at(
            reply,
            entry_pointer(i, "author").as_str(),
            entry_pointer(i, "username").as_str(),
        ),
        text: either_at(
            reply,
            entry_pointer(i, "text").as_str(),
            entry_pointer(i, "body").as_str(),
        ),
        permalink: either_at(
            reply,
            entry_pointer(i, "url").as_str(),
            entry_pointer(i, "permalink").as_str(),
        ),
        created_number: json::i64_at(reply, at.as_str()),
        created_text,
    }
}

/// The inbox items in a successful reply to one of the wanted tools.
pub fn inbox_items(reply: &str, platform: Platform, kind: InboxKind, now: i64) -> (r: Vec<
    ProviderInboxItem,
>)
    ensures
        types::incoming_views(r@) == entries_of(
            reply@,
            match json::json_array_len(reply@, "/data/items"@) {
                Some(n) => n as nat,
                None => 0,
            },
            platform,
            kind,
            now,
        ),
{
    let n: usize = match json::array_len_at(reply, "/data/items") {
        Some(n) => n,
        None => 0,
    };
    let mut r: Vec<ProviderInboxItem> = Vec::new();
    let mut i: usize = 0;
    assert(types::incoming_views(r@) =~= entries_of(reply@, 0, platform, kind, now));
    while i < n
        invariant
            i <= n,
            types::incoming_views(r@) == entries_of(reply@, i as nat, platform, kind, now),
        decreases n - i,
    {
        match item_from(fields_at(reply, i), platform, kind, now) {
            Some(e) => {
                let ghost before = r@;
                r.push(e);
                assert(types::incoming_views(r@) =~= types::incoming_views(before).push(e@));
            },
            None => {},
        }
        i = i + 1;
    }
    r
}

/// What one of the wanted tools gave: the reply, where the call came through.
#[derive(Debug, PartialEq, Eq)]
pub struct ToolReply {
    pub kind: InboxKind,
    pub reply: Option<String>,
}

pub open spec fn tool_reply_views(s: Seq<ToolReply>) -> Seq<(InboxKind, Option<Seq<char>>)> {
    s.map_values(|t: ToolReply| (t.kind, text::opt_text(t.reply)))
}

/// The items that one tool gave: none where the call failed or its reply tells of a
/// failure.
pub open spec fn items_of_tool(
    t: (InboxKind, Option<Seq<char>>),
    platform: Platform,
    now: i64,
) -> Seq<types::IncomingView> {
    match t.1 {
        Some(doc) if reply_fault(doc) is None => entries_of(
            doc,
            match json::json_array_len(doc, "/data/items"@) {
                Some(n) => n as nat,
                None => 0,
            },
            platform,
            t.0,
            now,
        ),
        _ => Seq::empty(),
    }
}

/// The items that all tools gave, in their order.
pub open spec fn items_of_tools(
    tools: Seq<(InboxKind, Option<Seq<char>>)>,
    platform: Platform,
    now: i64,
) -> Seq<types::IncomingView>
    decreases tools.len(),
{
    if tools.len() == 0 {
        Seq::empty()
    } else {
        items_of_tools(tools.drop_last(), platform, now) + items_of_tool(
            tools.last(),
            platform,
            now,
        )
    }
}

/// The inbox of an account, from what its tools gave. Each tool stands for itself: one
/// that failed loses nothing of the others.
pub fn inbox_from(key: &ApiKey, tools: &Vec<ToolReply>, platform: Platform, now: i64) -> (r: Vec<
    ProviderInboxItem,
>)
    ensures
        types::incoming_views(r@) == items_of_tools(tool_reply_views(tools@), platform, now),
{
    let ghost all = tool_reply_views(tools@);
    let mut r: Vec<ProviderInboxItem> = Vec::new();
    let mut i: usize = 0;
    assert(all.take(0) =~= Seq::<(InboxKind, Option<Seq<char>>)>::empty());
    assert(types::incoming_views(r@) =~= items_of_tools(all.take(0), platform, now));
    while i < tools.len()
        invariant
            i <= tools.len(),
            all == tool_reply_views(tools@),
            types::incoming_views(r@) == items_of_tools(all.take(i as int), platform, now),
        decreases tools.len() - i,
    {
        let tool = &tools[i];
        proof {
            assert(all.take(i as int + 1).drop_last() =~= all.take(i as int));
            assert(all.take(i as int + 1).last() == (tool.kind, text::opt_text(tool.reply)));
        }
        let ghost before = r@;
        let mut found: Vec<ProviderInboxItem> = Vec::new();
        if let Some(reply) = &tool.reply {
            if tool_outcome(key, reply.as_str()).is_ok() {
                found = inbox_items(reply.as_str(), platform, tool.kind, now);
            }
        }
        proof {
            assert(types::incoming_views(found@) =~= items_of_tool(
                (tool.kind, text::opt_text(tool.reply)),
                platform,
                now,
            ));
            assert(types::incoming_views(before + found@) =~= types::incoming_views(before)
                + types::incoming_views(found@));
        }
        r.append(&mut found);
        i = i + 1;
    }
    assert(all.take(all.len() as int) =~= all);
    r
}

/// A tool that failed loses nothing of what the others gave.
pub proof fn a_failed_tool_loses_nothing_else(
    before: Seq<(InboxKind, Option<Seq<char>>)>,
    kind: InboxKind,
    after: Seq<(InboxKind, Option<Seq<char>>)>,
    platform: Platform,
    now: i64,
)
    ensures
        items_of_tools(before + seq![(kind, None)] + after, platform, now) == items_of_tools(
            before,
            platform,
            now,
        ) + items_of_tools(after, platform, now),
    decreases after.len(),
{
    let failed = seq![(kind, None::<Seq<char>>)];
    let all = before + failed + after;
    if after.len() == 0 {
        assert(all.drop_last() =~= before);
        assert(all.last() == failed[0]);
        assert(items_of_tools(all, platform, now) =~= items_of_tools(before, platform, now));
        assert(items_of_tools(before, platform, now) + items_of_tools(after, platform, now)
            =~= items_of_tools(before, platform, now));
    } else {
        assert(all.drop_last() =~= before + failed + after.drop_last());
        assert(all.last() == after.last());
        a_failed_tool_loses_nothing_else(before, kind, after.drop_last(), platform, now);
        assert(items_of_tools(all, platform, now) =~= items_of_tools(before, platform, now)
            + items_of_tools(after, platform, now));
    }
}

/// Three asterisks stand where the key first stood, what was before it stays, and what
/// came after it is treated in the same way; a text without the key stays as it is.
pub proof fn asterisks_stand_for_the_key(key: Seq<char>, t: Seq<char>, i: int)
    requires
        key.len() > 0,
        forall|j: int| 0 <= j < i ==> !text::occurs_at(t, key, j),
        text::occurs_at(t, key, i) || i == t.len(),
    ensures
        text::occurs_at(t, key, i) ==> redacted(key, t) == t.take(i) + seq!['*', '*', '*']
            + redacted(key, t.skip(i + key.len())),
        !text::occurs_at(t, key, i) ==> redacted(key, t) == t,
        redacted(Seq::empty(), t) == t,
{
    reveal_strlit("***");
    assert("***"@ =~= seq!['*', '*', '*']);
    text::the_first_occurrence_is_replaced(t, key, "***"@, i);
}

/// A reply is read exactly when its status tells of success and its body is blank or
/// JSON: a blank body reads as `null`, any other as it stands. The complaint about a
/// status names the path, the status and the body.
pub proof fn a_good_reply_is_read_as_it_stands(
    key: Seq<char>,
    path: Seq<char>,
    status: u16,
    body: Seq<char>,
    fault: Option<Seq<char>>,
)
    ensures
        reply_text(key, path, status, body, fault) is Ok <==> 200 <= status <= 299 && (text::blank(
            body,
        ) || fault is None),
        200 <= status <= 299 && text::blank(body) ==> reply_text(key, path, status, body, fault)
            == Ok::<Seq<char>, Seq<char>>("null"@),
        200 <= status <= 299 && !text::blank(body) && fault is None ==> reply_text(
            key,
            path,
            status,
            body,
            fault,
        ) == Ok::<Seq<char>, Seq<char>>(body),
        !(200 <= status <= 299) ==> reply_text(key, path, status, body, fault) == Err::<
            Seq<char>,
            Seq<char>,
        >(
            redacted(
                key,
                "Composio "@ + path + " failed: "@ + text::decimal_of(status as nat) + " "@ + body,
            ),
        ),
        200 <= status <= 299 && !text::blank(body) && fault is Some ==> reply_text(
            key,
            path,
            status,
            body,
            fault,
        ) == Err::<Seq<char>, Seq<char>>(
            redacted(key, "Composio "@ + path + " returned unreadable JSON: "@ + fault->0),
        ),
{
}

/// A call failed exactly when it is marked unsuccessful or tells of an error that is
/// more than white space; the error is the reason where there is one.
pub proof fn a_call_fails_as_its_envelope_says(successful: Option<bool>, error: Option<Seq<char>>)
    ensures
        tool_fault(successful, error) is Some <==> successful == Some(false) || (error is Some
            && !text::blank(error->0)),
        tool_fault(successful, error) is Some && error is Some ==> tool_fault(successful, error)
            == error,
        tool_fault(successful, error) is Some && error is None ==> tool_fault(successful, error)
            == Some("Composio tool call failed"@),
{
}

/// A reply is judged by its two fields.
pub proof fn an_envelope_has_two_fields(reply: Seq<char>)
    ensures
        reply_fault(reply) is Some <==> json::json_bool(reply, "/successful"@) == Some(false) || (
        json::json_string(reply, "/error"@) is Some && !text::blank(
            json::json_string(reply, "/error"@)->0,
        )),
{
}

/// The name of a tool is the toolkit's in capitals, an underscore and the verb.
pub proof fn a_tool_is_named_by_toolkit_and_verb(platform: Platform, verb: Seq<char>, i: int)
    requires
        0 <= i < platform.toolkit().len(),
    ensures
        ({
            let n = platform.toolkit().len() as int;
            let slug = tool_slug_of(platform, verb);
            let c = platform.toolkit()[i];
            &&& slug.len() == n + 1 + verb.len()
            &&& slug[n] == '_'
            &&& slug.skip(n + 1) == verb
            &&& 'a' <= c && c <= 'z' ==> slug[i] as int == c as int - 'a' as int + 'A' as int
            &&& !('a' <= c && c <= 'z') ==> slug[i] == c
        }),
{
    reveal_strlit("_");
    let n = platform.toolkit().len() as int;
    text::folding_keeps_the_letters(platform.toolkit(), i);
    assert(tool_slug_of(platform, verb).skip(n + 1) =~= verb);
}

/// A refusal of a local file names the file.
pub proof fn a_refusal_names_the_local_file(url: Seq<char>)
    ensures
        text::has_text(local_refusal(url), url),
{
    let head = "Composio cannot publish the local file \""@;
    let n = head.len() as int;
    assert(local_refusal(url).subrange(n, n + url.len()) =~= url);
    assert(text::occurs_at(local_refusal(url), url, n));
}

/// Attachments are sent as their addresses, in their order.
pub proof fn attachments_are_sent_as_addresses(m: Seq<types::PublishMediaView>)
    ensures
        urls_of(m).len() == m.len(),
        forall|i: int| 0 <= i < m.len() ==> #[trigger] urls_of(m)[i] == m[i].url,
{
}

/// Of two names for a field the first that is there is read; of two names for a count
/// the first that holds one.
pub proof fn the_first_name_is_read(doc: Seq<char>, a: Seq<char>, b: Seq<char>)
    ensures
        json::json_has(doc, a) ==> either_string(doc, a, b) == json::json_string(doc, a),
        !json::json_has(doc, a) ==> either_string(doc, a, b) == json::json_string(doc, b),
        json::json_u64(doc, a) is Some ==> first_count(doc, a, b) == json::json_u64(doc, a),
        json::json_u64(doc, a) is None ==> first_count(doc, a, b) == json::json_u64(doc, b),
{
}

/// A number of a hundred thousand million or more is milliseconds, a smaller one is
/// seconds. Without a number the text counts; without either, or with seconds that do
/// not fit, it is now.
pub proof fn a_small_number_is_seconds(n: i64, parsed: Option<i64>, now: i64)
    ensures
        n >= 100_000_000_000 ==> remote_time(Some(n), parsed, now) == n,
        i64::MIN <= n * 1000 && n < 100_000_000_000 ==> remote_time(Some(n), parsed, now) == n
            * 1000,
        n * 1000 < i64::MIN ==> remote_time(Some(n), parsed, now) == now,
        parsed is Some ==> remote_time(None, parsed, now) == parsed->0,
        parsed is None ==> remote_time(None, parsed, now) == now,
{
}

/// A text holds one of some words.
pub open spec fn holds(s: Seq<char>, a: Seq<char>, b: Seq<char>, c: Seq<char>) -> bool {
    text::has_text(s, a) || text::has_text(s, b) || text::has_text(s, c)
}

/// A tool shows what a toolkit can do: one whose name speaks of posts, tweets or
/// creating publishes; of comments or replies, reads comments; of messages and of
/// getting, listing or fetching them, reads messages; of messages and of sending or
/// creating them, sends messages; of metrics, analytics or insights, reads counts.
pub proof fn a_tool_shows_a_capability(slugs: Seq<Seq<char>>, i: int)
    requires
        0 <= i < slugs.len(),
    ensures
        ({
            let s = slugs[i];
            let message = text::has_text(s, "message"@) || text::has_text(s, "dm"@);
            &&& text::has_text(s, "post"@) || text::has_text(s, "create"@) || text::has_text(
                s,
                "tweet"@,
            ) ==> caps_of_slugs(slugs).publish
            &&& text::has_text(s, "comment"@) || text::has_text(s, "repl"@) ==> caps_of_slugs(
                slugs,
            ).read_comments
            &&& message && (text::has_text(s, "get"@) || text::has_text(s, "list"@)
                || text::has_text(s, "fetch"@)) ==> caps_of_slugs(slugs).read_dms
            &&& message && (text::has_text(s, "send"@) || text::has_text(s, "create"@))
                ==> caps_of_slugs(slugs).send_dm
            &&& text::has_text(s, "metric"@) || text::has_text(s, "analytic"@) || text::has_text(
                s,
                "insight"@,
            ) ==> caps_of_slugs(slugs).read_engagement
        }),
{
    let s = slugs[i];
    lemma_three(s, "post"@, "create"@, "tweet"@);
    lemma_two(s, "comment"@, "repl"@);
    lemma_two(s, "message"@, "dm"@);
    lemma_three(s, "get"@, "list"@, "fetch"@);
    lemma_two(s, "send"@, "create"@);
    lemma_three(s, "metric"@, "analytic"@, "insight"@);
}

/// A toolkit without a tool for it cannot do a thing, and none schedules.
pub proof fn no_tool_no_capability(slugs: Seq<Seq<char>>)
    ensures
        ({
            let c = caps_of_slugs(slugs);
            &&& c.publish ==> exists|i: int|
                0 <= i < slugs.len() && holds(#[trigger] slugs[i], "post"@, "create"@, "tweet"@)
            &&& c.read_comments ==> exists|i: int|
                0 <= i < slugs.len() && (text::has_text(#[trigger] slugs[i], "comment"@)
                    || text::has_text(slugs[i], "repl"@))
            &&& c.read_dms ==> exists|i: int|
                0 <= i < slugs.len() && (text::has_text(#[trigger] slugs[i], "message"@)
                    || text::has_text(slugs[i], "dm"@)) && holds(
                    slugs[i],
                    "get"@,
                    "list"@,
                    "fetch"@,
                )
            &&& c.send_dm ==> exists|i: int|
                0 <= i < slugs.len() && (text::has_text(#[trigger] slugs[i], "message"@)
                    || text::has_text(slugs[i], "dm"@)) && (text::has_text(slugs[i], "send"@)
                    || text::has_text(slugs[i], "create"@))
            &&& c.read_engagement ==> exists|i: int|
                0 <= i < slugs.len() && holds(
                    #[trigger] slugs[i],
                    "metric"@,
                    "analytic"@,
                    "insight"@,
                )
            &&& !c.schedule
        }),
{
    assert forall|i: int| 0 <= i < slugs.len() implies has_any(
        #[trigger] slugs[i],
        seq!["post"@, "create"@, "tweet"@],
    ) == holds(slugs[i], "post"@, "create"@, "tweet"@) by {
        lemma_three(slugs[i], "post"@, "create"@, "tweet"@);
    }
    assert forall|i: int| 0 <= i < slugs.len() implies has_any(
        #[trigger] slugs[i],
        seq!["comment"@, "repl"@],
    ) == (text::has_text(slugs[i], "comment"@) || text::has_text(slugs[i], "repl"@)) by {
        lemma_two(slugs[i], "comment"@, "repl"@);
    }
    assert forall|i: int| 0 <= i < slugs.len() implies has_any(
        #[trigger] slugs[i],
        seq!["message"@, "dm"@],
    ) == (text::has_text(slugs[i], "message"@) || text::has_text(slugs[i], "dm"@)) by {
        lemma_two(slugs[i], "message"@, "dm"@);
    }
    assert forall|i: int| 0 <= i < slugs.len() implies has_any(
        #[trigger] slugs[i],
        seq!["get"@, "list"@, "fetch"@],
    ) == holds(slugs[i], "get"@, "list"@, "fetch"@) by {
        lemma_three(slugs[i], "get"@, "list"@, "fetch"@);
    }
    assert forall|i: int| 0 <= i < slugs.len() implies has_any(
        #[trigger] slugs[i],
        seq!["send"@, "create"@],
    ) == (text::has_text(slugs[i], "send"@) || text::has_text(slugs[i], "create"@)) by {
        lemma_two(slugs[i], "send"@, "create"@);
    }
    assert forall|i: int| 0 <= i < slugs.len() implies has_any(
        #[trigger] slugs[i],
        seq!["metric"@, "analytic"@, "insight"@],
    ) == holds(slugs[i], "metric"@, "analytic"@, "insight"@) by {
        lemma_three(slugs[i], "metric"@, "analytic"@, "insight"@);
    }
}

proof fn lemma_two(s: Seq<char>, a: Seq<char>, b: Seq<char>)
    ensures
        has_any(s, seq![a, b]) == (text::has_text(s, a) || text::has_text(s, b)),
{
    let w = seq![a, b];
    assert(w[0] == a && w[1] == b);
}

proof fn lemma_three(s: Seq<char>, a: Seq<char>, b: Seq<char>, c: Seq<char>)
    ensures
        has_any(s, seq![a, b, c]) == (text::has_text(s, a) || text::has_text(s, b)
            || text::has_text(s, c)),
{
    let w = seq![a, b, c];
    assert(w[0] == a && w[1] == b && w[2] == c);
}

/// Every entry of a catalog that has a slug is looked at, in small letters, and nothing
/// else is.
pub proof fn every_slug_of_a_catalog_is_looked_at(doc: Seq<char>, n: nat)
    ensures
        forall|i: nat|
            i < n && (#[trigger] json::json_string(
                doc,
                "/items/"@ + text::decimal_of(i) + "/slug"@,
            )) is Some ==> catalog_slugs(doc, n).contains(
                text::lower_of(
                    json::json_string(doc, "/items/"@ + text::decimal_of(i) + "/slug"@)->0,
                ),
            ),
        catalog_slugs(doc, n).len() <= n,
        forall|k: int|
            0 <= k < catalog_slugs(doc, n).len() ==> exists|i: nat|
                i < n && json::json_string(doc, slug_pointer_of(i)) is Some && text::lower_of(
                    (#[trigger] json::json_string(doc, slug_pointer_of(i)))->0,
                ) == #[trigger] catalog_slugs(doc, n)[k],
    decreases n,
{
    if n > 0 {
        let m = (n - 1) as nat;
        every_slug_of_a_catalog_is_looked_at(doc, m);
        let before = catalog_slugs(doc, m);
        let now = catalog_slugs(doc, n);
        let last = json::json_string(doc, slug_pointer_of(m));
        assert forall|x: Seq<char>| before.contains(x) implies now.contains(x) by {
            let k = choose|k: int| 0 <= k < before.len() && before[k] == x;
            assert(now[k] == x);
        }
        if last is Some {
            assert(now[before.len() as int] == text::lower_of(last->0));
        }
        assert forall|i: nat|
            i < n && (#[trigger] json::json_string(
                doc,
                "/items/"@ + text::decimal_of(i) + "/slug"@,
            )) is Some implies now.contains(
            text::lower_of(json::json_string(doc, "/items/"@ + text::decimal_of(i) + "/slug"@)->0),
        ) by {
            if i < m {
                assert(before.contains(
                    text::lower_of(
                        json::json_string(doc, "/items/"@ + text::decimal_of(i) + "/slug"@)->0,
                    ),
                ));
            }
        }
        assert forall|k: int| 0 <= k < now.len() implies exists|i: nat|
            i < n && json::json_string(doc, slug_pointer_of(i)) is Some && text::lower_of(
                (#[trigger] json::json_string(doc, slug_pointer_of(i)))->0,
            ) == #[trigger] now[k] by {
            if k < before.len() {
                assert(now[k] == before[k]);
                let i = choose|i: nat|
                    i < m && json::json_string(doc, slug_pointer_of(i)) is Some && text::lower_of(
                        (#[trigger] json::json_string(doc, slug_pointer_of(i)))->0,
                    ) == before[k];
                assert(json::json_string(doc, slug_pointer_of(i)) is Some);
            } else {
                assert(json::json_string(doc, slug_pointer_of(m)) is Some);
            }
        }
    }
}

/// A toolkit's catalog is asked for by its name, two hundred tools at once.
pub proof fn a_catalog_is_asked_for_by_name(platform: Platform)
    ensures
        catalog_path_of(platform) == "/tools?toolkit_slug="@ + encoding::urlencode_of(
            platform.toolkit(),
        ) + "&limit=200"@,
{
}

/// Comments and mentions are asked for where comments can be read, messages where they
/// can, and nothing else.
pub proof fn what_can_be_read_is_asked_for(platform: Platform, caps: PlatformCapabilities)
    ensures
        ({
            let w = wanted_of(platform, caps);
            let comments = (tool_slug_of(platform, "LIST_COMMENTS"@), InboxKind::Comment);
            let mentions = (tool_slug_of(platform, "LIST_MENTIONS"@), InboxKind::Mention);
            let messages = (tool_slug_of(platform, "LIST_MESSAGES"@), InboxKind::Dm);
            &&& caps.read_comments && caps.read_dms ==> w == seq![comments, mentions, messages]
            &&& caps.read_comments && !caps.read_dms ==> w == seq![comments, mentions]
            &&& !caps.read_comments && caps.read_dms ==> w == seq![messages]
            &&& !caps.read_comments && !caps.read_dms ==> w.len() == 0
        }),
{
    let w = wanted_of(platform, caps);
    let comments = (tool_slug_of(platform, "LIST_COMMENTS"@), InboxKind::Comment);
    let mentions = (tool_slug_of(platform, "LIST_MENTIONS"@), InboxKind::Mention);
    let messages = (tool_slug_of(platform, "LIST_MESSAGES"@), InboxKind::Dm);
    if caps.read_comments && caps.read_dms {
        assert(w =~= seq![comments, mentions, messages]);
    } else if caps.read_dms {
        assert(w =~= seq![messages]);
    }
}

/// An entry with an id is an item that says what the entry says; an author that is not
/// named is unknown, a missing text is empty, and a time that is not told is now.
pub proof fn an_entry_is_told_as_it_came(
    fields: EntryView,
    platform: Platform,
    kind: InboxKind,
    now: i64,
)
    ensures
        item_of(fields, platform, kind, now) is Some <==> fields.id is Some,
        item_of(fields, platform, kind, now) matches Some(item) ==> {
            &&& Some(item.external_id) == fields.id
            &&& item.platform == platform
            &&& item.kind == kind
            &&& fields.author is Some ==> item.author == fields.author->0
            &&& fields.author is None ==> item.author == "unknown"@
            &&& fields.text is Some ==> item.text == fields.text->0
            &&& fields.text is None ==> item.text.len() == 0
            &&& item.permalink == fields.permalink
            &&& fields.created_number is None && fields.created_text is Some ==> item.received_at
                == fields.created_text->0
            &&& fields.created_number is None && fields.created_text is None ==> item.received_at
                == now
            &&& fields.created_number is Some ==> item.received_at == remote_time(
                fields.created_number,
                None,
                now,
            )
        },
{
}

/// The fields of an entry stand under its place in the list of items, some of them
/// under one of two names.
pub proof fn an_entry_has_its_place(doc: Seq<char>, i: nat, at: Seq<char>)
    requires
        at == "/data/items/"@ + text::decimal_of(i) + "/"@,
    ensures
        ({
            let f = fields_of(doc, i);
            &&& f.id == json::json_string(doc, at + "id"@)
            &&& json::json_has(doc, at + "author"@) ==> f.author == json::json_string(
                doc,
                at + "author"@,
            )
            &&& !json::json_has(doc, at + "author"@) ==> f.author == json::json_string(
                doc,
                at + "username"@,
            )
            &&& json::json_has(doc, at + "text"@) ==> f.text == json::json_string(doc, at + "text"@)
            &&& !json::json_has(doc, at + "text"@) ==> f.text == json::json_string(
                doc,
                at + "body"@,
            )
            &&& json::json_has(doc, at + "url"@) ==> f.permalink == json::json_string(
                doc,
                at + "url"@,
            )
            &&& !json::json_has(doc, at + "url"@) ==> f.permalink == json::json_string(
                doc,
                at + "permalink"@,
            )
            &&& f.created_number == json::json_i64(doc, at + "created_at"@)
        }),
{
}

/// The entries with an id are the items of a reply, in their order: each is added behind
/// what stood before it.
pub proof fn every_entry_with_an_id_is_an_item(
    doc: Seq<char>,
    n: nat,
    i: nat,
    platform: Platform,
    kind: InboxKind,
    now: i64,
)
    requires
        i < n,
    ensures
        ({
            let before = entries_of(doc, i, platform, kind, now);
            let all = entries_of(doc, n, platform, kind, now);
            let e = item_of(fields_of(doc, i), platform, kind, now);
            &&& before.is_prefix_of(all)
            &&& fields_of(doc, i).id is Some ==> before.push(e->0).is_prefix_of(all)
            &&& all.len() <= n
            &&& fields_of(doc, i).id is None ==> entries_of(doc, i + 1, platform, kind, now)
                == before
        }),
    decreases n,
{
    let m = (n - 1) as nat;
    let before = entries_of(doc, i, platform, kind, now);
    let prior = entries_of(doc, m, platform, kind, now);
    let all = entries_of(doc, n, platform, kind, now);
    lemma_no_more_than_entries(doc, n, platform, kind, now);
    assert(prior =~= all.take(prior.len() as int));
    if i < m {
        every_entry_with_an_id_is_an_item(doc, m, i, platform, kind, now);
        assert(before =~= all.take(before.len() as int)) by {
            assert(before == prior.take(before.len() as int));
        }
        if fields_of(doc, i).id is Some {
            let more = before.push(item_of(fields_of(doc, i), platform, kind, now)->0);
            assert(more == prior.take(more.len() as int));
            assert(more =~= all.take(more.len() as int));
        }
    } else if fields_of(doc, i).id is Some {
        let more = before.push(item_of(fields_of(doc, i), platform, kind, now)->0);
        assert(all =~= more);
        assert(more =~= all.take(more.len() as int));
    }
}

proof fn lemma_no_more_than_entries(
    doc: Seq<char>,
    n: nat,
    platform: Platform,
    kind: InboxKind,
    now: i64,
)
    ensures
        entries_of(doc, n, platform, kind, now).len() <= n,
    decreases n,
{
    if n > 0 {
        lemma_no_more_than_entries(doc, (n - 1) as nat, platform, kind, now);
    }
}

/// An inbox is what its tools gave, one after the other; a tool whose reply tells of no
/// failure gave the entries of that reply, of its own kind.
pub proof fn an_inbox_is_what_its_tools_gave(
    tools: Seq<(InboxKind, Option<Seq<char>>)>,
    kind: InboxKind,
    doc: Seq<char>,
    platform: Platform,
    now: i64,
)
    ensures
        items_of_tools(Seq::empty(), platform, now).len() == 0,
        items_of_tools(tools.push((kind, None)), platform, now) == items_of_tools(
            tools,
            platform,
            now,
        ),
        reply_fault(doc) is Some ==> items_of_tools(
            tools.push((kind, Some(doc))),
            platform,
            now,
        ) == items_of_tools(tools, platform, now),
        reply_fault(doc) is None && json::json_array_len(doc, "/data/items"@) is Some
            ==> items_of_tools(tools.push((kind, Some(doc))), platform, now) == items_of_tools(
            tools,
            platform,
            now,
        ) + entries_of(
            doc,
            json::json_array_len(doc, "/data/items"@)->0 as nat,
            platform,
            kind,
            now,
        ),
{
    assert(tools.push((kind, None)).drop_last() =~= tools);
    assert(tools.push((kind, Some(doc))).drop_last() =~= tools);
    let before = items_of_tools(tools, platform, now);
    assert(before + Seq::<types::IncomingView>::empty() =~= before);
}

} // verus!
