//! Treg, a broker for posts and threads on X: its catalog, the calls a thread
//! becomes and what their replies mean. Requests go out elsewhere, and so is the
//! price read, which is a fraction of a dollar.
use vstd::prelude::*;
use crate::ids;
use crate::ids::random_uuid_hyphenated;
use crate::json;
use crate::platform::{Platform, PlatformCapabilities};
use crate::providers::encoding;
use crate::providers::encoding::urlencode;
use crate::providers::types;
use crate::providers::types::{find_local, PublishRequest, PublishResult, ResultView};
use crate::text;
use crate::text::{chars_of, decimal, is_blank, text_eq, trim};

verus! {

pub const DEFAULT_BASE_URL: &'static str = "https://treg.to";

/// An endpoint of the catalog, with its price in millionths of a dollar.
#[derive(Debug, PartialEq, Eq, Clone)]
pub struct EndpointSpec {
    pub id: String,
    pub method: String,
    pub cost_micro_usd: u64,
}

pub open spec fn without_trailing(s: Seq<char>, c: char) -> Seq<char>
    decreases s.len(),
{
    if s.len() > 0 && s.last() == c {
        without_trailing(s.drop_last(), c)
    } else {
        s
    }
}

fn trim_trailing(s: &str, c: char) -> (r: &str)
    ensures
        r@ == without_trailing(s@, c),
{
    let v = chars_of(s);
    let mut n: usize = v.len();
    assert(v@.take(n as int) =~= v@);
    while n > 0 && v[n - 1] == c
        invariant
            n <= v.len(),
            v@ == s@,
            without_trailing(s@, c) == without_trailing(v@.take(n as int), c),
        decreases n,
    {
        assert(v@.take(n as int).drop_last() =~= v@.take(n as int - 1));
        n = n - 1;
    }
    assert(v@.take(n as int) =~= s@.subrange(0, n as int));
    s.substring_char(0, n)
}

pub open spec fn base_url_of(configured: Option<Seq<char>>) -> Seq<char> {
    without_trailing(
        match configured {
            Some(u) => if text::blank(u) {
                DEFAULT_BASE_URL@
            } else {
                u
            },
            None => DEFAULT_BASE_URL@,
        },
        '/',
    )
}

/// Where the catalog is: the configured address, or the default where that is
/// blank, without slashes at its end.
pub fn base_url(configured: Option<&str>) -> (r: String)
    ensures
        r@ == base_url_of(
            match configured {
                Some(u) => Some(u@),
                None => None,
            },
        ),
{
    let u: &str = match configured {
        Some(u) => {
            if is_blank(u) {
                DEFAULT_BASE_URL
            } else {
                u
            }
        },
        None => DEFAULT_BASE_URL,
    };
    trim_trailing(u, '/').to_owned()
}

/// Where the catalog describes an endpoint.
pub fn endpoint_url(base: &str, endpoint_id: &str) -> (r: String)
    ensures
        r@ == base@ + "/catalog/endpoints/"@ + encoding::urlencode_of(endpoint_id@),
{
    let mut u: String = base.to_owned();
    u.append("/catalog/endpoints/");
    u.append(urlencode(endpoint_id).as_str());
    u
}

pub open spec fn endpoint_id_of(platform: Platform, capability: Seq<char>) -> Option<Seq<char>> {
    if platform == Platform::X && capability == "x.post.create"@ {
        Some("x.x.post.create"@)
    } else if platform == Platform::X && capability == "x.post.reply"@ {
        Some("x.x.post.reply"@)
    } else {
        None
    }
}

/// The endpoint that serves a capability.
pub fn endpoint_id_for(platform: Platform, capability: &str) -> (r: Option<&'static str>)
    ensures
        match r {
            Some(id) => endpoint_id_of(platform, capability@) == Some(id@),
            None => endpoint_id_of(platform, capability@) is None,
        },
{
    if platform == Platform::X && text_eq(capability, "x.post.create") {
        Some("x.x.post.create")
    } else if platform == Platform::X && text_eq(capability, "x.post.reply") {
        Some("x.x.post.reply")
    } else {
        None
    }
}

/// A character of an HTTP token.
pub open spec fn token_char(c: char) -> bool {
    ||| ('A' <= c && c <= 'Z')
    ||| ('a' <= c && c <= 'z')
    ||| ('0' <= c && c <= '9')
    ||| c == '!'
    ||| c == '#'
    ||| c == '$'
    ||| c == '%'
    ||| c == '&'
    ||| c == '\''
    ||| c == '*'
    ||| c == '+'
    ||| c == '-'
    ||| c == '.'
    ||| c == '^'
    ||| c == '_'
    ||| c == '`'
    ||| c == '|'
    ||| c == '~'
}

pub open spec fn http_token(s: Seq<char>) -> bool {
    s.len() > 0 && forall|i: int| 0 <= i < s.len() ==> token_char(#[trigger] s[i])
}

/// Parses the text as a `reqwest::Method` (which is `http::Method`) and prints the
/// method. Every token is a method and prints as it was written; nothing else is
/// one.
#[verifier::external_body]
pub(crate) fn parse_method(s: &str) -> (r: Option<String>)
    ensures
        match r {
            Some(m) => http_token(s@) && m@ == s@,
            None => !http_token(s@),
        },
{
    s.parse::<reqwest::Method>().ok().map(|m| m.to_string())
}

/// An endpoint from the fields of its description: its id, without white space
/// round it, is the one expected, its method is one, and its price is known.
pub fn endpoint_of(
    id: Option<String>,
    method: Option<String>,
    cost_micro_usd: Option<u64>,
    expected_id: &str,
) -> (r: Option<EndpointSpec>)
    ensures
        ({
            let fits = {
                &&& id matches Some(i) && text::trim_of(i@) == expected_id@
                &&& method matches Some(m) && http_token(m@)
                &&& cost_micro_usd is Some
            };
            match r {
                Some(e) => {
                    &&& fits
                    &&& e.id@ == expected_id@
                    &&& e.method@ == method->0@
                    &&& cost_micro_usd == Some(e.cost_micro_usd)
                },
                None => !fits,
            }
        }),
{
    match (id, method, cost_micro_usd) {
        (Some(i), Some(m), Some(cost)) => {
            if !text_eq(trim(i.as_str()), expected_id) {
                return None;
            }
            match parse_method(m.as_str()) {
                Some(method) => Some(
                    EndpointSpec { id: expected_id.to_owned(), method, cost_micro_usd: cost },
                ),
                None => None,
            }
        },
        _ => None,
    }
}

/// The endpoint that a catalog reply describes. The price is what reading
/// `endpoint.cost.usd` gave.
pub fn parse_endpoint(reply: &str, expected_id: &str, cost_micro_usd: Option<u64>) -> (r: Option<
    EndpointSpec,
>)
    ensures
        ({
            let id = json::json_string(reply@, "/endpoint/id"@);
            let method = json::json_string(reply@, "/endpoint/method"@);
            let fits = {
                &&& id matches Some(i) && text::trim_of(i) == expected_id@
                &&& method matches Some(m) && http_token(m)
                &&& cost_micro_usd is Some
            };
            match r {
                Some(e) => {
                    &&& fits
                    &&& e.id@ == expected_id@
                    &&& method == Some(e.method@)
                    &&& cost_micro_usd == Some(e.cost_micro_usd)
                },
                None => !fits,
            }
        }),
{
    endpoint_of(
        json::string_at(reply, "/endpoint/id"),
        json::string_at(reply, "/endpoint/method"),
        cost_micro_usd,
        expected_id,
    )
}

pub open spec fn caps_of(platform: Platform, endpoint: Option<Seq<char>>, ready: bool) -> PlatformCapabilities {
    PlatformCapabilities {
        publish: platform == Platform::X && endpoint == Some("x.x.post.create"@) && ready,
        ..PlatformCapabilities::none()
    }
}

/// What this broker can do, from the create endpoint's description and whether the
/// provider is ready.
pub fn capabilities(platform: Platform, endpoint: Option<&EndpointSpec>, ready: bool) -> (r:
    PlatformCapabilities)
    ensures
        r == caps_of(
            platform,
            match endpoint {
                Some(e) => Some(e.id@),
                None => None,
            },
            ready,
        ),
        !r.schedule,
{
    let mut caps = PlatformCapabilities::empty();
    if platform != Platform::X {
        return caps;
    }
    match endpoint {
        Some(e) => {
            caps.publish = text_eq(e.id.as_str(), "x.x.post.create") && ready;
        },
        None => {},
    }
    caps
}

/// Why a request is refused before any call: another platform, a local file, or any
/// attachment at all.
pub open spec fn refusal_of(request: types::RequestView) -> Option<Seq<char>> {
    if request.account.platform != Platform::X {
        Some("Treg publishing is not configured for "@ + request.account.platform.name())
    } else {
        match types::first_local(request.media) {
            Some(m) => Some("Treg cannot publish the local file \""@ + m.url + "\""@),
            None => if request.media.len() > 0 {
                Some("Treg X publishing currently supports text-only posts and threads"@)
            } else {
                None
            },
        }
    }
}

pub fn publish_refusal(request: &PublishRequest) -> (r: Option<PublishResult>)
    ensures
        match r {
            Some(e) => refusal_of(request@) matches Some(m) && e@ == (ResultView::Refused {
                error: m,
            }),
            None => refusal_of(request@) is None,
        },
{
    if request.account.platform != Platform::X {
        let mut m: String = "Treg publishing is not configured for ".to_owned();
        m.append(request.account.platform.as_str());
        return Some(PublishResult::Refused { error: m });
    }
    match find_local(&request.media) {
        Some(url) => {
            let mut m: String = "Treg cannot publish the local file \"".to_owned();
            m.append(url.as_str());
            m.append("\"");
            return Some(PublishResult::Refused { error: m });
        },
        None => {},
    }
    if request.media.len() > 0 {
        return Some(
            PublishResult::err("Treg X publishing currently supports text-only posts and threads"),
        );
    }
    None
}

pub open spec fn remote_url_of(platform: Platform, id: Seq<char>) -> Option<Seq<char>> {
    if platform == Platform::X {
        Some("https://x.com/i/web/status/"@ + id)
    } else {
        None
    }
}

/// The page of a post.
pub fn remote_url(platform: Platform, id: &str) -> (r: Option<String>)
    ensures
        text::opt_text(r) == remote_url_of(platform, id@),
{
    if platform == Platform::X {
        let mut u: String = "https://x.com/i/web/status/".to_owned();
        u.append(id);
        Some(u)
    } else {
        None
    }
}

/// How far a thread has come: the post made last, and how many segments have one.
#[derive(Debug, PartialEq, Eq)]
pub struct ChainRun {
    pub parent_id: Option<String>,
    pub done: usize,
}

#[verifier::ext_equal]
pub struct ChainView {
    pub parent_id: Option<Seq<char>>,
    pub done: nat,
}

impl View for ChainRun {
    type V = ChainView;

    open spec fn view(&self) -> ChainView {
        ChainView { parent_id: text::opt_text(self.parent_id), done: self.done as nat }
    }
}

/// One call of a thread.
#[derive(Debug, PartialEq, Eq)]
pub struct ChainCall {
    pub capability: &'static str,
    pub text: String,
    /// The post this replies to.
    pub in_reply_to: Option<String>,
    pub idempotency_key: Option<String>,
}

#[verifier::ext_equal]
pub struct ChainCallView {
    pub capability: Seq<char>,
    pub text: Seq<char>,
    pub in_reply_to: Option<Seq<char>>,
    pub idempotency_key: Option<Seq<char>>,
}

impl View for ChainCall {
    type V = ChainCallView;

    open spec fn view(&self) -> ChainCallView {
        ChainCallView {
            capability: self.capability@,
            text: self.text@,
            in_reply_to: text::opt_text(self.in_reply_to),
            idempotency_key: text::opt_text(self.idempotency_key),
        }
    }
}

impl ChainView {
    pub open spec fn start() -> ChainView {
        ChainView { parent_id: None, done: 0 }
    }

    /// The next call, if a segment is left: the first creates a post, each further
    /// one replies to the post before it.
    pub open spec fn next(self, request: types::RequestView) -> Option<ChainCallView> {
        let segments = request.effective();
        if self.done < segments.len() {
            Some(
                ChainCallView {
                    capability: if self.done == 0 {
                        "x.post.create"@
                    } else {
                        "x.post.reply"@
                    },
                    text: segments[self.done as int].text,
                    in_reply_to: self.parent_id,
                    idempotency_key: request.segment_key_of(self.done),
                },
            )
        } else {
            None
        }
    }

    pub open spec fn posted(self, id: Seq<char>) -> ChainView {
        ChainView { parent_id: Some(id), done: self.done + 1 }
    }

    /// The answer once no segment is left: the last post stands for the thread.
    pub open spec fn result(self) -> ResultView {
        match self.parent_id {
            Some(id) => ResultView::Published {
                remote_id: id,
                remote_url: remote_url_of(Platform::X, id),
            },
            None => ResultView::Refused { error: "Treg refused an empty X thread"@ },
        }
    }
}

impl ChainRun {
    pub fn start() -> (r: Self)
        ensures
            r@ == ChainView::start(),
    {
        ChainRun { parent_id: None, done: 0 }
    }

    /// The next call, if a segment is left.
    pub fn next_call(&self, request: &PublishRequest) -> (r: Option<ChainCall>)
        ensures
            match r {
                Some(c) => self@.next(request@) == Some(c@),
                None => self@.next(request@) is None,
            },
    {
        let segments = request.effective_segments();
        if self.done >= segments.len() {
            return None;
        }
        assert(types::publish_segment_views(segments@)[self.done as int]
            == segments@[self.done as int]@);
        let capability: &'static str = if self.done == 0 {
            "x.post.create"
        } else {
            "x.post.reply"
        };
        Some(
            ChainCall {
                capability,
                text: segments[self.done].text.clone(),
                in_reply_to: self.parent_id.clone(),
                idempotency_key: request.segment_key(self.done),
            },
        )
    }

    /// Take in the answer to the next call, as its fields: whether the status was a
    /// success, the status in words, and the id of the post.
    pub fn answered(
        self,
        endpoint_id: &str,
        success: bool,
        status: &str,
        post_id: Option<String>,
    ) -> (r: Result<ChainRun, PublishResult>)
        requires
            self.done < usize::MAX,
        ensures
            match r {
                Ok(next) => success && post_id is Some && next@ == self@.posted(post_id->0@),
                Err(e) => if !success {
                    e@ == (ResultView::Refused {
                        error: "Treg endpoint "@ + endpoint_id@ + " returned HTTP "@ + status@,
                    })
                } else {
                    post_id is None && e@ == (ResultView::Refused {
                        error: "Treg endpoint "@ + endpoint_id@ + " returned no post id"@,
                    })
                },
            },
    {
        if !success {
            let mut m: String = "Treg endpoint ".to_owned();
            m.append(endpoint_id);
            m.append(" returned HTTP ");
            m.append(status);
            return Err(PublishResult::Refused { error: m });
        }
        match post_id {
            Some(id) => Ok(ChainRun { parent_id: Some(id), done: self.done + 1 }),
            None => {
                let mut m: String = "Treg endpoint ".to_owned();
                m.append(endpoint_id);
                m.append(" returned no post id");
                Err(PublishResult::Refused { error: m })
            },
        }
    }

    /// Take in the reply to the next call.
    pub fn reply(self, endpoint_id: &str, success: bool, status: &str, body: &str) -> (r: Result<
        ChainRun,
        PublishResult,
    >)
        requires
            self.done < usize::MAX,
        ensures
            ({
                let id = json::json_string(body@, "/data/id"@);
                match r {
                    Ok(next) => success && id is Some && next@ == self@.posted(id->0),
                    Err(e) => if !success {
                        e@ == (ResultView::Refused {
                            error: "Treg endpoint "@ + endpoint_id@ + " returned HTTP "@ + status@,
                        })
                    } else {
                        id is None && e@ == (ResultView::Refused {
                            error: "Treg endpoint "@ + endpoint_id@ + " returned no post id"@,
                        })
                    },
                }
            }),
    {
        self.answered(endpoint_id, success, status, json::string_at(body, "/data/id"))
    }

    /// The answer once no segment is left.
    pub fn finish(self) -> (r: PublishResult)
        ensures
            r@ == self@.result(),
    {
        match self.parent_id {
            Some(id) => {
                let url = remote_url(Platform::X, id.as_str());
                PublishResult::Published { remote_id: id, remote_url: url }
            },
            None => PublishResult::err("Treg refused an empty X thread"),
        }
    }
}

/// The refusal of a capability that the catalog does not serve.
pub fn no_endpoint(capability: &str) -> (r: PublishResult)
    ensures
        r@ == (ResultView::Refused {
            error: "Treg catalog has no "@ + capability@ + " endpoint for X"@,
        }),
{
    let mut m: String = "Treg catalog has no ".to_owned();
    m.append(capability);
    m.append(" endpoint for X");
    PublishResult::Refused { error: m }
}

/// The name a call goes by: its key, or a fresh one where it has none.
pub fn request_id(request: &PublishRequest, index: usize) -> (r: String)
    ensures
        match request@.segment_key_of(index as nat) {
            Some(k) => r@ == k,
            None => exists|u: Seq<char>|
                #[trigger] ids::hyphenated_uuid(u) && r@ == "social:treg:"@ + u + ":"@
                    + text::decimal_of(index as nat),
        },
{
    match request.segment_key(index) {
        Some(k) => k,
        None => {
            let u = random_uuid_hyphenated();
            let mut r: String = "social:treg:".to_owned();
            r.append(u.as_str());
            r.append(":");
            r.append(decimal(index as u128).as_str());
            assert(ids::hyphenated_uuid(u@));
            r
        },
    }
}

/// A thread fed with a row of post ids.
pub open spec fn chain_after(v: ChainView, posts: Seq<Seq<char>>) -> ChainView
    decreases posts.len(),
{
    if posts.len() == 0 {
        v
    } else {
        chain_after(v, posts.drop_last()).posted(posts.last())
    }
}

/// After a row of posts the next segment replies to the last of them; the first
/// call alone creates.
pub proof fn a_thread_replies_to_its_last_post(posts: Seq<Seq<char>>, request: types::RequestView)
    requires
        posts.len() > 0,
        posts.len() < request.effective().len(),
    ensures
        chain_after(ChainView::start(), posts).next(request) matches Some(c) && c.in_reply_to
            == Some(posts.last()) && c.capability == "x.post.reply"@,
        ChainView::start().next(request) matches Some(c) && c.in_reply_to is None && c.capability
            == "x.post.create"@,
{
    lemma_chain_count(posts);
}

proof fn lemma_chain_count(posts: Seq<Seq<char>>)
    ensures
        chain_after(ChainView::start(), posts).done == posts.len(),
    decreases posts.len(),
{
    if posts.len() > 0 {
        lemma_chain_count(posts.drop_last());
    }
}

/// Every segment of a thread has its own call, in their order: the one planned after
/// `k` posts carries the text of segment `k` under the key of segment `k`, and replies
/// to the post before it; none is planned once all segments have theirs.
pub proof fn every_segment_has_its_call(posts: Seq<Seq<char>>, request: types::RequestView)
    ensures
        posts.len() < request.effective().len() ==> {
            let planned = chain_after(ChainView::start(), posts).next(request);
            &&& planned is Some
            &&& planned->0.text == request.effective()[posts.len() as int].text
            &&& planned->0.idempotency_key == request.segment_key_of(posts.len())
            &&& planned->0.in_reply_to == (if posts.len() > 0 {
                Some(posts.last())
            } else {
                None
            })
        },
        posts.len() >= request.effective().len() ==> chain_after(ChainView::start(), posts).next(
            request,
        ) is None,
{
    lemma_chain_count(posts);
}

/// A thread is known by its last post, and that post has its page on X. Without a post
/// nothing was published.
pub proof fn a_thread_is_known_by_its_last_post(posts: Seq<Seq<char>>)
    ensures
        posts.len() > 0 ==> chain_after(ChainView::start(), posts).result() == (
        ResultView::Published {
            remote_id: posts.last(),
            remote_url: Some("https://x.com/i/web/status/"@ + posts.last()),
        }),
        posts.len() == 0 ==> chain_after(ChainView::start(), posts).result() is Refused,
{
}

/// A request is refused before any call exactly when it is for another platform or has
/// an attachment.
pub proof fn only_text_for_x_is_sent(request: types::RequestView)
    ensures
        refusal_of(request) is None <==> request.account.platform == Platform::X
            && request.media.len() == 0,
{
}

/// The two capabilities of X have an endpoint each, and nothing else has one.
pub proof fn only_x_has_endpoints(platform: Platform, capability: Seq<char>)
    ensures
        endpoint_id_of(platform, capability) is Some <==> platform == Platform::X && (capability
            == "x.post.create"@ || capability == "x.post.reply"@),
        endpoint_id_of(platform, capability) is Some ==> endpoint_id_of(platform, capability)->0
            == "x."@ + capability,
{
    reveal_strlit("x.post.create");
    reveal_strlit("x.post.reply");
    reveal_strlit("x.x.post.create");
    reveal_strlit("x.x.post.reply");
    reveal_strlit("x.");
    assert("x."@ + "x.post.create"@ =~= "x.x.post.create"@);
    assert("x."@ + "x.post.reply"@ =~= "x.x.post.reply"@);
}

/// The broker offers publishing alone, on X alone, and only where its catalog has the
/// endpoint and it is ready.
pub proof fn the_broker_offers_publishing_alone(
    platform: Platform,
    endpoint: Option<Seq<char>>,
    ready: bool,
)
    ensures
        caps_of(platform, endpoint, ready).publish <==> platform == Platform::X && ready
            && endpoint == Some("x.x.post.create"@),
        !caps_of(platform, endpoint, ready).read_comments,
        !caps_of(platform, endpoint, ready).read_dms,
        !caps_of(platform, endpoint, ready).send_dm,
        !caps_of(platform, endpoint, ready).read_engagement,
        !caps_of(platform, endpoint, ready).schedule,
{
}

/// The address is the configured one, or the default where that is blank, and ends
/// with no slash.
pub proof fn an_address_ends_with_no_slash(configured: Option<Seq<char>>, k: nat, u: Seq<char>)
    ensures
        base_url_of(configured).len() > 0 ==> base_url_of(configured).last() != '/',
        configured == Some(u + Seq::new(k, |i: int| '/')) && !text::blank(u) && u.len() > 0
            && u.last() != '/' ==> base_url_of(configured) == u,
        configured is None || text::blank(configured->0) ==> base_url_of(configured)
            == "https://treg.to"@,
{
    let from = match configured {
        Some(c) => if text::blank(c) {
            DEFAULT_BASE_URL@
        } else {
            c
        },
        None => DEFAULT_BASE_URL@,
    };
    lemma_trailing_gone(from, '/');
    reveal_strlit("https://treg.to");
    assert(without_trailing(DEFAULT_BASE_URL@, '/') == DEFAULT_BASE_URL@);
    if configured == Some(u + Seq::new(k, |i: int| '/')) && !text::blank(u) && u.len() > 0
        && u.last() != '/' {
        let c = configured->0;
        let i = choose|i: int| 0 <= i < u.len() && !text::white(#[trigger] u[i]);
        assert(c[i] == u[i]);
        lemma_trailing_dropped(u, k, '/');
    }
}

proof fn lemma_trailing_gone(s: Seq<char>, c: char)
    ensures
        without_trailing(s, c).len() > 0 ==> without_trailing(s, c).last() != c,
    decreases s.len(),
{
    if s.len() > 0 && s.last() == c {
        lemma_trailing_gone(s.drop_last(), c);
    }
}

proof fn lemma_trailing_dropped(u: Seq<char>, k: nat, c: char)
    requires
        u.len() > 0,
        u.last() != c,
    ensures
        without_trailing(u + Seq::new(k, |i: int| c), c) == u,
    decreases k,
{
    let s = u + Seq::new(k, |i: int| c);
    if k == 0 {
        assert(s =~= u);
    } else {
        assert(s.last() == c);
        assert(s.drop_last() =~= u + Seq::new((k - 1) as nat, |i: int| c));
        lemma_trailing_dropped(u, (k - 1) as nat, c);
    }
}

/// A token holds no control character, no blank, none of the separators, and nothing
/// outside ASCII; every other character may stand in one.
pub proof fn a_token_holds_no_separator(c: char)
    ensures
        token_char(c) <==> 33 <= c as int <= 126 && c != '"' && c != '(' && c != ')' && c != ','
            && c != '/' && c != ':' && c != ';' && c != '<' && c != '=' && c != '>' && c != '?' && c
            != '@' && c != '[' && c != '\\' && c != ']' && c != '{' && c != '}',
{
}

} // verus!
