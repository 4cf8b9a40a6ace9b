//! What requests ask for, and what they are refused for, before anything is read or
//! written.
use vstd::prelude::*;
use crate::draft;
use crate::draft::{DraftBody, DraftBodyView, PostSegment, SegmentView};
use crate::error::{ApiError, ApiResult, ErrorView};
use crate::ids::DEFAULT_WORKSPACE_ID;
use crate::platform;
use crate::platform::{
    limits_for, mime_for_extension, Platform, PlatformCapabilities, PlatformLimits,
};
use crate::records::{InboxItem, SocialSettings};
use crate::status::{InboxKind, PostStatus};
use crate::template::Template;
use crate::text;
use crate::text::{is_blank, split, text_eq, trim};

pub mod calendar;
pub mod posts;

verus! {

/// The most rows that one list holds.
pub const MAX_LIMIT: usize = 500;

/// How many rows a list holds where nothing is said.
pub const DEFAULT_LIMIT: usize = 200;

// ── Scope ──────────────────────────────────────────────────────────────────────

/// The workspace that a request names; the default one where it names none.
pub open spec fn workspace_named(w: Option<Seq<char>>) -> Seq<char> {
    match w {
        Some(s) => if text::blank(s) {
            DEFAULT_WORKSPACE_ID@
        } else {
            s
        },
        None => DEFAULT_WORKSPACE_ID@,
    }
}

pub fn workspace_or_default(workspace_id: &Option<String>) -> (r: &str)
    ensures
        r@ == workspace_named(text::opt_text(*workspace_id)),
{
    match workspace_id {
        Some(w) => if is_blank(w.as_str()) {
            DEFAULT_WORKSPACE_ID
        } else {
            w.as_str()
        },
        None => DEFAULT_WORKSPACE_ID,
    }
}

pub open spec fn limit_named(limit: Option<usize>) -> usize {
    match limit {
        Some(n) => if n < 1 {
            1
        } else if n > MAX_LIMIT {
            MAX_LIMIT
        } else {
            n
        },
        None => DEFAULT_LIMIT,
    }
}

pub fn limit_or_default(limit: Option<usize>) -> (r: usize)
    ensures
        r == limit_named(limit),
        1 <= r <= MAX_LIMIT,
{
    match limit {
        Some(n) => if n < 1 {
            1
        } else if n > MAX_LIMIT {
            MAX_LIMIT
        } else {
            n
        },
        None => DEFAULT_LIMIT,
    }
}

/// The scope that every list takes.
#[derive(Debug, PartialEq, Eq)]
pub struct ScopeQuery {
    pub workspace_id: Option<String>,
    pub limit: Option<usize>,
}

impl ScopeQuery {
    pub fn workspace(&self) -> (r: &str)
        ensures
            r@ == workspace_named(text::opt_text(self.workspace_id)),
    {
        workspace_or_default(&self.workspace_id)
    }

    pub fn limit(&self) -> (r: usize)
        ensures
            r == limit_named(self.limit),
            1 <= r <= MAX_LIMIT,
    {
        limit_or_default(self.limit)
    }
}

// ── Gates ──────────────────────────────────────────────────────────────────────

/// "Not found" where the store had nothing to change.
pub fn require_hit(changed: bool, what: &str) -> (r: ApiResult<()>)
    ensures
        r is Ok <==> changed,
        r is Err ==> r->Err_0@ == ErrorView::NotFound(what@),
{
    if changed {
        Ok(())
    } else {
        Err(ApiError::not_found(what))
    }
}

/// A refusal where a required text is blank.
pub fn require_text(given: &str, why: &str) -> (r: ApiResult<()>)
    ensures
        r is Ok <==> !text::blank(given@),
        r is Err ==> r->Err_0@ == ErrorView::BadRequest(why@),
{
    if is_blank(given) {
        Err(ApiError::bad_request(why))
    } else {
        Ok(())
    }
}

/// The default workspace is never deleted.
pub fn deletable_workspace(id: &str) -> (r: ApiResult<()>)
    ensures
        r is Ok <==> id@ != DEFAULT_WORKSPACE_ID@,
        r is Err ==> r->Err_0@ == ErrorView::Conflict("the default workspace cannot be deleted"@),
{
    if text_eq(id, DEFAULT_WORKSPACE_ID) {
        Err(ApiError::conflict("the default workspace cannot be deleted"))
    } else {
        Ok(())
    }
}

/// The platform of a new account, which needs a known one and a label.
pub fn new_account(platform: &str, account_label: &str) -> (r: ApiResult<Platform>)
    ensures
        match platform::platform_named(platform@) {
            None => r is Err && r->Err_0@ == ErrorView::BadRequest(
                "unknown platform \""@ + platform@ + "\""@,
            ),
            Some(p) => if text::blank(account_label@) {
                r is Err && r->Err_0@ == ErrorView::BadRequest("an account needs a label"@)
            } else {
                r == Ok::<Platform, ApiError>(p)
            },
        },
{
    let known = match Platform::parse(platform) {
        Some(p) => p,
        None => {
            let mut m: String = "unknown platform \"".to_owned();
            m.append(platform);
            m.append("\"");
            return Err(ApiError::BadRequest(m));
        },
    };
    if is_blank(account_label) {
        return Err(ApiError::bad_request("an account needs a label"));
    }
    Ok(known)
}

// ── Filters ────────────────────────────────────────────────────────────────────

/// Every status by its name.
pub const KNOWN_POST_STATUSES: [&'static str; 7] = [
    "scheduled",
    "due",
    "publishing",
    "published",
    "partial",
    "failed",
    "cancelled",
];

/// The statuses that some names mean; names that mean none are left out.
pub open spec fn statuses_named(parts: Seq<Seq<char>>) -> Seq<PostStatus>
    decreases parts.len(),
{
    if parts.len() == 0 {
        Seq::empty()
    } else {
        let init = statuses_named(parts.drop_last());
        let name = text::trim_of(parts.last());
        if PostStatus::named(name).name() == name {
            init.push(PostStatus::named(name))
        } else {
            init
        }
    }
}

/// The statuses of a comma-separated filter.
pub fn status_filter(raw: Option<&str>) -> (r: Vec<PostStatus>)
    ensures
        r@ == (match raw {
            Some(s) => statuses_named(text::split_of(s@, ',')),
            None => Seq::empty(),
        }),
{
    let mut out: Vec<PostStatus> = Vec::new();
    let raw = match raw {
        Some(s) => s,
        None => {
            return out;
        },
    };
    let parts = split(raw, ',');
    let ghost all = text::texts(parts@);
    let mut i: usize = 0;
    assert(all.take(0) =~= Seq::<Seq<char>>::empty());
    while i < parts.len()
        invariant
            i <= parts.len(),
            all == text::texts(parts@),
            out@ == statuses_named(all.take(i as int)),
        decreases parts.len() - i,
    {
        proof {
            assert(all.take(i as int + 1).drop_last() =~= all.take(i as int));
            assert(all.take(i as int + 1).last() == parts@[i as int]@);
        }
        let name = trim(parts[i].as_str());
        let status = PostStatus::from_db(name);
        if text_eq(status.as_str(), name) {
            out.push(status);
        }
        i = i + 1;
    }
    assert(all.take(all.len() as int) =~= all);
    out
}

/// A platform filter: none where nothing is said, refused where it means no platform.
pub fn platform_filter(raw: Option<&str>) -> (r: ApiResult<Option<Platform>>)
    ensures
        match raw {
            None => r == Ok::<Option<Platform>, ApiError>(None),
            Some(s) => match text::solid(Some(s@)) {
                None => r == Ok::<Option<Platform>, ApiError>(None),
                Some(name) => match platform::platform_named(name) {
                    Some(p) => r == Ok::<Option<Platform>, ApiError>(Some(p)),
                    None => r is Err && r->Err_0@ == ErrorView::BadRequest(
                        "unknown platform `"@ + name + "`"@,
                    ),
                },
            },
        },
{
    let raw = match raw {
        Some(s) => s,
        None => {
            return Ok(None);
        },
    };
    proof {
        text::trim_empties_only_blank_text(raw@);
    }
    if is_blank(raw) {
        return Ok(None);
    }
    let name = trim(raw);
    match Platform::parse(name) {
        Some(p) => Ok(Some(p)),
        None => {
            let mut m: String = "unknown platform `".to_owned();
            m.append(name);
            m.append("`");
            Err(ApiError::BadRequest(m))
        },
    }
}

/// Which inbox items a list shows.
#[derive(Debug, PartialEq, Eq)]
pub struct InboxFilter {
    pub account_id: Option<String>,
    pub kind: Option<InboxKind>,
    pub unread_only: bool,
    pub unreplied_only: bool,
}

/// The kind that a name means, if it means one.
pub open spec fn kind_named(name: Option<Seq<char>>) -> Option<InboxKind> {
    match name {
        Some(s) => if InboxKind::named(s).name() == s {
            Some(InboxKind::named(s))
        } else {
            None
        },
        None => None,
    }
}

/// A filter from a query: a blank account and an unknown kind filter nothing.
pub fn inbox_filter(
    account_id: Option<String>,
    kind: Option<&str>,
    unread: Option<bool>,
    unreplied: Option<bool>,
) -> (r: InboxFilter)
    ensures
        text::opt_text(r.account_id) == (match text::opt_text(account_id) {
            Some(a) => if text::blank(a) {
                None
            } else {
                Some(a)
            },
            None => None,
        }),
        r.kind == kind_named(
            match kind {
                Some(k) => Some(k@),
                None => None,
            },
        ),
        r.unread_only == (unread == Some(true)),
        r.unreplied_only == (unreplied == Some(true)),
{
    let account_id = match account_id {
        Some(a) => if is_blank(a.as_str()) {
            None
        } else {
            Some(a)
        },
        None => None,
    };
    let kind = match kind {
        Some(k) => {
            let found = InboxKind::from_db(k);
            if text_eq(found.as_str(), k) {
                Some(found)
            } else {
                None
            }
        },
        None => None,
    };
    InboxFilter {
        account_id,
        kind,
        unread_only: match unread {
            Some(b) => b,
            None => false,
        },
        unreplied_only: match unreplied {
            Some(b) => b,
            None => false,
        },
    }
}

impl InboxFilter {
    pub open spec fn shows(self, item: InboxItem) -> bool {
        &&& match self.account_id {
            Some(a) => item.social_account_id@ == a@,
            None => true,
        }
        &&& match self.kind {
            Some(k) => item.kind == k,
            None => true,
        }
        &&& self.unread_only ==> !item.read
        &&& self.unreplied_only ==> !item.replied
    }

    /// Whether an item is on the list.
    pub fn admits(&self, item: &InboxItem) -> (r: bool)
        ensures
            r == self.shows(*item),
    {
        let account = match &self.account_id {
            Some(a) => text_eq(item.social_account_id.as_str(), a.as_str()),
            None => true,
        };
        let kind = match self.kind {
            Some(k) => item.kind == k,
            None => true,
        };
        account && kind && !(self.unread_only && item.read) && !(self.unreplied_only
            && item.replied)
    }
}

// ── Templates and media ────────────────────────────────────────────────────────

/// The body of a draft started from a template: its text, as the one segment.
pub open spec fn template_draft(text: Seq<char>) -> DraftBodyView {
    DraftBodyView {
        segments: seq![SegmentView { text, media: Seq::empty() }],
        ..draft::empty_body()
    }
}

/// A draft started from a template, which stays as it is.
pub fn use_template(template: &Template) -> (r: DraftBody)
    ensures
        r@ == template_draft(template.body.text@),
        r@.normal().text == template.body.text@,
{
    let mut segments: Vec<PostSegment> = Vec::new();
    segments.push(PostSegment { text: template.body.text.clone(), media: Vec::new() });
    let mut body = DraftBody::empty();
    body.segments = segments;
    proof {
        assert(draft::media_views(segments@[0].media@) =~= Seq::empty());
        assert(draft::segment_views(body.segments@) =~= template_draft(
            template.body.text@,
        ).segments);
    }
    body
}

/// A file for the media library.
#[derive(Debug, PartialEq, Eq)]
pub struct NewMedia {
    pub path: String,
    pub name: String,
    pub mime_type: Option<String>,
}

/// What follows the last slash of either kind; the whole text without one.
pub open spec fn file_name(path: Seq<char>) -> Seq<char>
    decreases path.len(),
{
    if path.len() == 0 || path.last() == '/' || path.last() == '\\' {
        Seq::empty()
    } else {
        file_name(path.drop_last()).push(path.last())
    }
}

/// The text, unless it is blank.
pub open spec fn spoken(t: Option<Seq<char>>) -> Option<Seq<char>> {
    match t {
        Some(s) => if text::blank(s) {
            None
        } else {
            Some(s)
        },
        None => None,
    }
}

pub open spec fn media_name(name: Option<Seq<char>>, path: Seq<char>) -> Seq<char> {
    match spoken(name) {
        Some(n) => n,
        None => file_name(path),
    }
}

pub open spec fn media_type(mime: Option<Seq<char>>, name: Seq<char>) -> Option<Seq<char>> {
    match spoken(mime) {
        Some(m) => Some(m),
        None => if platform::mime_of_name(name).len() > 0 {
            Some(platform::mime_of_name(name))
        } else {
            None
        },
    }
}

fn name_in_path(path: &str) -> (r: &str)
    ensures
        r@ == file_name(path@),
{
    let v = text::chars_of(path);
    let n = v.len();
    let mut i: usize = n;
    while i > 0 && v[i - 1] != '/' && v[i - 1] != '\\'
        invariant
            i <= n,
            n == v.len(),
            v@ == path@,
            forall|j: int| i <= j < n ==> path@[j] != '/' && path@[j] != '\\',
        decreases i,
    {
        i = i - 1;
    }
    proof {
        lemma_file_name(path@, i as int);
    }
    path.substring_char(i, n)
}

proof fn lemma_file_name(path: Seq<char>, i: int)
    requires
        0 <= i <= path.len(),
        i > 0 ==> path[i - 1] == '/' || path[i - 1] == '\\',
        forall|j: int| i <= j < path.len() ==> path[j] != '/' && path[j] != '\\',
    ensures
        file_name(path) == path.subrange(i, path.len() as int),
    decreases path.len(),
{
    if i < path.len() {
        lemma_file_name(path.drop_last(), i);
        assert(path.drop_last().subrange(i, path.len() - 1).push(path.last()) =~= path.subrange(
            i,
            path.len() as int,
        ));
    } else {
        assert(path.subrange(i, path.len() as int) =~= Seq::empty());
    }
}

/// What is added to the media library: the name is the file's where none is given, and
/// the type is read off the name where none is.
pub fn new_media(path: String, name: Option<String>, mime_type: Option<String>) -> (r: ApiResult<
    NewMedia,
>)
    ensures
        if text::blank(path@) {
            r is Err && r->Err_0@ == ErrorView::BadRequest("media needs a path"@)
        } else {
            &&& r is Ok
            &&& r->Ok_0.path@ == path@
            &&& r->Ok_0.name@ == media_name(text::opt_text(name), path@)
            &&& text::opt_text(r->Ok_0.mime_type) == media_type(
                text::opt_text(mime_type),
                r->Ok_0.name@,
            )
        },
{
    if is_blank(path.as_str()) {
        return Err(ApiError::bad_request("media needs a path"));
    }
    let name = match spoken_text(name) {
        Some(n) => n,
        None => name_in_path(path.as_str()).to_owned(),
    };
    let mime_type = match spoken_text(mime_type) {
        Some(m) => Some(m),
        None => {
            let inferred = mime_for_extension(name.as_str());
            if text::char_count(inferred) > 0 {
                Some(inferred.to_owned())
            } else {
                None
            }
        },
    };
    Ok(NewMedia { path, name, mime_type })
}

fn spoken_text(t: Option<String>) -> (r: Option<String>)
    ensures
        text::opt_text(r) == spoken(text::opt_text(t)),
{
    match t {
        Some(s) => if is_blank(s.as_str()) {
            None
        } else {
            Some(s)
        },
        None => None,
    }
}

// ── Settings ───────────────────────────────────────────────────────────────────

/// A change to a workspace's settings; what is absent stays.
#[derive(Debug, PartialEq, Eq)]
pub struct SettingsPatch {
    pub scheduler_enabled: Option<bool>,
    pub poll_interval_secs: Option<u64>,
    pub max_attempts: Option<u32>,
    pub base_backoff_ms: Option<u64>,
    pub claim_lease_secs: Option<u64>,
    pub timezone: Option<String>,
    pub enforce_platform_limits: Option<bool>,
}

pub open spec fn at_least(n: u64, floor: u64) -> u64 {
    if n < floor {
        floor
    } else {
        n
    }
}

pub open spec fn between(n: u64, low: u64, high: u64) -> u64 {
    if n < low {
        low
    } else if n > high {
        high
    } else {
        n
    }
}

/// The settings after a change. Values out of bounds are moved to the nearest bound,
/// and a blank zone changes nothing.
pub open spec fn settings_after(s: SocialSettings, p: SettingsPatch, r: SocialSettings) -> bool {
    &&& r.scheduler_enabled == match p.scheduler_enabled {
        Some(v) => v,
        None => s.scheduler_enabled,
    }
    &&& r.poll_interval_secs == match p.poll_interval_secs {
        Some(v) => at_least(v, 10),
        None => s.poll_interval_secs,
    }
    &&& r.max_attempts == match p.max_attempts {
        Some(v) => between(v as u64, 1, 10) as u32,
        None => s.max_attempts,
    }
    &&& r.base_backoff_ms == match p.base_backoff_ms {
        Some(v) => between(v, 100, 60_000),
        None => s.base_backoff_ms,
    }
    &&& r.claim_lease_secs == match p.claim_lease_secs {
        Some(v) => at_least(v, 60),
        None => s.claim_lease_secs,
    }
    &&& r.timezone@ == match spoken(text::opt_text(p.timezone)) {
        Some(z) => z,
        None => s.timezone@,
    }
    &&& r.enforce_platform_limits == match p.enforce_platform_limits {
        Some(v) => v,
        None => s.enforce_platform_limits,
    }
}

fn floored(given: Option<u64>, floor: u64, kept: u64) -> (r: u64)
    ensures
        r == (match given {
            Some(v) => at_least(v, floor),
            None => kept,
        }),
{
    match given {
        Some(v) => if v < floor {
            floor
        } else {
            v
        },
        None => kept,
    }
}

fn clamped(given: Option<u64>, low: u64, high: u64, kept: u64) -> (r: u64)
    ensures
        r == (match given {
            Some(v) => between(v, low, high),
            None => kept,
        }),
{
    match given {
        Some(v) => if v < low {
            low
        } else if v > high {
            high
        } else {
            v
        },
        None => kept,
    }
}

fn switched(given: Option<bool>, kept: bool) -> (r: bool)
    ensures
        r == (match given {
            Some(v) => v,
            None => kept,
        }),
{
    match given {
        Some(v) => v,
        None => kept,
    }
}

pub fn patch_settings(settings: SocialSettings, patch: SettingsPatch) -> (r: SocialSettings)
    ensures
        settings_after(settings, patch, r),
{
    let attempts = match patch.max_attempts {
        Some(v) => Some(v as u64),
        None => None,
    };
    SocialSettings {
        scheduler_enabled: switched(patch.scheduler_enabled, settings.scheduler_enabled),
        poll_interval_secs: floored(patch.poll_interval_secs, 10, settings.poll_interval_secs),
        max_attempts: clamped(attempts, 1, 10, settings.max_attempts as u64) as u32,
        base_backoff_ms: clamped(patch.base_backoff_ms, 100, 60_000, settings.base_backoff_ms),
        claim_lease_secs: floored(patch.claim_lease_secs, 60, settings.claim_lease_secs),
        timezone: match spoken_text(patch.timezone) {
            Some(z) => z,
            None => settings.timezone,
        },
        enforce_platform_limits: switched(
            patch.enforce_platform_limits,
            settings.enforce_platform_limits,
        ),
    }
}

/// A change that says nothing changes nothing.
pub proof fn an_empty_change_keeps_the_settings(s: SocialSettings, r: SocialSettings)
    requires
        settings_after(
            s,
            SettingsPatch {
                scheduler_enabled: None,
                poll_interval_secs: None,
                max_attempts: None,
                base_backoff_ms: None,
                claim_lease_secs: None,
                timezone: None,
                enforce_platform_limits: None,
            },
            r,
        ),
    ensures
        r.scheduler_enabled == s.scheduler_enabled,
        r.poll_interval_secs == s.poll_interval_secs,
        r.max_attempts == s.max_attempts,
        r.base_backoff_ms == s.base_backoff_ms,
        r.claim_lease_secs == s.claim_lease_secs,
        r.timezone@ == s.timezone@,
        r.enforce_platform_limits == s.enforce_platform_limits,
{
}

// ── Platforms ──────────────────────────────────────────────────────────────────

/// What a composer needs to know of a platform.
#[derive(Debug, Clone, PartialEq, Eq)]
pub struct PlatformInfo {
    pub platform: Platform,
    pub label: String,
    pub limits: PlatformLimits,
    pub capabilities: PlatformCapabilities,
}

pub fn platform_info(platform: Platform, capabilities: PlatformCapabilities) -> (r: PlatformInfo)
    ensures
        r.platform == platform,
        r.label@ == platform.label_text(),
        r.limits@ == platform::limits_view(platform),
        r.capabilities == capabilities,
{
    PlatformInfo {
        platform,
        label: platform.label().to_owned(),
        limits: limits_for(platform),
        capabilities,
    }
}

// ── Laws ───────────────────────────────────────────────────────────────────────

/// A request is for the workspace it names, and for the default one where it names none
/// or a blank one.
pub proof fn a_request_is_for_the_named_workspace(w: Seq<char>)
    ensures
        !text::blank(w) ==> workspace_named(Some(w)) == w,
        text::blank(w) ==> workspace_named(Some(w)) == DEFAULT_WORKSPACE_ID@,
        workspace_named(None) == DEFAULT_WORKSPACE_ID@,
{
}

/// A list holds as many rows as asked for, from one to five hundred, and two hundred
/// where nothing is asked for.
pub proof fn a_list_is_as_long_as_asked_for(n: usize)
    ensures
        1 <= n <= 500 ==> limit_named(Some(n)) == n,
        n == 0 ==> limit_named(Some(n)) == 1,
        n > 500 ==> limit_named(Some(n)) == 500,
        limit_named(None) == 200,
{
}

/// The name of a status, with white space round it or not, stands for that status, and
/// any other text for none.
pub proof fn a_filter_name_means_its_status(part: Seq<char>, status: PostStatus)
    ensures
        text::trim_of(part) == status.name() ==> statuses_named(seq![part]) == seq![status],
        (forall|s: PostStatus| #[trigger] s.name() != text::trim_of(part)) ==> statuses_named(
            seq![part],
        ).len() == 0,
{
    assert(seq![part].drop_last() =~= Seq::<Seq<char>>::empty());
    assert(statuses_named(Seq::<Seq<char>>::empty()) =~= Seq::<PostStatus>::empty());
    crate::status::post_status_round_trip(status);
    if text::trim_of(part) == status.name() {
        assert(statuses_named(seq![part]) =~= seq![status]);
    }
}

/// The names of a filter are read one after the other.
pub proof fn filter_names_are_read_in_order(a: Seq<Seq<char>>, b: Seq<Seq<char>>)
    ensures
        statuses_named(a + b) == statuses_named(a) + statuses_named(b),
    decreases b.len(),
{
    if b.len() == 0 {
        assert(a + b =~= a);
        assert(statuses_named(a) + statuses_named(b) =~= statuses_named(a));
    } else {
        assert((a + b).drop_last() =~= a + b.drop_last());
        filter_names_are_read_in_order(a, b.drop_last());
        assert(statuses_named(a + b) =~= statuses_named(a) + statuses_named(b));
    }
}

/// The name of a kind stands for that kind, and any other text, like none, for no kind.
pub proof fn a_kind_is_meant_by_its_name(name: Seq<char>, kind: InboxKind)
    ensures
        kind_named(Some(kind.name())) == Some(kind),
        (forall|k: InboxKind| #[trigger] k.name() != name) ==> kind_named(Some(name)) is None,
        kind_named(None) is None,
{
    crate::status::inbox_kind_round_trip(kind);
}

/// A filter hides an item exactly when it is for another account or of another kind, or
/// read where unread ones are wanted, or replied to where unreplied ones are.
pub proof fn a_filter_hides_what_is_not_wanted(f: InboxFilter, item: InboxItem)
    ensures
        !f.shows(item) <==> (f.account_id is Some && f.account_id->0@ != item.social_account_id@)
            || (f.kind is Some && f.kind->0 != item.kind) || (f.unread_only && item.read) || (
        f.unreplied_only && item.replied),
{
}

/// A draft from a template has one segment, which says what the template says, and
/// nothing attached.
pub proof fn a_template_starts_one_segment(t: Seq<char>)
    ensures
        template_draft(t).segments.len() == 1,
        template_draft(t).segments[0].text == t,
        template_draft(t).segments[0].media.len() == 0,
        template_draft(t).normal().text == t,
        template_draft(t).normal().media.len() == 0,
{
}

/// The name of a file is the end of its path, behind the last slash of either kind.
pub proof fn a_file_is_named_by_the_end_of_its_path(path: Seq<char>)
    ensures
        ({
            let name = file_name(path);
            let at = path.len() - name.len();
            &&& 0 <= at
            &&& name == path.skip(at)
            &&& !name.contains('/') && !name.contains('\\')
            &&& at > 0 ==> path[at - 1] == '/' || path[at - 1] == '\\'
        }),
    decreases path.len(),
{
    if path.len() == 0 || path.last() == '/' || path.last() == '\\' {
        assert(path.skip(path.len() as int) =~= Seq::<char>::empty());
    } else {
        let init = path.drop_last();
        a_file_is_named_by_the_end_of_its_path(init);
        let before = file_name(init);
        let name = file_name(path);
        let at = path.len() - name.len();
        assert(name =~= path.skip(at)) by {
            assert(before == init.skip(at));
            assert forall|i: int| 0 <= i < before.len() implies #[trigger] before[i] == path[at
                + i] by {
                assert(before[i] == init.skip(at)[i]);
            }
        }
        assert forall|i: int| 0 <= i < name.len() implies name[i] != '/' && name[i] != '\\' by {
            if i < before.len() {
                assert(name[i] == before[i]);
                assert(before.contains(before[i]));
            }
        }
    }
}

/// A given name and type are kept where they are not blank; otherwise the file is named
/// by its path, and its type is what the name's ending tells, if it tells one.
pub proof fn media_are_named_and_typed_as_given(given: Seq<char>, path: Seq<char>, name: Seq<char>)
    ensures
        !text::blank(given) ==> media_name(Some(given), path) == given && media_type(
            Some(given),
            name,
        ) == Some(given),
        text::blank(given) ==> media_name(Some(given), path) == file_name(path),
        media_name(None, path) == file_name(path),
        platform::mime_of_name(name).len() > 0 ==> media_type(None, name) == Some(
            platform::mime_of_name(name),
        ),
        platform::mime_of_name(name).len() == 0 ==> media_type(None, name) is None,
        text::blank(given) ==> media_type(Some(given), name) == media_type(None, name),
{
}

/// A number given for a setting is taken where it is allowed, and the bound next to it
/// where it is not; a poll interval is ten seconds or more, attempts are one to ten, a
/// pause is a tenth of a second to a minute, and a lease is a minute or more.
pub proof fn settings_stay_within_bounds(s: SocialSettings, p: SettingsPatch, r: SocialSettings)
    requires
        settings_after(s, p, r),
    ensures
        p.poll_interval_secs matches Some(v) ==> r.poll_interval_secs >= 10 && (v >= 10
            ==> r.poll_interval_secs == v) && (v < 10 ==> r.poll_interval_secs == 10),
        p.max_attempts matches Some(v) ==> 1 <= r.max_attempts <= 10 && (1 <= v <= 10
            ==> r.max_attempts == v) && (v < 1 ==> r.max_attempts == 1) && (v > 10
            ==> r.max_attempts == 10),
        p.base_backoff_ms matches Some(v) ==> 100 <= r.base_backoff_ms <= 60_000 && (100 <= v
            <= 60_000 ==> r.base_backoff_ms == v) && (v < 100 ==> r.base_backoff_ms == 100) && (v
            > 60_000 ==> r.base_backoff_ms == 60_000),
        p.claim_lease_secs matches Some(v) ==> r.claim_lease_secs >= 60 && (v >= 60
            ==> r.claim_lease_secs == v) && (v < 60 ==> r.claim_lease_secs == 60),
{
}

/// Switches are set as given, a zone too unless it is blank, and what is not given stays,
/// each for itself.
pub proof fn settings_change_as_given(s: SocialSettings, p: SettingsPatch, r: SocialSettings)
    requires
        settings_after(s, p, r),
    ensures
        p.scheduler_enabled matches Some(v) ==> r.scheduler_enabled == v,
        p.enforce_platform_limits matches Some(v) ==> r.enforce_platform_limits == v,
        p.timezone is Some && !text::blank(p.timezone->0@) ==> r.timezone@ == p.timezone->0@,
        p.timezone is Some && text::blank(p.timezone->0@) ==> r.timezone@ == s.timezone@,
        p.scheduler_enabled is None ==> r.scheduler_enabled == s.scheduler_enabled,
        p.poll_interval_secs is None ==> r.poll_interval_secs == s.poll_interval_secs,
        p.max_attempts is None ==> r.max_attempts == s.max_attempts,
        p.base_backoff_ms is None ==> r.base_backoff_ms == s.base_backoff_ms,
        p.claim_lease_secs is None ==> r.claim_lease_secs == s.claim_lease_secs,
        p.timezone is None ==> r.timezone@ == s.timezone@,
        p.enforce_platform_limits is None ==> r.enforce_platform_limits
            == s.enforce_platform_limits,
{
}

} // verus!
