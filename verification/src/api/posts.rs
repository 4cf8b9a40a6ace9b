//! Scheduling posts: what a new post is made of, when it can still be moved, and how it
//! fits the platforms it is for.
use vstd::prelude::*;
use crate::api;
use crate::api::workspace_or_default;
use crate::draft;
use crate::draft::{validate_segments_for_platform, DraftBody, DraftBodyView, PostSegment};
use crate::error::{ApiError, ApiResult, ErrorView};
use crate::ids;
use crate::ids::{new_id, ID_POST, ID_TARGET};
use crate::lists;
use crate::lists::dedup_strings;
use crate::platform;
use crate::platform::{label_for_str, limits_for_str, Platform, PlatformLimits};
use crate::records::{Draft, PostTarget, ScheduledPost, SocialAccount, SocialSettings};
use crate::status::{PostStatus, TargetStatus};
use crate::text;
use crate::text::{char_count, text_eq};

verus! {

// ── A new post ─────────────────────────────────────────────────────────────────

/// A request for a post: an existing draft or a body of its own, and the accounts it
/// goes to.
#[derive(Debug, PartialEq, Eq)]
pub struct CreatePost {
    pub workspace_id: Option<String>,
    /// Takes the place of a body.
    pub draft_id: Option<String>,
    pub body: Option<DraftBody>,
    /// Absent means now.
    pub scheduled_for: Option<i64>,
    pub account_ids: Vec<String>,
    /// Bodies for single accounts, by account id.
    pub variants: Vec<(String, DraftBody)>,
}

/// One leg of a post that is to be stored.
#[derive(Debug, PartialEq, Eq)]
pub struct NewTarget {
    pub social_account_id: String,
    pub platform: Platform,
    pub variant_body: Option<DraftBody>,
}

#[verifier::ext_equal]
pub struct TargetView {
    pub account: Seq<char>,
    pub platform: Platform,
    pub variant: Option<DraftBodyView>,
}

impl View for NewTarget {
    type V = TargetView;

    open spec fn view(&self) -> TargetView {
        TargetView {
            account: self.social_account_id@,
            platform: self.platform,
            variant: match self.variant_body {
                Some(b) => Some(b@),
                None => None,
            },
        }
    }
}

pub open spec fn target_views(s: Seq<NewTarget>) -> Seq<TargetView> {
    s.map_values(|t: NewTarget| t@)
}

/// Where a post's content comes from.
#[derive(Debug, PartialEq, Eq)]
pub enum PostContent {
    /// A stored draft.
    Stored(String),
    /// The request's body, which is stored as a draft first.
    Inline,
}

pub enum ContentView {
    Stored(Seq<char>),
    Inline,
}

impl View for PostContent {
    type V = ContentView;

    open spec fn view(&self) -> ContentView {
        match self {
            PostContent::Stored(id) => ContentView::Stored(id@),
            PostContent::Inline => ContentView::Inline,
        }
    }
}

/// A post that is to be stored.
#[derive(Debug, PartialEq, Eq)]
pub struct PlannedPost {
    pub workspace_id: String,
    pub content: PostContent,
    pub scheduled_for: i64,
    pub targets: Vec<NewTarget>,
}

/// The accounts a request names, each once, in the order of first mention. Naming one
/// twice is one leg, not two: it would be sent twice.
pub fn wanted_accounts(request: &CreatePost) -> (r: ApiResult<Vec<String>>)
    ensures
        if request.account_ids@.len() == 0 {
            r is Err && r->Err_0@ == ErrorView::BadRequest(
                "a scheduled post needs at least one account"@,
            )
        } else {
            r is Ok && text::texts(r->Ok_0@) == lists::deduped(text::texts(request.account_ids@))
        },
{
    if request.account_ids.len() == 0 {
        return Err(ApiError::bad_request("a scheduled post needs at least one account"));
    }
    Ok(dedup_strings(&request.account_ids))
}

/// The body for an account, where the request has one; of several, the last.
pub open spec fn variant_for(variants: Seq<(String, DraftBody)>, id: Seq<char>) -> Option<DraftBodyView>
    decreases variants.len(),
{
    if variants.len() == 0 {
        None
    } else if variants.last().0@ == id {
        Some(variants.last().1@)
    } else {
        variant_for(variants.drop_last(), id)
    }
}

fn find_variant(variants: &Vec<(String, DraftBody)>, id: &str) -> (r: Option<DraftBody>)
    ensures
        (match r {
            Some(b) => Some(b@),
            None => None,
        }) == variant_for(variants@, id@),
{
    let mut n: usize = variants.len();
    assert(variants@.take(n as int) =~= variants@);
    while n > 0
        invariant
            n <= variants.len(),
            variant_for(variants@, id@) == variant_for(variants@.take(n as int), id@),
        decreases n,
    {
        let v = &variants[n - 1];
        assert(variants@.take(n as int).drop_last() =~= variants@.take(n as int - 1));
        if text_eq(v.0.as_str(), id) {
            return Some(v.1.clone());
        }
        n = n - 1;
    }
    None
}

/// Why an account cannot be a leg of a workspace's post, if so.
pub open spec fn account_fault(id: Seq<char>, found: Option<SocialAccount>, workspace: Seq<char>) -> Option<
    ErrorView,
> {
    match found {
        None => Some(ErrorView::BadRequest("unknown account "@ + id)),
        Some(a) => if a.workspace_id@ != workspace {
            Some(
                ErrorView::BadRequest("account "@ + id + " belongs to another workspace"@),
            )
        } else {
            None
        },
    }
}

/// The first account that cannot be a leg.
pub open spec fn first_account_fault(
    ids: Seq<Seq<char>>,
    found: Seq<Option<SocialAccount>>,
    workspace: Seq<char>,
) -> Option<ErrorView>
    decreases ids.len(),
{
    if ids.len() == 0 {
        None
    } else {
        match first_account_fault(ids.drop_last(), found.drop_last(), workspace) {
            Some(e) => Some(e),
            None => account_fault(ids.last(), found.last(), workspace),
        }
    }
}

/// The legs of a post, one for each account.
pub open spec fn legs(
    ids: Seq<Seq<char>>,
    found: Seq<Option<SocialAccount>>,
    variants: Seq<(String, DraftBody)>,
) -> Seq<TargetView> {
    Seq::new(
        ids.len(),
        |i: int|
            TargetView {
                account: found[i]->0.id@,
                platform: found[i]->0.platform,
                variant: variant_for(variants, ids[i]),
            },
    )
}

/// Why a request's content cannot be used, if so. A named draft goes before a body.
pub open spec fn content_fault(
    draft_id: Option<Seq<char>>,
    has_body: bool,
    draft: Option<Seq<char>>,
    workspace: Seq<char>,
) -> Option<ErrorView> {
    match draft_id {
        Some(id) => match draft {
            None => Some(ErrorView::BadRequest("unknown draft "@ + id)),
            Some(of) => if of != workspace {
                Some(ErrorView::BadRequest("draft belongs to another workspace"@))
            } else {
                None
            },
        },
        None => if has_body {
            None
        } else {
            Some(
                ErrorView::BadRequest(
                    "a scheduled post needs either a draft_id or an inline body"@,
                ),
            )
        },
    }
}

/// Why a request is refused, if so: the first account at fault, else the content.
pub open spec fn post_fault(
    request: CreatePost,
    ids: Seq<Seq<char>>,
    found: Seq<Option<SocialAccount>>,
    draft: Option<&Draft>,
) -> Option<ErrorView> {
    let workspace = api::workspace_named(text::opt_text(request.workspace_id));
    match first_account_fault(ids, found, workspace) {
        Some(e) => Some(e),
        None => content_fault(
            text::opt_text(request.draft_id),
            request.body is Some,
            match draft {
                Some(d) => Some(d.workspace_id@),
                None => None,
            },
            workspace,
        ),
    }
}

proof fn lemma_fault_stands(
    ids: Seq<Seq<char>>,
    found: Seq<Option<SocialAccount>>,
    workspace: Seq<char>,
    i: int,
)
    requires
        ids.len() == found.len(),
        0 <= i <= ids.len(),
        first_account_fault(ids.take(i), found.take(i), workspace) is Some,
    ensures
        first_account_fault(ids, found, workspace) == first_account_fault(
            ids.take(i),
            found.take(i),
            workspace,
        ),
    decreases ids.len(),
{
    if i == ids.len() {
        assert(ids.take(i) =~= ids);
        assert(found.take(i) =~= found);
    } else {
        assert(ids.drop_last().take(i) =~= ids.take(i));
        assert(found.drop_last().take(i) =~= found.take(i));
        lemma_fault_stands(ids.drop_last(), found.drop_last(), workspace, i);
    }
}

fn plan_targets(
    workspace: &str,
    ids: &Vec<String>,
    found: &Vec<Option<SocialAccount>>,
    variants: &Vec<(String, DraftBody)>,
) -> (r: ApiResult<Vec<NewTarget>>)
    requires
        ids@.len() == found@.len(),
    ensures
        match first_account_fault(text::texts(ids@), found@, workspace@) {
            Some(e) => r is Err && r->Err_0@ == e,
            None => r is Ok && target_views(r->Ok_0@) == legs(
                text::texts(ids@),
                found@,
                variants@,
            ),
        },
{
    let ghost names = text::texts(ids@);
    let ghost want = legs(names, found@, variants@);
    let mut targets: Vec<NewTarget> = Vec::new();
    let mut i: usize = 0;
    assert(target_views(targets@) =~= want.take(0));
    while i < ids.len()
        invariant
            i <= ids.len(),
            ids@.len() == found@.len(),
            names == text::texts(ids@),
            want == legs(names, found@, variants@),
            first_account_fault(names.take(i as int), found@.take(i as int), workspace@) is None,
            target_views(targets@) == want.take(i as int),
        decreases ids.len() - i,
    {
        let id = ids[i].as_str();
        proof {
            assert(names.take(i as int + 1).drop_last() =~= names.take(i as int));
            assert(found@.take(i as int + 1).drop_last() =~= found@.take(i as int));
            assert(names.take(i as int + 1).last() == ids@[i as int]@);
            assert(found@.take(i as int + 1).last() == found@[i as int]);
            if account_fault(ids@[i as int]@, found@[i as int], workspace@) is Some {
                lemma_fault_stands(names, found@, workspace@, i as int + 1);
            }
        }
        let account = match &found[i] {
            Some(a) => a,
            None => {
                let mut m: String = "unknown account ".to_owned();
                m.append(id);
                return Err(ApiError::BadRequest(m));
            },
        };
        if !text_eq(account.workspace_id.as_str(), workspace) {
            let mut m: String = "account ".to_owned();
            m.append(id);
            m.append(" belongs to another workspace");
            return Err(ApiError::BadRequest(m));
        }
        let target = NewTarget {
            social_account_id: account.id.clone(),
            platform: account.platform,
            variant_body: find_variant(variants, id),
        };
        let ghost before = target_views(targets@);
        let ghost shown = target@;
        targets.push(target);
        proof {
            assert(target_views(targets@) =~= before.push(shown));
            assert(shown == want[i as int]);
            assert(want.take(i as int + 1) =~= want.take(i as int).push(shown));
        }
        i = i + 1;
    }
    proof {
        assert(names.take(names.len() as int) =~= names);
        assert(found@.take(names.len() as int) =~= found@);
        assert(want.take(want.len() as int) =~= want);
    }
    Ok(targets)
}

/// The post that a request makes, once the accounts it wants and the draft it names
/// have been looked up: each account stands at its place among those wanted. Nothing
/// is stored of a request that is refused.
pub fn plan_post(
    request: &CreatePost,
    wanted: &Vec<String>,
    found: &Vec<Option<SocialAccount>>,
    draft: Option<&Draft>,
    now: i64,
) -> (r: ApiResult<PlannedPost>)
    requires
        wanted@.len() == found@.len(),
    ensures
        match post_fault(*request, text::texts(wanted@), found@, draft) {
            Some(e) => r is Err && r->Err_0@ == e,
            None => {
                &&& r is Ok
                &&& r->Ok_0.workspace_id@ == api::workspace_named(
                    text::opt_text(request.workspace_id),
                )
                &&& target_views(r->Ok_0.targets@) == legs(
                    text::texts(wanted@),
                    found@,
                    request.variants@,
                )
                &&& r->Ok_0.content@ == (match request.draft_id {
                    Some(_) => ContentView::Stored(draft->0.id@),
                    None => ContentView::Inline,
                })
                &&& r->Ok_0.scheduled_for == (match request.scheduled_for {
                    Some(at) => at,
                    None => now,
                })
            },
        },
{
    let workspace = workspace_or_default(&request.workspace_id);
    let targets = match plan_targets(workspace, wanted, found, &request.variants) {
        Ok(t) => t,
        Err(e) => {
            return Err(e);
        },
    };
    let content = match &request.draft_id {
        Some(id) => match draft {
            None => {
                let mut m: String = "unknown draft ".to_owned();
                m.append(id.as_str());
                return Err(ApiError::BadRequest(m));
            },
            Some(d) => {
                if !text_eq(d.workspace_id.as_str(), workspace) {
                    return Err(ApiError::bad_request("draft belongs to another workspace"));
                }
                PostContent::Stored(d.id.clone())
            },
        },
        None => {
            if request.body.is_none() {
                return Err(
                    ApiError::bad_request(
                        "a scheduled post needs either a draft_id or an inline body",
                    ),
                );
            }
            PostContent::Inline
        },
    };
    Ok(
        PlannedPost {
            workspace_id: workspace.to_owned(),
            content,
            scheduled_for: match request.scheduled_for {
                Some(at) => at,
                None => now,
            },
            targets,
        },
    )
}

/// A leg that waits for its first attempt.
pub open spec fn fresh_leg(leg: PostTarget, post: Seq<char>, of: NewTarget) -> bool {
    &&& ids::made_id(leg.id@, ID_TARGET@)
    &&& leg.scheduled_post_id@ == post
    &&& leg.social_account_id == of.social_account_id
    &&& leg.platform == of.platform
    &&& leg.variant_body == of.variant_body
    &&& leg.status == TargetStatus::Pending
    &&& leg.attempts == 0
    &&& leg.next_attempt_at is None
    &&& leg.claimed_at is None
}

/// The post as it is stored: scheduled, with every leg waiting.
pub fn scheduled_post(plan: PlannedPost, draft_id: Option<String>, now: i64) -> (r: ScheduledPost)
    ensures
        ids::made_id(r.id@, ID_POST@),
        r.workspace_id == plan.workspace_id,
        r.draft_id == draft_id,
        r.scheduled_for == plan.scheduled_for,
        r.status == PostStatus::Scheduled,
        r.created_at == now,
        r.targets@.len() == plan.targets@.len(),
        forall|i: int|
            0 <= i < r.targets@.len() ==> fresh_leg(
                #[trigger] r.targets@[i],
                r.id@,
                plan.targets@[i],
            ),
{
    let id: String = new_id(ID_POST);
    let ghost all = plan.targets@;
    let mut rest: Vec<NewTarget> = plan.targets;
    let mut targets: Vec<PostTarget> = Vec::new();
    assert(all.skip(0) =~= all);
    while rest.len() > 0
        invariant
            targets@.len() <= all.len(),
            rest@ == all.skip(targets@.len() as int),
            forall|i: int|
                0 <= i < targets@.len() ==> fresh_leg(#[trigger] targets@[i], id@, all[i]),
        decreases rest.len(),
    {
        let ghost n = targets@.len() as int;
        let t = rest.remove(0);
        assert(t == all[n]);
        assert(rest@ =~= all.skip(n + 1));
        targets.push(
            PostTarget {
                id: new_id(ID_TARGET),
                scheduled_post_id: id.clone(),
                social_account_id: t.social_account_id,
                platform: t.platform,
                variant_body: t.variant_body,
                status: TargetStatus::Pending,
                attempts: 0,
                next_attempt_at: None,
                claimed_at: None,
            },
        );
    }
    ScheduledPost {
        id,
        workspace_id: plan.workspace_id,
        draft_id,
        scheduled_for: plan.scheduled_for,
        status: PostStatus::Scheduled,
        created_at: now,
        targets,
    }
}

/// A post has one leg for each account that its request names, however often it names
/// it, in the order of first mention, and each leg is of the post's workspace.
pub proof fn no_account_is_a_leg_twice(
    request: CreatePost,
    found: Seq<Option<SocialAccount>>,
    draft: Option<&Draft>,
)
    requires
        ({
            let ids = lists::deduped(text::texts(request.account_ids@));
            &&& found.len() == ids.len()
            &&& forall|i: int|
                0 <= i < ids.len() ==> (#[trigger] found[i] is Some ==> found[i]->0.id@ == ids[i])
            &&& post_fault(request, ids, found, draft) is None
        }),
    ensures
        ({
            let ids = lists::deduped(text::texts(request.account_ids@));
            let l = legs(ids, found, request.variants@);
            &&& l.map_values(|t: TargetView| t.account) == ids
            &&& ids.no_duplicates()
            &&& forall|i: int|
                0 <= i < found.len() ==> (#[trigger] found[i]) is Some
                    && found[i]->0.workspace_id@ == api::workspace_named(
                    text::opt_text(request.workspace_id),
                )
        }),
{
    let ids = lists::deduped(text::texts(request.account_ids@));
    let workspace = api::workspace_named(text::opt_text(request.workspace_id));
    lists::dedup_laws(text::texts(request.account_ids@));
    lemma_no_fault(ids, found, workspace);
    let l = legs(ids, found, request.variants@);
    assert(l.map_values(|t: TargetView| t.account) =~= ids);
}

proof fn lemma_no_fault(
    ids: Seq<Seq<char>>,
    found: Seq<Option<SocialAccount>>,
    workspace: Seq<char>,
)
    requires
        ids.len() == found.len(),
        first_account_fault(ids, found, workspace) is None,
    ensures
        forall|i: int|
            0 <= i < found.len() ==> (#[trigger] found[i]) is Some && found[i]->0.workspace_id@
                == workspace,
    decreases ids.len(),
{
    if ids.len() > 0 {
        lemma_no_fault(ids.drop_last(), found.drop_last(), workspace);
        assert forall|i: int| 0 <= i < found.len() implies (#[trigger] found[i]) is Some
            && found[i]->0.workspace_id@ == workspace by {
            if i < found.len() - 1 {
                assert(found.drop_last()[i] == found[i]);
            }
        }
    }
}

// ── Moving a post ──────────────────────────────────────────────────────────────

/// The answer to a request to move a post, from what was there, whether the store moved
/// it, and the post as it is afterwards.
pub open spec fn moved_answer(
    found: Option<PostStatus>,
    moved: bool,
    after: Option<ScheduledPost>,
    what: Seq<char>,
    r: ApiResult<ScheduledPost>,
) -> bool {
    match r {
        Ok(p) => found is Some && moved && after == Some(p),
        Err(e) => {
            &&& e@ == (match found {
                None => ErrorView::NotFound("post"@),
                Some(s) => if !moved {
                    ErrorView::Conflict("a "@ + s.name() + " post can no longer be "@ + what)
                } else {
                    ErrorView::NotFound("post"@)
                },
            })
            &&& !(found is Some && moved && after is Some)
        },
    }
}

fn answer_move(
    found: Option<PostStatus>,
    moved: bool,
    after: Option<ScheduledPost>,
    what: &str,
) -> (r: ApiResult<ScheduledPost>)
    ensures
        moved_answer(found, moved, after, what@, r),
{
    let status = match found {
        Some(s) => s,
        None => {
            return Err(ApiError::not_found("post"));
        },
    };
    if !moved {
        let mut m: String = "a ".to_owned();
        m.append(status.as_str());
        m.append(" post can no longer be ");
        m.append(what);
        return Err(ApiError::Conflict(m));
    }
    match after {
        Some(p) => Ok(p),
        None => Err(ApiError::not_found("post")),
    }
}

pub fn reschedule(found: Option<PostStatus>, moved: bool, after: Option<ScheduledPost>) -> (r:
    ApiResult<ScheduledPost>)
    ensures
        moved_answer(found, moved, after, "rescheduled"@, r),
{
    answer_move(found, moved, after, "rescheduled")
}

pub fn cancel(found: Option<PostStatus>, moved: bool, after: Option<ScheduledPost>) -> (r:
    ApiResult<ScheduledPost>)
    ensures
        moved_answer(found, moved, after, "cancelled"@, r),
{
    answer_move(found, moved, after, "cancelled")
}

// ── Checking a post ────────────────────────────────────────────────────────────

/// How a post fits one platform.
#[derive(Debug, PartialEq, Eq)]
pub struct ValidationResult {
    pub platform: String,
    pub label: String,
    /// Whether the composer may go on.
    pub ok: bool,
    /// The first limit that is broken, whether or not it blocks.
    pub reason: Option<String>,
    pub limits: PlatformLimits,
    /// Characters of the first segment.
    pub chars: usize,
}

#[derive(Debug, PartialEq, Eq)]
pub struct Validation {
    pub ok: bool,
    pub enforced: bool,
    pub results: Vec<ValidationResult>,
}

/// What is reported of a platform. A broken limit is told in any case; it blocks only
/// where limits are enforced.
pub open spec fn result_shows(
    r: ValidationResult,
    platform: Seq<char>,
    segments: Seq<draft::SegmentView>,
    enforced: bool,
) -> bool {
    let reason = draft::segments_violation(platform::limits_view_named(platform), segments);
    &&& r.platform@ == platform
    &&& r.label@ == platform::label_named(platform)
    &&& text::opt_text(r.reason) == reason
    &&& r.ok == (!enforced || reason is None)
    &&& r.limits@ == platform::limits_view_named(platform)
    &&& r.chars == (if segments.len() > 0 {
        segments[0].text.len()
    } else {
        0
    })
}

/// Whether limits block: as the settings say, and where they could not be read, yes.
pub fn limits_enforced(settings: Option<&SocialSettings>) -> (r: bool)
    ensures
        r == (match settings {
            Some(s) => s.enforce_platform_limits,
            None => true,
        }),
{
    match settings {
        Some(s) => s.enforce_platform_limits,
        None => true,
    }
}

/// How a post fits the platforms it is for.
pub fn validate_post(platforms: &Vec<String>, segments: &Vec<PostSegment>, enforced: bool) -> (r:
    ApiResult<Validation>)
    ensures
        if platforms@.len() == 0 {
            r is Err && r->Err_0@ == ErrorView::BadRequest("no platforms to validate against"@)
        } else {
            &&& r is Ok
            &&& r->Ok_0.enforced == enforced
            &&& r->Ok_0.results@.len() == platforms@.len()
            &&& forall|i: int|
                0 <= i < platforms@.len() ==> result_shows(
                    #[trigger] r->Ok_0.results@[i],
                    platforms@[i]@,
                    draft::segment_views(segments@),
                    enforced,
                )
            &&& r->Ok_0.ok == (forall|i: int|
                0 <= i < platforms@.len() ==> (#[trigger] r->Ok_0.results@[i]).ok)
        },
{
    if platforms.len() == 0 {
        return Err(ApiError::bad_request("no platforms to validate against"));
    }
    let ghost views = draft::segment_views(segments@);
    let chars: usize = if segments.len() > 0 {
        assert(views[0] == segments@[0]@);
        char_count(segments[0].text.as_str())
    } else {
        0
    };
    let mut results: Vec<ValidationResult> = Vec::new();
    let mut ok = true;
    let mut i: usize = 0;
    while i < platforms.len()
        invariant
            i <= platforms.len(),
            views == draft::segment_views(segments@),
            chars == (if views.len() > 0 {
                views[0].text.len()
            } else {
                0
            }),
            results@.len() == i,
            forall|j: int|
                0 <= j < i ==> result_shows(
                    #[trigger] results@[j],
                    platforms@[j]@,
                    views,
                    enforced,
                ),
            ok == (forall|j: int| 0 <= j < i ==> (#[trigger] results@[j]).ok),
        decreases platforms.len() - i,
    {
        let platform = platforms[i].as_str();
        let reason = validate_segments_for_platform(platform, segments.as_slice());
        let fits = !enforced || reason.is_none();
        let ghost before = results@;
        let result = ValidationResult {
            platform: platforms[i].clone(),
            label: label_for_str(platform),
            ok: fits,
            reason,
            limits: limits_for_str(platform),
            chars,
        };
        results.push(result);
        proof {
            assert(result_shows(results@[i as int], platforms@[i as int]@, views, enforced));
            if ok && fits {
                assert forall|j: int| 0 <= j < i + 1 implies (#[trigger] results@[j]).ok by {
                    if j < i {
                        assert(results@[j] == before[j]);
                    }
                }
            } else if !fits {
                assert(!results@[i as int].ok);
            } else {
                let j = choose|j: int| 0 <= j < i && !(#[trigger] before[j]).ok;
                assert(!results@[j].ok);
            }
        }
        ok = ok && fits;
        i = i + 1;
    }
    Ok(Validation { ok, enforced, results })
}

// ── Laws ───────────────────────────────────────────────────────────────────────

/// An account gets the last body that the request holds for it, and none where it holds
/// none.
pub proof fn the_last_variant_counts(variants: Seq<(String, DraftBody)>, id: Seq<char>, k: int)
    ensures
        0 <= k < variants.len() && variants[k].0@ == id && (forall|j: int|
            k < j < variants.len() ==> (#[trigger] variants[j]).0@ != id) ==> variant_for(
            variants,
            id,
        ) == Some(variants[k].1@),
        (forall|j: int| 0 <= j < variants.len() ==> (#[trigger] variants[j]).0@ != id)
            ==> variant_for(variants, id) is None,
    decreases variants.len(),
{
    if variants.len() > 0 {
        let init = variants.drop_last();
        assert(variants.last() == variants[variants.len() - 1]);
        assert forall|j: int| 0 <= j < init.len() implies #[trigger] init[j] == variants[j] by {}
        the_last_variant_counts(init, id, k);
    }
}

/// An account can be a leg exactly when it is known and of the post's workspace.
pub proof fn an_account_serves_its_workspace(
    id: Seq<char>,
    found: Option<SocialAccount>,
    workspace: Seq<char>,
)
    ensures
        account_fault(id, found, workspace) is None <==> found is Some && found->0.workspace_id@
            == workspace,
        found is None ==> account_fault(id, found, workspace) == Some(
            ErrorView::BadRequest("unknown account "@ + id),
        ),
        found is Some && found->0.workspace_id@ != workspace ==> account_fault(
            id,
            found,
            workspace,
        ) == Some(ErrorView::BadRequest("account "@ + id + " belongs to another workspace"@)),
{
}

/// The first account that cannot be a leg is the one complained about; where all can,
/// there is no complaint.
pub proof fn the_first_bad_account_is_told(
    ids: Seq<Seq<char>>,
    found: Seq<Option<SocialAccount>>,
    workspace: Seq<char>,
    i: int,
)
    requires
        ids.len() == found.len(),
        0 <= i <= ids.len(),
        forall|j: int|
            0 <= j < i ==> (#[trigger] found[j]) is Some && found[j]->0.workspace_id@ == workspace,
        i < ids.len() ==> !(found[i] is Some && found[i]->0.workspace_id@ == workspace),
    ensures
        i == ids.len() ==> first_account_fault(ids, found, workspace) is None,
        i < ids.len() ==> first_account_fault(ids, found, workspace) == account_fault(
            ids[i],
            found[i],
            workspace,
        ),
    decreases ids.len(),
{
    if ids.len() > 0 {
        let a = ids.drop_last();
        let b = found.drop_last();
        let n = ids.len() - 1;
        assert forall|j: int| 0 <= j < n implies #[trigger] b[j] == found[j] by {}
        assert(ids.last() == ids[n] && found.last() == found[n]);
        if i < n {
            assert(b[i] == found[i]);
            the_first_bad_account_is_told(a, b, workspace, i);
        } else {
            the_first_bad_account_is_told(a, b, workspace, n);
            if i > n {
                assert(found[n] is Some);
            }
        }
    }
}

/// There is a leg for each account, in their order: of that account, for its platform,
/// and with the body that the request holds for it.
pub proof fn each_account_has_its_leg(
    ids: Seq<Seq<char>>,
    found: Seq<Option<SocialAccount>>,
    variants: Seq<(String, DraftBody)>,
    i: int,
)
    requires
        ids.len() == found.len(),
        0 <= i < ids.len(),
        found[i] is Some,
    ensures
        legs(ids, found, variants).len() == ids.len(),
        legs(ids, found, variants)[i].account == found[i]->0.id@,
        legs(ids, found, variants)[i].platform == found[i]->0.platform,
        legs(ids, found, variants)[i].variant == variant_for(variants, ids[i]),
{
}

/// A named draft has to be there and of the post's workspace, whatever body there is; a
/// request that names none needs a body.
pub proof fn a_post_needs_content(
    draft_id: Option<Seq<char>>,
    has_body: bool,
    draft: Option<Seq<char>>,
    workspace: Seq<char>,
)
    ensures
        draft_id is Some ==> (content_fault(draft_id, has_body, draft, workspace) is None <==> draft
            == Some(workspace)),
        draft_id is None ==> (content_fault(draft_id, has_body, draft, workspace) is None
            <==> has_body),
        content_fault(draft_id, has_body, draft, workspace) matches Some(e) ==> e is BadRequest,
        draft_id is Some && draft is None ==> content_fault(draft_id, has_body, draft, workspace)
            == Some(ErrorView::BadRequest("unknown draft "@ + draft_id->0)),
{
}

/// A request is taken exactly when every account it wants can be a leg and its content
/// can be used; an account at fault is told before the content.
pub proof fn a_request_is_taken_as_a_whole(
    request: CreatePost,
    ids: Seq<Seq<char>>,
    found: Seq<Option<SocialAccount>>,
    draft: Option<&Draft>,
)
    requires
        ids.len() == found.len(),
    ensures
        ({
            let workspace = api::workspace_named(text::opt_text(request.workspace_id));
            let accounts = forall|i: int|
                0 <= i < found.len() ==> (#[trigger] found[i]) is Some && found[i]->0.workspace_id@
                    == workspace;
            let content = match request.draft_id {
                Some(_) => draft is Some && draft->0.workspace_id@ == workspace,
                None => request.body is Some,
            };
            &&& post_fault(request, ids, found, draft) is None <==> accounts && content
            &&& !accounts ==> post_fault(request, ids, found, draft) == first_account_fault(
                ids,
                found,
                workspace,
            )
        }),
{
    let workspace = api::workspace_named(text::opt_text(request.workspace_id));
    if first_account_fault(ids, found, workspace) is None {
        lemma_no_fault(ids, found, workspace);
    } else {
        if forall|i: int|
            0 <= i < found.len() ==> (#[trigger] found[i]) is Some && found[i]->0.workspace_id@
                == workspace {
            the_first_bad_account_is_told(ids, found, workspace, ids.len() as int);
        }
    }
}

/// A post that is there and was moved is answered as it is now. A post that is not there,
/// or not any more, was not found; one that was not moved is in conflict.
pub proof fn a_moved_post_is_answered(
    found: Option<PostStatus>,
    moved: bool,
    after: Option<ScheduledPost>,
    what: Seq<char>,
    r: ApiResult<ScheduledPost>,
)
    requires
        moved_answer(found, moved, after, what, r),
    ensures
        r is Ok <==> found is Some && moved && after is Some,
        r is Ok ==> r->Ok_0 == after->0,
        r is Err ==> (r->Err_0@ is Conflict <==> found is Some && !moved),
        r is Err ==> (r->Err_0@ is NotFound <==> found is None || moved),
        r is Err && found is Some && !moved ==> r->Err_0@ == ErrorView::Conflict(
            "a "@ + found->0.name() + " post can no longer be "@ + what,
        ),
{
}

/// A platform blocks exactly when limits are enforced and a post breaks one; what is
/// broken is told in any case, with the figures and the length of the first segment.
pub proof fn a_broken_limit_blocks_where_enforced(
    r: ValidationResult,
    platform: Seq<char>,
    segments: Seq<draft::SegmentView>,
    enforced: bool,
)
    requires
        result_shows(r, platform, segments, enforced),
    ensures
        !r.ok <==> enforced && r.reason is Some,
        r.reason is Some <==> draft::segments_violation(
            platform::limits_view_named(platform),
            segments,
        ) is Some,
        segments.len() > 0 ==> r.chars == segments[0].text.len(),
        segments.len() == 0 ==> r.chars == 0,
        r.platform@ == platform,
        r.label@ == platform::label_named(platform),
        r.limits@ == platform::limits_view_named(platform),
{
}

/// A new leg has not been tried, claimed or put off.
pub proof fn a_new_leg_waits_for_its_first_attempt(
    leg: PostTarget,
    post: Seq<char>,
    of: NewTarget,
)
    requires
        fresh_leg(leg, post, of),
    ensures
        leg.status == TargetStatus::Pending,
        leg.attempts == 0,
        leg.next_attempt_at is None,
        leg.claimed_at is None,
        leg.scheduled_post_id@ == post,
        leg.social_account_id@ == of@.account,
        leg.platform == of@.platform,
        leg.variant_body is Some <==> of@.variant is Some,
        leg.variant_body is Some ==> leg.variant_body->0@ == of@.variant->0,
{
}

} // verus!
