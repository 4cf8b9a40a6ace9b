use ryu_social::api::calendar::{calendar, preview, CalendarKind, CALENDAR_TITLE_CHARS};
use ryu_social::api::posts::{
    cancel, limits_enforced, plan_post, reschedule, validate_post, wanted_accounts, CreatePost,
    PostContent,
};
use ryu_social::api::{
    deletable_workspace, inbox_filter, new_account, new_media, patch_settings, platform_filter,
    platform_info, require_hit, require_text, status_filter, use_template, ScopeQuery,
    SettingsPatch, DEFAULT_LIMIT, KNOWN_POST_STATUSES, MAX_LIMIT,
};
use ryu_social::draft::{DraftBody, PostSegment};
use ryu_social::error::ApiError;
use ryu_social::ids::DEFAULT_WORKSPACE_ID;
use ryu_social::platform::{Platform, PlatformCapabilities};
use ryu_social::records::{ActivityItem, Draft, PostTarget, ScheduledPost, SocialAccount, SocialSettings};
use ryu_social::status::{InboxKind, PostStatus, TargetStatus};
use ryu_social::template::{Template, TemplateBody};

#[test]
fn scope_query_defaults_to_the_seeded_workspace_and_clamps_limits() {
    let empty = ScopeQuery {
        workspace_id: None,
        limit: None,
    };
    assert_eq!(empty.workspace(), DEFAULT_WORKSPACE_ID);
    assert_eq!(empty.limit(), DEFAULT_LIMIT);

    let blank = ScopeQuery {
        workspace_id: Some("   ".into()),
        limit: Some(0),
    };
    assert_eq!(blank.workspace(), DEFAULT_WORKSPACE_ID);
    assert_eq!(blank.limit(), 1);

    let huge = ScopeQuery {
        workspace_id: Some("ws_1".into()),
        limit: Some(100_000),
    };
    assert_eq!(huge.workspace(), "ws_1");
    assert_eq!(huge.limit(), MAX_LIMIT);
}

#[test]
fn every_declared_post_status_string_parses_back() {
    for s in KNOWN_POST_STATUSES {
        assert_eq!(PostStatus::from_db(s).as_str(), s);
        assert_eq!(status_filter(Some(s)), vec![PostStatus::from_db(s)]);
    }
}

#[test]
fn unknown_statuses_are_dropped_from_a_filter() {
    assert_eq!(
        status_filter(Some(" due ,,archived,scheduled")),
        vec![PostStatus::Due, PostStatus::Scheduled]
    );
    assert!(status_filter(None).is_empty());
    assert!(status_filter(Some("")).is_empty());
}

#[test]
fn preview_truncates_on_characters_not_bytes() {
    assert_eq!(preview("  hi  "), "hi");
    let long = "🎉".repeat(200);
    let out = preview(&long);
    assert_eq!(out.chars().count(), CALENDAR_TITLE_CHARS + 1);
    assert!(out.ends_with('…'));
}

fn account(id: &str, workspace: &str, platform: Platform) -> SocialAccount {
    SocialAccount {
        id: id.into(),
        workspace_id: workspace.into(),
        platform,
        account_label: format!("@{id}"),
        external_id: None,
        connected: true,
        created_at: 0,
    }
}

fn request(account_ids: Vec<&str>) -> CreatePost {
    CreatePost {
        workspace_id: None,
        draft_id: None,
        body: Some(DraftBody::empty()),
        scheduled_for: Some(9_000),
        account_ids: account_ids.into_iter().map(str::to_string).collect(),
        variants: vec![],
    }
}

#[test]
fn create_post_collapses_a_repeated_account_into_one_target() {
    let req = request(vec!["a", "a", "a"]);
    let wanted = wanted_accounts(&req).unwrap();
    assert_eq!(wanted, vec!["a".to_string()]);
    let found = vec![Some(account("a", DEFAULT_WORKSPACE_ID, Platform::Bluesky))];
    let post = plan_post(&req, &wanted, &found, None, 1).unwrap();
    assert_eq!(post.targets.len(), 1);
    assert_eq!(post.scheduled_for, 9_000);
    assert_eq!(post.content, PostContent::Inline);
    assert_eq!(post.workspace_id, DEFAULT_WORKSPACE_ID);
}

#[test]
fn create_post_dedupe_keeps_first_occurrence_order() {
    let mut req = request(vec!["second", "first", "second", "first"]);
    let mut own = DraftBody::empty();
    own.text = "just for first".into();
    req.variants = vec![("first".to_string(), own.clone())];
    let wanted = wanted_accounts(&req).unwrap();
    let found = vec![
        Some(account("second", DEFAULT_WORKSPACE_ID, Platform::Bluesky)),
        Some(account("first", DEFAULT_WORKSPACE_ID, Platform::X)),
    ];
    let post = plan_post(&req, &wanted, &found, None, 1).unwrap();
    let got: Vec<&str> = post.targets.iter().map(|t| t.social_account_id.as_str()).collect();
    assert_eq!(got, vec!["second", "first"]);
    assert_eq!(post.targets[0].variant_body, None);
    assert_eq!(post.targets[1].variant_body, Some(own));
}

fn draft(id: &str, workspace: &str, text: &str) -> Draft {
    let mut body = DraftBody::empty();
    body.text = text.into();
    Draft {
        id: id.into(),
        workspace_id: workspace.into(),
        body,
        created_at: 0,
        updated_at: 0,
    }
}

#[test]
fn a_post_is_refused_for_the_first_thing_that_is_wrong() {
    let none = request(vec![]);
    assert_eq!(
        wanted_accounts(&none).unwrap_err().message(),
        "a scheduled post needs at least one account"
    );
    let req = request(vec!["a", "b"]);
    let wanted = wanted_accounts(&req).unwrap();
    let mine = Some(account("a", DEFAULT_WORKSPACE_ID, Platform::X));
    assert_eq!(
        plan_post(&req, &wanted, &vec![mine.clone(), None], None, 1)
            .unwrap_err()
            .message(),
        "unknown account b"
    );
    let other = Some(account("a", "ws_2", Platform::X));
    assert_eq!(
        plan_post(&req, &wanted, &vec![other, None], None, 1).unwrap_err().message(),
        "account a belongs to another workspace"
    );
    let mut bare = request(vec!["a"]);
    bare.body = None;
    bare.scheduled_for = None;
    let one = wanted_accounts(&bare).unwrap();
    assert_eq!(
        plan_post(&bare, &one, &vec![mine.clone()], None, 1).unwrap_err().message(),
        "a scheduled post needs either a draft_id or an inline body"
    );
    bare.draft_id = Some("dft_1".into());
    assert_eq!(
        plan_post(&bare, &one, &vec![mine.clone()], None, 1).unwrap_err().message(),
        "unknown draft dft_1"
    );
    let foreign = draft("dft_1", "ws_2", "x");
    assert_eq!(
        plan_post(&bare, &one, &vec![mine.clone()], Some(&foreign), 1)
            .unwrap_err()
            .message(),
        "draft belongs to another workspace"
    );
    let own = draft("dft_1", DEFAULT_WORKSPACE_ID, "x");
    let post = plan_post(&bare, &one, &vec![mine], Some(&own), 77).unwrap();
    assert_eq!(post.content, PostContent::Stored("dft_1".into()));
    assert_eq!(post.scheduled_for, 77, "no time means now");
}

fn post(id: &str, at: i64, draft_id: Option<&str>) -> ScheduledPost {
    ScheduledPost {
        id: id.into(),
        workspace_id: DEFAULT_WORKSPACE_ID.into(),
        draft_id: draft_id.map(str::to_string),
        scheduled_for: at,
        status: PostStatus::Scheduled,
        created_at: 0,
        targets: vec![PostTarget {
            id: "tgt_1".into(),
            scheduled_post_id: id.into(),
            social_account_id: "acc_1".into(),
            platform: Platform::X,
            variant_body: None,
            status: TargetStatus::Pending,
            attempts: 0,
            next_attempt_at: None,
            claimed_at: None,
        }],
    }
}

#[test]
fn a_post_moves_only_while_the_store_can_move_it() {
    let moved = reschedule(Some(PostStatus::Scheduled), true, Some(post("sp_1", 5, None)));
    assert_eq!(moved.unwrap().scheduled_for, 5);
    assert_eq!(
        reschedule(Some(PostStatus::Due), false, None).unwrap_err().message(),
        "a due post can no longer be rescheduled"
    );
    assert_eq!(
        cancel(Some(PostStatus::Publishing), false, None).unwrap_err().message(),
        "a publishing post can no longer be cancelled"
    );
    assert_eq!(cancel(None, false, None).unwrap_err().message(), "post not found");
    assert_eq!(
        cancel(Some(PostStatus::Due), true, None).unwrap_err().status(),
        404
    );
}

#[test]
fn validate_blocks_or_merely_warns_per_the_workspace_setting() {
    let over_limit = vec![PostSegment {
        text: "x".repeat(400),
        media: Vec::new(),
    }];
    let platforms = vec!["x".to_string()];
    let mut settings = SocialSettings::default();
    assert!(settings.enforce_platform_limits);
    assert!(limits_enforced(None));

    let strict = validate_post(&platforms, &over_limit, limits_enforced(Some(&settings))).unwrap();
    assert!(!strict.ok && strict.enforced);
    assert!(strict.results[0].reason.is_some());
    assert!(!strict.results[0].ok);
    assert_eq!(strict.results[0].chars, 400);
    assert_eq!(strict.results[0].label, "X");
    assert_eq!(strict.results[0].limits.max_chars, 280);

    settings.enforce_platform_limits = false;
    let warn = validate_post(&platforms, &over_limit, limits_enforced(Some(&settings))).unwrap();
    assert!(warn.ok && !warn.enforced);
    assert!(warn.results[0].ok);
    assert!(warn.results[0].reason.is_some());

    assert_eq!(
        validate_post(&vec![], &over_limit, true).unwrap_err().message(),
        "no platforms to validate against"
    );
    let mixed = vec!["linkedin".to_string(), "x".to_string(), "somewhere".to_string()];
    let some = validate_post(&mixed, &over_limit, true).unwrap();
    assert!(!some.ok);
    assert!(some.results[0].ok && !some.results[1].ok && some.results[2].ok);
}

#[test]
fn the_calendar_merges_both_kinds_by_moment() {
    let drafts = vec![draft("dft_1", DEFAULT_WORKSPACE_ID, "  hello  ")];
    let posts = vec![post("late", 50, Some("dft_1")), post("early", 10, None)];
    let item = ActivityItem {
        id: "act_1".into(),
        workspace_id: DEFAULT_WORKSPACE_ID.into(),
        social_account_id: "acc_1".into(),
        platform: Platform::Bluesky,
        post_remote_id: "r".into(),
        permalink: Some("https://b/1".into()),
        text: Some("out".into()),
        likes: 0,
        comments: 0,
        shares: 0,
        views: 0,
        engagement_fetched_at: None,
        published_at: Some(50),
    };
    let mut end = item.clone();
    end.published_at = Some(100);
    let mut undated = item.clone();
    undated.published_at = None;
    let entries = calendar(&posts, &drafts, &vec![item, end, undated], 0, 100).unwrap();
    let ids: Vec<&str> = entries.iter().map(|e| e.id.as_str()).collect();
    assert_eq!(ids, vec!["early", "late", "act_1"]);
    assert_eq!(entries[1].title, "hello");
    assert_eq!(entries[0].title, "");
    assert_eq!(entries[1].post_id.as_deref(), Some("late"));
    assert_eq!(entries[1].status, Some(PostStatus::Scheduled));
    assert_eq!(entries[2].kind, CalendarKind::Published);
    assert_eq!(entries[2].platforms, vec![Platform::Bluesky]);
    assert_eq!(entries[2].permalink.as_deref(), Some("https://b/1"));
    assert_eq!(
        calendar(&posts, &drafts, &vec![], 5, 5).unwrap_err().message(),
        "`to` must be after `from`"
    );
}

#[test]
fn small_gates_say_what_is_wrong() {
    assert!(require_hit(true, "draft").is_ok());
    assert_eq!(require_hit(false, "draft").unwrap_err().message(), "draft not found");
    assert_eq!(
        require_text("  ", "a reply needs text").unwrap_err().message(),
        "a reply needs text"
    );
    assert!(require_text("x", "a reply needs text").is_ok());
    assert!(matches!(
        deletable_workspace(DEFAULT_WORKSPACE_ID),
        Err(ApiError::Conflict(_))
    ));
    assert!(deletable_workspace("ws_1").is_ok());
    assert_eq!(new_account("x", "@me").unwrap(), Platform::X);
    assert_eq!(
        new_account("myspace", "@me").unwrap_err().message(),
        "unknown platform \"myspace\""
    );
    assert_eq!(new_account("x", " ").unwrap_err().message(), "an account needs a label");
    assert_eq!(platform_filter(Some(" x ")).unwrap(), Some(Platform::X));
    assert_eq!(platform_filter(Some("  ")).unwrap(), None);
    assert_eq!(platform_filter(None).unwrap(), None);
    assert_eq!(
        platform_filter(Some(" nope ")).unwrap_err().message(),
        "unknown platform `nope`"
    );
    let info = platform_info(Platform::X, PlatformCapabilities::empty());
    assert_eq!((info.label.as_str(), info.limits.max_chars), ("X", 280));
}

#[test]
fn an_unknown_kind_filters_nothing() {
    let f = inbox_filter(Some("  ".into()), Some("poke"), None, Some(true));
    assert_eq!(f.account_id, None);
    assert_eq!(f.kind, None);
    assert!(!f.unread_only && f.unreplied_only);
    assert_eq!(inbox_filter(None, Some("dm"), Some(true), None).kind, Some(InboxKind::Dm));
}

#[test]
fn a_template_starts_a_draft_with_its_text() {
    let template = Template {
        id: "tpl_1".into(),
        workspace_id: "ws_1".into(),
        name: "launch".into(),
        body: TemplateBody {
            text: "We are live".into(),
            ..Default::default()
        },
        created_at: 0,
    };
    let mut body = use_template(&template);
    assert_eq!(body.segments.len(), 1);
    assert_eq!(body.segments[0].text, "We are live");
    body.normalize();
    assert_eq!(body.text, "We are live");
}

#[test]
fn media_takes_its_name_and_type_from_its_path() {
    let m = new_media("/home/me/pics/cat.PNG".into(), None, Some("  ".into())).unwrap();
    assert_eq!(m.name, "cat.PNG");
    assert_eq!(m.mime_type.as_deref(), Some("image/png"));
    let w = new_media("C:\\pics\\cat.unknown".into(), Some(" ".into()), None).unwrap();
    assert_eq!(w.name, "cat.unknown");
    assert_eq!(w.mime_type, None);
    let given = new_media("/x".into(), Some("n.gif".into()), Some("image/avif".into())).unwrap();
    assert_eq!(given.name, "n.gif");
    assert_eq!(given.mime_type.as_deref(), Some("image/avif"));
    assert_eq!(
        new_media("  ".into(), None, None).unwrap_err().message(),
        "media needs a path"
    );
}

#[test]
fn settings_move_to_the_nearest_bound() {
    let patch = SettingsPatch {
        scheduler_enabled: Some(false),
        poll_interval_secs: Some(1),
        max_attempts: Some(99),
        base_backoff_ms: Some(5),
        claim_lease_secs: Some(1),
        timezone: Some("  ".into()),
        enforce_platform_limits: None,
    };
    let s = patch_settings(SocialSettings::default(), patch);
    assert!(!s.scheduler_enabled);
    assert_eq!(s.poll_interval_secs, 10);
    assert_eq!(s.max_attempts, 10);
    assert_eq!(s.base_backoff_ms, 100);
    assert_eq!(s.claim_lease_secs, 60);
    assert_eq!(s.timezone, "UTC");
    assert!(s.enforce_platform_limits);
    let same = patch_settings(
        s,
        SettingsPatch {
            scheduler_enabled: None,
            poll_interval_secs: None,
            max_attempts: None,
            base_backoff_ms: Some(1_000_000),
            claim_lease_secs: None,
            timezone: Some("Asia/Tokyo".into()),
            enforce_platform_limits: Some(false),
        },
    );
    assert_eq!(same.max_attempts, 10);
    assert_eq!(same.base_backoff_ms, 60_000);
    assert_eq!(same.timezone, "Asia/Tokyo");
    assert!(!same.enforce_platform_limits);
}
