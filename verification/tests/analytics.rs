use ryu_social::analytics::refresh::{
    engagement_ref, is_fresh, published_text, remote_id_of, snapshot, PassStep, RefreshPass,
    MIN_REFRESH_AGE_MS,
};
use ryu_social::analytics::rollups::{
    can_roll_up, modal_index, rollups, AnalyticsRollups, Basis, TOP_POSTS,
};
use ryu_social::analytics::snapshots::Snapshots;
use ryu_social::analytics::{engagement_score, item_engagement};
use ryu_social::draft::DraftBody;
use ryu_social::error::ApiError;
use ryu_social::ids::DEFAULT_WORKSPACE_ID;
use ryu_social::platform::{Platform, PlatformCapabilities};
use ryu_social::records::{
    ActivityItem, Draft, EngagementCounts, PostHistoryEntry, PostTarget, ScheduledPost,
};
use ryu_social::status::{HistoryStatus, PostStatus, TargetStatus};

#[test]
fn engagement_score_ignores_views_and_treats_unknown_as_zero() {
    let counts = EngagementCounts {
        likes: Some(10),
        comments: Some(5),
        shares: Some(2),
        views: Some(1_000_000),
        fetched_at: 0,
    };
    assert_eq!(engagement_score(&counts), 17);
    assert_eq!(
        engagement_score(&EngagementCounts {
            likes: Some(3),
            comments: None,
            shares: None,
            views: None,
            fetched_at: 0,
        }),
        3
    );
}

/// 2024-01-01T00:00:00Z was a Monday.
const MONDAY_UTC: i64 = 1_704_067_200_000;
const HOUR: i64 = 3_600 * 1_000;
const DAY: i64 = 24 * HOUR;

fn activity(
    id: &str,
    platform: Platform,
    likes: u64,
    comments: u64,
    shares: u64,
    views: u64,
    published_at: Option<i64>,
) -> ActivityItem {
    ActivityItem {
        id: id.to_string(),
        workspace_id: DEFAULT_WORKSPACE_ID.to_string(),
        social_account_id: "acc_1".to_string(),
        platform,
        post_remote_id: format!("remote_{id}"),
        permalink: None,
        text: None,
        likes,
        comments,
        shares,
        views,
        engagement_fetched_at: Some(0),
        published_at,
    }
}

fn average(r: &AnalyticsRollups) -> f64 {
    if r.totals.posts == 0 {
        0.0
    } else {
        r.totals.engagement as f64 / r.totals.posts as f64
    }
}

fn share(part: u64, whole: u64) -> f64 {
    if whole == 0 {
        0.0
    } else {
        part as f64 / whole as f64
    }
}

#[test]
fn totals_and_platform_shares_add_up() {
    let items = vec![
        activity("a", Platform::X, 10, 5, 2, 1_000, Some(MONDAY_UTC)),
        activity("b", Platform::X, 1, 1, 1, 10, Some(MONDAY_UTC + HOUR)),
        activity("c", Platform::Bluesky, 4, 0, 0, 0, Some(MONDAY_UTC + DAY)),
    ];
    assert!(can_roll_up(&items));
    let r = rollups(&items, 0);

    assert_eq!(r.totals.posts, 3);
    assert_eq!(r.totals.likes, 15);
    assert_eq!(r.totals.views, 1_010);
    assert_eq!(r.totals.engagement, 17 + 3 + 4);
    assert!((average(&r) - 8.0).abs() < f64::EPSILON);

    assert_eq!(r.by_platform.len(), 2);
    assert_eq!(r.by_platform[0].platform, Platform::X);
    assert_eq!(r.by_platform[0].label, "X");
    assert_eq!(r.by_platform[0].totals.engagement, 20);
    assert_eq!(r.by_platform[1].platform, Platform::Bluesky);
    let share_sum: f64 = r
        .by_platform
        .iter()
        .map(|p| share(p.totals.engagement, r.totals.engagement))
        .sum();
    assert!((share_sum - 1.0).abs() < 1e-9, "{share_sum}");
}

#[test]
fn an_empty_workspace_produces_zeroes_not_nan_and_claims_nothing() {
    let r = rollups(&[], 0);
    assert_eq!(r.totals.posts, 0);
    assert_eq!(average(&r), 0.0);
    assert!(r.by_platform.is_empty());
    assert!(r.top_posts.is_empty());
    assert!(r.published_by_day.is_empty());
    assert_eq!(r.cadence.basis, Basis::Insufficient);
    assert_eq!(r.cadence.busiest_hour, None);
    assert_eq!(r.cadence.days_covered, 0);
    let single = vec![activity("a", Platform::X, 0, 0, 0, 500, Some(MONDAY_UTC))];
    let r = rollups(&single, 0);
    assert_eq!(share(r.by_platform[0].totals.engagement, r.totals.engagement), 0.0);
}

#[test]
fn top_posts_rank_by_engagement_and_ignore_views() {
    let items = vec![
        activity("viral-dud", Platform::X, 0, 0, 0, 9_000_000, Some(MONDAY_UTC)),
        activity("talker", Platform::X, 1, 30, 0, 12, Some(MONDAY_UTC)),
        activity("liked", Platform::Linkedin, 20, 0, 0, 40, Some(MONDAY_UTC)),
    ];
    let r = rollups(&items, 0);
    assert_eq!(r.top_posts[0].item.id, "talker");
    assert_eq!(r.top_posts[0].engagement, 31);
    assert_eq!(r.top_posts[1].item.id, "liked");
    assert_eq!(r.top_posts[2].item.id, "viral-dud");
    assert_eq!(r.top_posts[2].engagement, 0);
}

#[test]
fn top_posts_are_capped_and_deterministic() {
    let items: Vec<ActivityItem> = (0..25)
        .map(|i| activity(&format!("p{i:02}"), Platform::X, 5, 0, 0, 0, Some(MONDAY_UTC)))
        .collect();
    let first = rollups(&items, 0);
    let mut shuffled = items.clone();
    shuffled.reverse();
    let second = rollups(&shuffled, 0);
    assert_eq!(first.top_posts.len(), TOP_POSTS);
    let ids_a: Vec<&str> = first.top_posts.iter().map(|t| t.item.id.as_str()).collect();
    let ids_b: Vec<&str> = second.top_posts.iter().map(|t| t.item.id.as_str()).collect();
    assert_eq!(ids_a, ids_b, "input order must not change the ranking");
    assert_eq!(ids_a[0], "p00");
    assert_eq!(ids_a[9], "p09");
}

#[test]
fn equal_engagement_ranks_the_newest_first_and_undated_last() {
    let items = vec![
        activity("undated", Platform::X, 5, 0, 0, 0, None),
        activity("old", Platform::X, 5, 0, 0, 0, Some(MONDAY_UTC)),
        activity("new", Platform::X, 5, 0, 0, 0, Some(MONDAY_UTC + DAY)),
    ];
    let r = rollups(&items, 0);
    let ids: Vec<&str> = r.top_posts.iter().map(|t| t.item.id.as_str()).collect();
    assert_eq!(ids, vec!["new", "old", "undated"]);
}

#[test]
fn cadence_buckets_by_local_day_and_hour() {
    let items = vec![
        activity("a", Platform::X, 1, 0, 0, 0, Some(MONDAY_UTC)),
        activity("b", Platform::X, 1, 0, 0, 0, Some(MONDAY_UTC + 9 * HOUR)),
        activity("c", Platform::X, 1, 0, 0, 0, Some(MONDAY_UTC + 2 * DAY + 9 * HOUR)),
        activity("d", Platform::X, 1, 0, 0, 0, Some(MONDAY_UTC + 2 * DAY + 23 * HOUR)),
    ];
    let r = rollups(&items, 0);
    assert_eq!(r.cadence.dated_posts, 4);
    assert_eq!(r.cadence.by_day_of_week[0], 2, "Monday");
    assert_eq!(r.cadence.by_day_of_week[2], 2, "Wednesday");
    assert_eq!(r.cadence.by_hour[9], 2);
    assert_eq!(r.cadence.busiest_hour, Some(9));
    assert_eq!(r.cadence.busiest_day_of_week, Some(0));
    assert_eq!(r.cadence.days_covered, 3);
    let per_week = r.cadence.dated_posts as f64 * 7.0 / f64::from(r.cadence.days_covered);
    assert!((per_week - (4.0 * 7.0 / 3.0)).abs() < 1e-9);
    assert_eq!(r.cadence.basis, Basis::Observed);
    assert_eq!(r.cadence.by_day_of_week.iter().sum::<u32>(), 4);
    assert_eq!(r.cadence.by_hour.iter().sum::<u32>(), 4);

    assert_eq!(r.published_by_day.len(), 2);
    assert_eq!(r.published_by_day[0].day, "2024-01-01");
    assert_eq!(r.published_by_day[0].day_start_ms, MONDAY_UTC);
    assert_eq!(r.published_by_day[0].posts, 2);
    assert_eq!(r.published_by_day[1].day, "2024-01-03");
}

#[test]
fn the_utc_offset_moves_a_post_into_the_previous_local_day() {
    let items = vec![activity("a", Platform::X, 1, 0, 0, 0, Some(MONDAY_UTC + HOUR / 2))];
    let utc = rollups(&items, 0);
    assert_eq!(utc.published_by_day[0].day, "2024-01-01");
    assert_eq!(utc.cadence.busiest_day_of_week, Some(0), "Monday");

    let pacific = rollups(&items, -480);
    assert_eq!(pacific.published_by_day[0].day, "2023-12-31");
    assert_eq!(pacific.published_by_day[0].day_start_ms, MONDAY_UTC - 16 * HOUR);
    assert_eq!(pacific.cadence.busiest_day_of_week, Some(6), "Sunday");
    assert_eq!(pacific.cadence.busiest_hour, Some(16));
    assert_eq!(pacific.utc_offset_minutes, -480);
}

#[test]
fn undated_posts_count_in_totals_but_never_invent_a_date() {
    let items = vec![
        activity("dated", Platform::X, 2, 0, 0, 0, Some(MONDAY_UTC)),
        activity("undated", Platform::X, 3, 0, 0, 0, None),
    ];
    let r = rollups(&items, 0);
    assert_eq!(r.totals.posts, 2);
    assert_eq!(r.totals.engagement, 5);
    assert_eq!(r.cadence.dated_posts, 1);
    assert_eq!(r.published_by_day.len(), 1);
    assert_eq!(r.published_by_day[0].posts, 1);
    assert_eq!(r.cadence.days_covered, 1);
    assert_eq!(r.cadence.basis, Basis::Insufficient);
}

#[test]
fn sums_that_do_not_fit_are_told_beforehand() {
    let huge = vec![
        activity("a", Platform::X, u64::MAX, 0, 0, 0, None),
        activity("b", Platform::X, 1, 0, 0, 0, None),
    ];
    assert!(!can_roll_up(&huge));
    assert!(can_roll_up(&huge[1..]));
    assert_eq!(item_engagement(&huge[0]), u64::MAX);
}

#[test]
fn the_fullest_bucket_is_the_first_of_the_largest() {
    assert_eq!(modal_index(&[0, 2, 5, 5, 1]), Some(2));
    assert_eq!(modal_index(&[0, 0]), None);
    assert_eq!(modal_index(&[]), None);
}

// ── Reading counts back ────────────────────────────────────────────────────────

fn entry(status: HistoryStatus, remote_id: Option<&str>) -> PostHistoryEntry {
    PostHistoryEntry {
        id: "hist_1".into(),
        post_target_id: "tgt_1".into(),
        status,
        remote_url: Some("https://x.com/1".into()),
        remote_id: remote_id.map(str::to_string),
        error: None,
        published_at: Some(MONDAY_UTC),
    }
}

fn target() -> PostTarget {
    PostTarget {
        id: "tgt_1".into(),
        scheduled_post_id: "sp_1".into(),
        social_account_id: "acc_1".into(),
        platform: Platform::X,
        variant_body: None,
        status: TargetStatus::Published,
        attempts: 1,
        next_attempt_at: None,
        claimed_at: None,
    }
}

fn post() -> ScheduledPost {
    ScheduledPost {
        id: "sp_1".into(),
        workspace_id: "ws_1".into(),
        draft_id: Some("dft_1".into()),
        scheduled_for: 0,
        status: PostStatus::Published,
        created_at: 0,
        targets: vec![],
    }
}

fn draft(text: &str) -> Draft {
    let mut body = DraftBody::empty();
    body.text = text.to_string();
    Draft {
        id: "dft_1".into(),
        workspace_id: "ws_1".into(),
        body,
        created_at: 0,
        updated_at: 0,
    }
}

fn reading() -> PlatformCapabilities {
    PlatformCapabilities {
        read_engagement: true,
        ..PlatformCapabilities::empty()
    }
}

#[test]
fn refreshing_a_failed_publish_never_calls_a_provider() {
    let failed = entry(HistoryStatus::Failed, None);
    let err = engagement_ref(&failed, Some(&target()), Some(&post()), &reading()).unwrap_err();
    assert!(matches!(err, ApiError::Conflict(_)));
    assert_eq!(
        err.message(),
        "this publish never reached the platform, so it has no metrics"
    );
}

#[test]
fn what_is_missing_is_told_in_order() {
    let live = entry(HistoryStatus::Published, Some(" r1 "));
    let caps = PlatformCapabilities::empty();
    assert_eq!(
        engagement_ref(&live, None, None, &caps).unwrap_err().message(),
        "post target not found"
    );
    assert_eq!(
        engagement_ref(&live, Some(&target()), None, &caps).unwrap_err().message(),
        "scheduled post not found"
    );
    assert_eq!(
        engagement_ref(&live, Some(&target()), Some(&post()), &caps)
            .unwrap_err()
            .message(),
        "reading engagement on X is not supported by the configured provider"
    );
    let asked = engagement_ref(&live, Some(&target()), Some(&post()), &reading()).unwrap();
    assert_eq!(asked.remote_id, "r1");
    assert_eq!(asked.platform, Platform::X);
    assert_eq!(asked.remote_url.as_deref(), Some("https://x.com/1"));
    assert_eq!(remote_id_of(&entry(HistoryStatus::Published, Some("  "))), None);
}

#[test]
fn a_reading_is_stored_with_what_was_published() {
    let live = entry(HistoryStatus::Published, Some("r1"));
    let asked = engagement_ref(&live, Some(&target()), Some(&post()), &reading()).unwrap();
    let counts = EngagementCounts {
        likes: Some(4),
        comments: None,
        shares: Some(1),
        views: Some(9),
        fetched_at: 77,
    };
    let d = draft("  hello ");
    let item = snapshot(&asked, &live, &target(), &post(), Some(&d), Ok(counts)).unwrap();
    assert!(item.id.starts_with("act_"));
    assert_eq!(item.workspace_id, "ws_1");
    assert_eq!(item.post_remote_id, "r1");
    assert_eq!(item.text.as_deref(), Some("hello"));
    assert_eq!((item.likes, item.comments, item.shares, item.views), (4, 0, 1, 9));
    assert_eq!(item.engagement_fetched_at, Some(77));
    assert_eq!(item.published_at, Some(MONDAY_UTC));

    let refused = snapshot(&asked, &live, &target(), &post(), None, Err("gone".into()));
    assert_eq!(refused.unwrap_err().status(), 502);

    let mut own = target();
    let mut body = DraftBody::empty();
    body.text = "own words".into();
    own.variant_body = Some(body);
    assert_eq!(published_text(&own, Some(&d)).as_deref(), Some("own words"));
    assert_eq!(published_text(&target(), None), None);
    // A picture without words went out in place of the draft: no text did.
    own.variant_body = Some(DraftBody::empty());
    assert_eq!(published_text(&own, Some(&d)), None);
}

#[test]
fn a_young_reading_is_not_repeated() {
    let now = MONDAY_UTC;
    assert!(is_fresh(Some(now - MIN_REFRESH_AGE_MS + 1), now));
    assert!(!is_fresh(Some(now - MIN_REFRESH_AGE_MS), now));
    assert!(!is_fresh(None, now));
}

#[test]
fn a_pass_asks_about_each_post_once_and_stops_at_its_limit() {
    let mut pass = RefreshPass::start(2);
    assert_eq!(pass.consider(&entry(HistoryStatus::Failed, Some("r0"))), PassStep::Next);
    assert_eq!(pass.consider(&entry(HistoryStatus::Published, None)), PassStep::Next);
    let live = entry(HistoryStatus::Published, Some("r1"));
    assert_eq!(pass.consider(&live), PassStep::Look("r1".into()));
    pass.record("r1", true, &Err(ApiError::upstream("boom")));
    assert_eq!(pass.consider(&live), PassStep::Next);
    let other = entry(HistoryStatus::Published, Some("r2"));
    assert_eq!(pass.consider(&other), PassStep::Look("r2".into()));
    pass.skip();
    let third = entry(HistoryStatus::Published, Some("r3"));
    assert_eq!(pass.consider(&third), PassStep::Look("r3".into()));
    pass.record("r3", true, &Ok(activity("a", Platform::X, 0, 0, 0, 0, None)));
    assert_eq!(
        pass.consider(&entry(HistoryStatus::Published, Some("r4"))),
        PassStep::Stop
    );
    assert_eq!(pass.summary.considered, 4);
    assert_eq!(pass.summary.refreshed, 2);
    assert_eq!(pass.summary.skipped, 2);
    assert_eq!(pass.summary.errors, vec!["r1: boom".to_string()]);
}

#[test]
fn a_failed_call_counts_against_the_limit() {
    let mut pass = RefreshPass::start(1);
    let first = entry(HistoryStatus::Published, Some("r1"));
    assert_eq!(pass.consider(&first), PassStep::Look("r1".into()));
    // No provider was asked: nothing is billed.
    pass.record("r1", false, &Err(ApiError::not_found("post target")));
    assert_eq!(pass.summary.refreshed, 0);
    let second = entry(HistoryStatus::Published, Some("r2"));
    assert_eq!(pass.consider(&second), PassStep::Look("r2".into()));
    pass.record("r2", true, &Err(ApiError::upstream("boom")));
    assert_eq!(pass.summary.refreshed, 1);
    let third = entry(HistoryStatus::Published, Some("r3"));
    assert_eq!(pass.consider(&third), PassStep::Stop);
    assert_eq!(pass.summary.considered, 2);
    assert_eq!(pass.summary.errors.len(), 2);
}

#[test]
fn a_reading_replaces_the_counts_and_blanks_nothing() {
    let mut log = Snapshots::new();
    let mut first = activity("act_a", Platform::X, 5, 4, 3, 100, None);
    first.post_remote_id = "r1".into();
    first.permalink = Some("https://x.com/1".into());
    assert_eq!(log.upsert_activity(first.clone()), first);

    // Counts only, and lower ones: a platform may take likes back.
    let mut second = activity("act_b", Platform::X, 2, 0, 3, 90, Some(MONDAY_UTC));
    second.post_remote_id = "r1".into();
    second.text = Some("hello".into());
    second.engagement_fetched_at = Some(9);
    let known = log.upsert_activity(second);
    assert_eq!(log.rows.len(), 1);
    assert_eq!(known.id, "act_a", "the row keeps its id");
    assert_eq!((known.likes, known.comments, known.shares, known.views), (2, 0, 3, 90));
    assert_eq!(known.permalink.as_deref(), Some("https://x.com/1"));
    assert_eq!(known.text.as_deref(), Some("hello"));
    assert_eq!(known.published_at, Some(MONDAY_UTC));
    assert_eq!(known.engagement_fetched_at, Some(9));

    let mut other = activity("act_c", Platform::X, 1, 0, 0, 0, None);
    other.post_remote_id = "r1".into();
    other.social_account_id = "acc_2".into();
    log.upsert_activity(other.clone());
    assert_eq!(log.rows.len(), 2, "the same id on another account is another post");
    assert_eq!(
        log.get_activity_by_remote(DEFAULT_WORKSPACE_ID, "acc_2", "r1"),
        Some(other)
    );
    assert_eq!(
        log.get_activity_by_remote(DEFAULT_WORKSPACE_ID, "acc_1", "r1"),
        Some(known)
    );
    assert_eq!(log.get_activity_by_remote("ws_2", "acc_1", "r1"), None);
}
