use ryu_social::api::posts::{scheduled_post, NewTarget, PlannedPost, PostContent};
use ryu_social::draft::{DraftBody, MediaRef, PostSegment};
use ryu_social::error::ApiError;
use ryu_social::ids::{new_id, DEFAULT_WORKSPACE_ID, ID_ACCOUNT};
use ryu_social::ledger::{Ledger, Move};
use ryu_social::platform::Platform;
use ryu_social::providers::fake::FakeProvider;
use ryu_social::providers::types::{PlatformProvider, PublishResult};
use ryu_social::publish::{
    aggregate_status, aggregate_target_statuses, backoff_delay_ms, effective_max_attempts,
    idempotency_key_for, lost_claim, next_target, queue_now, queue_retry, settle_post,
    settled_event, timed_out, to_publish_media, AttemptRun, AttemptStep, PostOutcome, Settlement,
    TargetOutcome, EVENT_POST_FAILED, EVENT_POST_PUBLISHED, MAX_ATTEMPTS_CEILING,
};
use ryu_social::records::{PostHistoryEntry, ScheduledPost, SocialAccount, SocialSettings};
use ryu_social::runner::{PostRun, Stage};
use ryu_social::status::{HistoryStatus, PostStatus, TargetStatus};

#[test]
fn backoff_doubles_per_attempt_and_is_zero_before_the_first() {
    assert_eq!(backoff_delay_ms(0, 1_000), 0);
    assert_eq!(backoff_delay_ms(1, 1_000), 1_000);
    assert_eq!(backoff_delay_ms(2, 1_000), 2_000);
    assert_eq!(backoff_delay_ms(3, 1_000), 4_000);
    assert!(backoff_delay_ms(u32::MAX, 1_000) > 0);
    assert_eq!(backoff_delay_ms(17, 1_000), 65_536_000);
    assert_eq!(backoff_delay_ms(18, 1), 131_072);
    assert_eq!(backoff_delay_ms(64, 1), 1 << 63);
    assert_eq!(backoff_delay_ms(65, 1), u64::MAX);
    assert_eq!(backoff_delay_ms(u32::MAX, 0), 0);
    assert_eq!(backoff_delay_ms(5, u64::MAX), u64::MAX);
}

fn outcome(status: TargetStatus) -> TargetOutcome {
    TargetOutcome {
        target_id: "tgt_1".into(),
        platform: Platform::X,
        status,
        remote_id: None,
        remote_url: None,
        error: None,
        attempts: 1,
    }
}

#[test]
fn aggregate_status_treats_no_targets_as_failure() {
    assert_eq!(aggregate_status(&[]), PostStatus::Failed);
    assert_eq!(
        aggregate_status(&[outcome(TargetStatus::Published)]),
        PostStatus::Published
    );
    assert_eq!(
        aggregate_status(&[outcome(TargetStatus::Failed)]),
        PostStatus::Failed
    );
    assert_eq!(
        aggregate_status(&[
            outcome(TargetStatus::Published),
            outcome(TargetStatus::Failed)
        ]),
        PostStatus::Partial
    );
    assert_eq!(
        aggregate_target_statuses(&[TargetStatus::Published, TargetStatus::Cancelled]),
        PostStatus::Partial
    );
}

#[test]
fn the_idempotency_key_is_derived_and_stable() {
    let a = idempotency_key_for("sp_1", "acc_1");
    assert_eq!(a, idempotency_key_for("sp_1", "acc_1"));
    assert_ne!(a, idempotency_key_for("sp_1", "acc_2"));
    assert_ne!(a, idempotency_key_for("sp_2", "acc_1"));
}

#[test]
fn the_attempt_budget_is_clamped_in_both_directions() {
    let mut settings = SocialSettings::default();
    settings.max_attempts = 0;
    assert_eq!(effective_max_attempts(&settings), 1);
    settings.max_attempts = 5_000;
    assert_eq!(effective_max_attempts(&settings), MAX_ATTEMPTS_CEILING);
}

// ── Whole runs, against the deterministic fake ─────────────────────────────────

/// The rows that a run works on.
struct Desk {
    ledger: Ledger,
    accounts: Vec<SocialAccount>,
    drafts: Vec<(String, DraftBody)>,
    history: Vec<PostHistoryEntry>,
}

/// Schedule a post with one target for each platform, and make it due.
fn due_post(body: DraftBody, platforms: &[Platform]) -> (Desk, ScheduledPost) {
    let accounts: Vec<SocialAccount> = platforms
        .iter()
        .enumerate()
        .map(|(i, platform)| SocialAccount {
            id: new_id(ID_ACCOUNT),
            workspace_id: DEFAULT_WORKSPACE_ID.into(),
            platform: *platform,
            account_label: format!("@acct{i}"),
            external_id: Some("ext_1".into()),
            connected: true,
            created_at: 0,
        })
        .collect();
    let plan = PlannedPost {
        workspace_id: DEFAULT_WORKSPACE_ID.into(),
        content: PostContent::Inline,
        scheduled_for: 9_000,
        targets: accounts
            .iter()
            .map(|a| NewTarget {
                social_account_id: a.id.clone(),
                platform: a.platform,
                variant_body: None,
            })
            .collect(),
    };
    let post = scheduled_post(plan, Some("dft_1".into()), 0);
    let mut ledger = Ledger { posts: vec![post.clone()] };
    assert!(ledger.apply(&post.id, Move::DueNow(5)));
    let post = ledger.posts[0].clone();
    let desk = Desk {
        ledger,
        accounts,
        drafts: vec![("dft_1".into(), body.normalized())],
        history: vec![],
    };
    (desk, post)
}

fn body(text: &str) -> DraftBody {
    let mut body = DraftBody::empty();
    body.segments[0].text = text.to_string();
    body.normalize();
    body
}

fn write_down(desk: &mut Desk, target_id: &str, s: &Settlement) {
    if let Some(h) = &s.history {
        desk.history.push(PostHistoryEntry {
            id: format!("hist_{}", desk.history.len()),
            post_target_id: target_id.into(),
            status: h.status,
            remote_url: h.remote_url.clone(),
            remote_id: h.remote_id.clone(),
            error: h.error.clone(),
            published_at: Some(0),
        });
    }
    desk.ledger.end_target(target_id, s);
}

/// Run a due post, with no wait between its attempts.
fn run_post(
    desk: &mut Desk,
    post: &ScheduledPost,
    fake: &mut FakeProvider,
) -> Result<PostOutcome, ApiError> {
    if !desk.ledger.apply(&post.id, Move::Take) {
        return Err(lost_claim(&post.id));
    }
    let settings = SocialSettings {
        max_attempts: 3,
        base_backoff_ms: 0,
        ..SocialSettings::default()
    };
    let targets = desk.ledger.posts[0].targets.clone();
    let draft = desk.drafts.iter().find(|d| Some(&d.0) == post.draft_id.as_ref());
    let mut run = PostRun::start(post, &settings, targets, draft.map(|d| d.1.clone()));
    loop {
        run = match &run.stage {
            Stage::Claim => {
                let won = desk.ledger.claim_target(&run.targets[run.at].id, 7);
                run.claimed(won)
            }
            Stage::Read => {
                let target = &run.targets[run.at];
                let rows: Vec<PostHistoryEntry> = desk
                    .history
                    .iter()
                    .rev()
                    .filter(|h| h.post_target_id == target.id)
                    .cloned()
                    .collect();
                let account = desk.accounts.iter().find(|a| a.id == target.social_account_id);
                run.looked_up(&rows, account)
            }
            Stage::Call { request, wait_ms, .. } => {
                assert_eq!(*wait_ms, 0);
                assert_eq!(request.account.external_id.as_deref(), Some("ext_1"));
                let answer = fake.publish(request);
                run.answered(answer)
            }
            Stage::Record(s) => {
                let id = run.targets[run.at].id.clone();
                write_down(desk, &id, s);
                run.recorded()
            }
            Stage::Over => break,
        };
    }
    let outcome = run.finish(&desk.ledger.posts[0].targets);
    if outcome.status != PostStatus::Publishing {
        assert!(desk.ledger.apply(&post.id, Move::Settle(outcome.status)));
    }
    Ok(outcome)
}

#[test]
fn a_post_over_the_platform_limit_fails_that_target_without_calling_the_provider() {
    let mut fake = FakeProvider::new();
    let (mut desk, post) = due_post(body(&"a".repeat(300)), &[Platform::X, Platform::Linkedin]);
    let outcome = run_post(&mut desk, &post, &mut fake).unwrap();

    assert_eq!(outcome.status, PostStatus::Partial);
    let x = outcome.targets.iter().find(|t| t.platform == Platform::X).unwrap();
    assert_eq!(x.status, TargetStatus::Failed);
    assert_eq!(x.attempts, 0);
    assert!(x.error.as_ref().unwrap().contains("character limit"));
    let linkedin = outcome
        .targets
        .iter()
        .find(|t| t.platform == Platform::Linkedin)
        .unwrap();
    assert_eq!(linkedin.status, TargetStatus::Published);
    assert_eq!(fake.calls().len(), 1);
    assert_eq!(fake.calls()[0].platform, Platform::Linkedin);
    assert_eq!(desk.history.len(), 2);
}

#[test]
fn one_failing_leg_makes_the_post_partial_and_leaves_the_others_alone() {
    let mut fake = FakeProvider::new().failing_on(Platform::Reddit);
    let (mut desk, post) = due_post(
        body("hello"),
        &[Platform::X, Platform::Reddit, Platform::Linkedin],
    );
    let outcome = run_post(&mut desk, &post, &mut fake).unwrap();
    assert_eq!(outcome.status, PostStatus::Partial);
    let reddit = outcome
        .targets
        .iter()
        .find(|t| t.platform == Platform::Reddit)
        .unwrap();
    assert_eq!(reddit.status, TargetStatus::Failed);
    assert_eq!(reddit.attempts, 3);
    assert_eq!(
        outcome
            .targets
            .iter()
            .filter(|t| t.status == TargetStatus::Published)
            .count(),
        2
    );
    assert_eq!(fake.published_count(), 2);
    assert_eq!(desk.ledger.posts[0].status, PostStatus::Partial);
}

#[test]
fn every_attempt_of_a_run_reuses_the_same_idempotency_key() {
    let mut fake = FakeProvider::new().failing_first(2);
    let (mut desk, post) = due_post(body("hello"), &[Platform::X]);
    let outcome = run_post(&mut desk, &post, &mut fake).unwrap();

    assert_eq!(outcome.status, PostStatus::Published);
    assert_eq!(outcome.targets[0].attempts, 3);
    let calls = fake.calls();
    assert_eq!(calls.len(), 3);
    let keys: Vec<Option<String>> = calls.iter().map(|c| c.idempotency_key.clone()).collect();
    assert!(keys[0].is_some());
    assert!(keys.iter().all(|k| *k == keys[0]));
    let expected = idempotency_key_for(&post.id, &post.targets[0].social_account_id);
    assert_eq!(keys[0].as_deref(), Some(expected.as_str()));
    assert_eq!(fake.published_count(), 1);
}

#[test]
fn a_target_with_a_published_history_row_is_never_republished() {
    let mut fake = FakeProvider::new();
    let (mut desk, post) = due_post(body("hello"), &[Platform::X]);
    desk.history.push(PostHistoryEntry {
        id: "hist_0".into(),
        post_target_id: post.targets[0].id.clone(),
        status: HistoryStatus::Published,
        remote_url: Some("https://example.test/1".into()),
        remote_id: Some("remote_already_live".into()),
        error: None,
        published_at: Some(0),
    });
    let outcome = run_post(&mut desk, &post, &mut fake).unwrap();
    assert_eq!(outcome.status, PostStatus::Published);
    assert_eq!(outcome.targets[0].attempts, 0);
    assert_eq!(
        outcome.targets[0].remote_id.as_deref(),
        Some("remote_already_live")
    );
    assert!(fake.calls().is_empty());
    assert_eq!(fake.published_count(), 0);
}

#[test]
fn a_retry_republishes_only_the_failed_leg() {
    let mut fake = FakeProvider::new().failing_on(Platform::Reddit);
    let (mut desk, post) = due_post(body("hello"), &[Platform::X, Platform::Reddit]);
    let first = run_post(&mut desk, &post, &mut fake).unwrap();
    assert_eq!(first.status, PostStatus::Partial);
    assert_eq!(fake.published_count(), 1);

    // The user retries. The published leg must not be touched.
    let found = desk.ledger.posts[0].status;
    let moved = desk.ledger.apply(&post.id, Move::Retry(11));
    let after = Some(desk.ledger.posts[0].clone());
    let requeued = queue_retry(Some(found), moved, after).unwrap();
    assert_eq!(requeued.status, PostStatus::Due);
    let second = run_post(&mut desk, &requeued, &mut fake).unwrap();

    assert_eq!(second.targets.len(), 1);
    assert_eq!(second.targets[0].platform, Platform::Reddit);
    assert_eq!(second.status, PostStatus::Partial);
    assert_eq!(fake.published_count(), 1);
}

#[test]
fn all_legs_published_settles_the_post_as_published() {
    let mut fake = FakeProvider::new();
    let (mut desk, post) = due_post(body("hello"), &[Platform::X, Platform::Linkedin]);
    let outcome = run_post(&mut desk, &post, &mut fake).unwrap();
    assert_eq!(outcome.status, PostStatus::Published);
    assert!(outcome
        .targets
        .iter()
        .all(|t| t.status == TargetStatus::Published));
    assert_eq!(desk.ledger.posts[0].status, PostStatus::Published);
}

#[test]
fn a_post_with_no_body_fails_locally_without_a_provider_call() {
    let mut fake = FakeProvider::new();
    let (mut desk, post) = due_post(DraftBody::empty(), &[Platform::X]);
    let outcome = run_post(&mut desk, &post, &mut fake).unwrap();
    assert_eq!(outcome.status, PostStatus::Failed);
    assert_eq!(outcome.targets[0].attempts, 0);
    assert!(outcome.targets[0].error.as_ref().unwrap().contains("No post body"));
    assert!(fake.calls().is_empty());
}

#[test]
fn a_lost_claim_is_an_error_and_publishes_nothing() {
    let mut fake = FakeProvider::new();
    let (mut desk, post) = due_post(body("hello"), &[Platform::X]);
    // Another worker got there first.
    assert!(desk.ledger.apply(&post.id, Move::Take));
    let result = run_post(&mut desk, &post, &mut fake);
    assert!(matches!(result, Err(ApiError::Conflict(_))));
    assert!(fake.calls().is_empty());
    assert_eq!(
        lost_claim("sp_1").message(),
        "post sp_1 is not due (another worker may already own it)"
    );
}

#[test]
fn a_multi_segment_post_forwards_every_segment_to_a_thread_platform() {
    let mut fake = FakeProvider::new();
    let mut two = DraftBody::empty();
    two.segments = vec![
        PostSegment {
            text: "one".into(),
            media: vec![],
        },
        PostSegment {
            text: "two".into(),
            media: vec![],
        },
    ];
    two.normalize();
    let (mut desk, post) = due_post(two, &[Platform::X, Platform::Reddit]);
    let outcome = run_post(&mut desk, &post, &mut fake).unwrap();
    assert_eq!(outcome.status, PostStatus::Published);
    let calls = fake.calls();
    let x = calls.iter().find(|c| c.platform == Platform::X).unwrap();
    assert_eq!(x.segment_texts, vec!["one".to_string(), "two".to_string()]);
    let reddit = calls.iter().find(|c| c.platform == Platform::Reddit).unwrap();
    assert_eq!(reddit.segment_texts, vec!["one".to_string()]);
}

#[test]
fn a_leg_that_another_worker_holds_is_passed_over() {
    let mut fake = FakeProvider::new();
    let (mut desk, post) = due_post(
        body("hello"),
        &[Platform::X, Platform::Linkedin, Platform::Reddit],
    );
    assert!(desk.ledger.claim_target(&post.targets[0].id, 1));
    desk.ledger.abandon_account(&post.targets[2].social_account_id);
    let outcome = run_post(&mut desk, &post, &mut fake).unwrap();
    assert_eq!(outcome.targets.len(), 1);
    assert_eq!(outcome.targets[0].platform, Platform::Linkedin);
    assert_eq!(outcome.status, PostStatus::Publishing);
    assert_eq!(fake.calls().len(), 1);
    let legs = &desk.ledger.posts[0].targets;
    assert_eq!(legs[0].status, TargetStatus::Publishing);
    assert_eq!(legs[1].status, TargetStatus::Published);
    assert_eq!(legs[2].status, TargetStatus::Cancelled);
}

#[test]
fn a_run_of_settled_legs_asks_for_nothing() {
    let (desk, post) = due_post(body("hello"), &[Platform::X]);
    let mut targets = desk.ledger.posts[0].targets.clone();
    targets[0].status = TargetStatus::Published;
    let run = PostRun::start(&post, &SocialSettings::default(), targets.clone(), None);
    assert_eq!(run.stage, Stage::Over);
    let outcome = run.finish(&targets);
    assert_eq!(outcome.status, PostStatus::Published);
    assert!(outcome.targets.is_empty());
}

#[test]
fn a_post_waits_for_its_open_legs() {
    let (_, post) = due_post(body("hello"), &[Platform::X, Platform::Reddit]);
    let mut targets = post.targets;
    targets[0].status = TargetStatus::Published;
    assert_eq!(settle_post(&targets), None);
    assert_eq!(next_target(&targets, 0), Some(1));
    assert_eq!(next_target(&targets, 2), None);
    assert_eq!(settle_post(&vec![]), Some(PostStatus::Failed));
    assert_eq!(settled_event(PostStatus::Published), Some(EVENT_POST_PUBLISHED));
    assert_eq!(settled_event(PostStatus::Partial), Some(EVENT_POST_FAILED));
    assert_eq!(settled_event(PostStatus::Publishing), None);
}

#[test]
fn a_run_waits_longer_each_time_and_then_gives_up() {
    let (_, post) = due_post(body("hello"), &[Platform::X]);
    let target = &post.targets[0];
    let run = AttemptRun::start(4, 2, 1_000);
    let AttemptStep::Again { run, wait_ms } = run.observe(target, timed_out(Platform::X)) else {
        panic!("one more attempt is owed");
    };
    assert_eq!(wait_ms, 1_000);
    let AttemptStep::Done(s) = run.observe(target, PublishResult::err("no")) else {
        panic!("the budget is spent");
    };
    assert_eq!(s.status, TargetStatus::Failed);
    assert_eq!(s.attempts, 6);
    assert_eq!(s.outcome.attempts, 2);
    assert_eq!(s.history.unwrap().error.as_deref(), Some("no"));
}

#[test]
fn publishing_now_and_retrying_tell_why_not() {
    assert_eq!(
        queue_now(Some(PostStatus::Published), false, None).unwrap_err().message(),
        "post is published and can no longer be published now"
    );
    assert_eq!(queue_now(None, true, None).unwrap_err().status(), 404);
    assert_eq!(
        queue_retry(Some(PostStatus::Scheduled), false, None).unwrap_err().message(),
        "only a partial or failed post can be retried; this one is scheduled"
    );
}

#[test]
fn media_mime_types_are_derived_from_the_file_name_when_absent() {
    let derived = to_publish_media(&MediaRef {
        path: "/tmp/cat.png".into(),
        mime_type: String::new(),
        name: "cat.png".into(),
    });
    assert_eq!(derived.mime_type, "image/png");
    let from_path = to_publish_media(&MediaRef {
        path: "/tmp/clip.mp4".into(),
        mime_type: String::new(),
        name: String::new(),
    });
    assert_eq!(from_path.mime_type, "video/mp4");
    assert_eq!(derived.alt_text, None);
}
