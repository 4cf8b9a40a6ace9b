use ryu_social::ids::DEFAULT_WORKSPACE_ID;
use ryu_social::ledger::{Ledger, Move};
use ryu_social::platform::Platform;
use ryu_social::publish::{backoff_delay_ms, fail_locally};
use ryu_social::queue::queue_entry;
use ryu_social::records::{PostTarget, ScheduledPost, SocialSettings};
use ryu_social::scheduler::{
    read_policy, settle_status_from_targets, TickPolicy, RECOVERY_SCAN_LIMIT,
};
use ryu_social::status::{PostStatus, TargetStatus};

fn ledger() -> Ledger {
    Ledger { posts: vec![] }
}

/// Schedule a post with one target for each platform at `at`.
fn schedule(s: &mut Ledger, at: i64, platforms: &[Platform]) -> String {
    let n = s.posts.len();
    let id = format!("sp_{n}");
    s.posts.push(ScheduledPost {
        id: id.clone(),
        workspace_id: DEFAULT_WORKSPACE_ID.into(),
        draft_id: None,
        scheduled_for: at,
        status: PostStatus::Scheduled,
        created_at: 0,
        targets: platforms
            .iter()
            .enumerate()
            .map(|(i, platform)| PostTarget {
                id: format!("tgt_{n}_{i}"),
                scheduled_post_id: id.clone(),
                social_account_id: format!("acc_{i}"),
                platform: *platform,
                variant_body: None,
                status: TargetStatus::Pending,
                attempts: 0,
                next_attempt_at: None,
                claimed_at: None,
            })
            .collect(),
    });
    id
}

fn scheduled_post(s: &mut Ledger, at: i64) -> (String, String) {
    let id = schedule(s, at, &[Platform::X]);
    let target = s.posts.last().unwrap().targets[0].id.clone();
    (id, target)
}

fn get<'a>(s: &'a Ledger, id: &str) -> &'a ScheduledPost {
    s.posts.iter().find(|p| p.id == id).unwrap()
}

#[test]
fn two_concurrent_sweeps_cannot_claim_the_same_post() {
    let mut s = ledger();
    let (post_id, _) = scheduled_post(&mut s, 1_000);
    let first = s.claim_due_posts(5_000, 10);
    let second = s.claim_due_posts(5_000, 10);
    assert_eq!(
        first.len() + second.len(),
        1,
        "exactly one sweep may claim the post, got {} + {}",
        first.len(),
        second.len()
    );
    assert_eq!(get(&s, &post_id).status, PostStatus::Due);
    assert!(s.claim_due_posts(5_000, 10).is_empty());
}

#[test]
fn a_sweep_takes_the_earliest_posts_first() {
    let mut s = ledger();
    let late = schedule(&mut s, 3_000, &[Platform::X]);
    let early = schedule(&mut s, 1_000, &[Platform::X]);
    let twin = schedule(&mut s, 1_000, &[Platform::X]);
    let future = schedule(&mut s, 9_000, &[Platform::X]);
    assert_eq!(s.claim_due_posts(5_000, 2), vec![early, twin]);
    assert_eq!(get(&s, &late).status, PostStatus::Scheduled);
    assert_eq!(s.claim_due_posts(5_000, 2), vec![late]);
    assert_eq!(get(&s, &future).status, PostStatus::Scheduled);
}

#[test]
fn a_post_whose_time_has_not_come_is_not_claimed() {
    let mut s = ledger();
    let (post_id, _) = scheduled_post(&mut s, 10_000);
    assert!(s.claim_due_posts(9_999, 10).is_empty());
    assert_eq!(get(&s, &post_id).status, PostStatus::Scheduled);
    assert_eq!(s.claim_due_posts(10_000, 10), vec![post_id]);
}

#[test]
fn only_one_runner_can_claim_a_due_post() {
    let mut s = ledger();
    let (post_id, _) = scheduled_post(&mut s, 0);
    s.claim_due_posts(1_000, 10);
    assert!(s.apply(&post_id, Move::Take));
    assert!(!s.apply(&post_id, Move::Take));
}

#[test]
fn an_expired_lease_returns_its_target_and_post_to_the_queue() {
    let mut s = ledger();
    let (post_id, target_id) = scheduled_post(&mut s, 0);
    s.claim_due_posts(1_000, 10);
    assert!(s.apply(&post_id, Move::Take));
    assert!(s.claim_target(&target_id, 1_000));
    assert!(!s.claim_target(&target_id, 1_001));

    assert!(s.reap_expired_claims(900, 5_000).is_empty());
    assert_eq!(get(&s, &post_id).status, PostStatus::Publishing);

    let reaped = s.reap_expired_claims(2_000, 5_000);
    assert_eq!(reaped, vec![target_id.clone()]);
    let post = get(&s, &post_id);
    assert_eq!(post.status, PostStatus::Due);
    let target = post.targets.iter().find(|t| t.id == target_id).unwrap();
    assert_eq!(target.status, TargetStatus::Pending);
    assert_eq!(target.claimed_at, None);
    assert_eq!(target.next_attempt_at, Some(5_000));
    assert!(s.reap_expired_claims(2_000, 5_000).is_empty());
}

#[test]
fn a_backing_off_target_carries_its_next_attempt_forward() {
    let mut s = ledger();
    let (post_id, target_id) = scheduled_post(&mut s, 0);
    s.claim_due_posts(1_000, 10);
    s.apply(&post_id, Move::Take);

    let base = SocialSettings::default().base_backoff_ms;
    let mut at = 1_000i64;
    for attempt in 1..=2u32 {
        let delay = backoff_delay_ms(attempt, base) as i64;
        at += delay;
        s.settle_target(&target_id, TargetStatus::Pending, attempt, Some(at));
        let post = get(&s, &post_id);
        let row = queue_entry(post, post.targets[0].clone()).unwrap();
        assert_eq!(row.target.attempts, attempt);
        assert_eq!(row.next_attempt_at, at);
    }
    assert_eq!(at, 1_000 + 1_000 + 2_000);
}

#[test]
fn only_open_work_is_queued() {
    let mut s = ledger();
    let (post_id, target_id) = scheduled_post(&mut s, 7_000);
    let post = get(&s, &post_id);
    assert_eq!(
        queue_entry(post, post.targets[0].clone()).unwrap().next_attempt_at,
        7_000
    );
    s.settle_target(&target_id, TargetStatus::Published, 1, None);
    let post = get(&s, &post_id);
    assert!(queue_entry(post, post.targets[0].clone()).is_none());
}

#[test]
fn boot_recovery_requeues_a_post_that_never_reached_its_first_target() {
    let mut s = ledger();
    let (post_id, target_id) = scheduled_post(&mut s, 0);
    s.claim_due_posts(1_000, 10);
    s.apply(&post_id, Move::Take);
    assert!(s.reap_expired_claims(i64::MAX, 5_000).is_empty());
    assert_eq!(get(&s, &post_id).status, PostStatus::Publishing);

    assert!(s.apply(&post_id, Move::Requeue(5_000)));
    let post = get(&s, &post_id);
    assert_eq!(post.status, PostStatus::Due);
    let target = post.targets.iter().find(|t| t.id == target_id).unwrap();
    assert_eq!(target.status, TargetStatus::Pending);
    assert_eq!(target.next_attempt_at, Some(5_000));
}

#[test]
fn boot_recovery_leaves_a_post_with_a_live_target_alone() {
    let mut s = ledger();
    let id = schedule(&mut s, 0, &[Platform::X, Platform::Bluesky]);
    let live = get(&s, &id).targets[0].id.clone();
    s.claim_due_posts(1_000, 10);
    s.apply(&id, Move::Take);
    s.claim_target(&live, 1_000);

    assert!(
        !s.apply(&id, Move::Requeue(5_000)),
        "a post with a target still publishing must not be recycled"
    );
    assert_eq!(get(&s, &id).status, PostStatus::Publishing);
}

#[test]
fn boot_recovery_settles_a_post_whose_targets_all_finished() {
    let mut s = ledger();
    let (post_id, target_id) = scheduled_post(&mut s, 0);
    s.claim_due_posts(1_000, 10);
    s.apply(&post_id, Move::Take);
    s.settle_target(&target_id, TargetStatus::Published, 1, None);

    let post = get(&s, &post_id);
    assert_eq!(post.status, PostStatus::Publishing);
    assert_eq!(settle_status_from_targets(post), PostStatus::Published);
    assert!(s.apply(&post_id, Move::Settle(PostStatus::Published)));
    assert_eq!(get(&s, &post_id).status, PostStatus::Published);
    assert!(!s.apply(&post_id, Move::Settle(PostStatus::Failed)));
}

#[test]
fn the_whole_boot_pass_repairs_every_orphan_shape_in_one_go() {
    let mut s = ledger();
    let (leased_post, leased_target) = scheduled_post(&mut s, 0);
    let (stranded_post, _) = scheduled_post(&mut s, 0);
    let (finished_post, finished_target) = scheduled_post(&mut s, 0);

    s.claim_due_posts(1_000, 10);
    for id in [&leased_post, &stranded_post, &finished_post] {
        assert!(s.apply(id, Move::Take));
    }
    s.claim_target(&leased_target, 1_000);
    s.settle_target(&finished_target, TargetStatus::Failed, 3, None);

    let report = s.recover_orphaned_work(9_000, RECOVERY_SCAN_LIMIT);
    assert_eq!(report.reaped_targets, 1);
    assert_eq!(report.requeued_posts, 1);
    assert_eq!(report.settled_posts, 1);
    assert!(!report.is_empty());

    assert_eq!(get(&s, &leased_post).status, PostStatus::Due);
    assert_eq!(get(&s, &stranded_post).status, PostStatus::Due);
    assert_eq!(get(&s, &finished_post).status, PostStatus::Failed);

    assert!(s.recover_orphaned_work(9_000, RECOVERY_SCAN_LIMIT).is_empty());
}

const NOW: i64 = 1_000_000;

#[test]
fn a_tick_claims_due_work_and_leaves_it_recoverable_when_the_runner_declines() {
    let mut s = ledger();
    let (post_id, _) = scheduled_post(&mut s, 0);

    let work = s.tick(NOW, &TickPolicy::default(), 50);
    assert_eq!(work.claimed, vec![post_id.clone()]);
    assert_eq!(work.runnable.len(), 1);

    // Nobody runs it: it has left `scheduled`, and the next sweep finds it again.
    assert_ne!(get(&s, &post_id).status, PostStatus::Scheduled);
    assert!(!s.posts.is_empty());
    let again = s.tick(NOW, &TickPolicy::default(), 50);
    assert!(again.claimed.is_empty());
    assert_eq!(again.runnable[0].id, post_id);
}

#[test]
fn a_tick_with_every_workspace_disabled_leaves_posts_scheduled() {
    let mut s = ledger();
    let (post_id, _) = scheduled_post(&mut s, 0);
    let off = SocialSettings {
        scheduler_enabled: false,
        ..SocialSettings::default()
    };
    let policy = read_policy(Some(vec![(DEFAULT_WORKSPACE_ID.to_string(), Some(off))]));
    assert!(!policy.any_enabled());
    let work = s.tick(NOW, &policy, 50);
    assert!(work.claimed.is_empty() && work.runnable.is_empty());

    // Untouched, so switching it on again resumes it.
    assert_eq!(get(&s, &post_id).status, PostStatus::Scheduled);
}

#[test]
fn a_disabled_workspace_is_held_at_the_run_step_not_the_claim() {
    let mut s = ledger();
    let paused = SocialSettings {
        scheduler_enabled: false,
        ..SocialSettings::default()
    };
    let (held, _) = scheduled_post(&mut s, 0);
    s.posts[0].workspace_id = "ws_paused".into();
    // The default workspace stays enabled and has its own due post.
    let (live, _) = scheduled_post(&mut s, 0);

    let policy = read_policy(Some(vec![
        (DEFAULT_WORKSPACE_ID.to_string(), Some(SocialSettings::default())),
        ("ws_paused".to_string(), Some(paused)),
    ]));
    assert!(policy.any_enabled());
    assert!(policy.is_enabled(DEFAULT_WORKSPACE_ID));
    assert!(!policy.is_enabled("ws_paused"));

    let work = s.tick(NOW, &policy, 50);
    assert_eq!(work.held.iter().map(|d| d.id.as_str()).collect::<Vec<_>>(), vec![held.as_str()]);

    // Held, not published: it is due, and no leg of it was claimed.
    assert_eq!(get(&s, &held).status, PostStatus::Due);
    assert!(
        get(&s, &held).targets.iter().all(|t| t.status == TargetStatus::Pending),
        "a held post must not have had any target claimed"
    );

    // And the enabled workspace's post is handed to the runner.
    assert_ne!(get(&s, &live).status, PostStatus::Scheduled);
    assert_eq!(work.runnable.iter().map(|d| d.id.as_str()).collect::<Vec<_>>(), vec![live.as_str()]);
}

#[test]
fn a_reaped_post_is_in_line_in_the_same_sweep() {
    let mut s = ledger();
    let (late, _) = scheduled_post(&mut s, 900);
    let (dead, leg) = scheduled_post(&mut s, 500);
    s.claim_due_posts(900, 10);
    assert!(s.apply(&dead, Move::Take));
    assert!(s.claim_target(&leg, 1_000));
    let work = s.tick(NOW, &TickPolicy::default(), 50);
    assert_eq!(work.reaped, vec![leg]);
    let line: Vec<&str> = work.runnable.iter().map(|d| d.id.as_str()).collect();
    assert_eq!(line, vec![dead.as_str(), late.as_str()], "the earliest first");
    assert_eq!(s.list_due_posts(1).len(), 1);
    assert_eq!(s.list_due_posts(1)[0].id, dead);
}

#[test]
fn a_gone_account_is_sent_nothing_more() {
    let mut s = ledger();
    let id = schedule(&mut s, 0, &[Platform::X, Platform::Bluesky]);
    let running = schedule(&mut s, 0, &[Platform::X]);
    s.claim_due_posts(1_000, 10);
    s.apply(&running, Move::Take);
    s.claim_target(&get(&s, &running).targets[0].id.clone(), 1_000);
    s.abandon_account("acc_0");
    let status = |id: &str, i: usize| get(&s, id).targets[i].status;
    assert_eq!(status(&id, 0), TargetStatus::Cancelled);
    assert_eq!(status(&id, 1), TargetStatus::Pending);
    assert_eq!(status(&running, 0), TargetStatus::Publishing);
}

#[test]
fn a_retry_takes_the_failed_legs_and_leaves_the_published_ones() {
    let mut s = ledger();
    let id = schedule(&mut s, 0, &[Platform::X, Platform::Reddit]);
    s.claim_due_posts(1_000, 10);
    s.apply(&id, Move::Take);
    let (x, reddit) = ("tgt_0_0", "tgt_0_1");
    s.settle_target(x, TargetStatus::Published, 1, None);
    s.settle_target(reddit, TargetStatus::Failed, 3, None);
    assert!(!s.apply(&id, Move::Retry(5_000)));
    s.apply(&id, Move::Settle(PostStatus::Partial));
    let live = get(&s, &id).targets[0].clone();

    assert!(s.apply(&id, Move::Retry(5_000)));
    let post = get(&s, &id);
    assert_eq!(post.status, PostStatus::Due);
    assert_eq!(post.targets[0], live);
    assert_eq!(post.targets[1].status, TargetStatus::Pending);
    assert_eq!(post.targets[1].attempts, 0);
    assert_eq!(post.targets[1].next_attempt_at, Some(5_000));
    assert!(!s.apply(&id, Move::Retry(5_000)));
}

#[test]
fn a_post_is_moved_and_called_off_only_before_it_is_published() {
    let mut s = ledger();
    let (id, _) = scheduled_post(&mut s, 1_000);
    assert!(s.apply(&id, Move::Reschedule(2_000)));
    assert_eq!(get(&s, &id).scheduled_for, 2_000);
    assert!(s.apply(&id, Move::DueNow(500)));
    assert_eq!(get(&s, &id).status, PostStatus::Due);
    assert_eq!(get(&s, &id).scheduled_for, 500);
    assert!(!s.apply(&id, Move::Reschedule(9_000)));
    assert!(s.apply(&id, Move::Cancel));
    assert_eq!(get(&s, &id).status, PostStatus::Cancelled);
    assert_eq!(get(&s, &id).targets[0].status, TargetStatus::Cancelled);
    assert!(!s.apply(&id, Move::Take));

    let (other, _) = scheduled_post(&mut s, 1_000);
    s.claim_due_posts(1_000, 10);
    s.apply(&other, Move::Take);
    assert!(!s.apply(&other, Move::Cancel));
    assert!(!s.apply("nobody", Move::Cancel));
}

#[test]
fn a_local_failure_plans_no_further_attempt() {
    let mut s = ledger();
    let (id, target_id) = scheduled_post(&mut s, 0);
    s.claim_due_posts(1_000, 10);
    s.apply(&id, Move::Take);
    s.settle_target(&target_id, TargetStatus::Pending, 2, Some(9_000));
    s.claim_target(&target_id, 9_000);
    let end = fail_locally(&get(&s, &id).targets[0], "nothing to say".into());
    assert_eq!(end.outcome.attempts, 0);
    s.end_target(&target_id, &end);
    let leg = &get(&s, &id).targets[0];
    assert_eq!(leg.status, TargetStatus::Failed);
    assert_eq!(leg.attempts, 2);
    assert_eq!((leg.next_attempt_at, leg.claimed_at), (None, None));
}
