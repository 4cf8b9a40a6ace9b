use ryu_social::api::posts::{scheduled_post, NewTarget, PlannedPost, PostContent};
use ryu_social::ids::DEFAULT_WORKSPACE_ID;
use ryu_social::ledger::{Ledger, Move};
use ryu_social::platform::Platform;
use ryu_social::queue::{build, has_run, last_failure, list_queue, QueueView};
use ryu_social::records::{PostHistoryEntry, ScheduledPost, SocialAccount, SocialSettings};
use ryu_social::status::{HistoryStatus, PostStatus, TargetStatus};

fn account(platform: Platform, label: &str) -> SocialAccount {
    SocialAccount {
        id: "acc_1".into(),
        workspace_id: DEFAULT_WORKSPACE_ID.into(),
        platform,
        account_label: label.into(),
        external_id: None,
        connected: true,
        created_at: 0,
    }
}

/// Schedule a post for the account in the default workspace.
fn schedule(ledger: &mut Ledger, at: i64, platform: Platform) -> ScheduledPost {
    let plan = PlannedPost {
        workspace_id: DEFAULT_WORKSPACE_ID.into(),
        content: PostContent::Inline,
        scheduled_for: at,
        targets: vec![NewTarget {
            social_account_id: "acc_1".into(),
            platform,
            variant_body: None,
        }],
    };
    let post = scheduled_post(plan, None, 0);
    ledger.posts.push(post.clone());
    post
}

fn row(target: &str, status: HistoryStatus, error: Option<&str>, at: i64) -> PostHistoryEntry {
    PostHistoryEntry {
        id: "hist_1".into(),
        post_target_id: target.into(),
        status,
        remote_url: None,
        remote_id: None,
        error: error.map(str::to_string),
        published_at: Some(at),
    }
}

/// The queue of the default workspace at a moment; the history is in the order in which
/// it was written.
fn view(
    ledger: &Ledger,
    accounts: Vec<SocialAccount>,
    history: &[PostHistoryEntry],
    now: i64,
) -> QueueView {
    let entries = list_queue(ledger.posts.clone(), DEFAULT_WORKSPACE_ID, 50);
    let histories: Vec<Vec<PostHistoryEntry>> = entries
        .iter()
        .map(|e| {
            let mine = history.iter().rev().filter(|h| h.post_target_id == e.target.id);
            if has_run(e) {
                mine.cloned().collect()
            } else {
                vec![]
            }
        })
        .collect();
    let max_attempts = SocialSettings::default().max_attempts;
    build(entries, &accounts, &histories, max_attempts, now)
}

fn claim(ledger: &mut Ledger, post: &ScheduledPost) {
    ledger.claim_due_posts(1_000, 10);
    assert!(ledger.apply(&post.id, Move::Take));
    assert!(ledger.claim_target(&post.targets[0].id, 1_000));
}

#[test]
fn an_empty_queue_is_an_empty_view_not_an_error() {
    let view = view(&Ledger { posts: vec![] }, vec![], &[], 100);
    assert!(view.items.is_empty());
    assert_eq!(view.next_run_at, None);
    assert_eq!(view.in_flight, 0);
    assert_eq!(view.generated_at, 100);
}

#[test]
fn the_view_orders_by_when_each_target_actually_runs() {
    let mut s = Ledger { posts: vec![] };
    let later = schedule(&mut s, 50_000, Platform::Bluesky);
    let sooner = schedule(&mut s, 10_000, Platform::Bluesky);

    let view = view(&s, vec![account(Platform::Bluesky, "@handle")], &[], 0);
    assert_eq!(view.items.len(), 2);
    assert_eq!(view.items[0].entry.target.scheduled_post_id, sooner.id);
    assert_eq!(view.items[1].entry.target.scheduled_post_id, later.id);
    assert_eq!(view.next_run_at, Some(10_000));
    // Labels are resolved, not left to the client.
    assert_eq!(view.items[0].account_label.as_deref(), Some("@handle"));
    assert_eq!(view.items[0].platform_label, "Bluesky");
    assert_eq!(view.items[0].entry.post_status, PostStatus::Scheduled);
    // Never attempted: nothing to explain, and the full retry budget left.
    assert_eq!(view.items[0].last_error, None);
    assert_eq!(
        view.items[0].attempts_remaining,
        SocialSettings::default().max_attempts
    );
    assert_eq!(view.items[1].runs_in_ms, 50_000);
}

#[test]
fn a_retrying_target_carries_its_last_error_and_remaining_budget() {
    let mut s = Ledger { posts: vec![] };
    let post = schedule(&mut s, 0, Platform::X);
    let target = post.targets[0].id.clone();
    let before = 700;
    let history = [row(&target, HistoryStatus::Failed, Some("rate limited"), before)];
    s.settle_target(&target, TargetStatus::Pending, 1, Some(9_000));

    let shown = view(&s, vec![account(Platform::X, "@me")], &history, 0);
    let item = shown.items.iter().find(|i| i.entry.target.id == target).unwrap();
    assert_eq!(item.last_error.as_deref(), Some("rate limited"));
    assert!(item.last_attempt_at.is_some_and(|at| at >= before));
    assert_eq!(item.entry.next_attempt_at, 9_000);
    assert_eq!(item.attempts_remaining, 2);
    assert!(!item.in_flight);

    s.settle_target(&target, TargetStatus::Pending, 5, Some(9_000));
    let spent = view(&s, vec![], &history, 0);
    assert_eq!(spent.items[0].attempts_remaining, 0);
}

#[test]
fn a_recovered_target_does_not_keep_reporting_its_old_failure() {
    let mut s = Ledger { posts: vec![] };
    let post = schedule(&mut s, 0, Platform::X);
    let target = post.targets[0].id.clone();
    let before = 700;
    // Both rows carry the same moment: the one written last is the newest.
    let history = [
        row(&target, HistoryStatus::Failed, Some("transient"), before),
        row(&target, HistoryStatus::Published, None, before),
    ];
    s.settle_target(&target, TargetStatus::Pending, 2, Some(9_000));

    let view = view(&s, vec![account(Platform::X, "@me")], &history, 0);
    let item = view.items.iter().find(|i| i.entry.target.id == target).unwrap();
    assert_eq!(item.last_error, None);
    assert!(item.last_attempt_at.is_some_and(|at| at >= before));
    assert!(last_failure(&[]).is_none());
}

#[test]
fn an_in_flight_target_is_counted_and_flagged() {
    let mut s = Ledger { posts: vec![] };
    let post = schedule(&mut s, 0, Platform::X);
    claim(&mut s, &post);

    let view = view(&s, vec![account(Platform::X, "@me")], &[], 0);
    assert_eq!(view.in_flight, 1);
    assert!(view.items[0].in_flight);
}

#[test]
fn a_target_whose_account_was_deleted_still_renders() {
    let mut s = Ledger { posts: vec![] };
    let post = schedule(&mut s, 0, Platform::Linkedin);
    let waiting = schedule(&mut s, 90_000, Platform::Linkedin);
    claim(&mut s, &post);
    s.abandon_account("acc_1");

    // The leg that waited is called off; the one in flight is left alone.
    let view = view(&s, vec![], &[], 0);
    assert_eq!(view.items.len(), 1);
    assert_eq!(view.items[0].account_label, None);
    assert_eq!(view.items[0].platform_label, "LinkedIn");
    assert_eq!(view.items[0].entry.target.id, post.targets[0].id);
    let called_off = s.posts.iter().find(|p| p.id == waiting.id).unwrap();
    assert_eq!(called_off.targets[0].status, TargetStatus::Cancelled);
}

#[test]
fn an_overdue_target_reports_a_negative_countdown_rather_than_zero() {
    let mut s = Ledger { posts: vec![] };
    schedule(&mut s, 1_000, Platform::X);
    let view = view(&s, vec![account(Platform::X, "@me")], &[], 61_000);
    assert!(
        view.items[0].runs_in_ms < 0,
        "an overdue row must stay visibly overdue, not clamp to now"
    );
    assert_eq!(view.items[0].runs_in_ms, -60_000);
}

#[test]
fn the_queue_is_of_one_workspace_and_no_longer_than_asked() {
    let mut s = Ledger { posts: vec![] };
    for at in [30, 10, 20] {
        schedule(&mut s, at, Platform::X);
    }
    let mut other = schedule(&mut s, 5, Platform::X);
    other.workspace_id = "ws_2".into();
    s.posts[3] = other;
    assert!(s.apply(&s.posts[2].id.clone(), Move::Cancel));
    let times = |limit: usize| -> Vec<i64> {
        list_queue(s.posts.clone(), DEFAULT_WORKSPACE_ID, limit)
            .iter()
            .map(|e| e.next_attempt_at)
            .collect()
    };
    assert_eq!(times(50), vec![10, 30]);
    assert_eq!(times(1), vec![10]);
    assert_eq!(list_queue(s.posts.clone(), "ws_2", 50).len(), 1);
    assert!(list_queue(s.posts.clone(), "ws_3", 50).is_empty());
}

#[test]
fn a_new_post_waits_with_every_leg() {
    let mut s = Ledger { posts: vec![] };
    let post = schedule(&mut s, 7, Platform::Threads);
    assert!(post.id.starts_with("sp_") && post.id.len() == 3 + 32);
    assert_eq!(post.status, PostStatus::Scheduled);
    let leg = &post.targets[0];
    assert!(leg.id.starts_with("tgt_"));
    assert_eq!(leg.scheduled_post_id, post.id);
    assert_eq!((leg.status, leg.attempts), (TargetStatus::Pending, 0));
    assert_eq!((leg.next_attempt_at, leg.claimed_at), (None, None));
}
