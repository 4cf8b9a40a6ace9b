use chrono::{Datelike, NaiveDate, TimeZone};
use ryu_social::ids::DEFAULT_WORKSPACE_ID;
use ryu_social::platform::Platform;
use ryu_social::publish::MAX_ATTEMPTS_CEILING;
use ryu_social::records::{ActivityItem, PostTarget, ScheduledPost, SocialSettings};
use ryu_social::scheduler::batch::{Batch, BatchStep};
use ryu_social::scheduler::timing::{
    best_times, choose_buckets, lift_pct, next_occurrence, recommend_slots, sample_from_activity,
    SlotKey, TimingBasis, TimingSample, DEFAULT_SLOTS, MAX_SLOTS,
};
use ryu_social::scheduler::zone::{local_instant, local_weekday_hour, zone_for, Zone};
use ryu_social::scheduler::{
    effective_lease_ms, merge_policy, plan_tick, read_policy, recover_post, recovery_cutoff,
    settle_status_from_targets, split_due, worst_case_publish_ms, DuePost, Recovery,
    RecoveryReport, TickPolicy, LEASE_MARGIN_MS, MAX_CONCURRENT_POSTS, MAX_POLL_SECS,
    MIN_POLL_SECS, PER_ATTEMPT_ALLOWANCE_MS,
};
use ryu_social::status::{PostStatus, TargetStatus};
use std::time::Duration;

fn poll_interval(policy: &TickPolicy) -> Duration {
    Duration::from_millis(policy.poll_interval_ms)
}

fn lease(policy: &TickPolicy) -> Duration {
    Duration::from_millis(policy.lease_ms)
}

#[test]
fn the_lease_is_widened_to_cover_the_configured_retry_policy() {
    let defaults = SocialSettings::default();
    assert_eq!(effective_lease_ms(&defaults), defaults.claim_lease_secs * 1_000);

    let greedy = SocialSettings {
        max_attempts: 10,
        base_backoff_ms: 10_000,
        claim_lease_secs: 300,
        ..SocialSettings::default()
    };
    let required = worst_case_publish_ms(10, 10_000) + LEASE_MARGIN_MS;
    assert!(
        required > 300 * 1_000,
        "this policy must genuinely exceed the configured lease for the test to bite"
    );
    assert_eq!(effective_lease_ms(&greedy), required);
}

#[test]
fn a_lease_stays_within_its_word() {
    let wild = SocialSettings {
        max_attempts: MAX_ATTEMPTS_CEILING,
        base_backoff_ms: u64::MAX,
        claim_lease_secs: u64::MAX,
        ..SocialSettings::default()
    };
    assert_eq!(effective_lease_ms(&wild), u64::MAX);
}

#[test]
fn worst_case_counts_one_fewer_sleep_than_attempts() {
    assert_eq!(
        worst_case_publish_ms(3, 1_000),
        1_000 + 2_000 + 3 * PER_ATTEMPT_ALLOWANCE_MS
    );
    assert_eq!(worst_case_publish_ms(1, 1_000), PER_ATTEMPT_ALLOWANCE_MS);
    assert_eq!(worst_case_publish_ms(0, 1_000), 0);
}

#[test]
fn policy_takes_the_shortest_cadence_and_the_longest_lease() {
    let fast = SocialSettings {
        poll_interval_secs: 10,
        ..SocialSettings::default()
    };
    let slow_but_patient = SocialSettings {
        poll_interval_secs: 600,
        claim_lease_secs: 3_600,
        ..SocialSettings::default()
    };
    let policy = merge_policy(&[("a".into(), fast), ("b".into(), slow_but_patient)]);
    assert_eq!(poll_interval(&policy), Duration::from_secs(10));
    assert_eq!(lease(&policy), Duration::from_secs(3_600));
    assert!(policy.is_enabled("a") && policy.is_enabled("b"));
}

#[test]
fn a_disabled_workspace_neither_drags_the_cadence_nor_loses_its_lease() {
    let off = SocialSettings {
        scheduler_enabled: false,
        poll_interval_secs: 5,
        claim_lease_secs: 7_200,
        ..SocialSettings::default()
    };
    let on = SocialSettings {
        poll_interval_secs: 120,
        ..SocialSettings::default()
    };
    let policy = merge_policy(&[("off".into(), off), ("on".into(), on)]);
    assert_eq!(poll_interval(&policy), Duration::from_secs(120));
    assert_eq!(lease(&policy), Duration::from_secs(7_200));
    assert!(!policy.is_enabled("off"));
    assert!(policy.any_enabled());

    let all_off = merge_policy(&[(
        "off".into(),
        SocialSettings {
            scheduler_enabled: false,
            ..SocialSettings::default()
        },
    )]);
    assert!(!all_off.any_enabled());
}

#[test]
fn a_pathological_cadence_is_clamped_rather_than_honoured() {
    let busy = merge_policy(&[(
        "a".into(),
        SocialSettings {
            poll_interval_secs: 0,
            ..SocialSettings::default()
        },
    )]);
    assert_eq!(poll_interval(&busy), Duration::from_secs(MIN_POLL_SECS));
    assert_eq!(poll_interval(&busy), Duration::from_secs(5));
    let glacial = merge_policy(&[(
        "a".into(),
        SocialSettings {
            poll_interval_secs: 86_400,
            ..SocialSettings::default()
        },
    )]);
    assert_eq!(poll_interval(&glacial), Duration::from_secs(MAX_POLL_SECS));
    assert_eq!(poll_interval(&glacial), Duration::from_secs(15 * 60));
}

#[test]
fn what_cannot_be_read_falls_back_to_the_defaults() {
    let standard = read_policy(None);
    assert_eq!(poll_interval(&standard), Duration::from_secs(30));
    assert_eq!(lease(&standard), Duration::from_secs(300));
    assert!(standard.is_enabled(DEFAULT_WORKSPACE_ID));
    let one = read_policy(Some(vec![("a".to_string(), None)]));
    assert!(one.is_enabled("a"));
    assert_eq!(one.poll_interval_ms, 30_000);
    let none = read_policy(Some(vec![]));
    assert!(!none.any_enabled());
    assert_eq!((none.poll_interval_ms, none.lease_ms), (30_000, 300_000));
}

fn post(id: &str, workspace: &str, statuses: &[TargetStatus]) -> ScheduledPost {
    ScheduledPost {
        id: id.into(),
        workspace_id: workspace.into(),
        draft_id: None,
        scheduled_for: 0,
        status: PostStatus::Publishing,
        created_at: 0,
        targets: statuses
            .iter()
            .map(|s| PostTarget {
                id: "tgt".into(),
                scheduled_post_id: id.into(),
                social_account_id: "acc".into(),
                platform: Platform::X,
                variant_body: None,
                status: *s,
                attempts: 0,
                next_attempt_at: None,
                claimed_at: None,
            })
            .collect(),
    }
}

#[test]
fn a_sweep_is_planned_by_one_reading_of_the_clock() {
    let policy = merge_policy(&[
        (
            "off".to_string(),
            SocialSettings {
                scheduler_enabled: false,
                ..SocialSettings::default()
            },
        ),
        ("on".to_string(), SocialSettings::default()),
    ]);
    let plan = plan_tick(1_000_000, &policy);
    assert!(plan.claims);
    assert_eq!(plan.cutoff, 700_000);
    let due = |id: &str, workspace: &str| DuePost {
        id: id.into(),
        workspace_id: workspace.into(),
        scheduled_for: 0,
    };
    let line = vec![due("a", "off"), due("b", "on"), due("c", "off")];
    let (runnable, held) = split_due(line, &policy);
    assert_eq!(runnable, vec![due("b", "on")]);
    assert_eq!(held, vec![due("a", "off"), due("c", "off")]);
    let forever = TickPolicy {
        poll_interval_ms: 30_000,
        lease_ms: u64::MAX,
        enabled_workspaces: vec![],
    };
    assert_eq!(plan_tick(0, &forever).cutoff, i64::MIN);
    assert!(!plan_tick(0, &forever).claims);
}

#[test]
fn a_stranded_post_is_judged_by_its_targets() {
    let untouched = post("a", "ws", &[TargetStatus::Pending, TargetStatus::Published]);
    let finished = post("b", "ws", &[TargetStatus::Published, TargetStatus::Published]);
    let mixed = post("c", "ws", &[TargetStatus::Published, TargetStatus::Failed]);
    let empty = post("d", "ws", &[]);
    assert_eq!(recover_post(&untouched), Recovery::Requeue);
    assert_eq!(recover_post(&finished), Recovery::Settle(PostStatus::Published));
    assert_eq!(recover_post(&mixed), Recovery::Settle(PostStatus::Partial));
    assert_eq!(recover_post(&empty), Recovery::Settle(PostStatus::Failed));
    assert_eq!(settle_status_from_targets(&mixed), PostStatus::Partial);

    let mut report = RecoveryReport::default();
    assert!(report.is_empty());
    report.record(Recovery::Requeue, true);
    report.record(Recovery::Settle(PostStatus::Published), true);
    report.record(Recovery::Settle(PostStatus::Published), false);
    assert_eq!((report.requeued_posts, report.settled_posts), (1, 1));
    assert!(!report.is_empty());
    assert_eq!(recovery_cutoff(41), 42);
    assert_eq!(recovery_cutoff(i64::MAX), i64::MAX);
}

// ── Timing ─────────────────────────────────────────────────────────────────────

/// 2026-08-10 is a Monday.
const MON_2026_08_10_UTC: i64 = 1_786_320_000_000;

fn utc() -> Zone {
    zone_for("UTC")
}

fn sample(offset_days: i64, hour: i64, engagement: u64) -> TimingSample {
    TimingSample {
        published_at: MON_2026_08_10_UTC + offset_days * 86_400_000 + hour * 3_600_000,
        engagement,
    }
}

#[test]
fn the_fixture_monday_really_is_a_monday() {
    assert_eq!(local_weekday_hour(&utc(), MON_2026_08_10_UTC), Some((1, 0)));
}

#[test]
fn too_little_history_returns_the_documented_defaults_and_says_so() {
    let thin = vec![sample(0, 9, 100), sample(1, 9, 100), sample(2, 9, 100)];
    let rec = recommend_slots(&thin, &utc(), MON_2026_08_10_UTC);
    assert_eq!(rec.basis, TimingBasis::Defaults);
    assert_eq!(rec.sample_size, 3);
    assert_eq!(rec.slots.len(), MAX_SLOTS);
    assert_eq!(
        rec.slots
            .iter()
            .map(|s| (s.day_of_week.unwrap(), s.hour))
            .collect::<Vec<_>>(),
        DEFAULT_SLOTS.to_vec()
    );
    assert!(rec.slots.iter().all(|s| s.lift_pct.is_none()));
    assert!(rec.slots.iter().all(|s| s.next_occurrence > MON_2026_08_10_UTC));

    let empty = recommend_slots(&[], &utc(), MON_2026_08_10_UTC);
    assert_eq!(empty.basis, TimingBasis::Defaults);
    assert_eq!(empty.sample_size, 0);

    let undated = recommend_slots(
        &[TimingSample {
            published_at: 0,
            engagement: 999,
        }],
        &utc(),
        MON_2026_08_10_UTC,
    );
    assert_eq!(undated.basis, TimingBasis::Defaults);
}

#[test]
fn repeated_weekday_hours_are_ranked_by_engagement_with_an_honest_lift() {
    let samples = vec![
        sample(1, 18, 100),
        sample(8, 18, 140),
        sample(0, 9, 10),
        sample(7, 9, 10),
    ];
    let rec = recommend_slots(&samples, &utc(), MON_2026_08_10_UTC);
    assert_eq!(rec.basis, TimingBasis::WeekdayHour);
    assert_eq!(rec.sample_size, 4);
    assert_eq!(rec.slots[0].day_of_week, Some(2));
    assert_eq!(rec.slots[0].hour, 18);
    assert_eq!(rec.slots[0].sample_size, 2);
    assert_eq!(rec.slots[0].lift_pct, Some(85));
    assert_eq!(rec.slots[1].day_of_week, Some(1));
    assert!(rec.slots[1].lift_pct.unwrap() < 0);
    assert_eq!(rec.slots[1].lift_pct, Some(-85));
}

#[test]
fn hours_pool_across_weekdays_when_no_single_weekday_repeats() {
    let samples = vec![
        sample(0, 20, 50),
        sample(1, 20, 70),
        sample(2, 20, 60),
        sample(3, 8, 5),
    ];
    let rec = recommend_slots(&samples, &utc(), MON_2026_08_10_UTC);
    assert_eq!(rec.basis, TimingBasis::HourOfDay);
    assert_eq!(rec.slots[0].hour, 20);
    assert!(rec.slots[0].day_of_week.is_none());
    assert_eq!(rec.slots[0].sample_size, 3);
    let lonely = rec.slots.iter().find(|s| s.hour == 8).unwrap();
    assert_eq!(lonely.lift_pct, None);
}

#[test]
fn a_zero_engagement_history_reports_no_lift_rather_than_a_meaningless_percent() {
    let samples = vec![
        sample(1, 18, 0),
        sample(8, 18, 0),
        sample(0, 9, 0),
        sample(7, 9, 0),
    ];
    let rec = recommend_slots(&samples, &utc(), MON_2026_08_10_UTC);
    assert_eq!(rec.basis, TimingBasis::WeekdayHour);
    assert!(rec.slots.iter().all(|s| s.lift_pct.is_none()));
    // Equal means stand in the order of the week.
    assert_eq!((rec.slots[0].day_of_week, rec.slots[0].hour), (Some(1), 9));
}

#[test]
fn slots_are_bucketed_in_the_workspace_zone_not_utc() {
    let tz = zone_for("Asia/Tokyo");
    assert_eq!(
        local_weekday_hour(&tz, MON_2026_08_10_UTC + 22 * 3_600_000),
        Some((2, 7))
    );
    let rec = recommend_slots(
        &[
            sample(0, 22, 10),
            sample(7, 22, 10),
            sample(1, 22, 1),
            sample(8, 22, 1),
        ],
        &tz,
        MON_2026_08_10_UTC,
    );
    assert_eq!(rec.timezone, "Asia/Tokyo");
    assert_eq!(rec.slots[0].day_of_week, Some(2));
    assert_eq!(rec.slots[0].hour, 7);
}

#[test]
fn an_unknown_timezone_degrades_to_utc_instead_of_failing() {
    assert_eq!(zone_for("Middle/Earth").name, "UTC");
    assert_eq!(zone_for("  Europe/Berlin  ").name, "Europe/Berlin");
    assert_eq!(zone_for("").name, "UTC");
}

#[test]
fn next_occurrence_lands_on_the_right_local_weekday_and_hour() {
    let tz = utc();
    let at = next_occurrence(&tz, MON_2026_08_10_UTC, Some(2), 11);
    assert_eq!(at, MON_2026_08_10_UTC + 35 * 3_600_000);
    assert_eq!(local_weekday_hour(&tz, at), Some((2, 11)));

    let noon_monday = MON_2026_08_10_UTC + 12 * 3_600_000;
    let next_monday_nine = next_occurrence(&tz, noon_monday, Some(1), 9);
    assert!(next_monday_nine > noon_monday);
    assert_eq!(local_weekday_hour(&tz, next_monday_nine), Some((1, 9)));
    assert_eq!(
        next_monday_nine,
        MON_2026_08_10_UTC + 7 * 86_400_000 + 9 * 3_600_000
    );

    let any_day = next_occurrence(&tz, noon_monday, None, 20);
    assert_eq!(any_day, MON_2026_08_10_UTC + 20 * 3_600_000);
    // No such hour, no such instant: nothing is found.
    assert_eq!(next_occurrence(&tz, noon_monday, None, 24), noon_monday);
    assert_eq!(next_occurrence(&tz, i64::MAX, None, 3), i64::MAX);
}

#[test]
fn next_occurrence_holds_the_wall_clock_hour_across_a_dst_boundary() {
    let tz = zone_for("America/New_York");
    let before = chrono_tz::America::New_York
        .with_ymd_and_hms(2026, 10, 29, 20, 0, 0)
        .single()
        .unwrap()
        .timestamp_millis();
    let at = next_occurrence(&tz, before, Some(4), 18);
    assert_eq!(local_weekday_hour(&tz, at), Some((4, 18)));
    let elapsed_hours = (at - before) / 3_600_000;
    assert_eq!(elapsed_hours, 6 * 24 + 22 + 1);
}

#[test]
fn a_slot_inside_a_spring_forward_gap_is_nudged_to_the_next_real_hour() {
    let tz = zone_for("America/New_York");
    let gap_day = NaiveDate::from_ymd_opt(2026, 3, 8).unwrap();
    assert!(chrono_tz::America::New_York
        .from_local_datetime(&gap_day.and_hms_opt(2, 0, 0).unwrap())
        .earliest()
        .is_none());
    let at = local_instant(&tz, gap_day.num_days_from_ce(), 2)
        .expect("the gap must nudge, not vanish");
    assert_eq!(local_weekday_hour(&tz, at), Some((7, 3)));
}

#[test]
fn the_earlier_of_two_equal_hours_is_taken() {
    // On 2026-11-01 the hour from 01:00 comes twice in New York.
    let tz = zone_for("America/New_York");
    let day = NaiveDate::from_ymd_opt(2026, 11, 1).unwrap().num_days_from_ce();
    let one = local_instant(&tz, day, 1).unwrap();
    let two = local_instant(&tz, day, 2).unwrap();
    assert_eq!(two - one, 2 * 3_600_000);
    assert_eq!(local_weekday_hour(&tz, one + 3_600_000), Some((7, 1)));
}

#[test]
fn the_store_backed_recommender_degrades_to_defaults_on_an_empty_workspace() {
    let rec = best_times(&[], None, &SocialSettings::default().timezone, MON_2026_08_10_UTC);
    assert_eq!(rec.basis, TimingBasis::Defaults);
    assert_eq!(rec.sample_size, 0);
    assert_eq!(rec.timezone, "UTC");
}

fn activity() -> ActivityItem {
    ActivityItem {
        id: "act_1".into(),
        workspace_id: DEFAULT_WORKSPACE_ID.into(),
        social_account_id: "acc_1".into(),
        platform: Platform::X,
        post_remote_id: "remote-1".into(),
        permalink: None,
        text: None,
        likes: 4,
        comments: 3,
        shares: 2,
        views: 10_000,
        engagement_fetched_at: Some(1),
        published_at: None,
    }
}

#[test]
fn an_activity_row_with_no_publish_time_is_not_a_timing_sample() {
    let mut item = activity();
    assert!(sample_from_activity(&item).is_none());
    item.published_at = Some(MON_2026_08_10_UTC);
    assert_eq!(sample_from_activity(&item).unwrap().engagement, 9);
}

#[test]
fn one_platforms_history_is_its_own() {
    let mut x = activity();
    x.published_at = Some(MON_2026_08_10_UTC);
    let mut b = x.clone();
    b.platform = Platform::Bluesky;
    let items = vec![x.clone(), b.clone(), x.clone(), b.clone(), x.clone(), b, x];
    let all = best_times(&items, None, "UTC", MON_2026_08_10_UTC);
    assert_eq!(all.sample_size, 7);
    let only = best_times(&items, Some(Platform::Bluesky), "UTC", MON_2026_08_10_UTC);
    assert_eq!(only.sample_size, 3);
    assert_eq!(only.basis, TimingBasis::Defaults);
    assert_eq!(all.basis, TimingBasis::WeekdayHour);
    assert_eq!(all.slots[0].lift_pct, Some(0));
}

#[test]
fn the_best_repeated_slots_come_first() {
    let at = |day: u8, hour: u8| SlotKey { day: Some(day), hour };
    let by_day = vec![(at(1, 9), 10), (at(2, 9), 50), (at(1, 9), 20), (at(3, 9), 15), (at(3, 9), 15)];
    let (basis, best) = choose_buckets(&by_day, &vec![]);
    assert_eq!(basis, TimingBasis::WeekdayHour);
    let keys: Vec<SlotKey> = best.iter().map(|b| b.key).collect();
    assert_eq!(keys, vec![at(1, 9), at(3, 9)], "a lone post proves nothing; equals stand in order");
    let hour = |h: u8| SlotKey { day: None, hour: h };
    let by_hour = vec![(hour(1), 1), (hour(2), 4), (hour(3), 2), (hour(4), 3)];
    let (basis, best) = choose_buckets(&vec![(at(1, 1), 1)], &by_hour);
    assert_eq!(basis, TimingBasis::HourOfDay);
    let keys: Vec<SlotKey> = best.iter().map(|b| b.key).collect();
    assert_eq!(keys, vec![hour(2), hour(4), hour(3)]);
}

#[test]
fn a_lift_is_a_rounded_percentage_of_the_average() {
    assert_eq!(lift_pct(30, 2, 40, 4), Some(50));
    assert_eq!(lift_pct(10, 2, 40, 4), Some(-50));
    assert_eq!(lift_pct(201, 2, 400, 4), Some(1), "half a percent goes up");
    assert_eq!(lift_pct(10, 1, 40, 4), None);
    assert_eq!(lift_pct(0, 2, 0, 4), None);
    assert_eq!(lift_pct(u64::MAX, 2, 1, 3), Some(i64::MAX));
}

#[test]
fn a_batch_runs_so_many_posts_at_a_time() {
    let mut batch = Batch::start(6, MAX_CONCURRENT_POSTS);
    for at in 0..4 {
        assert_eq!(batch.step(), BatchStep::Run(at));
    }
    assert_eq!(batch.step(), BatchStep::Wait);
    batch.joined();
    assert_eq!(batch.step(), BatchStep::Run(4));
    assert_eq!(batch.step(), BatchStep::Wait);
    batch.joined();
    batch.joined();
    assert_eq!(batch.step(), BatchStep::Run(5));
    for _ in 0..3 {
        assert_eq!(batch.step(), BatchStep::Wait);
        batch.joined();
    }
    assert_eq!(batch.step(), BatchStep::Over);

    let mut narrow = Batch::start(1, 0);
    assert_eq!(narrow.step(), BatchStep::Run(0));
    assert_eq!(Batch::start(0, 4).step(), BatchStep::Over);
}
