use ryu_social::clock::{local_hour, local_parts};
use ryu_social::platform::Platform;
use ryu_social::settings::{
    poll_turn, refresh_turn, CredentialEnv, CredentialSource, NodeSettings, NodeSettingsPatch,
    QuietHours, Turn,
};

#[test]
fn node_settings_round_trip_and_default_on_an_unwritten_blob() {
    let env = CredentialEnv::empty();
    let fresh = NodeSettings::loaded(None);
    assert!(fresh == NodeSettings::default());
    assert_eq!(fresh.inbox_poll_interval_secs, 600);

    let (stored, view) = NodeSettings::patch(
        None,
        NodeSettingsPatch {
            composio_api_key: Some("  sk-live-123  ".into()),
            inbox_poll_interval_secs: Some(5),
            default_platforms: Some(vec![Platform::X, Platform::X, Platform::Bluesky]),
            ..Default::default()
        },
        &env,
    );
    assert_eq!(view.inbox_poll_interval_secs, 60);
    assert_eq!(view.default_platforms, vec![Platform::X, Platform::Bluesky]);
    assert!(view.composio_api_key_set);
    assert_eq!(view.composio_api_key_source, CredentialSource::Stored);
    assert_eq!(stored.composio_api_key.as_deref(), Some("sk-live-123"));
}

#[test]
fn a_partial_patch_leaves_every_other_field_alone() {
    let env = CredentialEnv::empty();
    let (stored, _) = NodeSettings::patch(
        None,
        NodeSettingsPatch {
            composio_api_key: Some("key".into()),
            bluesky_handle: Some("@me.bsky.social".into()),
            ..Default::default()
        },
        &env,
    );
    let (stored, view) = NodeSettings::patch(
        Some(stored),
        NodeSettingsPatch {
            utc_offset_minutes: Some(-480),
            ..Default::default()
        },
        &env,
    );
    assert!(view.composio_api_key_set);
    assert_eq!(view.bluesky_handle.as_deref(), Some("@me.bsky.social"));
    assert_eq!(view.utc_offset_minutes, -480);

    let (_, cleared) = NodeSettings::patch(
        Some(stored),
        NodeSettingsPatch {
            composio_api_key: Some(String::new()),
            ..Default::default()
        },
        &env,
    );
    assert!(!cleared.composio_api_key_set);
    assert_eq!(cleared.composio_api_key_source, CredentialSource::Unset);
}

#[test]
fn the_redacted_view_and_the_debug_impl_carry_no_secret() {
    let settings = NodeSettings {
        composio_api_key: Some("sk-super-secret".into()),
        bluesky_app_password: Some("abcd-efgh-ijkl-mnop".into()),
        bluesky_handle: Some("me.bsky.social".into()),
        ..Default::default()
    };
    let view = settings.redacted(&CredentialEnv::empty());
    let shown = format!("{view:?}");
    assert!(!shown.contains("sk-super-secret"), "{shown}");
    assert!(!shown.contains("abcd-efgh"), "{shown}");
    // The public handle is shown: it is an identifier, not a credential.
    assert!(shown.contains("me.bsky.social"));
    assert!(view.composio_api_key_set);

    let debugged = format!("{:?}", settings.logged());
    assert!(!debugged.contains("sk-super-secret"), "{debugged}");
    assert!(!debugged.contains("abcd-efgh"), "{debugged}");
    assert!(debugged.contains("composio_api_key: \"<set>\""), "{debugged}");
    assert!(debugged.contains("threads_access_token: \"<unset>\""), "{debugged}");
}

#[test]
fn a_logged_patch_shows_what_it_does_to_a_secret_and_not_the_secret() {
    let patch = NodeSettingsPatch {
        composio_api_key: Some("sk-super-secret".into()),
        bluesky_app_password: Some("  ".into()),
        default_platforms: Some(vec![Platform::X]),
        ..Default::default()
    };
    let logged = patch.logged();
    assert_eq!(logged.composio_api_key, "<set>");
    assert_eq!(logged.bluesky_app_password, "<clear>");
    assert_eq!(logged.threads_access_token, "<absent>");
    assert_eq!(logged.default_platforms, Some(vec![Platform::X]));
    assert!(!format!("{logged:?}").contains("sk-super-secret"));
}

#[test]
fn the_environment_goes_before_what_is_stored() {
    let settings = NodeSettings {
        composio_api_key: Some("stored".into()),
        ..Default::default()
    };
    let env = CredentialEnv {
        composio_api_key: Some(" from-env ".into()),
        ..CredentialEnv::empty()
    };
    assert_eq!(settings.composio_api_key(&env).as_deref(), Some("from-env"));
    assert_eq!(
        settings.redacted(&env).composio_api_key_source,
        CredentialSource::Env
    );
    assert_eq!(
        settings.composio_api_key(&CredentialEnv::empty()).as_deref(),
        Some("stored")
    );
}

#[test]
fn bluesky_credentials_need_both_halves() {
    let env = CredentialEnv::empty();
    let mut settings = NodeSettings {
        bluesky_handle: Some("@me.bsky.social".into()),
        ..Default::default()
    };
    assert!(settings.bluesky_credentials(&env).is_none());
    settings.bluesky_app_password = Some("pw".into());
    let (handle, password) = settings.bluesky_credentials(&env).unwrap();
    assert_eq!(handle, "me.bsky.social");
    assert_eq!(password, "pw");
}

#[test]
fn quiet_hours_wrap_across_midnight_and_an_empty_window_never_matches() {
    let night = QuietHours {
        enabled: true,
        start_hour: 22,
        end_hour: 7,
    };
    assert!(night.contains_hour(23));
    assert!(night.contains_hour(0));
    assert!(night.contains_hour(6));
    assert!(!night.contains_hour(7));
    assert!(!night.contains_hour(12));

    let daytime = QuietHours {
        enabled: true,
        start_hour: 9,
        end_hour: 17,
    };
    assert!(daytime.contains_hour(9));
    assert!(!daytime.contains_hour(17));
    assert!(!daytime.contains_hour(3));

    assert!(!QuietHours {
        enabled: false,
        ..night
    }
    .contains_hour(23));
    assert!(!QuietHours {
        enabled: true,
        start_hour: 5,
        end_hour: 5,
    }
    .contains_hour(5));
}

#[test]
fn local_hour_applies_the_offset() {
    let noon_utc = 12 * 3_600 * 1_000;
    assert_eq!(local_hour(noon_utc, 0), 12);
    assert_eq!(local_hour(noon_utc, -480), 4);
    assert_eq!(local_hour(noon_utc, 60), 13);
}

#[test]
fn an_instant_has_a_day_a_weekday_and_an_hour() {
    // 1970-01-01 was a Thursday.
    let p = local_parts(0, 0).unwrap();
    assert_eq!((p.ce_day, p.weekday, p.hour), (719_163, 3, 0));
    let p = local_parts(0, -1).unwrap();
    assert_eq!((p.ce_day, p.weekday, p.hour), (719_162, 2, 23));
    assert!(local_parts(i64::MAX, 0).is_none());
    assert_eq!(local_hour(i64::MIN, 0), 0);
    let last = local_parts(8_210_266_876_799_999, 0).unwrap();
    assert_eq!((last.ce_day, last.hour), (95_745_399, 23));
    assert!(local_parts(8_210_266_876_799_999, 1).is_none());
    let first = local_parts(-8_334_601_228_800_000, 0).unwrap();
    assert_eq!((first.ce_day, first.hour), (-95_746_129, 0));
    assert!(local_parts(-8_334_601_228_800_001, 0).is_none());
    assert!(local_parts(-8_334_601_228_800_000, -1).is_none());
}

#[test]
fn threads_credentials_need_both_halves() {
    let env = CredentialEnv {
        threads_user_id: Some(" 17 ".into()),
        ..CredentialEnv::empty()
    };
    let mut settings = NodeSettings::default();
    assert_eq!(settings.threads_credentials(&env), None);
    settings.threads_access_token = Some("tok\n".into());
    assert_eq!(
        settings.threads_credentials(&env),
        Some(("tok".to_string(), "17".to_string()))
    );
    assert_eq!(settings.threads_credentials(&CredentialEnv::empty()), None);
}

#[test]
fn quiet_hours_are_local() {
    let settings = NodeSettings {
        utc_offset_minutes: 60,
        quiet_hours: QuietHours {
            enabled: true,
            start_hour: 22,
            end_hour: 7,
        },
        ..Default::default()
    };
    let hour = 3_600_000;
    assert!(settings.in_quiet_hours(21 * hour), "22 o'clock an hour east of UTC");
    assert!(settings.in_quiet_hours(5 * hour + hour - 1));
    assert!(!settings.in_quiet_hours(6 * hour));
    assert!(!settings.in_quiet_hours(20 * hour));
}

#[test]
fn periods_have_a_floor() {
    let mut settings = NodeSettings::default();
    assert_eq!(settings.inbox_poll_period(), 600);
    assert_eq!(settings.engagement_refresh_period(), 21_600);
    settings.inbox_poll_interval_secs = 5;
    settings.engagement_refresh_interval_secs = 0;
    assert_eq!(settings.inbox_poll_period(), 60);
    assert_eq!(settings.engagement_refresh_period(), 300);
}

#[test]
fn a_patch_applied_twice_does_what_it_does_once() {
    let patch = || NodeSettingsPatch {
        engagement_refresh_batch: Some(0),
        engagement_refresh_interval_secs: Some(1_000_000),
        utc_offset_minutes: Some(-900),
        quiet_hours_enabled: Some(true),
        quiet_hours_start: Some(99),
        quiet_hours_end: Some(3),
        default_workspace_id: Some(" ws_1 ".into()),
        ..Default::default()
    };
    let mut once = NodeSettings::default();
    once.apply(patch());
    assert_eq!(once.engagement_refresh_batch, 1);
    assert_eq!(once.engagement_refresh_interval_secs, 604_800);
    assert_eq!(once.utc_offset_minutes, -840);
    assert_eq!(once.quiet_hours.start_hour, 23);
    assert_eq!(once.quiet_hours.end_hour, 3);
    assert_eq!(once.default_workspace_id, "ws_1");
    let mut twice = NodeSettings::default();
    twice.apply(patch());
    twice.apply(patch());
    assert!(once == twice);
}

#[test]
fn nothing_goes_out_in_the_quiet_hours() {
    let hour = 3_600_000;
    let mut settings = NodeSettings {
        inbox_polling_enabled: true,
        quiet_hours: QuietHours {
            enabled: true,
            start_hour: 22,
            end_hour: 7,
        },
        ..Default::default()
    };
    let turn = |works: bool, sleep_secs: u64| Turn { works, sleep_secs };
    assert_eq!(poll_turn(Some(&settings), 12 * hour), turn(true, 600));
    assert_eq!(refresh_turn(Some(&settings), 12 * hour), turn(true, 21_600));
    assert_eq!(poll_turn(Some(&settings), 23 * hour), turn(false, 600));
    assert_eq!(refresh_turn(Some(&settings), 23 * hour), turn(false, 21_600));
    settings.inbox_polling_enabled = false;
    assert_eq!(poll_turn(Some(&settings), 12 * hour), turn(false, 600));
    assert_eq!(poll_turn(None, 12 * hour), turn(false, 600));
    assert_eq!(refresh_turn(None, 12 * hour), turn(false, 3_600));
}

#[test]
fn no_window_is_the_whole_day() {
    let hour = 3_600_000;
    for (start_hour, end_hour) in [(24, 0), (0, 48), (7, 31), (22, 7), (23, 24), (1, 0)] {
        let settings = NodeSettings {
            quiet_hours: QuietHours {
                enabled: true,
                start_hour,
                end_hour,
            },
            ..Default::default()
        };
        assert!((0..24).any(|k| !settings.in_quiet_hours(k * hour)), "{start_hour}-{end_hour}");
    }
    let empty = QuietHours {
        enabled: true,
        start_hour: 24,
        end_hour: 0,
    };
    assert!((0..24).all(|h| !empty.contains_hour(h)));
}
