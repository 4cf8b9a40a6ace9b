use ryu_social::platform::{Platform, PlatformCapabilities};
use ryu_social::providers::bluesky;
use ryu_social::providers::bluesky::{
    jwt_expiry_ms, post_url, rkey_of, BlueskyCredentials, MediaSource, RecordPlan, Session,
    SessionPlan, StrongRef, ThreadRun, ASSUMED_TTL_MS,
};
use ryu_social::providers::composio;
use ryu_social::providers::composio::{parse_remote_time, plan_publish, tool_slug, ApiKey};
use ryu_social::providers::encoding::{b64url_decode, stable_key, urlencode};
use ryu_social::providers::fake::FakeProvider;
use ryu_social::providers::registry::{
    account_for_platform, half_configured, half_set, merge_capabilities, parse_pins, ProviderCredentials,
    ProviderEnv, ProviderRegistry, CAPABILITY_TTL_MS,
};
use ryu_social::providers::treg;
use ryu_social::providers::treg::{parse_endpoint, ChainRun};
use ryu_social::providers::types::{
    PlatformProvider, ProviderAccount, ProviderId, ProviderOperation, PublishMedia,
    PublishRequest, PublishResult, PublishSegment, RemotePostRef, UnconfiguredProvider,
};
use ryu_social::settings::{CredentialEnv, NodeSettings};
use ryu_social::status::InboxKind;

fn account(id: &str, platform: Platform) -> ProviderAccount {
    ProviderAccount {
        id: id.into(),
        platform,
        label: None,
        external_id: None,
    }
}

fn request(platform: Platform, key: Option<&str>) -> PublishRequest {
    PublishRequest {
        account: account("acc_1", platform),
        text: "hello".into(),
        media: vec![],
        segments: None,
        idempotency_key: key.map(str::to_string),
    }
}

// ── Encodings and shapes ───────────────────────────────────────────────────────

#[test]
fn urlencoding_escapes_everything_outside_the_unreserved_set() {
    assert_eq!(urlencode("abc-123_x.y~z"), "abc-123_x.y~z");
    assert_eq!(urlencode("a/b c"), "a%2Fb%20c");
    assert_eq!(urlencode("é"), "%C3%A9");
}

#[test]
fn urls_are_encoded() {
    assert_eq!(urlencode("x.x.post.create"), "x.x.post.create");
    assert_eq!(urlencode("x/post"), "x%2Fpost");
}

#[test]
fn base64_reads_unpadded_url_safe_text() {
    assert_eq!(b64url_decode("aGk").as_deref(), Some(b"hi".as_slice()));
    assert_eq!(b64url_decode("_-8").as_deref(), Some([0xff, 0xef].as_slice()));
    assert_eq!(b64url_decode("!!"), None);
}

#[test]
fn stable_key_is_deterministic_and_charset_safe() {
    let a = stable_key("sp_1:acc_1:0");
    assert_eq!(a, stable_key("sp_1:acc_1:0"));
    assert_ne!(a, stable_key("sp_1:acc_1:1"));
    assert!(a.starts_with("ryu"));
    assert!(a.chars().all(|c| c.is_ascii_lowercase() || c.is_ascii_digit()));
    assert!(a.len() < 32);
}

#[test]
fn segment_keys_differ_per_segment_but_repeat_for_the_same_one() {
    let keyed = PublishRequest {
        text: "hi".into(),
        ..request(Platform::Bluesky, Some("sp_1:acc_1"))
    };
    assert_eq!(keyed.segment_key(0), keyed.segment_key(0));
    assert_ne!(keyed.segment_key(0), keyed.segment_key(1));

    let unkeyed = PublishRequest {
        idempotency_key: None,
        ..keyed.clone()
    };
    assert_eq!(unkeyed.segment_key(0), None);

    // With no segments of its own a request is one segment that mirrors its top level.
    let effective = keyed.effective_segments();
    assert_eq!(effective.len(), 1);
    assert_eq!(effective[0].text, "hi");
}

// ── The fake ───────────────────────────────────────────────────────────────────

#[test]
fn a_repeat_under_the_same_key_returns_the_first_post_and_creates_no_second() {
    let mut fake = FakeProvider::new();
    let first = fake.publish(&request(Platform::X, Some("sp_1:acc_1")));
    let second = fake.publish(&request(Platform::X, Some("sp_1:acc_1")));
    let (
        PublishResult::Published { remote_id: a, .. },
        PublishResult::Published { remote_id: b, .. },
    ) = (&first, &second)
    else {
        panic!("both publishes should succeed: {first:?} {second:?}");
    };
    assert_eq!(a, b);
    assert_eq!(fake.published_count(), 1);
    assert!(fake.calls()[1].deduped);
}

#[test]
fn scripted_failures_are_consumed_one_per_attempt() {
    let mut fake = FakeProvider::new().failing_first(2);
    assert!(!fake.publish(&request(Platform::X, None)).is_ok());
    assert!(!fake.publish(&request(Platform::X, None)).is_ok());
    assert!(fake.publish(&request(Platform::X, None)).is_ok());
    assert_eq!(fake.published_count(), 1);
}

#[test]
fn a_platform_without_the_publish_capability_is_rejected_before_any_post() {
    let mut fake = FakeProvider::new().without_publish_for(Platform::X);
    let result = fake.publish(&request(Platform::X, None));
    assert_eq!(result.error(), Some("Publishing is not supported for x"));
    assert_eq!(fake.published_count(), 0);
    assert!(fake.calls().is_empty());
}

#[test]
fn engagement_is_deterministic() {
    let fake = FakeProvider::new();
    let post = RemotePostRef {
        platform: Platform::X,
        remote_id: "fake_x_1".into(),
        remote_url: None,
    };
    let a = fake.read_engagement(&post, 5).unwrap();
    let b = fake.read_engagement(&post, 5).unwrap();
    assert_eq!(a.likes, b.likes);
    assert_eq!(a.comments, b.comments);
}

#[test]
fn schedule_is_never_a_provider_capability() {
    let fake = FakeProvider::new();
    for platform in Platform::ALL {
        assert!(!fake.capabilities(platform).schedule, "{platform:?}");
        assert!(!bluesky::capabilities(platform).schedule);
    }
}

// ── The registry ───────────────────────────────────────────────────────────────

#[test]
fn nothing_configured_resolves_to_the_honest_fallback_not_the_fake() {
    let registry = ProviderRegistry::from_credentials(ProviderCredentials::none(), false);
    for platform in Platform::ALL {
        assert_eq!(registry.provider_for(platform), ProviderId::Unconfigured, "{platform:?}");
    }
}

#[test]
fn a_direct_adapter_beats_the_broker_for_its_own_platform_only() {
    let registry = ProviderRegistry::from_credentials(
        ProviderCredentials {
            bluesky_handle: Some("me.bsky.social".into()),
            bluesky_app_password: Some("pw".into()),
            ..ProviderCredentials::none()
        },
        true,
    );
    assert_eq!(registry.provider_for(Platform::Bluesky), ProviderId::Bluesky);
    assert_eq!(registry.provider_for(Platform::X), ProviderId::Treg);
}

#[test]
fn half_configured_bluesky_is_ignored_rather_than_half_connected() {
    let registry = ProviderRegistry::from_credentials(
        ProviderCredentials {
            bluesky_handle: Some("me.bsky.social".into()),
            ..ProviderCredentials::none()
        },
        false,
    );
    assert_eq!(registry.provider_for(Platform::Bluesky), ProviderId::Unconfigured);
}

#[test]
fn an_account_pin_overrides_platform_resolution_and_degrades_when_unconfigured() {
    let registry = ProviderRegistry::from_credentials(
        ProviderCredentials {
            use_fake: true,
            account_pins: vec![
                ("acc_fake".to_string(), ProviderId::Fake),
                ("acc_bsky".to_string(), ProviderId::Bluesky),
            ],
            ..ProviderCredentials::none()
        },
        true,
    );
    assert_eq!(
        registry.provider_for_account(&account("acc_fake", Platform::X)),
        ProviderId::Fake
    );
    assert_eq!(
        registry.provider_for_account(&account("acc_bsky", Platform::X)),
        ProviderId::Treg
    );
    assert_eq!(
        registry.provider_for_account(&account("acc_other", Platform::X)),
        ProviderId::Treg
    );
}

#[test]
fn pins_parse_leniently() {
    let pins = parse_pins("acc_a=bluesky, acc_b = fake ,,acc_c=nonsense,broken");
    let get = |id: &str| pins.iter().find(|(k, _)| k == id).map(|(_, v)| *v);
    assert_eq!(get("acc_a"), Some(ProviderId::Bluesky));
    assert_eq!(get("acc_b"), Some(ProviderId::Fake));
    assert_eq!(pins.len(), 2);
}

#[test]
fn capabilities_are_cached_per_provider_and_invalidatable() {
    let fake = FakeProvider::new();
    let mut registry = ProviderRegistry::with_provider(ProviderId::Fake);
    let id = registry.provider_for(Platform::X);
    assert_eq!(id, ProviderId::Fake);
    assert_eq!(registry.cached(id, Platform::X, 0), None);
    let first = fake.capabilities(Platform::X);
    registry.remember(id, Platform::X, first, 0);
    assert_eq!(registry.cached(id, Platform::X, 1), Some(first));
    assert!(first.publish);
    assert!(!first.schedule);
    assert_eq!(registry.cached(id, Platform::X, CAPABILITY_TTL_MS), None);
    assert_eq!(registry.cached(id, Platform::Bluesky, 1), None);
    registry.invalidate_capabilities();
    assert_eq!(registry.cached(id, Platform::X, 1), None);
}

#[test]
fn the_unconfigured_fallback_reports_an_empty_matrix() {
    let registry = ProviderRegistry::from_credentials(ProviderCredentials::none(), false);
    assert_eq!(registry.provider_for(Platform::X), ProviderId::Unconfigured);
    let mut fallback = UnconfiguredProvider;
    assert_eq!(fallback.capabilities(Platform::X), PlatformCapabilities::empty());
    assert!(!fallback.publish(&request(Platform::X, None)).is_ok());
}

// ── Bluesky ────────────────────────────────────────────────────────────────────

#[test]
fn credentials_normalize_the_handle_and_never_print_the_password() {
    let creds = BlueskyCredentials::new("  @me.bsky.social ", "abcd-efgh");
    assert_eq!(creds.handle, "me.bsky.social");
    let printed = format!("{:?}", creds.redacted());
    assert!(printed.contains("me.bsky.social"));
    assert!(!printed.contains("abcd-efgh"));
}

#[test]
fn jwt_expiry_is_read_from_the_payload_and_degrades_to_none() {
    let payload = "eyJleHAiOjE3MDAwMDAwMDB9";
    let jwt = format!("header.{payload}.sig");
    assert_eq!(jwt_expiry_ms(&jwt), Some(1_700_000_000_000));
    assert_eq!(jwt_expiry_ms("not-a-jwt"), None);
    assert_eq!(jwt_expiry_ms("a.!!!.c"), None);
}

fn session(expires_at: i64) -> Session {
    Session {
        access_jwt: "a".into(),
        refresh_jwt: "r".into(),
        did: "did:plc:x".into(),
        handle: "me.bsky.social".into(),
        expires_at,
    }
}

#[test]
fn a_session_without_a_readable_expiry_still_expires() {
    let now = 1_700_000_000_000;
    let s = session(now + ASSUMED_TTL_MS);
    assert!(s.is_fresh(now));
    assert!(!s.is_fresh(now + ASSUMED_TTL_MS));
}

#[test]
fn a_session_is_reused_refreshed_or_begun() {
    let now = 1_700_000_000_000;
    assert_eq!(bluesky::session_plan(None, now), SessionPlan::Login);
    let fresh = session(now + ASSUMED_TTL_MS);
    assert_eq!(bluesky::session_plan(Some(&fresh), now), SessionPlan::Reuse);
    assert_eq!(bluesky::session_plan(Some(&session(now)), now), SessionPlan::Refresh);
    let reply = r#"{"accessJwt":"h.eyJleHAiOjE3MDAwMDAwMDB9.s","refreshJwt":"r","did":"did:plc:x","handle":"me"}"#;
    let s = bluesky::session_from(reply, now).unwrap();
    assert_eq!(s.expires_at, 1_700_000_000_000);
    assert_eq!(s.did, "did:plc:x");
    assert!(bluesky::session_from("{}", now).is_err());
}

#[test]
fn permalinks_are_built_from_the_record_key() {
    let uri = "at://did:plc:abc/app.bsky.feed.post/3kabcd";
    assert_eq!(rkey_of(uri), Some("3kabcd"));
    assert_eq!(
        post_url("me.bsky.social", uri).as_deref(),
        Some("https://bsky.app/profile/me.bsky.social/post/3kabcd")
    );
    assert_eq!(post_url("me.bsky.social", "garbage"), None);
    assert_eq!(post_url("", uri), None);
}

#[test]
fn the_adapter_refuses_platforms_that_are_not_bluesky() {
    let refusal = bluesky::publish_refusal(Platform::X).unwrap();
    assert!(refusal.error().unwrap().contains("cannot publish to x"));
    assert!(bluesky::publish_refusal(Platform::Bluesky).is_none());
    assert_eq!(bluesky::capabilities(Platform::X), PlatformCapabilities::empty());
    assert!(bluesky::capabilities(Platform::Bluesky).publish);
    assert!(!bluesky::capabilities(Platform::Bluesky).schedule);
}

fn segment(text: &str) -> PublishSegment {
    PublishSegment {
        text: text.into(),
        media: vec![],
    }
}

#[test]
fn a_bluesky_thread_replies_to_its_root_and_its_last_post() {
    let mut req = request(Platform::Bluesky, Some("sp_1:acc_1"));
    req.segments = Some(vec![segment("one"), segment("two"), segment("three")]);
    let made = |n: u32| StrongRef {
        uri: format!("at://did:plc:x/app.bsky.feed.post/{n}"),
        cid: format!("cid{n}"),
    };
    let mut run = ThreadRun::start();
    let mut plans: Vec<RecordPlan> = vec![];
    let mut n = 0;
    while let Some(plan) = run.next_record(&req) {
        plans.push(plan);
        n += 1;
        run = run.record_created(made(n));
    }
    assert_eq!(plans.len(), 3);
    assert_eq!(plans[0].reply, None);
    assert_eq!(plans[1].reply, Some((made(1), made(1))));
    assert_eq!(plans[2].reply, Some((made(1), made(2))));
    assert_eq!(plans[0].rkey, req.segment_key(0));
    assert_ne!(plans[0].rkey, plans[1].rkey);
    let PublishResult::Published { remote_id, remote_url } = run.finish("me.bsky.social") else {
        panic!("the thread was published");
    };
    assert_eq!(remote_id, made(1).uri);
    assert_eq!(
        remote_url.as_deref(),
        Some("https://bsky.app/profile/me.bsky.social/post/1")
    );
}

#[test]
fn bluesky_counts_are_read_from_its_reply() {
    let reply = r#"{"posts":[{"likeCount":3,"replyCount":2,"repostCount":1,"quoteCount":4}]}"#;
    let counts = bluesky::engagement_from(reply, 9);
    assert_eq!(counts.likes, Some(3));
    assert_eq!(counts.comments, Some(2));
    assert_eq!(counts.fetched_at, 9);
    let none = bluesky::engagement_from(r#"{"posts":[]}"#, 9);
    assert_eq!(none.likes, None);
}

// ── The brokers ────────────────────────────────────────────────────────────────

#[test]
fn the_api_key_never_survives_a_debug_print_or_an_error_string() {
    let key = ApiKey::new("super-secret-key");
    assert_eq!(key.printed(), "ApiKey(***)");
    assert_eq!(
        key.redact("boom: x-api-key=super-secret-key rejected"),
        "boom: x-api-key=*** rejected"
    );
    assert_eq!(key.expose(), "super-secret-key");
}

#[test]
fn tool_slugs_use_the_toolkit_name_and_x_maps_to_twitter() {
    assert_eq!(tool_slug(Platform::X, "CREATE_POST"), "TWITTER_CREATE_POST");
    assert_eq!(
        tool_slug(Platform::Linkedin, "LIST_COMMENTS"),
        "LINKEDIN_LIST_COMMENTS"
    );
}

#[test]
fn a_local_media_path_is_rejected_before_any_network_call() {
    let mut req = request(Platform::X, Some("sp_1:acc_1"));
    req.account.external_id = Some("ca_1".into());
    req.media = vec![PublishMedia {
        url: "/Users/me/cat.png".into(),
        mime_type: "image/png".into(),
        alt_text: None,
    }];
    let refused = plan_publish(&ApiKey::new("k"), &req).unwrap_err();
    assert!(refused.error().unwrap().contains("cannot publish the local file"));
}

#[test]
fn an_unconnected_account_fails_the_publish_as_a_value_not_an_error() {
    let key = ApiKey::new("secret");
    let refused = plan_publish(&key, &request(Platform::X, None)).unwrap_err();
    assert!(refused.error().unwrap().contains("not connected"));
    let mut req = request(Platform::X, None);
    req.account.external_id = Some("ca_1".into());
    let call = plan_publish(&key, &req).unwrap();
    assert_eq!(call.slug, "TWITTER_CREATE_POST");
    assert_eq!(call.connected_account_id, "ca_1");
}

#[test]
fn a_refusal_before_any_call_holds_no_key() {
    let mut req = request(Platform::X, None);
    req.media = vec![PublishMedia {
        url: "/tmp/hush/cat.png".into(),
        mime_type: "image/png".into(),
        alt_text: None,
    }];
    let refused = plan_publish(&ApiKey::new("hush"), &req).unwrap_err();
    assert!(!refused.error().unwrap().contains("hush"));
    assert!(refused.error().unwrap().contains("/cat.png"));
}

#[test]
fn a_uri_with_a_part_missing_has_no_record_key() {
    assert_eq!(rkey_of("at://did:plc:abc"), None);
    assert_eq!(rkey_of("at://did:plc:abc/app.bsky.feed.post"), None);
    assert_eq!(rkey_of("at://did:plc:abc/app.bsky.feed.post/"), None);
    assert_eq!(rkey_of("at:///app.bsky.feed.post/3k"), None);
    assert_eq!(rkey_of("at://did:plc:abc//3k"), None);
    assert_eq!(rkey_of("at://did:plc:abc/app.bsky.feed.post/3k/x"), None);
    assert_eq!(rkey_of("at://d/c/k"), Some("k"));
    assert_eq!(post_url("me.bsky.social", "at://did:plc:abc"), None);
}

#[test]
fn remote_times_coerce_from_seconds_millis_and_rfc3339() {
    let now = 1_700_000_000_000;
    assert_eq!(parse_remote_time(Some(1_600_000_000), None, now), 1_600_000_000_000);
    assert_eq!(parse_remote_time(Some(1_600_000_000_000), None, now), 1_600_000_000_000);
    assert_eq!(
        parse_remote_time(None, Some("2023-01-01T00:00:00Z"), now),
        1_672_531_200_000
    );
    assert_eq!(parse_remote_time(None, None, now), now);
    assert_eq!(parse_remote_time(None, Some("nonsense"), now), now);
}

#[test]
fn a_broker_reply_is_read_field_by_field() {
    let key = ApiKey::new("k");
    let ok = composio::publish_result(&key, r#"{"successful":true,"data":{"id":"42","url":"https://x.com/42"}}"#);
    let PublishResult::Published { remote_id, remote_url } = ok else {
        panic!("published: {ok:?}");
    };
    assert_eq!(remote_id, "42");
    assert_eq!(remote_url.as_deref(), Some("https://x.com/42"));
    assert!(!composio::publish_result(&key, r#"{"successful":false,"error":"nope"}"#).is_ok());
    assert!(!composio::publish_result(&key, "not json").is_ok());
    let items = composio::inbox_items(
        r#"{"data":{"items":[{"id":"c1","text":"hi","author":"a"}]}}"#,
        Platform::X,
        InboxKind::Comment,
        7,
    );
    assert_eq!(items.len(), 1);
    assert_eq!(items[0].external_id, "c1");
    assert_eq!(items[0].received_at, 7);
}

#[test]
fn parses_x_thread_capabilities_and_prices() {
    let reply = |id: &str| {
        format!(
            r#"{{"endpoint":{{"id":"{id}","method":"POST","cost":{{"usd":0.015}}}}}}"#
        )
    };
    let create =
        parse_endpoint(&reply("x.x.post.create"), "x.x.post.create", Some(15_000)).unwrap();
    let answer = parse_endpoint(&reply("x.x.post.reply"), "x.x.post.reply", Some(15_000)).unwrap();
    assert_eq!(create.id, "x.x.post.create");
    assert_eq!(create.cost_micro_usd, 15_000);
    assert_eq!(answer.id, "x.x.post.reply");
    assert!(parse_endpoint(&reply("other"), "x.x.post.create", Some(1)).is_none());
    assert!(parse_endpoint(&reply("x.x.post.create"), "x.x.post.create", None).is_none());
    let spaced = r#"{"endpoint":{"id":"a","method":"NOT A METHOD"}}"#;
    assert!(parse_endpoint(spaced, "a", Some(1)).is_none());
    assert!(ProviderOperation::Publish.is_supported(PlatformCapabilities {
        publish: true,
        ..PlatformCapabilities::empty()
    }));
}

#[test]
fn publish_chains_text_segments_through_create_and_reply() {
    let req = PublishRequest {
        account: account("acc_x", Platform::X),
        text: "first".into(),
        media: vec![],
        segments: Some(vec![segment("first"), segment("second")]),
        idempotency_key: Some("post:account".into()),
    };
    assert!(treg::publish_refusal(&req).is_none());
    let mut run = ChainRun::start();
    let mut calls = vec![];
    while let Some(call) = run.next_call(&req) {
        let wanted = treg::endpoint_id_for(Platform::X, call.capability).unwrap();
        let catalog = format!(
            r#"{{"endpoint":{{"id":"{wanted}","method":"POST","cost":{{"usd":0.015}}}}}}"#
        );
        let endpoint = parse_endpoint(&catalog, wanted, Some(15_000)).unwrap();
        let id = format!("post-{}", calls.len() + 1);
        let body = format!(r#"{{"data":{{"id":"{id}"}}}}"#);
        run = run.reply(&endpoint.id, true, "201 Created", &body).unwrap();
        calls.push((endpoint.id, call));
    }
    let result = run.finish();
    assert!(
        matches!(result, PublishResult::Published { ref remote_id, .. } if remote_id == "post-2")
    );
    assert_eq!(calls.len(), 2);
    assert_eq!(calls[0].0, "x.x.post.create");
    assert_eq!(calls[0].1.text, "first");
    assert_eq!(calls[0].1.in_reply_to, None);
    assert_eq!(calls[1].0, "x.x.post.reply");
    assert_eq!(calls[1].1.in_reply_to.as_deref(), Some("post-1"));
    assert!(calls[0].1.idempotency_key.as_deref().is_some_and(|value| !value.is_empty()));
    assert_ne!(calls[0].1.idempotency_key, calls[1].1.idempotency_key);
}

// ── Replies ────────────────────────────────────────────────────────────────────

#[test]
fn a_reply_is_read_only_where_it_succeeded_and_is_json() {
    let key = ApiKey::new("hush");
    assert_eq!(
        composio::read_reply(&key, "/tools", 200, "{}"),
        Ok("{}".to_string())
    );
    assert_eq!(
        composio::read_reply(&key, "/tools", 204, "  "),
        Ok("null".to_string())
    );
    assert_eq!(
        composio::read_reply(&key, "/tools", 401, "key hush is bad"),
        Err("Composio /tools failed: 401 key *** is bad".to_string())
    );
    let garbled = composio::read_reply(&key, "/tools", 200, "{oops").unwrap_err();
    assert!(garbled.starts_with("Composio /tools returned unreadable JSON: "));
    assert_eq!(
        composio::judge_reply(&key, "/x", 200, "y", Some("no hush".into())),
        Err("Composio /x returned unreadable JSON: no ***".to_string())
    );
    assert_eq!(
        bluesky::read_json("com.atproto.repo.getRecord", 400, "gone"),
        Err("bluesky com.atproto.repo.getRecord failed: 400 gone".to_string())
    );
    assert_eq!(bluesky::read_json("m", 200, ""), Ok("null".to_string()));
    assert_eq!(bluesky::read_json("m", 200, "[1]"), Ok("[1]".to_string()));
    assert!(bluesky::read_json("m", 200, "[1").is_err());
}

#[test]
fn a_broken_envelope_is_a_failure_with_its_own_words() {
    let key = ApiKey::new("");
    assert_eq!(composio::tool_outcome(&key, r#"{"data":{}}"#), Ok(()));
    assert_eq!(
        composio::tool_outcome(&key, r#"{"successful":false}"#),
        Err("Composio tool call failed".to_string())
    );
    assert_eq!(
        composio::tool_outcome(&key, r#"{"successful":true,"error":"late"}"#),
        Err("late".to_string())
    );
    assert_eq!(composio::tool_outcome(&key, r#"{"error":"  "}"#), Ok(()));
}

#[test]
fn a_reply_to_an_item_goes_through_the_tool_of_its_kind() {
    let key = ApiKey::new("k");
    assert_eq!(composio::reply_slug(Platform::X, InboxKind::Dm), "TWITTER_SEND_MESSAGE");
    assert_eq!(
        composio::reply_slug(Platform::Reddit, InboxKind::Mention),
        "REDDIT_REPLY_TO_COMMENT"
    );
    let PublishResult::Published { remote_id, remote_url } =
        composio::reply_result(&key, r#"{"data":{"permalink":"https://p"}}"#)
    else {
        panic!("the reply was sent");
    };
    assert_eq!((remote_id.as_str(), remote_url.as_deref()), ("", Some("https://p")));
    // A link that is there but is no text is none.
    let PublishResult::Published { remote_url, .. } =
        composio::reply_result(&key, r#"{"data":{"id":"9","url":7,"permalink":"https://p"}}"#)
    else {
        panic!("the reply was sent");
    };
    assert_eq!(remote_url, None);
    assert_eq!(
        composio::reply_result(&key, r#"{"error":"muted"}"#).error(),
        Some("muted")
    );
}

#[test]
fn a_catalog_tells_what_a_toolkit_can_do() {
    let caps = composio::capabilities_from(
        r#"{"items":[{"slug":"TWITTER_CREATE_TWEET"},{"slug":"TWITTER_SEND_DM"},{"name":"x"}]}"#,
    );
    assert!(caps.publish && caps.send_dm);
    assert!(!caps.read_dms && !caps.read_comments && !caps.schedule);
    assert_eq!(
        composio::capabilities_from("{}"),
        PlatformCapabilities::empty()
    );
    assert_eq!(
        composio::catalog_path(Platform::X),
        "/tools?toolkit_slug=twitter&limit=200"
    );
    assert_eq!(
        composio::disconnect_path(Some("a/b")).as_deref(),
        Some("/connected_accounts/a%2Fb")
    );
    assert_eq!(composio::disconnect_path(Some("")), None);
    assert_eq!(composio::disconnect_path(None), None);
    let both = PlatformCapabilities {
        read_comments: true,
        read_dms: true,
        ..PlatformCapabilities::empty()
    };
    assert_eq!(
        composio::wanted_tools(Platform::X, both),
        vec![
            ("TWITTER_LIST_COMMENTS".to_string(), InboxKind::Comment),
            ("TWITTER_LIST_MENTIONS".to_string(), InboxKind::Mention),
            ("TWITTER_LIST_MESSAGES".to_string(), InboxKind::Dm),
        ]
    );
    assert!(composio::wanted_tools(Platform::X, PlatformCapabilities::empty()).is_empty());
}

#[test]
fn counts_go_by_either_name() {
    let counts = composio::engagement_from(
        r#"{"data":{"likes":4,"comment_count":2,"reply_count":9,"retweet_count":1}}"#,
        5,
    );
    assert_eq!(counts.likes, Some(4));
    assert_eq!(counts.comments, Some(2));
    assert_eq!(counts.shares, Some(1));
    assert_eq!(counts.views, None);
    assert_eq!(counts.fetched_at, 5);
}

#[test]
fn entries_without_an_id_are_dropped_and_the_others_are_completed() {
    let reply = r#"{"data":{"items":[
        {"text":"no id"},
        {"id":"a","username":"u","body":"b","permalink":"https://l","created_at":"2023-01-01T00:00:00Z"},
        {"id":"b","created_at":1600000000}
    ]}}"#;
    let items = composio::inbox_items(reply, Platform::X, InboxKind::Mention, 7);
    assert_eq!(items.len(), 2);
    assert_eq!(items[0].author, "u");
    assert_eq!(items[0].text, "b");
    assert_eq!(items[0].permalink.as_deref(), Some("https://l"));
    assert_eq!(items[0].received_at, 1_672_531_200_000);
    assert_eq!(items[1].author, "unknown");
    assert_eq!(items[1].text, "");
    assert_eq!(items[1].received_at, 1_600_000_000_000);
    assert!(composio::inbox_items("{}", Platform::X, InboxKind::Dm, 7).is_empty());
}

#[test]
fn bluesky_asks_for_records_and_counts_by_encoded_names() {
    assert_eq!(
        bluesky::record_query("did:plc:x", "ryu1"),
        "repo=did%3Aplc%3Ax&collection=app.bsky.feed.post&rkey=ryu1"
    );
    assert_eq!(bluesky::engagement_query("at://a"), "uris=at%3A%2F%2Fa");
    let made = bluesky::strong_ref_from(r#"{"uri":"at://a"}"#).unwrap();
    assert_eq!((made.uri.as_str(), made.cid.as_str()), ("at://a", ""));
    assert_eq!(
        bluesky::strong_ref_from("{}"),
        Err("bluesky createRecord returned no uri".to_string())
    );
    let again = bluesky::after_failed_create(true, Some(made.clone()), "409".into());
    assert_eq!(again, Ok(made.clone()));
    assert_eq!(
        bluesky::after_failed_create(false, Some(made), "409".into()),
        Err("409".to_string())
    );
    let media = |url: &str| PublishMedia {
        url: url.into(),
        mime_type: "image/png".into(),
        alt_text: None,
    };
    assert_eq!(
        bluesky::media_source(&media("HTTPS://x/y.png"), false),
        MediaSource::Fetch
    );
    assert_eq!(bluesky::media_source(&media("/y.png"), true), MediaSource::Read);
    assert_eq!(
        bluesky::media_source(&media("y.png"), false),
        MediaSource::Refused("media path must be absolute, got \"y.png\"".into())
    );
}

#[test]
fn the_managed_broker_refuses_what_it_cannot_send() {
    assert_eq!(treg::base_url(Some("https://t//")), "https://t");
    assert_eq!(treg::base_url(Some("  ")), "https://treg.to");
    assert_eq!(
        treg::endpoint_url("https://t", "x/y"),
        "https://t/catalog/endpoints/x%2Fy"
    );
    assert_eq!(
        treg::no_endpoint("x.post.create").error(),
        Some("Treg catalog has no x.post.create endpoint for X")
    );
    assert_eq!(
        treg::publish_refusal(&request(Platform::Reddit, None)).unwrap().error(),
        Some("Treg publishing is not configured for reddit")
    );
    let mut req = request(Platform::X, Some("k"));
    req.media = vec![PublishMedia {
        url: "https://x/y.png".into(),
        mime_type: "image/png".into(),
        alt_text: None,
    }];
    assert_eq!(
        treg::publish_refusal(&req).unwrap().error(),
        Some("Treg X publishing currently supports text-only posts and threads")
    );
    assert_eq!(treg::request_id(&req, 0), req.segment_key(0).unwrap());
    let fresh = treg::request_id(&request(Platform::X, None), 3);
    assert!(fresh.starts_with("social:treg:") && fresh.ends_with(":3"));
    assert_eq!(fresh.len(), "social:treg:".len() + 36 + 2);
    assert_ne!(fresh, treg::request_id(&request(Platform::X, None), 3));
    let failed = ChainRun::start().reply("e", false, "500 Internal Server Error", "{}");
    assert_eq!(
        failed.unwrap_err().error(),
        Some("Treg endpoint e returned HTTP 500 Internal Server Error")
    );
    let silent = ChainRun::start().reply("e", true, "200 OK", "{}");
    assert_eq!(
        silent.unwrap_err().error(),
        Some("Treg endpoint e returned no post id")
    );
    assert!(!ChainRun::start().finish().is_ok());
}

#[test]
fn an_operation_goes_to_the_first_candidate_that_supports_it() {
    let registry = ProviderRegistry::from_credentials(
        ProviderCredentials {
            use_fake: true,
            ..ProviderCredentials::none()
        },
        true,
    );
    let acc = account("acc_1", Platform::X);
    assert_eq!(
        registry.candidates_for_account(&acc),
        vec![ProviderId::Treg, ProviderId::Composio, ProviderId::Fake]
    );
    let can = PlatformCapabilities {
        publish: true,
        ..PlatformCapabilities::empty()
    };
    let none = PlatformCapabilities::empty();
    let pick = |media: bool, caps: Vec<PlatformCapabilities>| {
        registry.provider_for_operation(&acc, ProviderOperation::Publish, media, &caps)
    };
    assert_eq!(pick(false, vec![can, can, can]), ProviderId::Treg);
    assert_eq!(pick(true, vec![can, can, can]), ProviderId::Composio);
    assert_eq!(pick(true, vec![can, none, can]), ProviderId::Fake);
    assert_eq!(pick(true, vec![can, none, none]), ProviderId::Unconfigured);
    let merged = merge_capabilities(&vec![
        can,
        PlatformCapabilities {
            schedule: true,
            read_dms: true,
            ..none
        },
    ]);
    assert!(merged.publish && merged.read_dms && !merged.schedule);
    assert_eq!(account_for_platform(Platform::X).id, "__platform__:x");
}

#[test]
fn the_environment_configures_providers() {
    let env = ProviderEnv {
        social_treg_base_url: Some(" ".into()),
        ryu_treg_url: Some(" https://t ".into()),
        treg_url: Some("https://other".into()),
        bluesky_handle: Some("me".into()),
        bluesky_app_password: None,
        bluesky_pds: None,
        bluesky_appview: None,
        fake_provider: Some("yes".into()),
        account_providers: Some("acc_a=fake".into()),
    };
    let c = ProviderCredentials::from_env(&env);
    assert_eq!(c.treg_base_url.as_deref(), Some("https://t"));
    assert!(c.use_fake && half_configured(&c));
    assert_eq!(c.account_pins.len(), 1);

    let mut node = NodeSettings::default();
    node.bluesky_handle = Some("@me.bsky.social".into());
    let c = ProviderCredentials::from_node_settings(&node, &CredentialEnv::empty(), &env);
    assert_eq!(c.bluesky_handle, None);
    node.bluesky_app_password = Some("pw".into());
    let c = ProviderCredentials::from_node_settings(&node, &CredentialEnv::empty(), &env);
    assert_eq!(c.bluesky_handle.as_deref(), Some("me.bsky.social"));
    assert_eq!(c.bluesky_app_password.as_deref(), Some("pw"));
    assert!(!half_configured(&c));
}

#[test]
fn a_key_in_a_complaint_is_hidden_however_often_it_stands_there() {
    let key = ApiKey::new("aa");
    assert_eq!(key.redact("aaa b aa"), "***a b ***");
    assert_eq!(ApiKey::new("").redact("aaa"), "aaa");
}

#[test]
fn one_failed_tool_loses_nothing_of_the_others() {
    let key = ApiKey::new("k");
    let tool = |kind: InboxKind, reply: Option<&str>| composio::ToolReply {
        kind,
        reply: reply.map(|r| r.to_string()),
    };
    let tools = vec![
        tool(InboxKind::Comment, Some(r#"{"data":{"items":[{"id":"c1"}]}}"#)),
        tool(InboxKind::Mention, None),
        tool(InboxKind::Mention, Some(r#"{"error":"no","data":{"items":[{"id":"m1"}]}}"#)),
        tool(InboxKind::Dm, Some(r#"{"data":{"items":[{"id":"d1"},{"id":"d2"}]}}"#)),
    ];
    let items = composio::inbox_from(&key, &tools, Platform::X, 7);
    let ids: Vec<&str> = items.iter().map(|i| i.external_id.as_str()).collect();
    assert_eq!(ids, vec!["c1", "d1", "d2"]);
    assert_eq!(items[2].kind, InboxKind::Dm);
    assert_eq!(composio::connected_id(r#"{"id":"ca_1"}"#).as_deref(), Some("ca_1"));
    assert_eq!(composio::connected_id(r#"{"id":7}"#), None);
}

#[test]
fn the_first_candidate_is_what_serves_an_account() {
    let registry = ProviderRegistry::from_credentials(
        ProviderCredentials {
            bluesky_handle: Some("h".into()),
            bluesky_app_password: Some("p".into()),
            use_fake: true,
            account_pins: parse_pins("acc_1=fake,acc_2=threads"),
            ..ProviderCredentials::none()
        },
        true,
    );
    for (id, platform) in [
        ("acc_1", Platform::X),
        ("acc_2", Platform::X),
        ("acc_3", Platform::Bluesky),
        ("acc_1", Platform::Bluesky),
    ] {
        let acc = account(id, platform);
        assert_eq!(
            registry.provider_for_account(&acc),
            registry.candidates_for_account(&acc)[0]
        );
    }
    assert_eq!(
        registry.candidates_for_account(&account("acc_1", Platform::Bluesky)),
        vec![
            ProviderId::Fake,
            ProviderId::Bluesky,
            ProviderId::Treg,
            ProviderId::Composio
        ]
    );
}

#[test]
fn half_an_account_in_the_settings_is_noticed() {
    let mut node = NodeSettings::default();
    assert!(!half_set(&node, &CredentialEnv::empty()));
    node.bluesky_handle = Some("me".into());
    assert!(half_set(&node, &CredentialEnv::empty()));
    let env = CredentialEnv {
        bluesky_app_password: Some("pw".into()),
        ..CredentialEnv::empty()
    };
    assert!(!half_set(&node, &env));
}

#[test]
fn counts_are_those_of_the_first_post() {
    let counts = bluesky::engagement_from(
        r#"{"posts":[{"likeCount":3,"replyCount":1,"repostCount":0},{"likeCount":9}]}"#,
        7,
    );
    assert_eq!(counts.likes, Some(3));
    assert_eq!(counts.comments, Some(1));
    assert_eq!(counts.shares, Some(0));
    assert_eq!(counts.views, None);
    assert_eq!(counts.fetched_at, 7);
    let none = bluesky::engagement_from(r#"{"posts":{"0":{"likeCount":3}}}"#, 7);
    assert_eq!(none.likes, None, "that is no row of posts");
}

#[test]
fn a_retry_of_a_thread_uses_the_same_record_keys() {
    let mut req = request(Platform::Bluesky, Some("sp_1:acc_1"));
    req.segments = Some(vec![
        PublishSegment { text: "one".into(), media: vec![] },
        PublishSegment { text: "two".into(), media: vec![] },
    ]);
    let made = |uri: &str| StrongRef { uri: uri.into(), cid: "c".into() };
    let first = ThreadRun::start();
    let a = first.next_record(&req).unwrap().rkey;
    let b = first.record_created(made("at://x/1")).next_record(&req).unwrap().rkey;
    let again = ThreadRun::start();
    assert_eq!(again.next_record(&req).unwrap().rkey, a);
    assert_eq!(
        again.record_created(made("at://other")).next_record(&req).unwrap().rkey,
        b
    );
    assert_ne!(a, b);
}

#[test]
fn stable_keys_are_fnv_1a_in_base_36() {
    assert_eq!(stable_key("a"), "ryu2o0ongoiv4rrg");
}

#[test]
fn a_logged_handle_is_quoted_like_any_text() {
    let creds = BlueskyCredentials::new("a\"b\\c", "abcd-efgh");
    let shown = creds.redacted();
    assert_eq!((shown.handle.as_str(), shown.app_password), ("a\"b\\c", "***"));
    assert!(format!("{shown:?}").contains(r#"handle: "a\"b\\c""#));
}
