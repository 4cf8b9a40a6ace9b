use ryu_social::draft::{
    validate_for_platform, validate_segments_for_platform, DraftBody, MediaRef, PostSegment,
};
use ryu_social::platform::{
    default_platform_limits, label_for_str, limits_for, limits_for_str, mime_for_extension,
    Platform, SegmentStyle,
};
use ryu_social::records::MediaKind;
use ryu_social::status::{HistoryStatus, InboxKind, PostStatus, TargetStatus};
use ryu_social::template::TemplateBody;

#[test]
fn platform_round_trips_through_its_wire_value() {
    for p in Platform::ALL {
        assert_eq!(Platform::parse(p.as_str()), Some(p));
        assert_eq!(Platform::from_name(p.as_str()), Ok(p));
    }
    assert_eq!(Platform::parse("mastodon"), None);
    assert!(Platform::from_name("mastodon").is_err());
}

#[test]
fn limits_table_covers_every_platform_and_falls_back_for_unknowns() {
    assert_eq!(Platform::ALL.len(), 9);
    for p in Platform::ALL {
        assert_ne!(limits_for(p), default_platform_limits(), "{p:?} missing");
        assert_eq!(limits_for_str(p.as_str()), limits_for(p));
    }
    assert_eq!(limits_for(Platform::X).max_chars, 280);
    assert_eq!(limits_for(Platform::Bluesky).allowed_mime_prefixes, ["image/"]);
    assert_eq!(limits_for_str("nope"), default_platform_limits());
    assert_eq!(label_for_str("nope"), "nope");
    assert_eq!(label_for_str("x"), "X");
}

fn body_with(text: &str, segments: Vec<PostSegment>) -> DraftBody {
    DraftBody {
        schema_version: 1,
        text: text.into(),
        media: vec![],
        account_ids: vec![],
        segments,
    }
}

#[test]
fn draft_body_decode_never_fails_and_holds_the_mirror_invariant() {
    assert_eq!(DraftBody::decode("not json", None), DraftBody::empty());
    assert_eq!(DraftBody::decode("[1,2,3]", None), DraftBody::empty());
    assert_eq!(DraftBody::decode("\"a string\"", None), DraftBody::empty());

    let v1 = DraftBody::decode(r#"{"text":"hi","media":[]}"#, Some(body_with("hi", vec![])));
    assert_eq!(v1.schema_version, DraftBody::SCHEMA_VERSION);
    assert_eq!(v1.segments.len(), 1);
    assert_eq!(v1.segments[0].text, "hi");

    let fresh = PostSegment {
        text: "fresh".into(),
        media: vec![],
    };
    let mirrored = DraftBody::decode(
        r#"{"schema_version":2,"text":"stale","segments":[{"text":"fresh","media":[]}]}"#,
        Some(body_with("stale", vec![fresh])),
    );
    assert_eq!(mirrored.text, "fresh");
    // Whatever was read is what is written.
    assert_eq!(mirrored.normalized(), mirrored);
    // Fields that came with a text that is no object are not trusted.
    assert_eq!(
        DraftBody::decode("[]", Some(body_with("x", vec![]))),
        DraftBody::empty()
    );
    assert!(DraftBody::empty().is_empty());
    assert!(!mirrored.is_empty());
}

#[test]
fn template_body_decode_treats_legacy_plain_text_as_the_body() {
    let legacy = TemplateBody::decode("just some text", None);
    assert_eq!(legacy.text, "just some text");
    let fields = TemplateBody {
        text: "hi".into(),
        ..Default::default()
    };
    let modern = TemplateBody::decode(r#"{"schema_version":1,"text":"hi"}"#, Some(fields));
    assert_eq!(modern.text, "hi");
    let mut body = TemplateBody {
        platform_defaults: vec![
            ("linkedin".to_string(), "hi".to_string()),
            ("x".to_string(), "  ".to_string()),
        ],
        ..Default::default()
    };
    body.normalize();
    assert_eq!(body.platform_defaults.len(), 1);
}

#[test]
fn post_status_transitions_match_the_documented_machine() {
    assert!(PostStatus::Scheduled.can_transition_to(PostStatus::Due));
    assert!(PostStatus::Due.can_transition_to(PostStatus::Publishing));
    assert!(PostStatus::Publishing.can_transition_to(PostStatus::Partial));
    assert!(PostStatus::Publishing.can_transition_to(PostStatus::Due));
    assert!(!PostStatus::Publishing.can_transition_to(PostStatus::Cancelled));
    assert!(PostStatus::Published.is_terminal());
    assert!(!PostStatus::Published.can_transition_to(PostStatus::Due));
    assert!(PostStatus::Partial.is_terminal());
    assert!(PostStatus::Partial.can_transition_to(PostStatus::Due));
}

#[test]
fn stored_names_read_back() {
    for s in [
        TargetStatus::Pending,
        TargetStatus::Publishing,
        TargetStatus::Published,
        TargetStatus::Failed,
        TargetStatus::Cancelled,
    ] {
        assert_eq!(TargetStatus::from_db(s.as_str()), s);
    }
    for s in [HistoryStatus::Published, HistoryStatus::Failed] {
        assert_eq!(HistoryStatus::from_db(s.as_str()), s);
    }
    for k in [InboxKind::Comment, InboxKind::Reply, InboxKind::Mention, InboxKind::Dm] {
        assert_eq!(InboxKind::from_db(k.as_str()), k);
    }
    assert_eq!(PostStatus::from_db("nonsense"), PostStatus::Failed);
    assert_eq!(InboxKind::from_db("nonsense"), InboxKind::Comment);
}

#[test]
fn validation_reports_the_first_blocking_reason() {
    let long = "a".repeat(300);
    assert_eq!(
        validate_for_platform("x", &long, &[]),
        Some("Over the 280 character limit by 20".to_string())
    );
    assert_eq!(
        validate_for_platform("x", "  ", &[]),
        Some("Post is empty".to_string())
    );
    let video = MediaRef {
        path: "/tmp/a.mp4".into(),
        mime_type: "video/mp4".into(),
        name: "a.mp4".into(),
    };
    assert!(validate_for_platform("bluesky", "hi", &[video.clone()]).is_some());
    assert!(validate_for_platform("x", "hi", &[video]).is_none());
    assert!(validate_for_platform("bluesky", &"🎉".repeat(300), &[]).is_none());
}

#[test]
fn segment_validation_degrades_rather_than_erroring_on_single_post_platforms() {
    let segs = vec![
        PostSegment {
            text: "one".into(),
            media: vec![],
        },
        PostSegment {
            text: "two".into(),
            media: vec![],
        },
    ];
    assert_eq!(validate_segments_for_platform("reddit", &segs), None);
    let over = vec![
        PostSegment {
            text: "ok".into(),
            media: vec![],
        },
        PostSegment {
            text: "a".repeat(300),
            media: vec![],
        },
    ];
    assert_eq!(
        validate_segments_for_platform("x", &over),
        Some("Post 2: Over the 280 character limit by 20".to_string())
    );
    assert_eq!(
        validate_segments_for_platform("x", &[]),
        Some("Post is empty".to_string())
    );
}

#[test]
fn too_many_segments_are_told_by_the_platforms_own_word() {
    assert_eq!(limits_for(Platform::X).segment_style, SegmentStyle::Thread);
    let many: Vec<PostSegment> = (0..limits_for(Platform::X).max_segments + 1)
        .map(|_| PostSegment {
            text: "x".into(),
            media: vec![],
        })
        .collect();
    let told = validate_segments_for_platform("x", &many).unwrap();
    assert_eq!(
        told,
        format!(
            "Allows at most {} {}",
            limits_for(Platform::X).max_segments,
            SegmentStyle::Thread.noun()
        )
    );
}

#[test]
fn a_files_type_is_read_off_its_name() {
    assert_eq!(mime_for_extension("cat.PNG"), "image/png");
    assert_eq!(mime_for_extension("clip.mov"), "video/quicktime");
    assert_eq!(mime_for_extension("notes.txt"), "");
    assert_eq!(mime_for_extension("png"), "");
    assert_eq!(MediaKind::from_mime(Some("video/mp4")), MediaKind::Video);
    assert_eq!(MediaKind::from_mime(None), MediaKind::Image);
}

#[test]
fn an_attachment_without_a_name_is_judged_by_its_path() {
    let clip = |path: &str| MediaRef {
        path: path.into(),
        mime_type: String::new(),
        name: String::new(),
    };
    assert_eq!(validate_for_platform("tiktok", "hi", &[clip("/tmp/clip.mp4")]), None);
    assert_eq!(
        validate_for_platform("tiktok", "hi", &[clip("/tmp/clip")]).as_deref(),
        Some("Does not accept \"/tmp/clip\" (unknown type)")
    );
}
