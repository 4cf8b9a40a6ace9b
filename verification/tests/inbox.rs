use ryu_social::error::ApiError;
use ryu_social::ids::DEFAULT_WORKSPACE_ID;
use ryu_social::inbox::{
    after_reply, can_read_inbox, can_reply, ingest_items, provider_account, reply_request,
    select_accounts, InboxPass, Poll, RefreshSummary,
};
use ryu_social::mailbox::Mailbox;
use ryu_social::platform::{Platform, PlatformCapabilities};
use ryu_social::providers::types::{
    PlatformProvider, ProviderInboxItem, PublishResult, UnconfiguredProvider,
};
use ryu_social::records::SocialAccount;
use ryu_social::status::InboxKind;

fn incoming(external_id: &str, kind: InboxKind, text: &str) -> ProviderInboxItem {
    ProviderInboxItem {
        external_id: external_id.to_string(),
        platform: Platform::X,
        kind,
        author: "@someone".to_string(),
        text: text.to_string(),
        permalink: Some("https://x.com/1".to_string()),
        received_at: 1_000,
    }
}

fn account(id: &str, connected: bool) -> SocialAccount {
    SocialAccount {
        id: id.to_string(),
        workspace_id: DEFAULT_WORKSPACE_ID.to_string(),
        platform: Platform::X,
        account_label: "@me".to_string(),
        external_id: Some("ext_1".to_string()),
        connected,
        created_at: 0,
    }
}

#[test]
fn re_polling_the_same_items_inserts_nothing_and_keeps_local_state() {
    let account = account("acc_1", true);
    let mut mailbox = Mailbox::new();
    let batch = vec![
        incoming("c1", InboxKind::Comment, "nice"),
        incoming("c2", InboxKind::Mention, "hey @me"),
    ];
    let first = ingest_items(&mut mailbox, DEFAULT_WORKSPACE_ID, &account, &batch, 5);
    assert_eq!(first.len(), 2);

    // The user reads and replies to one of them.
    let target = mailbox.rows.iter().find(|i| i.external_id == "c1").unwrap().id.clone();
    assert!(mailbox.mark_inbox_replied(&target));

    // A re-poll returns the same two items plus one genuinely new one.
    let mut second_batch = batch.clone();
    second_batch.push(incoming("c3", InboxKind::Reply, "thanks!"));
    let second = ingest_items(&mut mailbox, DEFAULT_WORKSPACE_ID, &account, &second_batch, 9);
    assert_eq!(second.len(), 1, "only the unseen item is new");
    assert_eq!(second[0].external_id, "c3");

    assert_eq!(mailbox.rows.len(), 3, "no duplicates");
    let replied = mailbox.rows.iter().find(|i| i.external_id == "c1").unwrap();
    assert!(replied.replied, "a re-poll must not reset replied");
    assert!(replied.read, "nor the read flag it implies");
}

#[test]
fn marks_are_of_one_item() {
    let account = account("acc_1", true);
    let mut mailbox = Mailbox::new();
    let batch = vec![
        incoming("c1", InboxKind::Comment, "nice"),
        incoming("c2", InboxKind::Mention, "hey @me"),
    ];
    ingest_items(&mut mailbox, DEFAULT_WORKSPACE_ID, &account, &batch, 5);
    let id = mailbox.rows[1].id.clone();
    assert!(mailbox.mark_inbox_read(&id, true));
    assert!(mailbox.rows[1].read && !mailbox.rows[1].replied);
    assert!(!mailbox.rows[0].read);
    assert!(mailbox.mark_inbox_read(&id, false));
    assert!(!mailbox.rows[1].read);
    assert!(!mailbox.mark_inbox_read("inb_gone", true));
    assert!(!mailbox.mark_inbox_replied("inb_gone"));
    assert!(!mailbox.ingest_inbox_item(mailbox.rows[0].clone()));
    assert_eq!(mailbox.rows.len(), 2);
}

#[test]
fn ingest_normalizes_a_sloppy_provider_payload() {
    let account = account("acc_1", true);
    let items = vec![
        // No external id: dropped, for nothing would recognise it again.
        ProviderInboxItem {
            external_id: "  ".into(),
            ..incoming("x", InboxKind::Comment, "orphan")
        },
        // Blank author and a missing timestamp.
        ProviderInboxItem {
            external_id: "c9".into(),
            author: "   ".into(),
            received_at: 0,
            permalink: Some("  ".into()),
            // The provider claims the wrong platform; the account wins.
            platform: Platform::Linkedin,
            ..incoming("c9", InboxKind::Dm, "hello")
        },
    ];
    let mut mailbox = Mailbox::new();
    let new_items = ingest_items(&mut mailbox, DEFAULT_WORKSPACE_ID, &account, &items, 4_242);
    assert_eq!(new_items.len(), 1);
    let item = &new_items[0];
    assert_eq!(item.author, "unknown");
    assert!(item.received_at > 0);
    assert_eq!(item.received_at, 4_242);
    assert_eq!(item.permalink, None);
    assert_eq!(item.platform, Platform::X);
    assert!(item.id.starts_with("inb_"));
    assert_eq!(item.id.len(), 4 + 32);
}

#[test]
fn an_item_is_stored_once_of_one_reading() {
    let account = account("acc_1", true);
    let batch = vec![
        incoming("  c1  ", InboxKind::Comment, "hi"),
        incoming("c1", InboxKind::Comment, "hi"),
    ];
    let mut mailbox = Mailbox::new();
    let new = ingest_items(&mut mailbox, DEFAULT_WORKSPACE_ID, &account, &batch, 1);
    assert_eq!(new.len(), 1);
    assert_eq!(new[0].external_id, "c1");
    assert_eq!(mailbox.rows, new);
}

#[test]
fn two_accounts_may_carry_the_same_external_id() {
    let first = account("acc_1", true);
    let mut second = account("acc_2", true);
    second.platform = Platform::Bluesky;
    second.account_label = "@me.bsky".into();
    second.external_id = None;
    let batch = vec![incoming("1", InboxKind::Comment, "same id, other account")];
    let mut mailbox = Mailbox::new();
    let a = ingest_items(&mut mailbox, DEFAULT_WORKSPACE_ID, &first, &batch, 1);
    assert_eq!(a.len(), 1);
    let b = ingest_items(&mut mailbox, DEFAULT_WORKSPACE_ID, &second, &batch, 1);
    assert_eq!(b.len(), 1);
    assert_eq!(mailbox.rows.len(), 2);
    assert_ne!(a[0].id, b[0].id);
}

#[test]
fn capability_gates_match_the_matrix() {
    let none = PlatformCapabilities::empty();
    assert!(!can_read_inbox(none));
    assert!(!can_reply(none, InboxKind::Comment));
    assert!(!can_reply(none, InboxKind::Dm));

    let public_only = PlatformCapabilities {
        read_comments: true,
        ..PlatformCapabilities::empty()
    };
    assert!(can_read_inbox(public_only));
    assert!(can_reply(public_only, InboxKind::Comment));
    assert!(can_reply(public_only, InboxKind::Mention));
    assert!(!can_reply(public_only, InboxKind::Dm));

    let dms_only = PlatformCapabilities {
        read_dms: true,
        send_dm: true,
        ..PlatformCapabilities::empty()
    };
    assert!(can_read_inbox(dms_only));
    assert!(can_reply(dms_only, InboxKind::Dm));
    assert!(!can_reply(dms_only, InboxKind::Comment));
}

#[test]
fn refresh_never_polls_a_disconnected_account() {
    let all = vec![account("acc_1", true), account("acc_2", false), account("acc_3", true)];
    let chosen = select_accounts(&all, None).unwrap();
    let ids: Vec<&str> = chosen.iter().map(|a| a.id.as_str()).collect();
    assert_eq!(ids, vec!["acc_1", "acc_3"]);

    let err = select_accounts(&all, Some("acc_2")).unwrap_err();
    assert_eq!(err.message(), "account @me is not connected");
    assert!(matches!(err, ApiError::Conflict(_)));
    assert_eq!(
        select_accounts(&all, Some("acc_9")).unwrap_err().message(),
        "account not found"
    );
    assert_eq!(select_accounts(&all, Some("acc_3")).unwrap()[0].id, "acc_3");
    let shape = provider_account(&all[0]);
    assert_eq!(shape.label.as_deref(), Some("@me"));
    assert_eq!(shape.external_id.as_deref(), Some("ext_1"));
}

#[test]
fn a_pass_tells_every_failure_and_keeps_what_the_others_returned() {
    let mut summary = RefreshSummary::default();
    summary.record("@a", &Poll::Skipped);
    summary.record("@b", &Poll::Unreachable("timeout".into()));
    summary.record("@c", &Poll::Stored(3, 2));
    summary.record("@d", &Poll::Unstored(4, "disk".into()));
    assert_eq!(summary.accounts_skipped, 1);
    assert_eq!(summary.accounts_polled, 3);
    assert_eq!(summary.fetched, 7);
    assert_eq!(summary.new, 2);
    assert_eq!(
        summary.errors,
        vec!["@b: timeout".to_string(), "@d: storing items failed: disk".to_string()]
    );
}

#[test]
fn a_reply_needs_the_capability_and_the_platforms_consent() {
    let acc = account("acc_1", true);
    let item = ingest_items(
        &mut Mailbox::new(),
        DEFAULT_WORKSPACE_ID,
        &acc,
        &[incoming("d1", InboxKind::Dm, "psst")],
        1,
    )
    .remove(0);
    let refused = reply_request(&item, PlatformCapabilities::empty()).unwrap_err();
    assert_eq!(
        refused.message(),
        "replying to a dm on X is not supported by the configured provider"
    );
    let caps = PlatformCapabilities {
        send_dm: true,
        ..PlatformCapabilities::empty()
    };
    assert_eq!(reply_request(&item, caps).unwrap().external_id, "d1");

    assert!(after_reply(&PublishResult::Published {
        remote_id: "r".into(),
        remote_url: None
    })
    .is_ok());
    let err = after_reply(&PublishResult::err("closed")).unwrap_err();
    assert_eq!((err.status(), err.message().as_str()), (502, "closed"));
}

#[test]
fn one_unreachable_account_does_not_lose_what_the_others_returned() {
    let accounts = vec![
        account("a", true),
        account("b", true),
        account("c", true),
        account("d", true),
    ];
    let readable = PlatformCapabilities {
        read_comments: true,
        ..PlatformCapabilities::empty()
    };
    let mut pass = InboxPass::start(accounts.clone());
    assert!(pass.consider(PlatformCapabilities::empty()).is_none());
    assert_eq!(pass.at, 1);
    assert_eq!(pass.consider(readable).unwrap().id, "b");
    pass.unreachable("timeout".into());
    assert_eq!(pass.consider(readable).unwrap().id, "c");
    let batch = vec![
        incoming("c1", InboxKind::Comment, "one"),
        incoming("c1", InboxKind::Comment, "one"),
    ];
    let mut mailbox = Mailbox::new();
    let new = ingest_items(&mut mailbox, DEFAULT_WORKSPACE_ID, &accounts[2], &batch, 1);
    let ids: Vec<String> = new.iter().map(|i| i.id.clone()).collect();
    pass.stored(batch.len(), new);
    assert!(pass.consider(readable).is_some());
    pass.unstored(3, "disk".into());
    assert_eq!(pass.at, pass.accounts.len());
    assert_eq!(pass.summary.accounts_polled, 3);
    assert_eq!(pass.summary.accounts_skipped, 1);
    assert_eq!((pass.summary.fetched, pass.summary.new), (5, 1));
    assert_eq!(pass.fresh.len(), 1);
    assert_eq!(pass.fresh[0].id, ids[0], "an item is announced under the id it is kept under");
    assert_eq!(
        pass.summary.errors,
        vec!["@me: timeout".to_string(), "@me: storing items failed: disk".to_string()]
    );
}

#[test]
fn refresh_skips_accounts_no_provider_can_read() {
    let all = vec![account("acc_1", true)];
    let mut pass = InboxPass::start(select_accounts(&all, None).unwrap());
    let nothing = UnconfiguredProvider.capabilities(Platform::X);
    while pass.at < pass.accounts.len() {
        assert!(pass.consider(nothing).is_none());
    }
    let summary = pass.summary;
    assert_eq!(summary.accounts_polled, 0);
    assert_eq!(summary.accounts_skipped, 1);
    assert_eq!(summary.fetched, 0);
    assert!(summary.errors.is_empty());
}
