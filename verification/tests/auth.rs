use ryu_social::auth::{bearer_ok, bearer_token, ct_eq, expected_token};
use ryu_social::config::{port_from, Config, DEFAULT_PORT};

#[test]
fn bearer_ok_matches_only_exact_nonempty_token() {
    assert!(bearer_ok(Some("secret"), Some("secret")));
    assert!(!bearer_ok(Some("secret"), Some("other")));
    assert!(!bearer_ok(Some("secre"), Some("secret")));
    assert!(!bearer_ok(None, Some("secret")));
}

#[test]
fn bearer_ok_is_fail_closed_without_expected() {
    assert!(!bearer_ok(Some("secret"), None));
    assert!(!bearer_ok(Some(""), Some("")));
    assert!(!bearer_ok(None, None));
}

#[test]
fn a_token_is_read_off_its_header() {
    assert_eq!(bearer_token("Bearer abc"), Some("abc"));
    assert_eq!(bearer_token("bearer abc"), None);
    assert_eq!(bearer_token("Bearer"), None);
    assert_eq!(bearer_token("Bearer "), Some(""));
    assert_eq!(expected_token(Some("  t  ")).as_deref(), Some("t"));
    assert_eq!(expected_token(Some("   ")), None);
    assert_eq!(expected_token(None), None);
    assert!(ct_eq(b"\x00\xff", b"\x00\xff"));
    assert!(!ct_eq(b"\x00\xff", b"\x00\xfe"));
    assert!(!ct_eq(b"", b"a"));
}

#[test]
fn the_environment_names_the_port_the_batch_and_the_switch() {
    assert_eq!(port_from(None), DEFAULT_PORT);
    assert_eq!(port_from(Some(" 9001 ")), 9001);
    assert_eq!(port_from(Some("+7")), 7);
    assert_eq!(port_from(Some("65536")), DEFAULT_PORT);
    assert_eq!(port_from(Some("-1")), DEFAULT_PORT);
    assert_eq!(port_from(Some("")), DEFAULT_PORT);

    let c = Config::from_env(1, None, None);
    assert_eq!((c.port, c.sweep_batch_size, c.scheduler_enabled), (1, 50, true));
    assert_eq!(Config::from_env(0, Some("12"), None).sweep_batch_size, 12);
    assert_eq!(Config::from_env(0, Some("0"), None).sweep_batch_size, 50);
    assert_eq!(Config::from_env(0, Some("x"), None).sweep_batch_size, 50);
    assert!(!Config::from_env(0, None, Some(" off ")).scheduler_enabled);
    assert!(!Config::from_env(0, None, Some("0")).scheduler_enabled);
    assert!(!Config::from_env(0, None, Some("false")).scheduler_enabled);
    assert!(Config::from_env(0, None, Some("no")).scheduler_enabled);
}
