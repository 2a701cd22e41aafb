use rstrf::config::config_debug;

#[test]
fn debug_masks_password_but_shows_username() {
    let creds = Some(("user@example.com".to_string(), "s3cr3t_password".to_string()));
    let debug = config_debug(&creds);
    assert!(!debug.contains("s3cr3t_password"), "password leaked in debug output");
    assert!(debug.contains("user@example.com"), "username missing from debug output");
    assert!(debug.contains("********"), "masking indicator missing");
}

#[test]
fn debug_with_no_creds_does_not_panic() {
    let debug = config_debug(&None);
    assert!(debug.contains("Config"));
}

#[test]
fn debug_form_matches_the_derived_layout() {
    let creds = Some(("a\"b".to_string(), "pw".to_string()));
    assert_eq!(config_debug(&creds), "Config { space_track_creds: Some((\"a\\\"b\", \"********\")) }");
    assert_eq!(config_debug(&None), "Config { space_track_creds: None }");
}

#[test]
fn debug_form_is_the_same_for_every_password() {
    let a = config_debug(&Some(("u".to_string(), "one".to_string())));
    let b = config_debug(&Some(("u".to_string(), "two".to_string())));
    assert_eq!(a, b);
}
