//! Tests of run-configuration assembly and the textual boolean flag.
use notification_dispatch::config::{parse_bool_flag, RunConfig};

#[test]
fn bool_flag_accepts_exact_spellings_only() {
    assert_eq!(parse_bool_flag("true"), Some(true));
    assert_eq!(parse_bool_flag("false"), Some(false));
    assert_eq!(parse_bool_flag("TRUE"), None);
    assert_eq!(parse_bool_flag("yes"), None);
    assert_eq!(parse_bool_flag(""), None);
    assert_eq!(parse_bool_flag("truex"), None);
}

#[test]
fn config_build_validates_inputs() {
    let ok = RunConfig::build(
        "2vxsx-fae".to_string(),
        "https://ic0.example".to_string(),
        "identity-pem-material".to_string(),
        "true",
        60,
    )
    .unwrap();
    assert!(ok.development_mode);
    assert_eq!(ok.claim_lease, 60);
    assert_eq!(ok.ledger_endpoint, "https://ic0.example");

    assert!(RunConfig::build(
        String::new(),
        "e".to_string(),
        "c".to_string(),
        "false",
        60
    )
    .is_none());
    assert!(RunConfig::build(
        "aaaaa-aa".to_string(),
        "e".to_string(),
        "c".to_string(),
        "maybe",
        60
    )
    .is_none());
    assert!(RunConfig::build(
        "aaaaa-aa".to_string(),
        "e".to_string(),
        "c".to_string(),
        "false",
        0
    )
    .is_none());
}

/// The textual principal must parse: a text that is not a principal (the
/// check sequence cannot match) is rejected even when everything else is in
/// order.
#[test]
fn config_build_rejects_invalid_principal_text() {
    assert!(RunConfig::build(
        "not-a-principal".to_string(),
        "https://ic0.example".to_string(),
        "identity-pem-material".to_string(),
        "false",
        60
    )
    .is_none());
    // The management canister's well-known principal parses.
    assert!(RunConfig::build(
        "aaaaa-aa".to_string(),
        "https://ic0.example".to_string(),
        "identity-pem-material".to_string(),
        "false",
        60
    )
    .is_some());
}
