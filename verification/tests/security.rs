use base64::Engine;
use glances_rs::api::security::{authorized, basic_password, host_allowed, password_of_decoded, strip_port};
use glances_rs::config::BindAddr;
use glances_rs::server::{check_security, StartupError};

fn encode(s: &str) -> String {
    base64::prelude::BASE64_STANDARD.encode(s)
}

#[test]
fn basic_password_extracts_the_password_part() {
    let header = format!("Basic {}", encode("admin:s3cret"));
    assert_eq!(basic_password(Some(&header)).as_deref(), Some("s3cret"));
}

#[test]
fn basic_password_handles_a_password_containing_a_colon() {
    let header = format!("Basic {}", encode("user:a:b:c"));
    assert_eq!(basic_password(Some(&header)).as_deref(), Some("a:b:c"));
}

#[test]
fn basic_password_rejects_malformed_headers() {
    assert_eq!(basic_password(Some("Bearer xyz")), None);
    assert_eq!(basic_password(Some("Basic !!!notb64")), None);
    // No colon -> not a valid user:pass pair.
    let header = format!("Basic {}", encode("nopassword"));
    assert_eq!(basic_password(Some(&header)), None);
    assert_eq!(basic_password(None), None);
}

#[test]
fn authorization_compares_the_password() {
    let good = format!("Basic {}", encode("anyone:s3cret"));
    let bad = format!("Basic {}", encode("admin:wrong"));
    assert!(authorized(None, None));
    assert!(!authorized(Some("s3cret"), None));
    assert!(authorized(Some("s3cret"), Some(&good)));
    assert!(!authorized(Some("s3cret"), Some(&bad)));
}

#[test]
fn host_allowed_rules() {
    let trusted = vec!["localhost".to_string(), "127.0.0.1".to_string()];
    // Missing host is allowed (nothing to spoof).
    assert!(host_allowed(None, &trusted));
    // Exact and port-stripped matches.
    assert!(host_allowed(Some("localhost"), &trusted));
    assert!(host_allowed(Some("127.0.0.1:61208"), &trusted));
    // A forged host is rejected.
    assert!(!host_allowed(Some("evil.example.com"), &trusted));
    // Empty allow-list disables the host check.
    assert!(host_allowed(Some("anything"), &[]));
}

#[test]
fn strip_port_handles_ipv4_and_ipv6() {
    assert_eq!(strip_port("127.0.0.1:80"), "127.0.0.1");
    assert_eq!(strip_port("localhost"), "localhost");
    assert_eq!(strip_port("[::1]:80"), "::1");
    assert_eq!(strip_port("[::1]"), "::1");
}

fn v4(a: u8, b: u8, c: u8, d: u8) -> BindAddr {
    BindAddr::V4(a, b, c, d)
}

#[test]
fn loopback_without_password_is_ok() {
    assert!(check_security(v4(127, 0, 0, 1), None).is_ok());
    assert!(check_security(BindAddr::V6(0, 0, 0, 0, 0, 0, 0, 1), None).is_ok());
}

#[test]
fn loopback_with_password_is_ok() {
    assert!(check_security(v4(127, 0, 0, 1), Some("secret")).is_ok());
}

#[test]
fn non_loopback_with_password_is_ok() {
    assert!(check_security(v4(0, 0, 0, 0), Some("secret")).is_ok());
    assert!(check_security(v4(192, 168, 1, 10), Some("secret")).is_ok());
}

#[test]
fn non_loopback_without_password_refuses_to_start() {
    assert!(matches!(check_security(v4(0, 0, 0, 0), None), Err(StartupError::OpenBindWithoutPassword(_))));
    assert!(matches!(check_security(v4(192, 168, 1, 10), None), Err(StartupError::OpenBindWithoutPassword(_))));
    assert!(matches!(
        check_security(BindAddr::V6(0, 0, 0, 0, 0, 0, 0, 0), None),
        Err(StartupError::OpenBindWithoutPassword(_))
    ));
}

#[test]
fn password_of_decoded_splits_at_first_colon() {
    assert_eq!(password_of_decoded(b"glances:s3:cret".to_vec()), Some("s3:cret".to_string()));
    assert_eq!(password_of_decoded(b":".to_vec()), Some(String::new()));
    assert_eq!(password_of_decoded(b"no-colon".to_vec()), None);
    assert_eq!(password_of_decoded(vec![b'u', b':', 0xff]), None); // not UTF-8
}
