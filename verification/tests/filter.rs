use glances_rs::plugins::filter::{hide_or_default, patterns_valid, KeyFilter};

#[test]
fn empty_lists_show_everything() {
    let all = KeyFilter::new(&[], &[]);
    assert!(all.shown("lo"));
    assert!(all.shown("eth0"));
}

#[test]
fn hide_removes_matching_keys() {
    let no_lo = KeyFilter::new(&[], &["^lo$".into()]);
    assert!(!no_lo.shown("lo"));
    assert!(no_lo.shown("eth0"));
}

#[test]
fn hide_wins_over_show() {
    let eth_only = KeyFilter::new(&["^eth".into()], &["^eth1$".into()]);
    assert!(eth_only.shown("eth0"));
    assert!(!eth_only.shown("eth1"));
    assert!(!eth_only.shown("wlan0"));
    assert!(!eth_only.shown("lo"));
}

#[test]
fn hide_or_default_uses_defaults_only_when_user_sets_none() {
    assert_eq!(hide_or_default(vec![], &["loop.*"]), ["loop.*"]);
    assert_eq!(hide_or_default(vec!["^sr".into()], &["loop.*"]), ["^sr"]);
}

#[test]
fn checked_filter_refuses_a_bad_pattern() {
    assert!(KeyFilter::checked(&["(unclosed".into()], &[]).is_none());
    assert!(KeyFilter::checked(&["^eth".into()], &["^lo$".into()]).is_some());
    assert!(!patterns_valid(&["[".into()]));
    assert!(patterns_valid(&["^sd[a-z]$".into(), "loop.*".into()]));
}
