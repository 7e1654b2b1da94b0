use glances_rs::config::{
    choose_config_path, config_candidates, parse_args, CliArgs, Config, ConfigError, Invalid, PluginConfig, ServerConfig,
    DEFAULT_PORT,
};
use glances_rs::config::Thresholds;
use glances_rs::namemap::NameMap;
use glances_rs::num::Num;
use glances_rs::plugins::PluginId;

fn n(x: f64) -> Num {
    Num::from_bits(x.to_bits())
}

fn secs(x: Num) -> f64 {
    f64::from_bits(x.bits)
}

#[test]
fn parse_args_variants() {
    let args = |list: &[&str]| parse_args(list.iter().map(|s| s.to_string()).collect());
    assert_eq!(args(&[]).unwrap(), CliArgs::default());
    assert_eq!(args(&["--config", "/tmp/x.toml"]).unwrap().config, Some("/tmp/x.toml".to_string()));
    assert_eq!(args(&["--config=/tmp/x.toml"]).unwrap().config, Some("/tmp/x.toml".to_string()));
    assert_eq!(args(&["-c", "x.toml"]).unwrap().config, Some("x.toml".to_string()));
    assert!(args(&["--help"]).unwrap().help);
    assert!(args(&["-V"]).unwrap().version);
    assert!(args(&["--config"]).is_err());
    assert!(args(&["--bogus"]).is_err());
}

#[test]
fn parse_args_error_messages() {
    let args = |list: &[&str]| parse_args(list.iter().map(|s| s.to_string()).collect());
    assert_eq!(args(&["--config"]).unwrap_err(), "--config requires a path");
    assert_eq!(args(&["--bogus"]).unwrap_err(), "unknown argument: --bogus (try --help)");
    // the last path wins; flags combine.
    let a = args(&["-c", "a.toml", "--config=b.toml", "-h", "--version"]).unwrap();
    assert_eq!(a.config, Some("b.toml".to_string()));
    assert!(a.help && a.version);
}

#[test]
fn empty_toml_gives_defaults() {
    let config = Config::default().validated(None).ok().unwrap();
    assert!(config.server.bind.is_loopback());
    assert_eq!(config.server.port, 61208);
    assert_eq!(DEFAULT_PORT, 61208);
    assert_eq!(config.server.password, None);
    assert!(config.security.cors_origins.is_empty());
    assert_eq!(config.security.trusted_hosts, ["localhost", "127.0.0.1"]);
}

#[test]
fn full_toml_overrides_defaults() {
    let mut config = Config::default();
    config.server.port = 8080;
    config.server.password = Some("secret".to_string());
    config.collect.refresh = n(1.5);
    config.collect.idle_cycles = 3;
    config.collect.guard_timeout = n(2.0);
    let mut cpu = PluginConfig::default();
    cpu.refresh = Some(n(0.5));
    config.plugins.insert("cpu".to_string(), cpu);
    let mut network = PluginConfig::default();
    network.enabled = Some(false);
    network.show = vec!["^eth".to_string()];
    network.hide = vec!["^lo$".to_string()];
    config.plugins.insert("network".to_string(), network);
    let config = config.validated(None).ok().unwrap();
    assert_eq!(config.server.port, 8080);
    assert_eq!(config.server.password.as_deref(), Some("secret"));
    assert_eq!(secs(config.refresh_for("cpu")), 0.5);
    assert_eq!(secs(config.refresh_for("mem")), 1.5);
    let (period, cycles) = config.idle_timeout_for("cpu");
    assert_eq!(secs(period) * cycles as f64, 1.5);
    assert_eq!(secs(config.guard_timeout()), 2.0);
    assert!(!config.plugin_enabled("network"));
    assert!(config.plugin_enabled("cpu"));
    assert_eq!(config.plugin_config("network").unwrap().show, ["^eth"]);
}

#[test]
fn default_idle_timeout_is_five_cycles() {
    let config = Config::default();
    assert_eq!(secs(config.refresh_for("mem")), 2.0);
    let (period, cycles) = config.idle_timeout_for("mem");
    assert_eq!(secs(period) * cycles as f64, 10.0);
}

#[test]
fn unknown_plugin_section_is_an_error() {
    let mut config = Config::default();
    let mut pc = PluginConfig::default();
    pc.refresh = Some(n(1.0));
    config.plugins.insert("cpus".to_string(), pc);
    assert!(matches!(config.validated(None), Err(ConfigError::Invalid(Invalid::UnknownPlugin(_)))));
}

#[test]
fn non_positive_refresh_is_an_error() {
    let mut config = Config::default();
    config.collect.refresh = n(0.0);
    assert!(matches!(config.validated(None), Err(ConfigError::Invalid(Invalid::Refresh(_)))));
    let mut config = Config::default();
    let mut pc = PluginConfig::default();
    pc.refresh = Some(n(-1.0));
    config.plugins.insert("cpu".to_string(), pc);
    assert!(matches!(config.validated(None), Err(ConfigError::Invalid(Invalid::PluginRefresh(_, _)))));
}

#[test]
fn invalid_show_hide_regex_is_an_error() {
    let mut config = Config::default();
    let mut pc = PluginConfig::default();
    pc.hide = vec!["(unclosed".to_string()];
    config.plugins.insert("network".to_string(), pc);
    match config.validate() {
        Err(Invalid::Regex { plugin, list, pattern }) => {
            assert_eq!(plugin, "network");
            assert_eq!(list, "hide");
            assert_eq!(pattern, "(unclosed");
        },
        _ => panic!("regex error expected"),
    }
}

#[test]
fn other_validation_errors() {
    let mut config = Config::default();
    config.collect.guard_timeout = n(f64::NAN);
    assert!(matches!(config.validate(), Err(Invalid::GuardTimeout(_))));
    let mut config = Config::default();
    config.collect.idle_cycles = 0;
    assert!(matches!(config.validate(), Err(Invalid::IdleCycles)));
    let mut config = Config::default();
    config.alerts.history_size = 0;
    assert!(matches!(config.validate(), Err(Invalid::HistorySize)));
    let mut config = Config::default();
    config.alerts.min_duration_seconds = n(-0.5);
    assert!(matches!(config.validate(), Err(Invalid::MinDuration(_))));
    let mut config = Config::default();
    let mut pc = PluginConfig::default();
    pc.min_duration_seconds = Some(n(f64::INFINITY));
    config.plugins.insert("fs".to_string(), pc);
    assert!(matches!(config.validate(), Err(Invalid::PluginMinDuration(_, _))));
    assert!(Config::default().validate().is_ok());
}

#[test]
fn thresholds_out_of_order_are_an_error() {
    let t = |c: Option<f64>, w: Option<f64>, cr: Option<f64>| Thresholds { careful: c.map(n), warning: w.map(n), critical: cr.map(n) };
    // declared block out of order.
    let mut config = Config::default();
    let mut pc = PluginConfig::default();
    pc.thresholds.insert("percent".to_string(), t(Some(80.0), Some(70.0), None));
    config.plugins.insert("fs".to_string(), pc);
    assert!(matches!(config.validate(), Err(Invalid::Thresholds { item: None, .. })));
    // a per-item override that merges into an out-of-order set.
    let mut config = Config::default();
    let mut pc = PluginConfig::default();
    pc.thresholds.insert("percent".to_string(), t(Some(70.0), Some(80.0), None));
    let mut root = NameMap::new();
    root.insert("percent".to_string(), t(None, None, Some(75.0)));
    pc.thresholds_by_item.insert("/".to_string(), root);
    config.plugins.insert("fs".to_string(), pc);
    match config.validate() {
        Err(Invalid::Thresholds { plugin, item, field }) => {
            assert_eq!(plugin, "fs");
            assert_eq!(item.as_deref(), Some("/"));
            assert_eq!(field, "percent");
        },
        _ => panic!("threshold error expected"),
    }
    // a subset in order, merged in order, passes.
    let mut config = Config::default();
    let mut pc = PluginConfig::default();
    pc.thresholds.insert("percent".to_string(), t(Some(70.0), Some(80.0), None));
    let mut root = NameMap::new();
    root.insert("percent".to_string(), t(None, None, Some(95.0)));
    pc.thresholds_by_item.insert("/".to_string(), root);
    config.plugins.insert("fs".to_string(), pc);
    assert!(config.validate().is_ok());
}

fn server_with(password: Option<&str>, password_env: Option<&str>) -> ServerConfig {
    let mut s = ServerConfig::default();
    s.password = password.map(|p| p.to_string());
    s.password_env = password_env.map(|p| p.to_string());
    s
}

#[test]
fn password_env_resolves_the_secret_from_the_environment() {
    let mut s = server_with(None, Some("GLANCES_RS_TEST_PW_OK"));
    assert!(s.resolve_password(Some("from-env".to_string())).is_ok());
    assert_eq!(s.password.as_deref(), Some("from-env"));
    // The variable name is consumed; only the resolved secret remains.
    assert_eq!(s.password_env, None);
}

#[test]
fn password_env_missing_variable_is_an_error() {
    let mut s = server_with(None, Some("GLANCES_RS_TEST_PW_MISSING"));
    assert!(matches!(s.resolve_password(None), Err(Invalid::PasswordEnvUnset(_))));
}

#[test]
fn password_env_empty_variable_is_an_error() {
    let mut s = server_with(None, Some("GLANCES_RS_TEST_PW_EMPTY"));
    assert!(matches!(s.resolve_password(Some(String::new())), Err(Invalid::PasswordEnvEmpty(_))));
}

#[test]
fn password_and_password_env_together_is_an_error() {
    let mut s = server_with(Some("clear"), Some("GLANCES_RS_TEST_PW_BOTH"));
    assert!(matches!(s.resolve_password(Some("x".to_string())), Err(Invalid::PasswordConflict)));
    let mut config = Config::default();
    config.server = server_with(Some("clear"), Some("GLANCES_RS_TEST_PW_BOTH"));
    assert!(matches!(config.validated(Some("x".to_string())), Err(ConfigError::Invalid(Invalid::PasswordConflict))));
}

#[test]
fn effective_min_duration_prefers_the_plugin_override() {
    let mut config = Config::default();
    let mut pc = PluginConfig::default();
    pc.min_duration_seconds = Some(n(10.0));
    config.plugins.insert("fs".to_string(), pc);
    assert_eq!(secs(config.effective_min_duration(PluginId::Fs)), 10.0);
    assert_eq!(secs(config.effective_min_duration(PluginId::Mem)), 5.0);
}

#[test]
fn explicit_missing_path_is_an_error() {
    let missing = "/nonexistent/glances-rs.toml".to_string();
    // the path is given on the command line and is not a file.
    match choose_config_path(Some((missing.clone(), false)), None, vec![]) {
        Err(ConfigError::ExplicitPathMissing(p)) => assert_eq!(p, missing),
        _ => panic!("missing explicit path must be an error"),
    }
    // the same through the environment variable, never a silent fallback.
    let fallback = vec![("glances-rs.toml".to_string(), true)];
    assert!(matches!(
        choose_config_path(None, Some((missing, false)), fallback),
        Err(ConfigError::ExplicitPathMissing(_))
    ));
}

#[test]
fn discovery_takes_the_first_existing_candidate() {
    let candidates = config_candidates(None, Some("/home/u"), true);
    assert_eq!(candidates, ["glances-rs.toml", "/home/u/.config/glances-rs/config.toml", "/etc/glances-rs/config.toml"]);
    let with_xdg = config_candidates(Some("/xdg/"), Some("/home/u"), false);
    assert_eq!(with_xdg, ["glances-rs.toml", "/xdg/glances-rs/config.toml"]);
    let found = choose_config_path(
        None,
        None,
        vec![("a".to_string(), false), ("b".to_string(), true), ("c".to_string(), true)],
    );
    assert!(matches!(found, Ok(Some(ref p)) if p == "b"));
    assert!(matches!(choose_config_path(None, None, vec![("a".to_string(), false)]), Ok(None)));
    assert!(matches!(
        choose_config_path(Some(("x.toml".to_string(), true)), None, vec![]),
        Ok(Some(ref p)) if p == "x.toml"
    ));
}

#[test]
fn parse_args_path_after_config_is_not_an_option() {
    let args = |list: &[&str]| parse_args(list.iter().map(|s| s.to_string()).collect());
    // "-h" is the path here, not the help flag.
    let a = args(&["-c", "-h"]).unwrap();
    assert_eq!(a.config, Some("-h".to_string()));
    assert!(!a.help && !a.version);
    assert!(args(&["-h", "-c"]).is_err());
}
