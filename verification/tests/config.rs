use slix::config::{Config, ConfigError};
use slix::store::Stored;

fn config(access_token: Option<&str>, access_token_secret: Option<&str>) -> Config {
    Config {
        consumer_key: "k".into(),
        consumer_secret: "s".into(),
        access_token: access_token.map(String::from),
        access_token_secret: access_token_secret.map(String::from),
        ..Default::default()
    }
}

#[test]
fn is_connected_requires_both_tokens() {
    let only_access_token = config(Some("t"), None);
    let only_access_token_secret = config(None, Some("ts"));
    let neither = config(None, None);
    assert!(!only_access_token.is_connected());
    assert!(!only_access_token_secret.is_connected());
    assert!(!neither.is_connected());
}

#[test]
fn load_from_missing_file_returns_unconnected() {
    let cfg = Config::load(Stored::Missing, "/home/u/.config/slix".into()).ok().unwrap();
    assert_eq!(cfg.data_dir, "/home/u/.config/slix");
    assert_eq!(cfg.consumer_key, "");
    assert!(cfg.access_token.is_none());
    assert!(cfg.access_token_secret.is_none());
    assert!(!cfg.is_connected());
}

#[test]
fn both_tokens_make_a_connected_config() {
    assert!(config(Some("t"), Some("ts")).is_connected());
}

#[test]
fn stored_config_is_loaded_as_it_is() {
    let stored = config(Some("t"), Some("ts"));
    let cfg = Config::load(Stored::Found(stored), "d".into()).ok().unwrap();
    assert_eq!(cfg.consumer_key, "k");
    assert_eq!(cfg.access_token.as_deref(), Some("t"));
}

#[test]
fn unparsable_config_is_a_json_error() {
    let err = serde_json::from_str::<serde_json::Value>("not json").unwrap_err();
    assert!(matches!(Config::load(Stored::Malformed(err), "d".into()), Err(ConfigError::Json(_))));
}

#[test]
fn unreadable_config_is_an_io_error() {
    let err = std::io::Error::new(std::io::ErrorKind::PermissionDenied, "denied");
    assert!(matches!(Config::load(Stored::Unreadable(err), "d".into()), Err(ConfigError::Io(_))));
}

#[test]
fn setting_the_access_token_connects() {
    let mut cfg = config(None, None);
    cfg.set_access_token("AT".into(), "ATS".into());
    assert!(cfg.is_connected());
    assert_eq!(cfg.access_token.as_deref(), Some("AT"));
    assert_eq!(cfg.access_token_secret.as_deref(), Some("ATS"));
}
