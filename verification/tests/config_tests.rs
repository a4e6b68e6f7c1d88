use arrus::config::{load_config, EnvSettings, LogLevel};
use std::time::Duration;

fn empty_env() -> EnvSettings {
    EnvSettings {
        db_base_url: None,
        db_endpoint: None,
        db_user_agent: None,
        db_timeout: None,
        db_max_retries: None,
        db_update_interval: None,
        bridge_port: None,
        log_level: None,
    }
}

fn level_for(text: &str) -> LogLevel {
    let mut env = empty_env();
    env.log_level = Some(text.to_string());
    load_config(env, "/tmp".to_string()).log_level
}

#[test]
fn defaults_apply_without_environment() {
    let config = load_config(empty_env(), "/var/lib/arrus".to_string());
    assert_eq!(config.bridge.port, 1337);
    assert_eq!(config.bridge.bind_address, "127.0.0.1");
    assert_eq!(config.database.http.base_url, "https://discord.com/api/v9");
    assert_eq!(config.database.http.endpoint, "/applications/detectable");
    assert_eq!(config.database.http.user_agent, "arrus/1.0");
    assert_eq!(config.database.http.timeout, Duration::from_secs(30));
    assert_eq!(config.database.http.connect_timeout, Duration::from_secs(10));
    assert_eq!(config.database.http.max_retries, 3);
    assert_eq!(config.database.update_interval, Duration::from_secs(900));
    assert_eq!(config.database.db_path, "/var/lib/arrus");
    assert_eq!(config.log_level, LogLevel::Info);
}

#[test]
fn environment_overrides_defaults() {
    let env = EnvSettings {
        db_base_url: Some("http://localhost:8080".to_string()),
        db_endpoint: Some("/games".to_string()),
        db_user_agent: Some("tester".to_string()),
        db_timeout: Some("5".to_string()),
        db_max_retries: Some("+7".to_string()),
        db_update_interval: Some("3600".to_string()),
        bridge_port: Some("4242".to_string()),
        log_level: Some("debug".to_string()),
    };
    let config = load_config(env, "/db".to_string());
    assert_eq!(config.database.http.base_url, "http://localhost:8080");
    assert_eq!(config.database.http.endpoint, "/games");
    assert_eq!(config.database.http.user_agent, "tester");
    assert_eq!(config.database.http.timeout, Duration::from_secs(5));
    assert_eq!(config.database.http.max_retries, 7);
    assert_eq!(config.database.update_interval, Duration::from_secs(3600));
    assert_eq!(config.bridge.port, 4242);
    assert_eq!(config.log_level, LogLevel::Debug);
}

#[test]
fn unparsable_numbers_keep_defaults() {
    let mut env = empty_env();
    env.bridge_port = Some("70000".to_string());
    env.db_timeout = Some("-1".to_string());
    env.db_max_retries = Some("three".to_string());
    env.db_update_interval = Some("".to_string());
    let config = load_config(env, "/db".to_string());
    assert_eq!(config.bridge.port, 1337);
    assert_eq!(config.database.http.timeout, Duration::from_secs(30));
    assert_eq!(config.database.http.max_retries, 3);
    assert_eq!(config.database.update_interval, Duration::from_secs(900));
}

#[test]
fn log_levels_parse_like_tracing() {
    assert_eq!(level_for("error"), LogLevel::Error);
    assert_eq!(level_for("WaRn"), LogLevel::Warn);
    assert_eq!(level_for("TRACE"), LogLevel::Trace);
    assert_eq!(level_for("1"), LogLevel::Error);
    assert_eq!(level_for("4"), LogLevel::Debug);
    assert_eq!(level_for("5"), LogLevel::Trace);
    assert_eq!(level_for("0"), LogLevel::Info);
    assert_eq!(level_for("6"), LogLevel::Info);
    assert_eq!(level_for("verbose"), LogLevel::Info);
}

#[test]
fn levels_allow_less_detailed_messages() {
    assert!(LogLevel::Info.allows(LogLevel::Error));
    assert!(LogLevel::Info.allows(LogLevel::Info));
    assert!(!LogLevel::Info.allows(LogLevel::Debug));
    assert!(LogLevel::Trace.allows(LogLevel::Debug));
    assert_eq!(LogLevel::Warn.rank(), 2);
}
