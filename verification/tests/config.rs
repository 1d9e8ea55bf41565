use laya_gateway::config::{
    bind_is_loopback, non_blank, normalize_laya_url, routing_flag_enabled, trim_trailing_slashes,
    ConfigError, PersistedSettings,
};

#[test]
fn normalize_host_port() {
    assert_eq!(
        normalize_laya_url("10.8.0.9:8343").unwrap(),
        "http://10.8.0.9:8343/v1/systemone"
    );
}

#[test]
fn normalize_base() {
    assert_eq!(
        normalize_laya_url("http://127.0.0.1:8000").unwrap(),
        "http://127.0.0.1:8000/v1/systemone"
    );
}

#[test]
fn normalize_full() {
    assert_eq!(
        normalize_laya_url("http://127.0.0.1:8000/v1/systemone/").unwrap(),
        "http://127.0.0.1:8000/v1/systemone"
    );
}

#[test]
fn normalize_trims_whitespace_and_keeps_https() {
    assert_eq!(
        normalize_laya_url("  https://laya.local///  ").unwrap(),
        "https://laya.local/v1/systemone"
    );
}

#[test]
fn normalize_empty_is_refused() {
    assert_eq!(normalize_laya_url(" \t\n").unwrap_err(), ConfigError::EmptyLayaUrl);
    assert_eq!(ConfigError::EmptyLayaUrl.message(), "laya_url is empty");
}

#[test]
fn normalize_bare_scheme_is_not_http() {
    assert_eq!(normalize_laya_url("http://").unwrap_err(), ConfigError::LayaUrlNotHttp);
    assert_eq!(ConfigError::LayaUrlNotHttp.message(), "laya_url must be http(s)");
}

#[test]
fn normalize_is_idempotent_on_example() {
    let once = normalize_laya_url("10.8.0.9:8343/").unwrap();
    let twice = normalize_laya_url(&once).unwrap();
    assert_eq!(once, twice);
}

#[test]
fn normalize_keeps_trailing_space_before_slash() {
    assert_eq!(
        normalize_laya_url("http://a/v1/systemone /").unwrap(),
        "http://a/v1/systemone "
    );
}

#[test]
fn loopback_binds() {
    assert!(bind_is_loopback("127.0.0.1:8790"));
    assert!(bind_is_loopback("localhost:8790"));
    assert!(!bind_is_loopback("0.0.0.0:8790"));
    assert!(!bind_is_loopback("127.0.0"));
    assert!(bind_is_loopback("127.0.0.1"));
    assert!(bind_is_loopback("localhost"));
    assert!(!bind_is_loopback("localhost.example.com:8790"));
    assert!(!bind_is_loopback("127.0.0.1.evil:80"));
    assert!(!bind_is_loopback("localhostfoo"));
}

#[test]
fn routing_flags() {
    for on in ["1", "true", "TRUE", "On", "yes", "YeS"] {
        assert!(routing_flag_enabled(on), "{on}");
    }
    for off in ["0", "off", "no", " true", "truee", ""] {
        assert!(!routing_flag_enabled(off), "{off}");
    }
}

#[test]
fn blank_settings_are_dropped() {
    assert_eq!(non_blank(Some("  ".to_string())), None);
    assert_eq!(non_blank(None), None);
    assert_eq!(non_blank(Some(" k ".to_string())), Some(" k ".to_string()));
}

#[test]
fn trailing_slashes_are_trimmed() {
    assert_eq!(trim_trailing_slashes("https://api.openai.com/v1//"), "https://api.openai.com/v1");
    assert_eq!(trim_trailing_slashes("///"), "");
}

#[test]
fn persisted_settings_are_normalized() {
    let raw = PersistedSettings {
        laya_url: "10.0.0.1:9000".to_string(),
        laya_api_key: Some("   ".to_string()),
        laya_model: Some("laya-s1".to_string()),
    };
    let p = raw.normalized().unwrap();
    assert_eq!(p.laya_url, "http://10.0.0.1:9000/v1/systemone");
    assert_eq!(p.laya_api_key, None);
    assert_eq!(p.laya_model, Some("laya-s1".to_string()));

    let bad = PersistedSettings { laya_url: " ".to_string(), laya_api_key: None, laya_model: None };
    assert_eq!(bad.normalized().unwrap_err(), ConfigError::EmptyLayaUrl);
}

#[test]
fn saved_settings_override_environment() {
    let env = PersistedSettings {
        laya_url: "http://env".to_string(),
        laya_api_key: Some("env-key".to_string()),
        laya_model: Some("env-model".to_string()),
    };
    let saved = PersistedSettings {
        laya_url: "http://saved".to_string(),
        laya_api_key: None,
        laya_model: Some("saved-model".to_string()),
    };
    let r = env.overlaid_with(saved);
    assert_eq!(r.laya_url, "http://saved");
    assert_eq!(r.laya_api_key, Some("env-key".to_string()));
    assert_eq!(r.laya_model, Some("saved-model".to_string()));
}
