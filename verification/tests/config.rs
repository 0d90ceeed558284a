use fastchat_tui::config::{AppConfig, BackendConfig, BackendMap};

#[test]
fn test_default_config() {
    let config = AppConfig::default();
    assert_eq!(config.active_backend, "tabbyapi");
    assert!(config.backends.contains_key("tabbyapi"));
    assert!(config.backends.contains_key("ollama"));

    let tabby = config.get_active_backend().unwrap();
    assert_eq!(tabby.model, "default");
}

#[test]
fn default_backends_have_their_urls() {
    let config = AppConfig::default();
    assert_eq!(config.backends.get("ollama").unwrap().url, "http://localhost:11434/v1");
    assert_eq!(config.backends.get("ollama").unwrap().model, "qwen2.5:1.5b");
    assert_eq!(config.backends.get("lmstudio").unwrap().url, "http://localhost:1234/v1");
    assert!(config.backends.get("missing").is_none());
}

#[test]
fn unknown_active_backend_has_no_config() {
    let mut config = AppConfig::default();
    config.active_backend = "nowhere".to_string();
    assert!(config.get_active_backend().is_none());
}

#[test]
fn backend_map_insert_replaces_and_returns_previous() {
    let mut m = BackendMap::new();
    assert!(!m.contains_key("a"));
    let first = m.insert(
        "a".to_string(),
        BackendConfig { url: "u1".to_string(), model: "m1".to_string() },
    );
    assert!(first.is_none());
    let second = m.insert(
        "a".to_string(),
        BackendConfig { url: "u2".to_string(), model: "m2".to_string() },
    );
    assert_eq!(second.unwrap().url, "u1");
    assert_eq!(m.get("a").unwrap().url, "u2");
    assert!(m.set_url("a", "u3".to_string()));
    assert!(m.set_model("a", "m3".to_string()));
    assert!(!m.set_url("b", "x".to_string()));
    assert_eq!(m.get("a").unwrap().url, "u3");
    assert_eq!(m.get("a").unwrap().model, "m3");
}
