use bifrost::hass_runtime::{HassConfigError, HassRuntimeConfig, HassRuntimeConfigUpdate};

#[test]
fn runtime_defaults_and_completion() {
    let mut cfg = HassRuntimeConfig::default();
    assert!(cfg.enabled);
    assert_eq!(cfg.sync_mode, "manual");
    cfg.sync_mode = "  ".to_string();
    cfg.complete(Some(" http://ha.local:8123 ".to_string()));
    assert_eq!(cfg.url, "http://ha.local:8123");
    assert_eq!(cfg.sync_mode, "manual");
    cfg.url = " http://other ".to_string();
    cfg.complete(Some("http://fallback".to_string()));
    assert_eq!(cfg.url, "http://other");
}

#[test]
fn runtime_token_handling() {
    let mut cfg = HassRuntimeConfig::default();
    assert!(!cfg.public_config().token_present);
    assert_eq!(cfg.set_token("   ".to_string()), Err(HassConfigError::EmptyToken));
    assert_eq!(cfg.token(), None);
    assert_eq!(cfg.set_token(" abc ".to_string()), Ok(()));
    assert_eq!(cfg.token(), Some("abc".to_string()));
    assert!(cfg.public_config().token_present);
    cfg.clear_token();
    assert_eq!(cfg.token(), None);
}

#[test]
fn runtime_config_update() {
    let mut cfg = HassRuntimeConfig::default();
    cfg.set_config_update(HassRuntimeConfigUpdate {
        enabled: false,
        url: " http://ha ".to_string(),
        sync_mode: Some(" auto ".to_string()),
    });
    assert!(!cfg.enabled);
    assert_eq!(cfg.url, "http://ha");
    assert_eq!(cfg.sync_mode, "auto");
    cfg.set_config_update(HassRuntimeConfigUpdate { enabled: true, url: String::new(), sync_mode: None });
    assert_eq!(cfg.sync_mode, "manual");
}
