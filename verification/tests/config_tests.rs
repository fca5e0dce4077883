use std::collections::HashMap;

use spite_core::config::{
    clamp_backfill, AppConfig, ConfigOverrides, DEFAULT_AUTHORITY, DEFAULT_BACKFILL_COUNT,
    DEFAULT_UNDO_SEND_SECONDS,
};

#[test]
fn defaults_when_no_config_file() {
    let cfg = AppConfig::default().with_overrides(ConfigOverrides::default());
    assert_eq!(cfg.authority, DEFAULT_AUTHORITY);
    assert!(!cfg.is_configured());
}

#[test]
fn config_file_overrides_defaults() {
    let o = ConfigOverrides {
        client_id: Some("11111111-2222-3333-4444-555555555555".into()),
        ..ConfigOverrides::default()
    };
    let cfg = AppConfig::default().with_overrides(o);
    assert_eq!(cfg.client_id, "11111111-2222-3333-4444-555555555555");
    assert_eq!(cfg.authority, DEFAULT_AUTHORITY, "unset fields keep defaults");
    assert!(cfg.is_configured());
}

#[test]
fn db_path_override() {
    let o = ConfigOverrides { db_path: Some("/tmp/custom/spite.db".into()), ..ConfigOverrides::default() };
    let cfg = AppConfig::default().with_overrides(o);
    assert_eq!(cfg.db_path.as_deref(), Some("/tmp/custom/spite.db"));
    assert_eq!(AppConfig::default().db_path, None);
}

#[test]
fn backfill_count_default_and_override() {
    assert_eq!(AppConfig::default().with_overrides(ConfigOverrides::default()).backfill_count, DEFAULT_BACKFILL_COUNT);
    let o = ConfigOverrides { backfill_count: Some(50), ..ConfigOverrides::default() };
    assert_eq!(AppConfig::default().with_overrides(o).backfill_count, 50);
}

#[test]
fn undo_send_seconds_default_and_override() {
    assert_eq!(
        AppConfig::default().with_overrides(ConfigOverrides::default()).undo_send_seconds,
        DEFAULT_UNDO_SEND_SECONDS
    );
    let o = ConfigOverrides { undo_send_seconds: Some(30), ..ConfigOverrides::default() };
    assert_eq!(AppConfig::default().with_overrides(o).undo_send_seconds, 30);
}

#[test]
fn keymap_overrides_parse() {
    assert!(AppConfig::default().with_overrides(ConfigOverrides::default()).keymap.is_empty());
    let mut km = HashMap::new();
    km.insert("focusSearch".to_string(), "s".to_string());
    km.insert("next".to_string(), "n".to_string());
    let cfg = AppConfig::default().with_overrides(ConfigOverrides { keymap: Some(km), ..ConfigOverrides::default() });
    assert_eq!(cfg.keymap.get("focusSearch").map(String::as_str), Some("s"));
    assert_eq!(cfg.keymap.get("next").map(String::as_str), Some("n"));
}

#[test]
fn backfill_window_is_clamped() {
    assert_eq!(clamp_backfill(0), 1);
    assert_eq!(clamp_backfill(50), 50);
    assert_eq!(clamp_backfill(5000), 1000);
    let cfg = AppConfig::default().with_overrides(ConfigOverrides { backfill_count: Some(0), ..ConfigOverrides::default() });
    assert_eq!(cfg.effective_backfill_count(), 1);
}

#[test]
fn undo_delay_is_capped_at_two_minutes() {
    let cfg = AppConfig::default().with_overrides(ConfigOverrides { undo_send_seconds: Some(500), ..ConfigOverrides::default() });
    assert_eq!(cfg.effective_undo_seconds(), 120);
    let cfg = AppConfig::default().with_overrides(ConfigOverrides { undo_send_seconds: Some(0), ..ConfigOverrides::default() });
    assert_eq!(cfg.effective_undo_seconds(), 0);
}
