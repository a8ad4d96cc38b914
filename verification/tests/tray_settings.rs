use battery_sipjuice::settings::{CloseAction, Settings, SettingsStore};
use battery_sipjuice::tray::tray_labels;

#[test]
fn tray_labels_follow_language() {
    assert_eq!(tray_labels("en-US").show, "Show Window");
    assert_eq!(tray_labels("zh-CN").lightweight, "轻量模式");
    assert_eq!(tray_labels("unknown").quit, "退出");
}

#[test]
fn normalization_prevents_overlapping_temperature_thresholds() {
    let mut settings = Settings::default();
    settings.remind_temp_high_at = 20;
    settings.remind_temp_low_at = 20;
    let settings = settings.normalized();
    assert_eq!(settings.remind_temp_high_at, 20);
    assert_eq!(settings.remind_temp_low_at, 18);

    let mut settings = Settings::default();
    settings.remind_temp_high_at = 200;
    settings.remind_temp_low_at = -100;
    let settings = settings.normalized();
    assert_eq!(settings.remind_temp_high_at, 80);
    assert_eq!(settings.remind_temp_low_at, -10);

    let mut settings = Settings::default();
    settings.remind_drain_at = 999;
    let settings = settings.normalized();
    assert_eq!(settings.remind_drain_at, 150);

    let mut settings = Settings::default();
    settings.remind_drain_at = -1;
    let settings = settings.normalized();
    assert_eq!(settings.remind_drain_at, 5);
}

#[test]
fn defaults_match_a_fresh_installation() {
    let s = Settings::default();
    assert_eq!(s.language, "zh-CN");
    assert_eq!(s.theme, "system");
    assert_eq!(s.accent_color, "system");
    assert!(!s.autostart);
    assert!(!s.silent_start);
    assert_eq!(s.close_action, CloseAction::Ask);
    assert!(s.remind_charge);
    assert_eq!(s.remind_charge_at, 30);
    assert!(s.remind_unplug);
    assert_eq!(s.remind_unplug_at, 80);
    assert!(s.remind_temp_high);
    assert_eq!(s.remind_temp_high_at, 45);
    assert!(s.remind_temp_low);
    assert_eq!(s.remind_temp_low_at, 5);
    assert!(s.remind_drain);
    assert_eq!(s.remind_drain_at, 30);
}

#[test]
fn normalizing_twice_changes_nothing_more() {
    let mut s = Settings::default();
    s.remind_temp_high_at = 25;
    s.remind_temp_low_at = 19;
    s.remind_drain_at = 3;
    let once = s.normalized();
    assert_eq!(once.remind_temp_high_at, 25);
    assert_eq!(once.remind_temp_low_at, 19);
    assert_eq!(once.remind_drain_at, 5);
    let twice = once.clone().normalized();
    assert_eq!(twice.remind_temp_high_at, once.remind_temp_high_at);
    assert_eq!(twice.remind_temp_low_at, once.remind_temp_low_at);
    assert_eq!(twice.remind_drain_at, once.remind_drain_at);
}

#[test]
fn store_keeps_settings_normalized() {
    let mut stored = Settings::default();
    stored.language = "en-US".to_string();
    stored.remind_temp_low_at = 50;
    let mut store = SettingsStore::load("settings.json".to_string(), Some(stored));
    assert_eq!(store.path(), "settings.json");
    let got = store.get();
    assert_eq!(got.language, "en-US");
    assert_eq!(got.remind_temp_low_at, 20);

    let mut next = Settings::default();
    next.remind_temp_high_at = 21;
    let written = store.set(next);
    assert_eq!(written.remind_temp_high_at, 21);
    assert_eq!(written.remind_temp_low_at, 5);
    assert_eq!(store.get().remind_temp_high_at, 21);

    let fresh = SettingsStore::load("x".to_string(), None);
    assert_eq!(fresh.get().language, "zh-CN");
}
