use battery_sipjuice::battery::BatteryInfo;
use battery_sipjuice::reminder::{
    battery_label, evaluate, high_battery_text, high_temp_text, low_battery_text, low_temp_text,
    temperature_notifications, Fired,
};
use battery_sipjuice::settings::Settings;

#[test]
fn reminder_text_follows_language() {
    let (title, body) = high_battery_text("en-US", "BAT0", 80);
    assert_eq!(title, "Battery Charged");
    assert!(body.contains("BAT0 has reached 80%"));

    let (title, body) = low_battery_text("zh-CN", "BAT1", 20);
    assert_eq!(title, "电量偏低");
    assert!(body.contains("BAT1 电量已降至 20%"));

    let (title, body) = high_temp_text("en-US", "BAT0", 453);
    assert_eq!(title, "Battery Temperature High");
    assert!(body.contains("BAT0 has reached 45.3°C"));

    let (title, body) = low_temp_text("zh-CN", "BAT1", 48);
    assert_eq!(title, "电池温度偏低");
    assert!(body.contains("BAT1 温度已降至 4.8°C"));
}

#[test]
fn temperature_reminders_are_independent_and_hysteretic() {
    let settings = Settings::default();
    let mut fired = Fired::default();

    let first = temperature_notifications(&settings, "BAT0", Some(460), "BAT0", &mut fired);
    assert_eq!(first.len(), 1, "无需电量字段即可单独判定温度");
    assert!(first[0].0.contains("电池温度偏高"));

    let repeated = temperature_notifications(&settings, "BAT0", Some(455), "BAT0", &mut fired);
    assert!(repeated.is_empty(), "保持在高温区间时不应重复提醒");

    temperature_notifications(&settings, "BAT0", Some(439), "BAT0", &mut fired);
    let after_reset = temperature_notifications(&settings, "BAT0", Some(450), "BAT0", &mut fired);
    assert_eq!(after_reset.len(), 1, "回落超过 1°C 后应允许再次触发");
}

#[test]
fn negative_temperatures_keep_their_sign() {
    let (_, body) = low_temp_text("en-US", "BAT0", -5);
    assert!(body.contains("BAT0 has dropped to -0.5°C"));
    let (_, body) = low_temp_text("en-US", "BAT0", -123);
    assert!(body.contains("-12.3°C"));
    let (_, body) = high_temp_text("zh-CN", "B", 0);
    assert!(body.starts_with("B 温度已达 0.0°C"));
}

fn reading_battery(device: &str, status: &str, capacity: Option<i64>, temperature_dc: Option<i64>) -> BatteryInfo {
    BatteryInfo {
        device: device.to_string(),
        model: None,
        manufacturer: None,
        serial_number: None,
        technology: None,
        present: Some(true),
        capacity,
        status: Some(status.to_string()),
        health_status: None,
        full_capacity: None,
        design_capacity: None,
        health_basis_points: None,
        cycle_count: None,
        state_of_health: None,
        voltage_now_uv: None,
        voltage_ocv_uv: None,
        voltage_max_uv: None,
        current_now_ua: None,
        power_now_uw: None,
        temperature_dc,
        internal_resistance_uohm: None,
        time_to_empty_min: None,
        time_to_full_min: None,
    }
}

#[test]
fn charge_reminders_fire_once_per_entry() {
    let mut s = Settings::default();
    s.language = "en-US".to_string();
    let mut fired = Fired::default();
    let n = evaluate(&s, &[reading_battery("BAT0", "Charging", Some(85), Some(300))], &mut fired);
    assert_eq!(n.len(), 1);
    assert_eq!(n[0].0, "Battery Charged");
    let n = evaluate(&s, &[reading_battery("BAT0", "Full", Some(100), Some(300))], &mut fired);
    assert!(n.is_empty());
    // Discharging re-arms the high charge reminder; 25 % raises the low one.
    let n = evaluate(&s, &[reading_battery("BAT0", "Discharging", Some(25), Some(300))], &mut fired);
    assert_eq!(n.len(), 1);
    assert_eq!(n[0].0, "Low Battery");
    let n = evaluate(&s, &[reading_battery("BAT0", "Charging", Some(90), Some(300))], &mut fired);
    assert_eq!(n.len(), 1);
    assert_eq!(n[0].0, "Battery Charged");
}

#[test]
fn switched_off_reminders_stay_silent() {
    let mut s = Settings::default();
    s.remind_charge = false;
    s.remind_unplug = false;
    s.remind_temp_high = false;
    s.remind_temp_low = false;
    let mut fired = Fired::default();
    let n = evaluate(&s, &[reading_battery("BAT0", "Charging", Some(99), Some(600))], &mut fired);
    assert!(n.is_empty());
}

#[test]
fn labels_name_the_device_among_several_batteries() {
    let mut a = reading_battery("BAT0", "Charging", Some(50), None);
    a.model = Some("Pack".to_string());
    let b = reading_battery("BAT1", "Charging", Some(50), None);
    assert_eq!(battery_label(&a, 2), "Pack · BAT0");
    assert_eq!(battery_label(&a, 1), "Pack");
    assert_eq!(battery_label(&b, 2), "BAT1");
    let mut s = Settings::default();
    s.language = "en-US".to_string();
    let mut fired = Fired::default();
    let mut hot = a;
    hot.temperature_dc = Some(500);
    let n = evaluate(&s, &[hot, b], &mut fired);
    assert_eq!(n.len(), 1);
    assert!(n[0].1.starts_with("Pack · BAT0 has reached 50.0°C"));
}

#[test]
fn a_repeated_evaluation_shows_nothing() {
    let mut s = Settings::default();
    s.language = "en-US".to_string();
    let batteries = [
        reading_battery("BAT0", "Charging", Some(90), Some(460)),
        reading_battery("BAT1", "Discharging", Some(10), Some(-50)),
    ];
    let mut fired = Fired::default();
    let first = evaluate(&s, &batteries, &mut fired);
    assert_eq!(first.len(), 4);
    let second = evaluate(&s, &batteries, &mut fired);
    assert!(second.is_empty());
    let third = evaluate(&s, &batteries, &mut fired);
    assert!(third.is_empty());
}
