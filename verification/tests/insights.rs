use battery_sipjuice::battery::{BatteryInfo, CapacityKind, CapacityValue};
use battery_sipjuice::insights::{
    accept_stored, flush_due, record_health, InsightsData, DATA_VERSION, HEALTH_INTERVAL_MS, MAX_RESUME_GAP_MS,
};
use battery_sipjuice::power::PowerSource;
use battery_sipjuice::session::{battery_identity, ActiveSession, ChargeSession, MIN_SESSION_MS};

fn battery(status: &str, capacity: i64) -> BatteryInfo {
    BatteryInfo {
        device: "BAT0".to_string(),
        model: Some("Test Battery".to_string()),
        manufacturer: Some("Test".to_string()),
        serial_number: Some("SERIAL-1".to_string()),
        technology: Some("Li-ion".to_string()),
        present: Some(true),
        capacity: Some(capacity),
        status: Some(status.to_string()),
        health_status: None,
        full_capacity: Some(CapacityValue { raw: 45_000_000, kind: CapacityKind::Energy }),
        design_capacity: Some(CapacityValue { raw: 50_000_000, kind: CapacityKind::Energy }),
        health_basis_points: Some(9_000),
        cycle_count: Some(100),
        state_of_health: Some(90),
        voltage_now_uv: Some(12_000_000),
        voltage_ocv_uv: None,
        voltage_max_uv: None,
        current_now_ua: Some(1_000_000),
        power_now_uw: Some(10_000_000),
        temperature_dc: Some(320),
        internal_resistance_uohm: None,
        time_to_empty_min: None,
        time_to_full_min: None,
    }
}

fn source(online: bool) -> PowerSource {
    PowerSource {
        name: "usb0".to_string(),
        kind: "USB_C".to_string(),
        online: Some(online),
        voltage_now_uv: Some(20_000_000),
        current_now_ua: Some(1_000_000),
        current_max_ua: Some(3_000_000),
        power_now_uw: Some(20_000_000),
        usb_type: Some("PD".to_string()),
    }
}

/// One watt-hour in the doubled trapezoid sums (µW·ms).
const WH: f64 = 7.2e12;
/// One milliampere-hour in the doubled trapezoid sums (µA·ms).
const MAH: f64 = 7.2e9;

#[test]
fn charging_session_is_integrated_and_finalized_after_unplug_debounce() {
    let mut data = InsightsData::new();
    let t0 = 1_000_000;
    data.tick(&[battery("Charging", 20)], &[source(true)], t0);
    data.tick(&[battery("Charging", 30)], &[source(true)], t0 + 30_000);
    data.tick(&[battery("Charging", 40)], &[source(true)], t0 + 60_000);
    assert_eq!(data.active.len(), 1);

    data.tick(&[battery("Discharging", 40)], &[source(false)], t0 + 90_000);
    assert!(data.sessions.is_empty(), "第一次离线采样只进入结束防抖");
    data.tick(&[battery("Discharging", 40)], &[source(false)], t0 + 120_000);

    assert!(data.active.is_empty());
    assert_eq!(data.sessions.len(), 1);
    let session = &data.sessions[0];
    assert_eq!(session.start_capacity, Some(20));
    assert_eq!(session.end_capacity, Some(40));
    assert_eq!(session.charged_percent, Some(20));
    assert_eq!(session.duration_ms, 60_000);
    assert!((session.battery_energy.unwrap() as f64 / WH - 1.0 / 6.0).abs() < 0.001);
    assert!((session.input_energy.unwrap() as f64 / WH - 1.0 / 3.0).abs() < 0.001);
    assert!((session.charged.unwrap() as f64 / MAH - 16.666).abs() < 0.01);
    assert_eq!(session.usb_types, vec!["PD"]);
    assert!(session.complete);
}

#[test]
fn powered_but_temporarily_not_charging_stays_in_the_same_session() {
    let mut data = InsightsData::new();
    let t0 = 2_000_000;
    data.tick(&[battery("Charging", 70)], &[source(true)], t0);
    data.tick(&[battery("Not charging", 80)], &[source(true)], t0 + 30_000);
    data.tick(&[battery("Charging", 80)], &[source(true)], t0 + 60_000);
    assert_eq!(data.active.len(), 1);
    assert!(data.sessions.is_empty());
}

#[test]
fn starting_session_requests_immediate_flush() {
    let mut data = InsightsData::new();
    assert!(data.tick(&[battery("Charging", 20)], &[source(true)], 2_250_000));
    assert_eq!(data.active.len(), 1);
}

fn assert_same_session(a: &ChargeSession, b: &ChargeSession) {
    assert_eq!(a.id, b.id);
    assert_eq!(a.battery_id, b.battery_id);
    assert_eq!(a.battery_device, b.battery_device);
    assert_eq!(a.battery_name, b.battery_name);
    assert_eq!(a.start_ms, b.start_ms);
    assert_eq!(a.end_ms, b.end_ms);
    assert_eq!(a.start_capacity, b.start_capacity);
    assert_eq!(a.end_capacity, b.end_capacity);
    assert_eq!(a.charged_percent, b.charged_percent);
    assert_eq!(a.duration_ms, b.duration_ms);
    assert_eq!(a.charging_ms, b.charging_ms);
    assert_eq!(a.battery_energy, b.battery_energy);
    assert_eq!(a.input_energy, b.input_energy);
    assert_eq!(a.charged, b.charged);
    assert_eq!(a.average_battery_power, b.average_battery_power);
    assert_eq!(a.average_input_power, b.average_input_power);
    assert_eq!(a.peak_input_power_uw, b.peak_input_power_uw);
    assert_eq!(a.average_temperature, b.average_temperature);
    assert_eq!(a.peak_temperature_dc, b.peak_temperature_dc);
    assert_eq!(a.source_names, b.source_names);
    assert_eq!(a.source_kinds, b.source_kinds);
    assert_eq!(a.usb_types, b.usb_types);
    assert_eq!(a.sample_count, b.sample_count);
    assert_eq!(a.powered_sample_count, b.powered_sample_count);
    assert_eq!(a.health_end, b.health_end);
    assert_eq!(a.cycle_count_end, b.cycle_count_end);
    assert_eq!(a.complete, b.complete);
    assert_eq!(a.end_reason, b.end_reason);
}

#[test]
fn active_preview_matches_finish_once_session_is_recordable() {
    let t0 = 2_300_000;
    let mut active = ActiveSession::new(&battery("Charging", 20), &[source(true)], t0);
    active.observe(&battery("Charging", 30), &[source(true)], t0 + MIN_SESSION_MS);

    let preview = active.preview();
    let finished = active.finish(false, "active").unwrap();

    assert_same_session(&preview, &finished);
}

#[test]
fn early_active_preview_keeps_aggregate_metrics_hidden() {
    let active = ActiveSession::new(&battery("Charging", 20), &[source(true)], 2_400_000);

    let preview = active.preview();

    assert_eq!(preview.sample_count, 1);
    assert_eq!(preview.battery_energy, None);
    assert_eq!(preview.input_energy, None);
    assert!(preview.average_temperature.is_none());
    assert_eq!(preview.peak_temperature_dc, Some(320));
}

#[test]
fn session_temperature_only_includes_actual_charging_samples() {
    let mut data = InsightsData::new();
    let t0 = 2_500_000;
    let mut charging = battery("Charging", 70);
    charging.temperature_dc = Some(320);
    data.tick(&[charging], &[source(true)], t0);

    let mut idle = battery("Not charging", 80);
    idle.temperature_dc = Some(700);
    data.tick(&[idle], &[source(true)], t0 + 30_000);

    let mut charging_again = battery("Charging", 85);
    charging_again.temperature_dc = Some(340);
    data.tick(&[charging_again], &[source(true)], t0 + 60_000);
    data.tick(&[battery("Discharging", 85)], &[source(false)], t0 + 90_000);
    data.tick(&[battery("Discharging", 85)], &[source(false)], t0 + 120_000);

    let session = &data.sessions[0];
    let avg = session.average_temperature.unwrap();
    assert_eq!(avg.sum_dc as f64 / avg.count as f64 / 10.0, 33.0);
    assert_eq!(session.peak_temperature_dc, Some(340));
}

#[test]
fn stale_active_session_is_closed_as_incomplete() {
    let mut data = InsightsData::new();
    let t0 = 3_000_000;
    data.tick(&[battery("Charging", 20)], &[source(true)], t0);
    data.tick(&[battery("Charging", 30)], &[source(true)], t0 + 30_000);
    data.tick(&[battery("Charging", 40)], &[source(true)], t0 + MAX_RESUME_GAP_MS + 60_000);
    assert_eq!(data.sessions.len(), 1);
    assert!(!data.sessions[0].complete);
    assert_eq!(data.sessions[0].end_reason, "sampling_gap");
    assert_eq!(data.active.len(), 1, "当前仍充电时应开启新会话");
}

#[test]
fn health_snapshots_are_daily_and_separated_by_serial_number() {
    let mut data = InsightsData::new();
    let t0 = 4_000_000;
    data.tick(&[battery("Discharging", 50)], &[], t0);
    data.tick(&[battery("Discharging", 49)], &[], t0 + HEALTH_INTERVAL_MS - 1);
    assert_eq!(data.health.len(), 1);
    data.tick(&[battery("Discharging", 48)], &[], t0 + HEALTH_INTERVAL_MS);
    assert_eq!(data.health.len(), 2);

    let mut replacement = battery("Discharging", 80);
    replacement.serial_number = Some("SERIAL-2".to_string());
    data.tick(&[replacement], &[], t0 + HEALTH_INTERVAL_MS + 30_000);
    assert_eq!(data.health.len(), 3);
    assert_ne!(data.health[0].battery_id, data.health[2].battery_id);
}

#[test]
fn identity_prefers_a_trimmed_serial_number() {
    let mut b = battery("Charging", 10);
    assert_eq!(battery_identity(&b), "serial:SERIAL-1");
    b.serial_number = Some("  ABC  ".to_string());
    assert_eq!(battery_identity(&b), "serial:ABC");
    b.serial_number = Some("   ".to_string());
    assert_eq!(battery_identity(&b), "device:BAT0");
    b.serial_number = None;
    assert_eq!(battery_identity(&b), "device:BAT0");
}

#[test]
fn missing_battery_ends_session_after_two_samples() {
    let mut data = InsightsData::new();
    let t0 = 5_000_000;
    data.tick(&[battery("Charging", 20)], &[source(true)], t0);
    data.tick(&[battery("Charging", 30)], &[source(true)], t0 + 30_000);
    data.tick(&[], &[source(true)], t0 + 60_000);
    assert_eq!(data.active.len(), 1);
    assert!(data.sessions.is_empty());
    let urgent = data.tick(&[], &[source(true)], t0 + 90_000);
    assert!(urgent);
    assert!(data.active.is_empty());
    assert_eq!(data.sessions[0].end_reason, "battery_missing");
    assert!(!data.sessions[0].complete);
}

#[test]
fn short_session_leaves_no_record() {
    let mut data = InsightsData::new();
    let t0 = 6_000_000;
    data.tick(&[battery("Charging", 20)], &[source(true)], t0);
    data.tick(&[battery("Discharging", 20)], &[source(false)], t0 + 10_000);
    let urgent = data.tick(&[battery("Discharging", 20)], &[source(false)], t0 + 20_000);
    assert!(!urgent);
    assert!(data.active.is_empty());
    assert!(data.sessions.is_empty());
}

#[test]
fn view_filters_and_orders() {
    let mut data = InsightsData::new();
    let t0 = 7_000_000;
    data.tick(&[battery("Charging", 20)], &[source(true)], t0);
    data.tick(&[battery("Charging", 30)], &[source(true)], t0 + 30_000);
    data.tick(&[battery("Discharging", 30)], &[source(false)], t0 + 60_000);
    data.tick(&[battery("Discharging", 30)], &[source(false)], t0 + 90_000);
    data.tick(&[battery("Charging", 31)], &[source(true)], t0 + 120_000);
    let v = data.insights_view(None);
    assert_eq!(v.sessions.len(), 2);
    assert!(v.sessions[0].active);
    assert_eq!(v.sessions[0].session.end_reason, "active");
    assert!(!v.sessions[1].active);
    assert_eq!(v.health.len(), 1);
    assert!(data.insights_view(Some("serial:OTHER")).sessions.is_empty());
    assert_eq!(data.insights_view(Some("")).sessions.len(), 2);
    assert_eq!(data.insights_view(Some("serial:SERIAL-1")).health.len(), 1);
}

#[test]
fn flush_cadence() {
    assert!(flush_due(true, 3));
    assert!(flush_due(false, 0));
    assert!(flush_due(false, 10));
    assert!(!flush_due(false, 11));
}

#[test]
fn versioned_data_round_trips() {
    let mut data = InsightsData::new();
    data.tick(&[battery("Discharging", 50)], &[], 6_000_000);
    // What a load keeps of stored data of the current version.
    let restored = accept_stored(data);
    assert_eq!(restored.version, DATA_VERSION);
    assert_eq!(restored.health.len(), 1);

    let mut other = InsightsData::new();
    other.tick(&[battery("Discharging", 50)], &[], 6_000_000);
    other.version = DATA_VERSION + 1;
    let dropped = accept_stored(other);
    assert_eq!(dropped.version, DATA_VERSION);
    assert!(dropped.health.is_empty());
}

#[test]
fn sessions_in_progress_are_recent_and_quiet_samples_change_no_record() {
    let mut data = InsightsData::new();
    let t0 = 5_000_000;
    assert!(data.tick(&[battery("Charging", 20)], &[source(true)], t0));
    assert!(!data.tick(&[battery("Charging", 30)], &[source(true)], t0 + 30_000));
    assert!(data.sessions.is_empty());
    assert_eq!(data.active.len(), 1);
    assert_eq!(data.active[0].last_ms, t0 + 30_000);
    let later = t0 + 30_000 + MAX_RESUME_GAP_MS + 1;
    // A stale session long enough to keep is recorded: store at once.
    assert!(data.tick(&[], &[source(false)], later));
    for a in &data.active {
        assert!(later.saturating_sub(a.last_ms) <= MAX_RESUME_GAP_MS);
    }
    assert!(data.active.is_empty());
    assert_eq!(data.sessions.len(), 1);
}

#[test]
fn health_changes_are_measured_on_the_exact_capacity_ratio() {
    let with_full = |full: i64| {
        let mut b = battery("Discharging", 50);
        b.full_capacity = Some(CapacityValue { raw: full, kind: CapacityKind::Energy });
        b.design_capacity = Some(CapacityValue { raw: 1_000_000, kind: CapacityKind::Energy });
        b
    };
    let mut health = Vec::new();
    record_health(&mut health, &with_full(990_000), 10_000_000, false);
    assert_eq!(health.len(), 1);
    // 99 % to 98.9005 %: under 0.1 percentage point, though the rounded
    // basis points differ by 10.
    record_health(&mut health, &with_full(989_005), 10_060_000, true);
    assert_eq!(health.len(), 1);
    // 99 % to 98.85 %: more than 0.1 percentage point.
    record_health(&mut health, &with_full(988_500), 10_120_000, true);
    assert_eq!(health.len(), 2);
}
