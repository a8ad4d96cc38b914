use battery_sipjuice::battery::{BatteryInfo, CapacityKind, CapacityValue};
use battery_sipjuice::history_store::HistoryStore;

fn battery(device: &str, capacity: i64) -> BatteryInfo {
    BatteryInfo {
        device: device.to_string(),
        model: None,
        manufacturer: None,
        serial_number: None,
        technology: None,
        present: Some(true),
        capacity: Some(capacity),
        status: Some("Discharging".to_string()),
        health_status: None,
        full_capacity: Some(CapacityValue { raw: 45_000_000, kind: CapacityKind::Energy }),
        design_capacity: None,
        health_basis_points: None,
        cycle_count: None,
        state_of_health: None,
        voltage_now_uv: Some(12_000_000),
        voltage_ocv_uv: None,
        voltage_max_uv: None,
        current_now_ua: None,
        power_now_uw: Some(8_000_000),
        temperature_dc: Some(300),
        internal_resistance_uohm: None,
        time_to_empty_min: None,
        time_to_full_min: None,
    }
}

const NOW: u64 = 1_700_000_000_000;

#[test]
fn each_battery_keeps_its_own_history() {
    let (mut store, migrated) = HistoryStore::load(None, None, None, &[], NOW);
    assert!(!migrated);
    let outcome = store.tick(&[battery("BAT0", 80), battery("BAT1", 40)], &[], NOW);
    assert!(outcome.flush_battery);
    let range = 3_600_000;
    let primary = store.query(range, "battery", None, None, NOW);
    assert_eq!(primary.len(), 1);
    assert_eq!(primary[0].capacity, Some(80));
    let blank = store.query(range, "battery", None, Some(" "), NOW);
    assert_eq!(blank[0].capacity, Some(80));
    let second = store.query(range, "battery", None, Some("BAT1"), NOW);
    assert_eq!(second.len(), 1);
    assert_eq!(second[0].capacity, Some(40));
    assert_eq!(second[0].power_uw, Some(-8_000_000));
    assert!(store.query(range, "battery", None, Some("BAT9"), NOW).is_empty());

    let each = store.batteries_file();
    let main = store.battery_file();
    let (back, _) = HistoryStore::load(Some(&main), Some(&each), None, &[], NOW);
    let again = back.query(range, "battery", None, Some("BAT1"), NOW);
    assert_eq!(again, second);
}
