use battery_sipjuice::input_history::{input_readings, InputArchives};
use battery_sipjuice::history::HISTORY_FINE_STEP_MS;
use battery_sipjuice::power::PowerSource;

fn power_source(
    name: &str,
    online: bool,
    power_uw: Option<i64>,
    voltage_uv: Option<i64>,
    current_ua: Option<i64>,
) -> PowerSource {
    PowerSource {
        name: name.to_string(),
        kind: "USB_C".to_string(),
        online: Some(online),
        voltage_now_uv: voltage_uv,
        current_now_ua: current_ua,
        current_max_ua: None,
        power_now_uw: power_uw,
        usb_type: None,
    }
}

const NOW: u64 = 1_700_000_000_000;

#[test]
fn input_readings_sum_online_sources_only() {
    let readings = input_readings(&[
        power_source("usb0", true, Some(5_000_000), Some(20_000_000), Some(250_000)),
        power_source("wls0", true, Some(3_000_000), None, Some(100_000)),
        power_source("offline", false, Some(99_000_000), Some(9_000_000), Some(9_000)),
    ]);

    assert_eq!(readings.len(), 3);
    let total = readings.iter().find(|r| r.source_id == "total").expect("应有总输入");
    assert_eq!(total.power_uw, Some(8_000_000));
    assert_eq!(total.voltage_uv, Some(20_000_000));
    assert_eq!(total.current_ua, Some(350_000));
    assert!(readings.iter().any(|r| r.source_id == "usb0"));
    assert!(readings.iter().any(|r| r.source_id == "wls0"));
    assert!(!readings.iter().any(|r| r.source_id == "offline"));
}

#[test]
fn input_archives_query_single_source() {
    let mut archives = InputArchives::new();
    let base = NOW - 2 * HISTORY_FINE_STEP_MS;
    archives.add_readings(
        base,
        &input_readings(&[power_source("usb0", true, Some(4_000_000), Some(10_000_000), Some(400_000))]),
    );
    archives.add_readings(
        base + HISTORY_FINE_STEP_MS,
        &input_readings(&[power_source("usb0", true, Some(6_000_000), Some(10_000_000), Some(600_000))]),
    );

    let samples = archives.query(10 * HISTORY_FINE_STEP_MS, Some("usb0"), NOW);
    assert!(samples.len() >= 2);
    assert_eq!(samples[0].power_uw, Some(4_000_000));
    assert_eq!(samples[1].current_ua, Some(600_000));
    assert!(archives.query(10 * HISTORY_FINE_STEP_MS, Some("missing"), NOW).is_empty());
}

#[test]
fn input_archives_binary_round_trip() {
    let mut archives = InputArchives::new();
    let base = NOW - HISTORY_FINE_STEP_MS;
    archives.add_readings(
        base,
        &input_readings(&[power_source("usb0", true, Some(7_000_000), Some(20_000_000), Some(350_000))]),
    );

    let bytes = archives.to_bytes();
    let back = InputArchives::from_bytes(&bytes).expect("输入历史应能还原");
    let samples = back.query(10 * HISTORY_FINE_STEP_MS, Some("usb0"), NOW);
    assert_eq!(samples.len(), 1);
    assert_eq!(samples[0].power_uw, Some(7_000_000));
    assert!(InputArchives::from_bytes(b"BSR1").is_none());
}

#[test]
fn nothing_is_recorded_without_an_online_input() {
    let readings = input_readings(&[power_source("usb0", false, Some(1), Some(1), Some(1))]);
    assert!(readings.is_empty());
}

#[test]
fn blank_source_id_queries_the_total() {
    let mut archives = InputArchives::new();
    archives.add_readings(
        NOW - HISTORY_FINE_STEP_MS,
        &input_readings(&[
            power_source("usb0", true, Some(2_000_000), None, None),
            power_source("usb1", true, Some(-3_000_000), None, None),
        ]),
    );
    let total = archives.query(10 * HISTORY_FINE_STEP_MS, Some("  "), NOW);
    assert_eq!(total.len(), 1);
    assert_eq!(total[0].power_uw, Some(5_000_000));
    let also_total = archives.query(10 * HISTORY_FINE_STEP_MS, None, NOW);
    assert_eq!(also_total[0].power_uw, Some(5_000_000));
}

#[test]
fn input_files_with_float_sums_are_refused() {
    let mut bytes = InputArchives::new().to_bytes();
    assert_eq!(&bytes[..4], b"BSI2");
    bytes[3] = b'1';
    assert!(InputArchives::from_bytes(&bytes).is_none());
}

#[test]
fn input_files_with_float_sums_are_read_for_conversion() {
    let mut archives = InputArchives::new();
    archives.add_readings(
        30_000,
        &input_readings(&[power_source("usb0", true, Some(7_000_000), Some(20_000_000), Some(350_000))]),
    );
    let mut bytes = archives.to_bytes();
    bytes[3] = b'1';
    let sources = InputArchives::from_float_bytes(&bytes).unwrap().into_sources();
    let ids: Vec<&str> = sources.iter().map(|(id, _)| id.as_str()).collect();
    assert_eq!(ids, vec!["total", "usb0"]);
    let mut rebuilt = InputArchives::new();
    for (id, a) in sources {
        rebuilt.set_archives(&id, a);
    }
    bytes[3] = b'2';
    assert_eq!(rebuilt.to_bytes(), bytes);
}
