use battery_sipjuice::history::{
    downsample, Archive, Archives, Reading, Sample, HISTORY_FINE_STEP_MS, HISTORY_MAX_POINTS,
    ROWS_COARSE, ROWS_FINE, ROW_BYTES,
};

fn reading(
    capacity: Option<i64>,
    temperature_mc: Option<i64>,
    power_uw: Option<i64>,
    voltage_uv: Option<i64>,
    current_ua: Option<i64>,
    charging: bool,
) -> Reading {
    Reading { capacity, temperature_mc, power_uw, voltage_uv, current_ua, charging }
}

#[test]
fn consolidates_average_within_bucket() {
    let mut arc = Archive::new(HISTORY_FINE_STEP_MS, 10);
    arc.add(0, reading(Some(20), Some(30_000), Some(-5_000_000), Some(3_700_000), Some(-1_000_000), false));
    arc.add(10_000, reading(Some(30), Some(32_000), Some(-7_000_000), Some(3_900_000), Some(-1_200_000), false));
    let s = arc.samples_since(0, 20_000);
    assert_eq!(s.len(), 1, "两样本落入同一桶应合并为一点");
    assert_eq!(s[0].capacity, Some(25));
    assert_eq!(s[0].temperature_mc, Some(31_000));
    assert_eq!(s[0].power_uw, Some(-6_000_000));
}

#[test]
fn separate_buckets_stay_distinct() {
    let mut arc = Archive::new(HISTORY_FINE_STEP_MS, 10);
    arc.add(0, reading(Some(10), None, None, None, None, false));
    arc.add(40_000, reading(Some(20), None, None, None, None, false));
    let s = arc.samples_since(0, 60_000);
    assert_eq!(s.len(), 2);
    assert_eq!(s[0].capacity, Some(10));
    assert_eq!(s[1].capacity, Some(20));
}

#[test]
fn charging_is_majority_vote() {
    let mut arc = Archive::new(HISTORY_FINE_STEP_MS, 10);
    arc.add(0, reading(None, None, None, None, None, true));
    arc.add(5_000, reading(None, None, None, None, None, true));
    arc.add(10_000, reading(None, None, None, None, None, false));
    let s = arc.samples_since(0, 20_000);
    assert!(s[0].charging, "2/3 充电应判为充电");
}

#[test]
fn all_none_field_yields_none() {
    let mut arc = Archive::new(HISTORY_FINE_STEP_MS, 10);
    arc.add(0, reading(Some(50), None, None, None, None, false));
    let s = arc.samples_since(0, 10_000);
    assert_eq!(s[0].capacity, Some(50));
    assert_eq!(s[0].temperature_mc, None);
    assert_eq!(s[0].power_uw, None);
}

#[test]
fn ring_wraps_and_overwrites() {
    let mut arc = Archive::new(HISTORY_FINE_STEP_MS, 3);
    for i in 0..5u64 {
        arc.add(i * HISTORY_FINE_STEP_MS, reading(Some(i as i64), None, None, None, None, false));
    }
    let s = arc.samples_since(0, 5 * HISTORY_FINE_STEP_MS);
    assert_eq!(s.len(), 3);
    assert_eq!(s.iter().map(|x| x.capacity.unwrap()).collect::<Vec<_>>(), vec![2, 3, 4]);
}

#[test]
fn binary_round_trip() {
    let mut a = Archives::new();
    a.add(0, reading(Some(42), Some(25_500), Some(-3_300_000), Some(3_800_000), Some(-900_000), true));
    a.add(HISTORY_FINE_STEP_MS, reading(Some(43), None, Some(-4_400_000), None, None, false));
    let bytes = a.to_bytes();
    assert_eq!(bytes.len(), 4 + (ROWS_FINE + ROWS_COARSE) * ROW_BYTES);
    let b = Archives::from_bytes(&bytes).expect("应能还原");
    let orig = a.fine_samples_since(0, 10 * HISTORY_FINE_STEP_MS);
    let back = b.fine_samples_since(0, 10 * HISTORY_FINE_STEP_MS);
    assert_eq!(orig.len(), back.len());
    assert_eq!(orig[0].capacity, back[0].capacity);
    assert_eq!(orig[0].temperature_mc, back[0].temperature_mc);
    assert_eq!(orig[0].charging, back[0].charging);
    assert_eq!(orig[1].power_uw, back[1].power_uw);
}

#[test]
fn rejects_bad_bytes() {
    assert!(Archives::from_bytes(b"").is_none());
    assert!(Archives::from_bytes(b"XXXX").is_none());
    let mut bytes = Archives::new().to_bytes();
    bytes[0] = b'Z';
    assert!(Archives::from_bytes(&bytes).is_none());
}

fn sample(i: u64) -> Sample {
    Sample {
        timestamp_ms: i,
        capacity: Some(i as i64),
        temperature_mc: None,
        power_uw: None,
        voltage_uv: None,
        current_ua: None,
        charging: false,
    }
}

#[test]
fn downsample_caps_point_count() {
    let small: Vec<Sample> = (0..10).map(sample).collect();
    assert_eq!(downsample(small.clone()).len(), 10);

    let big: Vec<Sample> = (0..1000).map(sample).collect();
    assert!(downsample(big).len() <= HISTORY_MAX_POINTS);
}

#[test]
fn downsample_averages_each_bucket() {
    // 480 points in buckets of two: each point is the mean of its pair and
    // carries the time of the later sample.
    let big: Vec<Sample> = (0..480).map(sample).collect();
    let d = downsample(big);
    assert_eq!(d.len(), 240);
    assert_eq!(d[0].timestamp_ms, 1);
    assert_eq!(d[0].capacity, Some(1));
    assert_eq!(d[1].capacity, Some(3));
}

#[test]
fn old_buckets_leave_the_archive() {
    let mut arc = Archive::new(HISTORY_FINE_STEP_MS, 10);
    arc.add(0, reading(Some(1), None, None, None, None, false));
    arc.add(HISTORY_FINE_STEP_MS, reading(Some(2), None, None, None, None, false));
    // A cutoff after the first bucket keeps only the second.
    let s = arc.samples_since(HISTORY_FINE_STEP_MS, 2 * HISTORY_FINE_STEP_MS);
    assert_eq!(s.len(), 1);
    assert_eq!(s[0].capacity, Some(2));
}

#[test]
fn files_with_float_sums_are_refused() {
    let mut bytes = Archives::new().to_bytes();
    assert_eq!(&bytes[..4], b"BSR2");
    bytes[3] = b'1';
    assert!(Archives::from_bytes(&bytes).is_none());
}

#[test]
fn files_with_float_sums_keep_their_bits_for_conversion() {
    let (mut fine, coarse) = Archives::new().into_slots();
    fine[0].bucket_start_ms = 30_000;
    fine[0].sample_count = 1;
    fine[0].capacity.sum = 50.5f64.to_bits() as i64;
    fine[0].capacity.count = 1;
    let a = Archives::from_slots(fine, coarse).unwrap();
    let mut bytes = a.to_bytes();
    bytes[3] = b'1';
    assert!(Archives::from_bytes(&bytes).is_none());
    let (fine, coarse) = Archives::from_float_bytes(&bytes).unwrap().into_slots();
    assert_eq!(fine.len(), ROWS_FINE);
    assert_eq!(coarse.len(), ROWS_COARSE);
    assert_eq!(f64::from_bits(fine[0].capacity.sum as u64), 50.5);
    assert_eq!(fine[0].sample_count, 1);
    assert!(Archives::from_float_bytes(&a.to_bytes()).is_none());
    assert!(Archives::from_slots(Vec::new(), Vec::new()).is_none());
}
