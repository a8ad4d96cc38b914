use battery_sipjuice::battery::{
    collect as collect_battery, collect_all, collect_device, find_battery, list_batteries, CapacityKind,
};
use battery_sipjuice::charge_control::{apply, status, validate};
use battery_sipjuice::commands::{
    autostart_change, close_response, discharge_power_uw, tray_action, CloseResponse, TrayAction,
};
use battery_sipjuice::cpu_power::{
    collect_gpu, collect_policy, handle_privileged_cli, is_gpu_dir, is_policy_dir, limit_plan, state,
    CliAction, LimitStep,
};
use battery_sipjuice::power::{collect, parse_usb_type};
use battery_sipjuice::settings::CloseAction;
use battery_sipjuice::sysfs::{list_devices, read_i64, read_raw, Attributes, Device};

fn attrs(pairs: &[(&str, &str)]) -> Attributes {
    let mut a = Attributes::new();
    for (k, v) in pairs {
        a.set(k, v);
    }
    a
}

fn device(name: &str, pairs: &[(&str, &str)]) -> Device {
    Device { name: name.to_string(), attrs: attrs(pairs) }
}

#[test]
fn raw_attributes_are_trimmed() {
    assert_eq!(read_raw(" Charging \n").as_deref(), Some("Charging"));
    assert_eq!(read_raw(" \n"), None);
    assert_eq!(read_i64("-1234\n"), Some(-1234));
    assert_eq!(read_i64("12a"), None);
    assert_eq!(list_devices(vec!["BAT1".to_string(), "AC".to_string(), "BAT0".to_string()]), vec!["AC", "BAT0", "BAT1"]);
}

#[test]
fn battery_is_normalised() {
    let b = collect_device(
        "BAT0",
        &attrs(&[
            ("type", "Battery"),
            ("status", "Discharging"),
            ("capacity", "50"),
            ("energy_full", "45000000"),
            ("energy_full_design", "50000000"),
            ("voltage_now", "12000000"),
            ("current_now", "-1000000"),
            ("power_now", "-10000000"),
            ("temp", "321"),
        ]),
    )
    .unwrap();
    assert_eq!(b.device, "BAT0");
    assert_eq!(b.capacity, Some(50));
    assert_eq!(b.full_capacity.unwrap().kind, CapacityKind::Energy);
    assert_eq!(b.health_basis_points, Some(9000));
    assert_eq!(b.temperature_dc, Some(321));
    // 22.5 Wh at 10 W is 135 minutes.
    assert_eq!(b.time_to_empty_min, Some(135));
    assert_eq!(b.time_to_full_min, None);
    assert!(collect_device("AC", &attrs(&[("type", "Mains")])).is_none());
}

#[test]
fn batteries_and_sources_are_told_apart() {
    let devices = vec![
        device("AC", &[("type", "Mains"), ("online", "1")]),
        device("BAT0", &[("type", "Battery"), ("capacity", "70")]),
        device("ucsi", &[("type", "USB"), ("online", "0"), ("usb_type", "C [PD] PD_PPS")]),
    ];
    assert_eq!(list_batteries(&devices), vec!["BAT0"]);
    assert_eq!(find_battery(&devices).as_deref(), Some("BAT0"));
    assert_eq!(collect_all(&devices).len(), 1);
    assert_eq!(collect_battery(&devices).unwrap().capacity, Some(70));
    assert!(collect_battery(&devices[..1]).is_none());
    let sources = collect(&devices);
    assert_eq!(sources.len(), 2);
    assert_eq!(sources[0].online, Some(true));
    assert_eq!(sources[1].usb_type.as_deref(), Some("PD"));
    assert_eq!(parse_usb_type("[C] PD").as_deref(), Some("C"));
    assert_eq!(parse_usb_type("C PD").as_deref(), None);
}

#[test]
fn charge_thresholds() {
    assert!(validate(40, 80).is_ok());
    assert_eq!(validate(-1, 80).unwrap_err(), "阈值必须在 0–100 之间");
    assert_eq!(validate(0, 0).unwrap_err(), "封顶值不能为 0（0 表示取消限制，请用 clear 操作）");
    assert_eq!(validate(80, 80).unwrap_err(), "恢复充电值(80) 必须小于封顶值(80)");
    let st = status(true, true, Some("80\n"), Some("40"), true);
    assert!(st.supported);
    assert_eq!(st.end_threshold, 80);
    assert_eq!(st.start_threshold, 40);
    assert!(apply("BAT0", 40, 80, &st).unwrap().starts_with("已写入：恢复 40% / 封顶 80%"));
    let ro = status(true, true, Some("80"), Some("40"), false);
    assert!(apply("BAT0", 40, 80, &ro).unwrap_err().contains("/sys/class/power_supply/BAT0/charge_control_end_threshold"));
    let none = status(false, false, None, None, false);
    assert!(!none.supported);
    assert_eq!(apply("BAT0", 40, 80, &none).unwrap_err(), "本设备不支持充电阈值控制");
}

#[test]
fn frequency_caps() {
    let p = collect_policy(
        "policy0",
        &attrs(&[
            ("cpuinfo_max_freq", "2000000"),
            ("cpuinfo_min_freq", "400000"),
            ("scaling_max_freq", "2000000"),
            ("scaling_available_frequencies", "400000 800000 1200000 2000000"),
        ]),
    );
    assert_eq!(p.target_freq, Some(800_000));
    assert_eq!(p.affected_cpus, "?");
    let g = collect_gpu(
        "gpu0",
        &attrs(&[("max_freq", "300000000"), ("cur_freq", "100"), ("available_frequencies", "100000000 300000000")]),
    );
    assert_eq!(g.hardware_max_freq, Some(300_000_000));
    assert_eq!(g.target_freq, Some(100_000_000));
    let st = state(vec![p], vec![g]);
    assert!(st.supported);
    assert!(!st.active);
    let empty = state(Vec::new(), Vec::new());
    assert!(!empty.supported);
}

#[test]
fn privileged_command_line() {
    let args = |v: &[&str]| v.iter().map(|s| s.to_string()).collect::<Vec<_>>();
    assert_eq!(handle_privileged_cli(&args(&["app"])), Ok(CliAction::NotPrivileged));
    assert_eq!(handle_privileged_cli(&args(&["app", "--battery-sipjuice-cpu-power", "enable"])), Ok(CliAction::Apply(true)));
    assert_eq!(handle_privileged_cli(&args(&["app", "--battery-sipjuice-cpu-power", "disable"])), Ok(CliAction::Apply(false)));
    assert_eq!(handle_privileged_cli(&args(&["app", "--battery-sipjuice-cpu-power"])), Err("未知的 CPU 省电模式操作".to_string()));
}

#[test]
fn limit_steps() {
    let policies = vec![
        ("/cpufreq/policy0".to_string(), attrs(&[("cpuinfo_max_freq", "1000000")])),
        ("/cpufreq/policy1".to_string(), attrs(&[])),
    ];
    let steps = limit_plan(true, &policies, &[]).unwrap();
    assert_eq!(steps.len(), 2);
    match &steps[0] {
        LimitStep::Write { dir, file, value } => {
            assert_eq!(dir, "/cpufreq/policy0");
            assert_eq!(*file, "scaling_max_freq");
            assert_eq!(*value, 450_000);
        }
        _ => panic!("expected a write"),
    }
    match &steps[1] {
        LimitStep::Missing { error } => assert_eq!(error, "/cpufreq/policy1 缺少目标频率"),
        _ => panic!("expected a missing target"),
    }
    let lift = limit_plan(false, &policies, &[]).unwrap();
    match &lift[0] {
        LimitStep::Write { value, .. } => assert_eq!(*value, 1_000_000),
        _ => panic!("expected a write"),
    }
    assert_eq!(limit_plan(true, &[], &[]).err().as_deref(), Some("未检测到可调节的 CPU/GPU 频率策略"));
}

#[test]
fn interface_decisions() {
    assert_eq!(close_response(CloseAction::Exit), CloseResponse::StoreAndClose);
    assert_eq!(close_response(CloseAction::Tray), CloseResponse::Hide);
    assert_eq!(close_response(CloseAction::Ask), CloseResponse::Ask);
    assert_eq!(autostart_change(true, false), Some(true));
    assert_eq!(autostart_change(false, true), Some(false));
    assert_eq!(autostart_change(true, true), None);
    assert_eq!(tray_action("quit"), Some(TrayAction::Quit));
    assert_eq!(tray_action("show"), Some(TrayAction::Show));
    assert_eq!(tray_action("lightweight"), Some(TrayAction::Lightweight));
    assert_eq!(tray_action("other"), None);
}

#[test]
fn discharge_power_sums_discharging_batteries() {
    let devices = vec![
        device("BAT0", &[("type", "Battery"), ("status", "Discharging"), ("power_now", "-5000000")]),
        device("BAT1", &[("type", "Battery"), ("status", "Discharging"), ("power_now", "3000000")]),
        device("BAT2", &[("type", "Battery"), ("status", "Charging"), ("power_now", "7000000")]),
    ];
    let bs = collect_all(&devices);
    assert_eq!(discharge_power_uw(&bs), Some(8_000_000));
    assert_eq!(discharge_power_uw(&bs[2..]), None);
}

#[test]
fn device_directories_are_recognised() {
    assert!(is_policy_dir("policy0"));
    assert!(!is_policy_dir("polic"));
    assert!(!is_policy_dir("cpu0"));
    assert!(is_gpu_dir("3d00000.GPU"));
    assert!(is_gpu_dir("kgsl-gpu"));
    assert!(!is_gpu_dir("ddr-devfreq"));
}

#[test]
fn large_readings_are_still_estimated() {
    // 2^50 µWh, half of it left, drawn at 2^45 µW: 16 hours.
    let b = collect_device(
        "BAT9",
        &attrs(&[
            ("type", "Battery"),
            ("status", "Discharging"),
            ("capacity", "50"),
            ("energy_full", "1125899906842624"),
            ("power_now", "-35184372088832"),
        ]),
    )
    .unwrap();
    assert_eq!(b.time_to_empty_min, Some(960));
    // Charging from 25 %: three quarters of 2^50 µWh at 2^46 µW is 12 hours.
    let b = collect_device(
        "BAT9",
        &attrs(&[
            ("type", "Battery"),
            ("status", "Charging"),
            ("capacity", "25"),
            ("energy_full", "1125899906842624"),
            ("power_now", "70368744177664"),
        ]),
    )
    .unwrap();
    assert_eq!(b.time_to_full_min, Some(720));
}
