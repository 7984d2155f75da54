use wattwise::power::{
    count_cpu_entries, floor_for, operation_mode, plan_mode, AspmPolicy, EnergyPreference,
    Governor, HardwareTuning, OperationMode, PowerManager, PowerOp, PowerSample, RadioDevice, Tier,
};
use wattwise::sysfs::{SysfsEntry, SysfsWrite};

const SEC: u64 = 1_000_000_000;

fn names(list: &[&str]) -> Vec<String> {
    list.iter().map(|s| s.to_string()).collect()
}

fn pair(w: &SysfsWrite) -> (String, String) {
    (w.path.clone(), w.value.clone())
}

fn tuning_off() -> HardwareTuning {
    HardwareTuning {
        thermal_smoothing: false,
        pcie_aspm: false,
        nmi_watchdog: false,
        vm_writeback: false,
        laptop_mode: false,
        smt_status: false,
        wifi_enabled: false,
        bluetooth_enabled: false,
    }
}

fn sample(mode: &str, ac: bool, now: u64) -> PowerSample {
    PowerSample {
        operation_mode: mode.to_string(),
        is_on_ac: ac,
        high_load: false,
        auto_tier: Tier::Eco,
        load_percent: 10,
        load_burst: false,
        load_cores: 1,
        max_perf_pct: 100,
        cool: true,
        usb_autosuspend: true,
        sata_alpm: true,
        tuning: tuning_off(),
        wifi_connected: false,
        bluetooth_connected: false,
        now_ns: now,
    }
}

fn cores(n: usize) -> Vec<String> {
    (0..n).map(|i| format!("cpu{}", i)).collect()
}

#[test]
fn modes_are_read_from_the_configuration() {
    assert_eq!(operation_mode("performance"), OperationMode::Performance);
    assert_eq!(operation_mode("efficiency"), OperationMode::Efficiency);
    assert_eq!(operation_mode("auto"), OperationMode::Auto);
    assert_eq!(operation_mode("Performance"), OperationMode::Auto);
    let p = plan_mode(8, OperationMode::Efficiency, Tier::Extreme, true);
    assert_eq!((p.target, p.max_cores, p.turbo_off, p.fan_policy, p.eco_caps), (Tier::Eco, 4, true, 2, true));
    assert_eq!(plan_mode(2, OperationMode::Efficiency, Tier::Eco, false).max_cores, 2);
    let p = plan_mode(8, OperationMode::Performance, Tier::Eco, false);
    assert_eq!((p.target, p.all_cores, p.fan_policy, p.eco_caps), (Tier::Extreme, true, 1, false));
    let p = plan_mode(8, OperationMode::Auto, Tier::Performance, false);
    assert_eq!((p.target, p.eco_caps, p.fan_policy), (Tier::Performance, true, 0));
}

#[test]
fn core_floor_values() {
    assert_eq!(floor_for(8, Tier::Eco, true), 6);
    assert_eq!(floor_for(5, Tier::Eco, true), 4);
    assert_eq!(floor_for(1, Tier::Eco, true), 1);
    assert_eq!(floor_for(5, Tier::Balanced, false), 3);
    assert_eq!(floor_for(8, Tier::Eco, false), 2);
    assert_eq!(floor_for(8, Tier::Performance, false), 8);
    for n in 0..200usize {
        assert_eq!(floor_for(n, Tier::Eco, true), (n as f32 * 0.75).ceil() as usize);
        assert_eq!(floor_for(n, Tier::Balanced, false), (n as f32 * 0.5).ceil() as usize);
    }
}

#[test]
fn cpu_directories_are_counted() {
    let list = names(&["cpu0", "cpu1", "cpufreq", "cpuidle", "cpu", "cpu12", "power", "cpu1a"]);
    assert_eq!(count_cpu_entries(&list), 4);
    let pm = PowerManager::new(Some(&list), 100 * SEC);
    assert_eq!(pm.total_cores(), 4);
    assert_eq!(pm.unpark_count(), 4);
    assert_eq!(pm.current_tier(), Tier::Balanced);
    assert_eq!(PowerManager::new(None, 100 * SEC).total_cores(), 4);
}

#[test]
fn performance_mode_switches_to_the_fastest_tier() {
    let mut pm = PowerManager::new(Some(&cores(4)), 100 * SEC);
    let s = sample("performance", true, 105 * SEC);
    assert!(pm.step_is_defined(&s));
    let (ops, interval) = pm.handle_state_change(&s);
    assert_eq!(interval, 500);
    assert_eq!(
        ops,
        vec![
            PowerOp::FanPolicy(1),
            PowerOp::TierShift { from: Tier::Balanced, to: Tier::Extreme },
            PowerOp::CpuGovernor(Governor::Performance),
            PowerOp::CpuEnergyPreference(EnergyPreference::Performance),
            PowerOp::Turbo(true),
            PowerOp::MaxPerfPct(100),
            PowerOp::MaxPerfPct(100),
            PowerOp::Report { unpark_count: 4, tier: Tier::Extreme, max_perf_pct: 100 },
            PowerOp::PcieAspm(AspmPolicy::Performance),
            PowerOp::NmiWatchdog(true),
            PowerOp::VmWriteback(1500),
            PowerOp::LaptopMode(0),
            PowerOp::Smt(true),
        ]
    );
    assert_eq!(pm.current_tier(), Tier::Extreme);
}

#[test]
fn tier_changes_wait_three_seconds() {
    let mut pm = PowerManager::new(Some(&cores(4)), 100 * SEC);
    let (ops, interval) = pm.handle_state_change(&sample("performance", true, 102 * SEC));
    assert_eq!(pm.current_tier(), Tier::Balanced);
    assert!(!ops.iter().any(|o| matches!(o, PowerOp::TierShift { .. })));
    assert_eq!(interval, 500);
    pm.handle_state_change(&sample("performance", true, 104 * SEC));
    assert_eq!(pm.current_tier(), Tier::Extreme);
}

#[test]
fn efficiency_on_battery_parks_after_twelve_low_samples() {
    let mut pm = PowerManager::new(Some(&cores(8)), 100 * SEC);
    let (first, interval) = pm.handle_state_change(&sample("efficiency", false, 104 * SEC));
    assert_eq!(interval, 1000);
    assert_eq!(
        first,
        vec![
            PowerOp::FanPolicy(2),
            PowerOp::TierShift { from: Tier::Balanced, to: Tier::Eco },
            PowerOp::CpuGovernor(Governor::Powersave),
            PowerOp::CpuEnergyPreference(EnergyPreference::Power),
            PowerOp::Turbo(true),
            PowerOp::MaxPerfPct(100),
            PowerOp::Turbo(false),
            PowerOp::MaxPerfPct(100),
            PowerOp::Report { unpark_count: 8, tier: Tier::Eco, max_perf_pct: 100 },
            PowerOp::BrightnessCap(40),
            PowerOp::NmiWatchdog(false),
            PowerOp::Smt(false),
            PowerOp::UsbAutosuspend(true),
            PowerOp::SataAlpm(true),
            PowerOp::Radio { device: RadioDevice::Wifi, enabled: false },
            PowerOp::RadioIdle(RadioDevice::Wifi),
            PowerOp::Radio { device: RadioDevice::Bluetooth, enabled: false },
            PowerOp::RadioIdle(RadioDevice::Bluetooth),
        ]
    );
    assert_eq!(pm.unpark_count(), 8);
    for k in 1..12u64 {
        let (ops, _) = pm.handle_state_change(&sample("efficiency", false, (104 + k) * SEC));
        assert_eq!(pm.unpark_count(), 8);
        assert!(!ops.iter().any(|o| matches!(o, PowerOp::ParkCores(_))));
        assert!(!ops.iter().any(|o| matches!(o, PowerOp::UsbAutosuspend(_) | PowerOp::Radio { .. })));
    }
    let (ops, _) = pm.handle_state_change(&sample("efficiency", false, 116 * SEC));
    assert_eq!(pm.unpark_count(), 2);
    let parked: Vec<PowerOp> = ops
        .iter()
        .filter(|o| matches!(o, PowerOp::ParkCores(_) | PowerOp::CoreOnline { .. }))
        .cloned()
        .collect();
    let mut want = vec![PowerOp::ParkCores(2)];
    for id in 1..8 {
        want.push(PowerOp::CoreOnline { id, online: id < 2 });
    }
    assert_eq!(parked, want);
}

#[test]
fn a_burst_brings_every_core_back() {
    let mut pm = PowerManager::new(Some(&cores(8)), 100 * SEC);
    for k in 0..13u64 {
        pm.handle_state_change(&sample("efficiency", false, (104 + k) * SEC));
    }
    assert_eq!(pm.unpark_count(), 2);
    let mut s = sample("auto", false, 120 * SEC);
    s.auto_tier = Tier::Extreme;
    s.load_burst = true;
    s.load_percent = 90;
    let (ops, _) = pm.handle_state_change(&s);
    assert_eq!(pm.prev_load(), 90);
    assert_eq!(pm.unpark_count(), 8);
    let at = ops.iter().position(|o| *o == PowerOp::LoadBurst).unwrap();
    assert_eq!(ops[at + 1], PowerOp::ParkCores(8));
}

#[test]
fn clamp_panics_are_detected() {
    let pm = PowerManager::new(Some(&cores(8)), 100 * SEC);
    assert!(!pm.step_is_defined(&sample("efficiency", true, 104 * SEC)));
    let pm1 = PowerManager::new(Some(&cores(1)), 100 * SEC);
    assert!(pm1.step_is_defined(&sample("efficiency", false, 104 * SEC)));
}

#[test]
fn sysfs_writes_of_the_policies() {
    let pm = PowerManager::new(Some(&cores(4)), 100 * SEC);
    assert_eq!(pair(&pm.set_pcie_aspm("powersave")), ("/sys/module/pcie_aspm/parameters/policy".into(), "powersave".into()));
    assert_eq!(pair(&pm.set_nmi_watchdog(false)), ("/proc/sys/kernel/nmi_watchdog".into(), "0".into()));
    assert_eq!(pair(&pm.set_vm_writeback(3000)), ("/proc/sys/vm/dirty_writeback_centisecs".into(), "3000".into()));
    assert_eq!(pair(&pm.set_laptop_mode(5)), ("/proc/sys/vm/laptop_mode".into(), "5".into()));
    assert_eq!(pair(&pm.set_smt_status(true)), ("/sys/devices/system/cpu/smt/control".into(), "on".into()));
    assert_eq!(
        pair(&pm.set_asus_fan_policy(2)),
        ("/sys/devices/platform/asus-nb-wmi/throttle_thermal_policy".into(), "2".into())
    );
    assert_eq!(pair(&pm.max_perf_write(70)), ("/sys/devices/system/cpu/intel_pstate/max_perf_pct".into(), "70".into()));
    assert_eq!(pair(&pm.core_online_write(13, false)), ("/sys/devices/system/cpu/cpu13/online".into(), "0".into()));
    let t: Vec<(String, String)> = pm.turbo_writes(false).iter().map(pair).collect();
    assert_eq!(
        t,
        vec![
            ("/sys/devices/system/cpu/intel_pstate/no_turbo".to_string(), "1".to_string()),
            ("/sys/devices/system/cpu/cpufreq/boost".to_string(), "0".to_string()),
        ]
    );
    let c: Vec<(String, String)> = pm.apply_charge_threshold(80).iter().map(pair).collect();
    assert_eq!(c.len(), 5);
    assert!(c.iter().all(|(_, v)| v == "80"));
    assert_eq!(c[2].0, "/sys/class/power_supply/BAT0/charge_stop_threshold");
    let all: Vec<(String, String)> = pm
        .write_to_all_possible(&names(&["cpu0", "cpufreq", "cpu1"]), "cpufreq/scaling_governor", "powersave")
        .iter()
        .map(pair)
        .collect();
    assert_eq!(
        all,
        vec![
            ("/sys/devices/system/cpu/cpu0/cpufreq/scaling_governor".to_string(), "powersave".to_string()),
            ("/sys/devices/system/cpu/cpu1/cpufreq/scaling_governor".to_string(), "powersave".to_string()),
        ]
    );
    let usb: Vec<(String, String)> = pm.set_usb_autosuspend(&names(&["usb1", "1-2"]), true).iter().map(pair).collect();
    assert_eq!(usb[1], ("/sys/bus/usb/devices/1-2/power/control".to_string(), "auto".to_string()));
    let sata: Vec<(String, String)> = pm.set_sata_alpm(&names(&["host0"]), false).iter().map(pair).collect();
    assert_eq!(sata, vec![("/sys/class/scsi_host/host0/link_power_management_policy".to_string(), "max_performance".to_string())]);
}

#[test]
fn tier_hardware_and_turbo_sustain() {
    let pm = PowerManager::new(Some(&cores(4)), 100 * SEC);
    assert_eq!(
        pm.apply_tier_hardware(Tier::Balanced, 130 * SEC),
        vec![
            PowerOp::CpuGovernor(Governor::Powersave),
            PowerOp::CpuEnergyPreference(EnergyPreference::BalancePower),
            PowerOp::Turbo(false),
            PowerOp::MaxPerfPct(70),
        ]
    );
    assert_eq!(pm.set_turbo_dynamic(false, 110 * SEC), vec![PowerOp::Turbo(true), PowerOp::MaxPerfPct(100)]);
    assert_eq!(pm.set_turbo_dynamic(true, 200 * SEC), vec![PowerOp::Turbo(true), PowerOp::MaxPerfPct(100)]);
}

#[test]
fn services_and_radios() {
    let pm = PowerManager::new(Some(&cores(4)), 100 * SEC);
    assert_eq!(pm.competing_services(), names(&["tlp", "auto-cpufreq", "power-profiles-daemon", "laptop-mode-tools", "thermald"]));
    assert!(pm.service_installed("UNIT FILE STATE\ntlp.service enabled\n", "tlp"));
    assert!(!pm.service_installed("0 unit files listed.\n", "tlp"));
    let links = vec![
        SysfsEntry { name: "lo".to_string(), content: Some("1\n".to_string()) },
        SysfsEntry { name: "wlan0".to_string(), content: Some("0\n".to_string()) },
    ];
    assert!(!pm.is_wifi_connected(&links));
    let links = vec![SysfsEntry { name: "wlo1".to_string(), content: Some("1\n".to_string()) }];
    assert!(pm.is_wifi_connected(&links));
    let bt = vec![SysfsEntry { name: "hci0".to_string(), content: Some("0".to_string()) }];
    assert!(!pm.is_bluetooth_connected(&bt));
    let bt = vec![SysfsEntry { name: "hci0".to_string(), content: Some(" 2\n".to_string()) }];
    assert!(pm.is_bluetooth_connected(&bt));
}

#[test]
fn a_burst_holds_all_cores_for_two_more_samples() {
    let mut pm = PowerManager::new(Some(&cores(8)), 100 * SEC);
    let mut first_park = None;
    for k in 0..20u64 {
        let mut s = sample("auto", true, (104 + k) * SEC);
        s.auto_tier = Tier::Balanced;
        s.load_burst = k == 0;
        let (ops, _) = pm.handle_state_change(&s);
        if first_park.is_none() && ops.iter().any(|o| matches!(o, PowerOp::ParkCores(_))) {
            first_park = Some(k);
        }
    }
    assert_eq!(first_park, Some(15));
    assert_eq!(pm.unpark_count(), 6);
}

#[test]
fn parking_waits_three_seconds_after_the_last_round() {
    let mut pm = PowerManager::new(Some(&cores(8)), 100 * SEC);
    let mut s = sample("auto", true, 101 * SEC);
    s.auto_tier = Tier::Balanced;
    for _ in 0..13 {
        let (ops, _) = pm.handle_state_change(&s);
        assert!(!ops.iter().any(|o| matches!(o, PowerOp::ParkCores(_))));
    }
    // The twelfth low sample fell inside the hold: nothing was parked and the count restarted.
    assert_eq!(pm.unpark_count(), 8);
    s.now_ns = 104 * SEC;
    for _ in 0..12 {
        pm.handle_state_change(&s);
        assert_eq!(pm.unpark_count(), 8);
    }
    let (ops, _) = pm.handle_state_change(&s);
    assert_eq!(pm.unpark_count(), 6);
    assert!(ops.contains(&PowerOp::ParkCores(6)));
}

#[test]
fn connected_radios_stay_on() {
    let mut pm = PowerManager::new(Some(&cores(4)), 100 * SEC);
    let mut s = sample("efficiency", false, 104 * SEC);
    s.wifi_connected = true;
    s.bluetooth_connected = true;
    let (ops, _) = pm.handle_state_change(&s);
    assert!(!ops.iter().any(|o| matches!(o, PowerOp::Radio { .. } | PowerOp::RadioIdle(_))));
    s.wifi_connected = false;
    s.now_ns = 105 * SEC;
    let (ops, _) = pm.handle_state_change(&s);
    assert!(ops.contains(&PowerOp::Radio { device: RadioDevice::Wifi, enabled: false }));
    assert!(!ops.contains(&PowerOp::Radio { device: RadioDevice::Bluetooth, enabled: false }));
    let mut back = sample("performance", true, 110 * SEC);
    back.wifi_connected = false;
    let (ops, _) = pm.handle_state_change(&back);
    assert!(ops.contains(&PowerOp::Radio { device: RadioDevice::Wifi, enabled: true }));
    assert!(ops.contains(&PowerOp::UsbAutosuspend(false)));
}
