use wattwise::battery::{is_charging, GenericLinuxBattery};
use wattwise::config::{resolve_config_home, AppConfig};
use wattwise::power::OperationMode;
use wattwise::sysfs::SysfsWrite;
use wattwise::vendors::asus::{read_threshold, AsusBattery};
use wattwise::vendors::ideapad::IdeaPadBattery;

fn pair(w: &SysfsWrite) -> (String, String) {
    (w.path.clone(), w.value.clone())
}

#[test]
fn charging_is_read_from_trimmed_status() {
    assert!(is_charging(Some("Charging\n")));
    assert!(!is_charging(Some("Discharging\n")));
    assert!(!is_charging(Some("Full")));
    assert!(!is_charging(None));
}

#[test]
fn generic_battery_reports_no_thresholds() {
    let b = GenericLinuxBattery::new();
    let st = b.battery_state(true, Some("Charging\n")).unwrap();
    assert!(st.is_charging);
    assert_eq!(st.start_threshold, None);
    assert_eq!(st.stop_threshold, None);
    assert_eq!(st.vendor, "Generic Linux");
    assert_eq!(b.battery_state(false, Some("Charging")).err().unwrap(), "No battery found at BAT0");
    assert_eq!(b.set_thresholds(40, 80), Err("Thresholds not supported by generic driver".to_string()));
}

#[test]
fn asus_reads_and_writes_thresholds() {
    let b = AsusBattery::new();
    let st = b.battery_state(true, Some("Discharging"), Some(" 40\n"), Some("80\n")).unwrap();
    assert!(!st.is_charging);
    assert_eq!(st.start_threshold, Some(40));
    assert_eq!(st.stop_threshold, Some(80));
    assert_eq!(st.vendor, "Asus");
    let st = b.battery_state(true, None, Some("abc"), None).unwrap();
    assert_eq!(st.start_threshold, None);
    assert_eq!(st.stop_threshold, None);
    assert_eq!(read_threshold(Some("300")), None);
    assert!(b.battery_state(false, None, None, None).is_err());
    let w: Vec<(String, String)> = b.set_thresholds(40, 80).iter().map(pair).collect();
    assert_eq!(
        w,
        vec![
            ("/sys/class/power_supply/BAT0/charge_control_end_threshold".to_string(), "100".to_string()),
            ("/sys/class/power_supply/BAT0/charge_control_start_threshold".to_string(), "40".to_string()),
            ("/sys/class/power_supply/BAT0/charge_control_end_threshold".to_string(), "80".to_string()),
        ]
    );
}

#[test]
fn ideapad_conservation_mode() {
    let b = IdeaPadBattery::new();
    let on = b.battery_state(true, Some("Charging"), Some("1\n")).unwrap();
    assert_eq!(on.stop_threshold, Some(60));
    assert_eq!(on.start_threshold, None);
    assert_eq!(on.vendor, "IdeaPad");
    let off = b.battery_state(true, Some("Charging"), Some("0")).unwrap();
    assert_eq!(off.stop_threshold, Some(100));
    let unknown = b.battery_state(true, Some("Charging"), None).unwrap();
    assert_eq!(unknown.stop_threshold, Some(100));
    let path = "/sys/bus/platform/drivers/ideapad_acpi/VPC2004:00/conservation_mode".to_string();
    assert_eq!(pair(&b.set_thresholds(0, 60)), (path.clone(), "1".to_string()));
    assert_eq!(pair(&b.set_thresholds(0, 61)), (path.clone(), "0".to_string()));
    assert_eq!(pair(&b.set_thresholds(75, 20)), (path, "1".to_string()));
}

#[test]
fn config_defaults_and_home() {
    let c = AppConfig::default();
    assert_eq!(c.operation_mode, "auto");
    assert!(c.usb_autosuspend);
    assert!(c.sata_alpm);
    assert_eq!(c.mode(), OperationMode::Auto);
    let perf = AppConfig { operation_mode: "performance".to_string(), usb_autosuspend: false, sata_alpm: false };
    assert_eq!(perf.mode(), OperationMode::Performance);
    assert_eq!(resolve_config_home(Some("/home/ana"), Some("/home/bob")), "/home/ana");
    assert_eq!(resolve_config_home(Some("/root"), Some("/home/bob")), "/home/bob");
    assert_eq!(resolve_config_home(Some("/root"), None), "/etc/wattwise");
    assert_eq!(resolve_config_home(None, Some("/home/bob")), "/etc/wattwise");
}

#[test]
fn sysfs_write_is_skipped_when_value_already_there() {
    let w = SysfsWrite::new("/proc/sys/vm/laptop_mode", "5");
    assert!(!w.is_needed(false, Some("0")));
    assert!(!w.is_needed(true, Some("5\n")));
    assert!(w.is_needed(true, Some("0\n")));
    assert!(w.is_needed(true, None));
}
