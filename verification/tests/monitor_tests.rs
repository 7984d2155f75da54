use wattwise::events::{format_log_line, log_view_text, read_log_line, HeavyProcess, Monitor, SystemEvent};
use wattwise::monitor::{core_sysfs, cpu_id_of, is_cpu_thermal_zone, sorted_cpu_ids, CpuTicks, UsageTracker};

const SEC: u64 = 1_000_000_000;

fn ticks(user: u64, idle: u64, iowait: Option<u64>) -> CpuTicks {
    CpuTicks { user, nice: 0, system: 0, idle, iowait, irq: None, softirq: None, steal: None }
}

fn chars(s: &str) -> Vec<char> {
    s.chars().collect()
}

#[test]
fn usage_deltas_follow_the_tick_counters() {
    let mut t = UsageTracker::new();
    let d = t.update(&vec![ticks(100, 300, Some(100)), ticks(50, 150, None)]);
    assert_eq!(d.total, Some((100, 500)));
    assert_eq!(d.cores, vec![None]);
    let d = t.update(&vec![ticks(150, 340, Some(110)), ticks(60, 190, None), ticks(5, 5, None)]);
    assert_eq!(d.total, Some((50, 100)));
    assert_eq!(d.cores, vec![Some((10, 50)), None]);
    let d = t.update(&vec![ticks(10, 10, None)]);
    assert_eq!(d.total, Some((0, 0)));
    assert!(d.cores.is_empty());
    let d = t.update(&vec![]);
    assert_eq!(d.total, None);
    assert!(ticks(u64::MAX, 1, None).in_range() == false);
}

#[test]
fn cpu_ids_come_out_in_order() {
    let list: Vec<String> = ["cpu10", "cpufreq", "cpu2", "cpu", "cpu0", "cpuidle", "cpu1"].iter().map(|s| s.to_string()).collect();
    assert_eq!(sorted_cpu_ids(&list), vec![0, 1, 2, 10]);
    assert_eq!(cpu_id_of(&chars("cpu7")), Some(7));
    assert_eq!(cpu_id_of(&chars("cpu")), None);
    assert_eq!(cpu_id_of(&chars("cpu99999999999999999999999")), None);
}

#[test]
fn core_facts_from_sysfs() {
    let c = core_sysfs(3, Some("2400000\n"), None, Some("powersave\n"), Some("0\n"));
    assert_eq!((c.id, c.frequency, c.max_frequency, c.online), (3, 2400, 5000, false));
    assert_eq!(c.governor, "powersave");
    let c = core_sysfs(0, Some("junk"), Some("4700000"), None, None);
    assert_eq!((c.frequency, c.max_frequency, c.online), (0, 4700, true));
    assert_eq!(c.governor, "unknown");
    assert!(is_cpu_thermal_zone("x86_pkg_temp\n"));
    assert!(is_cpu_thermal_zone("acpitz"));
    assert!(!is_cpu_thermal_zone("iwlwifi_1"));
}

#[test]
fn log_lines_are_read_back() {
    let e = read_log_line(&chars("[2026-03-20 00:50:00] MODE_SHIFT: System strategy shifted to AUTO")).unwrap();
    assert_eq!(e.timestamp, 1773967800);
    assert_eq!(e.event_type, "MODE_SHIFT");
    assert_eq!(e.description, "System strategy shifted to AUTO");
    let e = read_log_line(&chars("[bad time] HW_POLICY: SMT (Hyper-Threading) -> ON")).unwrap();
    assert_eq!(e.timestamp, 0);
    assert_eq!(e.description, "SMT (Hyper-Threading) -> ON");
    assert!(read_log_line(&chars("no bracket")).is_none());
    assert!(read_log_line(&chars("[2026-03-20 00:50:00] no colon")).is_none());
    let ev = SystemEvent { timestamp: 0, event_type: "BURST".to_string(), description: "x: y".to_string() };
    let line = format_log_line("2024-01-01 12:00:00", &ev);
    assert_eq!(line, "[2024-01-01 12:00:00] BURST: x: y\n");
    let back = read_log_line(&chars(line.trim_end())).unwrap();
    assert_eq!((back.timestamp, back.event_type.as_str(), back.description.as_str()), (1704110400, "BURST", "x: y"));
}

#[test]
fn monitor_loads_the_log_sorted_and_without_repeats() {
    let log = "[2024-01-01 12:00:10] B: second\n[2024-01-01 12:00:00] A: first\ngarbage\n[2024-01-01 12:00:10] B: second\n";
    let m = Monitor::new(Some(log), 100 * SEC);
    let ev = m.events();
    assert_eq!(ev.len(), 2);
    assert_eq!((ev[0].timestamp, ev[0].event_type.as_str()), (1704110400, "A"));
    assert_eq!((ev[1].timestamp, ev[1].event_type.as_str()), (1704110410, "B"));
    assert!(Monitor::new(None, 100 * SEC).events().is_empty());
    let many: String = (0..60).map(|i| format!("[2024-01-01 12:{:02}:00] T: e{}\n", i % 60, i)).collect();
    assert_eq!(Monitor::new(Some(&many), 100 * SEC).events().len(), 50);
}

#[test]
fn sample_events() {
    let mut m = Monitor::new(None, 100 * SEC);
    let (fresh, history) = m.update_events("auto", None, None, 1000, 100 * SEC);
    assert!(fresh.is_empty() && history.is_empty());
    let heavy = HeavyProcess { name: "cc1plus".to_string(), pid: 4242 };
    let (fresh, history) = m.update_events("efficiency", Some("Thermal anomaly detected: 80.0°C".to_string()), Some(heavy), 1001, 101 * SEC);
    let got: Vec<(u64, String, String)> = fresh.iter().map(|e| (e.timestamp, e.event_type.clone(), e.description.clone())).collect();
    assert_eq!(
        got,
        vec![
            (1001, "MODE_SHIFT".to_string(), "System strategy shifted to EFFICIENCY".to_string()),
            (1001, "THERMAL_SPIKE".to_string(), "Thermal anomaly detected: 80.0°C".to_string()),
            (1001, "RESOURCE_HEAVY".to_string(), "Process 'cc1plus' (PID 4242) is consuming > 90% CPU".to_string()),
        ]
    );
    assert_eq!(history.len(), 3);
    let heavy = HeavyProcess { name: "cc1plus".to_string(), pid: 4242 };
    let (fresh, _) = m.update_events("efficiency", None, Some(heavy), 1002, 120 * SEC);
    assert!(fresh.is_empty());
    let heavy = HeavyProcess { name: "rustc".to_string(), pid: 7 };
    let (fresh, _) = m.update_events("efficiency", None, Some(heavy), 1003, 132 * SEC);
    assert_eq!(fresh.len(), 1);
    assert_eq!(fresh[0].description, "Process 'rustc' (PID 7) is consuming > 90% CPU");
}

#[test]
fn history_drops_one_old_event_per_sample() {
    let mut m = Monitor::new(None, 100 * SEC);
    for i in 0..55u64 {
        m.update_events("auto", Some(format!("spike {}", i)), None, i, (100 + i) * SEC);
    }
    let ev = m.events();
    assert_eq!(ev.len(), 50);
    assert_eq!(ev[0].description, "spike 5");
    let (fresh, history) = m.update_events("performance", Some("late".to_string()), None, 99, 200 * SEC);
    assert_eq!(fresh.len(), 2);
    assert_eq!(history.len(), 51);
}

#[test]
fn log_viewer_placeholder() {
    assert_eq!(log_view_text(" \n"), "Operational records file is empty. Standby for daemon loop offsets...");
    assert_eq!(log_view_text("[x] A: b\n"), "[x] A: b\n");
}

#[test]
fn a_log_record_reads_back_as_one_line() {
    let ev = SystemEvent { timestamp: 5, event_type: "HW_POLICY".to_string(), description: "SMT (Hyper-Threading) -> OFF".to_string() };
    let record = format_log_line("2024-01-01 12:00:00", &ev);
    let lines = wattwise::text::split_lines(&chars(&record));
    assert_eq!(lines.len(), 1);
    let back = read_log_line(&lines[0]).unwrap();
    assert_eq!(back.event_type, ev.event_type);
    assert_eq!(back.description, ev.description);
    assert_eq!(back.timestamp, 1704110400);
}
