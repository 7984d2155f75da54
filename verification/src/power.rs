//! The power manager's decisions: performance tiers, core parking, turbo,
//! thermal caps and the power-saving hardware policies.
//!
//! Every decision is a function of the manager's state and a sample of the
//! machine's condition; the result is a list of operations that the caller
//! carries out against sysfs, procfs and `rfkill`.
use vstd::prelude::*;
use vstd::string::*;
use crate::sysfs::{SysfsEntry, SysfsWrite};
use crate::text::{
    all_digits, chars_equal, contains_chars, contains_text, decimal, decimal_string, is_ascii_digit,
    parse_u32, parse_unsigned, str_equals, to_chars, trim, trim_chars,
};

verus! {

/// Fewest cores kept online in the most frugal tier and in efficiency mode.
pub const CORE_MINIMUM: usize = 2;

/// Samples in a row with a lower core target before cores are parked.
pub const LOW_LOAD_THRESHOLD_TICKS: usize = 12;

/// Least time between two tier changes, in nanoseconds (3 s).
pub const TIER_HOLD_NS: u64 = 3000000000;

/// Least time between two rounds of core parking, in nanoseconds (3 s).
pub const PARK_HOLD_NS: u64 = 3000000000;

/// How long turbo stays allowed after the last high load, in nanoseconds (15 s).
pub const TURBO_SUSTAIN_NS: u64 = 15000000000;

/// Performance tiers, from the most frugal to the fastest.
#[derive(Debug, Clone, Copy, PartialEq, Eq, Structural)]
pub enum Tier {
    Eco,
    Balanced,
    Performance,
    Extreme,
}

/// The user's choice of strategy, read from the configuration's `operation_mode`.
#[derive(Debug, Clone, Copy, PartialEq, Eq, Structural)]
pub enum OperationMode {
    Auto,
    Performance,
    Efficiency,
}

/// `"performance"` and `"efficiency"` select those modes; anything else is automatic.
pub open spec fn operation_mode_of(mode: Seq<char>) -> OperationMode {
    if mode == "performance"@ {
        OperationMode::Performance
    } else if mode == "efficiency"@ {
        OperationMode::Efficiency
    } else {
        OperationMode::Auto
    }
}

pub fn operation_mode(mode: &str) -> (m: OperationMode)
    ensures
        m == operation_mode_of(mode@),
{
    if str_equals(mode, "performance") {
        OperationMode::Performance
    } else if str_equals(mode, "efficiency") {
        OperationMode::Efficiency
    } else {
        OperationMode::Auto
    }
}

/// CPU frequency governors that the tiers use.
#[derive(Debug, Clone, Copy, PartialEq, Eq, Structural)]
pub enum Governor {
    Powersave,
    Performance,
}

/// Energy/performance preferences that the tiers use.
#[derive(Debug, Clone, Copy, PartialEq, Eq, Structural)]
pub enum EnergyPreference {
    Power,
    BalancePower,
    BalancePerformance,
    Performance,
}

/// PCIe active-state power management policies.
#[derive(Debug, Clone, Copy, PartialEq, Eq, Structural)]
pub enum AspmPolicy {
    Powersave,
    Performance,
}

#[derive(Debug, Clone, Copy, PartialEq, Eq, Structural)]
pub enum RadioDevice {
    Wifi,
    Bluetooth,
}

/// One step of what the manager decided, in the order it is to be carried out.
#[derive(Debug, Clone, Copy, PartialEq, Eq, Structural)]
pub enum PowerOp {
    /// Set the Asus fan policy (`set_asus_fan_policy`).
    FanPolicy(u32),
    /// The tier changes; to be logged as a mode shift.
    TierShift { from: Tier, to: Tier },
    /// Set the scaling governor of every CPU.
    CpuGovernor(Governor),
    /// Set the energy/performance preference of every CPU.
    CpuEnergyPreference(EnergyPreference),
    /// Allow (`true`) or forbid turbo boost.
    Turbo(bool),
    /// Set the Intel P-state performance cap, in percent.
    MaxPerfPct(u32),
    /// The load jumped by more than 20 points; to be logged.
    LoadBurst,
    /// A round of core parking towards this many online cores; to be logged.
    ParkCores(usize),
    /// Bring one core online or take it offline.
    CoreOnline { id: usize, online: bool },
    /// Publish the daemon state file.
    Report { unpark_count: usize, tier: Tier, max_perf_pct: u32 },
    /// Cap the backlight at this percentage of its maximum.
    BrightnessCap(u32),
    PcieAspm(AspmPolicy),
    NmiWatchdog(bool),
    VmWriteback(u32),
    LaptopMode(u32),
    Smt(bool),
    UsbAutosuspend(bool),
    SataAlpm(bool),
    /// Block (`false`) or unblock a radio with `rfkill`.
    Radio { device: RadioDevice, enabled: bool },
    /// A radio was switched off for being idle; to be logged.
    RadioIdle(RadioDevice),
}

/// Hardware policies that the configuration turns on or off.
#[derive(Debug, Clone, Copy, PartialEq, Eq, Structural)]
pub struct HardwareTuning {
    pub thermal_smoothing: bool,
    pub pcie_aspm: bool,
    pub nmi_watchdog: bool,
    pub vm_writeback: bool,
    pub laptop_mode: bool,
    pub smt_status: bool,
    pub wifi_enabled: bool,
    pub bluetooth_enabled: bool,
}

/// What one sample of the machine tells the manager.
pub struct PowerSample {
    /// The configured `operation_mode`.
    pub operation_mode: String,
    /// Whether the machine runs on mains power.
    pub is_on_ac: bool,
    /// Whether the rolling load average is above 40 %.
    pub high_load: bool,
    /// The tier that the rolling load average calls for in automatic mode.
    pub auto_tier: Tier,
    /// The current total CPU usage, in whole percent (truncated).
    pub load_percent: u32,
    /// Whether the load jumped by more than 20 points since the last sample.
    pub load_burst: bool,
    /// The number of cores that the rolling load average calls for.
    pub load_cores: usize,
    /// The performance cap that the thermal policy calls for, in percent.
    pub max_perf_pct: u32,
    /// Whether the CPU is below 60 °C.
    pub cool: bool,
    /// The configured USB autosuspend and SATA link power settings.
    pub usb_autosuspend: bool,
    pub sata_alpm: bool,
    pub tuning: HardwareTuning,
    /// Whether a Wi-Fi link and a Bluetooth connection are up.
    pub wifi_connected: bool,
    pub bluetooth_connected: bool,
    /// A monotonic clock reading, in nanoseconds.
    pub now_ns: u64,
}

/// What the operation mode decides before the tier logic runs.
#[derive(Debug, Clone, Copy, PartialEq, Eq, Structural)]
pub struct ModePlan {
    pub target: Tier,
    pub eco_caps: bool,
    pub max_cores: usize,
    pub all_cores: bool,
    pub turbo_off: bool,
    pub fan_policy: u32,
}

/// Performance runs every core at the fastest tier with the fan in turbo; efficiency
/// halves the cores (keeping at least two), forbids turbo and quiets the fan; automatic
/// mode follows the load and saves power on battery.
pub open spec fn mode_plan(total: usize, mode: OperationMode, auto_tier: Tier, is_on_ac: bool) -> ModePlan {
    match mode {
        OperationMode::Performance => ModePlan {
            target: Tier::Extreme,
            eco_caps: false,
            max_cores: total,
            all_cores: true,
            turbo_off: false,
            fan_policy: 1,
        },
        OperationMode::Efficiency => ModePlan {
            target: Tier::Eco,
            eco_caps: true,
            max_cores: if total / 2 > CORE_MINIMUM { total / 2 } else { CORE_MINIMUM },
            all_cores: false,
            turbo_off: true,
            fan_policy: 2,
        },
        OperationMode::Auto => ModePlan {
            target: auto_tier,
            eco_caps: !is_on_ac,
            max_cores: total,
            all_cores: false,
            turbo_off: false,
            fan_policy: 0,
        },
    }
}

pub fn plan_mode(total: usize, mode: OperationMode, auto_tier: Tier, is_on_ac: bool) -> (p: ModePlan)
    ensures
        p == mode_plan(total, mode, auto_tier, is_on_ac),
{
    match mode {
        OperationMode::Performance => ModePlan {
            target: Tier::Extreme,
            eco_caps: false,
            max_cores: total,
            all_cores: true,
            turbo_off: false,
            fan_policy: 1,
        },
        OperationMode::Efficiency => ModePlan {
            target: Tier::Eco,
            eco_caps: true,
            max_cores: if total / 2 > CORE_MINIMUM { total / 2 } else { CORE_MINIMUM },
            all_cores: false,
            turbo_off: true,
            fan_policy: 2,
        },
        OperationMode::Auto => ModePlan {
            target: auto_tier,
            eco_caps: !is_on_ac,
            max_cores: total,
            all_cores: false,
            turbo_off: false,
            fan_policy: 0,
        },
    }
}

/// Time since `since`; zero where the clock reads earlier (as `Instant::elapsed`).
pub open spec fn elapsed(now: u64, since: u64) -> u64 {
    if now >= since {
        (now - since) as u64
    } else {
        0
    }
}

pub fn elapsed_ns(now: u64, since: u64) -> (e: u64)
    ensures
        e == elapsed(now, since),
{
    if now >= since {
        now - since
    } else {
        0
    }
}

/// The governor of each tier: powersave for the two frugal ones.
pub open spec fn tier_governor(tier: Tier) -> Governor {
    match tier {
        Tier::Eco | Tier::Balanced => Governor::Powersave,
        _ => Governor::Performance,
    }
}

pub open spec fn tier_preference(tier: Tier) -> EnergyPreference {
    match tier {
        Tier::Eco => EnergyPreference::Power,
        Tier::Balanced => EnergyPreference::BalancePower,
        Tier::Performance => EnergyPreference::BalancePerformance,
        Tier::Extreme => EnergyPreference::Performance,
    }
}

/// Whether a tier asks for turbo: the two fast ones do.
pub open spec fn tier_wants_turbo(tier: Tier) -> bool {
    tier == Tier::Performance || tier == Tier::Extreme
}

/// `ceil(n * 0.75)`.
pub open spec fn three_quarters_up(n: usize) -> usize {
    ((3 * n + 3) / 4) as usize
}

/// `ceil(n * 0.5)`.
pub open spec fn half_up(n: usize) -> usize {
    ((n + 1) / 2) as usize
}

/// The fewest cores kept online: three quarters on mains power; on battery two in the
/// eco tier, half in the balanced tier, all in the fast tiers.
pub open spec fn core_floor(total: usize, tier: Tier, is_on_ac: bool) -> usize {
    if is_on_ac {
        three_quarters_up(total)
    } else {
        match tier {
            Tier::Eco => CORE_MINIMUM,
            Tier::Balanced => half_up(total),
            _ => total,
        }
    }
}

pub fn floor_for(total: usize, tier: Tier, is_on_ac: bool) -> (f: usize)
    ensures
        f == core_floor(total, tier, is_on_ac),
{
    if is_on_ac {
        total - total / 4
    } else {
        match tier {
            Tier::Eco => CORE_MINIMUM,
            Tier::Balanced => total - total / 2,
            _ => total,
        }
    }
}

/// `value.clamp(low, high)`, which is defined where `low <= high`.
pub open spec fn clamp(value: usize, low: usize, high: usize) -> usize {
    if value < low {
        low
    } else if value > high {
        high
    } else {
        value
    }
}

/// The manager's memory between samples, as the contracts see it.
pub struct PowerState {
    pub total_cores: usize,
    pub current_tier: Tier,
    pub last_transition_ns: u64,
    pub last_park_ns: u64,
    pub last_high_load_ns: u64,
    pub low_load_ticks: usize,
    pub current_unpark_count: usize,
    pub prev_usb_state: bool,
    pub prev_sata_state: bool,
    pub prev_wifi_state: bool,
    pub prev_bluetooth_state: bool,
    pub burst_ticks: usize,
    pub prev_load: u32,
}

/// The manager's memory between samples.
pub struct PowerManager {
    total_cores: usize,
    current_tier: Tier,
    last_transition_ns: u64,
    last_park_ns: u64,
    last_high_load_ns: u64,
    low_load_ticks: usize,
    current_unpark_count: usize,
    prev_usb_state: bool,
    prev_sata_state: bool,
    prev_wifi_state: bool,
    prev_bluetooth_state: bool,
    burst_ticks: usize,
    prev_load: u32,
}

impl View for PowerManager {
    type V = PowerState;

    closed spec fn view(&self) -> PowerState {
        PowerState {
            total_cores: self.total_cores,
            current_tier: self.current_tier,
            last_transition_ns: self.last_transition_ns,
            last_park_ns: self.last_park_ns,
            last_high_load_ns: self.last_high_load_ns,
            low_load_ticks: self.low_load_ticks,
            current_unpark_count: self.current_unpark_count,
            prev_usb_state: self.prev_usb_state,
            prev_sata_state: self.prev_sata_state,
            prev_wifi_state: self.prev_wifi_state,
            prev_bluetooth_state: self.prev_bluetooth_state,
            burst_ticks: self.burst_ticks,
            prev_load: self.prev_load,
        }
    }
}

/// A directory entry under `/sys/devices/system/cpu` that names a CPU: `cpu` followed by
/// nothing but ASCII digits (the bare name `cpu` included).
pub open spec fn is_cpu_entry(name: Seq<char>) -> bool {
    &&& name.len() >= 3
    &&& name[0] == 'c'
    &&& name[1] == 'p'
    &&& name[2] == 'u'
    &&& all_digits(name.skip(3))
}

pub fn cpu_entry(name: &[char]) -> (b: bool)
    ensures
        b == is_cpu_entry(name@),
{
    if name.len() < 3 || name[0] != 'c' || name[1] != 'p' || name[2] != 'u' {
        return false;
    }
    let mut k: usize = 3;
    while k < name.len()
        invariant
            3 <= k <= name@.len(),
            forall|m: int| 3 <= m < k ==> is_ascii_digit(#[trigger] name@[m]),
        decreases name.len() - k,
    {
        if !('0' <= name[k] && name[k] <= '9') {
            assert(name@.skip(3)[k - 3] == name@[k as int]);
            return false;
        }
        k = k + 1;
    }
    assert forall|i: int| 0 <= i < name@.skip(3).len() implies is_ascii_digit(
        #[trigger] name@.skip(3)[i],
    ) by {
        assert(name@.skip(3)[i] == name@[i + 3]);
    }
    true
}

/// How many of `names` name a CPU.
pub open spec fn cpu_entry_count(names: Seq<Seq<char>>) -> nat
    decreases names.len(),
{
    if names.len() == 0 {
        0
    } else {
        cpu_entry_count(names.drop_last()) + if is_cpu_entry(names.last()) {
            1nat
        } else {
            0nat
        }
    }
}

proof fn lemma_cpu_entry_count_bound(names: Seq<Seq<char>>)
    ensures
        cpu_entry_count(names) <= names.len(),
    decreases names.len(),
{
    if names.len() > 0 {
        lemma_cpu_entry_count_bound(names.drop_last());
    }
}

/// Counts the entries of `/sys/devices/system/cpu` that name a CPU.
pub fn count_cpu_entries(names: &Vec<String>) -> (n: usize)
    ensures
        n == cpu_entry_count(names.deep_view()),
{
    let mut n: usize = 0;
    let mut k: usize = 0;
    while k < names.len()
        invariant
            k <= names@.len(),
            n == cpu_entry_count(names.deep_view().take(k as int)),
            n <= k,
        decreases names.len() - k,
    {
        let chars = to_chars(names[k].as_str());
        proof {
            let d = names.deep_view();
            assert(d.take(k + 1).drop_last() =~= d.take(k as int));
            assert(d.take(k + 1).last() == names@[k as int]@);
        }
        if cpu_entry(chars.as_slice()) {
            n = n + 1;
        }
        k = k + 1;
    }
    assert(names.deep_view().take(names@.len() as int) =~= names.deep_view());
    n
}

/// `s` after a sample: the time of the last high load moves to `now` when the load is high.
pub open spec fn note_load(s: PowerState, high_load: bool, now: u64) -> PowerState {
    if high_load {
        PowerState { last_high_load_ns: now, ..s }
    } else {
        s
    }
}

/// Turbo is on when asked for, or while the last high load is less than 15 s old;
/// the performance cap follows: 100 % with turbo, 70 % without.
pub open spec fn turbo_dynamic_ops(s: PowerState, request_on: bool, now: u64) -> Seq<PowerOp> {
    let on = request_on || elapsed(now, s.last_high_load_ns) < TURBO_SUSTAIN_NS;
    seq![PowerOp::Turbo(on), PowerOp::MaxPerfPct(if on { 100 } else { 70 })]
}

/// The settings of a tier: its governor, its energy preference, then turbo.
pub open spec fn tier_hardware_ops(s: PowerState, tier: Tier, now: u64) -> Seq<PowerOp> {
    seq![
        PowerOp::CpuGovernor(tier_governor(tier)),
        PowerOp::CpuEnergyPreference(tier_preference(tier)),
    ] + turbo_dynamic_ops(s, tier_wants_turbo(tier), now)
}

/// The tier changes when it differs from the target and the last change is more than 3 s old.
pub open spec fn shift_due(s: PowerState, target: Tier, now: u64) -> bool {
    s.current_tier != target && elapsed(now, s.last_transition_ns) > TIER_HOLD_NS
}

pub open spec fn shift_ops(s: PowerState, plan: ModePlan, now: u64) -> Seq<PowerOp> {
    if shift_due(s, plan.target, now) {
        seq![PowerOp::TierShift { from: s.current_tier, to: plan.target }] + tier_hardware_ops(
            s,
            plan.target,
            now,
        ) + if plan.turbo_off {
            seq![PowerOp::Turbo(false)]
        } else {
            Seq::<PowerOp>::empty()
        }
    } else {
        Seq::<PowerOp>::empty()
    }
}

pub open spec fn shift_state(s: PowerState, plan: ModePlan, now: u64) -> PowerState {
    if shift_due(s, plan.target, now) {
        PowerState { current_tier: plan.target, last_transition_ns: now, ..s }
    } else {
        s
    }
}

/// A burst restarts the two-sample window in which every core stays online;
/// without one the window runs down.
pub open spec fn burst_state(s: PowerState, load_percent: u32, burst: bool) -> PowerState {
    PowerState {
        prev_load: load_percent,
        burst_ticks: if burst {
            2
        } else if s.burst_ticks > 0 {
            (s.burst_ticks - 1) as usize
        } else {
            s.burst_ticks
        },
        ..s
    }
}

/// Parking goes ahead when the last round is at least 3 s old.
pub open spec fn park_due(s: PowerState, now: u64) -> bool {
    elapsed(now, s.last_park_ns) >= PARK_HOLD_NS
}

/// Cores `1 .. total` come online below `target` and go offline from it; core 0 stays.
pub open spec fn core_online_ops(total: usize, target: usize) -> Seq<PowerOp> {
    Seq::new(
        if total > 0 {
            (total - 1) as nat
        } else {
            0
        },
        |i: int| PowerOp::CoreOnline { id: (i + 1) as usize, online: i + 1 < target },
    )
}

pub open spec fn park_ops(s: PowerState, target: usize, now: u64) -> Seq<PowerOp> {
    if park_due(s, now) {
        seq![PowerOp::ParkCores(target)] + core_online_ops(s.total_cores, target)
    } else {
        Seq::<PowerOp>::empty()
    }
}

pub open spec fn park_state(s: PowerState, target: usize, now: u64) -> PowerState {
    if park_due(s, now) {
        PowerState { current_unpark_count: target, last_park_ns: now, ..s }
    } else {
        s
    }
}

/// `n + 1`, wrapping at the top as an atomic counter does.
pub open spec fn wrapping_inc(n: usize) -> usize {
    if n < usize::MAX {
        (n + 1) as usize
    } else {
        0
    }
}

/// The core target and the low-load counter after a sample whose clamped ideal is
/// `ideal`: a higher ideal is taken at once; a lower one only once the counter has
/// reached 12, which then starts again from zero.
pub open spec fn core_target(s: PowerState, ideal: usize) -> (usize, usize) {
    let cur = s.current_unpark_count;
    if ideal > cur {
        (ideal, s.low_load_ticks)
    } else if ideal < cur {
        if s.low_load_ticks >= LOW_LOAD_THRESHOLD_TICKS {
            (ideal, 0)
        } else {
            (cur, wrapping_inc(s.low_load_ticks))
        }
    } else {
        (cur, s.low_load_ticks)
    }
}

/// The ideal number of cores before clamping: all of them when the mode or a recent
/// burst asks for it, else what the load calls for.
pub open spec fn ideal_cores(s: PowerState, plan: ModePlan, sample: PowerSample) -> usize {
    if plan.all_cores || sample.load_burst || s.burst_ticks > 0 {
        s.total_cores
    } else {
        sample.load_cores
    }
}

/// The core phase: the state after it, its operations and the core target.
pub open spec fn cores_phase(s: PowerState, plan: ModePlan, sample: PowerSample) -> (
    PowerState,
    Seq<PowerOp>,
    usize,
) {
    let floor = core_floor(s.total_cores, s.current_tier, sample.is_on_ac);
    let clamped = clamp(ideal_cores(s, plan, sample), floor, plan.max_cores);
    let s3 = burst_state(s, sample.load_percent, sample.load_burst);
    let (target, ticks) = core_target(s3, clamped);
    let s4 = PowerState { low_load_ticks: ticks, ..s3 };
    let burst_ops = op_if(sample.load_burst, PowerOp::LoadBurst);
    if target != s3.current_unpark_count {
        (park_state(s4, target, sample.now_ns), burst_ops + park_ops(s4, target, sample.now_ns), target)
    } else {
        (s4, burst_ops, target)
    }
}

/// The thermal cap, turbo off under any cap, then the published state.
pub open spec fn thermal_ops(max_perf_pct: u32, target: usize, tier: Tier) -> Seq<PowerOp> {
    seq![PowerOp::MaxPerfPct(max_perf_pct)] + if max_perf_pct < 100 {
        seq![PowerOp::Turbo(false)]
    } else {
        Seq::<PowerOp>::empty()
    } + seq![PowerOp::Report { unpark_count: target, tier, max_perf_pct }]
}

pub open spec fn op_if(cond: bool, op: PowerOp) -> Seq<PowerOp> {
    if cond {
        seq![op]
    } else {
        Seq::<PowerOp>::empty()
    }
}

/// A radio that the configuration turns off is blocked once it carries no connection.
pub open spec fn radio_idle_off(enabled_in_config: bool, was_on: bool, connected: bool) -> bool {
    !enabled_in_config && was_on && !connected
}

pub open spec fn radio_off_ops(device: RadioDevice, off: bool) -> Seq<PowerOp> {
    if off {
        seq![PowerOp::Radio { device, enabled: false }, PowerOp::RadioIdle(device)]
    } else {
        Seq::<PowerOp>::empty()
    }
}

/// The configured power-saving policies: backlight at 40 %, then each policy that the
/// configuration selects.
pub open spec fn eco_policy_ops(t: HardwareTuning) -> Seq<PowerOp> {
    seq![PowerOp::BrightnessCap(40)] + op_if(t.pcie_aspm, PowerOp::PcieAspm(AspmPolicy::Powersave))
        + op_if(!t.nmi_watchdog, PowerOp::NmiWatchdog(false)) + op_if(
        t.vm_writeback,
        PowerOp::VmWriteback(3000),
    ) + op_if(t.laptop_mode, PowerOp::LaptopMode(5)) + op_if(!t.smt_status, PowerOp::Smt(false))
}

/// USB and SATA power saving switched on once, idle radios switched off.
pub open spec fn eco_device_ops(s: PowerState, sample: PowerSample) -> Seq<PowerOp> {
    let t = sample.tuning;
    op_if(sample.usb_autosuspend && !s.prev_usb_state, PowerOp::UsbAutosuspend(true)) + op_if(
        sample.sata_alpm && !s.prev_sata_state,
        PowerOp::SataAlpm(true),
    ) + radio_off_ops(
        RadioDevice::Wifi,
        radio_idle_off(t.wifi_enabled, s.prev_wifi_state, sample.wifi_connected),
    ) + radio_off_ops(
        RadioDevice::Bluetooth,
        radio_idle_off(t.bluetooth_enabled, s.prev_bluetooth_state, sample.bluetooth_connected),
    )
}

/// The power-saving caps.
pub open spec fn eco_ops(s: PowerState, sample: PowerSample) -> Seq<PowerOp> {
    eco_policy_ops(sample.tuning) + eco_device_ops(s, sample)
}

pub open spec fn eco_state(s: PowerState, sample: PowerSample) -> PowerState {
    let t = sample.tuning;
    PowerState {
        prev_usb_state: s.prev_usb_state || sample.usb_autosuspend,
        prev_sata_state: s.prev_sata_state || sample.sata_alpm,
        prev_wifi_state: if radio_idle_off(t.wifi_enabled, s.prev_wifi_state, sample.wifi_connected) {
            false
        } else {
            s.prev_wifi_state
        },
        prev_bluetooth_state: if radio_idle_off(
            t.bluetooth_enabled,
            s.prev_bluetooth_state,
            sample.bluetooth_connected,
        ) {
            false
        } else {
            s.prev_bluetooth_state
        },
        ..s
    }
}

/// The performance settings: PCIe for the power source, watchdog on, default writeback,
/// laptop mode off, SMT on; on mains power blocked radios come back; USB and SATA power
/// saving go off.
pub open spec fn restore_ops(s: PowerState, sample: PowerSample) -> Seq<PowerOp> {
    let ac = sample.is_on_ac;
    seq![
        PowerOp::PcieAspm(if ac { AspmPolicy::Performance } else { AspmPolicy::Powersave }),
        PowerOp::NmiWatchdog(true),
        PowerOp::VmWriteback(1500),
        PowerOp::LaptopMode(0),
        PowerOp::Smt(true),
    ] + op_if(ac && !s.prev_wifi_state, PowerOp::Radio { device: RadioDevice::Wifi, enabled: true })
        + op_if(
        ac && !s.prev_bluetooth_state,
        PowerOp::Radio { device: RadioDevice::Bluetooth, enabled: true },
    ) + op_if(s.prev_usb_state, PowerOp::UsbAutosuspend(false)) + op_if(
        s.prev_sata_state,
        PowerOp::SataAlpm(false),
    )
}

pub open spec fn restore_state(s: PowerState, sample: PowerSample) -> PowerState {
    PowerState {
        prev_usb_state: false,
        prev_sata_state: false,
        prev_wifi_state: s.prev_wifi_state || sample.is_on_ac,
        prev_bluetooth_state: s.prev_bluetooth_state || sample.is_on_ac,
        ..s
    }
}

/// The hardware phase: caps when the plan saves power; otherwise the performance
/// settings on mains power or when the CPU is cool; otherwise nothing.
pub open spec fn tune_phase(s: PowerState, plan: ModePlan, sample: PowerSample) -> (
    PowerState,
    Seq<PowerOp>,
) {
    if plan.eco_caps {
        (eco_state(s, sample), eco_ops(s, sample))
    } else if sample.is_on_ac || sample.cool {
        (restore_state(s, sample), restore_ops(s, sample))
    } else {
        (s, Seq::<PowerOp>::empty())
    }
}

/// The plan of a sample in the manager's state.
pub open spec fn sample_plan(s: PowerState, sample: PowerSample) -> ModePlan {
    mode_plan(
        s.total_cores,
        operation_mode_of(sample.operation_mode@),
        sample.auto_tier,
        sample.is_on_ac,
    )
}

/// Whether the clamp of the core target is defined: its floor, in the tier after a
/// possible change, is not above the mode's core limit.
pub open spec fn step_defined(s: PowerState, sample: PowerSample) -> bool {
    let plan = sample_plan(s, sample);
    let s2 = shift_state(note_load(s, sample.high_load, sample.now_ns), plan, sample.now_ns);
    core_floor(s2.total_cores, s2.current_tier, sample.is_on_ac) <= plan.max_cores
}

/// The time until the next sample, in milliseconds: half a second in the fastest tier,
/// a second otherwise.
pub open spec fn sample_interval_ms(plan: ModePlan) -> u64 {
    if plan.target == Tier::Extreme {
        500
    } else {
        1000
    }
}

/// One sample: the new state, the operations in order, and the time to the next sample.
pub open spec fn step(s: PowerState, sample: PowerSample) -> (PowerState, Seq<PowerOp>, u64) {
    let now = sample.now_ns;
    let plan = sample_plan(s, sample);
    let s1 = note_load(s, sample.high_load, now);
    let s2 = shift_state(s1, plan, now);
    let (s3, core_ops, target) = cores_phase(s2, plan, sample);
    let (s4, tune_ops) = tune_phase(s3, plan, sample);
    (
        s4,
        seq![PowerOp::FanPolicy(plan.fan_policy)] + shift_ops(s1, plan, now) + core_ops
            + thermal_ops(sample.max_perf_pct, target, plan.target) + tune_ops,
        sample_interval_ms(plan),
    )
}

impl PowerManager {
    /// A manager for a machine whose `/sys/devices/system/cpu` lists `cpu_entries`
    /// (`None` where the directory cannot be read, which counts as four cores): every
    /// core online, the balanced tier, all clocks started at `now_ns`. The park that
    /// follows construction falls inside the 3 s hold and does nothing.
    pub fn new(cpu_entries: Option<&Vec<String>>, now_ns: u64) -> (pm: PowerManager)
        ensures
            pm@ == (PowerState {
                total_cores: match cpu_entries {
                    Some(names) => cpu_entry_count(names.deep_view()) as usize,
                    None => 4,
                },
                current_tier: Tier::Balanced,
                last_transition_ns: now_ns,
                last_park_ns: now_ns,
                last_high_load_ns: now_ns,
                low_load_ticks: 0,
                current_unpark_count: match cpu_entries {
                    Some(names) => cpu_entry_count(names.deep_view()) as usize,
                    None => 4,
                },
                prev_usb_state: false,
                prev_sata_state: false,
                prev_wifi_state: true,
                prev_bluetooth_state: true,
                burst_ticks: 0,
                prev_load: 0,
            }),
    {
        let cores = match cpu_entries {
            Some(names) => count_cpu_entries(names),
            None => 4,
        };
        PowerManager {
            total_cores: cores,
            current_tier: Tier::Balanced,
            last_transition_ns: now_ns,
            last_park_ns: now_ns,
            last_high_load_ns: now_ns,
            low_load_ticks: 0,
            current_unpark_count: cores,
            prev_usb_state: false,
            prev_sata_state: false,
            prev_wifi_state: true,
            prev_bluetooth_state: true,
            burst_ticks: 0,
            prev_load: 0,
        }
    }

    pub fn total_cores(&self) -> (n: usize)
        ensures
            n == self@.total_cores,
    {
        self.total_cores
    }

    pub fn current_tier(&self) -> (t: Tier)
        ensures
            t == self@.current_tier,
    {
        self.current_tier
    }

    pub fn unpark_count(&self) -> (n: usize)
        ensures
            n == self@.current_unpark_count,
    {
        self.current_unpark_count
    }

    /// The load of the previous sample, in whole percent, against which a burst is measured.
    pub fn prev_load(&self) -> (p: u32)
        ensures
            p == self@.prev_load,
    {
        self.prev_load
    }

    /// Turbo and the performance cap for a request, kept on while a high load is recent.
    pub fn set_turbo_dynamic(&self, request_on: bool, now_ns: u64) -> (ops: Vec<PowerOp>)
        ensures
            ops@ == turbo_dynamic_ops(self@, request_on, now_ns),
    {
        let sustained_on = elapsed_ns(now_ns, self.last_high_load_ns) < TURBO_SUSTAIN_NS;
        let final_state = request_on || sustained_on;
        let mut ops: Vec<PowerOp> = Vec::new();
        ops.push(PowerOp::Turbo(final_state));
        ops.push(PowerOp::MaxPerfPct(if final_state { 100 } else { 70 }));
        assert(ops@ =~= turbo_dynamic_ops(self@, request_on, now_ns));
        ops
    }

    /// The governor, energy preference and turbo settings of a tier.
    pub fn apply_tier_hardware(&self, tier: Tier, now_ns: u64) -> (ops: Vec<PowerOp>)
        ensures
            ops@ == tier_hardware_ops(self@, tier, now_ns),
    {
        let (governor, preference, turbo) = match tier {
            Tier::Eco => (Governor::Powersave, EnergyPreference::Power, false),
            Tier::Balanced => (Governor::Powersave, EnergyPreference::BalancePower, false),
            Tier::Performance => (
                Governor::Performance,
                EnergyPreference::BalancePerformance,
                true,
            ),
            Tier::Extreme => (Governor::Performance, EnergyPreference::Performance, true),
        };
        let mut ops: Vec<PowerOp> = Vec::new();
        ops.push(PowerOp::CpuGovernor(governor));
        ops.push(PowerOp::CpuEnergyPreference(preference));
        let mut rest = self.set_turbo_dynamic(turbo, now_ns);
        ops.append(&mut rest);
        assert(ops@ =~= tier_hardware_ops(self@, tier, now_ns));
        ops
    }

    /// Brings cores `1 .. total` online below `target` and offline from it, unless the
    /// last round is less than 3 s old.
    pub fn park_cores_safe(&mut self, target: usize, now_ns: u64) -> (ops: Vec<PowerOp>)
        ensures
            ops@ == park_ops(old(self)@, target, now_ns),
            final(self)@ == park_state(old(self)@, target, now_ns),
    {
        let mut ops: Vec<PowerOp> = Vec::new();
        if elapsed_ns(now_ns, self.last_park_ns) < PARK_HOLD_NS {
            assert(ops@ =~= park_ops(old(self)@, target, now_ns));
            return ops;
        }
        ops.push(PowerOp::ParkCores(target));
        let total = self.total_cores;
        let mut id: usize = 1;
        while id < total
            invariant
                1 <= id,
                total == old(self)@.total_cores,
                id <= total || total == 0,
                total == 0 ==> id == 1,
                ops@ == seq![PowerOp::ParkCores(target)] + core_online_ops(total, target).take(
                    id - 1,
                ),
            decreases total - id,
        {
            ops.push(PowerOp::CoreOnline { id, online: id < target });
            proof {
                let c = core_online_ops(total, target);
                assert(c.take(id as int) =~= c.take(id - 1).push(c[id - 1]));
            }
            id = id + 1;
        }
        proof {
            let c = core_online_ops(total, target);
            assert(c.take(c.len() as int) =~= c);
            if total > 0 {
                assert(id - 1 == c.len());
            } else {
                assert(c.len() == 0);
                assert(c.take(id - 1) =~= c);
            }
        }
        self.current_unpark_count = target;
        self.last_park_ns = now_ns;
        ops
    }

    /// Whether `handle_state_change` is defined on `sample`: the clamp of the core
    /// target panics where its floor exceeds its limit.
    pub fn step_is_defined(&self, sample: &PowerSample) -> (b: bool)
        ensures
            b == step_defined(self@, *sample),
    {
        let mode = operation_mode(sample.operation_mode.as_str());
        let plan = plan_mode(self.total_cores, mode, sample.auto_tier, sample.is_on_ac);
        let shifts = self.current_tier != plan.target && elapsed_ns(
            sample.now_ns,
            self.last_transition_ns,
        ) > TIER_HOLD_NS;
        let tier = if shifts { plan.target } else { self.current_tier };
        floor_for(self.total_cores, tier, sample.is_on_ac) <= plan.max_cores
    }

    fn shift_tier(&mut self, plan: ModePlan, now_ns: u64, ops: &mut Vec<PowerOp>)
        ensures
            final(ops)@ == old(ops)@ + shift_ops(old(self)@, plan, now_ns),
            final(self)@ == shift_state(old(self)@, plan, now_ns),
    {
        if self.current_tier != plan.target && elapsed_ns(now_ns, self.last_transition_ns)
            > TIER_HOLD_NS {
            let ghost s = self@;
            ops.push(PowerOp::TierShift { from: self.current_tier, to: plan.target });
            let mut hw = self.apply_tier_hardware(plan.target, now_ns);
            ops.append(&mut hw);
            if plan.turbo_off {
                ops.push(PowerOp::Turbo(false));
            }
            self.current_tier = plan.target;
            self.last_transition_ns = now_ns;
            assert(final(ops)@ =~= old(ops)@ + shift_ops(s, plan, now_ns));
        } else {
            assert(old(ops)@ + shift_ops(old(self)@, plan, now_ns) =~= old(ops)@);
        }
    }

    /// The core target for a clamped ideal, counting low samples as `core_target` says.
    fn next_core_target(&mut self, clamped: usize) -> (target: usize)
        ensures
            (target, final(self)@.low_load_ticks) == core_target(old(self)@, clamped),
            final(self)@ == (PowerState { low_load_ticks: final(self)@.low_load_ticks, ..old(self)@ }),
    {
        let current = self.current_unpark_count;
        let mut target = current;
        if clamped > current {
            target = clamped;
        } else if clamped < current {
            let ticks = self.low_load_ticks;
            self.low_load_ticks = if ticks < usize::MAX { ticks + 1 } else { 0 };
            if ticks >= LOW_LOAD_THRESHOLD_TICKS {
                target = clamped;
                self.low_load_ticks = 0;
            }
        }
        target
    }

    #[verifier::rlimit(30)]
    fn plan_cores(&mut self, plan: ModePlan, sample: &PowerSample, ops: &mut Vec<PowerOp>) -> (target: usize)
        requires
            core_floor(old(self)@.total_cores, old(self)@.current_tier, sample.is_on_ac)
                <= plan.max_cores,
        ensures
            (final(self)@, final(ops)@, target) == ({
                let (s, o, t) = cores_phase(old(self)@, plan, *sample);
                (s, old(ops)@ + o, t)
            }),
    {
        let floor = floor_for(self.total_cores, self.current_tier, sample.is_on_ac);
        let force_all = plan.all_cores || sample.load_burst || self.burst_ticks > 0;
        Self::push_if(ops, sample.load_burst, PowerOp::LoadBurst);
        self.prev_load = sample.load_percent;
        if sample.load_burst {
            self.burst_ticks = 2;
        } else if self.burst_ticks > 0 {
            self.burst_ticks = self.burst_ticks - 1;
        }
        let ideal = if force_all { self.total_cores } else { sample.load_cores };
        let clamped = if ideal < floor {
            floor
        } else if ideal > plan.max_cores {
            plan.max_cores
        } else {
            ideal
        };
        let current = self.current_unpark_count;
        let target = self.next_core_target(clamped);
        if target != current {
            let mut parked = self.park_cores_safe(target, sample.now_ns);
            let ghost p = parked@;
            ops.append(&mut parked);
            assert(ops@ =~= old(ops)@ + (op_if(sample.load_burst, PowerOp::LoadBurst) + p));
        }
        target
    }

    fn thermal(sample: &PowerSample, target: usize, tier: Tier, ops: &mut Vec<PowerOp>)
        ensures
            final(ops)@ == old(ops)@ + thermal_ops(sample.max_perf_pct, target, tier),
    {
        ops.push(PowerOp::MaxPerfPct(sample.max_perf_pct));
        if sample.max_perf_pct < 100 {
            ops.push(PowerOp::Turbo(false));
        }
        ops.push(
            PowerOp::Report { unpark_count: target, tier, max_perf_pct: sample.max_perf_pct },
        );
        assert(final(ops)@ =~= old(ops)@ + thermal_ops(sample.max_perf_pct, target, tier));
    }

    fn push_if(ops: &mut Vec<PowerOp>, cond: bool, op: PowerOp)
        ensures
            final(ops)@ == old(ops)@ + op_if(cond, op),
    {
        if cond {
            ops.push(op);
            assert(final(ops)@ =~= old(ops)@ + seq![op]);
        } else {
            assert(old(ops)@ + Seq::<PowerOp>::empty() =~= old(ops)@);
        }
    }

    fn radio_off(ops: &mut Vec<PowerOp>, device: RadioDevice, off: bool)
        ensures
            final(ops)@ == old(ops)@ + radio_off_ops(device, off),
    {
        if off {
            ops.push(PowerOp::Radio { device, enabled: false });
            ops.push(PowerOp::RadioIdle(device));
            assert(final(ops)@ =~= old(ops)@ + radio_off_ops(device, off));
        } else {
            assert(old(ops)@ + Seq::<PowerOp>::empty() =~= old(ops)@);
        }
    }

    fn eco_policies(t: HardwareTuning, ops: &mut Vec<PowerOp>)
        ensures
            final(ops)@ == old(ops)@ + eco_policy_ops(t),
    {
        let ghost o0 = ops@;
        ops.push(PowerOp::BrightnessCap(40));
        Self::push_if(ops, t.pcie_aspm, PowerOp::PcieAspm(AspmPolicy::Powersave));
        Self::push_if(ops, !t.nmi_watchdog, PowerOp::NmiWatchdog(false));
        Self::push_if(ops, t.vm_writeback, PowerOp::VmWriteback(3000));
        Self::push_if(ops, t.laptop_mode, PowerOp::LaptopMode(5));
        Self::push_if(ops, !t.smt_status, PowerOp::Smt(false));
        assert(ops@ =~= o0 + eco_policy_ops(t));
    }

    fn eco_devices(&mut self, sample: &PowerSample, ops: &mut Vec<PowerOp>)
        ensures
            final(self)@ == eco_state(old(self)@, *sample),
            final(ops)@ == old(ops)@ + eco_device_ops(old(self)@, *sample),
    {
        let ghost s0 = self@;
        let ghost o0 = ops@;
        let t = sample.tuning;
        let usb_on = sample.usb_autosuspend && !self.prev_usb_state;
        let sata_on = sample.sata_alpm && !self.prev_sata_state;
        let wifi_off = !t.wifi_enabled && self.prev_wifi_state && !sample.wifi_connected;
        let bt_off = !t.bluetooth_enabled && self.prev_bluetooth_state
            && !sample.bluetooth_connected;
        Self::push_if(ops, usb_on, PowerOp::UsbAutosuspend(true));
        let ghost o1 = ops@;
        Self::push_if(ops, sata_on, PowerOp::SataAlpm(true));
        let ghost o2 = ops@;
        Self::radio_off(ops, RadioDevice::Wifi, wifi_off);
        let ghost o3 = ops@;
        Self::radio_off(ops, RadioDevice::Bluetooth, bt_off);
        proof {
            let a = op_if(usb_on, PowerOp::UsbAutosuspend(true));
            let b = op_if(sata_on, PowerOp::SataAlpm(true));
            let c = radio_off_ops(RadioDevice::Wifi, wifi_off);
            let d = radio_off_ops(RadioDevice::Bluetooth, bt_off);
            assert(eco_device_ops(s0, *sample) == a + b + c + d);
            assert(o1 == o0 + a);
            assert(o2 == o0 + a + b) by {
                assert(o0 + a + b =~= (o0 + a) + b);
            }
            assert(o3 == o0 + a + b + c);
            assert(ops@ =~= o0 + (a + b + c + d));
        }
        if usb_on {
            self.prev_usb_state = true;
        }
        if sata_on {
            self.prev_sata_state = true;
        }
        if wifi_off {
            self.prev_wifi_state = false;
        }
        if bt_off {
            self.prev_bluetooth_state = false;
        }
    }

    fn tune_eco(&mut self, sample: &PowerSample, ops: &mut Vec<PowerOp>)
        ensures
            final(self)@ == eco_state(old(self)@, *sample),
            final(ops)@ == old(ops)@ + eco_ops(old(self)@, *sample),
    {
        let ghost o0 = ops@;
        let ghost s0 = self@;
        Self::eco_policies(sample.tuning, ops);
        self.eco_devices(sample, ops);
        assert(ops@ =~= o0 + eco_ops(s0, *sample));
    }

    fn tune_restore(&mut self, sample: &PowerSample, ops: &mut Vec<PowerOp>)
        ensures
            final(self)@ == restore_state(old(self)@, *sample),
            final(ops)@ == old(ops)@ + restore_ops(old(self)@, *sample),
    {
        let ghost s0 = self@;
        let ghost o0 = ops@;
        let ac = sample.is_on_ac;
        ops.push(
            PowerOp::PcieAspm(
                if ac {
                    AspmPolicy::Performance
                } else {
                    AspmPolicy::Powersave
                },
            ),
        );
        ops.push(PowerOp::NmiWatchdog(true));
        ops.push(PowerOp::VmWriteback(1500));
        ops.push(PowerOp::LaptopMode(0));
        ops.push(PowerOp::Smt(true));
        Self::push_if(
            ops,
            ac && !self.prev_wifi_state,
            PowerOp::Radio { device: RadioDevice::Wifi, enabled: true },
        );
        Self::push_if(
            ops,
            ac && !self.prev_bluetooth_state,
            PowerOp::Radio { device: RadioDevice::Bluetooth, enabled: true },
        );
        if ac {
            self.prev_wifi_state = true;
            self.prev_bluetooth_state = true;
        }
        Self::push_if(ops, self.prev_usb_state, PowerOp::UsbAutosuspend(false));
        self.prev_usb_state = false;
        Self::push_if(ops, self.prev_sata_state, PowerOp::SataAlpm(false));
        self.prev_sata_state = false;
        assert(ops@ =~= o0 + restore_ops(s0, *sample));
    }

    fn tune(&mut self, plan: ModePlan, sample: &PowerSample, ops: &mut Vec<PowerOp>)
        ensures
            (final(self)@, final(ops)@) == ({
                let (s, o) = tune_phase(old(self)@, plan, *sample);
                (s, old(ops)@ + o)
            }),
    {
        if plan.eco_caps {
            self.tune_eco(sample, ops);
        } else if sample.is_on_ac || sample.cool {
            self.tune_restore(sample, ops);
        } else {
            assert(old(ops)@ + Seq::<PowerOp>::empty() =~= old(ops)@);
        }
    }

    /// Decides what one sample calls for: the fan policy of the mode, a tier change when
    /// due, core parking, the thermal cap and the published state, then the power-saving
    /// or performance hardware settings. Returns the operations in order and the time to
    /// the next sample in milliseconds.
    pub fn handle_state_change(&mut self, sample: &PowerSample) -> (r: (Vec<PowerOp>, u64))
        requires
            step_defined(old(self)@, *sample),
        ensures
            (final(self)@, r.0@, r.1) == step(old(self)@, *sample),
    {
        let ghost s0 = self@;
        let now = sample.now_ns;
        if sample.high_load {
            self.last_high_load_ns = now;
        }
        let mode = operation_mode(sample.operation_mode.as_str());
        let plan = plan_mode(self.total_cores, mode, sample.auto_tier, sample.is_on_ac);
        let mut ops: Vec<PowerOp> = Vec::new();
        ops.push(PowerOp::FanPolicy(plan.fan_policy));
        self.shift_tier(plan, now, &mut ops);
        let target = self.plan_cores(plan, sample, &mut ops);
        Self::thermal(sample, target, plan.target, &mut ops);
        self.tune(plan, sample, &mut ops);
        let interval: u64 = if plan.target == Tier::Extreme { 500 } else { 1000 };
        proof {
            let s1 = note_load(s0, sample.high_load, now);
            let s2 = shift_state(s1, plan, now);
            let (s3, core_ops, t) = cores_phase(s2, plan, *sample);
            let (s4, tune_ops) = tune_phase(s3, plan, *sample);
            assert(ops@ =~= seq![PowerOp::FanPolicy(plan.fan_policy)] + shift_ops(s1, plan, now)
                + core_ops + thermal_ops(sample.max_perf_pct, t, plan.target) + tune_ops);
        }
        (ops, interval)
    }
}

/// `base/name/leaf`, as `format!("{}/{}/{}", ..)` and `Path::join` build it.
pub open spec fn join3(base: Seq<char>, name: Seq<char>, leaf: Seq<char>) -> Seq<char> {
    base + "/"@ + name + "/"@ + leaf
}

pub fn join_path(base: &str, name: &str, leaf: &str) -> (p: String)
    ensures
        p@ == join3(base@, name@, leaf@),
{
    let mut p = String::from_str(base);
    p.append("/");
    p.append(name);
    p.append("/");
    p.append(leaf);
    p
}

/// One write of `value` to `leaf` under each entry `name` of the directory `base`.
pub open spec fn dir_writes(base: Seq<char>, names: Seq<Seq<char>>, leaf: Seq<char>, value: Seq<char>) -> Seq<
    (Seq<char>, Seq<char>),
> {
    names.map_values(|name: Seq<char>| (join3(base, name, leaf), value))
}

/// One write for each entry of the directory `base`.
pub fn writes_under(base: &str, names: &Vec<String>, leaf: &str, value: &str) -> (w: Vec<SysfsWrite>)
    ensures
        w.deep_view() == dir_writes(base@, names.deep_view(), leaf@, value@),
{
    let mut w: Vec<SysfsWrite> = Vec::new();
    let mut k: usize = 0;
    while k < names.len()
        invariant
            k <= names@.len(),
            w.deep_view() == dir_writes(base@, names.deep_view().take(k as int), leaf@, value@),
        decreases names.len() - k,
    {
        let path = join_path(base, names[k].as_str(), leaf);
        let ghost prev = w.deep_view();
        let item = SysfsWrite::from_strings(path, String::from_str(value));
        let ghost iv = item.deep_view();
        w.push(item);
        proof {
            let d = names.deep_view();
            assert(d.take(k + 1) =~= d.take(k as int).push(names@[k as int]@));
            assert(w.deep_view() =~= prev.push(iv));
            assert(dir_writes(base@, d.take(k + 1), leaf@, value@) =~= dir_writes(
                base@,
                d.take(k as int),
                leaf@,
                value@,
            ).push(iv));
        }
        k = k + 1;
    }
    assert(names.deep_view().take(names@.len() as int) =~= names.deep_view());
    w
}

/// One write of `value` to `leaf` under each entry of `/sys/devices/system/cpu` that names a CPU.
pub open spec fn cpu_writes(names: Seq<Seq<char>>, leaf: Seq<char>, value: Seq<char>) -> Seq<
    (Seq<char>, Seq<char>),
>
    decreases names.len(),
{
    if names.len() == 0 {
        Seq::empty()
    } else {
        cpu_writes(names.drop_last(), leaf, value) + if is_cpu_entry(names.last()) {
            seq![(join3("/sys/devices/system/cpu"@, names.last(), leaf), value)]
        } else {
            Seq::empty()
        }
    }
}

pub open spec fn governor_name(g: Governor) -> Seq<char> {
    match g {
        Governor::Powersave => "powersave"@,
        Governor::Performance => "performance"@,
    }
}

pub fn governor_str(g: Governor) -> (s: &'static str)
    ensures
        s@ == governor_name(g),
{
    match g {
        Governor::Powersave => "powersave",
        Governor::Performance => "performance",
    }
}

pub open spec fn preference_name(p: EnergyPreference) -> Seq<char> {
    match p {
        EnergyPreference::Power => "power"@,
        EnergyPreference::BalancePower => "balance_power"@,
        EnergyPreference::BalancePerformance => "balance_performance"@,
        EnergyPreference::Performance => "performance"@,
    }
}

pub fn preference_str(p: EnergyPreference) -> (s: &'static str)
    ensures
        s@ == preference_name(p),
{
    match p {
        EnergyPreference::Power => "power",
        EnergyPreference::BalancePower => "balance_power",
        EnergyPreference::BalancePerformance => "balance_performance",
        EnergyPreference::Performance => "performance",
    }
}

pub open spec fn aspm_name(p: AspmPolicy) -> Seq<char> {
    match p {
        AspmPolicy::Powersave => "powersave"@,
        AspmPolicy::Performance => "performance"@,
    }
}

pub fn aspm_str(p: AspmPolicy) -> (s: &'static str)
    ensures
        s@ == aspm_name(p),
{
    match p {
        AspmPolicy::Powersave => "powersave",
        AspmPolicy::Performance => "performance",
    }
}

/// The sysfs files that hold a battery charge limit on the supported vendors.
pub open spec fn charge_threshold_paths() -> Seq<Seq<char>> {
    seq![
        "/sys/class/power_supply/BAT0/charge_control_end_threshold"@,
        "/sys/class/power_supply/BAT1/charge_control_end_threshold"@,
        "/sys/class/power_supply/BAT0/charge_stop_threshold"@,
        "/sys/devices/platform/asus-nb-wmi/charge_control_end_threshold"@,
        "/sys/devices/platform/samsung/battery_life_extender"@,
    ]
}

impl PowerManager {
    /// The Asus fan policy write (0 standard, 1 turbo, 2 silent).
    pub fn set_asus_fan_policy(&self, policy: u32) -> (w: SysfsWrite)
        ensures
            w@ == ("/sys/devices/platform/asus-nb-wmi/throttle_thermal_policy"@, decimal(
                policy as nat,
            )),
    {
        SysfsWrite::from_strings(
            String::from_str("/sys/devices/platform/asus-nb-wmi/throttle_thermal_policy"),
            decimal_string(policy as u64),
        )
    }

    pub fn set_pcie_aspm(&self, policy: &str) -> (w: SysfsWrite)
        ensures
            w@ == ("/sys/module/pcie_aspm/parameters/policy"@, policy@),
    {
        SysfsWrite::new("/sys/module/pcie_aspm/parameters/policy", policy)
    }

    pub fn set_nmi_watchdog(&self, enabled: bool) -> (w: SysfsWrite)
        ensures
            w@ == ("/proc/sys/kernel/nmi_watchdog"@, if enabled {
                "1"@
            } else {
                "0"@
            }),
    {
        SysfsWrite::new(
            "/proc/sys/kernel/nmi_watchdog",
            if enabled {
                "1"
            } else {
                "0"
            },
        )
    }

    pub fn set_vm_writeback(&self, centisecs: u32) -> (w: SysfsWrite)
        ensures
            w@ == ("/proc/sys/vm/dirty_writeback_centisecs"@, decimal(centisecs as nat)),
    {
        SysfsWrite::from_strings(
            String::from_str("/proc/sys/vm/dirty_writeback_centisecs"),
            decimal_string(centisecs as u64),
        )
    }

    pub fn set_laptop_mode(&self, mode: u32) -> (w: SysfsWrite)
        ensures
            w@ == ("/proc/sys/vm/laptop_mode"@, decimal(mode as nat)),
    {
        SysfsWrite::from_strings(
            String::from_str("/proc/sys/vm/laptop_mode"),
            decimal_string(mode as u64),
        )
    }

    pub fn set_smt_status(&self, enabled: bool) -> (w: SysfsWrite)
        ensures
            w@ == ("/sys/devices/system/cpu/smt/control"@, if enabled {
                "on"@
            } else {
                "off"@
            }),
    {
        SysfsWrite::new(
            "/sys/devices/system/cpu/smt/control",
            if enabled {
                "on"
            } else {
                "off"
            },
        )
    }

    /// The writes that allow or forbid turbo: Intel's `no_turbo`, then the generic `boost`.
    pub fn turbo_writes(&self, on: bool) -> (w: Vec<SysfsWrite>)
        ensures
            w.deep_view() == seq![
                ("/sys/devices/system/cpu/intel_pstate/no_turbo"@, if on {
                    "0"@
                } else {
                    "1"@
                }),
                ("/sys/devices/system/cpu/cpufreq/boost"@, if on {
                    "1"@
                } else {
                    "0"@
                }),
            ],
    {
        let mut w: Vec<SysfsWrite> = Vec::new();
        w.push(
            SysfsWrite::new(
                "/sys/devices/system/cpu/intel_pstate/no_turbo",
                if on {
                    "0"
                } else {
                    "1"
                },
            ),
        );
        w.push(
            SysfsWrite::new(
                "/sys/devices/system/cpu/cpufreq/boost",
                if on {
                    "1"
                } else {
                    "0"
                },
            ),
        );
        assert(w.deep_view() =~= seq![
            ("/sys/devices/system/cpu/intel_pstate/no_turbo"@, if on {
                "0"@
            } else {
                "1"@
            }),
            ("/sys/devices/system/cpu/cpufreq/boost"@, if on {
                "1"@
            } else {
                "0"@
            }),
        ]);
        w
    }

    pub fn max_perf_write(&self, pct: u32) -> (w: SysfsWrite)
        ensures
            w@ == ("/sys/devices/system/cpu/intel_pstate/max_perf_pct"@, decimal(pct as nat)),
    {
        SysfsWrite::from_strings(
            String::from_str("/sys/devices/system/cpu/intel_pstate/max_perf_pct"),
            decimal_string(pct as u64),
        )
    }

    /// Writes `value` to `subpath` under each CPU directory among `cpu_entries`, the
    /// entries of `/sys/devices/system/cpu`.
    pub fn write_to_all_possible(&self, cpu_entries: &Vec<String>, subpath: &str, value: &str) -> (w:
        Vec<SysfsWrite>)
        ensures
            w.deep_view() == cpu_writes(cpu_entries.deep_view(), subpath@, value@),
    {
        let mut w: Vec<SysfsWrite> = Vec::new();
        let mut k: usize = 0;
        while k < cpu_entries.len()
            invariant
                k <= cpu_entries@.len(),
                w.deep_view() == cpu_writes(cpu_entries.deep_view().take(k as int), subpath@, value@),
            decreases cpu_entries.len() - k,
        {
            let chars = to_chars(cpu_entries[k].as_str());
            let ghost d = cpu_entries.deep_view();
            proof {
                assert(d.take(k + 1).drop_last() =~= d.take(k as int));
                assert(d.take(k + 1).last() == cpu_entries@[k as int]@);
            }
            if cpu_entry(chars.as_slice()) {
                let path = join_path("/sys/devices/system/cpu", cpu_entries[k].as_str(), subpath);
                w.push(SysfsWrite::from_strings(path, String::from_str(value)));
            }
            k = k + 1;
            assert(w.deep_view() =~= cpu_writes(d.take(k as int), subpath@, value@));
        }
        assert(cpu_entries.deep_view().take(cpu_entries@.len() as int) =~= cpu_entries.deep_view());
        w
    }

    /// The write that brings core `id` online or takes it offline.
    pub fn core_online_write(&self, id: usize, online: bool) -> (w: SysfsWrite)
        ensures
            w@ == ("/sys/devices/system/cpu/cpu"@ + decimal(id as nat) + "/online"@, if online {
                "1"@
            } else {
                "0"@
            }),
    {
        let mut path = String::from_str("/sys/devices/system/cpu/cpu");
        let number = decimal_string(id as u64);
        path.append(number.as_str());
        path.append("/online");
        SysfsWrite::from_strings(
            path,
            String::from_str(
                if online {
                    "1"
                } else {
                    "0"
                },
            ),
        )
    }

    /// USB autosuspend for each entry of `/sys/bus/usb/devices`: `auto` to allow it, `on` to keep
    /// devices powered.
    pub fn set_usb_autosuspend(&self, usb_devices: &Vec<String>, enabled: bool) -> (w: Vec<SysfsWrite>)
        ensures
            w.deep_view() == dir_writes(
                "/sys/bus/usb/devices"@,
                usb_devices.deep_view(),
                "power/control"@,
                if enabled {
                    "auto"@
                } else {
                    "on"@
                },
            ),
    {
        writes_under(
            "/sys/bus/usb/devices",
            usb_devices,
            "power/control",
            if enabled {
                "auto"
            } else {
                "on"
            },
        )
    }

    /// SATA link power management for each entry of `/sys/class/scsi_host`.
    pub fn set_sata_alpm(&self, scsi_hosts: &Vec<String>, enabled: bool) -> (w: Vec<SysfsWrite>)
        ensures
            w.deep_view() == dir_writes(
                "/sys/class/scsi_host"@,
                scsi_hosts.deep_view(),
                "link_power_management_policy"@,
                if enabled {
                    "med_power_with_dipm"@
                } else {
                    "max_performance"@
                },
            ),
    {
        writes_under(
            "/sys/class/scsi_host",
            scsi_hosts,
            "link_power_management_policy",
            if enabled {
                "med_power_with_dipm"
            } else {
                "max_performance"
            },
        )
    }

    /// The charge limit written to every vendor file that may hold it; a file that does
    /// not exist is left alone.
    pub fn apply_charge_threshold(&self, limit: u32) -> (w: Vec<SysfsWrite>)
        ensures
            w.deep_view() == charge_threshold_paths().map_values(
                |p: Seq<char>| (p, decimal(limit as nat)),
            ),
    {
        let paths = [
            "/sys/class/power_supply/BAT0/charge_control_end_threshold",
            "/sys/class/power_supply/BAT1/charge_control_end_threshold",
            "/sys/class/power_supply/BAT0/charge_stop_threshold",
            "/sys/devices/platform/asus-nb-wmi/charge_control_end_threshold",
            "/sys/devices/platform/samsung/battery_life_extender",
        ];
        let mut w: Vec<SysfsWrite> = Vec::new();
        let mut k: usize = 0;
        while k < 5
            invariant
                k <= 5,
                paths@.len() == 5,
                forall|i: int| 0 <= i < 5 ==> #[trigger] paths@[i]@ == charge_threshold_paths()[i],
                w.deep_view() == charge_threshold_paths().take(k as int).map_values(
                    |p: Seq<char>| (p, decimal(limit as nat)),
                ),
            decreases 5 - k,
        {
            let ghost prev = w.deep_view();
            let item = SysfsWrite::from_strings(String::from_str(paths[k]), decimal_string(limit as u64));
            let ghost iv = item.deep_view();
            w.push(item);
            proof {
                let c = charge_threshold_paths();
                let f = |p: Seq<char>| (p, decimal(limit as nat));
                assert(w.deep_view() =~= prev.push(iv));
                assert(c.take(k + 1) =~= c.take(k as int).push(c[k as int]));
                assert(c.take(k + 1).map_values(f) =~= c.take(k as int).map_values(f).push(iv));
            }
            k = k + 1;
        }
        assert(charge_threshold_paths().take(5) =~= charge_threshold_paths());
        w
    }
}

/// The tier changes only when the previous change is more than 3 s old, and a change
/// restarts that clock.
pub proof fn law_tier_change_held(s: PowerState, sample: PowerSample)
    ensures
        ({
            let s2 = step(s, sample).0;
            s2.current_tier != s.current_tier ==> {
                &&& elapsed(sample.now_ns, s.last_transition_ns) > TIER_HOLD_NS
                &&& s2.last_transition_ns == sample.now_ns
                &&& s2.current_tier == sample_plan(s, sample).target
            }
        }),
{
}

/// The number of online cores changes only when the previous round of parking is at
/// least 3 s old, and then lands between the floor of the power source and tier and the
/// mode's core limit.
pub proof fn law_park_held_and_bounded(s: PowerState, sample: PowerSample)
    requires
        step_defined(s, sample),
    ensures
        ({
            let plan = sample_plan(s, sample);
            let shifted = shift_state(note_load(s, sample.high_load, sample.now_ns), plan, sample.now_ns);
            let s2 = step(s, sample).0;
            s2.current_unpark_count != s.current_unpark_count ==> {
                &&& elapsed(sample.now_ns, s.last_park_ns) >= PARK_HOLD_NS
                &&& s2.last_park_ns == sample.now_ns
                &&& core_floor(shifted.total_cores, shifted.current_tier, sample.is_on_ac)
                    <= s2.current_unpark_count <= plan.max_cores
            }
        }),
{
}

/// Fewer cores come online only after at least 12 samples in a row that asked for fewer.
pub proof fn law_parking_down_is_patient(s: PowerState, sample: PowerSample)
    ensures
        step(s, sample).0.current_unpark_count < s.current_unpark_count ==> s.low_load_ticks
            >= LOW_LOAD_THRESHOLD_TICKS,
{
}

/// Every core operation in `ops` names a core from 1 below `total`.
pub open spec fn core_ops_within(ops: Seq<PowerOp>, total: usize) -> bool {
    forall|i: int|
        0 <= i < ops.len() ==> (#[trigger] ops[i] matches PowerOp::CoreOnline { id, .. } ==> 1 <= id
            < total)
}

proof fn lemma_core_ops_within_concat(a: Seq<PowerOp>, b: Seq<PowerOp>, total: usize)
    requires
        core_ops_within(a, total),
        core_ops_within(b, total),
    ensures
        core_ops_within(a + b, total),
{
    assert forall|i: int| 0 <= i < (a + b).len() implies (#[trigger] (a + b)[i] matches PowerOp::CoreOnline {
        id,
        ..
    } ==> 1 <= id < total) by {
        if i < a.len() {
            assert((a + b)[i] == a[i]);
        } else {
            assert((a + b)[i] == b[i - a.len()]);
        }
    }
}

proof fn lemma_shift_ops_no_cores(s: PowerState, plan: ModePlan, now: u64)
    ensures
        core_ops_within(shift_ops(s, plan, now), s.total_cores),
{
    let o = shift_ops(s, plan, now);
    assert forall|i: int| 0 <= i < o.len() implies !(#[trigger] o[i] is CoreOnline) by {
        if shift_due(s, plan.target, now) {
            let h = tier_hardware_ops(s, plan.target, now);
            assert(h.len() == 4);
        }
    }
}

proof fn lemma_park_ops_within(s: PowerState, target: usize, now: u64)
    ensures
        core_ops_within(park_ops(s, target, now), s.total_cores),
{
    let park = core_online_ops(s.total_cores, target);
    assert(core_ops_within(park, s.total_cores));
    assert(core_ops_within(seq![PowerOp::ParkCores(target)], s.total_cores));
    lemma_core_ops_within_concat(seq![PowerOp::ParkCores(target)], park, s.total_cores);
}

proof fn lemma_cores_phase_within(s: PowerState, plan: ModePlan, sample: PowerSample)
    ensures
        core_ops_within(cores_phase(s, plan, sample).1, s.total_cores),
{
    let floor = core_floor(s.total_cores, s.current_tier, sample.is_on_ac);
    let clamped = clamp(ideal_cores(s, plan, sample), floor, plan.max_cores);
    let s3 = burst_state(s, sample.load_percent, sample.load_burst);
    let (target, ticks) = core_target(s3, clamped);
    let s4 = PowerState { low_load_ticks: ticks, ..s3 };
    lemma_park_ops_within(s4, target, sample.now_ns);
    let b = op_if(sample.load_burst, PowerOp::LoadBurst);
    assert(core_ops_within(b, s.total_cores));
    lemma_core_ops_within_concat(b, park_ops(s4, target, sample.now_ns), s.total_cores);
}

proof fn lemma_thermal_ops_no_cores(p: u32, target: usize, tier: Tier, n: usize)
    ensures
        core_ops_within(thermal_ops(p, target, tier), n),
{
    let o = thermal_ops(p, target, tier);
    assert forall|i: int| 0 <= i < o.len() implies !(#[trigger] o[i] is CoreOnline) by {}
}

proof fn lemma_tune_ops_no_cores(s: PowerState, plan: ModePlan, sample: PowerSample)
    ensures
        core_ops_within(tune_phase(s, plan, sample).1, s.total_cores),
{
    let n = s.total_cores;
    if plan.eco_caps {
        let e = eco_policy_ops(sample.tuning);
        let d = eco_device_ops(s, sample);
        assert forall|i: int| 0 <= i < e.len() implies !(#[trigger] e[i] is CoreOnline) by {}
        assert forall|i: int| 0 <= i < d.len() implies !(#[trigger] d[i] is CoreOnline) by {}
        lemma_core_ops_within_concat(e, d, n);
    } else if sample.is_on_ac || sample.cool {
        let r = restore_ops(s, sample);
        assert forall|i: int| 0 <= i < r.len() implies !(#[trigger] r[i] is CoreOnline) by {}
    }
}

/// Core 0 is never taken offline: every core operation of a sample names a core from 1
/// up to the last one.
pub proof fn law_core_zero_stays_online(s: PowerState, sample: PowerSample)
    ensures
        core_ops_within(step(s, sample).1, s.total_cores),
{
    let plan = sample_plan(s, sample);
    let now = sample.now_ns;
    let s1 = note_load(s, sample.high_load, now);
    let s2 = shift_state(s1, plan, now);
    let (s3, core_ops, target) = cores_phase(s2, plan, sample);
    let (s4, tune_ops) = tune_phase(s3, plan, sample);
    let n = s.total_cores;
    let f = seq![PowerOp::FanPolicy(plan.fan_policy)];
    assert(core_ops_within(f, n));
    lemma_shift_ops_no_cores(s1, plan, now);
    lemma_cores_phase_within(s2, plan, sample);
    lemma_thermal_ops_no_cores(sample.max_perf_pct, target, plan.target, n);
    lemma_tune_ops_no_cores(s3, plan, sample);
    let a = shift_ops(s1, plan, now);
    let t = thermal_ops(sample.max_perf_pct, target, plan.target);
    lemma_core_ops_within_concat(f, a, n);
    lemma_core_ops_within_concat(f + a, core_ops, n);
    lemma_core_ops_within_concat(f + a + core_ops, t, n);
    lemma_core_ops_within_concat(f + a + core_ops + t, tune_ops, n);
}

/// The next sample comes after half a second in the fastest tier and after a second
/// otherwise.
pub proof fn law_sample_interval(s: PowerState, sample: PowerSample)
    ensures
        step(s, sample).2 == if sample_plan(s, sample).target == Tier::Extreme {
            500u64
        } else {
            1000u64
        },
{
}

/// A load burst keeps every core wanted for this sample and the two after it.
pub proof fn law_burst_window(s: PowerState, sample: PowerSample)
    requires
        sample.load_burst,
    ensures
        step(s, sample).0.burst_ticks == 2,
{
}

/// Power managers that compete with this one and are stopped, disabled and masked.
pub open spec fn competing_services() -> Seq<Seq<char>> {
    seq!["tlp"@, "auto-cpufreq"@, "power-profiles-daemon"@, "laptop-mode-tools"@, "thermald"@]
}

/// A service is installed when `systemctl list-unit-files NAME.service` lists `NAME.service`.
pub open spec fn service_listed(unit_files: Seq<char>, service: Seq<char>) -> bool {
    contains_text(unit_files, service + ".service"@)
}

/// A network interface whose name starts with `w` carries a Wi-Fi link when its
/// `carrier` file, trimmed, reads `1`.
pub open spec fn wifi_link_up(link: (Seq<char>, Option<Seq<char>>)) -> bool {
    &&& link.0.len() > 0
    &&& link.0[0] == 'w'
    &&& link.1 matches Some(c) && trim(c) == "1"@
}

/// A Bluetooth adapter (`hci*`) is connected when its `conn_count` file, trimmed,
/// parses as a `u32` above zero.
pub open spec fn bluetooth_link_up(adapter: (Seq<char>, Option<Seq<char>>)) -> bool {
    &&& adapter.0.len() >= 3
    &&& adapter.0[0] == 'h'
    &&& adapter.0[1] == 'c'
    &&& adapter.0[2] == 'i'
    &&& adapter.1 matches Some(c) && (parse_unsigned(trim(c), u32::MAX as nat) matches Some(n)
        && n > 0)
}

impl PowerManager {
    /// The names of the competing power managers.
    pub fn competing_services(&self) -> (v: Vec<String>)
        ensures
            v.deep_view() == competing_services(),
    {
        let mut v: Vec<String> = Vec::new();
        v.push(String::from_str("tlp"));
        v.push(String::from_str("auto-cpufreq"));
        v.push(String::from_str("power-profiles-daemon"));
        v.push(String::from_str("laptop-mode-tools"));
        v.push(String::from_str("thermald"));
        assert(v.deep_view() =~= competing_services());
        v
    }

    /// Whether the output of `systemctl list-unit-files NAME.service` shows the service.
    pub fn service_installed(&self, unit_files: &str, service: &str) -> (b: bool)
        ensures
            b == service_listed(unit_files@, service@),
    {
        let mut unit = String::from_str(service);
        unit.append(".service");
        let text = to_chars(unit_files);
        let pat = to_chars(unit.as_str());
        contains_chars(text.as_slice(), pat.as_slice())
    }

    /// Whether any interface of `/sys/class/net`, given with its `carrier` file, carries
    /// a Wi-Fi link.
    pub fn is_wifi_connected(&self, links: &Vec<SysfsEntry>) -> (b: bool)
        ensures
            b == exists|i: int| 0 <= i < links@.len() && wifi_link_up(#[trigger] links@[i].deep_view()),
    {
        let one = to_chars("1");
        let mut k: usize = 0;
        while k < links.len()
            invariant
                k <= links@.len(),
                one@ == "1"@,
                forall|m: int| 0 <= m < k ==> !wifi_link_up(#[trigger] links@[m].deep_view()),
            decreases links.len() - k,
        {
            let name = to_chars(links[k].name.as_str());
            if name.len() > 0 && name[0] == 'w' {
                match &links[k].content {
                    Some(c) => {
                        let chars = to_chars(c.as_str());
                        let t = trim_chars(chars.as_slice());
                        if chars_equal(t.as_slice(), one.as_slice()) {
                            assert(wifi_link_up(links@[k as int].deep_view()));
                            return true;
                        }
                    },
                    None => {},
                }
            }
            k = k + 1;
        }
        false
    }

    /// Whether any adapter of `/sys/class/bluetooth`, given with its `conn_count` file,
    /// has a connection.
    pub fn is_bluetooth_connected(&self, adapters: &Vec<SysfsEntry>) -> (b: bool)
        ensures
            b == exists|i: int|
                0 <= i < adapters@.len() && bluetooth_link_up(#[trigger] adapters@[i].deep_view()),
    {
        let mut k: usize = 0;
        while k < adapters.len()
            invariant
                k <= adapters@.len(),
                forall|m: int|
                    0 <= m < k ==> !bluetooth_link_up(#[trigger] adapters@[m].deep_view()),
            decreases adapters.len() - k,
        {
            let name = to_chars(adapters[k].name.as_str());
            if name.len() >= 3 && name[0] == 'h' && name[1] == 'c' && name[2] == 'i' {
                match &adapters[k].content {
                    Some(c) => {
                        let chars = to_chars(c.as_str());
                        let t = trim_chars(chars.as_slice());
                        match parse_u32(t.as_slice()) {
                            Some(n) => {
                                if n > 0 {
                                    assert(bluetooth_link_up(adapters@[k as int].deep_view()));
                                    return true;
                                }
                            },
                            None => {},
                        }
                    },
                    None => {},
                }
            }
            k = k + 1;
        }
        false
    }
}

/// A higher core target is taken at once: when the clamped ideal is above the number of
/// online cores and the last round of parking is at least 3 s old, that many cores come
/// online in this sample.
pub proof fn law_unpark_at_once(s: PowerState, sample: PowerSample)
    requires
        step_defined(s, sample),
    ensures
        ({
            let plan = sample_plan(s, sample);
            let s2 = shift_state(note_load(s, sample.high_load, sample.now_ns), plan, sample.now_ns);
            let floor = core_floor(s2.total_cores, s2.current_tier, sample.is_on_ac);
            let clamped = clamp(ideal_cores(s2, plan, sample), floor, plan.max_cores);
            clamped > s.current_unpark_count && park_due(s, sample.now_ns)
                ==> step(s, sample).0.current_unpark_count == clamped
        }),
{
}

/// No radio operation of `ops` blocks a device that carries a connection.
pub open spec fn radios_off_only_when_idle(ops: Seq<PowerOp>, wifi_connected: bool, bluetooth_connected: bool) -> bool {
    forall|i: int|
        0 <= i < ops.len() ==> {
            &&& #[trigger] ops[i] == (PowerOp::Radio { device: RadioDevice::Wifi, enabled: false })
                ==> !wifi_connected
            &&& ops[i] == (PowerOp::Radio { device: RadioDevice::Bluetooth, enabled: false })
                ==> !bluetooth_connected
        }
}

proof fn lemma_radios_concat(a: Seq<PowerOp>, b: Seq<PowerOp>, w: bool, bt: bool)
    requires
        radios_off_only_when_idle(a, w, bt),
        radios_off_only_when_idle(b, w, bt),
    ensures
        radios_off_only_when_idle(a + b, w, bt),
{
    assert forall|i: int| 0 <= i < (a + b).len() implies {
        &&& #[trigger] (a + b)[i] == (PowerOp::Radio { device: RadioDevice::Wifi, enabled: false })
            ==> !w
        &&& (a + b)[i] == (PowerOp::Radio { device: RadioDevice::Bluetooth, enabled: false }) ==> !bt
    } by {
        if i < a.len() {
            assert((a + b)[i] == a[i]);
        } else {
            assert((a + b)[i] == b[i - a.len()]);
        }
    }
}

proof fn lemma_no_radio_off(ops: Seq<PowerOp>, w: bool, bt: bool)
    requires
        forall|i: int| 0 <= i < ops.len() ==> !(#[trigger] ops[i] is Radio),
    ensures
        radios_off_only_when_idle(ops, w, bt),
{
}

proof fn lemma_eco_policy_radios(t: HardwareTuning, w: bool, bt: bool)
    ensures
        radios_off_only_when_idle(eco_policy_ops(t), w, bt),
{
    let e = eco_policy_ops(t);
    assert forall|i: int| 0 <= i < e.len() implies !(#[trigger] e[i] is Radio) by {}
    lemma_no_radio_off(e, w, bt);
}

proof fn lemma_eco_device_radios(s: PowerState, sample: PowerSample)
    ensures
        radios_off_only_when_idle(
            eco_device_ops(s, sample),
            sample.wifi_connected,
            sample.bluetooth_connected,
        ),
{
    let w = sample.wifi_connected;
    let bt = sample.bluetooth_connected;
    let t = sample.tuning;
    let u1 = op_if(sample.usb_autosuspend && !s.prev_usb_state, PowerOp::UsbAutosuspend(true));
    let u2 = op_if(sample.sata_alpm && !s.prev_sata_state, PowerOp::SataAlpm(true));
    lemma_no_radio_off(u1, w, bt);
    lemma_no_radio_off(u2, w, bt);
    let rw = radio_off_ops(
        RadioDevice::Wifi,
        radio_idle_off(t.wifi_enabled, s.prev_wifi_state, sample.wifi_connected),
    );
    let rb = radio_off_ops(
        RadioDevice::Bluetooth,
        radio_idle_off(t.bluetooth_enabled, s.prev_bluetooth_state, sample.bluetooth_connected),
    );
    assert(radios_off_only_when_idle(rw, w, bt));
    assert(radios_off_only_when_idle(rb, w, bt));
    lemma_radios_concat(u1, u2, w, bt);
    lemma_radios_concat(u1 + u2, rw, w, bt);
    lemma_radios_concat(u1 + u2 + rw, rb, w, bt);
}

proof fn lemma_tune_radios(s: PowerState, plan: ModePlan, sample: PowerSample)
    ensures
        radios_off_only_when_idle(
            tune_phase(s, plan, sample).1,
            sample.wifi_connected,
            sample.bluetooth_connected,
        ),
{
    let w = sample.wifi_connected;
    let bt = sample.bluetooth_connected;
    if plan.eco_caps {
        lemma_eco_policy_radios(sample.tuning, w, bt);
        lemma_eco_device_radios(s, sample);
        lemma_radios_concat(eco_policy_ops(sample.tuning), eco_device_ops(s, sample), w, bt);
    } else if sample.is_on_ac || sample.cool {
        let r = restore_ops(s, sample);
        assert(radios_off_only_when_idle(r, w, bt));
    }
}

/// A radio is blocked only while it carries no connection.
pub proof fn law_radio_off_only_when_idle(s: PowerState, sample: PowerSample)
    ensures
        radios_off_only_when_idle(
            step(s, sample).1,
            sample.wifi_connected,
            sample.bluetooth_connected,
        ),
{
    let plan = sample_plan(s, sample);
    let now = sample.now_ns;
    let s1 = note_load(s, sample.high_load, now);
    let s2 = shift_state(s1, plan, now);
    let (s3, core_ops, target) = cores_phase(s2, plan, sample);
    let (s4, tune_ops) = tune_phase(s3, plan, sample);
    let w = sample.wifi_connected;
    let bt = sample.bluetooth_connected;
    let f = seq![PowerOp::FanPolicy(plan.fan_policy)];
    let a = shift_ops(s1, plan, now);
    let t = thermal_ops(sample.max_perf_pct, target, plan.target);
    assert forall|i: int| 0 <= i < f.len() implies !(#[trigger] f[i] is Radio) by {}
    lemma_no_radio_off(f, w, bt);
    assert forall|i: int| 0 <= i < a.len() implies !(#[trigger] a[i] is Radio) by {
        if shift_due(s1, plan.target, now) {
            let h = tier_hardware_ops(s1, plan.target, now);
            assert(h.len() == 4);
        }
    }
    lemma_no_radio_off(a, w, bt);
    lemma_cores_phase_no_radio(s2, plan, sample);
    assert forall|i: int| 0 <= i < t.len() implies !(#[trigger] t[i] is Radio) by {}
    lemma_no_radio_off(t, w, bt);
    lemma_tune_radios(s3, plan, sample);
    lemma_radios_concat(f, a, w, bt);
    lemma_radios_concat(f + a, core_ops, w, bt);
    lemma_radios_concat(f + a + core_ops, t, w, bt);
    lemma_radios_concat(f + a + core_ops + t, tune_ops, w, bt);
}

proof fn lemma_cores_phase_no_radio(s: PowerState, plan: ModePlan, sample: PowerSample)
    ensures
        radios_off_only_when_idle(
            cores_phase(s, plan, sample).1,
            sample.wifi_connected,
            sample.bluetooth_connected,
        ),
{
    let o = cores_phase(s, plan, sample).1;
    assert forall|i: int| 0 <= i < o.len() implies !(#[trigger] o[i] is Radio) by {
        let floor = core_floor(s.total_cores, s.current_tier, sample.is_on_ac);
        let clamped = clamp(ideal_cores(s, plan, sample), floor, plan.max_cores);
        let s3 = burst_state(s, sample.load_percent, sample.load_burst);
        let (target, ticks) = core_target(s3, clamped);
        let s4 = PowerState { low_load_ticks: ticks, ..s3 };
        let b = op_if(sample.load_burst, PowerOp::LoadBurst);
        if target != s3.current_unpark_count && park_due(s4, sample.now_ns) {
            let p = park_ops(s4, target, sample.now_ns);
            let c = core_online_ops(s4.total_cores, target);
            assert(p == seq![PowerOp::ParkCores(target)] + c);
            if i < b.len() {
                assert(o[i] == b[i]);
            } else if i == b.len() {
                assert(o[i] == p[0]);
            } else {
                assert(o[i] == p[i - b.len()]);
                assert(p[i - b.len()] == c[i - b.len() - 1]);
            }
        }
    }
    lemma_no_radio_off(o, sample.wifi_connected, sample.bluetooth_connected);
}

/// Turbo is forbidden under any thermal cap: the published state follows the cap's write,
/// with turbo switched off between the two exactly when the cap is below 100 %.
pub proof fn law_turbo_off_under_thermal_cap(s: PowerState, sample: PowerSample)
    ensures
        ({
            let ops = step(s, sample).1;
            let p = sample.max_perf_pct;
            exists|r: int|
                0 <= r < ops.len() && (#[trigger] ops[r] matches PowerOp::Report {
                    max_perf_pct,
                    ..
                } && max_perf_pct == p) && if p < 100 {
                    r >= 2 && ops[r - 1] == PowerOp::Turbo(false) && ops[r - 2] == PowerOp::MaxPerfPct(p)
                } else {
                    r >= 1 && ops[r - 1] == PowerOp::MaxPerfPct(p)
                }
        }),
{
    let plan = sample_plan(s, sample);
    let now = sample.now_ns;
    let s1 = note_load(s, sample.high_load, now);
    let s2 = shift_state(s1, plan, now);
    let (s3, core_ops, target) = cores_phase(s2, plan, sample);
    let (s4, tune_ops) = tune_phase(s3, plan, sample);
    let p = sample.max_perf_pct;
    let head = seq![PowerOp::FanPolicy(plan.fan_policy)] + shift_ops(s1, plan, now) + core_ops;
    let t = thermal_ops(p, target, plan.target);
    let ops = step(s, sample).1;
    assert(ops == head + t + tune_ops);
    let b = head.len() as int;
    if p < 100 {
        assert(t =~= seq![
            PowerOp::MaxPerfPct(p),
            PowerOp::Turbo(false),
            PowerOp::Report { unpark_count: target, tier: plan.target, max_perf_pct: p },
        ]);
        assert(ops[b] == t[0]);
        assert(ops[b + 1] == t[1]);
        assert(ops[b + 2] == t[2]);
        assert(ops[b + 2] matches PowerOp::Report { max_perf_pct, .. } && max_perf_pct == p);
    } else {
        assert(t =~= seq![
            PowerOp::MaxPerfPct(p),
            PowerOp::Report { unpark_count: target, tier: plan.target, max_perf_pct: p },
        ]);
        assert(ops[b] == t[0]);
        assert(ops[b + 1] == t[1]);
        assert(ops[b + 1] matches PowerOp::Report { max_perf_pct, .. } && max_perf_pct == p);
    }
}

/// The settings of each tier: the fast tiers always end with turbo on and no performance
/// cap; the frugal tiers keep turbo (and no cap) only within 15 s of the last high load,
/// and otherwise switch turbo off under a 70 % cap.
pub proof fn law_tier_settings(s: PowerState, tier: Tier, now: u64)
    ensures
        ({
            let ops = tier_hardware_ops(s, tier, now);
            let recent = elapsed(now, s.last_high_load_ns) < 15000000000;
            &&& tier == Tier::Performance ==> ops == seq![
                PowerOp::CpuGovernor(Governor::Performance),
                PowerOp::CpuEnergyPreference(EnergyPreference::BalancePerformance),
                PowerOp::Turbo(true),
                PowerOp::MaxPerfPct(100),
            ]
            &&& tier == Tier::Extreme ==> ops == seq![
                PowerOp::CpuGovernor(Governor::Performance),
                PowerOp::CpuEnergyPreference(EnergyPreference::Performance),
                PowerOp::Turbo(true),
                PowerOp::MaxPerfPct(100),
            ]
            &&& tier == Tier::Balanced ==> ops == seq![
                PowerOp::CpuGovernor(Governor::Powersave),
                PowerOp::CpuEnergyPreference(EnergyPreference::BalancePower),
                PowerOp::Turbo(recent),
                PowerOp::MaxPerfPct(if recent { 100 } else { 70 }),
            ]
            &&& tier == Tier::Eco ==> ops == seq![
                PowerOp::CpuGovernor(Governor::Powersave),
                PowerOp::CpuEnergyPreference(EnergyPreference::Power),
                PowerOp::Turbo(recent),
                PowerOp::MaxPerfPct(if recent { 100 } else { 70 }),
            ]
        }),
{
    let ops = tier_hardware_ops(s, tier, now);
    let recent = elapsed(now, s.last_high_load_ns) < 15000000000;
    let on = tier_wants_turbo(tier) || recent;
    assert(ops =~= seq![
        PowerOp::CpuGovernor(tier_governor(tier)),
        PowerOp::CpuEnergyPreference(tier_preference(tier)),
        PowerOp::Turbo(on),
        PowerOp::MaxPerfPct(if on { 100 } else { 70 }),
    ]);
}

/// An `hci*` adapter whose trimmed `conn_count` parses as a `u32` counts as connected
/// exactly when that count is above zero; one connection is enough.
pub proof fn law_bluetooth_connection_count(name: Seq<char>, count_text: Seq<char>, n: nat)
    requires
        name.len() >= 3,
        name[0] == 'h',
        name[1] == 'c',
        name[2] == 'i',
        parse_unsigned(trim(count_text), u32::MAX as nat) == Some(n),
    ensures
        bluetooth_link_up((name, Some(count_text))) <==> n > 0,
        n == 1 ==> bluetooth_link_up((name, Some(count_text))),
        n == 0 ==> !bluetooth_link_up((name, Some(count_text))),
{
}

/// An adapter that is not `hci*`, or whose count is missing or unreadable, never counts.
pub proof fn law_bluetooth_needs_a_count(name: Seq<char>, content: Option<Seq<char>>)
    requires
        !(name.len() >= 3 && name[0] == 'h' && name[1] == 'c' && name[2] == 'i') || content is None
            || (content matches Some(c) && parse_unsigned(trim(c), u32::MAX as nat) is None),
    ensures
        !bluetooth_link_up((name, content)),
{
}

} // verus!
