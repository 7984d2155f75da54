//! CPU usage accounting from `/proc/stat` tick counters, and the per-core facts read
//! from sysfs.
use vstd::prelude::*;
use vstd::string::*;
pub use crate::events::{Monitor, SystemEvent};
use crate::power::{cpu_entry, is_cpu_entry};
use crate::text::{
    parse_u64, parse_u8, parse_unsigned, parse_usize, slice_chars, string_from_chars, to_chars,
    trim, trim_chars,
};

verus! {

broadcast use vstd::seq_lib::group_to_multiset_ensures;

/// One CPU's line of `/proc/stat`, in clock ticks; the later columns are missing on old kernels.
#[derive(Debug, Clone, Copy, PartialEq, Eq, Structural)]
pub struct CpuTicks {
    pub user: u64,
    pub nice: u64,
    pub system: u64,
    pub idle: u64,
    pub iowait: Option<u64>,
    pub irq: Option<u64>,
    pub softirq: Option<u64>,
    pub steal: Option<u64>,
}

pub open spec fn or_zero(v: Option<u64>) -> int {
    match v {
        Some(x) => x as int,
        None => 0,
    }
}

/// Every tick counted: user, nice, system, idle, iowait, irq, softirq and steal.
pub open spec fn total_ticks(t: CpuTicks) -> int {
    t.user + t.nice + t.system + t.idle + or_zero(t.iowait) + or_zero(t.irq) + or_zero(t.softirq)
        + or_zero(t.steal)
}

/// Ticks spent idle or waiting for I/O.
pub open spec fn idle_ticks(t: CpuTicks) -> int {
    t.idle + or_zero(t.iowait)
}

pub open spec fn active_ticks(t: CpuTicks) -> int {
    total_ticks(t) - idle_ticks(t)
}

/// Whether the sum of the counters fits in a `u64` (the sum overflows otherwise).
pub open spec fn ticks_in_range(t: CpuTicks) -> bool {
    total_ticks(t) <= u64::MAX
}

fn or_zero_exec(v: Option<u64>) -> (x: u64)
    ensures
        x == or_zero(v),
{
    match v {
        Some(x) => x,
        None => 0,
    }
}

impl CpuTicks {
    pub fn in_range(&self) -> (b: bool)
        ensures
            b == ticks_in_range(*self),
    {
        let sum: u128 = self.user as u128 + self.nice as u128 + self.system as u128
            + self.idle as u128 + or_zero_exec(self.iowait) as u128 + or_zero_exec(self.irq) as u128
            + or_zero_exec(self.softirq) as u128 + or_zero_exec(self.steal) as u128;
        sum <= u64::MAX as u128
    }

    /// The total and the active (non-idle) tick counts.
    pub fn totals(&self) -> (r: (u64, u64))
        requires
            ticks_in_range(*self),
        ensures
            r.0 == total_ticks(*self),
            r.1 == active_ticks(*self),
    {
        let total = self.user + self.nice + self.system + self.idle + or_zero_exec(self.iowait)
            + or_zero_exec(self.irq) + or_zero_exec(self.softirq) + or_zero_exec(self.steal);
        let idle = self.idle + or_zero_exec(self.iowait);
        (total, total - idle)
    }
}

/// `a - b`, or zero where `b` is larger (`saturating_sub`).
pub open spec fn saturating_diff(a: int, b: int) -> int {
    if a >= b {
        a - b
    } else {
        0
    }
}

/// The growth of the active and of the total tick count since the previous reading.
pub open spec fn tick_delta(t: CpuTicks, prev_total: u64, prev_active: u64) -> (u64, u64) {
    (
        saturating_diff(active_ticks(t), prev_active as int) as u64,
        saturating_diff(total_ticks(t), prev_total as int) as u64,
    )
}

/// Tick growth since the previous reading: for the whole machine, where `/proc/stat`
/// lists anything, and for each core that was seen before (`None` for a new core).
pub struct UsageDeltas {
    pub total: Option<(u64, u64)>,
    pub cores: Vec<Option<(u64, u64)>>,
}

/// The counters of the previous reading: the machine's total and active ticks, and
/// each core's (total, active) pair.
pub struct UsageTracker {
    prev_total: u64,
    prev_active: u64,
    prev_core_ticks: Vec<(u64, u64)>,
}

impl View for UsageTracker {
    type V = (u64, u64, Seq<(u64, u64)>);

    closed spec fn view(&self) -> (u64, u64, Seq<(u64, u64)>) {
        (self.prev_total, self.prev_active, self.prev_core_ticks@)
    }
}

impl UsageTracker {
    /// A tracker that has seen nothing: every count starts at zero.
    pub fn new() -> (t: UsageTracker)
        ensures
            t@ == (0u64, 0u64, Seq::<(u64, u64)>::empty()),
    {
        UsageTracker { prev_total: 0, prev_active: 0, prev_core_ticks: Vec::new() }
    }

    /// Takes a reading of `/proc/stat` (`cpus[0]` the machine, then one line per core)
    /// and gives the growth of each count since the previous one.
    pub fn update(&mut self, cpus: &Vec<CpuTicks>) -> (d: UsageDeltas)
        requires
            forall|i: int| 0 <= i < cpus@.len() ==> ticks_in_range(#[trigger] cpus@[i]),
        ensures
            cpus@.len() == 0 ==> d.total is None && d.cores@.len() == 0 && final(self)@ == old(
                self,
            )@,
            cpus@.len() > 0 ==> {
                let (pt, pa, pc) = old(self)@;
                let (nt, na, nc) = final(self)@;
                let n = cpus@.len() - 1;
                &&& d.total == Some(tick_delta(cpus@[0], pt, pa))
                &&& nt == total_ticks(cpus@[0])
                &&& na == active_ticks(cpus@[0])
                &&& d.cores@.len() == n
                &&& forall|i: int|
                    0 <= i < n ==> #[trigger] d.cores@[i] == if i < pc.len() {
                        Some(tick_delta(cpus@[i + 1], pc[i].0, pc[i].1))
                    } else {
                        None
                    }
                &&& nc.len() == if pc.len() > n {
                    pc.len()
                } else {
                    n as nat
                }
                &&& forall|i: int|
                    0 <= i < nc.len() ==> #[trigger] nc[i] == if i < n {
                        (total_ticks(cpus@[i + 1]) as u64, active_ticks(cpus@[i + 1]) as u64)
                    } else {
                        pc[i]
                    }
            },
    {
        let mut cores: Vec<Option<(u64, u64)>> = Vec::new();
        if cpus.len() == 0 {
            return UsageDeltas { total: None, cores };
        }
        let (total, active) = cpus[0].totals();
        let delta_total = if total >= self.prev_total { total - self.prev_total } else { 0 };
        let delta_active = if active >= self.prev_active { active - self.prev_active } else { 0 };
        self.prev_total = total;
        self.prev_active = active;
        let ghost pc = old(self)@.2;
        let n = cpus.len() - 1;
        let mut idx: usize = 0;
        while idx < n
            invariant
                n == cpus@.len() - 1,
                idx <= n,
                pc == old(self)@.2,
                self.prev_total == total_ticks(cpus@[0]),
                self.prev_active == active_ticks(cpus@[0]),
                (delta_active, delta_total) == tick_delta(cpus@[0], old(self)@.0, old(self)@.1),
                forall|i: int| 0 <= i < cpus@.len() ==> ticks_in_range(#[trigger] cpus@[i]),
                cores@.len() == idx,
                self.prev_core_ticks@.len() >= idx,
                self.prev_core_ticks@.len() == if pc.len() > idx {
                    pc.len()
                } else {
                    idx as nat
                },
                forall|i: int|
                    0 <= i < idx ==> #[trigger] cores@[i] == if i < pc.len() {
                        Some(tick_delta(cpus@[i + 1], pc[i].0, pc[i].1))
                    } else {
                        None
                    },
                forall|i: int|
                    0 <= i < self.prev_core_ticks@.len() ==> #[trigger] self.prev_core_ticks@[i]
                        == if i < idx {
                        (total_ticks(cpus@[i + 1]) as u64, active_ticks(cpus@[i + 1]) as u64)
                    } else {
                        pc[i]
                    },
            decreases n - idx,
        {
            let (cur_total, cur_active) = cpus[idx + 1].totals();
            if self.prev_core_ticks.len() > idx {
                let (prev_total, prev_active) = self.prev_core_ticks[idx];
                let dt = if cur_total >= prev_total { cur_total - prev_total } else { 0 };
                let da = if cur_active >= prev_active { cur_active - prev_active } else { 0 };
                cores.push(Some((da, dt)));
                self.prev_core_ticks.set(idx, (cur_total, cur_active));
            } else {
                cores.push(None);
                self.prev_core_ticks.push((cur_total, cur_active));
            }
            idx = idx + 1;
        }
        UsageDeltas { total: Some((delta_active, delta_total)), cores }
    }
}

/// A CPU directory's number: the digits after `cpu`, where they parse as a `usize`.
pub open spec fn cpu_id(name: Seq<char>) -> Option<nat> {
    if is_cpu_entry(name) {
        parse_unsigned(name.skip(3), usize::MAX as nat)
    } else {
        None
    }
}

pub fn cpu_id_of(name: &[char]) -> (r: Option<usize>)
    ensures
        match cpu_id(name@) {
            Some(v) => r == Some(v as usize),
            None => r is None,
        },
{
    if !cpu_entry(name) {
        return None;
    }
    let digits = slice_chars(name, 3, name.len());
    assert(digits@ =~= name@.skip(3));
    parse_usize(digits.as_slice())
}

/// The numbers of the CPU directories among `names`, in the order listed.
pub open spec fn cpu_ids(names: Seq<Seq<char>>) -> Seq<usize>
    decreases names.len(),
{
    if names.len() == 0 {
        Seq::empty()
    } else {
        cpu_ids(names.drop_last()) + match cpu_id(names.last()) {
            Some(v) => seq![v as usize],
            None => Seq::<usize>::empty(),
        }
    }
}

pub open spec fn ascending(s: Seq<usize>) -> bool {
    forall|i: int, j: int| 0 <= i < j < s.len() ==> s[i] <= s[j]
}

/// The CPU numbers of the entries of `/sys/devices/system/cpu`, in ascending order.
pub fn sorted_cpu_ids(names: &Vec<String>) -> (ids: Vec<usize>)
    ensures
        ascending(ids@),
        ids@.to_multiset() == cpu_ids(names.deep_view()).to_multiset(),
{
    let mut ids: Vec<usize> = Vec::new();
    let mut k: usize = 0;
    while k < names.len()
        invariant
            k <= names@.len(),
            ascending(ids@),
            ids@.to_multiset() == cpu_ids(names.deep_view().take(k as int)).to_multiset(),
        decreases names.len() - k,
    {
        let chars = to_chars(names[k].as_str());
        let ghost d = names.deep_view();
        proof {
            assert(d.take(k + 1).drop_last() =~= d.take(k as int));
            assert(d.take(k + 1).last() == names@[k as int]@);
        }
        match cpu_id_of(chars.as_slice()) {
            Some(id) => {
                let mut j = ids.len();
                while j > 0 && ids[j - 1] > id
                    invariant
                        j <= ids@.len(),
                        forall|m: int| j <= m < ids@.len() ==> ids@[m] > id,
                    decreases j,
                {
                    j = j - 1;
                }
                let ghost before = ids@;
                ids.insert(j, id);
                proof {
                    assert(ascending(ids@)) by {
                        assert forall|a: int, b: int| 0 <= a < b < ids@.len() implies ids@[a]
                            <= ids@[b] by {
                            if b < j {
                            } else if a > j {
                                assert(ids@[a] == before[a - 1]);
                                assert(ids@[b] == before[b - 1]);
                            } else if a == j {
                                assert(ids@[b] == before[b - 1]);
                            } else {
                                if b == j {
                                    assert(before[j - 1] <= id);
                                    assert(before[a] <= before[j - 1]);
                                } else {
                                    assert(ids@[b] == before[b - 1]);
                                }
                            }
                        }
                    }
                    assert(cpu_ids(d.take(k + 1)) =~= cpu_ids(d.take(k as int)).push(id));
                }
            },
            None => {
                proof {
                    assert(cpu_ids(d.take(k + 1)) =~= cpu_ids(d.take(k as int)));
                }
            },
        }
        k = k + 1;
    }
    assert(names.deep_view().take(names@.len() as int) =~= names.deep_view());
    ids
}

/// A frequency file's value in MHz: its trimmed text as kHz divided by 1000, or
/// `default` where the file cannot be read or parsed.
pub open spec fn frequency_mhz(raw: Option<Seq<char>>, default: u64) -> u64 {
    match raw {
        Some(s) => match parse_unsigned(trim(s), u64::MAX as nat) {
            Some(khz) => (khz / 1000) as u64,
            None => default,
        },
        None => default,
    }
}

pub open spec fn text_of(raw: Option<&str>) -> Option<Seq<char>> {
    match raw {
        Some(s) => Some(s@),
        None => None,
    }
}

pub fn read_frequency_mhz(raw: Option<&str>, default: u64) -> (mhz: u64)
    ensures
        mhz == frequency_mhz(text_of(raw), default),
{
    match raw {
        Some(s) => {
            let chars = to_chars(s);
            let t = trim_chars(chars.as_slice());
            match parse_u64(t.as_slice()) {
                Some(khz) => khz / 1000,
                None => default,
            }
        },
        None => default,
    }
}

/// A core is online unless its `online` file, trimmed, parses as a `u8` other than 1;
/// core 0 usually has no such file.
pub open spec fn core_online(raw: Option<Seq<char>>) -> bool {
    match raw {
        Some(s) => match parse_unsigned(trim(s), 255) {
            Some(v) => v == 1,
            None => true,
        },
        None => true,
    }
}

pub fn read_core_online(raw: Option<&str>) -> (b: bool)
    ensures
        b == core_online(text_of(raw)),
{
    match raw {
        Some(s) => {
            let chars = to_chars(s);
            let t = trim_chars(chars.as_slice());
            match parse_u8(t.as_slice()) {
                Some(v) => v == 1,
                None => true,
            }
        },
        None => true,
    }
}

/// A core's governor: the trimmed text of its `scaling_governor` file, `unknown` where
/// it cannot be read.
pub open spec fn governor_text(raw: Option<Seq<char>>) -> Seq<char> {
    match raw {
        Some(s) => trim(s),
        None => trim("unknown"@),
    }
}

pub fn read_governor(raw: Option<&str>) -> (g: String)
    ensures
        g@ == governor_text(text_of(raw)),
{
    let chars = match raw {
        Some(s) => to_chars(s),
        None => to_chars("unknown"),
    };
    let t = trim_chars(chars.as_slice());
    string_from_chars(&t)
}

/// The sysfs facts of one core.
pub struct CoreSysfs {
    pub id: usize,
    pub frequency: u64,
    pub max_frequency: u64,
    pub online: bool,
    pub governor: String,
}

/// The facts of core `id` from the texts of its `scaling_cur_freq`, `scaling_max_freq`,
/// `scaling_governor` and `online` files: frequencies in MHz (0 and 5000 where unknown).
pub fn core_sysfs(
    id: usize,
    cur_freq: Option<&str>,
    max_freq: Option<&str>,
    governor: Option<&str>,
    online: Option<&str>,
) -> (c: CoreSysfs)
    ensures
        c.id == id,
        c.frequency == frequency_mhz(text_of(cur_freq), 0),
        c.max_frequency == frequency_mhz(text_of(max_freq), 5000),
        c.governor@ == governor_text(text_of(governor)),
        c.online == core_online(text_of(online)),
{
    CoreSysfs {
        id,
        frequency: read_frequency_mhz(cur_freq, 0),
        max_frequency: read_frequency_mhz(max_freq, 5000),
        online: read_core_online(online),
        governor: read_governor(governor),
    }
}

/// Thermal zones whose `type` file, trimmed, names a CPU sensor.
pub open spec fn cpu_thermal_type(raw: Seq<char>) -> bool {
    let t = trim(raw);
    t == "x86_pkg_temp"@ || t == "TCPU"@ || t == "acpitz"@
}

pub fn is_cpu_thermal_zone(type_text: &str) -> (b: bool)
    ensures
        b == cpu_thermal_type(type_text@),
{
    let chars = to_chars(type_text);
    let t = trim_chars(chars.as_slice());
    let a = to_chars("x86_pkg_temp");
    let b = to_chars("TCPU");
    let c = to_chars("acpitz");
    crate::text::chars_equal(t.as_slice(), a.as_slice()) || crate::text::chars_equal(
        t.as_slice(),
        b.as_slice(),
    ) || crate::text::chars_equal(t.as_slice(), c.as_slice())
}

} // verus!
